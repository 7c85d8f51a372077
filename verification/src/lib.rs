//! File compression through one interface over several byte-oriented
//! algorithms: the codec contracts, the registry that sets codecs up, the
//! chunked container of length-prefixed frames, and the measurements that
//! benchmarking rests on.
pub mod algorithm;
pub mod benchmark;
pub mod codec;
pub mod decoder;
pub mod discard;
pub mod encoder;
pub mod frame;
pub mod measure;
pub mod registry;
pub mod roundtrip;
pub mod sink;
pub mod source;
pub mod stream;
