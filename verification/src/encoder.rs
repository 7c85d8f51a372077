//! Stream encoders: what is written to one goes on, encoded, to the sink
//! behind it.
use crate::sink::{Sink, SinkFailure};
use vstd::prelude::*;

verus! {

/// Something that bytes can be written to for encoding.
pub trait Encoder: Sized {
    /// Encodes `bytes` and passes them on.
    fn write_all(&mut self, bytes: &[u8]) -> (r: Result<(), SinkFailure>);

    /// Ends the stream and hands nothing back.
    fn finish(self) -> (r: Result<(), SinkFailure>);
}

/// The stream encoder that encodes nothing: bytes go to the sink as they are.
pub struct CopyTo<W: Sink>(W);

impl<W: Sink> CopyTo<W> {
    /// The sink behind this encoder.
    pub closed spec fn output(&self) -> W {
        self.0
    }

    /// A pass-through encoder in front of `output`.
    pub fn new(output: W) -> (c: CopyTo<W>)
        ensures
            c.output() == output,
    {
        CopyTo(output)
    }

    /// Gives the sink back.
    pub fn into_inner(self) -> (output: W)
        ensures
            output == self.output(),
    {
        self.0
    }
}

impl<W: Sink> Encoder for CopyTo<W> {
    /// Writes `bytes` to the sink, unchanged, where the sink has room for
    /// them.
    fn write_all(&mut self, bytes: &[u8]) -> (r: Result<(), SinkFailure>)
        ensures
            r is Ok <==> old(self).output().takes(bytes@.len()),
            r is Ok ==> final(self).output().extends(&old(self).output(), bytes@),
            r is Err ==> final(self).output() == old(self).output(),
    {
        self.0.write_all(bytes)
    }

    /// Nothing is buffered, so there is nothing left to write.
    fn finish(self) -> (r: Result<(), SinkFailure>)
        ensures
            r is Ok,
    {
        Ok(())
    }
}

} // verus!
