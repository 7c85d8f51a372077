//! Stream decoders: what is read from one comes, decoded, from the source
//! behind it.
use crate::source::{Source, SourceFailure};
use vstd::prelude::*;

verus! {

/// Something that decoded bytes can be read from.
pub trait Decoder: Sized {
    /// Reads decoded bytes into the front of `bytes` and returns how many.
    fn read(&mut self, bytes: &mut [u8]) -> (r: Result<usize, SourceFailure>)
        ensures
            final(bytes)@.len() == old(bytes)@.len(),
            r matches Ok(n) ==> n <= old(bytes)@.len(),
    ;
}

/// The stream decoder that decodes nothing: bytes come from the source as
/// they are.
pub struct CopyFrom<R: Source>(R);

impl<R: Source> CopyFrom<R> {
    /// The source behind this decoder.
    pub closed spec fn input(&self) -> R {
        self.0
    }

    /// A pass-through decoder in front of `input`.
    pub fn new(input: R) -> (c: CopyFrom<R>)
        ensures
            c.input() == input,
    {
        CopyFrom(input)
    }
}

impl<R: Source> Decoder for CopyFrom<R> {
    /// Reads from the source, unchanged: the bytes read are the next bytes of
    /// the source, as many as `bytes` has room for and the source has left,
    /// and the source moves on by as many. Fails, changing nothing, only
    /// where the source fails.
    fn read(&mut self, bytes: &mut [u8]) -> (r: Result<usize, SourceFailure>)
        ensures
            old(self).input().never_fails() ==> r is Ok,
            final(self).input().never_fails() == old(self).input().never_fails(),
            match r {
                Ok(n) => {
                    &&& n <= old(self).input().remaining().len()
                    &&& n == 0 ==> old(bytes)@.len() == 0 || old(self).input().remaining().len()
                        == 0
                    &&& final(bytes)@.subrange(0, n as int) == old(
                        self,
                    ).input().remaining().subrange(0, n as int)
                    &&& final(self).input().remaining() == old(self).input().remaining().skip(
                        n as int,
                    )
                },
                Err(_) => final(self).input().remaining() == old(self).input().remaining()
                    && final(bytes)@ == old(bytes)@,
            },
    {
        self.0.read(bytes)
    }
}

} // verus!
