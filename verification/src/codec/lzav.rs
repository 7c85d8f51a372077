//! LZAV in block mode: the two quality tiers, and how the counts that the
//! native calls return are read.
use crate::codec::CodecFailure;
use vstd::prelude::*;

verus! {

/// The two tiers of LZAV.
#[derive(Clone, Copy, Debug, PartialEq, Eq, Structural)]
pub enum CompressionLevel {
    Default,
    Hi,
}

/// Compresses at the tier it holds.
pub struct LzavCompressor(CompressionLevel);

/// Decompresses LZAV blocks of either tier.
pub struct LzavDecompressor;

impl LzavCompressor {
    /// The tier that this encoder compresses at.
    pub closed spec fn level_spec(&self) -> CompressionLevel {
        self.0
    }

    /// The default tier for level 0, the high tier for level 1. There is no
    /// other level.
    pub fn new(compression_level: u32) -> (c: LzavCompressor)
        requires
            compression_level <= 1,
        ensures
            c.level_spec() == if compression_level == 0 {
                CompressionLevel::Default
            } else {
                CompressionLevel::Hi
            },
    {
        if compression_level == 0 {
            LzavCompressor(CompressionLevel::Default)
        } else {
            LzavCompressor(CompressionLevel::Hi)
        }
    }

    /// The tier that this encoder compresses at.
    pub fn level(&self) -> (l: CompressionLevel)
        ensures
            l == self.level_spec(),
    {
        self.0
    }
}

/// Reads the count that an LZAV call returned for a buffer of `capacity`
/// bytes: a count from one up to the capacity is the number of bytes written;
/// zero, a negative error code, or a count that the buffer could not hold
/// says that the call failed.
pub fn count_to_result(count: i32, capacity: usize) -> (r: Result<usize, CodecFailure>)
    ensures
        match r {
            Ok(n) => 0 < count && n == count && n <= capacity,
            Err(_) => count <= 0 || count > capacity,
        },
{
    if count <= 0 {
        Err(CodecFailure)
    } else if count as usize > capacity {
        Err(CodecFailure)
    } else {
        Ok(count as usize)
    }
}

} // verus!
