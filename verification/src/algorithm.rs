//! The algorithms on offer, their file-extension tokens and their levels.
use vstd::prelude::*;

verus! {

/// The closed set of algorithms.
#[derive(Clone, Copy, Debug, PartialEq, Eq, Structural)]
pub enum Algorithm {
    Copy,
    Lz4,
    Zstd,
    Brotli,
    Snappy,
    Lzma,
    Lzav,
}

/// The whole numbers from `lo` to `hi`, both included, in rising order.
pub open spec fn int_range(lo: int, hi: int) -> Seq<i32> {
    Seq::new((hi - lo + 1) as nat, |i: int| (lo + i) as i32)
}

/// Appends the numbers from `lo` to `hi`, both included, to `levels`.
fn push_range(levels: &mut Vec<i32>, lo: i32, hi: i32)
    requires
        lo <= hi < i32::MAX,
    ensures
        final(levels)@ == old(levels)@ + int_range(lo as int, hi as int),
{
    let mut next: i32 = lo;
    while next <= hi
        invariant
            lo <= next <= hi + 1,
            hi < i32::MAX,
            levels@ == old(levels)@ + int_range(lo as int, next - 1),
        decreases hi + 1 - next,
    {
        levels.push(next);
        next += 1;
    }
}

impl Algorithm {
    /// The token that names this algorithm in a file extension.
    pub open spec fn extension_spec(self) -> Seq<char> {
        match self {
            Algorithm::Copy => "bak"@,
            Algorithm::Zstd => "zstd"@,
            Algorithm::Lz4 => "lz4"@,
            Algorithm::Brotli => "br"@,
            Algorithm::Snappy => "sz"@,
            Algorithm::Lzma => "xz"@,
            Algorithm::Lzav => "lzav"@,
        }
    }

    /// The algorithm that an extension token names.
    pub open spec fn from_extension_spec(extension: Seq<char>) -> Option<Algorithm> {
        if extension == "bak"@ {
            Some(Algorithm::Copy)
        } else if extension == "zstd"@ {
            Some(Algorithm::Zstd)
        } else if extension == "lz4"@ {
            Some(Algorithm::Lz4)
        } else if extension == "br"@ {
            Some(Algorithm::Brotli)
        } else if extension == "sz"@ {
            Some(Algorithm::Snappy)
        } else if extension == "xz"@ {
            Some(Algorithm::Lzma)
        } else if extension == "lzav"@ {
            Some(Algorithm::Lzav)
        } else {
            None
        }
    }

    /// The levels that a sweep over this algorithm runs through, in order.
    pub open spec fn levels_spec(self) -> Seq<i32> {
        match self {
            Algorithm::Copy => seq![0i32],
            Algorithm::Zstd => int_range(-7, -1) + int_range(1, 12),
            Algorithm::Lz4 => int_range(-9, -1) + int_range(1, 9),
            Algorithm::Brotli => int_range(1, 8),
            Algorithm::Snappy => seq![0i32],
            Algorithm::Lzma => seq![0i32],
            Algorithm::Lzav => seq![0i32, 1i32],
        }
    }

    /// The levels that this algorithm can be set up with. The pass-through
    /// and Snappy have no levels: any number is taken and changes nothing.
    /// LZ4 takes -9 to 9: below zero the fast tier, zero the default tier,
    /// above zero the high-compression tier. Zstandard takes -7 to -1 and 1
    /// to 12, Brotli 1 to 8, LZMA the presets 0 to 9, LZAV 0 and 1.
    pub open spec fn supports_level_spec(self, level: i32) -> bool {
        match self {
            Algorithm::Copy => true,
            Algorithm::Snappy => true,
            Algorithm::Lz4 => -9 <= level <= 9,
            Algorithm::Zstd => -7 <= level <= -1 || 1 <= level <= 12,
            Algorithm::Brotli => 1 <= level <= 8,
            Algorithm::Lzma => 0 <= level <= 9,
            Algorithm::Lzav => 0 <= level <= 1,
        }
    }

    /// Whether a dictionary changes what this algorithm writes and reads.
    /// Where it does not, a dictionary is taken and has no effect.
    pub open spec fn uses_dictionary_spec(self) -> bool {
        self == Algorithm::Zstd || self == Algorithm::Brotli
    }

    /// The token that names this algorithm in a file extension.
    pub fn extension(&self) -> (token: &'static str)
        ensures
            token@ == self.extension_spec(),
    {
        match self {
            Algorithm::Copy => "bak",
            Algorithm::Zstd => "zstd",
            Algorithm::Lz4 => "lz4",
            Algorithm::Brotli => "br",
            Algorithm::Snappy => "sz",
            Algorithm::Lzma => "xz",
            Algorithm::Lzav => "lzav",
        }
    }

    /// The algorithm that an extension token names, if it names one.
    pub fn from_extension(extension: &str) -> (r: Option<Algorithm>)
        ensures
            r == Algorithm::from_extension_spec(extension@),
    {
        let given = extension.to_owned();
        if given == "bak".to_owned() {
            Some(Algorithm::Copy)
        } else if given == "zstd".to_owned() {
            Some(Algorithm::Zstd)
        } else if given == "lz4".to_owned() {
            Some(Algorithm::Lz4)
        } else if given == "br".to_owned() {
            Some(Algorithm::Brotli)
        } else if given == "sz".to_owned() {
            Some(Algorithm::Snappy)
        } else if given == "xz".to_owned() {
            Some(Algorithm::Lzma)
        } else if given == "lzav".to_owned() {
            Some(Algorithm::Lzav)
        } else {
            None
        }
    }

    /// The levels that a sweep over this algorithm runs through, in order.
    pub fn get_compression_levels(&self) -> (levels: Vec<i32>)
        ensures
            levels@ == self.levels_spec(),
    {
        let mut levels: Vec<i32> = Vec::new();
        match self {
            Algorithm::Copy | Algorithm::Snappy | Algorithm::Lzma => {
                levels.push(0);
            },
            Algorithm::Zstd => {
                push_range(&mut levels, -7, -1);
                push_range(&mut levels, 1, 12);
            },
            Algorithm::Lz4 => {
                push_range(&mut levels, -9, -1);
                push_range(&mut levels, 1, 9);
            },
            Algorithm::Brotli => {
                push_range(&mut levels, 1, 8);
            },
            Algorithm::Lzav => {
                levels.push(0);
                levels.push(1);
            },
        }
        levels
    }

    /// Whether this algorithm can be set up with `level`.
    pub fn supports_level(&self, level: i32) -> (b: bool)
        ensures
            b == self.supports_level_spec(level),
    {
        match self {
            Algorithm::Copy => true,
            Algorithm::Snappy => true,
            Algorithm::Lz4 => -9 <= level && level <= 9,
            Algorithm::Zstd => (-7 <= level && level <= -1) || (1 <= level && level <= 12),
            Algorithm::Brotli => 1 <= level && level <= 8,
            Algorithm::Lzma => 0 <= level && level <= 9,
            Algorithm::Lzav => 0 <= level && level <= 1,
        }
    }

    /// Whether a dictionary changes what this algorithm writes and reads.
    pub fn uses_dictionary(&self) -> (b: bool)
        ensures
            b == self.uses_dictionary_spec(),
    {
        match self {
            Algorithm::Zstd => true,
            Algorithm::Brotli => true,
            _ => false,
        }
    }
}

/// Every algorithm is found again from its own extension token: no two
/// algorithms share one.
pub proof fn lemma_extension_names_algorithm(algorithm: Algorithm)
    ensures
        Algorithm::from_extension_spec(algorithm.extension_spec()) == Some(algorithm),
{
    reveal_strlit("bak");
    reveal_strlit("zstd");
    reveal_strlit("lz4");
    reveal_strlit("br");
    reveal_strlit("sz");
    reveal_strlit("xz");
    reveal_strlit("lzav");
    assert("zstd"@.len() == 4 && "lzav"@.len() == 4);
    assert("br"@.len() == 2 && "sz"@.len() == 2 && "xz"@.len() == 2);
    assert("bak"@[0] == 'b' && "lz4"@[0] == 'l');
    assert("zstd"@[0] == 'z' && "lzav"@[0] == 'l');
    assert("br"@[0] == 'b' && "sz"@[0] == 's' && "xz"@[0] == 'x');
}

/// An algorithm can be set up with every level that its sweep runs through.
pub proof fn lemma_sweep_levels_supported(algorithm: Algorithm, i: int)
    requires
        0 <= i < algorithm.levels_spec().len(),
    ensures
        algorithm.supports_level_spec(algorithm.levels_spec()[i]),
{
}

} // verus!
