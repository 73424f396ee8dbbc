//! The algorithms a distribution can choose: how chunks are compressed on
//! the wire and how they are hashed.

use vstd::prelude::*;
use crate::text::to_chars;

verus! {

/// How chunk objects are compressed in a repository.
#[derive(Debug, Clone, Copy, PartialEq, Eq, Structural)]
pub enum Compression {
    /// Chunk objects are stored as they are.
    Raw,
    /// Chunk objects are Zstandard streams.
    Zstd,
}

/// The digest algorithm that names chunks.
#[allow(non_camel_case_types)]
#[derive(Debug, Clone, Copy, PartialEq, Eq, Structural)]
pub enum HashType {
    /// BLAKE3, a cryptographic hash. The default.
    Blake3,
    /// XXH3 with 128 bits, a fast hash that is not cryptographic.
    Xxh3_128,
}

/// `c` in lower case, where `c` is an ASCII capital letter; else `c`.
pub open spec fn ascii_lower(c: char) -> char {
    if 'A' <= c <= 'Z' {
        ((c as u32) + 32) as char
    } else {
        c
    }
}

/// `s` with its ASCII capital letters in lower case.
pub open spec fn lower(s: Seq<char>) -> Seq<char> {
    Seq::new(s.len(), |i: int| ascii_lower(s[i]))
}

/// Whether `s`, in lower case, is `word`.
pub fn is_word(s: &[char], word: &[char]) -> (r: bool)
    ensures
        r == (lower(s@) == word@),
{
    if s.len() != word.len() {
        return false;
    }
    let mut i: usize = 0;
    while i < s.len()
        invariant
            i <= s.len(),
            s.len() == word.len(),
            forall|j: int| 0 <= j < i ==> lower(s@)[j] == word@[j],
        decreases s.len() - i,
    {
        let c = s[i];
        let low: char = if 'A' <= c && c <= 'Z' {
            ((c as u8) + 32u8) as char
        } else {
            c
        };
        if low != word[i] {
            assert(lower(s@)[i as int] != word@[i as int]);
            return false;
        }
        i += 1;
    }
    assert(lower(s@) =~= word@);
    true
}

/// The word that names no compression.
pub open spec fn word_none() -> Seq<char> {
    seq!['n', 'o', 'n', 'e']
}

/// The word that names Zstandard.
pub open spec fn word_zstd() -> Seq<char> {
    seq!['z', 's', 't', 'd']
}

/// The word that names BLAKE3.
pub open spec fn word_blake3() -> Seq<char> {
    seq!['b', 'l', 'a', 'k', 'e', '3']
}

/// The word that names XXH3 with 128 bits.
pub open spec fn word_xxh3_128() -> Seq<char> {
    seq!['x', 'x', 'h', '3', '_', '1', '2', '8']
}

impl Compression {
    /// What a chunk object's name ends in, in a repository that compresses
    /// this way.
    pub open spec fn extension_text(self) -> Seq<char> {
        match self {
            Compression::Raw => Seq::empty(),
            Compression::Zstd => seq!['.', 'z', 's', 't', 'd'],
        }
    }

    /// The compression that a manifest names by `value`: `none` or `zstd`,
    /// in either case of the letters.
    pub open spec fn named(value: Seq<char>) -> Option<Compression> {
        if lower(value) == word_none() {
            Some(Compression::Raw)
        } else if lower(value) == word_zstd() {
            Some(Compression::Zstd)
        } else {
            None
        }
    }

    /// What a chunk object's name ends in.
    pub fn extension(self) -> (ext: &'static str)
        ensures
            ext@ == self.extension_text(),
    {
        match self {
            Compression::Raw => {
                proof {
                    reveal_strlit("");
                }
                assert(""@ =~= Seq::<char>::empty());
                ""
            },
            Compression::Zstd => {
                proof {
                    reveal_strlit(".zstd");
                }
                assert(".zstd"@ =~= seq!['.', 'z', 's', 't', 'd']);
                ".zstd"
            },
        }
    }

    /// Reads the value of a `Compression` header.
    pub fn from_name(value: &str) -> (out: Option<Compression>)
        ensures
            out == Compression::named(value@),
    {
        let chars = to_chars(value);
        let none: [char; 4] = ['n', 'o', 'n', 'e'];
        let zstd: [char; 4] = ['z', 's', 't', 'd'];
        assert(none@ =~= word_none());
        assert(zstd@ =~= word_zstd());
        if is_word(chars.as_slice(), none.as_slice()) {
            Some(Compression::Raw)
        } else if is_word(chars.as_slice(), zstd.as_slice()) {
            Some(Compression::Zstd)
        } else {
            None
        }
    }
}

impl HashType {
    /// The name of the algorithm in a manifest.
    pub open spec fn name_text(self) -> Seq<char> {
        match self {
            HashType::Blake3 => word_blake3(),
            HashType::Xxh3_128 => word_xxh3_128(),
        }
    }

    /// The algorithm that a manifest names by `value`: `blake3` or
    /// `xxh3_128`, in either case of the letters.
    pub open spec fn named(value: Seq<char>) -> Option<HashType> {
        if lower(value) == word_blake3() {
            Some(HashType::Blake3)
        } else if lower(value) == word_xxh3_128() {
            Some(HashType::Xxh3_128)
        } else {
            None
        }
    }

    /// The name of the algorithm in a manifest.
    pub fn name(self) -> (name: &'static str)
        ensures
            name@ == self.name_text(),
    {
        match self {
            HashType::Blake3 => {
                proof {
                    reveal_strlit("blake3");
                }
                assert("blake3"@ =~= word_blake3());
                "blake3"
            },
            HashType::Xxh3_128 => {
                proof {
                    reveal_strlit("xxh3_128");
                }
                assert("xxh3_128"@ =~= word_xxh3_128());
                "xxh3_128"
            },
        }
    }

    /// Reads the value of a `Hasher` header.
    pub fn from_name(value: &str) -> (out: Option<HashType>)
        ensures
            out == HashType::named(value@),
    {
        let chars = to_chars(value);
        let blake3: [char; 6] = ['b', 'l', 'a', 'k', 'e', '3'];
        let xxh3: [char; 8] = ['x', 'x', 'h', '3', '_', '1', '2', '8'];
        assert(blake3@ =~= word_blake3());
        assert(xxh3@ =~= word_xxh3_128());
        if is_word(chars.as_slice(), blake3.as_slice()) {
            Some(HashType::Blake3)
        } else if is_word(chars.as_slice(), xxh3.as_slice()) {
            Some(HashType::Xxh3_128)
        } else {
            None
        }
    }
}

} // verus!
