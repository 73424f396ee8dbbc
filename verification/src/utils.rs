//! Digests: a streaming hasher over the two algorithms a distribution can
//! choose, and the hexadecimal text of a digest.

use vstd::prelude::*;
use crate::types::HashType;

verus! {

/// The streaming BLAKE3 state of the `blake3` crate.
#[verifier::external_type_specification]
#[verifier::external_body]
pub struct ExBlake3Hasher(blake3::Hasher);

/// The streaming XXH3 state of the `xxhash-rust` crate.
#[verifier::external_type_specification]
#[verifier::external_body]
pub struct ExXxh3Default(xxhash_rust::xxh3::Xxh3Default);

/// The bytes that a BLAKE3 state of the regular hash function has taken in
/// so far, in order.
pub uninterp spec fn blake3_input(state: blake3::Hasher) -> Seq<u8>;

/// The bytes that an XXH3 state has taken in so far, in order.
pub uninterp spec fn xxh3_input(state: xxhash_rust::xxh3::Xxh3Default) -> Seq<u8>;

/// The BLAKE3 digest of `input`: 32 bytes.
pub uninterp spec fn blake3_digest(input: Seq<u8>) -> Seq<u8>;

/// The 128-bit XXH3 digest of `input`, with the default seed and secret.
pub uninterp spec fn xxh3_128(input: Seq<u8>) -> u128;

/// A fresh BLAKE3 state.
///
/// Stands for `blake3::Hasher::new`: the state of the regular hash
/// function, which has taken in nothing.
#[verifier::external_body]
fn blake3_new() -> (state: blake3::Hasher)
    ensures
        blake3_input(state) == Seq::<u8>::empty(),
{
    blake3::Hasher::new()
}

/// Feeds `data` to a BLAKE3 state.
///
/// Stands for `blake3::Hasher::update`: the state has then taken in what it
/// had, followed by `data`.
#[verifier::external_body]
fn blake3_update(state: &mut blake3::Hasher, data: &[u8])
    ensures
        blake3_input(*final(state)) == blake3_input(*old(state)) + data@,
{
    state.update(data);
}

/// The digest of what a BLAKE3 state has taken in.
///
/// Stands for `blake3::Hasher::finalize`, for a state that `blake3_new`
/// made: the 32 bytes of the root hash, which depend on the bytes taken in
/// and on nothing else.
#[verifier::external_body]
fn blake3_finalize(state: &blake3::Hasher) -> (digest: [u8; 32])
    ensures
        digest@ == blake3_digest(blake3_input(*state)),
{
    *state.finalize().as_bytes()
}

/// The hexadecimal text of a BLAKE3 digest.
///
/// Stands for `blake3::Hash::to_hex`: two lower-case hexadecimal digits for
/// each byte, the high half first.
#[verifier::external_body]
fn blake3_to_hex(digest: [u8; 32]) -> (text: String)
    ensures
        text@ == hex_text(digest@),
{
    blake3::Hash::from_bytes(digest).to_hex().to_string()
}

/// A fresh XXH3 state.
///
/// Stands for `xxhash_rust::xxh3::Xxh3Default::new`: a state with the
/// default seed and secret, which has taken in nothing.
#[verifier::external_body]
fn xxh3_new() -> (state: xxhash_rust::xxh3::Xxh3Default)
    ensures
        xxh3_input(state) == Seq::<u8>::empty(),
{
    xxhash_rust::xxh3::Xxh3Default::new()
}

/// Feeds `data` to an XXH3 state.
///
/// Stands for `xxhash_rust::xxh3::Xxh3Default::update`: the state has then
/// taken in what it had, followed by `data`.
#[verifier::external_body]
fn xxh3_update(state: &mut xxhash_rust::xxh3::Xxh3Default, data: &[u8])
    ensures
        xxh3_input(*final(state)) == xxh3_input(*old(state)) + data@,
{
    state.update(data);
}

/// The 128-bit digest of what an XXH3 state has taken in.
///
/// Stands for `xxhash_rust::xxh3::Xxh3Default::digest128`: a number that
/// depends on the bytes taken in and on nothing else.
#[verifier::external_body]
fn xxh3_digest128(state: &xxhash_rust::xxh3::Xxh3Default) -> (digest: u128)
    ensures
        digest == xxh3_128(xxh3_input(*state)),
{
    state.digest128()
}

/// The hexadecimal text of `bytes`.
///
/// Stands for `hex::encode`: two lower-case hexadecimal digits for each
/// byte, the high half first.
#[verifier::external_body]
fn hex_encode(bytes: &[u8]) -> (text: String)
    ensures
        text@ == hex_text(bytes@),
{
    hex::encode(bytes)
}

/// The lower-case hexadecimal digit for `n`, for `n` below sixteen.
pub open spec fn hex_digit(n: int) -> char {
    if n < 10 {
        (n + '0' as u32) as char
    } else {
        (n - 10 + 'a' as u32) as char
    }
}

/// The hexadecimal text of `bytes`: two lower-case digits for each byte,
/// the high half first.
pub open spec fn hex_text(bytes: Seq<u8>) -> Seq<char> {
    Seq::new(
        2 * bytes.len(),
        |i: int|
            if i % 2 == 0 {
                hex_digit(bytes[i / 2] as int / 16)
            } else {
                hex_digit(bytes[i / 2] as int % 16)
            },
    )
}

/// The `count` low bytes of `x`, the lowest first.
pub open spec fn low_bytes(x: nat, count: nat) -> Seq<u8>
    decreases count,
{
    if count == 0 {
        Seq::empty()
    } else {
        seq![(x % 256) as u8] + low_bytes(x / 256, (count - 1) as nat)
    }
}

/// The sixteen bytes of `x`, the lowest first.
pub fn le_bytes(x: u128) -> (out: Vec<u8>)
    ensures
        out@ == low_bytes(x as nat, 16),
{
    let mut out: Vec<u8> = Vec::new();
    let mut rest: u128 = x;
    let mut i: usize = 0;
    while i < 16
        invariant
            i <= 16,
            low_bytes(x as nat, 16) == out@ + low_bytes(rest as nat, (16 - i) as nat),
        decreases 16 - i,
    {
        let byte: u8 = (rest % 256) as u8;
        proof {
            assert(low_bytes(rest as nat, (16 - i) as nat) == seq![byte] + low_bytes(
                (rest / 256) as nat,
                (16 - i - 1) as nat,
            ));
        }
        out.push(byte);
        rest = rest / 256;
        i += 1;
    }
    out
}

/// The digest of `input` under `kind`, as the text that names a chunk: for
/// BLAKE3 the hexadecimal text of the 32 digest bytes, for XXH3 that of the
/// 128-bit digest's bytes, the lowest first.
pub open spec fn digest_text(kind: HashType, input: Seq<u8>) -> Seq<char> {
    match kind {
        HashType::Blake3 => hex_text(blake3_digest(input)),
        HashType::Xxh3_128 => hex_text(low_bytes(xxh3_128(input) as nat, 16)),
    }
}

/// The state of a streaming hasher: that of one of the two algorithms.
#[allow(non_camel_case_types)]
enum HasherState {
    Blake3(blake3::Hasher),
    Xxh3_128(xxhash_rust::xxh3::Xxh3Default),
}

/// A streaming hasher of one of the two algorithms.
///
/// The state is private, so that every hasher began empty and took in
/// nothing but what was written to it.
pub struct StreamHasher {
    state: HasherState,
}

impl StreamHasher {
    /// The algorithm of this hasher.
    pub closed spec fn kind(&self) -> HashType {
        match self.state {
            HasherState::Blake3(_) => HashType::Blake3,
            HasherState::Xxh3_128(_) => HashType::Xxh3_128,
        }
    }

    /// The bytes written so far, in order.
    pub closed spec fn input(&self) -> Seq<u8> {
        match self.state {
            HasherState::Blake3(state) => blake3_input(state),
            HasherState::Xxh3_128(state) => xxh3_input(state),
        }
    }

    /// A hasher of the algorithm `hash_method` to which nothing was written.
    pub fn new(hash_method: HashType) -> (out: StreamHasher)
        ensures
            out.kind() == hash_method,
            out.input() == Seq::<u8>::empty(),
    {
        match hash_method {
            HashType::Blake3 => StreamHasher { state: HasherState::Blake3(blake3_new()) },
            HashType::Xxh3_128 => StreamHasher { state: HasherState::Xxh3_128(xxh3_new()) },
        }
    }

    /// Writes `data` to the hasher.
    pub fn write(&mut self, data: &[u8])
        ensures
            final(self).kind() == old(self).kind(),
            final(self).input() == old(self).input() + data@,
    {
        match &mut self.state {
            HasherState::Blake3(state) => blake3_update(state, data),
            HasherState::Xxh3_128(state) => xxh3_update(state, data),
        }
    }

    /// The digest of all that was written, as text.
    pub fn digest(self) -> (out: String)
        ensures
            out@ == digest_text(self.kind(), self.input()),
    {
        match self.state {
            HasherState::Blake3(state) => blake3_to_hex(blake3_finalize(&state)),
            HasherState::Xxh3_128(state) => {
                let bytes = le_bytes(xxh3_digest128(&state));
                hex_encode(bytes.as_slice())
            },
        }
    }
}

/// The digest that names the manifest `text` in a repository: the BLAKE3
/// digest of its UTF-8 bytes, as text.
pub open spec fn manifest_digest(text: Seq<char>) -> Seq<char> {
    digest_text(HashType::Blake3, vstd::utf8::encode_utf8(text))
}

/// The digest that names `manifest` in a repository.
pub fn digest_manifest(manifest: &str) -> (out: String)
    ensures
        out@ == manifest_digest(manifest@),
{
    let mut hasher = StreamHasher::new(HashType::Blake3);
    let bytes = manifest.as_bytes();
    hasher.write(bytes);
    proof {
        assert(Seq::<u8>::empty() + bytes@ == bytes@);
    }
    hasher.digest()
}

} // verus!
