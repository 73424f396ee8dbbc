//! Chunks, and the names under which the chunk store keeps them.

use vstd::prelude::*;
use crate::decimal::{decimal, digits_value, lemma_decimal, push_decimal};
use crate::text::push_chars;

pub use crate::install::install_chunk;
pub use crate::store::clean_old_chunks;

verus! {

/// One file of an install tree: the digest of its content, its size in
/// bytes, its path below the install root and its Unix mode bits.
#[derive(Debug, PartialEq)]
pub struct Chunk {
    pub hash: String,
    pub size: u64,
    pub path: String,
    pub permissions: u32,
}

/// What a chunk holds, as plain values.
pub struct ChunkData {
    pub hash: Seq<char>,
    pub size: u64,
    pub path: Seq<char>,
    pub permissions: u32,
}

impl View for Chunk {
    type V = ChunkData;

    open spec fn view(&self) -> ChunkData {
        ChunkData {
            hash: self.hash@,
            size: self.size,
            path: self.path@,
            permissions: self.permissions,
        }
    }
}

impl Clone for Chunk {
    fn clone(&self) -> (out: Chunk)
        ensures
            out@ == self@,
    {
        Chunk {
            hash: self.hash.clone(),
            size: self.size,
            path: self.path.clone(),
            permissions: self.permissions,
        }
    }
}

/// The views of a sequence of chunks.
pub open spec fn chunk_views(chunks: Seq<Chunk>) -> Seq<ChunkData> {
    Seq::new(chunks.len(), |i: int| chunks[i]@)
}

/// The name of a chunk's object in the chunk store: its hash followed by
/// its mode bits in decimal. Content and mode together are the key.
pub open spec fn store_name(chunk: ChunkData) -> Seq<char> {
    chunk.hash + decimal(chunk.permissions as nat)
}

/// Two chunks whose hashes are of one length share a store object exactly
/// if they have the same hash and the same mode bits. So chunks with the
/// same content share an object if their modes agree, and have two objects
/// if not.
pub proof fn lemma_store_name_is_key(a: ChunkData, b: ChunkData)
    requires
        a.hash.len() == b.hash.len(),
    ensures
        store_name(a) == store_name(b) <==> a.hash == b.hash && a.permissions == b.permissions,
{
    if store_name(a) == store_name(b) {
        let n = a.hash.len() as int;
        assert(store_name(a).take(n) == a.hash);
        assert(store_name(b).take(n) == b.hash);
        assert(store_name(a).skip(n) == decimal(a.permissions as nat));
        assert(store_name(b).skip(n) == decimal(b.permissions as nat));
        lemma_decimal(a.permissions as nat);
        lemma_decimal(b.permissions as nat);
        assert(digits_value(decimal(a.permissions as nat)) == digits_value(
            decimal(b.permissions as nat),
        ));
    }
}

/// The name of `chunk`'s object in the chunk store.
pub fn chunk_filename(chunk: &Chunk) -> (name: String)
    ensures
        name@ == store_name(chunk@),
{
    let mut digits: Vec<char> = Vec::new();
    push_decimal(&mut digits, chunk.permissions as u64);
    let mut name = chunk.hash.clone();
    push_chars(&mut name, digits.as_slice());
    name
}

} // verus!
