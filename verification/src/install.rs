//! Installing one chunk into the chunk store: the bytes that arrive are
//! hashed while they are written to a temporary file, and only a file
//! whose digest is the chunk's hash is moved to its final name.

use vstd::prelude::*;
use crate::chunks::{Chunk, chunk_filename, store_name};
use crate::text::{extend_chars, to_text};
use crate::types::{Compression, HashType};
use crate::utils::{StreamHasher, digest_text};

verus! {

/// The directory of a repository that holds the chunk objects, between
/// slashes.
pub open spec fn chunks_dir() -> Seq<char> {
    seq!['/', 'c', 'h', 'u', 'n', 'k', 's', '/']
}

/// What the name of a temporary file ends in.
pub open spec fn temp_suffix() -> Seq<char> {
    seq!['.', 'n', 'e', 'w']
}

/// The URL of the object of the chunk with the hash `hash` in the
/// repository at `repo_url`.
pub open spec fn chunk_url(repo_url: Seq<char>, hash: Seq<char>, compression: Compression) -> Seq<
    char,
> {
    repo_url + chunks_dir() + hash + compression.extension_text()
}

/// An install of one chunk that is under way.
pub struct ChunkInstall {
    /// Where the chunk's object is fetched from.
    pub url: String,
    /// How the fetched bytes are compressed.
    pub compression: Compression,
    /// The file in the chunk store that takes the bytes while they arrive.
    pub temp_name: String,
    /// The name of the chunk's object in the chunk store.
    pub name: String,
    /// The digest that the bytes must have.
    pub expected: String,
    /// The mode bits of the object.
    pub permissions: u32,
    /// The hasher that the bytes are written to.
    pub hasher: StreamHasher,
}

/// A verified chunk: the temporary file `temp_name` gets the mode
/// `permissions`, is made read-only and is then renamed to `name`.
#[derive(Debug, PartialEq)]
pub struct Installed {
    pub temp_name: String,
    pub name: String,
    pub permissions: u32,
}

/// The bytes that arrived do not have the chunk's hash. The temporary file
/// `temp_name` is to be discarded.
#[derive(Debug, PartialEq)]
pub struct IntegrityError {
    pub temp_name: String,
    pub expected: String,
    pub actual: String,
}

/// Begins the install of `chunk` from the repository at `repo_url`.
pub fn install_chunk(
    chunk: &Chunk,
    repo_url: &str,
    compression: &Compression,
    hash_method: HashType,
) -> (out: ChunkInstall)
    ensures
        out.url@ == chunk_url(repo_url@, chunk@.hash, *compression),
        out.compression == *compression,
        out.temp_name@ == chunk@.hash + temp_suffix(),
        out.name@ == store_name(chunk@),
        out.expected@ == chunk@.hash,
        out.permissions == chunk@.permissions,
        out.hasher.kind() == hash_method,
        out.hasher.input() == Seq::<u8>::empty(),
{
    let mut url: Vec<char> = Vec::new();
    extend_chars(&mut url, repo_url);
    proof {
        reveal_strlit("/chunks/");
        assert("/chunks/"@ =~= chunks_dir());
    }
    extend_chars(&mut url, "/chunks/");
    extend_chars(&mut url, chunk.hash.as_str());
    extend_chars(&mut url, compression.extension());
    let mut temp: Vec<char> = Vec::new();
    extend_chars(&mut temp, chunk.hash.as_str());
    proof {
        reveal_strlit(".new");
        assert(".new"@ =~= temp_suffix());
    }
    extend_chars(&mut temp, ".new");
    ChunkInstall {
        url: to_text(url.as_slice()),
        compression: *compression,
        temp_name: to_text(temp.as_slice()),
        name: chunk_filename(chunk),
        expected: chunk.hash.clone(),
        permissions: chunk.permissions,
        hasher: StreamHasher::new(hash_method),
    }
}

impl ChunkInstall {
    /// Whether the bytes taken in so far have the digest that the chunk
    /// names.
    pub open spec fn verifies(&self) -> bool {
        digest_text(self.hasher.kind(), self.hasher.input()) == self.expected@
    }

    /// Takes in the next bytes of the chunk, after decompression. The
    /// caller writes the same bytes to the temporary file.
    pub fn write(&mut self, data: &[u8])
        ensures
            final(self).hasher.kind() == old(self).hasher.kind(),
            final(self).hasher.input() == old(self).hasher.input() + data@,
            final(self).url == old(self).url,
            final(self).compression == old(self).compression,
            final(self).temp_name == old(self).temp_name,
            final(self).name == old(self).name,
            final(self).expected == old(self).expected,
            final(self).permissions == old(self).permissions,
    {
        self.hasher.write(data);
    }

    /// Ends the install when all bytes have arrived. The object may take
    /// its final name exactly if the bytes have the digest that the chunk
    /// names; otherwise the temporary file is to be discarded.
    pub fn finish(self) -> (out: Result<Installed, IntegrityError>)
        ensures
            match out {
                Ok(done) => {
                    &&& self.verifies()
                    &&& done.temp_name@ == self.temp_name@
                    &&& done.name@ == self.name@
                    &&& done.permissions == self.permissions
                },
                Err(e) => {
                    &&& !self.verifies()
                    &&& e.temp_name@ == self.temp_name@
                    &&& e.expected@ == self.expected@
                    &&& e.actual@ == digest_text(self.hasher.kind(), self.hasher.input())
                },
            },
    {
        let actual = self.hasher.digest();
        if actual == self.expected {
            Ok(Installed { temp_name: self.temp_name, name: self.name, permissions: self.permissions })
        } else {
            Err(IntegrityError { temp_name: self.temp_name, expected: self.expected, actual })
        }
    }
}

} // verus!
