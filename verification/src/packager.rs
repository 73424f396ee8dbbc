//! What the packager decides: which entries of a source tree become
//! chunks, under which names their objects are served, what the manifest
//! says and under which names it is published.

use vstd::prelude::*;
use crate::chunks::{Chunk, ChunkData, chunk_views};
use crate::decimal::{decimal, is_digit, lemma_decimal, lemma_parse_decimal, push_decimal};
use crate::encode::{
    chunk_encodable, encode_manifest, header_encodable, lemma_round_trip, manifest_text,
};
use crate::fields::{free_of, lemma_split_concat, lemma_split_free, split};
use crate::headers::{Headers, lemma_pairs_map_keys, pairs_map};
use crate::lines::is_whitespace;
use crate::manifest::{FormatError, manifest_of};
use crate::text::{extend_chars, text_views, to_text};
use crate::types::{
    Compression, HashType, lower, word_blake3, word_none, word_xxh3_128, word_zstd,
};
use crate::updater::{
    CompatibilityError, Settings, Version, WarningData, all_numbers, chosen_settings,
    headers_gate, key_compression, key_hasher, key_min_version, warning_of, warnings_of,
};
use crate::utils::{digest_manifest, manifest_digest};

verus! {

/// What kind of thing an entry of the source tree is.
#[derive(Debug, Clone, Copy, PartialEq, Eq, Structural)]
pub enum EntryKind {
    Directory,
    Symlink,
    File,
    /// Neither of the three, such as a socket or a device.
    Other,
}

/// The kind of an entry, from what the file system says of it. A directory
/// is a directory; what is none and is a symbolic link is a link; what is
/// neither and is a regular file is a file.
pub fn classify(is_dir: bool, is_symlink: bool, is_file: bool) -> (kind: EntryKind)
    ensures
        kind == if is_dir {
            EntryKind::Directory
        } else if is_symlink {
            EntryKind::Symlink
        } else if is_file {
            EntryKind::File
        } else {
            EntryKind::Other
        },
{
    if is_dir {
        EntryKind::Directory
    } else if is_symlink {
        EntryKind::Symlink
    } else if is_file {
        EntryKind::File
    } else {
        EntryKind::Other
    }
}

/// One entry of the source tree.
#[derive(Debug)]
pub struct Entry {
    pub path: String,
    pub kind: EntryKind,
}

/// The paths of the entries of `entries` that are of the kind `kind`, in
/// order.
pub open spec fn paths_of(entries: Seq<Entry>, kind: EntryKind) -> Seq<Seq<char>>
    decreases entries.len(),
{
    if entries.len() == 0 {
        Seq::empty()
    } else if entries.last().kind == kind {
        paths_of(entries.drop_last(), kind).push(entries.last().path@)
    } else {
        paths_of(entries.drop_last(), kind)
    }
}

/// The entries of a source tree by kind. Only the files become chunks.
#[derive(Debug)]
pub struct Discovery {
    pub directories: Vec<String>,
    pub files: Vec<String>,
    pub symlinks: Vec<String>,
}

/// Sorts the entries of a source tree by kind, keeping their order.
pub fn discover(entries: &Vec<Entry>) -> (out: Discovery)
    ensures
        text_views(out.directories@) == paths_of(entries@, EntryKind::Directory),
        text_views(out.files@) == paths_of(entries@, EntryKind::File),
        text_views(out.symlinks@) == paths_of(entries@, EntryKind::Symlink),
{
    let mut directories: Vec<String> = Vec::new();
    let mut files: Vec<String> = Vec::new();
    let mut symlinks: Vec<String> = Vec::new();
    let mut i: usize = 0;
    proof {
        assert(entries@.take(0) == Seq::<Entry>::empty());
        assert(text_views(directories@) == Seq::<Seq<char>>::empty());
        assert(text_views(files@) == Seq::<Seq<char>>::empty());
        assert(text_views(symlinks@) == Seq::<Seq<char>>::empty());
    }
    while i < entries.len()
        invariant
            i <= entries.len(),
            text_views(directories@) == paths_of(entries@.take(i as int), EntryKind::Directory),
            text_views(files@) == paths_of(entries@.take(i as int), EntryKind::File),
            text_views(symlinks@) == paths_of(entries@.take(i as int), EntryKind::Symlink),
        decreases entries.len() - i,
    {
        let entry = &entries[i];
        proof {
            assert(entries@.take(i + 1).drop_last() == entries@.take(i as int));
            assert(entries@.take(i + 1).last() == *entry);
        }
        match entry.kind {
            EntryKind::Directory => {
                let path = entry.path.clone();
                proof {
                    assert(text_views(directories@.push(path)) == text_views(directories@).push(
                        path@,
                    ));
                }
                directories.push(path);
            },
            EntryKind::File => {
                let path = entry.path.clone();
                proof {
                    assert(text_views(files@.push(path)) == text_views(files@).push(path@));
                }
                files.push(path);
            },
            EntryKind::Symlink => {
                let path = entry.path.clone();
                proof {
                    assert(text_views(symlinks@.push(path)) == text_views(symlinks@).push(path@));
                }
                symlinks.push(path);
            },
            EntryKind::Other => {},
        }
        i += 1;
    }
    proof {
        assert(entries@.take(entries.len() as int) == entries@);
    }
    Discovery { directories, files, symlinks }
}

/// The name under which a repository serves the compressed object of the
/// chunk with the hash `hash`; none where nothing is compressed. The raw
/// object is served under the hash itself.
pub fn compressed_name(hash: &str, compression: Compression) -> (out: Option<String>)
    ensures
        match out {
            Some(name) => compression != Compression::Raw && name@ == hash@
                + compression.extension_text(),
            None => compression == Compression::Raw,
        },
{
    match compression {
        Compression::Raw => None,
        Compression::Zstd => {
            let mut name: Vec<char> = Vec::new();
            extend_chars(&mut name, hash);
            extend_chars(&mut name, compression.extension());
            Some(to_text(name.as_slice()))
        },
    }
}

/// The text of a version: major and minor number with a dot between.
pub open spec fn version_text(version: Version) -> Seq<char> {
    decimal(version.major as nat) + seq!['.'] + decimal(version.minor as nat)
}

/// The headers that the packager writes: `Compression` unless nothing is
/// compressed, `Hasher`, and `MinVersion` where a least version is asked
/// for.
pub open spec fn emitted_pairs(
    compression: Compression,
    hash_type: HashType,
    min_version: Option<Version>,
) -> Seq<(Seq<char>, Seq<char>)> {
    let first = match compression {
        Compression::Raw => Seq::empty(),
        Compression::Zstd => seq![(key_compression(), word_zstd())],
    };
    let second = first.push((key_hasher(), hash_type.name_text()));
    match min_version {
        Some(version) => second.push((key_min_version(), version_text(version))),
        None => second,
    }
}

/// The three header keys differ from each other.
pub proof fn lemma_keys_differ()
    ensures
        key_compression() != key_hasher(),
        key_compression() != key_min_version(),
        key_hasher() != key_min_version(),
{
    reveal_strlit("Compression");
    reveal_strlit("Hasher");
    reveal_strlit("MinVersion");
    assert(key_compression().len() == 11);
    assert(key_hasher().len() == 6);
    assert(key_min_version().len() == 10);
}

/// The version gate that a client `local` meets in a manifest that asks
/// for `asked`.
pub open spec fn gate_of(asked: Option<Version>, local: Version) -> Result<
    (),
    CompatibilityError,
> {
    match asked {
        None => Ok(()),
        Some(version) => if version.major > local.major {
            Err(CompatibilityError::Major)
        } else if version.major == local.major && version.minor > local.minor {
            Err(CompatibilityError::Minor)
        } else {
            Ok(())
        },
    }
}

/// The headers that the packager writes can be carried by their lines.
pub proof fn lemma_emitted_encodable(
    compression: Compression,
    hash_type: HashType,
    min_version: Option<Version>,
)
    ensures
        forall|i: int|
            0 <= i < emitted_pairs(compression, hash_type, min_version).len()
                ==> header_encodable(
                #[trigger] emitted_pairs(compression, hash_type, min_version)[i],
            ),
{
    let pairs = emitted_pairs(compression, hash_type, min_version);
    reveal_strlit("Compression");
    reveal_strlit("Hasher");
    reveal_strlit("MinVersion");
    assert(header_encodable((key_compression(), word_zstd())));
    assert(header_encodable((key_hasher(), hash_type.name_text())));
    if min_version is Some {
        let version = min_version->0;
        let text = version_text(version);
        let a = decimal(version.major as nat);
        let b = decimal(version.minor as nat);
        lemma_decimal(version.major as nat);
        lemma_decimal(version.minor as nat);
        assert forall|j: int| 0 <= j < text.len() implies text[j] != '\n' && !is_whitespace(
            text[j],
        ) by {
            if j < a.len() {
                assert(is_digit(a[j]));
            } else if j > a.len() {
                assert(text[j] == b[j - a.len() - 1]);
                assert(is_digit(b[j - a.len() - 1]));
            }
        }
        assert(header_encodable((key_min_version(), text)));
    }
    assert forall|i: int| 0 <= i < pairs.len() implies header_encodable(#[trigger] pairs[i]) by {}
}

/// A client reads from the packager's manifest what the packager chose:
/// the same chunks, the same compression and digest algorithm, nothing to
/// warn of, and the version gate of the version that was asked for.
pub proof fn lemma_emitted_is_read(
    compression: Compression,
    hash_type: HashType,
    min_version: Option<Version>,
    chunks: Seq<ChunkData>,
    local: Version,
)
    requires
        forall|i: int| 0 <= i < chunks.len() ==> chunk_encodable(#[trigger] chunks[i]),
    ensures
        manifest_of(
            manifest_text(emitted_pairs(compression, hash_type, min_version), chunks),
        ) == Ok::<(Map<Seq<char>, Seq<char>>, Seq<ChunkData>), FormatError>(
            (pairs_map(emitted_pairs(compression, hash_type, min_version)), chunks),
        ),
        chosen_settings(pairs_map(emitted_pairs(compression, hash_type, min_version)))
            == (Settings { compression, hasher: hash_type }),
        warnings_of(emitted_pairs(compression, hash_type, min_version)) == Seq::<
            WarningData,
        >::empty(),
        headers_gate(pairs_map(emitted_pairs(compression, hash_type, min_version)), local)
            == gate_of(min_version, local),
{
    let pairs = emitted_pairs(compression, hash_type, min_version);
    lemma_emitted_encodable(compression, hash_type, min_version);
    lemma_round_trip(pairs, chunks);
    lemma_keys_differ();
    let first: Seq<(Seq<char>, Seq<char>)> = match compression {
        Compression::Raw => Seq::empty(),
        Compression::Zstd => seq![(key_compression(), word_zstd())],
    };
    let second = first.push((key_hasher(), hash_type.name_text()));
    assert(second.drop_last() == first);
    assert(pairs_map(Seq::<(Seq<char>, Seq<char>)>::empty()) == Map::<
        Seq<char>,
        Seq<char>,
    >::empty());
    if compression == Compression::Zstd {
        assert(first.drop_last() == Seq::<(Seq<char>, Seq<char>)>::empty());
        assert(pairs_map(first) == Map::<Seq<char>, Seq<char>>::empty().insert(
            key_compression(),
            word_zstd(),
        ));
    }
    assert(pairs_map(second) == pairs_map(first).insert(key_hasher(), hash_type.name_text()));
    assert(lower(word_zstd()) =~= word_zstd());
    assert(lower(word_blake3()) =~= word_blake3());
    assert(lower(word_xxh3_128()) =~= word_xxh3_128());
    assert(word_zstd() != word_none()) by {
        assert(word_zstd()[0] != word_none()[0]);
    }
    assert(word_blake3() != word_xxh3_128()) by {
        assert(word_blake3().len() != word_xxh3_128().len());
    }
    assert(Compression::named(word_zstd()) == Some(Compression::Zstd));
    assert(HashType::named(hash_type.name_text()) == Some(hash_type));
    assert(warning_of((key_compression(), word_zstd())) is None);
    assert(warning_of((key_hasher(), hash_type.name_text())) is None);
    assert(warnings_of(Seq::<(Seq<char>, Seq<char>)>::empty()) == Seq::<WarningData>::empty());
    if compression == Compression::Zstd {
        assert(warnings_of(first) == Seq::<WarningData>::empty());
    }
    assert(warnings_of(second) == Seq::<WarningData>::empty());
    match min_version {
        None => {
            assert(pairs == second);
        },
        Some(version) => {
            let text = version_text(version);
            assert(pairs == second.push((key_min_version(), text)));
            assert(pairs.drop_last() == second);
            assert(pairs_map(pairs) == pairs_map(second).insert(key_min_version(), text));
            assert(warning_of((key_min_version(), text)) is None);
            assert(warnings_of(pairs) == Seq::<WarningData>::empty());
            let a = decimal(version.major as nat);
            let b = decimal(version.minor as nat);
            lemma_decimal(version.major as nat);
            lemma_decimal(version.minor as nat);
            assert(free_of(a, '.')) by {
                assert forall|j: int| 0 <= j < a.len() implies a[j] != '.' by {
                    assert(is_digit(a[j]));
                }
            }
            assert(free_of(b, '.')) by {
                assert forall|j: int| 0 <= j < b.len() implies b[j] != '.' by {
                    assert(is_digit(b[j]));
                }
            }
            lemma_split_concat(a, b, '.');
            lemma_split_free(b, '.');
            let parts = split(text, '.');
            assert(parts =~= seq![a, b]);
            lemma_parse_decimal(version.major as nat, u64::MAX as nat);
            lemma_parse_decimal(version.minor as nat, u64::MAX as nat);
            assert(all_numbers(parts));
        },
    }
}

/// Writes the manifest of a distribution: the chosen headers, then one
/// line for each of `files`, in their order.
pub fn emit(
    compression: Compression,
    hash_type: HashType,
    min_version: Option<Version>,
    files: &[Chunk],
) -> (out: String)
    ensures
        out@ == manifest_text(
            emitted_pairs(compression, hash_type, min_version),
            chunk_views(files@),
        ),
{
    let mut headers = Headers::new();
    proof {
        lemma_keys_differ();
    }
    match compression {
        Compression::Raw => {},
        Compression::Zstd => {
            proof {
                reveal_strlit("zstd");
                assert("zstd"@ =~= word_zstd());
            }
            headers.insert("Compression".to_owned(), "zstd".to_owned());
            assert(headers.pairs() == seq![(key_compression(), word_zstd())]);
        },
    }
    proof {
        lemma_pairs_map_keys(headers.pairs());
    }
    let ghost first = headers.pairs();
    headers.insert("Hasher".to_owned(), hash_type.name().to_owned());
    match min_version {
        Some(version) => {
            let mut text: Vec<char> = Vec::new();
            push_decimal(&mut text, version.major);
            text.push('.');
            push_decimal(&mut text, version.minor);
            assert(text@ =~= version_text(version));
            proof {
                lemma_pairs_map_keys(headers.pairs());
                assert forall|i: int|
                    0 <= i < headers.pairs().len() implies (#[trigger] headers.pairs()[i]).0
                    != key_min_version() by {}
            }
            headers.insert("MinVersion".to_owned(), to_text(text.as_slice()));
        },
        None => {},
    }
    encode_manifest(&headers, files)
}

/// The names under which a manifest is published in a repository.
///
/// The manifest is written to `object`, a name that no other manifest has.
/// The digest is written to `temporary`. Then `temporary` and `pointer`
/// are exchanged in one step, so that `pointer` holds the new digest, and
/// `temporary`, which now holds what `pointer` held, is removed.
#[derive(Debug, PartialEq)]
pub struct Publication {
    /// The digest of the manifest: the name of its object, and what the
    /// pointer is to hold.
    pub object: String,
    /// The name of the pointer.
    pub pointer: String,
    /// The name of the file that is exchanged with the pointer.
    pub temporary: String,
}

/// The name of the pointer of a repository.
pub open spec fn pointer_name() -> Seq<char> {
    "manifest"@
}

/// The name of the file that is exchanged with the pointer.
pub open spec fn temporary_name() -> Seq<char> {
    "manifest.tmp"@
}

/// Names what publishing `manifest` writes.
pub fn publish(manifest: &str) -> (out: Publication)
    ensures
        out.object@ == manifest_digest(manifest@),
        out.pointer@ == pointer_name(),
        out.temporary@ == temporary_name(),
{
    Publication {
        object: digest_manifest(manifest),
        pointer: "manifest".to_owned(),
        temporary: "manifest.tmp".to_owned(),
    }
}

} // verus!
