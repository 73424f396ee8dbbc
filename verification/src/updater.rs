//! What an update decides before anything is written: whether the client
//! is new enough for a manifest, which algorithms the manifest chooses,
//! which chunks are to be fetched and what the new tree links.

use vstd::prelude::*;
use crate::chunks::{Chunk, ChunkData, chunk_views};
use crate::decimal::{parse_decimal, read_decimal};
use crate::fields::{lemma_split_pieces, split, split_chars};
use crate::generations::{Generations, GenerationsData};
use crate::headers::{Headers, header_views, pairs_map};
use crate::store::{missing_chunks, name_set, to_fetch};
use crate::text::{text_views, to_chars, views};
use crate::tree::{TreeLink, TreeLinkData, build_tree, link_views, tree_links};
use crate::types::{Compression, HashType};
use crate::utils::{digest_manifest, manifest_digest};

verus! {

/// The version of a client.
#[derive(Debug, Clone, Copy, PartialEq, Eq, Structural)]
pub struct Version {
    pub major: u64,
    pub minor: u64,
}

/// Why a client must not apply a manifest.
#[derive(Debug, Clone, Copy, PartialEq, Eq, Structural)]
pub enum CompatibilityError {
    /// The manifest asks for a later major version.
    Major,
    /// The manifest asks for this major version and a later minor version.
    Minor,
    /// The value of `MinVersion` is not made of numbers parted by dots.
    Malformed,
}

/// The key of the header that names the least version of a client.
pub open spec fn key_min_version() -> Seq<char> {
    "MinVersion"@
}

/// The key of the header that names the compression.
pub open spec fn key_compression() -> Seq<char> {
    "Compression"@
}

/// The key of the header that names the digest algorithm.
pub open spec fn key_hasher() -> Seq<char> {
    "Hasher"@
}

/// Whether every one of `parts` spells a number of 64 bits.
pub open spec fn all_numbers(parts: Seq<Seq<char>>) -> bool {
    forall|i: int| 0 <= i < parts.len() ==> parse_decimal(#[trigger] parts[i], u64::MAX as nat) is Some
}

/// What the value `value` of `MinVersion` demands of the client `local`.
/// The value is numbers parted by dots: the major version, then the minor
/// version if there is one. A major version above the client's is refused;
/// with the client's major version, a minor version above the client's is
/// refused.
pub open spec fn version_gate(value: Seq<char>, local: Version) -> Result<(), CompatibilityError> {
    let parts = split(value, '.');
    if !all_numbers(parts) {
        Err(CompatibilityError::Malformed)
    } else {
        let major = parse_decimal(parts[0], u64::MAX as nat)->0;
        if major > local.major {
            Err(CompatibilityError::Major)
        } else if parts.len() > 1 && major == local.major && parse_decimal(
            parts[1],
            u64::MAX as nat,
        )->0 > local.minor {
            Err(CompatibilityError::Minor)
        } else {
            Ok(())
        }
    }
}

/// Tells whether the client `local` may apply a manifest whose
/// `MinVersion` header has the value `value`.
pub fn check_min_version(value: &str, local: &Version) -> (out: Result<(), CompatibilityError>)
    ensures
        out == version_gate(value@, *local),
{
    let chars = to_chars(value);
    let parts = split_chars(chars.as_slice(), '.');
    proof {
        lemma_split_pieces(value@, '.');
    }
    let mut major: u64 = 0;
    let mut minor: u64 = 0;
    let mut i: usize = 0;
    while i < parts.len()
        invariant
            i <= parts.len(),
            views(parts@) == split(value@, '.'),
            forall|k: int|
                0 <= k < i ==> parse_decimal(
                    #[trigger] views(parts@)[k],
                    u64::MAX as nat,
                ) is Some,
            i > 0 ==> parse_decimal(views(parts@)[0], u64::MAX as nat) == Some(major as nat),
            i > 1 ==> parse_decimal(views(parts@)[1], u64::MAX as nat) == Some(minor as nat),
        decreases parts.len() - i,
    {
        proof {
            assert(views(parts@)[i as int] == parts@[i as int]@);
        }
        match read_decimal(parts[i].as_slice(), u64::MAX) {
            None => {
                return Err(CompatibilityError::Malformed);
            },
            Some(n) => {
                if i == 0 {
                    major = n;
                } else if i == 1 {
                    minor = n;
                }
            },
        }
        i += 1;
    }
    assert(all_numbers(views(parts@)));
    if major > local.major {
        Err(CompatibilityError::Major)
    } else if parts.len() > 1 && major == local.major && minor > local.minor {
        Err(CompatibilityError::Minor)
    } else {
        Ok(())
    }
}

/// What the headers `headers` demand of the client `local`: what their
/// `MinVersion` demands, and nothing where they have none.
pub open spec fn headers_gate(headers: Map<Seq<char>, Seq<char>>, local: Version) -> Result<
    (),
    CompatibilityError,
> {
    if headers.contains_key(key_min_version()) {
        version_gate(headers[key_min_version()], local)
    } else {
        Ok(())
    }
}

/// The compression that `headers` choose: the one that their `Compression`
/// names; none where they have no such header or it names none.
pub open spec fn chosen_compression(headers: Map<Seq<char>, Seq<char>>) -> Compression {
    if headers.contains_key(key_compression()) {
        match Compression::named(headers[key_compression()]) {
            Some(c) => c,
            None => Compression::Raw,
        }
    } else {
        Compression::Raw
    }
}

/// The digest algorithm that `headers` choose: the one that their `Hasher`
/// names; BLAKE3 where they have no such header or it names none.
pub open spec fn chosen_hasher(headers: Map<Seq<char>, Seq<char>>) -> HashType {
    if headers.contains_key(key_hasher()) {
        match HashType::named(headers[key_hasher()]) {
            Some(h) => h,
            None => HashType::Blake3,
        }
    } else {
        HashType::Blake3
    }
}

/// Something in the headers that the client passes over and reports.
#[derive(Debug, PartialEq)]
pub enum Warning {
    /// A header with a key that the client does not know.
    UnknownHeader(String),
    /// A `Compression` header whose value names no compression.
    UnknownCompression(String),
    /// A `Hasher` header whose value names no digest algorithm.
    UnknownHasher(String),
}

/// What a warning holds, as plain values.
pub enum WarningData {
    UnknownHeader(Seq<char>),
    UnknownCompression(Seq<char>),
    UnknownHasher(Seq<char>),
}

impl View for Warning {
    type V = WarningData;

    open spec fn view(&self) -> WarningData {
        match self {
            Warning::UnknownHeader(key) => WarningData::UnknownHeader(key@),
            Warning::UnknownCompression(value) => WarningData::UnknownCompression(value@),
            Warning::UnknownHasher(value) => WarningData::UnknownHasher(value@),
        }
    }
}

/// The views of a sequence of warnings.
pub open spec fn warning_views(warnings: Seq<Warning>) -> Seq<WarningData> {
    Seq::new(warnings.len(), |i: int| warnings[i]@)
}

/// The warning that the header `pair` gives rise to, if any.
pub open spec fn warning_of(pair: (Seq<char>, Seq<char>)) -> Option<WarningData> {
    if pair.0 == key_min_version() {
        None
    } else if pair.0 == key_compression() {
        if Compression::named(pair.1) is None {
            Some(WarningData::UnknownCompression(pair.1))
        } else {
            None
        }
    } else if pair.0 == key_hasher() {
        if HashType::named(pair.1) is None {
            Some(WarningData::UnknownHasher(pair.1))
        } else {
            None
        }
    } else {
        Some(WarningData::UnknownHeader(pair.0))
    }
}

/// The warnings that the headers `pairs` give rise to, in their order.
pub open spec fn warnings_of(pairs: Seq<(Seq<char>, Seq<char>)>) -> Seq<WarningData>
    decreases pairs.len(),
{
    if pairs.len() == 0 {
        Seq::empty()
    } else {
        match warning_of(pairs.last()) {
            Some(w) => warnings_of(pairs.drop_last()).push(w),
            None => warnings_of(pairs.drop_last()),
        }
    }
}

/// The algorithms that a manifest chooses.
#[derive(Debug, Clone, Copy, PartialEq, Eq, Structural)]
pub struct Settings {
    pub compression: Compression,
    pub hasher: HashType,
}

/// The algorithms that `headers` choose.
pub open spec fn chosen_settings(headers: Map<Seq<char>, Seq<char>>) -> Settings {
    Settings { compression: chosen_compression(headers), hasher: chosen_hasher(headers) }
}

/// Reads the algorithms that `headers` choose.
pub fn resolve_settings(headers: &Headers) -> (out: Settings)
    ensures
        out == chosen_settings(headers@),
{
    let compression = match headers.get("Compression") {
        Some(value) => match Compression::from_name(value.as_str()) {
            Some(c) => c,
            None => Compression::Raw,
        },
        None => Compression::Raw,
    };
    let hasher = match headers.get("Hasher") {
        Some(value) => match HashType::from_name(value.as_str()) {
            Some(h) => h,
            None => HashType::Blake3,
        },
        None => HashType::Blake3,
    };
    Settings { compression, hasher }
}

/// Lists what in `headers` the client passes over: headers with unknown
/// keys, and values of `Compression` and `Hasher` that name nothing.
pub fn header_warnings(headers: &Headers) -> (out: Vec<Warning>)
    ensures
        warning_views(out@) == warnings_of(headers.pairs()),
{
    let entries = headers.entries();
    let ghost pairs = headers.pairs();
    let min_version = "MinVersion".to_owned();
    let compression = "Compression".to_owned();
    let hasher = "Hasher".to_owned();
    let mut out: Vec<Warning> = Vec::new();
    let mut i: usize = 0;
    proof {
        assert(pairs.take(0) == Seq::<(Seq<char>, Seq<char>)>::empty());
        assert(warning_views(out@) == Seq::<WarningData>::empty());
    }
    while i < entries.len()
        invariant
            i <= entries.len(),
            header_views(entries@) == pairs,
            min_version@ == key_min_version(),
            compression@ == key_compression(),
            hasher@ == key_hasher(),
            warning_views(out@) == warnings_of(pairs.take(i as int)),
        decreases entries.len() - i,
    {
        let entry = &entries[i];
        proof {
            assert(pairs.take(i + 1).drop_last() == pairs.take(i as int));
            assert(pairs.take(i + 1).last() == entry@);
            assert(pairs[i as int] == entry@);
        }
        let warning: Option<Warning> = if entry.key == min_version {
            None
        } else if entry.key == compression {
            if Compression::from_name(entry.value.as_str()).is_none() {
                Some(Warning::UnknownCompression(entry.value.clone()))
            } else {
                None
            }
        } else if entry.key == hasher {
            if HashType::from_name(entry.value.as_str()).is_none() {
                Some(Warning::UnknownHasher(entry.value.clone()))
            } else {
                None
            }
        } else {
            Some(Warning::UnknownHeader(entry.key.clone()))
        };
        match warning {
            Some(w) => {
                proof {
                    assert(warning_of(entry@) == Some(w@));
                    assert(warning_views(out@.push(w)) == warning_views(out@).push(w@));
                }
                out.push(w);
            },
            None => {
                proof {
                    assert(warning_of(entry@) is None);
                }
            },
        }
        i += 1;
    }
    proof {
        assert(pairs.take(pairs.len() as int) == pairs);
    }
    out
}

/// Tells whether the client `local` may apply a manifest with the headers
/// `headers`.
pub fn check_headers(headers: &Headers, local: &Version) -> (out: Result<(), CompatibilityError>)
    ensures
        out == headers_gate(headers@, *local),
{
    match headers.get("MinVersion") {
        Some(value) => check_min_version(value.as_str(), local),
        None => Ok(()),
    }
}

/// What an update is to do, in this order: fetch and install the chunks of
/// `fetch`; enter the manifest as the current one; build the staging tree
/// from `links`; swap it with the live tree; sweep the chunk store.
#[derive(Debug)]
pub struct UpdatePlan {
    pub settings: Settings,
    pub warnings: Vec<Warning>,
    pub fetch: Vec<Chunk>,
    pub links: Vec<TreeLink>,
}

/// What a plan holds, as plain values.
pub struct UpdatePlanData {
    pub settings: Settings,
    pub warnings: Seq<WarningData>,
    pub fetch: Seq<ChunkData>,
    pub links: Seq<TreeLinkData>,
}

impl View for UpdatePlan {
    type V = UpdatePlanData;

    open spec fn view(&self) -> UpdatePlanData {
        UpdatePlanData {
            settings: self.settings,
            warnings: warning_views(self.warnings@),
            fetch: chunk_views(self.fetch@),
            links: link_views(self.links@),
        }
    }
}

/// The plan of the update to the manifest with the headers `pairs` and the
/// chunks `chunks`, for the client `local` whose chunk store holds the
/// objects named in `present`; the refusal where the client is too old.
pub open spec fn planned(
    pairs: Seq<(Seq<char>, Seq<char>)>,
    chunks: Seq<ChunkData>,
    local: Version,
    present: Set<Seq<char>>,
) -> Result<UpdatePlanData, CompatibilityError> {
    match headers_gate(pairs_map(pairs), local) {
        Err(e) => Err(e),
        Ok(_) => Ok(
            UpdatePlanData {
                settings: chosen_settings(pairs_map(pairs)),
                warnings: warnings_of(pairs),
                fetch: to_fetch(chunks, present),
                links: tree_links(chunks),
            },
        ),
    }
}

/// Plans the update to a manifest that was read into `headers` and
/// `chunks`. `present` names the objects that the chunk store holds.
/// Nothing is planned for a manifest that the client is too old for.
pub fn plan_update(
    headers: &Headers,
    chunks: &[Chunk],
    local: &Version,
    present: &Vec<String>,
) -> (out: Result<UpdatePlan, CompatibilityError>)
    ensures
        match out {
            Ok(plan) => planned(
                headers.pairs(),
                chunk_views(chunks@),
                *local,
                name_set(text_views(present@)),
            ) == Ok::<UpdatePlanData, CompatibilityError>(plan@),
            Err(e) => planned(
                headers.pairs(),
                chunk_views(chunks@),
                *local,
                name_set(text_views(present@)),
            ) == Err::<UpdatePlanData, CompatibilityError>(e),
        },
{
    match check_headers(headers, local) {
        Err(e) => Err(e),
        Ok(_) => Ok(
            UpdatePlan {
                settings: resolve_settings(headers),
                warnings: header_warnings(headers),
                fetch: missing_chunks(chunks, present),
                links: build_tree(chunks),
            },
        ),
    }
}

/// Whether the repository's pointer `pointer` names a manifest other than
/// the current one. With no current manifest it always does.
pub open spec fn points_elsewhere(kept: GenerationsData, pointer: Seq<char>) -> bool {
    match kept.current {
        None => true,
        Some(text) => manifest_digest(text) != pointer,
    }
}

/// Tells whether the repository's pointer names a manifest other than the
/// current one, so that there is something to update to.
pub fn pointer_changed(generations: &Generations, pointer: &str) -> (out: bool)
    ensures
        out == points_elsewhere(generations@, pointer@),
{
    match &generations.current {
        None => true,
        Some(text) => {
            let digest = digest_manifest(text.as_str());
            let given = pointer.to_owned();
            !(digest == given)
        },
    }
}

} // verus!
