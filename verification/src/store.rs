//! The chunk store as a set of named objects: which chunks of a manifest
//! are still to be fetched, and which objects no kept manifest refers to.

use vstd::prelude::*;
use vstd::hash_set::StringHashSet;
use crate::chunks::{Chunk, ChunkData, chunk_filename, chunk_views, store_name};
use crate::generations::{Generations, GenerationsData, text_view};
use crate::manifest::{FormatError, manifest_of, parse_manifest};
use crate::text::text_views;

verus! {

/// The set of the names in `names`.
pub open spec fn name_set(names: Seq<Seq<char>>) -> Set<Seq<char>>
    decreases names.len(),
{
    if names.len() == 0 {
        Set::empty()
    } else {
        name_set(names.drop_last()).insert(names.last())
    }
}

/// A name is in the set exactly if it stands in the sequence.
pub proof fn lemma_name_set(names: Seq<Seq<char>>, name: Seq<char>)
    ensures
        name_set(names).contains(name) <==> exists|i: int|
            0 <= i < names.len() && #[trigger] names[i] == name,
    decreases names.len(),
{
    if names.len() > 0 {
        let front = names.drop_last();
        lemma_name_set(front, name);
        if name_set(names).contains(name) {
            if name == names.last() {
                assert(names[names.len() - 1] == name);
            } else {
                assert(name_set(front).contains(name));
                let i = choose|i: int| 0 <= i < front.len() && #[trigger] front[i] == name;
                assert(names[i] == name);
            }
        }
        if exists|i: int| 0 <= i < names.len() && #[trigger] names[i] == name {
            let i = choose|i: int| 0 <= i < names.len() && #[trigger] names[i] == name;
            if i < front.len() {
                assert(front[i] == name);
            }
        }
    }
}

/// The store names of `chunks`, in order.
pub open spec fn store_names(chunks: Seq<ChunkData>) -> Seq<Seq<char>> {
    Seq::new(chunks.len(), |i: int| store_name(chunks[i]))
}

/// The set of the store names of `chunks`.
pub open spec fn chunk_names(chunks: Seq<ChunkData>) -> Set<Seq<char>> {
    name_set(store_names(chunks))
}

/// The store names that the manifest `text` refers to; none where there is
/// no manifest.
pub open spec fn names_in(text: Option<Seq<char>>) -> Result<Set<Seq<char>>, FormatError> {
    match text {
        None => Ok(Set::empty()),
        Some(t) => match manifest_of(t) {
            Ok(manifest) => Ok(chunk_names(manifest.1)),
            Err(e) => Err(e),
        },
    }
}

/// The store names that the kept manifests refer to: those of the current
/// manifest together with those of the old one.
pub open spec fn referenced(kept: GenerationsData) -> Result<Set<Seq<char>>, FormatError> {
    match names_in(kept.current) {
        Err(e) => Err(e),
        Ok(current) => match names_in(kept.old) {
            Err(e) => Err(e),
            Ok(old) => Ok(current.union(old)),
        },
    }
}

/// One object of the chunk store: its file name and its size in bytes.
#[derive(Debug)]
pub struct StoreEntry {
    pub name: String,
    pub size: u64,
}

/// What a store entry holds, as plain values.
pub struct StoreEntryData {
    pub name: Seq<char>,
    pub size: u64,
}

impl View for StoreEntry {
    type V = StoreEntryData;

    open spec fn view(&self) -> StoreEntryData {
        StoreEntryData { name: self.name@, size: self.size }
    }
}

/// The views of a sequence of store entries.
pub open spec fn entry_views(store: Seq<StoreEntry>) -> Seq<StoreEntryData> {
    Seq::new(store.len(), |i: int| store[i]@)
}

/// The sizes of all of `store`, added up.
pub open spec fn total_bytes(store: Seq<StoreEntryData>) -> nat
    decreases store.len(),
{
    if store.len() == 0 {
        0
    } else {
        total_bytes(store.drop_last()) + store.last().size as nat
    }
}

/// The names of the entries of `store` that are not in `keep`, in the
/// order of `store`.
pub open spec fn swept_names(store: Seq<StoreEntryData>, keep: Set<Seq<char>>) -> Seq<Seq<char>>
    decreases store.len(),
{
    if store.len() == 0 {
        Seq::empty()
    } else if keep.contains(store.last().name) {
        swept_names(store.drop_last(), keep)
    } else {
        swept_names(store.drop_last(), keep).push(store.last().name)
    }
}

/// The sizes of the entries of `store` that are not in `keep`, added up.
pub open spec fn swept_bytes(store: Seq<StoreEntryData>, keep: Set<Seq<char>>) -> nat
    decreases store.len(),
{
    if store.len() == 0 {
        0
    } else if keep.contains(store.last().name) {
        swept_bytes(store.drop_last(), keep)
    } else {
        swept_bytes(store.drop_last(), keep) + store.last().size as nat
    }
}

/// What a sweep removes is exactly what is not kept: no removed name is in
/// `keep`, every entry whose name is not in `keep` is removed, and the
/// bytes freed are no more than the store holds.
pub proof fn lemma_sweep(store: Seq<StoreEntryData>, keep: Set<Seq<char>>)
    ensures
        forall|k: int|
            0 <= k < swept_names(store, keep).len() ==> !keep.contains(
                #[trigger] swept_names(store, keep)[k],
            ),
        forall|i: int|
            0 <= i < store.len() && !keep.contains((#[trigger] store[i]).name) ==> swept_names(
                store,
                keep,
            ).contains(store[i].name),
        swept_bytes(store, keep) <= total_bytes(store),
    decreases store.len(),
{
    if store.len() > 0 {
        let front = store.drop_last();
        let last = store.last();
        lemma_sweep(front, keep);
        let before = swept_names(front, keep);
        let after = swept_names(store, keep);
        assert forall|i: int|
            0 <= i < store.len() && !keep.contains(
                (#[trigger] store[i]).name,
            ) implies after.contains(store[i].name) by {
            if i < front.len() {
                assert(front[i] == store[i]);
                assert(before.contains(store[i].name));
                let k = choose|k: int| 0 <= k < before.len() && before[k] == store[i].name;
                assert(after[k] == store[i].name);
            } else {
                assert(after[after.len() - 1] == last.name);
            }
        }
    }
}

/// Every chunk of a kept manifest is referenced, so a sweep that keeps the
/// referenced names removes the object of none of them.
pub proof fn lemma_kept_chunks_stay(
    kept: GenerationsData,
    store: Seq<StoreEntryData>,
    chunk: ChunkData,
)
    requires
        referenced(kept) is Ok,
        (kept.current is Some && manifest_of(kept.current->0)->Ok_0.1.contains(chunk)) || (kept.old
            is Some && manifest_of(kept.old->0)->Ok_0.1.contains(chunk)),
    ensures
        referenced(kept)->Ok_0.contains(store_name(chunk)),
        !swept_names(store, referenced(kept)->Ok_0).contains(store_name(chunk)),
{
    let keep = referenced(kept)->Ok_0;
    if kept.current is Some && manifest_of(kept.current->0)->Ok_0.1.contains(chunk) {
        let chunks = manifest_of(kept.current->0)->Ok_0.1;
        let i = choose|i: int| 0 <= i < chunks.len() && chunks[i] == chunk;
        lemma_name_set(store_names(chunks), store_name(chunk));
        assert(store_names(chunks)[i] == store_name(chunk));
    } else {
        let chunks = manifest_of(kept.old->0)->Ok_0.1;
        let i = choose|i: int| 0 <= i < chunks.len() && chunks[i] == chunk;
        lemma_name_set(store_names(chunks), store_name(chunk));
        assert(store_names(chunks)[i] == store_name(chunk));
    }
    lemma_sweep(store, keep);
}

/// The sizes of all of `store`, added up, where the sum fits 64 bits.
pub fn total_size(store: &Vec<StoreEntry>) -> (out: Option<u64>)
    ensures
        match out {
            Some(total) => total == total_bytes(entry_views(store@)),
            None => total_bytes(entry_views(store@)) > u64::MAX,
        },
{
    let ghost entries = entry_views(store@);
    let mut total: u64 = 0;
    let mut i: usize = 0;
    proof {
        assert(entries.take(0) == Seq::<StoreEntryData>::empty());
    }
    while i < store.len()
        invariant
            i <= store.len(),
            entries == entry_views(store@),
            total == total_bytes(entries.take(i as int)),
        decreases store.len() - i,
    {
        proof {
            assert(entries.take(i + 1).drop_last() == entries.take(i as int));
            assert(entries.take(i + 1).last() == store@[i as int]@);
            lemma_total_prefix(entries, i + 1);
        }
        match total.checked_add(store[i].size) {
            Some(sum) => {
                total = sum;
            },
            None => {
                return None;
            },
        }
        i += 1;
    }
    proof {
        assert(entries.take(entries.len() as int) == entries);
    }
    Some(total)
}

/// Enters the store names of `chunks` into `names`.
fn insert_chunk_names(names: &mut StringHashSet, chunks: &Vec<Chunk>)
    ensures
        final(names)@ == old(names)@.union(chunk_names(chunk_views(chunks@))),
{
    let ghost all = store_names(chunk_views(chunks@));
    let mut i: usize = 0;
    proof {
        assert(all.take(0) == Seq::<Seq<char>>::empty());
        assert(old(names)@.union(Set::empty()) == old(names)@);
    }
    while i < chunks.len()
        invariant
            i <= chunks.len(),
            all == store_names(chunk_views(chunks@)),
            names@ == old(names)@.union(name_set(all.take(i as int))),
        decreases chunks.len() - i,
    {
        let name = chunk_filename(&chunks[i]);
        proof {
            assert(all.take(i + 1).drop_last() == all.take(i as int));
            assert(all.take(i + 1).last() == name@);
            assert(old(names)@.union(name_set(all.take(i as int))).insert(name@) == old(
                names,
            )@.union(name_set(all.take(i as int)).insert(name@)));
        }
        names.insert(name);
        i += 1;
    }
    proof {
        assert(all.take(all.len() as int) == all);
    }
}

/// Enters the store names that the manifest `text` refers to into `names`.
fn insert_manifest_names(names: &mut StringHashSet, text: &Option<String>) -> (out: Result<
    (),
    FormatError,
>)
    ensures
        match out {
            Ok(_) => names_in(text_view(*text)) is Ok && final(names)@ == old(names)@.union(
                names_in(text_view(*text))->Ok_0,
            ),
            Err(e) => names_in(text_view(*text)) == Err::<Set<Seq<char>>, FormatError>(e),
        },
{
    match text {
        None => {
            proof {
                assert(old(names)@.union(Set::empty()) == old(names)@);
            }
            Ok(())
        },
        Some(t) => match parse_manifest(t.as_str()) {
            Ok((_, chunks)) => {
                insert_chunk_names(names, &chunks);
                Ok(())
            },
            Err(e) => Err(e),
        },
    }
}

/// What a sweep of the chunk store is to do: the names of the objects to
/// remove, and how many bytes that frees.
#[derive(Debug)]
pub struct Sweep {
    pub remove: Vec<String>,
    pub freed: u64,
}

/// Finds the objects of the chunk store that neither kept manifest refers
/// to. They are to be removed; all others stay.
///
/// This is for the time after the new tree was swapped in: before that, the
/// tree in use may still need what the sweep would remove.
pub fn clean_old_chunks(generations: &Generations, store: &Vec<StoreEntry>) -> (out: Result<
    Sweep,
    FormatError,
>)
    requires
        total_bytes(entry_views(store@)) <= u64::MAX,
    ensures
        match out {
            Ok(sweep) => {
                &&& referenced(generations@) is Ok
                &&& text_views(sweep.remove@) == swept_names(
                    entry_views(store@),
                    referenced(generations@)->Ok_0,
                )
                &&& sweep.freed == swept_bytes(
                    entry_views(store@),
                    referenced(generations@)->Ok_0,
                )
            },
            Err(e) => referenced(generations@) == Err::<Set<Seq<char>>, FormatError>(e),
        },
{
    let mut keep = StringHashSet::new();
    match insert_manifest_names(&mut keep, &generations.current) {
        Ok(_) => {},
        Err(e) => {
            return Err(e);
        },
    }
    match insert_manifest_names(&mut keep, &generations.old) {
        Ok(_) => {},
        Err(e) => {
            return Err(e);
        },
    }
    let ghost entries = entry_views(store@);
    proof {
        let a = names_in(generations@.current)->Ok_0;
        assert(Set::<Seq<char>>::empty().union(a) == a);
        assert(keep@ == referenced(generations@)->Ok_0);
        assert(entries.take(0) == Seq::<StoreEntryData>::empty());
    }
    let mut remove: Vec<String> = Vec::new();
    let mut freed: u64 = 0;
    let mut i: usize = 0;
    while i < store.len()
        invariant
            i <= store.len(),
            entries == entry_views(store@),
            total_bytes(entries) <= u64::MAX,
            text_views(remove@) == swept_names(entries.take(i as int), keep@),
            freed == swept_bytes(entries.take(i as int), keep@),
        decreases store.len() - i,
    {
        let entry = &store[i];
        proof {
            assert(entries.take(i + 1).drop_last() == entries.take(i as int));
            assert(entries.take(i + 1).last() == entry@);
            lemma_sweep(entries.take(i + 1), keep@);
            lemma_total_prefix(entries, i + 1);
        }
        if !keep.contains(entry.name.as_str()) {
            let name = entry.name.clone();
            proof {
                assert(text_views(remove@.push(name)) == text_views(remove@).push(name@));
            }
            remove.push(name);
            freed = freed + entry.size;
        }
        i += 1;
    }
    proof {
        assert(entries.take(entries.len() as int) == entries);
    }
    Ok(Sweep { remove, freed })
}

/// A prefix of the store holds no more bytes than the whole store.
proof fn lemma_total_prefix(store: Seq<StoreEntryData>, k: int)
    requires
        0 <= k <= store.len(),
    ensures
        total_bytes(store.take(k)) <= total_bytes(store),
    decreases store.len(),
{
    if k == store.len() {
        assert(store.take(k) == store);
    } else {
        lemma_total_prefix(store.drop_last(), k);
        assert(store.drop_last().take(k) == store.take(k));
    }
}

/// The chunks of `chunks` that are to be fetched when the store holds the
/// objects named in `present`: each chunk whose object is neither present
/// nor that of an earlier chunk.
pub open spec fn to_fetch(chunks: Seq<ChunkData>, present: Set<Seq<char>>) -> Seq<ChunkData>
    decreases chunks.len(),
{
    if chunks.len() == 0 {
        Seq::empty()
    } else {
        let front = chunks.drop_last();
        let name = store_name(chunks.last());
        if present.contains(name) || chunk_names(front).contains(name) {
            to_fetch(front, present)
        } else {
            to_fetch(front, present).push(chunks.last())
        }
    }
}

/// What is to be fetched is part of the manifest and is lacking: each chunk
/// to fetch is one of `chunks`, the store holds the object of none of them,
/// and no two of them have the same object.
pub proof fn lemma_fetch_only_missing(chunks: Seq<ChunkData>, present: Set<Seq<char>>)
    ensures
        forall|k: int|
            0 <= k < to_fetch(chunks, present).len() ==> chunks.contains(
                #[trigger] to_fetch(chunks, present)[k],
            ),
        forall|k: int|
            0 <= k < to_fetch(chunks, present).len() ==> !present.contains(
                store_name(#[trigger] to_fetch(chunks, present)[k]),
            ),
        forall|k: int, l: int|
            0 <= k < l < to_fetch(chunks, present).len() ==> store_name(
                to_fetch(chunks, present)[k],
            ) != store_name(to_fetch(chunks, present)[l]),
    decreases chunks.len(),
{
    if chunks.len() > 0 {
        let front = chunks.drop_last();
        let last = chunks.last();
        let before = to_fetch(front, present);
        let after = to_fetch(chunks, present);
        lemma_fetch_only_missing(front, present);
        assert forall|k: int| 0 <= k < after.len() implies chunks.contains(
            #[trigger] after[k],
        ) by {
            if k < before.len() {
                assert(front.contains(before[k]));
                let i = choose|i: int| 0 <= i < front.len() && front[i] == before[k];
                assert(chunks[i] == after[k]);
            } else {
                assert(chunks[chunks.len() - 1] == after[k]);
            }
        }
        assert forall|k: int, l: int| 0 <= k < l < after.len() implies store_name(after[k])
            != store_name(after[l]) by {
            if l == before.len() {
                assert(front.contains(before[k]));
                let i = choose|i: int| 0 <= i < front.len() && front[i] == before[k];
                lemma_name_set(store_names(front), store_name(before[k]));
                assert(store_names(front)[i] == store_name(before[k]));
            }
        }
    }
}

/// Once what is to be fetched is installed, the store holds the object of
/// every chunk of the manifest: each is present already or is that of a
/// chunk to fetch.
pub proof fn lemma_fetch_completes(chunks: Seq<ChunkData>, present: Set<Seq<char>>)
    ensures
        forall|i: int|
            0 <= i < chunks.len() ==> present.contains(store_name(#[trigger] chunks[i]))
                || chunk_names(to_fetch(chunks, present)).contains(store_name(chunks[i])),
    decreases chunks.len(),
{
    if chunks.len() > 0 {
        let front = chunks.drop_last();
        let last = chunks.last();
        let before = to_fetch(front, present);
        let after = to_fetch(chunks, present);
        lemma_fetch_completes(front, present);
        assert forall|name: Seq<char>| chunk_names(before).contains(name) implies chunk_names(
            after,
        ).contains(name) by {
            lemma_name_set(store_names(before), name);
            lemma_name_set(store_names(after), name);
            let k = choose|k: int|
                0 <= k < store_names(before).len() && #[trigger] store_names(before)[k] == name;
            assert(store_names(after)[k] == name);
        }
        assert forall|i: int| 0 <= i < chunks.len() implies present.contains(
            store_name(#[trigger] chunks[i]),
        ) || chunk_names(after).contains(store_name(chunks[i])) by {
            let name = store_name(chunks[i]);
            if i < front.len() {
                assert(front[i] == chunks[i]);
            } else if present.contains(name) {
            } else if chunk_names(front).contains(name) {
                lemma_name_set(store_names(front), name);
                let j = choose|j: int|
                    0 <= j < store_names(front).len() && #[trigger] store_names(front)[j] == name;
                assert(store_name(front[j]) == name);
            } else {
                lemma_name_set(store_names(after), name);
                assert(store_names(after)[after.len() - 1] == name);
            }
        }
    }
}

/// The chunks of `chunks` whose objects the store lacks, each object once.
/// `present` names the objects that the store holds.
pub fn missing_chunks(chunks: &[Chunk], present: &Vec<String>) -> (out: Vec<Chunk>)
    ensures
        chunk_views(out@) == to_fetch(chunk_views(chunks@), name_set(text_views(present@))),
{
    let mut seen = StringHashSet::new();
    let ghost held = text_views(present@);
    let mut k: usize = 0;
    proof {
        assert(held.take(0) == Seq::<Seq<char>>::empty());
    }
    while k < present.len()
        invariant
            k <= present.len(),
            held == text_views(present@),
            seen@ == name_set(held.take(k as int)),
        decreases present.len() - k,
    {
        proof {
            assert(held.take(k + 1).drop_last() == held.take(k as int));
            assert(held.take(k + 1).last() == present@[k as int]@);
        }
        seen.insert(present[k].clone());
        k += 1;
    }
    proof {
        assert(held.take(held.len() as int) == held);
    }
    let ghost data = chunk_views(chunks@);
    let ghost base = name_set(held);
    let mut out: Vec<Chunk> = Vec::new();
    let mut i: usize = 0;
    proof {
        assert(data.take(0) == Seq::<ChunkData>::empty());
        assert(store_names(data.take(0)) == Seq::<Seq<char>>::empty());
        assert(base.union(Set::empty()) == base);
        assert(chunk_views(out@) == Seq::<ChunkData>::empty());
    }
    while i < chunks.len()
        invariant
            i <= chunks.len(),
            data == chunk_views(chunks@),
            seen@ == base.union(chunk_names(data.take(i as int))),
            chunk_views(out@) == to_fetch(data.take(i as int), base),
        decreases chunks.len() - i,
    {
        let chunk = &chunks[i];
        let name = chunk_filename(chunk);
        proof {
            let front = data.take(i as int);
            let next = data.take(i + 1);
            assert(next.drop_last() == front);
            assert(next.last() == chunk@);
            assert(store_names(next).drop_last() == store_names(front));
            assert(store_names(next).last() == name@);
            assert(base.union(chunk_names(front)).insert(name@) == base.union(
                chunk_names(front).insert(name@),
            ));
        }
        if !seen.contains(name.as_str()) {
            let copy = chunk.clone();
            proof {
                assert(chunk_views(out@.push(copy)) == chunk_views(out@).push(copy@));
            }
            out.push(copy);
        }
        seen.insert(name);
        i += 1;
    }
    proof {
        assert(data.take(data.len() as int) == data);
    }
    out
}

} // verus!
