//! The headers of a manifest: a mapping from keys to values in which a
//! later entry for a key replaces the earlier one.

use vstd::prelude::*;
use crate::fields::{first_index, lemma_first_index_is};

verus! {

/// One header: a key and its value.
#[derive(Debug)]
pub struct Header {
    pub key: String,
    pub value: String,
}

impl View for Header {
    type V = (Seq<char>, Seq<char>);

    open spec fn view(&self) -> (Seq<char>, Seq<char>) {
        (self.key@, self.value@)
    }
}

/// The views of a sequence of headers.
pub open spec fn header_views(headers: Seq<Header>) -> Seq<(Seq<char>, Seq<char>)> {
    Seq::new(headers.len(), |i: int| headers[i]@)
}

/// Whether no key stands twice in `pairs`.
pub open spec fn distinct_keys(pairs: Seq<(Seq<char>, Seq<char>)>) -> bool {
    forall|i: int, j: int| 0 <= i < j < pairs.len() ==> pairs[i].0 != pairs[j].0
}

/// The mapping that `pairs` spell when they are entered in order, a later
/// pair replacing an earlier one with the same key.
pub open spec fn pairs_map(pairs: Seq<(Seq<char>, Seq<char>)>) -> Map<Seq<char>, Seq<char>>
    decreases pairs.len(),
{
    if pairs.len() == 0 {
        Map::empty()
    } else {
        pairs_map(pairs.drop_last()).insert(pairs.last().0, pairs.last().1)
    }
}

/// The keys of the mapping are the keys of the pairs.
pub proof fn lemma_pairs_map_keys(pairs: Seq<(Seq<char>, Seq<char>)>)
    ensures
        pairs_map(pairs).dom().finite(),
        forall|k: Seq<char>|
            pairs_map(pairs).contains_key(k) <==> exists|i: int|
                0 <= i < pairs.len() && #[trigger] pairs[i].0 == k,
        distinct_keys(pairs) ==> pairs_map(pairs).dom().len() == pairs.len(),
    decreases pairs.len(),
{
    if pairs.len() > 0 {
        let front = pairs.drop_last();
        let last = pairs.last();
        lemma_pairs_map_keys(front);
        assert forall|k: Seq<char>| pairs_map(pairs).contains_key(k) implies exists|i: int|
            0 <= i < pairs.len() && #[trigger] pairs[i].0 == k by {
            if k == last.0 {
                assert(pairs[pairs.len() - 1].0 == k);
            } else {
                let i = choose|i: int| 0 <= i < front.len() && #[trigger] front[i].0 == k;
                assert(pairs[i].0 == k);
            }
        }
        assert forall|k: Seq<char>|
            (exists|i: int|
                0 <= i < pairs.len() && #[trigger] pairs[i].0 == k) implies pairs_map(
            pairs,
        ).contains_key(k) by {
            let i = choose|i: int| 0 <= i < pairs.len() && #[trigger] pairs[i].0 == k;
            if i < front.len() {
                assert(front[i].0 == k);
            }
        }
        if distinct_keys(pairs) {
            assert(distinct_keys(front)) by {
                assert forall|i: int, j: int| 0 <= i < j < front.len() implies front[i].0
                    != front[j].0 by {
                    assert(pairs[i].0 != pairs[j].0);
                }
            }
            if pairs_map(front).contains_key(last.0) {
                let i = choose|i: int| 0 <= i < front.len() && #[trigger] front[i].0 == last.0;
                assert(pairs[i].0 != pairs[pairs.len() - 1].0);
            }
        }
    }
}

/// Where keys are distinct, each pair's key maps to that pair's value.
pub proof fn lemma_pairs_map_value(pairs: Seq<(Seq<char>, Seq<char>)>, i: int)
    requires
        distinct_keys(pairs),
        0 <= i < pairs.len(),
    ensures
        pairs_map(pairs).contains_key(pairs[i].0),
        pairs_map(pairs)[pairs[i].0] == pairs[i].1,
    decreases pairs.len(),
{
    let front = pairs.drop_last();
    if i < pairs.len() - 1 {
        assert(distinct_keys(front)) by {
            assert forall|a: int, b: int| 0 <= a < b < front.len() implies front[a].0
                != front[b].0 by {
                assert(pairs[a].0 != pairs[b].0);
            }
        }
        lemma_pairs_map_value(front, i);
        assert(pairs[i].0 != pairs[pairs.len() - 1].0);
    }
}

/// Where keys are distinct, giving one pair a new value enters that value
/// under the pair's key.
pub proof fn lemma_pairs_map_update(
    pairs: Seq<(Seq<char>, Seq<char>)>,
    i: int,
    value: Seq<char>,
)
    requires
        distinct_keys(pairs),
        0 <= i < pairs.len(),
    ensures
        pairs_map(pairs.update(i, (pairs[i].0, value))) == pairs_map(pairs).insert(
            pairs[i].0,
            value,
        ),
        distinct_keys(pairs.update(i, (pairs[i].0, value))),
    decreases pairs.len(),
{
    let key = pairs[i].0;
    let changed = pairs.update(i, (key, value));
    let front = pairs.drop_last();
    assert(distinct_keys(changed)) by {
        assert forall|a: int, b: int| 0 <= a < b < changed.len() implies changed[a].0
            != changed[b].0 by {
            assert(pairs[a].0 != pairs[b].0);
        }
    }
    if i == pairs.len() - 1 {
        assert(changed.drop_last() == front);
        assert(pairs_map(changed) == pairs_map(pairs).insert(key, value));
    } else {
        assert(distinct_keys(front)) by {
            assert forall|a: int, b: int| 0 <= a < b < front.len() implies front[a].0
                != front[b].0 by {
                assert(pairs[a].0 != pairs[b].0);
            }
        }
        lemma_pairs_map_update(front, i, value);
        assert(changed.drop_last() == front.update(i, (key, value)));
        assert(changed.last() == pairs.last());
        assert(pairs[i].0 != pairs[pairs.len() - 1].0);
        assert(pairs_map(changed) == pairs_map(pairs).insert(key, value));
    }
}

/// The keys of `pairs`, in order.
pub open spec fn keys_of(pairs: Seq<(Seq<char>, Seq<char>)>) -> Seq<Seq<char>> {
    Seq::new(pairs.len(), |i: int| pairs[i].0)
}

/// `pairs` after `pair` was entered: where its key stands already, the
/// first pair with that key is replaced; else `pair` goes to the end.
pub open spec fn put(pairs: Seq<(Seq<char>, Seq<char>)>, pair: (Seq<char>, Seq<char>)) -> Seq<
    (Seq<char>, Seq<char>),
> {
    let at = first_index(keys_of(pairs), pair.0);
    if 0 <= at < pairs.len() {
        pairs.update(at, pair)
    } else {
        pairs.push(pair)
    }
}

/// The pairs that are left when `pairs` are entered one by one, starting
/// from nothing.
pub open spec fn put_all(pairs: Seq<(Seq<char>, Seq<char>)>) -> Seq<(Seq<char>, Seq<char>)>
    decreases pairs.len(),
{
    if pairs.len() == 0 {
        Seq::empty()
    } else {
        put(put_all(pairs.drop_last()), pairs.last())
    }
}

/// The headers of a manifest.
///
/// The entries stand in the order in which their keys first came; no key
/// stands twice.
#[derive(Debug)]
pub struct Headers {
    entries: Vec<Header>,
}

impl View for Headers {
    type V = Map<Seq<char>, Seq<char>>;

    open spec fn view(&self) -> Map<Seq<char>, Seq<char>> {
        pairs_map(self.pairs())
    }
}

impl Headers {
    #[verifier::type_invariant]
    spec fn keys_are_distinct(self) -> bool {
        distinct_keys(header_views(self.entries@))
    }

    /// The entries as pairs of key and value, in order.
    pub closed spec fn pairs(&self) -> Seq<(Seq<char>, Seq<char>)> {
        header_views(self.entries@)
    }

    /// No headers.
    pub fn new() -> (out: Headers)
        ensures
            out.pairs() == Seq::<(Seq<char>, Seq<char>)>::empty(),
            out@ == Map::<Seq<char>, Seq<char>>::empty(),
    {
        let out = Headers { entries: Vec::new() };
        assert(out.pairs() =~= Seq::<(Seq<char>, Seq<char>)>::empty());
        out
    }

    /// The number of headers.
    pub fn len(&self) -> (n: usize)
        ensures
            n == self.pairs().len(),
            self@.dom().finite(),
            n == self@.dom().len(),
    {
        proof {
            use_type_invariant(self);
            lemma_pairs_map_keys(self.pairs());
        }
        self.entries.len()
    }

    /// The entries, in order.
    pub fn entries(&self) -> (out: &Vec<Header>)
        ensures
            header_views(out@) == self.pairs(),
            distinct_keys(self.pairs()),
    {
        proof {
            use_type_invariant(self);
        }
        &self.entries
    }

    /// Where `key` stands among the entries.
    fn position(&self, key: &String) -> (at: Option<usize>)
        ensures
            match at {
                Some(i) => i < self.entries.len() && self.entries[i as int].key@ == key@ && i
                    == first_index(keys_of(self.pairs()), key@),
                None => !self@.contains_key(key@) && first_index(keys_of(self.pairs()), key@)
                    == self.entries.len(),
            },
    {
        let mut i: usize = 0;
        while i < self.entries.len()
            invariant
                i <= self.entries.len(),
                forall|j: int| 0 <= j < i ==> self.entries[j].key@ != key@,
            decreases self.entries.len() - i,
        {
            if self.entries[i].key == *key {
                proof {
                    lemma_first_index_is(keys_of(self.pairs()), key@, i as int);
                }
                return Some(i);
            }
            i += 1;
        }
        proof {
            let pairs = self.pairs();
            lemma_first_index_is(keys_of(pairs), key@, pairs.len() as int);
            lemma_pairs_map_keys(pairs);
            if self@.contains_key(key@) {
                let j = choose|j: int| 0 <= j < pairs.len() && #[trigger] pairs[j].0 == key@;
                assert(self.entries[j].key@ == key@);
            }
        }
        None
    }

    /// The value of the header `key`, if there is one.
    pub fn get(&self, key: &str) -> (out: Option<&String>)
        ensures
            match out {
                Some(value) => self@.contains_key(key@) && self@[key@] == value@,
                None => !self@.contains_key(key@),
            },
    {
        let owned = key.to_owned();
        match self.position(&owned) {
            Some(i) => {
                proof {
                    use_type_invariant(self);
                    lemma_pairs_map_value(self.pairs(), i as int);
                }
                Some(&self.entries[i].value)
            },
            None => None,
        }
    }

    /// Enters `value` under `key`, in place of any value that `key` had.
    pub fn insert(&mut self, key: String, value: String)
        ensures
            final(self)@ == old(self)@.insert(key@, value@),
            final(self).pairs() == put(old(self).pairs(), (key@, value@)),
            !old(self)@.contains_key(key@) ==> final(self).pairs() == old(self).pairs().push(
                (key@, value@),
            ),
    {
        proof {
            use_type_invariant(&*self);
        }
        let ghost before = self.pairs();
        let ghost k = key@;
        let ghost v = value@;
        let found = self.position(&key);
        let mut entries: Vec<Header> = Vec::new();
        core::mem::swap(&mut self.entries, &mut entries);
        match found {
            Some(i) => {
                proof {
                    lemma_pairs_map_update(before, i as int, v);
                    lemma_pairs_map_value(before, i as int);
                }
                entries.set(i, Header { key, value });
                assert(header_views(entries@) =~= before.update(i as int, (k, v)));
            },
            None => {
                proof {
                    lemma_pairs_map_keys(before);
                }
                entries.push(Header { key, value });
                assert(header_views(entries@) =~= before.push((k, v)));
                assert(before.push((k, v)).drop_last() == before);
                assert(distinct_keys(before.push((k, v)))) by {
                    assert forall|a: int, b: int|
                        0 <= a < b < before.len() + 1 implies before.push((k, v))[a].0
                        != before.push((k, v))[b].0 by {
                        if b == before.len() {
                            assert(before[a].0 != k);
                        } else {
                            assert(before[a].0 != before[b].0);
                        }
                    }
                }
            },
        }
        core::mem::swap(&mut self.entries, &mut entries);
    }
}

} // verus!
