//! Splitting text at a delimiter and joining it again.

use vstd::prelude::*;
use crate::text::views;

verus! {

/// Index of the first `d` in `s`; `s.len()` if `s` holds no `d`.
pub open spec fn first_index<T>(s: Seq<T>, d: T) -> int
    decreases s.len(),
{
    if s.len() == 0 {
        0
    } else if s[0] == d {
        0
    } else {
        1 + first_index(s.drop_first(), d)
    }
}

/// `first_index` is the least position of `d`, and the length where there is none.
pub proof fn lemma_first_index<T>(s: Seq<T>, d: T)
    ensures
        0 <= first_index(s, d) <= s.len(),
        forall|j: int| 0 <= j < first_index(s, d) ==> s[j] != d,
        first_index(s, d) < s.len() ==> s[first_index(s, d)] == d,
    decreases s.len(),
{
    if s.len() != 0 && s[0] != d {
        let t = s.drop_first();
        lemma_first_index(t, d);
        assert forall|j: int| 0 <= j < first_index(s, d) implies s[j] != d by {
            if j > 0 {
                assert(s[j] == t[j - 1]);
            }
        }
    }
}

/// A position `k` before which no `d` stands, and which holds `d` or is the
/// end, is `first_index`.
pub proof fn lemma_first_index_is<T>(s: Seq<T>, d: T, k: int)
    requires
        0 <= k <= s.len(),
        forall|j: int| 0 <= j < k ==> s[j] != d,
        k < s.len() ==> s[k] == d,
    ensures
        first_index(s, d) == k,
{
    lemma_first_index(s, d);
}

/// The pieces of `s` between occurrences of `d`. There is always at least
/// one piece; no piece holds `d`.
pub open spec fn split(s: Seq<char>, d: char) -> Seq<Seq<char>>
    decreases s.len(),
{
    let i = first_index(s, d);
    if 0 <= i < s.len() {
        seq![s.take(i)] + split(s.skip(i + 1), d)
    } else {
        seq![s]
    }
}

/// The pieces of `parts` with `d` between each two neighbours.
pub open spec fn join(parts: Seq<Seq<char>>, d: char) -> Seq<char>
    decreases parts.len(),
{
    if parts.len() == 0 {
        Seq::empty()
    } else if parts.len() == 1 {
        parts[0]
    } else {
        parts[0] + seq![d] + join(parts.drop_first(), d)
    }
}

/// Whether `d` occurs nowhere in `s`.
pub open spec fn free_of(s: Seq<char>, d: char) -> bool {
    forall|j: int| 0 <= j < s.len() ==> s[j] != d
}

/// Splitting yields at least one piece, and none of them holds the delimiter.
pub proof fn lemma_split_pieces(s: Seq<char>, d: char)
    ensures
        split(s, d).len() >= 1,
        forall|k: int| 0 <= k < split(s, d).len() ==> free_of(#[trigger] split(s, d)[k], d),
    decreases s.len(),
{
    lemma_first_index(s, d);
    let i = first_index(s, d);
    if 0 <= i < s.len() {
        lemma_split_pieces(s.skip(i + 1), d);
        let rest = split(s.skip(i + 1), d);
        assert forall|k: int| 0 <= k < split(s, d).len() implies free_of(
            #[trigger] split(s, d)[k],
            d,
        ) by {
            if k > 0 {
                assert(split(s, d)[k] == rest[k - 1]);
            }
        }
    }
}

/// A text free of the delimiter is its own single piece.
pub proof fn lemma_split_free(s: Seq<char>, d: char)
    requires
        free_of(s, d),
    ensures
        split(s, d) == seq![s],
{
    lemma_first_index(s, d);
}

/// Splitting `a`, a delimiter and `b`, where `a` is free of the delimiter,
/// yields `a` and then the pieces of `b`.
pub proof fn lemma_split_concat(a: Seq<char>, b: Seq<char>, d: char)
    requires
        free_of(a, d),
    ensures
        split(a + seq![d] + b, d) == seq![a] + split(b, d),
{
    let s = a + seq![d] + b;
    lemma_first_index_is(s, d, a.len() as int);
    assert(s.take(a.len() as int) == a);
    assert(s.skip(a.len() as int + 1) == b);
}

/// Joining the pieces of a text with the delimiter they were split at gives
/// the text back.
pub proof fn lemma_join_split(s: Seq<char>, d: char)
    ensures
        join(split(s, d), d) == s,
    decreases s.len(),
{
    lemma_first_index(s, d);
    let i = first_index(s, d);
    if 0 <= i < s.len() {
        let rest = s.skip(i + 1);
        lemma_join_split(rest, d);
        lemma_split_pieces(rest, d);
        let parts = split(s, d);
        assert(parts.drop_first() == split(rest, d));
        assert(s == s.take(i) + seq![d] + rest);
    }
}

/// Joining one more piece appends the delimiter and the piece.
pub proof fn lemma_join_push(parts: Seq<Seq<char>>, last: Seq<char>, d: char)
    requires
        parts.len() >= 1,
    ensures
        join(parts.push(last), d) == join(parts, d) + seq![d] + last,
    decreases parts.len(),
{
    let all = parts.push(last);
    assert(all[0] == parts[0]);
    if parts.len() == 1 {
        assert(all.drop_first() == seq![last]);
        assert(join(seq![last], d) == last);
    } else {
        lemma_join_push(parts.drop_first(), last, d);
        assert(all.drop_first() == parts.drop_first().push(last));
        assert(join(all, d) == parts[0] + seq![d] + (join(parts.drop_first(), d) + seq![d]
            + last));
    }
}

/// Splits `s` at every `d`.
pub fn split_chars(s: &[char], d: char) -> (out: Vec<Vec<char>>)
    ensures
        views(out@) == split(s@, d),
{
    let mut out: Vec<Vec<char>> = Vec::new();
    let mut piece: Vec<char> = Vec::new();
    let ghost mut start: int = 0;
    let mut i: usize = 0;
    proof {
        assert(s@.skip(0) == s@);
    }
    while i < s.len()
        invariant
            0 <= start <= i <= s.len(),
            piece@ == s@.subrange(start, i as int),
            forall|j: int| start <= j < i ==> s@[j] != d,
            split(s@, d) == views(out@) + split(s@.skip(start), d),
        decreases s.len() - i,
    {
        let c = s[i];
        if c == d {
            proof {
                let tail = s@.skip(start);
                lemma_first_index_is(tail, d, i - start);
                assert(tail.take(i - start) == piece@);
                assert(tail.skip(i - start + 1) == s@.skip(i + 1));
                assert(views(out@.push(piece)) == views(out@).push(piece@));
            }
            out.push(piece);
            piece = Vec::new();
            proof {
                start = i + 1;
            }
        } else {
            piece.push(c);
        }
        i += 1;
    }
    proof {
        let tail = s@.skip(start);
        lemma_first_index_is(tail, d, tail.len() as int);
        assert(tail == piece@);
        assert(views(out@.push(piece)) == views(out@).push(piece@));
    }
    out.push(piece);
    out
}

/// Joins `parts[from..]` with `d` between neighbours.
pub fn join_from(parts: &Vec<Vec<char>>, from: usize, d: char) -> (out: Vec<char>)
    requires
        from <= parts.len(),
    ensures
        out@ == join(views(parts@).skip(from as int), d),
{
    let mut out: Vec<char> = Vec::new();
    let ghost chosen = views(parts@).skip(from as int);
    let mut i: usize = from;
    proof {
        assert(chosen.take(0) == Seq::<Seq<char>>::empty());
    }
    while i < parts.len()
        invariant
            from <= i <= parts.len(),
            chosen == views(parts@).skip(from as int),
            out@ == join(chosen.take(i - from), d),
        decreases parts.len() - i,
    {
        let ghost before = chosen.take(i - from);
        if i > from {
            out.push(d);
        }
        let part = &parts[i];
        let mut k: usize = 0;
        let ghost base = out@;
        while k < part.len()
            invariant
                k <= part.len(),
                out@ == base + part@.take(k as int),
            decreases part.len() - k,
        {
            out.push(part[k]);
            k += 1;
        }
        proof {
            assert(part@.take(part.len() as int) == part@);
            assert(chosen[i - from] == part@);
            assert(chosen.take(i - from + 1) == before.push(part@));
            if i > from {
                lemma_join_push(before, part@, d);
            } else {
                assert(before.push(part@) == seq![part@]);
            }
        }
        i += 1;
    }
    proof {
        assert(chosen.take(chosen.len() as int) == chosen);
    }
    out
}

} // verus!
