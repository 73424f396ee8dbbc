//! Writing a manifest as text, and the proof that reading gives it back.

use vstd::prelude::*;
use crate::chunks::{Chunk, ChunkData, chunk_views};
use crate::decimal::{decimal, is_digit, lemma_decimal, lemma_parse_decimal, push_decimal};
use crate::fields::{
    free_of, lemma_first_index_is, lemma_join_split, lemma_split_concat, lemma_split_pieces,
    split,
};
use crate::headers::{Headers, header_views, pairs_map};
use crate::lines::{is_trimmed, is_whitespace, lines, trim, trim_end, trim_start};
use crate::manifest::{
    FormatError, Record, chunklist_of, divider, header_of, header_pairs, manifest_of, record_of,
};
use crate::text::{extend_chars, to_text};

verus! {

/// The line that spells the header `pair`.
pub open spec fn header_line(pair: (Seq<char>, Seq<char>)) -> Seq<char> {
    pair.0 + seq![':', ' '] + pair.1
}

/// The line that spells the chunk `chunk`.
pub open spec fn record_line(chunk: ChunkData) -> Seq<char> {
    decimal(chunk.permissions as nat) + seq![';'] + (decimal(chunk.size as nat) + seq![';'] + (
    chunk.hash + seq![';'] + chunk.path))
}

/// The text in which each of `all` is followed by a line feed.
pub open spec fn unlines(all: Seq<Seq<char>>) -> Seq<char>
    decreases all.len(),
{
    if all.len() == 0 {
        Seq::empty()
    } else {
        all[0] + seq!['\n'] + unlines(all.drop_first())
    }
}

/// The lines of a manifest: the headers, the divider, the chunks.
pub open spec fn manifest_lines(
    pairs: Seq<(Seq<char>, Seq<char>)>,
    chunks: Seq<ChunkData>,
) -> Seq<Seq<char>> {
    Seq::new(pairs.len(), |i: int| header_line(pairs[i])) + seq![divider()] + Seq::new(
        chunks.len(),
        |i: int| record_line(chunks[i]),
    )
}

/// The text of the manifest with the headers `pairs` and the chunks
/// `chunks`.
pub open spec fn manifest_text(
    pairs: Seq<(Seq<char>, Seq<char>)>,
    chunks: Seq<ChunkData>,
) -> Seq<char> {
    unlines(manifest_lines(pairs, chunks))
}

/// Whether `s` ends in a carriage return.
pub open spec fn ends_in_cr(s: Seq<char>) -> bool {
    s.len() > 0 && s.last() == '\r'
}

/// Whether a header line can carry `pair`: the key holds neither a colon
/// nor a line feed, the value holds no line feed and has no white space at
/// either end.
pub open spec fn header_encodable(pair: (Seq<char>, Seq<char>)) -> bool {
    &&& free_of(pair.0, ':')
    &&& free_of(pair.0, '\n')
    &&& free_of(pair.1, '\n')
    &&& is_trimmed(pair.1)
}

/// Whether a chunk line can carry `chunk`: the hash holds neither a
/// semicolon nor a line feed, the path holds no line feed and does not end
/// in a carriage return.
pub open spec fn chunk_encodable(chunk: ChunkData) -> bool {
    &&& free_of(chunk.hash, ';')
    &&& free_of(chunk.hash, '\n')
    &&& free_of(chunk.path, '\n')
    &&& !ends_in_cr(chunk.path)
}

/// Appending a line to the lines appends it and a line feed to the text.
pub proof fn lemma_unlines_push(all: Seq<Seq<char>>, line: Seq<char>)
    ensures
        unlines(all.push(line)) == unlines(all) + line + seq!['\n'],
    decreases all.len(),
{
    let more = all.push(line);
    if all.len() == 0 {
        assert(more.drop_first() == Seq::<Seq<char>>::empty());
        assert(unlines(more.drop_first()) == Seq::<char>::empty());
        assert(more[0] == line);
        assert(unlines(more) =~= unlines(all) + line + seq!['\n']);
    } else {
        lemma_unlines_push(all.drop_first(), line);
        assert(more.drop_first() == all.drop_first().push(line));
        assert(more[0] == all[0]);
        assert(unlines(more) =~= unlines(all) + line + seq!['\n']);
    }
}

/// Lines that hold no line feed and do not end in a carriage return are
/// the lines of the text that they make.
pub proof fn lemma_lines_unlines(all: Seq<Seq<char>>)
    requires
        forall|i: int| 0 <= i < all.len() ==> free_of(#[trigger] all[i], '\n'),
        forall|i: int| 0 <= i < all.len() ==> !ends_in_cr(#[trigger] all[i]),
    ensures
        lines(unlines(all)) == all,
{
    lemma_split_unlines(all);
    let pieces = split(unlines(all), '\n');
    assert(pieces.last().len() == 0);
    assert(pieces.drop_last() == all);
    assert(lines(unlines(all)) =~= all);
}

proof fn lemma_split_unlines(all: Seq<Seq<char>>)
    requires
        forall|i: int| 0 <= i < all.len() ==> free_of(#[trigger] all[i], '\n'),
    ensures
        split(unlines(all), '\n') == all.push(Seq::<char>::empty()),
    decreases all.len(),
{
    if all.len() == 0 {
        lemma_first_index_is(Seq::<char>::empty(), '\n', 0);
        assert(split(Seq::<char>::empty(), '\n') =~= all.push(Seq::<char>::empty()));
    } else {
        let rest = all.drop_first();
        assert forall|i: int| 0 <= i < rest.len() implies free_of(#[trigger] rest[i], '\n') by {
            assert(rest[i] == all[i + 1]);
        }
        lemma_split_unlines(rest);
        assert(free_of(all[0], '\n'));
        lemma_split_concat(all[0], unlines(rest), '\n');
        assert(seq![all[0]] + rest.push(Seq::<char>::empty()) =~= all.push(
            Seq::<char>::empty(),
        ));
    }
}

/// A header line that can carry its header spells it, holds no line feed,
/// does not end in a carriage return and is not the divider.
pub proof fn lemma_header_line(pair: (Seq<char>, Seq<char>))
    requires
        header_encodable(pair),
    ensures
        header_of(header_line(pair)) == Some(pair),
        free_of(header_line(pair), '\n'),
        !ends_in_cr(header_line(pair)),
        header_line(pair) != divider(),
{
    let line = header_line(pair);
    let n = pair.0.len() as int;
    lemma_first_index_is(line, ':', n);
    assert(line.take(n) == pair.0);
    let rest = line.skip(n + 1);
    assert(rest == seq![' '] + pair.1);
    assert(is_whitespace(' '));
    assert(rest.drop_first() == pair.1);
    assert(trim_start(pair.1) == pair.1);
    assert(trim_start(rest) == pair.1);
    assert(trim_end(pair.1) == pair.1);
    assert(trim(rest) == pair.1);
    assert(line[n] == ':');
    assert(is_whitespace('\r'));
    if pair.1.len() == 0 {
        assert(line.last() == ' ');
    } else {
        assert(line.last() == pair.1.last());
    }
    if line == divider() {
        assert(divider()[n] == '-');
    }
}

/// A chunk line that can carry its chunk spells it, holds no line feed and
/// does not end in a carriage return.
pub proof fn lemma_record_line(chunk: ChunkData)
    requires
        chunk_encodable(chunk),
    ensures
        record_of(record_line(chunk)) == Record::Entry(chunk),
        free_of(record_line(chunk), '\n'),
        !ends_in_cr(record_line(chunk)),
{
    let p = decimal(chunk.permissions as nat);
    let s = decimal(chunk.size as nat);
    let tail2 = chunk.hash + seq![';'] + chunk.path;
    let tail1 = s + seq![';'] + tail2;
    let line = record_line(chunk);
    lemma_decimal(chunk.permissions as nat);
    lemma_decimal(chunk.size as nat);
    assert(free_of(p, ';') && free_of(p, '\n')) by {
        assert forall|j: int| 0 <= j < p.len() implies p[j] != ';' && p[j] != '\n' by {
            assert(is_digit(p[j]));
        }
    }
    assert(free_of(s, ';') && free_of(s, '\n')) by {
        assert forall|j: int| 0 <= j < s.len() implies s[j] != ';' && s[j] != '\n' by {
            assert(is_digit(s[j]));
        }
    }
    lemma_split_concat(p, tail1, ';');
    lemma_split_concat(s, tail2, ';');
    lemma_split_concat(chunk.hash, chunk.path, ';');
    lemma_split_pieces(chunk.path, ';');
    let fields = split(line, ';');
    assert(fields =~= seq![p, s, chunk.hash] + split(chunk.path, ';'));
    assert(fields.skip(3) =~= split(chunk.path, ';'));
    lemma_join_split(chunk.path, ';');
    lemma_parse_decimal(chunk.permissions as nat, u32::MAX as nat);
    lemma_parse_decimal(chunk.size as nat, u64::MAX as nat);
    assert(record_of(line) == Record::Entry(chunk));
    assert(line.len() == p.len() + 1 + s.len() + 1 + chunk.hash.len() + 1 + chunk.path.len());
    assert forall|j: int| 0 <= j < line.len() implies line[j] != '\n' by {
        let a = p.len() as int;
        let b = a + 1 + s.len();
        let c = b + 1 + chunk.hash.len();
        if j < a {
            assert(line[j] == p[j]);
        } else if j == a {
        } else if j < b {
            assert(line[j] == s[j - a - 1]);
        } else if j == b {
        } else if j < c {
            assert(line[j] == chunk.hash[j - b - 1]);
        } else if j == c {
        } else {
            assert(line[j] == chunk.path[j - c - 1]);
        }
    }
    if chunk.path.len() == 0 {
        assert(line.last() == ';');
    } else {
        assert(line.last() == chunk.path.last());
    }
}

/// Reading the lines of encodable headers gives the headers back.
pub proof fn lemma_read_header_lines(pairs: Seq<(Seq<char>, Seq<char>)>)
    requires
        forall|i: int| 0 <= i < pairs.len() ==> header_encodable(#[trigger] pairs[i]),
    ensures
        header_pairs(Seq::new(pairs.len(), |i: int| header_line(pairs[i]))) == pairs,
    decreases pairs.len(),
{
    let all = Seq::new(pairs.len(), |i: int| header_line(pairs[i]));
    if pairs.len() > 0 {
        let front = pairs.drop_last();
        assert forall|i: int| 0 <= i < front.len() implies header_encodable(
            #[trigger] front[i],
        ) by {
            assert(front[i] == pairs[i]);
        }
        lemma_read_header_lines(front);
        assert(all.drop_last() =~= Seq::new(front.len(), |i: int| header_line(front[i])));
        assert(header_encodable(pairs[pairs.len() - 1]));
        lemma_header_line(pairs.last());
        assert(all.last() == header_line(pairs.last()));
        assert(front.push(pairs.last()) =~= pairs);
    } else {
        assert(header_pairs(all) =~= pairs);
    }
}

/// Reading the lines of encodable chunks gives the chunks back.
pub proof fn lemma_read_record_lines(chunks: Seq<ChunkData>)
    requires
        forall|i: int| 0 <= i < chunks.len() ==> chunk_encodable(#[trigger] chunks[i]),
    ensures
        chunklist_of(Seq::new(chunks.len(), |i: int| record_line(chunks[i]))) == Ok::<
            Seq<ChunkData>,
            FormatError,
        >(chunks),
    decreases chunks.len(),
{
    let all = Seq::new(chunks.len(), |i: int| record_line(chunks[i]));
    if chunks.len() > 0 {
        let front = chunks.drop_last();
        assert forall|i: int| 0 <= i < front.len() implies chunk_encodable(
            #[trigger] front[i],
        ) by {
            assert(front[i] == chunks[i]);
        }
        lemma_read_record_lines(front);
        assert(all.drop_last() =~= Seq::new(front.len(), |i: int| record_line(front[i])));
        assert(chunk_encodable(chunks[chunks.len() - 1]));
        lemma_record_line(chunks.last());
        assert(all.last() == record_line(chunks.last()));
        assert(front.push(chunks.last()) =~= chunks);
    } else {
        assert(chunklist_of(all) == Ok::<Seq<ChunkData>, FormatError>(Seq::empty()));
        assert(chunks =~= Seq::<ChunkData>::empty());
    }
}

/// Reading the text of a manifest gives its headers and its chunks back:
/// the mapping that the headers spell, and the chunks in their order. This
/// holds of all headers and chunks that their lines can carry; a path may
/// hold semicolons.
pub proof fn lemma_round_trip(pairs: Seq<(Seq<char>, Seq<char>)>, chunks: Seq<ChunkData>)
    requires
        forall|i: int| 0 <= i < pairs.len() ==> header_encodable(#[trigger] pairs[i]),
        forall|i: int| 0 <= i < chunks.len() ==> chunk_encodable(#[trigger] chunks[i]),
    ensures
        manifest_of(manifest_text(pairs, chunks)) == Ok::<
            (Map<Seq<char>, Seq<char>>, Seq<ChunkData>),
            FormatError,
        >((pairs_map(pairs), chunks)),
{
    let head = Seq::new(pairs.len(), |i: int| header_line(pairs[i]));
    let body = Seq::new(chunks.len(), |i: int| record_line(chunks[i]));
    let all = manifest_lines(pairs, chunks);
    let n = pairs.len() as int;
    assert(all.len() == n + 1 + chunks.len());
    assert forall|i: int| 0 <= i < all.len() implies free_of(#[trigger] all[i], '\n')
        && !ends_in_cr(all[i]) by {
        if i < n {
            assert(all[i] == header_line(pairs[i]));
            assert(header_encodable(pairs[i]));
            lemma_header_line(pairs[i]);
        } else if i == n {
            assert(all[i] == divider());
        } else {
            assert(all[i] == record_line(chunks[i - n - 1]));
            assert(chunk_encodable(chunks[i - n - 1]));
            lemma_record_line(chunks[i - n - 1]);
        }
    }
    lemma_lines_unlines(all);
    assert forall|j: int| 0 <= j < n implies all[j] != divider() by {
        assert(all[j] == header_line(pairs[j]));
        assert(header_encodable(pairs[j]));
        lemma_header_line(pairs[j]);
    }
    assert(all[n] == divider());
    lemma_first_index_is(all, divider(), n);
    assert(all.take(n) =~= head);
    assert(all.skip(n + 1) =~= body);
    lemma_read_header_lines(pairs);
    lemma_read_record_lines(chunks);
}

/// Writes the manifest with the headers `headers`, in their order, and the
/// chunks `chunks`.
///
/// Where every header and chunk can be carried by its line, reading the
/// text gives `headers` and `chunks` back.
pub fn encode_manifest(headers: &Headers, chunks: &[Chunk]) -> (out: String)
    ensures
        out@ == manifest_text(headers.pairs(), chunk_views(chunks@)),
        (forall|i: int|
            0 <= i < headers.pairs().len() ==> header_encodable(#[trigger] headers.pairs()[i]))
            && (forall|i: int|
            0 <= i < chunks.len() ==> chunk_encodable(#[trigger] chunks[i]@)) ==> manifest_of(
            out@,
        ) == Ok::<(Map<Seq<char>, Seq<char>>, Seq<ChunkData>), FormatError>(
            (headers@, chunk_views(chunks@)),
        ),
{
    let entries = headers.entries();
    let ghost pairs = headers.pairs();
    let ghost data = chunk_views(chunks@);
    let ghost head = Seq::new(pairs.len(), |i: int| header_line(pairs[i]));
    let ghost body = Seq::new(data.len(), |i: int| record_line(data[i]));
    let mut text: Vec<char> = Vec::new();
    let mut i: usize = 0;
    proof {
        assert(head.take(0) == Seq::<Seq<char>>::empty());
    }
    while i < entries.len()
        invariant
            i <= entries.len(),
            header_views(entries@) == pairs,
            head == Seq::new(pairs.len(), |i: int| header_line(pairs[i])),
            text@ == unlines(head.take(i as int)),
        decreases entries.len() - i,
    {
        let ghost before = text@;
        let entry = &entries[i];
        extend_chars(&mut text, entry.key.as_str());
        text.push(':');
        text.push(' ');
        extend_chars(&mut text, entry.value.as_str());
        text.push('\n');
        proof {
            assert(pairs[i as int] == entry@);
            assert(text@ =~= before + header_line(pairs[i as int]) + seq!['\n']);
            lemma_unlines_push(head.take(i as int), head[i as int]);
            assert(head.take(i + 1) == head.take(i as int).push(head[i as int]));
        }
        i += 1;
    }
    let ghost top = head.push(divider());
    proof {
        assert(head.take(head.len() as int) == head);
    }
    let ghost before = text@;
    text.push('-');
    text.push('-');
    text.push('-');
    text.push('\n');
    proof {
        assert(text@ =~= before + divider() + seq!['\n']);
        lemma_unlines_push(head, divider());
        assert(top + body.take(0) == top);
    }
    let mut j: usize = 0;
    while j < chunks.len()
        invariant
            j <= chunks.len(),
            data == chunk_views(chunks@),
            body == Seq::new(data.len(), |i: int| record_line(data[i])),
            text@ == unlines(top + body.take(j as int)),
        decreases chunks.len() - j,
    {
        let ghost before = text@;
        let chunk = &chunks[j];
        push_decimal(&mut text, chunk.permissions as u64);
        text.push(';');
        push_decimal(&mut text, chunk.size);
        text.push(';');
        extend_chars(&mut text, chunk.hash.as_str());
        text.push(';');
        extend_chars(&mut text, chunk.path.as_str());
        text.push('\n');
        proof {
            assert(data[j as int] == chunk@);
            assert(text@ =~= before + record_line(data[j as int]) + seq!['\n']);
            lemma_unlines_push(top + body.take(j as int), body[j as int]);
            assert(top + body.take(j + 1) == (top + body.take(j as int)).push(body[j as int]));
        }
        j += 1;
    }
    proof {
        assert(body.take(body.len() as int) == body);
        assert(top + body == manifest_lines(pairs, data));
        if (forall|i: int| 0 <= i < pairs.len() ==> header_encodable(#[trigger] pairs[i]))
            && (forall|i: int| 0 <= i < chunks.len() ==> chunk_encodable(#[trigger] chunks[i]@)) {
            assert forall|i: int| 0 <= i < data.len() implies chunk_encodable(
                #[trigger] data[i],
            ) by {
                assert(data[i] == chunks[i]@);
            }
            lemma_round_trip(pairs, data);
        }
    }
    to_text(text.as_slice())
}

} // verus!
