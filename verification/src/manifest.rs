//! The manifest wire format.
//!
//! A manifest is text in two parts, parted by a line that is exactly `---`.
//! The first part holds one header per line, `Key: value`. The second holds
//! one chunk per line, `permissions;size;hash;path`, where the path is all
//! that follows the third `;` and may itself hold `;`.

use vstd::prelude::*;
use crate::chunks::{Chunk, ChunkData, chunk_views};
use crate::decimal::{parse_decimal, read_decimal};
use crate::fields::{first_index, join, join_from, lemma_first_index_is, split, split_chars};
use crate::headers::{Headers, pairs_map, put_all};
use crate::lines::{lines, split_lines, trim, trim_chars};
use crate::text::{copy_range, same_chars, to_chars, to_text, views};

pub use crate::generations::update_manifest;
pub use crate::tree::build_tree;

verus! {

/// Why a text is no manifest.
#[derive(Debug, Clone, Copy, PartialEq, Eq, Structural)]
pub enum FormatError {
    /// No line is exactly `---`.
    MissingDivider,
    /// The first field of a chunk line is no number that fits 32 bits.
    InvalidPermissions,
    /// The second field of a chunk line is no number that fits 64 bits.
    InvalidSize,
}

/// The line that parts headers from chunks.
pub open spec fn divider() -> Seq<char> {
    seq!['-', '-', '-']
}

/// The header that `line` spells: the key is all that stands before the
/// first colon, the value is the rest without the white space around it. A
/// line without a colon spells none.
pub open spec fn header_of(line: Seq<char>) -> Option<(Seq<char>, Seq<char>)> {
    let at = first_index(line, ':');
    if 0 <= at < line.len() {
        Some((line.take(at), trim(line.skip(at + 1))))
    } else {
        None
    }
}

/// The headers that `lines` spell, in order.
pub open spec fn header_pairs(lines: Seq<Seq<char>>) -> Seq<(Seq<char>, Seq<char>)>
    decreases lines.len(),
{
    if lines.len() == 0 {
        Seq::empty()
    } else {
        match header_of(lines.last()) {
            Some(pair) => header_pairs(lines.drop_last()).push(pair),
            None => header_pairs(lines.drop_last()),
        }
    }
}

/// The mapping that the header lines `lines` spell. Where a key comes
/// twice, the later line counts.
pub open spec fn headers_of(lines: Seq<Seq<char>>) -> Map<Seq<char>, Seq<char>> {
    pairs_map(header_pairs(lines))
}

/// What one line of the chunk list spells.
pub enum Record {
    /// Fewer than three fields: the line is passed over.
    Skipped,
    /// A field that must be a number is none.
    Invalid(FormatError),
    /// A chunk.
    Entry(ChunkData),
}

/// What the chunk line `line` spells.
pub open spec fn record_of(line: Seq<char>) -> Record {
    let fields = split(line, ';');
    if fields.len() < 3 {
        Record::Skipped
    } else {
        match parse_decimal(fields[0], u32::MAX as nat) {
            None => Record::Invalid(FormatError::InvalidPermissions),
            Some(permissions) => match parse_decimal(fields[1], u64::MAX as nat) {
                None => Record::Invalid(FormatError::InvalidSize),
                Some(size) => Record::Entry(
                    ChunkData {
                        hash: fields[2],
                        size: size as u64,
                        path: join(fields.skip(3), ';'),
                        permissions: permissions as u32,
                    },
                ),
            },
        }
    }
}

/// The chunks that `lines` spell, in order; the error of the first line
/// that is invalid, if one is.
pub open spec fn chunklist_of(lines: Seq<Seq<char>>) -> Result<Seq<ChunkData>, FormatError>
    decreases lines.len(),
{
    if lines.len() == 0 {
        Ok(Seq::empty())
    } else {
        match chunklist_of(lines.drop_last()) {
            Err(e) => Err(e),
            Ok(chunks) => match record_of(lines.last()) {
                Record::Skipped => Ok(chunks),
                Record::Invalid(e) => Err(e),
                Record::Entry(chunk) => Ok(chunks.push(chunk)),
            },
        }
    }
}

/// The header lines of the manifest `text`: the lines before the divider.
pub open spec fn header_lines_of(text: Seq<char>) -> Seq<Seq<char>> {
    lines(text).take(first_index(lines(text), divider()))
}

/// The headers and chunks that the manifest `text` spells.
pub open spec fn manifest_of(text: Seq<char>) -> Result<
    (Map<Seq<char>, Seq<char>>, Seq<ChunkData>),
    FormatError,
> {
    let all = lines(text);
    let at = first_index(all, divider());
    if 0 <= at < all.len() {
        match chunklist_of(all.skip(at + 1)) {
            Ok(chunks) => Ok((headers_of(all.take(at)), chunks)),
            Err(e) => Err(e),
        }
    } else {
        Err(FormatError::MissingDivider)
    }
}

/// Reads the header lines `lines[from..to]`.
fn headers_from_lines(lines: &Vec<Vec<char>>, from: usize, to: usize) -> (out: Headers)
    requires
        from <= to <= lines.len(),
    ensures
        out@ == headers_of(views(lines@).subrange(from as int, to as int)),
        out.pairs() == put_all(header_pairs(views(lines@).subrange(from as int, to as int))),
{
    let mut out = Headers::new();
    let ghost all = views(lines@).subrange(from as int, to as int);
    let mut i: usize = from;
    proof {
        assert(all.take(0) == Seq::<Seq<char>>::empty());
    }
    while i < to
        invariant
            from <= i <= to <= lines.len(),
            all == views(lines@).subrange(from as int, to as int),
            out@ == headers_of(all.take(i - from)),
            out.pairs() == put_all(header_pairs(all.take(i - from))),
        decreases to - i,
    {
        let line = &lines[i];
        let ghost done = all.take(i - from);
        proof {
            assert(all.take(i - from + 1).drop_last() == done);
            assert(all.take(i - from + 1).last() == line@);
        }
        let mut at: usize = 0;
        while at < line.len() && line[at] != ':'
            invariant
                at <= line.len(),
                forall|j: int| 0 <= j < at ==> line@[j] != ':',
            decreases line.len() - at,
        {
            at += 1;
        }
        proof {
            lemma_first_index_is(line@, ':', at as int);
        }
        if at < line.len() {
            let key = copy_range(line.as_slice(), 0, at);
            let rest = copy_range(line.as_slice(), at + 1, line.len());
            let value = trim_chars(rest.as_slice());
            proof {
                assert(line@.subrange(0, at as int) == line@.take(at as int));
                assert(line@.subrange(at + 1, line.len() as int) == line@.skip(at + 1));
                let pair = (key@, value@);
                let sofar = header_pairs(done);
                assert(header_of(line@) == Some(pair));
                assert(header_pairs(all.take(i - from + 1)) == sofar.push(pair));
                assert(sofar.push(pair).drop_last() == sofar);
            }
            out.insert(to_text(key.as_slice()), to_text(value.as_slice()));
        }
        i += 1;
    }
    proof {
        assert(all.take(all.len() as int) == all);
    }
    out
}

/// Reads the chunk lines `lines[from..]`.
fn chunklist_from_lines(lines: &Vec<Vec<char>>, from: usize) -> (out: Result<
    Vec<Chunk>,
    FormatError,
>)
    requires
        from <= lines.len(),
    ensures
        match out {
            Ok(chunks) => chunklist_of(views(lines@).skip(from as int)) == Ok::<
                Seq<ChunkData>,
                FormatError,
            >(chunk_views(chunks@)),
            Err(e) => chunklist_of(views(lines@).skip(from as int)) == Err::<
                Seq<ChunkData>,
                FormatError,
            >(e),
        },
{
    let mut out: Vec<Chunk> = Vec::new();
    let ghost all = views(lines@).skip(from as int);
    let mut i: usize = from;
    proof {
        assert(all.take(0) == Seq::<Seq<char>>::empty());
        assert(chunk_views(out@) == Seq::<ChunkData>::empty());
    }
    while i < lines.len()
        invariant
            from <= i <= lines.len(),
            all == views(lines@).skip(from as int),
            chunklist_of(all.take(i - from)) == Ok::<Seq<ChunkData>, FormatError>(
                chunk_views(out@),
            ),
        decreases lines.len() - i,
    {
        let line = &lines[i];
        let ghost done = all.take(i - from);
        let ghost next = all.take(i - from + 1);
        proof {
            assert(next.drop_last() == done);
            assert(next.last() == line@);
        }
        let fields = split_chars(line.as_slice(), ';');
        if fields.len() >= 3 {
            proof {
                assert(views(fields@)[0] == fields@[0]@);
                assert(views(fields@)[1] == fields@[1]@);
                assert(views(fields@)[2] == fields@[2]@);
            }
            let permissions = match read_decimal(fields[0].as_slice(), 0xffff_ffff) {
                Some(n) => n as u32,
                None => {
                    proof {
                        lemma_error_stays(all, i - from + 1, FormatError::InvalidPermissions);
                    }
                    return Err(FormatError::InvalidPermissions);
                },
            };
            let size = match read_decimal(fields[1].as_slice(), u64::MAX) {
                Some(n) => n,
                None => {
                    proof {
                        lemma_error_stays(all, i - from + 1, FormatError::InvalidSize);
                    }
                    return Err(FormatError::InvalidSize);
                },
            };
            let path = join_from(&fields, 3, ';');
            let chunk = Chunk {
                hash: to_text(fields[2].as_slice()),
                size,
                path: to_text(path.as_slice()),
                permissions,
            };
            proof {
                assert(record_of(line@) == Record::Entry(chunk@));
                assert(chunk_views(out@.push(chunk)) == chunk_views(out@).push(chunk@));
            }
            out.push(chunk);
        }
        i += 1;
    }
    proof {
        assert(all.take(all.len() as int) == all);
    }
    Ok(out)
}

/// Once a prefix of the lines has an invalid line, the whole has the same
/// error.
proof fn lemma_error_stays(lines: Seq<Seq<char>>, k: int, e: FormatError)
    requires
        0 <= k <= lines.len(),
        chunklist_of(lines.take(k)) == Err::<Seq<ChunkData>, FormatError>(e),
    ensures
        chunklist_of(lines) == Err::<Seq<ChunkData>, FormatError>(e),
    decreases lines.len() - k,
{
    if k == lines.len() {
        assert(lines.take(k) == lines);
    } else {
        assert(lines.take(k + 1).drop_last() == lines.take(k));
        lemma_error_stays(lines, k + 1, e);
    }
}

/// Reads the header block of a manifest: one header per line.
pub fn parse_headers(raw_headers: &str) -> (out: Headers)
    ensures
        out@ == headers_of(lines(raw_headers@)),
        out.pairs() == put_all(header_pairs(lines(raw_headers@))),
{
    let chars = to_chars(raw_headers);
    let all = split_lines(chars.as_slice());
    proof {
        assert(views(all@).subrange(0, all.len() as int) == views(all@));
    }
    headers_from_lines(&all, 0, all.len())
}

/// Reads the chunk block of a manifest: one chunk per line. Lines with
/// fewer than three fields are passed over.
pub fn parse_chunklist(raw_chunklist: &str) -> (out: Result<Vec<Chunk>, FormatError>)
    ensures
        match out {
            Ok(chunks) => chunklist_of(lines(raw_chunklist@)) == Ok::<
                Seq<ChunkData>,
                FormatError,
            >(chunk_views(chunks@)),
            Err(e) => chunklist_of(lines(raw_chunklist@)) == Err::<Seq<ChunkData>, FormatError>(
                e,
            ),
        },
{
    let chars = to_chars(raw_chunklist);
    let all = split_lines(chars.as_slice());
    proof {
        assert(views(all@).skip(0) == views(all@));
    }
    chunklist_from_lines(&all, 0)
}

/// Reads a manifest: its headers and its chunks.
pub fn parse_manifest(raw_manifest: &str) -> (out: Result<(Headers, Vec<Chunk>), FormatError>)
    ensures
        match out {
            Ok((headers, chunks)) => manifest_of(raw_manifest@) == Ok::<
                (Map<Seq<char>, Seq<char>>, Seq<ChunkData>),
                FormatError,
            >((headers@, chunk_views(chunks@))) && headers.pairs() == put_all(
                header_pairs(header_lines_of(raw_manifest@)),
            ),
            Err(e) => manifest_of(raw_manifest@) == Err::<
                (Map<Seq<char>, Seq<char>>, Seq<ChunkData>),
                FormatError,
            >(e),
        },
{
    let chars = to_chars(raw_manifest);
    let all = split_lines(chars.as_slice());
    let mark: [char; 3] = ['-', '-', '-'];
    assert(mark@ =~= divider());
    let mut at: usize = 0;
    while at < all.len() && !same_chars(all[at].as_slice(), mark.as_slice())
        invariant
            at <= all.len(),
            mark@ == divider(),
            forall|j: int| 0 <= j < at ==> views(all@)[j] != divider(),
        decreases all.len() - at,
    {
        at += 1;
    }
    proof {
        if at < all.len() {
            assert(views(all@)[at as int] == all@[at as int]@);
        }
        lemma_first_index_is(views(all@), divider(), at as int);
    }
    if at == all.len() {
        return Err(FormatError::MissingDivider);
    }
    proof {
        assert(views(all@).subrange(0, at as int) == views(all@).take(at as int));
    }
    let headers = headers_from_lines(&all, 0, at);
    match chunklist_from_lines(&all, at + 1) {
        Ok(chunks) => Ok((headers, chunks)),
        Err(e) => Err(e),
    }
}

} // verus!
