//! From the lines of a dump back to positioned writes.

use crate::error::ParseError;
use crate::layout::{Layout, LayoutModel};
use crate::numeric::{numeral_value, read_number};
use crate::sink::SparseWrite;
use crate::text::to_chars;
use vstd::prelude::*;

verus! {

/// Whether a line that holds `count` tokens is full.
pub open spec fn at_limit(count: nat, layout: Layout) -> bool {
    !layout.unbounded() && count >= layout.chunk()
}

/// The index of the first colon at or after `from` that a blank follows.
pub open spec fn find_colon(line: Seq<char>, from: int) -> Option<int>
    decreases line.len() - from,
{
    if from < 0 || from + 1 >= line.len() {
        None
    } else if line[from] == ':' && line[from + 1] == ' ' {
        Some(from)
    } else {
        find_colon(line, from + 1)
    }
}

/// The offset that a line begins with, and the index behind its offset panel:
/// the line is split at its first colon with a blank behind, and what precedes
/// is a numeral of the offset radix that a `u64` holds.
pub open spec fn read_offset(line: Seq<char>, layout: Layout) -> Option<(u64, int)> {
    match find_colon(line, 0) {
        None => None,
        Some(colon) => match numeral_value(line.take(colon), layout.offset_radix()) {
            None => None,
            Some(offset) => Some((offset, colon + 2)),
        },
    }
}

/// The octets of the tokens that `rest` begins with, where `count` tokens of the
/// line were read before.
///
/// Blanks between tokens are passed over. Where the layout has a text panel,
/// the tokens end at two blanks in a row and at the blank behind a full line.
/// A token is as many characters as the base asks for; what is left of the
/// line is too short for one, or is none, is a malformed token. A token behind
/// a full line is a malformed line.
pub open spec fn scan(rest: Seq<char>, count: nat, layout: Layout) -> Result<Seq<u8>, ParseError>
    decreases rest.len(),
{
    let width = layout.base.width();
    if rest.len() == 0 {
        Ok(Seq::empty())
    } else if rest[0] == ' ' {
        if layout.show_text && (at_limit(count, layout) || (rest.len() > 1 && rest[1] == ' ')) {
            Ok(Seq::empty())
        } else {
            scan(rest.skip(1), count, layout)
        }
    } else if at_limit(count, layout) {
        Err(ParseError::MalformedLine)
    } else if rest.len() < width {
        Err(ParseError::MalformedToken)
    } else {
        match layout.base.parse_spec(rest.take(width as int)) {
            Err(e) => Err(e),
            Ok(octet) => extend(seq![octet], scan(rest.skip(width as int), count + 1, layout)),
        }
    }
}

/// `found` with `head` in front, where there is a `found`.
pub open spec fn extend(head: Seq<u8>, found: Result<Seq<u8>, ParseError>) -> Result<
    Seq<u8>,
    ParseError,
> {
    match found {
        Ok(octets) => Ok(head + octets),
        Err(e) => Err(e),
    }
}

/// What one line holds: the offset of its first octet, and its octets.
///
/// Where the layout shows offsets the line must begin with one; where it does
/// not, the line continues at `cursor`, behind the line before. The last octet
/// must lie below the largest offset.
pub open spec fn parse_line_spec(line: Seq<char>, layout: Layout, cursor: u64) -> Result<
    (u64, Seq<u8>),
    ParseError,
> {
    let start = if layout.show_offset {
        read_offset(line, layout)
    } else {
        Some((cursor, 0int))
    };
    match start {
        None => Err(ParseError::MissingOffset),
        Some((offset, from)) => match scan(line.skip(from), 0, layout) {
            Err(e) => Err(e),
            Ok(octets) => if offset + octets.len() > u64::MAX {
                Err(ParseError::MalformedLine)
            } else {
                Ok((offset, octets))
            },
        },
    }
}

/// One write for each octet, at rising offsets from `offset` on.
pub open spec fn writes_at(offset: int, octets: Seq<u8>) -> Seq<SparseWrite> {
    Seq::new(
        octets.len(),
        |i: int| SparseWrite { offset: (offset + i) as u64, value: octets[i] },
    )
}

/// The writes of one line, or why it has none.
pub open spec fn line_writes(line: Seq<char>, layout: Layout, cursor: u64) -> Result<
    Seq<SparseWrite>,
    ParseError,
> {
    match parse_line_spec(line, layout, cursor) {
        Ok((offset, octets)) => Ok(writes_at(offset as int, octets)),
        Err(e) => Err(e),
    }
}

/// A line that was skipped, and why.
#[derive(Clone, Copy, Debug, PartialEq, Eq, Structural)]
pub struct Rejection {
    /// The index of the line, from zero.
    pub line: usize,
    /// What was wrong with it.
    pub reason: ParseError,
}

/// What a dump text holds, as a mathematical value.
pub struct Reading {
    /// The writes of the lines that were read, in the order of the text.
    pub writes: Seq<SparseWrite>,
    /// The lines that were skipped, by number.
    pub rejected: Seq<(int, ParseError)>,
}

/// What the lines `lines` hold, where the first of them has the number `number`
/// and continues at `cursor` if it shows no offset. A malformed line adds to
/// the rejected lines and leaves the cursor where it was.
pub open spec fn read_all(lines: Seq<Seq<char>>, number: int, cursor: u64, layout: Layout) -> Reading
    decreases lines.len(),
{
    if lines.len() == 0 {
        Reading { writes: Seq::empty(), rejected: Seq::empty() }
    } else {
        match parse_line_spec(lines[0], layout, cursor) {
            Ok((offset, octets)) => {
                let rest = read_all(
                    lines.skip(1),
                    number + 1,
                    (offset + octets.len()) as u64,
                    layout,
                );
                Reading {
                    writes: writes_at(offset as int, octets) + rest.writes,
                    rejected: rest.rejected,
                }
            },
            Err(e) => {
                let rest = read_all(lines.skip(1), number + 1, cursor, layout);
                Reading { writes: rest.writes, rejected: seq![(number, e)] + rest.rejected }
            },
        }
    }
}

/// What lines write does not depend on how they are numbered.
pub proof fn lemma_writes_ignore_numbers(
    lines: Seq<Seq<char>>,
    number: int,
    other: int,
    cursor: u64,
    layout: Layout,
)
    ensures
        read_all(lines, number, cursor, layout).writes == read_all(
            lines,
            other,
            cursor,
            layout,
        ).writes,
    decreases lines.len(),
{
    if lines.len() > 0 {
        match parse_line_spec(lines[0], layout, cursor) {
            Ok((offset, octets)) => {
                lemma_writes_ignore_numbers(
                    lines.skip(1),
                    number + 1,
                    other + 1,
                    (offset + octets.len()) as u64,
                    layout,
                );
            },
            Err(_) => {
                lemma_writes_ignore_numbers(lines.skip(1), number + 1, other + 1, cursor, layout);
            },
        }
    }
}

/// A line that is rejected wherever it stands takes nothing from what the
/// lines before and behind it write, and adds nothing.
pub proof fn lemma_rejected_line_is_skipped(
    before: Seq<Seq<char>>,
    bad: Seq<char>,
    behind: Seq<Seq<char>>,
    number: int,
    cursor: u64,
    layout: Layout,
)
    requires
        forall|at: u64| (#[trigger] parse_line_spec(bad, layout, at)) is Err,
    ensures
        read_all(before + seq![bad] + behind, number, cursor, layout).writes == read_all(
            before + behind,
            number,
            cursor,
            layout,
        ).writes,
    decreases before.len(),
{
    let with = before + seq![bad] + behind;
    let without = before + behind;
    if before.len() == 0 {
        assert(with[0] == bad);
        assert(with.skip(1) =~= behind);
        assert(without =~= behind);
        assert(parse_line_spec(bad, layout, cursor) is Err);
        lemma_writes_ignore_numbers(behind, number + 1, number, cursor, layout);
    } else {
        assert(with[0] == before[0]);
        assert(without[0] == before[0]);
        assert(with.skip(1) =~= before.skip(1) + seq![bad] + behind);
        assert(without.skip(1) =~= before.skip(1) + behind);
        match parse_line_spec(before[0], layout, cursor) {
            Ok((offset, octets)) => {
                lemma_rejected_line_is_skipped(
                    before.skip(1),
                    bad,
                    behind,
                    number + 1,
                    (offset + octets.len()) as u64,
                    layout,
                );
            },
            Err(_) => {
                lemma_rejected_line_is_skipped(
                    before.skip(1),
                    bad,
                    behind,
                    number + 1,
                    cursor,
                    layout,
                );
            },
        }
    }
}

/// A line whose last token lacks a character is rejected: where the layout
/// shows offsets, a line that holds its offset and one character too few for
/// a token is a malformed token wherever it stands.
pub proof fn lemma_short_token_is_rejected(
    line: Seq<char>,
    offset: Seq<char>,
    token: Seq<char>,
    layout: Layout,
)
    requires
        line == offset + seq![':', ' '] + token,
        layout.show_offset,
        !layout.unbounded(),
        crate::numeric::is_numeral(offset, layout.offset_radix()),
        crate::numeric::value_of(offset, layout.offset_radix()) <= u64::MAX,
        0 < token.len() < layout.base.width(),
        forall|i: int| 0 <= i < token.len() ==> token[i] != ' ',
    ensures
        forall|at: u64|
            (#[trigger] parse_line_spec(line, layout, at)) == Err::<(u64, Seq<u8>), ParseError>(
                ParseError::MalformedToken,
            ),
{
    let colon = offset.len() as int;
    assert forall|k: int| 0 <= k < colon implies line[k] != ':' by {
        assert(line[k] == offset[k]);
        assert(crate::numeric::is_digit(offset[k], layout.offset_radix()));
    }
    assert(line[colon] == ':');
    assert(line[colon + 1] == ' ');
    lemma_first_colon(line, 0, colon);
    assert(line.take(colon) =~= offset);
    assert(line.skip(colon + 2) =~= token);
    assert(token[0] != ' ');
    assert(!at_limit(0, layout));
    assert(scan(token, 0, layout) == Err::<Seq<u8>, ParseError>(ParseError::MalformedToken));
}

/// The search for the colon passes over what holds none.
pub proof fn lemma_first_colon(line: Seq<char>, from: int, colon: int)
    requires
        0 <= from <= colon,
        colon + 1 < line.len(),
        line[colon] == ':',
        line[colon + 1] == ' ',
        forall|k: int| from <= k < colon ==> line[k] != ':',
    ensures
        find_colon(line, from) == Some(colon),
    decreases colon - from,
{
    if from < colon {
        lemma_first_colon(line, from + 1, colon);
    }
}

/// The texts of `lines`.
pub open spec fn texts(lines: Seq<String>) -> Seq<Seq<char>> {
    Seq::new(lines.len(), |i: int| lines[i]@)
}

/// The first colon of `line` that a blank follows.
pub fn locate_colon(line: &[char]) -> (r: Option<usize>)
    ensures
        match r {
            Some(colon) => find_colon(line@, 0) == Some(colon as int) && colon + 2 <= line@.len()
                <= usize::MAX,
            None => find_colon(line@, 0) is None,
        },
{
    let mut i: usize = 0;
    while i < line.len() && i + 1 < line.len()
        invariant
            find_colon(line@, i as int) == find_colon(line@, 0),
        decreases line.len() - i,
    {
        if line[i] == ':' && line[i + 1] == ' ' {
            return Some(i);
        }
        i += 1;
    }
    None
}

/// Reads the tokens of `line[from..]`.
pub fn scan_tokens(line: &[char], from: usize, layout: &LayoutModel) -> (r: Result<
    Vec<u8>,
    ParseError,
>)
    requires
        from <= line@.len(),
    ensures
        match r {
            Ok(octets) => scan(line@.skip(from as int), 0, layout@) == Ok::<Seq<u8>, ParseError>(
                octets@,
            ),
            Err(e) => scan(line@.skip(from as int), 0, layout@) == Err::<Seq<u8>, ParseError>(e),
        },
{
    let ghost whole = scan(line@.skip(from as int), 0, layout@);
    let base = layout.base();
    let width = base.token_width();
    let bounded = !layout.unbounded();
    let limit = layout.chunk();
    let show_text = layout.show_text();
    let mut octets: Vec<u8> = Vec::new();
    let mut at: usize = from;
    proof {
        assert(Seq::<u8>::empty() + Seq::<u8>::empty() =~= Seq::<u8>::empty());
        let found = scan(line@.skip(at as int), 0, layout@);
        if found is Ok {
            assert(octets@ + found->Ok_0 =~= found->Ok_0);
        }
    }
    while at < line.len()
        invariant
            from <= at <= line@.len(),
            base == layout@.base,
            width == base.width(),
            bounded == !layout@.unbounded(),
            limit == layout@.chunk(),
            show_text == layout@.show_text,
            whole == scan(line@.skip(from as int), 0, layout@),
            whole == extend(octets@, scan(line@.skip(at as int), octets@.len(), layout@)),
        decreases line@.len() - at,
    {
        let ghost rest = line@.skip(at as int);
        let full = bounded && octets.len() >= limit;
        proof {
            assert(rest.len() == line@.len() - at);
            assert(rest[0] == line@[at as int]);
            assert(rest.skip(1) =~= line@.skip(at + 1));
            assert(full == at_limit(octets@.len(), layout@));
        }
        if line[at] == ' ' {
            if show_text && (full || (at + 1 < line.len() && line[at + 1] == ' ')) {
                proof {
                    if rest.len() > 1 {
                        assert(rest[1] == line@[at + 1]);
                    }
                    assert(octets@ + Seq::<u8>::empty() =~= octets@);
                }
                return Ok(octets);
            }
            proof {
                if rest.len() > 1 {
                    assert(rest[1] == line@[at + 1]);
                }
            }
            at += 1;
        } else if full {
            return Err(ParseError::MalformedLine);
        } else if line.len() - at < width {
            return Err(ParseError::MalformedToken);
        } else {
            proof {
                assert(rest.take(width as int) =~= line@.subrange(at as int, at + width));
                assert(rest.skip(width as int) =~= line@.skip(at + width));
            }
            match base.read_token(line, at, at + width) {
                Err(e) => {
                    return Err(e);
                },
                Ok(octet) => {
                    proof {
                        let tail = scan(
                            line@.skip(at + width),
                            (octets@.len() + 1) as nat,
                            layout@,
                        );
                        if tail is Ok {
                            assert(octets@ + (seq![octet] + tail->Ok_0) =~= octets@.push(octet)
                                + tail->Ok_0);
                        }
                    }
                    octets.push(octet);
                    at += width;
                },
            }
        }
    }
    proof {
        assert(line@.skip(at as int).len() == 0);
        assert(octets@ + Seq::<u8>::empty() =~= octets@);
    }
    Ok(octets)
}

/// Reads one line of characters: the offset of its first octet, and its octets.
pub fn read_line(line: &[char], layout: &LayoutModel, cursor: u64) -> (r: Result<
    (u64, Vec<u8>),
    ParseError,
>)
    ensures
        match r {
            Ok((offset, octets)) => parse_line_spec(line@, layout@, cursor) == Ok::<
                (u64, Seq<u8>),
                ParseError,
            >((offset, octets@)),
            Err(e) => parse_line_spec(line@, layout@, cursor) == Err::<(u64, Seq<u8>), ParseError>(
                e,
            ),
        },
{
    let mut offset = cursor;
    let mut from: usize = 0;
    if layout.show_offset() {
        let colon = match locate_colon(line) {
            Some(colon) => colon,
            None => {
                return Err(ParseError::MissingOffset);
            },
        };
        proof {
            assert(line@.take(colon as int) =~= line@.subrange(0, colon as int));
        }
        offset = match read_number(line, 0, colon, layout.offset_radix()) {
            Some(offset) => offset,
            None => {
                return Err(ParseError::MissingOffset);
            },
        };
        from = colon + 2;
    }
    let octets = match scan_tokens(line, from, layout) {
        Ok(octets) => octets,
        Err(e) => {
            return Err(e);
        },
    };
    if octets.len() as u64 > u64::MAX - offset {
        return Err(ParseError::MalformedLine);
    }
    Ok((offset, octets))
}

/// Appends one write for each octet, at rising offsets from `offset` on.
pub fn place(out: &mut Vec<SparseWrite>, offset: u64, octets: &[u8])
    requires
        offset + octets@.len() <= u64::MAX,
    ensures
        final(out)@ == old(out)@ + writes_at(offset as int, octets@),
{
    let mut i: usize = 0;
    while i < octets.len()
        invariant
            i <= octets@.len(),
            offset + octets@.len() <= u64::MAX,
            out@ == old(out)@ + writes_at(offset as int, octets@.take(i as int)),
        decreases octets@.len() - i,
    {
        out.push(SparseWrite { offset: offset + i as u64, value: octets[i] });
        i += 1;
        assert(out@ =~= old(out)@ + writes_at(offset as int, octets@.take(i as int)));
    }
    assert(octets@.take(octets@.len() as int) =~= octets@);
}

/// Reads one line of a dump. Where the layout shows no offsets, the line
/// continues at `cursor`.
pub fn parse_line(line: &str, layout: &LayoutModel, cursor: u64) -> (r: Result<
    Vec<SparseWrite>,
    ParseError,
>)
    ensures
        match r {
            Ok(writes) => line_writes(line@, layout@, cursor) == Ok::<
                Seq<SparseWrite>,
                ParseError,
            >(writes@),
            Err(e) => line_writes(line@, layout@, cursor) == Err::<Seq<SparseWrite>, ParseError>(e),
        },
{
    let chars = to_chars(line);
    match read_line(chars.as_slice(), layout, cursor) {
        Ok((offset, octets)) => {
            let mut writes: Vec<SparseWrite> = Vec::new();
            place(&mut writes, offset, octets.as_slice());
            assert(writes@ =~= writes_at(offset as int, octets@));
            Ok(writes)
        },
        Err(e) => Err(e),
    }
}

/// What was read from a dump text.
#[derive(Debug)]
pub struct ParseOutcome {
    /// The writes of the lines that were read, in the order of the text.
    pub writes: Vec<SparseWrite>,
    /// The lines that were skipped.
    pub rejected: Vec<Rejection>,
}

/// Each rejection as a pair of line number and reason.
pub open spec fn listed(rejected: Seq<Rejection>) -> Seq<(int, ParseError)> {
    Seq::new(rejected.len(), |i: int| (rejected[i].line as int, rejected[i].reason))
}

impl ParseOutcome {
    /// Whether this outcome is `reading`.
    pub open spec fn tells(&self, reading: Reading) -> bool {
        self.writes@ == reading.writes && listed(self.rejected@) == reading.rejected
    }
}

/// Reads a dump text line by line. A malformed line is skipped and reported;
/// the lines behind it are read all the same.
pub fn parse(lines: &[String], layout: &LayoutModel) -> (outcome: ParseOutcome)
    ensures
        outcome.tells(read_all(texts(lines@), 0, 0, layout@)),
{
    let ghost all = texts(lines@);
    let ghost whole = read_all(all, 0, 0, layout@);
    let mut writes: Vec<SparseWrite> = Vec::new();
    let mut rejected: Vec<Rejection> = Vec::new();
    let mut cursor: u64 = 0;
    let mut i: usize = 0;
    proof {
        assert(all.skip(0) =~= all);
        assert(writes@ + whole.writes =~= whole.writes);
        assert(listed(rejected@) + whole.rejected =~= whole.rejected);
    }
    while i < lines.len()
        invariant
            i <= lines@.len(),
            all == texts(lines@),
            whole.writes == writes@ + read_all(all.skip(i as int), i as int, cursor, layout@).writes,
            whole.rejected == listed(rejected@) + read_all(
                all.skip(i as int),
                i as int,
                cursor,
                layout@,
            ).rejected,
        decreases lines@.len() - i,
    {
        let ghost rest = all.skip(i as int);
        let ghost before_writes = writes@;
        let ghost before_rejected = rejected@;
        let ghost before_cursor = cursor;
        let chars = to_chars(lines[i].as_str());
        proof {
            assert(rest[0] == chars@);
            assert(rest.skip(1) =~= all.skip(i + 1));
        }
        match read_line(chars.as_slice(), layout, cursor) {
            Ok((offset, octets)) => {
                place(&mut writes, offset, octets.as_slice());
                cursor = offset + octets.len() as u64;
                proof {
                    let tail = read_all(all.skip(i + 1), i + 1, cursor, layout@);
                    assert(read_all(rest, i as int, before_cursor, layout@).writes == writes_at(
                        offset as int,
                        octets@,
                    ) + tail.writes);
                    assert(before_writes + (writes_at(offset as int, octets@) + tail.writes)
                        =~= writes@ + tail.writes);
                }
            },
            Err(e) => {
                rejected.push(Rejection { line: i, reason: e });
                proof {
                    let tail = read_all(all.skip(i + 1), i + 1, cursor, layout@);
                    assert(read_all(rest, i as int, before_cursor, layout@).rejected == seq![
                        (i as int, e),
                    ] + tail.rejected);
                    assert(listed(rejected@) =~= listed(before_rejected) + seq![(i as int, e)]);
                    assert(listed(before_rejected) + (seq![(i as int, e)] + tail.rejected)
                        =~= listed(rejected@) + tail.rejected);
                }
            },
        }
        i += 1;
    }
    proof {
        assert(all.skip(i as int).len() == 0);
        assert(writes@ + Seq::<SparseWrite>::empty() =~= writes@);
        assert(listed(rejected@) + Seq::<(int, ParseError)>::empty() =~= listed(rejected@));
    }
    ParseOutcome { writes, rejected }
}

} // verus!
