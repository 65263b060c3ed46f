//! A dump text read back gives the bytes that it shows.

use crate::classify::lemma_glyph_is_visible;
use crate::codec::{
    decoded, dump_lines, joined, lemma_line_end, row_texts, single_line, split, LINE_END,
};
use crate::config::{lemma_token_round_trip, lemma_token_width};
use crate::error::{ParseError, SinkError};
use crate::formatter::{
    blank_if, glyphs, line_text, octet_panel, octets_from, offset_panel, padding_from, rows,
    separated, Row,
};
use crate::layout::{Layout, OFFSET_WIDTH};
use crate::numeric::{
    lemma_digits_are_digits, lemma_padded_reads_back, numeral_value, padded,
};
use crate::parser::{
    at_limit, lemma_first_colon, parse_line_spec, read_all, read_offset, scan, writes_at, Reading,
};
use crate::sink::{
    contiguous, covers, highest, is_highest, is_lowest, lowest, materialized, replay, untouched,
    SparseWrite,
};
use vstd::prelude::*;

verus! {

/// The first character of a token is a digit, so it is no blank.
pub proof fn lemma_token_starts_with_digit(layout: Layout, octet: u8)
    ensures
        layout.base.token(octet).len() == layout.base.width(),
        layout.base.width() >= 2,
        layout.base.token(octet)[0] != ' ',
{
    lemma_token_width(layout.base, octet);
    lemma_digits_are_digits(octet as int, layout.base.radix(), layout.base.width());
}

/// A line that begins with the offset panel of `offset` is read as beginning
/// at `offset`, and its tokens are looked for behind the panel.
pub proof fn lemma_read_offset(offset: int, layout: Layout, body: Seq<char>)
    requires
        0 <= offset <= u64::MAX,
    ensures
        read_offset(offset_panel(offset, layout) + body, layout) == Some(
            (offset as u64, offset_panel(offset, layout).len() as int),
        ),
        (offset_panel(offset, layout) + body).skip(offset_panel(offset, layout).len() as int)
            == body,
{
    let radix = layout.offset_radix();
    let numeral = padded(offset, radix, OFFSET_WIDTH as nat);
    let panel = offset_panel(offset, layout);
    let line = panel + body;
    let colon = numeral.len() as int;
    lemma_padded_reads_back(offset, radix, OFFSET_WIDTH as nat);
    assert(panel.len() == colon + 2);
    assert(line[colon] == panel[colon]);
    assert(line[colon + 1] == panel[colon + 1]);
    assert forall|k: int| 0 <= k < colon implies line[k] != ':' by {
        assert(line[k] == numeral[k]);
    }
    lemma_first_colon(line, 0, colon);
    assert(line.take(colon) =~= numeral);
    assert(numeral_value(numeral, radix) == Some(offset as u64));
    assert(line.skip(panel.len() as int) =~= body);
}

/// Where the layout has no text panel, blanks hold no tokens.
pub proof fn lemma_scan_blanks(rest: Seq<char>, count: nat, layout: Layout)
    requires
        !layout.show_text,
        forall|i: int| 0 <= i < rest.len() ==> rest[i] == ' ',
    ensures
        scan(rest, count, layout) == Ok::<Seq<u8>, ParseError>(Seq::empty()),
    decreases rest.len(),
{
    if rest.len() > 0 {
        lemma_scan_blanks(rest.skip(1), count, layout);
    }
}

/// Padding is blanks, and there is some wherever a column is missing.
pub proof fn lemma_padding_is_blank(i: int, columns: int, spacing: int)
    ensures
        forall|k: int|
            0 <= k < padding_from(i, columns, spacing).len() ==> #[trigger] padding_from(
                i,
                columns,
                spacing,
            )[k] == ' ',
        i < columns ==> padding_from(i, columns, spacing).len() >= 2,
    decreases columns - i,
{
    if i < columns {
        lemma_padding_is_blank(i + 1, columns, spacing);
        let head = seq![' ', ' '] + blank_if(separated(i, spacing));
        let tail = padding_from(i + 1, columns, spacing);
        let all = padding_from(i, columns, spacing);
        assert(all == head + tail);
        assert forall|k: int| 0 <= k < all.len() implies #[trigger] all[k] == ' ' by {
            if k < head.len() {
                assert(all[k] == head[k]);
            } else {
                assert(all[k] == tail[k - head.len()]);
            }
        }
    }
}

/// What stands behind the tokens of an annotated line: the blank, the padding
/// and the text panel.
pub open spec fn trailer(bytes: Seq<u8>, layout: Layout) -> Seq<char> {
    seq![' '] + padding_from(bytes.len() as int, layout.chunk() as int, layout.spacing()) + (
    if layout.show_text {
        glyphs(bytes)
    } else {
        Seq::empty()
    })
}

/// No token is found behind the tokens of an annotated line.
pub proof fn lemma_scan_trailer(bytes: Seq<u8>, layout: Layout)
    requires
        !layout.plain(),
        bytes.len() <= layout.chunk(),
    ensures
        scan(trailer(bytes, layout), bytes.len(), layout) == Ok::<Seq<u8>, ParseError>(
            Seq::empty(),
        ),
{
    let padding = padding_from(bytes.len() as int, layout.chunk() as int, layout.spacing());
    let rest = trailer(bytes, layout);
    lemma_padding_is_blank(bytes.len() as int, layout.chunk() as int, layout.spacing());
    assert(rest[0] == ' ');
    if layout.show_text {
        if bytes.len() < layout.chunk() {
            assert(rest[1] == padding[0]);
        }
    } else {
        assert(rest =~= seq![' '] + padding);
        assert forall|i: int| 0 <= i < rest.len() implies rest[i] == ' ' by {
            if i > 0 {
                assert(rest[i] == padding[i - 1]);
            }
        }
        lemma_scan_blanks(rest, bytes.len(), layout);
    }
}

/// The tokens of a line are read back as its octets: the blanks between the
/// groups are passed over, and each token gives its octet.
pub proof fn lemma_scan_octets(
    bytes: Seq<u8>,
    i: int,
    layout: Layout,
    spacing: int,
    behind: Seq<char>,
)
    requires
        0 <= i <= bytes.len(),
        layout.unbounded() || bytes.len() <= layout.chunk(),
        scan(behind, bytes.len(), layout) == Ok::<Seq<u8>, ParseError>(Seq::empty()),
    ensures
        scan(octets_from(bytes, i, layout.base, spacing) + behind, i as nat, layout) == Ok::<
            Seq<u8>,
            ParseError,
        >(bytes.skip(i)),
    decreases bytes.len() - i,
{
    let here = octets_from(bytes, i, layout.base, spacing) + behind;
    if i == bytes.len() {
        assert(here =~= behind);
        assert(bytes.skip(i) =~= Seq::<u8>::empty());
    } else {
        let width = layout.base.width();
        let token = layout.base.token(bytes[i]);
        let next = octets_from(bytes, i + 1, layout.base, spacing) + behind;
        let inner = token + next;
        lemma_token_starts_with_digit(layout, bytes[i]);
        lemma_token_round_trip(layout.base, bytes[i]);
        lemma_scan_octets(bytes, i + 1, layout, spacing, behind);
        assert(!at_limit(i as nat, layout));
        assert(inner[0] == token[0]);
        assert(inner.take(width as int) =~= token);
        assert(inner.skip(width as int) =~= next);
        assert(seq![bytes[i]] + bytes.skip(i + 1) =~= bytes.skip(i));
        assert(scan(inner, i as nat, layout) == Ok::<Seq<u8>, ParseError>(bytes.skip(i)));
        if separated(i, spacing) {
            assert(here =~= seq![' '] + inner);
            assert(here[0] == ' ');
            assert(here[1] == inner[0]);
            assert(here.skip(1) =~= inner);
        } else {
            assert(here =~= inner);
        }
    }
}

/// One line of a dump is read back as its offset and its octets. Where the
/// layout shows no offsets, the line is read as continuing at the cursor.
pub proof fn lemma_line_round_trip(bytes: Seq<u8>, offset: int, layout: Layout, cursor: u64)
    requires
        layout.wf(),
        layout.unbounded() || bytes.len() <= layout.chunk(),
        0 <= offset,
        offset + bytes.len() <= u64::MAX,
        cursor + bytes.len() <= u64::MAX,
    ensures
        parse_line_spec(line_text(bytes, offset, layout), layout, cursor) == Ok::<
            (u64, Seq<u8>),
            ParseError,
        >(
            (
                if layout.show_offset {
                    offset as u64
                } else {
                    cursor
                },
                bytes,
            ),
        ),
{
    let line = line_text(bytes, offset, layout);
    assert(bytes.skip(0) =~= bytes);
    if layout.plain() {
        let none = Seq::<char>::empty();
        lemma_scan_octets(bytes, 0, layout, 0, none);
        assert(octets_from(bytes, 0, layout.base, 0) + none =~= line);
        assert(line.skip(0) =~= line);
    } else {
        let behind = trailer(bytes, layout);
        let body = octets_from(bytes, 0, layout.base, layout.spacing()) + behind;
        lemma_scan_trailer(bytes, layout);
        lemma_scan_octets(bytes, 0, layout, layout.spacing(), behind);
        let text = if layout.show_text {
            glyphs(bytes)
        } else {
            Seq::<char>::empty()
        };
        assert(octet_panel(bytes, layout) + text =~= body);
        if layout.show_offset {
            assert(line =~= offset_panel(offset, layout) + body);
            lemma_read_offset(offset, layout, body);
        } else {
            assert(line =~= body);
            assert(line.skip(0) =~= line);
        }
    }
}

/// Writes to neighbouring runs of offsets are the writes to the whole run.
pub proof fn lemma_writes_split(offset: int, bytes: Seq<u8>, n: int)
    requires
        0 <= n <= bytes.len(),
    ensures
        writes_at(offset, bytes.take(n)) + writes_at(offset + n, bytes.skip(n)) == writes_at(
            offset,
            bytes,
        ),
{
    assert(writes_at(offset, bytes.take(n)) + writes_at(offset + n, bytes.skip(n)) =~= writes_at(
        offset,
        bytes,
    ));
}

/// The lines of a dump are read back without a rejected line, as one write for
/// each byte, at rising offsets.
pub proof fn lemma_rows_round_trip(
    bytes: Seq<u8>,
    offset: int,
    alternate: bool,
    layout: Layout,
    number: int,
    cursor: u64,
)
    requires
        layout.wf(),
        !layout.unbounded(),
        0 <= offset,
        offset + bytes.len() <= u64::MAX,
        cursor + bytes.len() <= u64::MAX,
    ensures
        read_all(
            row_texts(rows(bytes, offset, alternate, layout.chunk() as int), layout),
            number,
            cursor,
            layout,
        ) == (Reading {
            writes: writes_at(
                if layout.show_offset {
                    offset
                } else {
                    cursor as int
                },
                bytes,
            ),
            rejected: Seq::empty(),
        }),
    decreases bytes.len(),
{
    let chunk = layout.chunk() as int;
    let all = rows(bytes, offset, alternate, chunk);
    let lines = row_texts(all, layout);
    let origin = if layout.show_offset {
        offset
    } else {
        cursor as int
    };
    if bytes.len() == 0 {
        assert(lines =~= Seq::<Seq<char>>::empty());
        assert(writes_at(origin, bytes) =~= Seq::<SparseWrite>::empty());
    } else {
        let n = if chunk < bytes.len() {
            chunk
        } else {
            bytes.len() as int
        };
        let head = bytes.take(n);
        let tail = bytes.skip(n);
        let rest = rows(tail, offset + n, !alternate, chunk);
        let first = Row { start_offset: offset, octets: head, alternate };
        assert(all == seq![first] + rest);
        assert(lines[0] == line_text(head, offset, layout));
        assert(lines.skip(1) =~= row_texts(rest, layout));
        lemma_line_round_trip(head, offset, layout, cursor);
        let next_cursor = (origin + n) as u64;
        lemma_rows_round_trip(tail, offset + n, !alternate, layout, number + 1, next_cursor);
        lemma_writes_split(origin, bytes, n);
    }
}

/// The map that holds `bytes` at the offsets from `offset` on.
pub open spec fn block(offset: int, bytes: Seq<u8>) -> Map<u64, u8> {
    Map::new(
        |at: u64| offset <= at < offset + bytes.len(),
        |at: u64| bytes[at - offset],
    )
}

/// Replaying one write for each byte, at rising offsets, leaves the bytes as a block.
pub proof fn lemma_replay_block(offset: int, bytes: Seq<u8>)
    requires
        0 <= offset,
        offset + bytes.len() <= u64::MAX,
    ensures
        replay(writes_at(offset, bytes)) == block(offset, bytes),
    decreases bytes.len(),
{
    let writes = writes_at(offset, bytes);
    if bytes.len() == 0 {
        assert(block(offset, bytes) =~= Map::<u64, u8>::empty());
    } else {
        let shorter = bytes.drop_last();
        lemma_replay_block(offset, shorter);
        assert(writes.drop_last() =~= writes_at(offset, shorter));
        let last = (offset + bytes.len() - 1) as u64;
        assert(writes.last() == SparseWrite { offset: last, value: bytes.last() });
        assert(block(offset, shorter).insert(last, bytes.last()) =~= block(offset, bytes));
    }
}

/// A block is materialized as its bytes, with no need of a fill value.
pub proof fn lemma_materialized_block(offset: int, bytes: Seq<u8>)
    requires
        0 <= offset,
        offset + bytes.len() <= u64::MAX,
    ensures
        materialized(block(offset, bytes), None) == Ok::<Seq<u8>, SinkError>(bytes),
{
    let written = block(offset, bytes);
    if bytes.len() == 0 {
        assert(untouched(written));
        assert(bytes =~= Seq::<u8>::empty());
    } else {
        let first = offset as u64;
        let last = (offset + bytes.len() - 1) as u64;
        assert(written.dom().contains(first));
        assert(written.dom().contains(last));
        assert(is_lowest(written, first));
        assert(is_highest(written, last));
        let low = lowest(written);
        let high = highest(written);
        assert(is_lowest(written, low));
        assert(is_highest(written, high));
        assert(low == first);
        assert(high == last);
        assert(covers(written, low, high));
        assert(contiguous(written, low, high, 0) =~= bytes);
    }
}

/// The lines of a dump, read back, give the bytes that were dumped, and no
/// line is rejected. This holds of every well-formed layout; where the
/// layout shows no offsets the bytes are placed from offset zero on.
pub proof fn lemma_round_trip(bytes: Seq<u8>, layout: Layout, start_offset: int)
    requires
        layout.wf(),
        0 <= start_offset,
        start_offset + bytes.len() <= u64::MAX,
    ensures
        read_all(dump_lines(bytes, start_offset, layout), 0, 0, layout).rejected == Seq::<
            (int, ParseError),
        >::empty(),
        read_all(dump_lines(bytes, start_offset, layout), 0, 0, layout).writes == writes_at(
            if layout.show_offset {
                start_offset
            } else {
                0
            },
            bytes,
        ),
        decoded(dump_lines(bytes, start_offset, layout), layout) == Ok::<Seq<u8>, SinkError>(bytes),
{
    let lines = dump_lines(bytes, start_offset, layout);
    let origin = if layout.show_offset {
        start_offset
    } else {
        0
    };
    if layout.unbounded() {
        if bytes.len() == 0 {
            assert(writes_at(origin, bytes) =~= Seq::<SparseWrite>::empty());
        } else {
            lemma_line_round_trip(bytes, start_offset, layout, 0);
            let behind = read_all(lines.skip(1), 1, (origin + bytes.len()) as u64, layout);
            assert(lines.skip(1) =~= Seq::<Seq<char>>::empty());
            assert(behind.writes =~= Seq::<SparseWrite>::empty());
            assert(behind.rejected =~= Seq::<(int, ParseError)>::empty());
            assert(lines[0] == line_text(bytes, start_offset, layout));
            assert(writes_at(origin, bytes) + Seq::<SparseWrite>::empty() =~= writes_at(
                origin,
                bytes,
            ));
        }
    } else {
        lemma_rows_round_trip(bytes, start_offset, true, layout, 0, 0);
    }
    lemma_replay_block(origin, bytes);
    lemma_materialized_block(origin, bytes);
}

/// The tokens of a line hold no line end.
pub proof fn lemma_octets_single_line(bytes: Seq<u8>, i: int, layout: Layout, spacing: int)
    requires
        0 <= i <= bytes.len(),
    ensures
        single_line(octets_from(bytes, i, layout.base, spacing)),
    decreases bytes.len() - i,
{
    if i < bytes.len() {
        lemma_octets_single_line(bytes, i + 1, layout, spacing);
        let blank = blank_if(separated(i, spacing));
        let token = layout.base.token(bytes[i]);
        let rest = octets_from(bytes, i + 1, layout.base, spacing);
        let all = octets_from(bytes, i, layout.base, spacing);
        lemma_token_width(layout.base, bytes[i]);
        lemma_digits_are_digits(bytes[i] as int, layout.base.radix(), layout.base.width());
        assert(all == blank + token + rest);
        assert forall|k: int| 0 <= k < all.len() implies all[k] != LINE_END by {
            if k < blank.len() {
                assert(all[k] == blank[k]);
            } else if k < blank.len() + token.len() {
                assert(all[k] == token[k - blank.len()]);
                assert(crate::numeric::is_digit(token[k - blank.len()], layout.base.radix()));
            } else {
                assert(all[k] == rest[k - blank.len() - token.len()]);
            }
        }
    }
}

/// A line of a dump holds no line end.
pub proof fn lemma_line_is_single(bytes: Seq<u8>, offset: int, layout: Layout)
    requires
        0 <= offset,
    ensures
        single_line(line_text(bytes, offset, layout)),
{
    let line = line_text(bytes, offset, layout);
    if layout.plain() {
        lemma_octets_single_line(bytes, 0, layout, 0);
    } else {
        let numeral = padded(offset, layout.offset_radix(), OFFSET_WIDTH as nat);
        let panel = if layout.show_offset {
            offset_panel(offset, layout)
        } else {
            Seq::<char>::empty()
        };
        let octets = octets_from(bytes, 0, layout.base, layout.spacing());
        let padding = padding_from(bytes.len() as int, layout.chunk() as int, layout.spacing());
        let text = if layout.show_text {
            glyphs(bytes)
        } else {
            Seq::<char>::empty()
        };
        lemma_padded_reads_back(offset, layout.offset_radix(), OFFSET_WIDTH as nat);
        lemma_octets_single_line(bytes, 0, layout, layout.spacing());
        lemma_padding_is_blank(bytes.len() as int, layout.chunk() as int, layout.spacing());
        assert(single_line(panel)) by {
            assert forall|k: int| 0 <= k < panel.len() implies panel[k] != LINE_END by {
                if k < numeral.len() {
                    assert(panel[k] == numeral[k]);
                    assert(crate::numeric::is_digit(numeral[k], layout.offset_radix()));
                }
            }
        }
        assert(single_line(text)) by {
            assert forall|k: int| 0 <= k < text.len() implies text[k] != LINE_END by {
                lemma_glyph_is_visible(bytes[k]);
            }
        }
        let middle = octets + seq![' '] + padding;
        assert(middle == octet_panel(bytes, layout));
        assert(single_line(middle)) by {
            assert forall|k: int| 0 <= k < middle.len() implies middle[k] != LINE_END by {
                if k < octets.len() {
                    assert(middle[k] == octets[k]);
                } else if k > octets.len() {
                    assert(middle[k] == padding[k - octets.len() - 1]);
                }
            }
        }
        assert(line == panel + middle + text);
        assert forall|k: int| 0 <= k < line.len() implies line[k] != LINE_END by {
            if k < panel.len() {
                assert(line[k] == panel[k]);
            } else if k < panel.len() + middle.len() {
                assert(line[k] == middle[k - panel.len()]);
            } else {
                assert(line[k] == text[k - panel.len() - middle.len()]);
            }
        }
    }
}

/// No row begins below the offset of the first.
pub proof fn lemma_rows_offsets(bytes: Seq<u8>, offset: int, alternate: bool, chunk: int, j: int)
    requires
        0 <= offset,
        0 <= j < rows(bytes, offset, alternate, chunk).len(),
    ensures
        rows(bytes, offset, alternate, chunk)[j].start_offset >= offset,
    decreases bytes.len(),
{
    if j > 0 {
        let n = if chunk < bytes.len() {
            chunk
        } else {
            bytes.len() as int
        };
        let first = Row { start_offset: offset, octets: bytes.take(n), alternate };
        let rest = rows(bytes.skip(n), offset + n, !alternate, chunk);
        assert(rows(bytes, offset, alternate, chunk) == seq![first] + rest);
        lemma_rows_offsets(bytes.skip(n), offset + n, !alternate, chunk, j - 1);
    }
}

/// No line of a dump holds a line end.
pub proof fn lemma_dump_lines_are_single(bytes: Seq<u8>, start_offset: int, layout: Layout)
    requires
        0 <= start_offset,
    ensures
        forall|j: int|
            0 <= j < dump_lines(bytes, start_offset, layout).len() ==> single_line(
                #[trigger] dump_lines(bytes, start_offset, layout)[j],
            ),
{
    let lines = dump_lines(bytes, start_offset, layout);
    assert forall|j: int| 0 <= j < lines.len() implies single_line(#[trigger] lines[j]) by {
        if layout.unbounded() {
            lemma_line_is_single(bytes, start_offset, layout);
        } else {
            let all = rows(bytes, start_offset, true, layout.chunk() as int);
            lemma_rows_offsets(bytes, start_offset, true, layout.chunk() as int, j);
            lemma_line_is_single(all[j].octets, all[j].start_offset, layout);
        }
    }
}

/// A joined text begins with its first line and the line end of that line.
pub proof fn lemma_joined_front(lines: Seq<Seq<char>>)
    requires
        lines.len() > 0,
    ensures
        joined(lines) == lines[0].push(LINE_END) + joined(lines.skip(1)),
    decreases lines.len(),
{
    if lines.len() == 1 {
        assert(lines.drop_last() =~= Seq::<Seq<char>>::empty());
        assert(lines.skip(1) =~= Seq::<Seq<char>>::empty());
        assert(joined(lines) =~= lines[0].push(LINE_END) + joined(lines.skip(1)));
    } else {
        let shorter = lines.drop_last();
        lemma_joined_front(shorter);
        assert(shorter.skip(1) =~= lines.skip(1).drop_last());
        assert(lines.skip(1).last() == lines.last());
        assert(joined(lines) =~= lines[0].push(LINE_END) + joined(lines.skip(1)));
    }
}

/// Lines that hold no line end are what their joined text splits into.
pub proof fn lemma_split_joined(lines: Seq<Seq<char>>)
    requires
        forall|j: int| 0 <= j < lines.len() ==> single_line(#[trigger] lines[j]),
    ensures
        split(joined(lines)) == lines,
    decreases lines.len(),
{
    if lines.len() == 0 {
        assert(split(joined(lines)) =~= lines);
    } else {
        let first = lines[0];
        let rest = lines.skip(1);
        let text = joined(lines);
        lemma_joined_front(lines);
        assert forall|j: int| 0 <= j < rest.len() implies single_line(#[trigger] rest[j]) by {
            assert(rest[j] == lines[j + 1]);
        }
        lemma_split_joined(rest);
        assert(single_line(first));
        assert(text[first.len() as int] == LINE_END);
        assert forall|k: int| 0 <= k < first.len() implies text[k] != LINE_END by {
            assert(text[k] == first[k]);
        }
        lemma_line_end(text, 0, first.len() as int);
        assert(text.take(first.len() as int) =~= first);
        assert(text.skip(first.len() as int + 1) =~= joined(rest));
        assert(seq![first] + rest =~= lines);
    }
}

/// A dump text in one piece, split at its line ends and read back, gives the
/// bytes that were dumped.
pub proof fn lemma_text_round_trip(bytes: Seq<u8>, layout: Layout, start_offset: int)
    requires
        layout.wf(),
        0 <= start_offset,
        start_offset + bytes.len() <= u64::MAX,
    ensures
        split(joined(dump_lines(bytes, start_offset, layout))) == dump_lines(
            bytes,
            start_offset,
            layout,
        ),
        decoded(split(joined(dump_lines(bytes, start_offset, layout))), layout) == Ok::<
            Seq<u8>,
            SinkError,
        >(bytes),
{
    lemma_dump_lines_are_single(bytes, start_offset, layout);
    lemma_split_joined(dump_lines(bytes, start_offset, layout));
    lemma_round_trip(bytes, layout, start_offset);
}

} // verus!
