//! Whole dumps: from bytes to the lines of a dump text, and from the lines
//! back to the bytes.

use crate::error::SinkError;
use crate::formatter::{line_text, render_line, rows, window, Row};
use crate::layout::{Layout, LayoutModel};
use crate::parser::{parse, read_all, texts};
use crate::sink::{materialized, replay, SparseByteSink, SparseWrite};
use crate::text::push_char;
use vstd::prelude::*;
use vstd::slice::slice_subrange;
use vstd::string::StringExecFns;

verus! {

/// The character that ends each line of a dump text.
pub const LINE_END: char = '\n';

/// The text of each row.
pub open spec fn row_texts(rows: Seq<Row>, layout: Layout) -> Seq<Seq<char>> {
    Seq::new(rows.len(), |j: int| line_text(rows[j].octets, rows[j].start_offset, layout))
}

/// The lines of the dump that shows `bytes` from `offset` on. A plain dump
/// without columns is one line that holds every token, and no line at all where
/// there are no bytes; any other dump has a line for each row.
pub open spec fn dump_lines(bytes: Seq<u8>, offset: int, layout: Layout) -> Seq<Seq<char>> {
    if layout.unbounded() {
        if bytes.len() == 0 {
            Seq::empty()
        } else {
            seq![line_text(bytes, offset, layout)]
        }
    } else {
        row_texts(rows(bytes, offset, true, layout.chunk() as int), layout)
    }
}

/// The lines in one text, each with its line end.
pub open spec fn joined(lines: Seq<Seq<char>>) -> Seq<char>
    decreases lines.len(),
{
    if lines.len() == 0 {
        Seq::empty()
    } else {
        joined(lines.drop_last()) + lines.last().push(LINE_END)
    }
}

/// The index of the first line end of `text` at or behind `from`, or the length
/// of `text` where there is none.
pub open spec fn line_end_from(text: Seq<char>, from: int) -> int
    decreases text.len() - from,
{
    if from < 0 || from >= text.len() {
        text.len() as int
    } else if text[from] == LINE_END {
        from
    } else {
        line_end_from(text, from + 1)
    }
}

/// The first line end lies at or behind where the search began.
pub proof fn lemma_line_end_bounds(text: Seq<char>, from: int)
    requires
        0 <= from <= text.len(),
    ensures
        from <= line_end_from(text, from) <= text.len(),
    decreases text.len() - from,
{
    if from < text.len() && text[from] != LINE_END {
        lemma_line_end_bounds(text, from + 1);
    }
}

/// The lines of a text: what stands before each line end, and what stands
/// behind the last one if anything does.
pub open spec fn split(text: Seq<char>) -> Seq<Seq<char>>
    decreases text.len(),
{
    if text.len() == 0 {
        Seq::empty()
    } else {
        let end = line_end_from(text, 0);
        if end >= text.len() {
            seq![text]
        } else {
            proof {
                lemma_line_end_bounds(text, 0);
            }
            seq![text.take(end)] + split(text.skip(end + 1))
        }
    }
}

/// Whether a text holds no line end.
pub open spec fn single_line(text: Seq<char>) -> bool {
    forall|i: int| 0 <= i < text.len() ==> text[i] != LINE_END
}

/// The bytes that a dump text gives back: what its well-formed lines write,
/// from the lowest to the highest offset, if no offset between them is left out.
pub open spec fn decoded(lines: Seq<Seq<char>>, layout: Layout) -> Result<Seq<u8>, SinkError> {
    materialized(replay(read_all(lines, 0, 0, layout).writes), None)
}

/// The lines of the dump of the first `length` octets of `bytes`, or of all of
/// them where there are fewer. The first line shows the offset `start_offset`.
pub fn encode(bytes: &[u8], layout: &LayoutModel, start_offset: u64, length: usize) -> (lines:
    Vec<String>)
    requires
        start_offset + window(bytes@, length as int).len() <= u64::MAX,
    ensures
        texts(lines@) == dump_lines(
            window(bytes@, length as int),
            start_offset as int,
            layout@,
        ),
{
    let ghost shown = window(bytes@, length as int);
    let mut lines: Vec<String> = Vec::new();
    if layout.unbounded() {
        let n = if length < bytes.len() {
            length
        } else {
            bytes.len()
        };
        let part = slice_subrange(bytes, 0, n);
        assert(part@ =~= shown);
        if n > 0 {
            lines.push(render_line(part, start_offset, layout));
        }
        assert(texts(lines@) =~= dump_lines(shown, start_offset as int, layout@));
        return lines;
    }
    let formatted = crate::formatter::format(bytes, layout, start_offset, length);
    let ghost all = rows(shown, start_offset as int, true, layout@.chunk() as int);
    let mut j: usize = 0;
    while j < formatted.len()
        invariant
            j <= formatted@.len() == all.len(),
            lines@.len() == j,
            forall|k: int| 0 <= k < formatted@.len() ==> (#[trigger] formatted@[k]).shows(
                all[k],
                layout@,
            ),
            forall|k: int| 0 <= k < j ==> (#[trigger] lines@[k])@ == row_texts(all, layout@)[k],
        decreases formatted@.len() - j,
    {
        let text = formatted[j].rendered_text.clone();
        assert(formatted@[j as int].shows(all[j as int], layout@));
        lines.push(text);
        j += 1;
    }
    assert(texts(lines@) =~= row_texts(all, layout@));
    lines
}

/// Joins lines into one text, each with its line end.
pub fn join(lines: &[String]) -> (text: String)
    ensures
        text@ == joined(texts(lines@)),
{
    let ghost all = texts(lines@);
    let mut text = String::new();
    let mut i: usize = 0;
    while i < lines.len()
        invariant
            i <= lines@.len(),
            all == texts(lines@),
            text@ == joined(all.take(i as int)),
        decreases lines@.len() - i,
    {
        let ghost before = text@;
        text.append(lines[i].as_str());
        push_char(&mut text, LINE_END);
        i += 1;
        proof {
            let now = all.take(i as int);
            assert(now.drop_last() =~= all.take(i - 1));
            assert(now.last() == lines@[i - 1]@);
            assert(text@ =~= before + now.last().push(LINE_END));
        }
    }
    assert(all.take(lines@.len() as int) =~= all);
    text
}

/// The dump text of the first `length` octets of `bytes`: its lines, each with
/// its line end.
pub fn dump(bytes: &[u8], layout: &LayoutModel, start_offset: u64, length: usize) -> (text: String)
    requires
        start_offset + window(bytes@, length as int).len() <= u64::MAX,
    ensures
        text@ == joined(dump_lines(window(bytes@, length as int), start_offset as int, layout@)),
{
    let lines = encode(bytes, layout, start_offset, length);
    join(lines.as_slice())
}

/// Replays writes into a sink, in their order.
pub fn collect(writes: &[SparseWrite]) -> (sink: SparseByteSink)
    ensures
        sink@ == replay(writes@),
{
    let mut sink = SparseByteSink::new();
    let mut i: usize = 0;
    while i < writes.len()
        invariant
            i <= writes@.len(),
            sink@ == replay(writes@.take(i as int)),
        decreases writes@.len() - i,
    {
        sink.record(writes[i]);
        i += 1;
        proof {
            let now = writes@.take(i as int);
            assert(now.drop_last() =~= writes@.take(i - 1));
            assert(now.last() == writes@[i - 1]);
        }
    }
    assert(writes@.take(writes@.len() as int) =~= writes@);
    sink
}

/// The bytes that a dump text gives back. The text panel is not read.
pub fn decode(lines: &[String], layout: &LayoutModel) -> (r: Result<Vec<u8>, SinkError>)
    ensures
        match r {
            Ok(bytes) => decoded(texts(lines@), layout@) == Ok::<Seq<u8>, SinkError>(bytes@),
            Err(e) => decoded(texts(lines@), layout@) == Err::<Seq<u8>, SinkError>(e),
        },
{
    let outcome = parse(lines, layout);
    let sink = collect(outcome.writes.as_slice());
    sink.materialize(None)
}

/// The search for a line end passes over what holds none.
pub proof fn lemma_line_end(text: Seq<char>, from: int, end: int)
    requires
        0 <= from <= end <= text.len(),
        forall|k: int| from <= k < end ==> text[k] != LINE_END,
        end < text.len() ==> text[end] == LINE_END,
    ensures
        line_end_from(text, from) == end,
    decreases end - from,
{
    if from < end {
        lemma_line_end(text, from + 1, end);
    }
}

/// Splits a text into its lines.
pub fn split_lines(text: &str) -> (lines: Vec<String>)
    ensures
        texts(lines@) == split(text@),
{
    let chars = crate::text::to_chars(text);
    let mut lines: Vec<String> = Vec::new();
    let mut current = String::new();
    let mut i: usize = 0;
    proof {
        assert(chars@.skip(0) =~= chars@);
        assert(current@ + chars@ =~= chars@);
        assert(texts(lines@) + split(chars@) =~= split(chars@));
    }
    while i < chars.len()
        invariant
            i <= chars@.len(),
            chars@ == text@,
            single_line(current@),
            texts(lines@) + split(current@ + chars@.skip(i as int)) == split(text@),
        decreases chars@.len() - i,
    {
        let ghost rest = chars@.skip(i as int);
        let ghost whole = current@ + rest;
        let ghost before = texts(lines@);
        let c = chars[i];
        proof {
            assert(rest[0] == c);
            assert(rest.skip(1) =~= chars@.skip(i + 1));
            assert(whole[current@.len() as int] == c);
        }
        if c == LINE_END {
            proof {
                assert forall|k: int| 0 <= k < current@.len() implies whole[k] != LINE_END by {
                    assert(whole[k] == current@[k]);
                }
                lemma_line_end(whole, 0, current@.len() as int);
                assert(whole.take(current@.len() as int) =~= current@);
                assert(whole.skip(current@.len() as int + 1) =~= rest.skip(1));
                assert(split(whole) == seq![current@] + split(rest.skip(1)));
                assert(Seq::<char>::empty() + rest.skip(1) =~= rest.skip(1));
            }
            lines.push(current);
            current = String::new();
            proof {
                assert(texts(lines@) =~= before.push(whole.take(whole.len() - rest.len())));
                assert(texts(lines@) + split(current@ + chars@.skip(i + 1)) =~= before + (seq![
                    whole.take(whole.len() - rest.len()),
                ] + split(rest.skip(1))));
            }
        } else {
            push_char(&mut current, c);
            proof {
                assert(current@ + rest.skip(1) =~= whole);
            }
        }
        i += 1;
    }
    proof {
        assert(current@ + chars@.skip(i as int) =~= current@);
        if current@.len() > 0 {
            lemma_line_end(current@, 0, current@.len() as int);
        }
    }
    if current.as_str().is_empty() {
        assert(texts(lines@) + Seq::<Seq<char>>::empty() =~= texts(lines@));
    } else {
        let ghost before = texts(lines@);
        let ghost last = current@;
        lines.push(current);
        assert(texts(lines@) =~= before + seq![last]);
    }
    lines
}

/// The bytes that a dump text gives back, where the text is given in one piece.
pub fn decode_text(text: &str, layout: &LayoutModel) -> (r: Result<Vec<u8>, SinkError>)
    ensures
        match r {
            Ok(bytes) => decoded(split(text@), layout@) == Ok::<Seq<u8>, SinkError>(bytes@),
            Err(e) => decoded(split(text@), layout@) == Err::<Seq<u8>, SinkError>(e),
        },
{
    let lines = split_lines(text);
    decode(lines.as_slice(), layout)
}

} // verus!
