//! From bytes to the lines of a dump.

use crate::classify::{class_of, classify, glyph, glyph_of, DisplayClass};
use crate::config::Format;
use crate::layout::{Layout, LayoutModel, OFFSET_WIDTH};
use crate::numeric::{count_digits, padded, push_digits};
use crate::text::to_text;
use vstd::prelude::*;
use vstd::slice::slice_subrange;

verus! {

/// Whether a blank precedes the token in column `i`: it does before every group
/// but the first. A spacing of zero means that nothing is grouped.
pub open spec fn separated(i: int, spacing: int) -> bool {
    spacing > 0 && i > 0 && i % spacing == 0
}

/// One blank, or nothing.
pub open spec fn blank_if(wanted: bool) -> Seq<char> {
    if wanted {
        seq![' ']
    } else {
        Seq::empty()
    }
}

/// The tokens of `bytes[i..]` with the blanks between their groups, where
/// `bytes[i]` stands in column `i`.
pub open spec fn octets_from(bytes: Seq<u8>, i: int, base: Format, spacing: int) -> Seq<char>
    decreases bytes.len() - i,
{
    if i < 0 || i >= bytes.len() {
        Seq::empty()
    } else {
        blank_if(separated(i, spacing)) + base.token(bytes[i]) + octets_from(
            bytes,
            i + 1,
            base,
            spacing,
        )
    }
}

/// What stands in place of the columns `i..columns` of a short line: two blanks
/// for each, and the blank of its group.
pub open spec fn padding_from(i: int, columns: int, spacing: int) -> Seq<char>
    decreases columns - i,
{
    if i >= columns {
        Seq::empty()
    } else {
        seq![' ', ' '] + blank_if(separated(i, spacing)) + padding_from(i + 1, columns, spacing)
    }
}

/// The text panel of `bytes`: the glyph of each, in order.
pub open spec fn glyphs(bytes: Seq<u8>) -> Seq<char> {
    Seq::new(bytes.len(), |i: int| glyph_of(bytes[i]))
}

/// Each octet with its class.
pub open spec fn classified(bytes: Seq<u8>) -> Seq<(u8, DisplayClass)> {
    Seq::new(bytes.len(), |i: int| (bytes[i], class_of(bytes[i])))
}

/// The offset panel: the offset in at least eight digits, a colon and a blank.
pub open spec fn offset_panel(offset: int, layout: Layout) -> Seq<char> {
    padded(offset, layout.offset_radix(), OFFSET_WIDTH as nat) + seq![':', ' ']
}

/// The octet panel of an annotated line: the grouped tokens, one blank, and the
/// padding that stands for the columns a short line lacks.
pub open spec fn octet_panel(bytes: Seq<u8>, layout: Layout) -> Seq<char> {
    octets_from(bytes, 0, layout.base, layout.spacing()) + seq![' '] + padding_from(
        bytes.len() as int,
        layout.chunk() as int,
        layout.spacing(),
    )
}

/// The text of the line that shows `bytes` from `offset` on, without a line
/// terminator. A plain line is its tokens and nothing else.
pub open spec fn line_text(bytes: Seq<u8>, offset: int, layout: Layout) -> Seq<char> {
    if layout.plain() {
        octets_from(bytes, 0, layout.base, 0)
    } else {
        (if layout.show_offset {
            offset_panel(offset, layout)
        } else {
            Seq::empty()
        }) + octet_panel(bytes, layout) + (if layout.show_text {
            glyphs(bytes)
        } else {
            Seq::empty()
        })
    }
}

/// How many of the columns `i..columns` have a blank before them.
pub open spec fn blanks_between(i: int, columns: int, spacing: int) -> int
    decreases columns - i,
{
    if i >= columns {
        0
    } else {
        (if separated(i, spacing) {
            1int
        } else {
            0
        }) + blanks_between(i + 1, columns, spacing)
    }
}

/// The width of the octet panel of a full line: its tokens, the blanks
/// between their groups, and the blank behind them.
pub open spec fn panel_width(layout: Layout) -> int {
    layout.base.width() * layout.chunk() + blanks_between(
        0,
        layout.chunk() as int,
        layout.spacing(),
    ) + 1
}

/// The blanks of two neighbouring runs of columns are the blanks of the whole run.
pub proof fn lemma_blanks_split(i: int, middle: int, columns: int, spacing: int)
    requires
        i <= middle <= columns,
    ensures
        blanks_between(i, middle, spacing) + blanks_between(middle, columns, spacing)
            == blanks_between(i, columns, spacing),
    decreases middle - i,
{
    if i < middle {
        lemma_blanks_split(i + 1, middle, columns, spacing);
    }
}

/// The first `n` columns hold a blank before every column whose index is a
/// positive multiple of the group size, which makes `(n - 1) / spacing` blanks.
pub proof fn lemma_blanks_count(n: int, spacing: int)
    requires
        1 <= n,
        1 <= spacing,
    ensures
        blanks_between(0, n, spacing) == (n - 1) / spacing,
    decreases n,
{
    if n == 1 {
        assert(blanks_between(1, 1, spacing) == 0);
        assert(!separated(0, spacing));
        vstd::arithmetic::div_mod::lemma_fundamental_div_mod_converse(0, spacing, 0, 0);
    } else {
        lemma_blanks_count(n - 1, spacing);
        lemma_blanks_split(0, n - 1, n, spacing);
        assert(blanks_between(n, n, spacing) == 0);
        assert(blanks_between(n - 1, n, spacing) == if separated(n - 1, spacing) {
            1int
        } else {
            0
        });
        let q = (n - 2) / spacing;
        let r = (n - 2) % spacing;
        vstd::arithmetic::div_mod::lemma_fundamental_div_mod(n - 2, spacing);
        vstd::arithmetic::div_mod::lemma_mod_bound(n - 2, spacing);
        assert(n - 2 == spacing * q + r);
        if r + 1 < spacing {
            assert(n - 1 == q * spacing + (r + 1)) by (nonlinear_arith)
                requires
                    n - 2 == spacing * q + r,
            ;
            vstd::arithmetic::div_mod::lemma_fundamental_div_mod_converse(
                n - 1,
                spacing,
                q,
                r + 1,
            );
        } else {
            assert(n - 1 == (q + 1) * spacing + 0) by (nonlinear_arith)
                requires
                    n - 2 == spacing * q + r,
                    r + 1 == spacing,
            ;
            vstd::arithmetic::div_mod::lemma_fundamental_div_mod_converse(
                n - 1,
                spacing,
                q + 1,
                0,
            );
        }
    }
}

/// The tokens of `bytes[i..]` take the width of a token each, and a blank
/// wherever a group begins.
pub proof fn lemma_octets_len(bytes: Seq<u8>, i: int, base: Format, spacing: int)
    requires
        0 <= i <= bytes.len(),
    ensures
        octets_from(bytes, i, base, spacing).len() == base.width() * (bytes.len() - i)
            + blanks_between(i, bytes.len() as int, spacing),
    decreases bytes.len() - i,
{
    if i < bytes.len() {
        lemma_octets_len(bytes, i + 1, base, spacing);
        crate::config::lemma_token_width(base, bytes[i]);
        let width = base.width() as int;
        let left = bytes.len() - i;
        assert(width * left == width + width * (left - 1)) by (nonlinear_arith);
    }
}

/// The padding of the columns `i..columns` takes two blanks for each, and a
/// blank wherever a group begins.
pub proof fn lemma_padding_len(i: int, columns: int, spacing: int)
    requires
        i <= columns,
    ensures
        padding_from(i, columns, spacing).len() == 2 * (columns - i) + blanks_between(
            i,
            columns,
            spacing,
        ),
    decreases columns - i,
{
    if i < columns {
        lemma_padding_len(i + 1, columns, spacing);
    }
}

/// The width of the octet panel of any line: the tokens of its octets, two
/// blanks for each column that it lacks, the blanks between the groups of a
/// full line, and the blank behind the tokens.
pub proof fn lemma_octet_panel_len(bytes: Seq<u8>, layout: Layout)
    requires
        bytes.len() <= layout.chunk(),
    ensures
        octet_panel(bytes, layout).len() == layout.base.width() * bytes.len() + 2 * (
        layout.chunk() - bytes.len()) + blanks_between(
            0,
            layout.chunk() as int,
            layout.spacing(),
        ) + 1,
{
    lemma_octets_len(bytes, 0, layout.base, layout.spacing());
    lemma_padding_len(bytes.len() as int, layout.chunk() as int, layout.spacing());
    lemma_blanks_split(0, bytes.len() as int, layout.chunk() as int, layout.spacing());
}

/// Where tokens are two characters wide, as in hexadecimal, the octet panel of
/// a short line is as wide as that of a full line.
pub proof fn lemma_short_line_is_padded(bytes: Seq<u8>, layout: Layout)
    requires
        layout.base.width() == 2,
        bytes.len() <= layout.chunk(),
    ensures
        octet_panel(bytes, layout).len() == panel_width(layout),
{
    lemma_octet_panel_len(bytes, layout);
    let n = bytes.len() as int;
    let c = layout.chunk() as int;
    assert(2 * n + 2 * (c - n) == 2 * c);
}

/// The octet panel of a full line has the width of the panel in every base.
pub proof fn lemma_full_line_width(bytes: Seq<u8>, layout: Layout)
    requires
        bytes.len() == layout.chunk(),
    ensures
        octet_panel(bytes, layout).len() == panel_width(layout),
{
    lemma_octet_panel_len(bytes, layout);
}

/// One line of a dump as a mathematical value.
pub struct Row {
    /// The offset shown for the first octet.
    pub start_offset: int,
    /// The octets of the line.
    pub octets: Seq<u8>,
    /// Which of the two tones of each colour the line takes.
    pub alternate: bool,
}

/// The lines that show `bytes` from `offset` on, `chunk` octets to a line; only
/// the last line may be shorter. The tone alternates from line to line.
pub open spec fn rows(bytes: Seq<u8>, offset: int, alternate: bool, chunk: int) -> Seq<Row>
    decreases bytes.len(),
{
    if bytes.len() == 0 || chunk <= 0 {
        Seq::empty()
    } else {
        let n = if chunk < bytes.len() {
            chunk
        } else {
            bytes.len() as int
        };
        seq![Row { start_offset: offset, octets: bytes.take(n), alternate }] + rows(
            bytes.skip(n),
            offset + n,
            !alternate,
            chunk,
        )
    }
}

/// The part of `bytes` that a dump limited to `length` octets shows.
pub open spec fn window(bytes: Seq<u8>, length: int) -> Seq<u8> {
    if length < bytes.len() {
        bytes.take(length)
    } else {
        bytes
    }
}

/// One line of a dump.
#[derive(Debug)]
pub struct DumpLine {
    /// The offset shown for the first octet of the line.
    pub start_offset: u64,
    /// The octets of the line, each with its class.
    pub octets: Vec<(u8, DisplayClass)>,
    /// The text of the line, without colours and without a line terminator.
    pub rendered_text: String,
    /// Which of the two tones of each colour the line takes.
    pub alternate: bool,
}

impl DumpLine {
    /// Whether this line is `row` as `layout` lays it out.
    pub open spec fn shows(&self, row: Row, layout: Layout) -> bool {
        &&& self.start_offset == row.start_offset
        &&& self.octets@ == classified(row.octets)
        &&& self.rendered_text@ == line_text(row.octets, row.start_offset, layout)
        &&& self.alternate == row.alternate
    }
}

/// Appends the offset panel of `offset`.
pub fn push_offset(out: &mut Vec<char>, offset: u64, layout: &LayoutModel)
    ensures
        final(out)@ == old(out)@ + offset_panel(offset as int, layout@),
{
    let radix = layout.offset_radix();
    let needed = count_digits(offset, radix);
    let width = if needed < OFFSET_WIDTH {
        OFFSET_WIDTH
    } else {
        needed
    };
    push_digits(out, offset, radix, width);
    out.push(':');
    out.push(' ');
    assert(out@ =~= old(out)@ + offset_panel(offset as int, layout@));
}

/// Appends the tokens of `chunk` with the blanks between their groups.
pub fn push_octets(out: &mut Vec<char>, chunk: &[u8], base: Format, spacing: usize)
    ensures
        final(out)@ == old(out)@ + octets_from(chunk@, 0, base, spacing as int),
{
    let ghost whole = old(out)@ + octets_from(chunk@, 0, base, spacing as int);
    let mut i: usize = 0;
    while i < chunk.len()
        invariant
            i <= chunk.len(),
            out@ + octets_from(chunk@, i as int, base, spacing as int) == whole,
        decreases chunk.len() - i,
    {
        let ghost before = out@;
        if spacing > 0 && i > 0 && i % spacing == 0 {
            out.push(' ');
        }
        base.push_token(out, chunk[i]);
        proof {
            let piece = blank_if(separated(i as int, spacing as int)) + base.token(chunk@[i as int]);
            let rest = octets_from(chunk@, i + 1, base, spacing as int);
            assert(out@ =~= before + piece);
            assert((before + piece) + rest =~= before + (piece + rest));
        }
        i += 1;
    }
    assert(out@ =~= out@ + octets_from(chunk@, i as int, base, spacing as int));
}

/// Appends what stands in place of the columns `from..columns`.
pub fn push_padding(out: &mut Vec<char>, from: usize, columns: usize, spacing: usize)
    ensures
        final(out)@ == old(out)@ + padding_from(from as int, columns as int, spacing as int),
{
    let ghost whole = old(out)@ + padding_from(from as int, columns as int, spacing as int);
    let mut i: usize = from;
    while i < columns
        invariant
            out@ + padding_from(i as int, columns as int, spacing as int) == whole,
        decreases columns - i,
    {
        let ghost before = out@;
        out.push(' ');
        out.push(' ');
        if spacing > 0 && i > 0 && i % spacing == 0 {
            out.push(' ');
        }
        proof {
            let piece = seq![' ', ' '] + blank_if(separated(i as int, spacing as int));
            let rest = padding_from(i + 1, columns as int, spacing as int);
            assert(out@ =~= before + piece);
            assert((before + piece) + rest =~= before + (piece + rest));
        }
        i += 1;
    }
    assert(out@ =~= out@ + padding_from(i as int, columns as int, spacing as int));
}

/// Appends the glyph of each octet of `chunk`.
pub fn push_glyphs(out: &mut Vec<char>, chunk: &[u8])
    ensures
        final(out)@ == old(out)@ + glyphs(chunk@),
{
    let mut i: usize = 0;
    while i < chunk.len()
        invariant
            i <= chunk.len(),
            out@ == old(out)@ + glyphs(chunk@.take(i as int)),
        decreases chunk.len() - i,
    {
        out.push(glyph(chunk[i]));
        i += 1;
        assert(out@ =~= old(out)@ + glyphs(chunk@.take(i as int)));
    }
    assert(chunk@.take(chunk.len() as int) =~= chunk@);
}

/// Each octet of `chunk` with its class.
pub fn classify_all(chunk: &[u8]) -> (octets: Vec<(u8, DisplayClass)>)
    ensures
        octets@ == classified(chunk@),
{
    let mut octets: Vec<(u8, DisplayClass)> = Vec::new();
    let mut i: usize = 0;
    while i < chunk.len()
        invariant
            i <= chunk.len(),
            octets@ == classified(chunk@.take(i as int)),
        decreases chunk.len() - i,
    {
        octets.push((chunk[i], classify(chunk[i])));
        i += 1;
        assert(octets@ =~= classified(chunk@.take(i as int)));
    }
    assert(chunk@.take(chunk.len() as int) =~= chunk@);
    octets
}

/// Lays out one line: the octets of `chunk`, of which the first has the offset `offset`.
pub fn render_line(chunk: &[u8], offset: u64, layout: &LayoutModel) -> (text: String)
    ensures
        text@ == line_text(chunk@, offset as int, layout@),
{
    let mut out: Vec<char> = Vec::new();
    if layout.plain() {
        push_octets(&mut out, chunk, layout.base(), 0);
    } else {
        if layout.show_offset() {
            push_offset(&mut out, offset, layout);
        }
        let ghost head = out@;
        push_octets(&mut out, chunk, layout.base(), layout.spacing());
        out.push(' ');
        push_padding(&mut out, chunk.len(), layout.chunk(), layout.spacing());
        assert(out@ =~= head + octet_panel(chunk@, layout@));
        if layout.show_text() {
            push_glyphs(&mut out, chunk);
        }
    }
    assert(out@ =~= line_text(chunk@, offset as int, layout@));
    to_text(out.as_slice())
}

/// A formatter as a mathematical value: the layout and where the dump stands.
pub struct Progress {
    /// The layout of the dump.
    pub layout: Layout,
    /// The offset that the next line begins with.
    pub offset: int,
    /// How many octets the dump may still show.
    pub budget: nat,
    /// The tone of the next line.
    pub alternate: bool,
    /// Whether a line was emitted.
    pub emitted: bool,
}

impl Progress {
    /// How many octets the next line takes at most: a full line, or what the
    /// budget still allows.
    pub open spec fn wanted(self) -> nat {
        if self.layout.chunk() < self.budget {
            self.layout.chunk()
        } else {
            self.budget
        }
    }

    /// The line that is emitted for `chunk`.
    pub open spec fn row(self, chunk: Seq<u8>) -> Row {
        Row { start_offset: self.offset, octets: chunk, alternate: self.alternate }
    }

    /// Where the dump stands after a line of `n` octets.
    pub open spec fn after(self, n: nat) -> Progress {
        Progress {
            layout: self.layout,
            offset: self.offset + n,
            budget: (self.budget - n) as nat,
            alternate: !self.alternate,
            emitted: true,
        }
    }

    /// Whether a line end follows each line: it does unless the whole dump is one line.
    pub open spec fn breaks_lines(self) -> bool {
        !self.layout.unbounded()
    }

    /// Whether a line end is owed when the input has ended: the one line of an
    /// unbounded dump is ended then, if there is any of it.
    pub open spec fn owes_line_end(self) -> bool {
        self.layout.unbounded() && self.emitted
    }
}

/// Turns the chunks of a byte source into lines. The caller reads, the
/// formatter lays out: ask `wanted` how much to read, hand what was read to
/// `emit`, and stop when `emit` gives no line.
pub struct Formatter {
    layout: LayoutModel,
    offset: u64,
    budget: usize,
    alternate: bool,
    emitted: bool,
}

impl View for Formatter {
    type V = Progress;

    closed spec fn view(&self) -> Progress {
        Progress {
            layout: self.layout@,
            offset: self.offset as int,
            budget: self.budget as nat,
            alternate: self.alternate,
            emitted: self.emitted,
        }
    }
}

impl Formatter {
    /// A formatter for a dump of at most `length` octets whose first line shows
    /// the offset `start_offset`. The first line takes the alternate tone.
    pub fn new(layout: LayoutModel, start_offset: u64, length: usize) -> (f: Formatter)
        ensures
            f@ == (Progress {
                layout: layout@,
                offset: start_offset as int,
                budget: length as nat,
                alternate: true,
                emitted: false,
            }),
    {
        Formatter { layout, offset: start_offset, budget: length, alternate: true, emitted: false }
    }

    /// Whether a line end follows each line.
    pub fn breaks_lines(&self) -> (b: bool)
        ensures
            b == self@.breaks_lines(),
    {
        !self.layout.unbounded()
    }

    /// Whether a line end is owed when the input has ended.
    pub fn owes_line_end(&self) -> (b: bool)
        ensures
            b == self@.owes_line_end(),
    {
        self.layout.unbounded() && self.emitted
    }

    /// How many octets to read for the next line.
    pub fn wanted(&self) -> (n: usize)
        ensures
            n == self@.wanted(),
    {
        let chunk = self.layout.chunk();
        if chunk < self.budget {
            chunk
        } else {
            self.budget
        }
    }

    /// The offset that the next line begins with.
    pub fn offset(&self) -> (offset: u64)
        ensures
            offset == self@.offset,
    {
        self.offset
    }

    /// The layout of the dump.
    pub fn layout(&self) -> (layout: &LayoutModel)
        ensures
            layout@ == self@.layout,
    {
        &self.layout
    }

    /// Lays out the octets that were read. An empty chunk is the end of the
    /// input: it gives no line and changes nothing.
    pub fn emit(&mut self, chunk: &[u8]) -> (line: Option<DumpLine>)
        requires
            chunk@.len() <= old(self)@.wanted(),
            old(self)@.offset + chunk@.len() <= u64::MAX,
        ensures
            chunk@.len() == 0 ==> line is None && final(self)@ == old(self)@,
            chunk@.len() > 0 ==> line is Some && line->0.shows(
                old(self)@.row(chunk@),
                old(self)@.layout,
            ) && final(self)@ == old(self)@.after(chunk@.len()),
    {
        if chunk.len() == 0 {
            return None;
        }
        let line = DumpLine {
            start_offset: self.offset,
            octets: classify_all(chunk),
            rendered_text: render_line(chunk, self.offset, &self.layout),
            alternate: self.alternate,
        };
        self.offset = self.offset + chunk.len() as u64;
        self.budget = self.budget - chunk.len();
        self.alternate = !self.alternate;
        self.emitted = true;
        Some(line)
    }
}

/// Lays out a dump of the first `length` octets of `bytes`, or of all of them
/// where there are fewer. The first line shows the offset `start_offset`.
pub fn format(bytes: &[u8], layout: &LayoutModel, start_offset: u64, length: usize) -> (lines:
    Vec<DumpLine>)
    requires
        start_offset + window(bytes@, length as int).len() <= u64::MAX,
    ensures
        lines@.len() == rows(
            window(bytes@, length as int),
            start_offset as int,
            true,
            layout@.chunk() as int,
        ).len(),
        forall|j: int|
            0 <= j < lines@.len() ==> (#[trigger] lines@[j]).shows(
                rows(
                    window(bytes@, length as int),
                    start_offset as int,
                    true,
                    layout@.chunk() as int,
                )[j],
                layout@,
            ),
{
    let ghost shown = window(bytes@, length as int);
    let ghost all = rows(shown, start_offset as int, true, layout@.chunk() as int);
    let mut formatter = Formatter::new(*layout, start_offset, length);
    let mut lines: Vec<DumpLine> = Vec::new();
    let mut pos: usize = 0;
    let ghost mut done: Seq<Row> = Seq::empty();
    proof {
        assert(shown.skip(0) =~= shown);
        assert(done + all =~= all);
    }
    loop
        invariant
            pos <= shown.len() <= bytes@.len(),
            shown == window(bytes@, length as int),
            start_offset + shown.len() <= u64::MAX,
            formatter@.layout == layout@,
            formatter@.offset == start_offset + pos,
            formatter@.budget == length - pos,
            lines@.len() == done.len(),
            forall|j: int| 0 <= j < lines@.len() ==> (#[trigger] lines@[j]).shows(done[j], layout@),
            done + rows(
                shown.skip(pos as int),
                formatter@.offset,
                formatter@.alternate,
                layout@.chunk() as int,
            ) == all,
        ensures
            lines@.len() == all.len(),
            forall|j: int| 0 <= j < lines@.len() ==> (#[trigger] lines@[j]).shows(all[j], layout@),
        decreases shown.len() - pos,
    {
        let wanted = formatter.wanted();
        let left = bytes.len() - pos;
        let take = if wanted < left {
            wanted
        } else {
            left
        };
        let chunk = slice_subrange(bytes, pos, pos + take);
        let ghost rest = shown.skip(pos as int);
        let ghost before = formatter@;
        proof {
            assert(rest.len() == shown.len() - pos);
            assert(take == if layout@.chunk() < rest.len() {
                layout@.chunk()
            } else {
                rest.len()
            });
            assert(chunk@ =~= rest.take(take as int));
        }
        match formatter.emit(chunk) {
            None => {
                proof {
                    assert(rest.len() == 0);
                    assert(done + Seq::<Row>::empty() =~= done);
                }
                break ;
            },
            Some(line) => {
                proof {
                    let row = before.row(chunk@);
                    let tail = rows(
                        rest.skip(take as int),
                        before.offset + take,
                        !before.alternate,
                        layout@.chunk() as int,
                    );
                    assert(rest.skip(take as int) =~= shown.skip(pos + take));
                    assert(rows(rest, before.offset, before.alternate, layout@.chunk() as int)
                        == seq![row] + tail);
                    assert(done.push(row) + tail =~= done + (seq![row] + tail));
                    done = done.push(row);
                }
                lines.push(line);
                pos = pos + take;
            },
        }
    }
    lines
}

} // verus!
