//! Colours for the lines of a dump: each token and each glyph takes the colour
//! of its class, in the tone of its line.

use crate::classify::{glyph, glyph_of, DisplayClass};
use crate::config::color_choice::{ColorChoice, CssColor, LineColorConfig};
use crate::formatter::{
    blank_if, glyphs, line_text, octet_panel, octets_from, offset_panel,
    padding_from, push_offset, push_padding, render_line, separated, DumpLine,
};
use crate::layout::{Layout, LayoutModel};
use crate::text::{push_char, to_text};
use owo_colors::{CssColors, DynColors, OwoColorize, Stream};
use vstd::prelude::*;
use vstd::string::StringExecFns;

verus! {

/// What `DynColor::fmt_ansi_fg` of `owo_colors` writes for the colour of
/// `CssColors` with this name: the escape sequence that sets the foreground.
pub uninterp spec fn foreground_intro(color: CssColor) -> Seq<char>;

/// What resets the foreground to the colour of the terminal: the escape
/// character and `[39m`.
pub open spec fn foreground_reset() -> Seq<char> {
    seq!['\u{1b}', '[', '3', '9', 'm']
}

/// A text in a colour.
pub open spec fn painted(text: Seq<char>, color: CssColor) -> Seq<char> {
    foreground_intro(color) + text + foreground_reset()
}

/// `OwoColorize::color` of `owo_colors`, with a colour of `CssColors`, written
/// out by `to_string`: the intro of the colour, the text unchanged, and the
/// reset of the foreground.
#[verifier::external_body]
pub(crate) fn paint(text: &str, color: CssColor) -> (colored: String)
    ensures
        colored@ == foreground_intro(color) + text@ + foreground_reset(),
{
    let color = DynColors::Css(match color {
        CssColor::LightBlue => CssColors::LightBlue,
        CssColor::CadetBlue => CssColors::CadetBlue,
        CssColor::LightSteelBlue => CssColors::LightSteelBlue,
        CssColor::LightSlateGray => CssColors::LightSlateGray,
        CssColor::DimGray => CssColors::DimGray,
        CssColor::DarkGray => CssColors::DarkGray,
        CssColor::LawnGreen => CssColors::LawnGreen,
        CssColor::GreenYellow => CssColors::GreenYellow,
        CssColor::LightCoral => CssColors::LightCoral,
        CssColor::IndianRed => CssColors::IndianRed,
    });
    text.color(color).to_string()
}

/// `OwoColorize::if_supports_color` of `owo_colors` for the standard output,
/// written out by `to_string`: the text in the colour where the terminal is
/// found to take colours, and the text unchanged where it is not. Which of the
/// two depends on the environment of the process.
#[verifier::external_body]
pub(crate) fn paint_if_supported(text: &str, color: CssColor) -> (colored: String)
    ensures
        colored@ == text@ || colored@ == foreground_intro(color) + text@ + foreground_reset(),
{
    text.if_supports_color(Stream::Stdout, |text| paint(text, color)).to_string()
}

/// What `colorize` may give for a text: the text itself unless colours are
/// always wanted, the painted text unless they are never wanted.
pub open spec fn colorized(
    result: Seq<char>,
    text: Seq<char>,
    color: CssColor,
    color_choice: ColorChoice,
) -> bool {
    match color_choice {
        ColorChoice::Never => result == text,
        ColorChoice::Always => result == painted(text, color),
        ColorChoice::Auto => result == text || result == painted(text, color),
    }
}

/// Colours a text as the choice says.
pub fn colorize(text: &str, color: CssColor, color_choice: ColorChoice) -> (colored: String)
    ensures
        colorized(colored@, text@, color, color_choice),
{
    match color_choice {
        ColorChoice::Auto => paint_if_supported(text, color),
        ColorChoice::Never => String::from_str(text),
        ColorChoice::Always => paint(text, color),
    }
}

/// A stretch of a line as a mathematical value: its text, and its colour if it has one.
pub struct Piece {
    /// The text.
    pub text: Seq<char>,
    /// The colour; blanks have none.
    pub color: Option<CssColor>,
}

/// A stretch of a line: its text, and its colour if it has one.
#[derive(Debug, PartialEq, Eq)]
pub struct Span {
    /// The text.
    pub text: String,
    /// The colour; blanks have none.
    pub color: Option<CssColor>,
}

impl View for Span {
    type V = Piece;

    open spec fn view(&self) -> Piece {
        Piece { text: self.text@, color: self.color }
    }
}

/// The spans as mathematical values.
pub open spec fn pieces(spans: Seq<Span>) -> Seq<Piece> {
    Seq::new(spans.len(), |i: int| spans[i]@)
}

/// The colour of an octet of a class on a line of a tone.
pub open spec fn octet_color(class: DisplayClass, alternate: bool, colors: LineColorConfig)
    -> CssColor {
    colors.class_colors(class).tone(alternate)
}

/// The tokens of `octets[i..]`, each in the colour of its class, with the
/// blanks between their groups.
pub open spec fn token_pieces(
    octets: Seq<(u8, DisplayClass)>,
    i: int,
    alternate: bool,
    layout: Layout,
    colors: LineColorConfig,
) -> Seq<Piece>
    decreases octets.len() - i,
{
    if i < 0 || i >= octets.len() {
        Seq::empty()
    } else {
        seq![
            Piece { text: blank_if(separated(i, layout.spacing())), color: None },
            Piece {
                text: layout.base.token(octets[i].0),
                color: Some(octet_color(octets[i].1, alternate, colors)),
            },
        ] + token_pieces(octets, i + 1, alternate, layout, colors)
    }
}

/// The glyphs of the octets, each in the colour of its class.
pub open spec fn glyph_pieces(
    octets: Seq<(u8, DisplayClass)>,
    alternate: bool,
    colors: LineColorConfig,
) -> Seq<Piece> {
    Seq::new(
        octets.len(),
        |i: int|
            Piece {
                text: seq![glyph_of(octets[i].0)],
                color: Some(octet_color(octets[i].1, alternate, colors)),
            },
    )
}

/// The octets without their classes.
pub open spec fn bare(octets: Seq<(u8, DisplayClass)>) -> Seq<u8> {
    Seq::new(octets.len(), |i: int| octets[i].0)
}

/// The stretches of a line. A plain line is one stretch without a colour. An
/// annotated line is its offset panel in the colour of the panel, its tokens,
/// the blanks behind them, and its glyphs.
pub open spec fn line_pieces(
    offset: int,
    octets: Seq<(u8, DisplayClass)>,
    alternate: bool,
    layout: Layout,
    colors: LineColorConfig,
) -> Seq<Piece> {
    if layout.plain() {
        seq![Piece { text: line_text(bare(octets), offset, layout), color: None }]
    } else {
        (if layout.show_offset {
            seq![
                Piece {
                    text: offset_panel(offset, layout),
                    color: Some(colors.panel_text.tone(alternate)),
                },
            ]
        } else {
            Seq::empty()
        }) + token_pieces(octets, 0, alternate, layout, colors) + seq![
            Piece {
                text: seq![' '] + padding_from(
                    octets.len() as int,
                    layout.chunk() as int,
                    layout.spacing(),
                ),
                color: None,
            },
        ] + (if layout.show_text {
            glyph_pieces(octets, alternate, colors)
        } else {
            Seq::empty()
        })
    }
}

/// The text of one stretch, in its colour where it is lit and has one.
pub open spec fn piece_text(piece: Piece, lit: bool) -> Seq<char> {
    match piece.color {
        Some(color) => if lit {
            painted(piece.text, color)
        } else {
            piece.text
        },
        None => piece.text,
    }
}

/// The text of the stretches, each lit or not as `lit` says.
pub open spec fn lit_text(pieces: Seq<Piece>, lit: Seq<bool>) -> Seq<char>
    decreases pieces.len(),
{
    if pieces.len() == 0 {
        Seq::empty()
    } else {
        lit_text(pieces.drop_last(), lit.drop_last()) + piece_text(pieces.last(), lit.last())
    }
}

/// Whether a choice allows these stretches to be lit: all of them under
/// `Always`, none under `Never`.
pub open spec fn allowed(lit: Seq<bool>, color_choice: ColorChoice) -> bool {
    match color_choice {
        ColorChoice::Never => forall|i: int| 0 <= i < lit.len() ==> !lit[i],
        ColorChoice::Always => forall|i: int| 0 <= i < lit.len() ==> lit[i],
        ColorChoice::Auto => true,
    }
}

/// The text of the stretches without any colour.
pub open spec fn plain_text(pieces: Seq<Piece>) -> Seq<char>
    decreases pieces.len(),
{
    if pieces.len() == 0 {
        Seq::empty()
    } else {
        plain_text(pieces.drop_last()) + pieces.last().text
    }
}

/// The text of two runs of stretches is the text of the first and the text of the second.
pub proof fn lemma_plain_text_of_both(first: Seq<Piece>, second: Seq<Piece>)
    ensures
        plain_text(first + second) == plain_text(first) + plain_text(second),
    decreases second.len(),
{
    if second.len() == 0 {
        assert(first + second =~= first);
        assert(plain_text(first) + plain_text(second) =~= plain_text(first));
    } else {
        lemma_plain_text_of_both(first, second.drop_last());
        assert((first + second).drop_last() =~= first + second.drop_last());
        assert((first + second).last() == second.last());
        assert(plain_text(first) + plain_text(second.drop_last()) + second.last().text
            =~= plain_text(first) + (plain_text(second.drop_last()) + second.last().text));
    }
}

/// The text of one stretch.
pub proof fn lemma_plain_text_of_one(piece: Piece)
    ensures
        plain_text(seq![piece]) == piece.text,
{
    let one = seq![piece];
    assert(one.drop_last() =~= Seq::<Piece>::empty());
    assert(plain_text(one.drop_last()) + piece.text =~= piece.text);
}

/// Without colours the tokens are the tokens of the dump.
pub proof fn lemma_token_pieces_plain(
    octets: Seq<(u8, DisplayClass)>,
    i: int,
    alternate: bool,
    layout: Layout,
    colors: LineColorConfig,
)
    requires
        0 <= i <= octets.len(),
    ensures
        plain_text(token_pieces(octets, i, alternate, layout, colors)) == octets_from(
            bare(octets),
            i,
            layout.base,
            layout.spacing(),
        ),
    decreases octets.len() - i,
{
    if i < octets.len() {
        let blank = Piece { text: blank_if(separated(i, layout.spacing())), color: None };
        let token = Piece {
            text: layout.base.token(octets[i].0),
            color: Some(octet_color(octets[i].1, alternate, colors)),
        };
        let rest = token_pieces(octets, i + 1, alternate, layout, colors);
        lemma_token_pieces_plain(octets, i + 1, alternate, layout, colors);
        lemma_plain_text_of_one(blank);
        lemma_plain_text_of_one(token);
        lemma_plain_text_of_both(seq![blank], seq![token]);
        lemma_plain_text_of_both(seq![blank] + seq![token], rest);
        assert(seq![blank, token] =~= seq![blank] + seq![token]);
    }
}

/// Without colours the glyphs are the text panel of the dump.
pub proof fn lemma_glyph_pieces_plain(
    octets: Seq<(u8, DisplayClass)>,
    alternate: bool,
    colors: LineColorConfig,
)
    ensures
        plain_text(glyph_pieces(octets, alternate, colors)) == glyphs(bare(octets)),
    decreases octets.len(),
{
    let all = glyph_pieces(octets, alternate, colors);
    if octets.len() == 0 {
        assert(glyphs(bare(octets)) =~= Seq::<char>::empty());
    } else {
        lemma_glyph_pieces_plain(octets.drop_last(), alternate, colors);
        assert(all.drop_last() =~= glyph_pieces(octets.drop_last(), alternate, colors));
        assert(glyphs(bare(octets.drop_last())) + all.last().text =~= glyphs(bare(octets)));
    }
}

/// Without colours a painted line is the line of the dump.
pub proof fn lemma_line_pieces_plain(
    offset: int,
    octets: Seq<(u8, DisplayClass)>,
    alternate: bool,
    layout: Layout,
    colors: LineColorConfig,
)
    ensures
        plain_text(line_pieces(offset, octets, alternate, layout, colors)) == line_text(
            bare(octets),
            offset,
            layout,
        ),
{
    let bytes = bare(octets);
    if layout.plain() {
        lemma_plain_text_of_one(Piece { text: line_text(bytes, offset, layout), color: None });
    } else {
        let panel = if layout.show_offset {
            seq![
                Piece {
                    text: offset_panel(offset, layout),
                    color: Some(colors.panel_text.tone(alternate)),
                },
            ]
        } else {
            Seq::<Piece>::empty()
        };
        let tokens = token_pieces(octets, 0, alternate, layout, colors);
        let gap = Piece {
            text: seq![' '] + padding_from(
                octets.len() as int,
                layout.chunk() as int,
                layout.spacing(),
            ),
            color: None,
        };
        let pictures = if layout.show_text {
            glyph_pieces(octets, alternate, colors)
        } else {
            Seq::<Piece>::empty()
        };
        if layout.show_offset {
            lemma_plain_text_of_one(panel[0]);
        }
        lemma_token_pieces_plain(octets, 0, alternate, layout, colors);
        lemma_plain_text_of_one(gap);
        lemma_glyph_pieces_plain(octets, alternate, colors);
        lemma_plain_text_of_both(panel, tokens);
        lemma_plain_text_of_both(panel + tokens, seq![gap]);
        lemma_plain_text_of_both(panel + tokens + seq![gap], pictures);
        assert(octets_from(bytes, 0, layout.base, layout.spacing()) + gap.text =~= octet_panel(
            bytes,
            layout,
        ));
        assert(plain_text(panel) + octets_from(bytes, 0, layout.base, layout.spacing())
            + gap.text + plain_text(pictures) =~= plain_text(panel) + octet_panel(bytes, layout)
            + plain_text(pictures));
    }
}

/// A span of a text in a colour, or in none.
fn span_of(text: String, color: Option<CssColor>) -> (span: Span)
    ensures
        span@ == (Piece { text: text@, color }),
{
    Span { text, color }
}

/// The stretches of a line.
pub fn spans(line: &DumpLine, layout: &LayoutModel, colors: &LineColorConfig) -> (out: Vec<Span>)
    ensures
        pieces(out@) == line_pieces(
            line.start_offset as int,
            line.octets@,
            line.alternate,
            layout@,
            *colors,
        ),
{
    let ghost whole = line_pieces(
        line.start_offset as int,
        line.octets@,
        line.alternate,
        layout@,
        *colors,
    );
    let mut out: Vec<Span> = Vec::new();
    let n = line.octets.len();
    if layout.plain() {
        let mut bytes: Vec<u8> = Vec::new();
        let mut i: usize = 0;
        while i < n
            invariant
                i <= n == line.octets@.len(),
                bytes@ == bare(line.octets@.take(i as int)),
            decreases n - i,
        {
            bytes.push(line.octets[i].0);
            i += 1;
            assert(bytes@ =~= bare(line.octets@.take(i as int)));
        }
        assert(line.octets@.take(n as int) =~= line.octets@);
        out.push(span_of(render_line(bytes.as_slice(), line.start_offset, layout), None));
        assert(pieces(out@) =~= whole);
        return out;
    }
    if layout.show_offset() {
        let mut panel: Vec<char> = Vec::new();
        push_offset(&mut panel, line.start_offset, layout);
        assert(panel@ =~= offset_panel(line.start_offset as int, layout@));
        out.push(span_of(to_text(panel.as_slice()), Some(colors.panel_text.get(line.alternate))));
    }
    let ghost head = pieces(out@);
    let base = layout.base();
    let spacing = layout.spacing();
    let mut i: usize = 0;
    proof {
        assert(head + token_pieces(line.octets@, 0, line.alternate, layout@, *colors) =~= pieces(
            out@,
        ) + token_pieces(line.octets@, 0, line.alternate, layout@, *colors));
    }
    while i < n
        invariant
            i <= n == line.octets@.len(),
            base == layout@.base,
            spacing == layout@.spacing(),
            pieces(out@) + token_pieces(line.octets@, i as int, line.alternate, layout@, *colors)
                == head + token_pieces(line.octets@, 0, line.alternate, layout@, *colors),
        decreases n - i,
    {
        let ghost before = pieces(out@);
        let octet = line.octets[i].0;
        let class = line.octets[i].1;
        let mut blank = String::new();
        if spacing > 0 && i > 0 && i % spacing == 0 {
            push_char(&mut blank, ' ');
        }
        assert(blank@ =~= blank_if(separated(i as int, spacing as int)));
        out.push(span_of(blank, None));
        out.push(span_of(base.value(octet), Some(colors.for_class(class).get(line.alternate))));
        proof {
            let step = seq![
                Piece { text: blank_if(separated(i as int, layout@.spacing())), color: None },
                Piece {
                    text: layout@.base.token(octet),
                    color: Some(octet_color(class, line.alternate, *colors)),
                },
            ];
            let rest = token_pieces(line.octets@, i + 1, line.alternate, layout@, *colors);
            assert(pieces(out@) =~= before + step);
            assert((before + step) + rest =~= before + (step + rest));
        }
        i += 1;
    }
    let ghost tokens = token_pieces(line.octets@, 0, line.alternate, layout@, *colors);
    assert(pieces(out@) =~= head + tokens) by {
        assert(token_pieces(line.octets@, n as int, line.alternate, layout@, *colors)
            =~= Seq::<Piece>::empty());
    }
    let mut behind: Vec<char> = Vec::new();
    behind.push(' ');
    push_padding(&mut behind, n, layout.chunk(), spacing);
    assert(behind@ =~= seq![' '] + padding_from(
        n as int,
        layout@.chunk() as int,
        layout@.spacing(),
    ));
    let ghost gap = Piece {
        text: seq![' '] + padding_from(n as int, layout@.chunk() as int, layout@.spacing()),
        color: None,
    };
    out.push(span_of(to_text(behind.as_slice()), None));
    let ghost middle = pieces(out@);
    let ghost pictures = glyph_pieces(line.octets@, line.alternate, *colors);
    proof {
        assert(middle =~= head + tokens + seq![gap]);
        assert(middle + pictures.take(0) =~= middle);
        assert(middle + Seq::<Piece>::empty() =~= middle);
    }
    if layout.show_text() {
        let mut k: usize = 0;
        while k < n
            invariant
                k <= n == line.octets@.len(),
                pieces(out@) == middle + glyph_pieces(
                    line.octets@,
                    line.alternate,
                    *colors,
                ).take(k as int),
            decreases n - k,
        {
            let ghost before = pieces(out@);
            let octet = line.octets[k].0;
            let class = line.octets[k].1;
            let mut picture = String::new();
            push_char(&mut picture, glyph(octet));
            assert(picture@ =~= seq![glyph_of(octet)]);
            out.push(span_of(picture, Some(colors.for_class(class).get(line.alternate))));
            proof {
                let all = glyph_pieces(line.octets@, line.alternate, *colors);
                assert(pieces(out@) =~= before.push(all[k as int]));
                assert(all.take(k + 1) =~= all.take(k as int).push(all[k as int]));
                assert(middle + all.take(k as int).push(all[k as int]) =~= (middle + all.take(
                    k as int,
                )).push(all[k as int]));
            }
            k += 1;
        }
        assert(glyph_pieces(line.octets@, line.alternate, *colors).take(n as int)
            =~= glyph_pieces(line.octets@, line.alternate, *colors));
    }
    assert(pieces(out@) =~= whole);
    out
}

/// Writes the stretches out as one text, each in its colour as the choice says.
/// Under `Auto` the environment decides for each stretch whether it is lit.
pub fn assemble(spans: &[Span], color_choice: ColorChoice) -> (text: String)
    ensures
        exists|lit: Seq<bool>|
            lit.len() == spans@.len() && allowed(lit, color_choice) && text@ == lit_text(
                pieces(spans@),
                lit,
            ),
        color_choice == ColorChoice::Never ==> text@ == plain_text(pieces(spans@)),
{
    let ghost all = pieces(spans@);
    let ghost mut lit: Seq<bool> = Seq::empty();
    let mut text = String::new();
    let mut i: usize = 0;
    while i < spans.len()
        invariant
            i <= spans@.len(),
            all == pieces(spans@),
            lit.len() == i,
            allowed(lit, color_choice),
            text@ == lit_text(all.take(i as int), lit),
            color_choice == ColorChoice::Never ==> text@ == plain_text(all.take(i as int)),
        decreases spans@.len() - i,
    {
        let ghost before = text@;
        let ghost piece = all[i as int];
        let part = match spans[i].color {
            Some(color) => colorize(spans[i].text.as_str(), color, color_choice),
            None => spans[i].text.clone(),
        };
        text.append(part.as_str());
        proof {
            let on = match color_choice {
                ColorChoice::Always => true,
                ColorChoice::Never => false,
                ColorChoice::Auto => part@ != piece.text,
            };
            assert(part@ == piece_text(piece, on));
            let longer = lit.push(on);
            let now = all.take(i + 1);
            assert(now.drop_last() =~= all.take(i as int));
            assert(longer.drop_last() =~= lit);
            assert(now.last() == piece);
            assert(longer.last() == on);
            lit = longer;
        }
        i += 1;
    }
    assert(all.take(spans@.len() as int) =~= all);
    text
}

/// A line of a dump with its colours.
pub fn paint_line(
    line: &DumpLine,
    layout: &LayoutModel,
    colors: &LineColorConfig,
    color_choice: ColorChoice,
) -> (text: String)
    ensures
        exists|lit: Seq<bool>|
            lit.len() == line_pieces(
                line.start_offset as int,
                line.octets@,
                line.alternate,
                layout@,
                *colors,
            ).len() && allowed(lit, color_choice) && text@ == lit_text(
                line_pieces(
                    line.start_offset as int,
                    line.octets@,
                    line.alternate,
                    layout@,
                    *colors,
                ),
                lit,
            ),
        color_choice == ColorChoice::Never ==> text@ == line_text(
            bare(line.octets@),
            line.start_offset as int,
            layout@,
        ),
{
    proof {
        lemma_line_pieces_plain(
            line.start_offset as int,
            line.octets@,
            line.alternate,
            layout@,
            *colors,
        );
    }
    let parts = spans(line, layout, colors);
    assemble(parts.as_slice(), color_choice)
}

} // verus!
