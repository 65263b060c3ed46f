//! Display classes of octets and the glyph each one shows in the text panel.

use vstd::prelude::*;

verus! {

/// How an octet is presented: the class selects the colour of its token and
/// decides which glyph stands for it in the text panel.
#[derive(Clone, Copy, Debug, PartialEq, Eq, Structural)]
pub enum DisplayClass {
    /// An ASCII graphic character, `0x21..=0x7e`.
    Printable,
    /// The zero octet.
    Nul,
    /// Another ASCII control character (`0x01..=0x1f`, `0x7f`) or the space `0x20`.
    Control,
    /// Everything else: the octets `0x80..=0xff`.
    Undefined,
}

/// The first code point of the Unicode block of control pictures.
pub const CONTROL_PICTURES: u32 = 0x2400;

/// The glyph that stands for an octet without a picture of its own.
pub const UNDEFINED_GLYPH: char = '.';

/// The Unicode replacement character.
pub const REPLACEMENT_GLYPH: char = '\u{fffd}';

/// The class of an octet.
pub open spec fn class_of(byte: u8) -> DisplayClass {
    if 0x21 <= byte <= 0x7e {
        DisplayClass::Printable
    } else if byte == 0 {
        DisplayClass::Nul
    } else if byte <= 0x20 || byte == 0x7f {
        DisplayClass::Control
    } else {
        DisplayClass::Undefined
    }
}

/// Whether a number is a Unicode scalar value.
pub open spec fn is_scalar_value(code: int) -> bool {
    0 <= code <= 0xd7ff || 0xe000 <= code <= 0x10ffff
}

/// The character shown for an octet in the text panel.
pub open spec fn glyph_of(byte: u8) -> char {
    match class_of(byte) {
        DisplayClass::Printable => byte as char,
        DisplayClass::Nul | DisplayClass::Control => if is_scalar_value(CONTROL_PICTURES + byte) {
            (CONTROL_PICTURES + byte) as char
        } else {
            REPLACEMENT_GLYPH
        },
        DisplayClass::Undefined => UNDEFINED_GLYPH,
    }
}

/// Classifies an octet.
pub fn classify(byte: u8) -> (class: DisplayClass)
    ensures
        class == class_of(byte),
{
    if 0x21 <= byte && byte <= 0x7e {
        DisplayClass::Printable
    } else if byte == 0 {
        DisplayClass::Nul
    } else if byte <= 0x20 || byte == 0x7f {
        DisplayClass::Control
    } else {
        DisplayClass::Undefined
    }
}

/// `char::from_u32` of the standard library: `Some` of the character with the code
/// `code` where `code` is a Unicode scalar value, `None` where it is not.
pub assume_specification[ char::from_u32 ](code: u32) -> (r: Option<char>)
    ensures
        r == if is_scalar_value(code as int) {
            Some(code as char)
        } else {
            None::<char>
        },
;

/// The character that stands for an octet in the text panel.
pub fn glyph(byte: u8) -> (c: char)
    ensures
        c == glyph_of(byte),
{
    match classify(byte) {
        DisplayClass::Printable => byte as char,
        DisplayClass::Nul | DisplayClass::Control => {
            let picture: u32 = CONTROL_PICTURES + byte as u32;
            match char::from_u32(picture) {
                Some(c) => c,
                None => REPLACEMENT_GLYPH,
            }
        },
        DisplayClass::Undefined => UNDEFINED_GLYPH,
    }
}

/// The octets of the class `Printable`.
pub open spec fn is_printable(byte: u8) -> bool {
    0x21 <= byte <= 0x7e
}

/// The octets of the class `Nul`.
pub open spec fn is_nul(byte: u8) -> bool {
    byte == 0
}

/// The octets of the class `Control`.
pub open spec fn is_control(byte: u8) -> bool {
    0x01 <= byte <= 0x20 || byte == 0x7f
}

/// The octets of the class `Undefined`.
pub open spec fn is_undefined(byte: u8) -> bool {
    byte >= 0x80
}

/// The four classes partition the octets: every octet lies in exactly one of
/// them, which is its class.
pub proof fn lemma_classes_partition(byte: u8)
    ensures
        is_printable(byte) <==> class_of(byte) == DisplayClass::Printable,
        is_nul(byte) <==> class_of(byte) == DisplayClass::Nul,
        is_control(byte) <==> class_of(byte) == DisplayClass::Control,
        is_undefined(byte) <==> class_of(byte) == DisplayClass::Undefined,
        (if is_printable(byte) { 1int } else { 0 }) + (if is_nul(byte) { 1int } else { 0 }) + (
        if is_control(byte) { 1int } else { 0 }) + (if is_undefined(byte) { 1int } else { 0 })
            == 1,
{
}

/// None of the four classes is empty.
pub proof fn lemma_classes_inhabited()
    ensures
        class_of(0x41) == DisplayClass::Printable,
        class_of(0x00) == DisplayClass::Nul,
        class_of(0x20) == DisplayClass::Control,
        class_of(0x80) == DisplayClass::Undefined,
{
}

/// No glyph is a blank or a line break, so the text panel never looks like the
/// boundary that precedes it and never ends its line.
pub proof fn lemma_glyph_is_visible(byte: u8)
    ensures
        glyph_of(byte) != ' ',
        glyph_of(byte) != '\n',
{
}

} // verus!
