//! When to colour, and with which colours.

use crate::classify::DisplayClass;
use vstd::prelude::*;

verus! {

/// When the output is coloured.
#[derive(Debug, Copy, Clone, PartialEq, Eq, Structural)]
pub enum ColorChoice {
    /// Where the terminal takes colours.
    Auto,
    /// Nowhere.
    Never,
    /// Everywhere.
    Always,
}

/// The colours of the palette, by their CSS names.
#[derive(Debug, Copy, Clone, PartialEq, Eq, Structural)]
pub enum CssColor {
    LightBlue,
    CadetBlue,
    LightSteelBlue,
    LightSlateGray,
    DimGray,
    DarkGray,
    LawnGreen,
    GreenYellow,
    LightCoral,
    IndianRed,
}

/// The two tones of one colour: lines take them in turn.
#[derive(Debug, Copy, Clone, PartialEq, Eq, Structural)]
pub struct LineColors {
    normal: CssColor,
    alternate: CssColor,
}

impl LineColors {
    /// The tone for a line.
    pub closed spec fn tone(self, is_alternate: bool) -> CssColor {
        if is_alternate {
            self.alternate
        } else {
            self.normal
        }
    }

    /// The colours with the tones `normal` and `alternate`.
    pub fn of(normal: CssColor, alternate: CssColor) -> (colors: LineColors)
        ensures
            colors.tone(false) == normal,
            colors.tone(true) == alternate,
    {
        LineColors { normal, alternate }
    }

    /// The tone for a line.
    pub fn get(&self, is_alternate: bool) -> (color: CssColor)
        ensures
            color == self.tone(is_alternate),
    {
        if is_alternate {
            self.alternate
        } else {
            self.normal
        }
    }
}

/// The colours of a dump.
#[derive(Debug, Copy, Clone, PartialEq, Eq, Structural)]
pub struct LineColorConfig {
    /// The offset panel.
    pub panel_text: LineColors,
    /// Printable octets.
    pub dump_text: LineColors,
    /// The zero octet.
    pub nul_char: LineColors,
    /// Control characters and the space.
    pub control_char: LineColors,
    /// Octets that are no ASCII.
    pub undefined_char: LineColors,
}

impl LineColorConfig {
    /// Whether these are the colours of a dump that was given none: blues for
    /// the offsets and the printable octets, greys for the zero octet, greens for
    /// control characters, reds for what is no ASCII.
    pub open spec fn is_standard(self) -> bool {
        &&& self.panel_text.tone(false) == CssColor::LightBlue
        &&& self.panel_text.tone(true) == CssColor::CadetBlue
        &&& self.dump_text.tone(false) == CssColor::LightSteelBlue
        &&& self.dump_text.tone(true) == CssColor::LightSlateGray
        &&& self.nul_char.tone(false) == CssColor::DimGray
        &&& self.nul_char.tone(true) == CssColor::DarkGray
        &&& self.control_char.tone(false) == CssColor::LawnGreen
        &&& self.control_char.tone(true) == CssColor::GreenYellow
        &&& self.undefined_char.tone(false) == CssColor::LightCoral
        &&& self.undefined_char.tone(true) == CssColor::IndianRed
    }

    /// The colours of the octets of a class.
    pub open spec fn class_colors(self, class: DisplayClass) -> LineColors {
        match class {
            DisplayClass::Printable => self.dump_text,
            DisplayClass::Nul => self.nul_char,
            DisplayClass::Control => self.control_char,
            DisplayClass::Undefined => self.undefined_char,
        }
    }

    /// The colours of a dump that was given none.
    pub fn new() -> (colors: LineColorConfig)
        ensures
            colors.is_standard(),
    {
        LineColorConfig {
            panel_text: LineColors::of(CssColor::LightBlue, CssColor::CadetBlue),
            dump_text: LineColors::of(CssColor::LightSteelBlue, CssColor::LightSlateGray),
            nul_char: LineColors::of(CssColor::DimGray, CssColor::DarkGray),
            control_char: LineColors::of(CssColor::LawnGreen, CssColor::GreenYellow),
            undefined_char: LineColors::of(CssColor::LightCoral, CssColor::IndianRed),
        }
    }

    /// The colours of the octets of a class.
    pub fn for_class(&self, class: DisplayClass) -> (colors: LineColors)
        ensures
            colors == self.class_colors(class),
    {
        match class {
            DisplayClass::Printable => self.dump_text,
            DisplayClass::Nul => self.nul_char,
            DisplayClass::Control => self.control_char,
            DisplayClass::Undefined => self.undefined_char,
        }
    }
}

impl Default for LineColorConfig {
    fn default() -> (colors: LineColorConfig)
        ensures
            colors.is_standard(),
    {
        LineColorConfig::new()
    }
}

} // verus!
