//! What can go wrong: in a layout, in a line of dump text, in a reconstruction.

use vstd::prelude::*;

verus! {

/// A layout that cannot be rendered.
#[derive(Clone, Copy, Debug, PartialEq, Eq, Structural)]
pub enum ConfigError {
    /// The octet panel is grouped, and the group size is zero.
    ZeroGrouping,
    /// The offset to show for the first octet is too far from its position in
    /// the stream for the difference to be kept.
    BiasOutOfRange,
}

/// Why a line of dump text gave no bytes. The line is skipped; the lines after it are still read.
#[derive(Clone, Copy, Debug, PartialEq, Eq, Structural)]
pub enum ParseError {
    /// A token is too short, or holds a character that is no digit of the base, or
    /// writes a number above 255.
    MalformedToken,
    /// The line holds more tokens than the layout has columns, or its last octet
    /// would lie beyond the largest offset.
    MalformedLine,
    /// The layout shows offsets, and the line does not begin with one.
    MissingOffset,
}

/// Why a sink could not hand out a contiguous reconstruction.
#[derive(Clone, Copy, Debug, PartialEq, Eq, Structural)]
pub enum SinkError {
    /// An offset between the lowest and the highest written one was never written,
    /// and no fill value was given.
    IncompleteRange,
}

impl ConfigError {
    /// What is wrong, in words.
    pub fn message(&self) -> (text: &'static str)
        ensures
            text@ == match self {
                ConfigError::ZeroGrouping => "the group size must not be zero"@,
                ConfigError::BiasOutOfRange => "the display offset is too far from the position"@,
            },
    {
        match self {
            ConfigError::ZeroGrouping => "the group size must not be zero",
            ConfigError::BiasOutOfRange => "the display offset is too far from the position",
        }
    }
}

impl ParseError {
    /// What is wrong, in words.
    pub fn message(&self) -> (text: &'static str)
        ensures
            text@ == match self {
                ParseError::MalformedToken => "malformed token"@,
                ParseError::MalformedLine => "malformed line"@,
                ParseError::MissingOffset => "missing offset"@,
            },
    {
        match self {
            ParseError::MalformedToken => "malformed token",
            ParseError::MalformedLine => "malformed line",
            ParseError::MissingOffset => "missing offset",
        }
    }
}

impl SinkError {
    /// What is wrong, in words.
    pub fn message(&self) -> (text: &'static str)
        ensures
            text@ == match self {
                SinkError::IncompleteRange => "incomplete range"@,
            },
    {
        match self {
            SinkError::IncompleteRange => "incomplete range",
        }
    }
}

} // verus!
