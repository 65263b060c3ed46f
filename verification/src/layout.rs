//! The layout of a dump: how many octets a line holds, how they are grouped
//! and written, and which panels stand beside them.

use crate::config::Format;
use crate::error::ConfigError;
use vstd::prelude::*;

verus! {

/// Octets per line of an annotated dump where none is asked for.
pub const DEFAULT_COLUMNS: u16 = 16;

/// Octets per line of a plain dump where none is asked for.
pub const DEFAULT_PLAIN_COLUMNS: u16 = 30;

/// Octets per chunk where zero columns are asked for.
pub const FALLBACK_COLUMNS: u16 = 32;

/// Octets per group where none is asked for.
pub const DEFAULT_GROUPING: u16 = 2;

/// The least number of digits of the offset panel.
pub const OFFSET_WIDTH: usize = 8;

/// A layout as a mathematical value.
pub struct Layout {
    /// Octets per line; zero stands for one unbounded line in a plain dump and
    /// for `FALLBACK_COLUMNS` in an annotated one.
    pub columns: nat,
    /// Octets per group; a blank precedes every group of a line but the first.
    pub grouping: nat,
    /// The base of the octet tokens.
    pub base: Format,
    /// Whether lines begin with their offset.
    pub show_offset: bool,
    /// Whether lines end with the text panel.
    pub show_text: bool,
    /// Whether offsets are decimal rather than hexadecimal.
    pub decimal_offset: bool,
    /// What is added to a stream position to give the offset that is shown.
    pub display_bias: int,
}

impl Layout {
    /// A plain dump shows neither offsets nor text: its lines are bare tokens.
    pub open spec fn plain(self) -> bool {
        !self.show_offset && !self.show_text
    }

    /// An annotated dump groups its octets, so its group size is not zero.
    pub open spec fn wf(self) -> bool {
        self.plain() || self.grouping > 0
    }

    /// The most octets that one line holds.
    pub open spec fn chunk(self) -> nat {
        if self.columns > 0 {
            self.columns
        } else {
            FALLBACK_COLUMNS as nat
        }
    }

    /// Whether the whole dump is one line without a limit on its tokens.
    pub open spec fn unbounded(self) -> bool {
        self.plain() && self.columns == 0
    }

    /// The group size that decides where blanks stand: none in a plain dump.
    pub open spec fn spacing(self) -> int {
        if self.plain() {
            0
        } else {
            self.grouping as int
        }
    }

    /// The radix of the offset panel.
    pub open spec fn offset_radix(self) -> int {
        if self.decimal_offset {
            10
        } else {
            16
        }
    }

    /// The offset shown for a stream position.
    pub open spec fn display_offset(self, position: int) -> int {
        position + self.display_bias
    }

    /// The stream position that an offset is shown for.
    pub open spec fn stream_position(self, shown: int) -> int {
        shown - self.display_bias
    }
}

/// A validated layout. It is made once and never changes.
#[derive(Clone, Copy, Debug)]
pub struct LayoutModel {
    columns: u16,
    grouping: u16,
    base: Format,
    show_offset: bool,
    show_text: bool,
    decimal_offset: bool,
    display_bias: i64,
}

impl View for LayoutModel {
    type V = Layout;

    closed spec fn view(&self) -> Layout {
        Layout {
            columns: self.columns as nat,
            grouping: self.grouping as nat,
            base: self.base,
            show_offset: self.show_offset,
            show_text: self.show_text,
            decimal_offset: self.decimal_offset,
            display_bias: self.display_bias as int,
        }
    }
}

impl LayoutModel {
    #[verifier::type_invariant]
    closed spec fn valid(self) -> bool {
        self@.wf()
    }

    /// Makes a layout. A group size of zero is refused unless the dump is plain,
    /// where nothing is grouped.
    pub fn new(
        columns: u16,
        grouping: u16,
        base: Format,
        show_offset: bool,
        show_text: bool,
        decimal_offset: bool,
        display_bias: i64,
    ) -> (r: Result<LayoutModel, ConfigError>)
        ensures
            r is Err <==> grouping == 0 && (show_offset || show_text),
            r is Err ==> r == Err::<LayoutModel, ConfigError>(ConfigError::ZeroGrouping),
            r is Ok ==> r->Ok_0@ == (Layout {
                columns: columns as nat,
                grouping: grouping as nat,
                base,
                show_offset,
                show_text,
                decimal_offset,
                display_bias: display_bias as int,
            }),
    {
        if grouping == 0 && (show_offset || show_text) {
            Err(ConfigError::ZeroGrouping)
        } else {
            Ok(
                LayoutModel {
                    columns,
                    grouping,
                    base,
                    show_offset,
                    show_text,
                    decimal_offset,
                    display_bias,
                },
            )
        }
    }

    /// Makes a layout from what a caller may have left open: an annotated dump has
    /// `DEFAULT_COLUMNS` columns and a plain one `DEFAULT_PLAIN_COLUMNS`, and groups
    /// hold `DEFAULT_GROUPING` octets.
    pub fn with_defaults(
        columns: Option<u16>,
        grouping: Option<u16>,
        base: Format,
        show_offset: bool,
        show_text: bool,
        decimal_offset: bool,
        display_bias: i64,
    ) -> (r: Result<LayoutModel, ConfigError>)
        ensures
            r is Err <==> grouping == Some(0u16) && (show_offset || show_text),
            r is Err ==> r == Err::<LayoutModel, ConfigError>(ConfigError::ZeroGrouping),
            r is Ok ==> r->Ok_0@ == (Layout {
                columns: match columns {
                    Some(c) => c as nat,
                    None => if show_offset || show_text {
                        DEFAULT_COLUMNS as nat
                    } else {
                        DEFAULT_PLAIN_COLUMNS as nat
                    },
                },
                grouping: match grouping {
                    Some(g) => g as nat,
                    None => DEFAULT_GROUPING as nat,
                },
                base,
                show_offset,
                show_text,
                decimal_offset,
                display_bias: display_bias as int,
            }),
    {
        let plain = !show_offset && !show_text;
        let columns = match columns {
            Some(c) => c,
            None => if plain {
                DEFAULT_PLAIN_COLUMNS
            } else {
                DEFAULT_COLUMNS
            },
        };
        let grouping = match grouping {
            Some(g) => g,
            None => DEFAULT_GROUPING,
        };
        LayoutModel::new(
            columns,
            grouping,
            base,
            show_offset,
            show_text,
            decimal_offset,
            display_bias,
        )
    }

    /// Octets per line, as given.
    pub fn columns(&self) -> (c: u16)
        ensures
            c == self@.columns,
    {
        self.columns
    }

    /// Octets per group.
    pub fn grouping(&self) -> (g: u16)
        ensures
            g == self@.grouping,
    {
        self.grouping
    }

    /// The base of the octet tokens.
    pub fn base(&self) -> (b: Format)
        ensures
            b == self@.base,
    {
        self.base
    }

    /// Whether lines begin with their offset.
    pub fn show_offset(&self) -> (b: bool)
        ensures
            b == self@.show_offset,
    {
        self.show_offset
    }

    /// Whether lines end with the text panel.
    pub fn show_text(&self) -> (b: bool)
        ensures
            b == self@.show_text,
    {
        self.show_text
    }

    /// Whether offsets are decimal.
    pub fn decimal_offset(&self) -> (b: bool)
        ensures
            b == self@.decimal_offset,
    {
        self.decimal_offset
    }

    /// What is added to a stream position to give the offset that is shown.
    pub fn display_bias(&self) -> (b: i64)
        ensures
            b == self@.display_bias,
    {
        self.display_bias
    }

    /// Whether the dump is plain.
    pub fn plain(&self) -> (b: bool)
        ensures
            b == self@.plain(),
    {
        !self.show_offset && !self.show_text
    }

    /// The most octets that one line holds.
    pub fn chunk(&self) -> (c: usize)
        ensures
            c == self@.chunk(),
            1 <= c <= u16::MAX,
    {
        if self.columns > 0 {
            self.columns as usize
        } else {
            FALLBACK_COLUMNS as usize
        }
    }

    /// Whether the whole dump is one line without a limit on its tokens.
    pub fn unbounded(&self) -> (b: bool)
        ensures
            b == self@.unbounded(),
    {
        self.plain() && self.columns == 0
    }

    /// The group size that decides where blanks stand.
    pub fn spacing(&self) -> (g: usize)
        ensures
            g == self@.spacing(),
            self@.wf(),
    {
        proof {
            use_type_invariant(self);
        }
        if self.plain() {
            0
        } else {
            self.grouping as usize
        }
    }

    /// The radix of the offset panel.
    pub fn offset_radix(&self) -> (r: u8)
        ensures
            r == self@.offset_radix(),
            2 <= r <= 16,
    {
        if self.decimal_offset {
            10
        } else {
            16
        }
    }

    /// The offset shown for a stream position, where it is an offset at all:
    /// not negative and not beyond the largest one.
    pub fn display_offset(&self, position: u64) -> (shown: Option<u64>)
        ensures
            shown == if 0 <= self@.display_offset(position as int) <= u64::MAX {
                Some(self@.display_offset(position as int) as u64)
            } else {
                None
            },
    {
        let sum: i128 = position as i128 + self.display_bias as i128;
        if 0 <= sum && sum <= u64::MAX as i128 {
            Some(sum as u64)
        } else {
            None
        }
    }

    /// The stream position that an offset is shown for, where there is one.
    pub fn stream_position(&self, shown: u64) -> (position: Option<u64>)
        ensures
            position == if 0 <= self@.stream_position(shown as int) <= u64::MAX {
                Some(self@.stream_position(shown as int) as u64)
            } else {
                None
            },
    {
        let difference: i128 = shown as i128 - self.display_bias as i128;
        if 0 <= difference && difference <= u64::MAX as i128 {
            Some(difference as u64)
        } else {
            None
        }
    }
}

} // verus!
