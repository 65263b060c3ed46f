//! What a run is asked to do: the numeric base of the octet tokens, the
//! language of a generated array, the subcommand.

pub mod color_choice;

use crate::config::color_choice::{ColorChoice, LineColorConfig};
use crate::error::{ConfigError, ParseError};
use crate::layout::{LayoutModel, DEFAULT_COLUMNS, DEFAULT_GROUPING, DEFAULT_PLAIN_COLUMNS};
use crate::numeric::{
    all_digits, capacity, digits, lemma_digits_are_digits, lemma_digits_len,
    lemma_value_of_digits, lemma_value_of_nonnegative, push_digits, read_number, value_of,
};
use crate::text::{to_chars, to_text};
use vstd::prelude::*;
use vstd::string::StringExecFns;

verus! {

/// The language of a generated array.
#[derive(Debug, Copy, Clone, PartialEq, Eq, PartialOrd, Ord, Structural)]
pub enum Language {
    C,
    Cpp,
    Rust,
    Python,
}

impl Language {
    /// The name by which the language is asked for.
    pub fn name(&self) -> (name: &'static str)
        ensures
            name@ == match self {
                Language::C => "c"@,
                Language::Cpp => "cpp"@,
                Language::Rust => "rust"@,
                Language::Python => "python"@,
            },
    {
        match self {
            Language::C => "c",
            Language::Cpp => "cpp",
            Language::Rust => "rust",
            Language::Python => "python",
        }
    }
}

/// What a run does.
#[derive(Debug, Copy, Clone, PartialEq, Eq, Structural)]
pub enum SubCommand {
    /// Shows a file as a dump.
    Dump,
    /// Writes a file as an array in source code.
    Generate,
    /// Reads a dump back into the bytes that it shows.
    Reverse,
}

/// The base in which octets are written.
#[derive(Debug, Copy, Clone, PartialEq, Eq, Structural)]
pub enum Format {
    /// Two lower-case hexadecimal digits.
    Hexadecimal,
    /// Three octal digits.
    Octal,
    /// Three decimal digits.
    Decimal,
    /// Eight binary digits.
    Binary,
}

impl Format {
    /// The number of characters of every token.
    pub open spec fn width(self) -> nat {
        match self {
            Format::Hexadecimal => 2,
            Format::Octal => 3,
            Format::Decimal => 3,
            Format::Binary => 8,
        }
    }

    /// The radix of the tokens.
    pub open spec fn radix(self) -> int {
        match self {
            Format::Hexadecimal => 16,
            Format::Octal => 8,
            Format::Decimal => 10,
            Format::Binary => 2,
        }
    }

    /// The token that writes `val`.
    pub open spec fn token(self, val: u8) -> Seq<char> {
        digits(val as int, self.radix(), self.width())
    }

    /// The octet that `token` writes: the token has the width of the base, holds
    /// only digits of the base, and writes a number up to 255.
    pub open spec fn parse_spec(self, token: Seq<char>) -> Result<u8, ParseError> {
        if token.len() == self.width() && all_digits(token, self.radix()) && value_of(
            token,
            self.radix(),
        ) <= 255 {
            Ok(value_of(token, self.radix()) as u8)
        } else {
            Err(ParseError::MalformedToken)
        }
    }

    /// The number of characters of every token.
    pub fn token_width(&self) -> (w: usize)
        ensures
            w == self.width(),
    {
        match self {
            Format::Hexadecimal => 2,
            Format::Octal => 3,
            Format::Decimal => 3,
            Format::Binary => 8,
        }
    }

    /// The radix of the tokens.
    pub fn token_radix(&self) -> (r: u8)
        ensures
            r == self.radix(),
            2 <= r <= 16,
    {
        match self {
            Format::Hexadecimal => 16,
            Format::Octal => 8,
            Format::Decimal => 10,
            Format::Binary => 2,
        }
    }

    /// Appends the token of `val` to `out`.
    pub fn push_token(&self, out: &mut Vec<char>, val: u8)
        ensures
            final(out)@ == old(out)@ + self.token(val),
    {
        push_digits(out, val as u64, self.token_radix(), self.token_width());
    }

    /// Writes `val` as a token of fixed width.
    pub fn value(&self, val: u8) -> (s: String)
        ensures
            s@ == self.token(val),
            s@.len() == self.width(),
    {
        let mut out: Vec<char> = Vec::new();
        self.push_token(&mut out, val);
        proof {
            lemma_digits_len(val as int, self.radix(), self.width());
            assert(out@ =~= self.token(val));
        }
        to_text(out.as_slice())
    }

    /// Reads `text[from..to]` as one token.
    pub fn read_token(&self, text: &[char], from: usize, to: usize) -> (r: Result<u8, ParseError>)
        requires
            from <= to <= text.len(),
        ensures
            r == self.parse_spec(text@.subrange(from as int, to as int)),
    {
        if to - from != self.token_width() {
            return Err(ParseError::MalformedToken);
        }
        proof {
            lemma_value_of_nonnegative(text@.subrange(from as int, to as int), self.radix());
        }
        match read_number(text, from, to, self.token_radix()) {
            Some(v) => {
                if v <= 255 {
                    Ok(v as u8)
                } else {
                    Err(ParseError::MalformedToken)
                }
            },
            None => Err(ParseError::MalformedToken),
        }
    }

    /// Reads a token back into the octet that it writes.
    pub fn parse(&self, token: &str) -> (r: Result<u8, ParseError>)
        ensures
            r == self.parse_spec(token@),
            r is Ok ==> token@.len() == self.width(),
    {
        let chars = to_chars(token);
        assert(chars@.subrange(0, chars@.len() as int) =~= token@);
        self.read_token(chars.as_slice(), 0, chars.len())
    }
}

/// Every token has the width of its base.
pub proof fn lemma_token_width(base: Format, val: u8)
    ensures
        base.token(val).len() == base.width(),
{
    lemma_digits_len(val as int, base.radix(), base.width());
}

/// A string of any other length than the width of the base is no token.
pub proof fn lemma_other_width_rejected(base: Format, token: Seq<char>)
    requires
        token.len() != base.width(),
    ensures
        base.parse_spec(token) == Err::<u8, ParseError>(ParseError::MalformedToken),
{
}

/// Every octet fits the tokens of every base.
pub proof fn lemma_octet_fits(base: Format, val: u8)
    ensures
        val < capacity(base.radix(), base.width()),
{
    reveal_with_fuel(capacity, 9);
}

/// Reading the token of an octet gives the octet back.
pub proof fn lemma_token_round_trip(base: Format, val: u8)
    ensures
        base.parse_spec(base.token(val)) == Ok::<u8, ParseError>(val),
{
    lemma_octet_fits(base, val);
    lemma_digits_len(val as int, base.radix(), base.width());
    lemma_digits_are_digits(val as int, base.radix(), base.width());
    lemma_value_of_digits(val as int, base.radix(), base.width());
}

/// Octets per line of a generated array where none is asked for.
pub const DEFAULT_ARRAY_COLUMNS: u16 = 12;

/// Everything a run was asked for.
#[derive(Debug)]
pub struct Config {
    /// When the output is coloured.
    pub color_choice: ColorChoice,
    /// The colours of a dump.
    pub colors: LineColorConfig,
    /// Octets per line.
    pub cols: u16,
    /// Whether offsets are decimal.
    pub decimal_offset: bool,
    /// The base of the octet tokens.
    pub format: Format,
    /// Octets per group.
    pub grouping: u16,
    /// The file to read; the standard input where there is none.
    pub input: Option<String>,
    /// The language of a generated array.
    pub language: Language,
    /// The most octets to read.
    pub length: usize,
    /// The offset that is shown for the first octet.
    pub offset: usize,
    /// Whether the dump is bare tokens.
    pub plain: bool,
    /// Where reading begins: from the start of the input, or from its end if negative.
    pub seek: i64,
    /// What the run does.
    pub subcommand: SubCommand,
    /// Whether lines begin with their offset.
    pub show_offset: bool,
    /// Whether lines end with the text panel.
    pub show_text: bool,
    /// Whether a generated array may grow.
    pub vector: bool,
    /// Whether the name of a generated array is written in capitals.
    pub capitalize: bool,
    /// The name of a generated array.
    pub var_name: String,
}

/// What was asked of a dump, as far as it was said.
#[derive(Debug)]
pub struct DumpArgs {
    /// The file to read.
    pub infile: Option<String>,
    /// Whether the dump is bare tokens.
    pub plain: bool,
    /// Octets per line.
    pub cols: Option<u16>,
    /// The base of the octet tokens.
    pub format: Format,
    /// Octets per group.
    pub grouping: Option<u16>,
    /// Where reading begins.
    pub seek: Option<i64>,
    /// The offset that is shown for the first octet.
    pub display_offset: Option<usize>,
    /// The most octets to read.
    pub length: Option<usize>,
    /// Whether the offset panel is left out.
    pub no_offset: bool,
    /// Whether the text panel is left out.
    pub no_text: bool,
    /// Whether offsets are decimal.
    pub decimal_offset: bool,
    /// When the output is coloured.
    pub color: ColorChoice,
}

/// What was asked of a generated array, as far as it was said.
#[derive(Debug)]
pub struct GenerateArgs {
    /// The file to read.
    pub infile: Option<String>,
    /// Octets per line.
    pub cols: Option<u16>,
    /// Where reading begins.
    pub seek: Option<i64>,
    /// The most octets to read.
    pub length: Option<usize>,
    /// The language of the array.
    pub language: Language,
    /// The name of the array.
    pub name: Option<String>,
    /// Whether the name is written in capitals.
    pub capitalize: bool,
    /// Whether the array may grow.
    pub vector: bool,
}

/// What was asked of a reversal, as far as it was said.
#[derive(Debug)]
pub struct ReverseArgs {
    /// The file to read.
    pub infile: Option<String>,
    /// Whether the dump is bare tokens.
    pub plain: bool,
    /// The most octets to write.
    pub length: Option<usize>,
}

/// Takes over what was asked of a dump. What was not said is: 16 columns, or
/// 30 in a plain dump; groups of two; no seek; offsets from zero; no limit.
pub fn parse_dump(args: DumpArgs, config: &mut Config)
    ensures
        final(config).subcommand == SubCommand::Dump,
        final(config).input == args.infile,
        final(config).plain == args.plain,
        final(config).cols == match args.cols {
            Some(cols) => cols,
            None => if args.plain {
                DEFAULT_PLAIN_COLUMNS
            } else {
                DEFAULT_COLUMNS
            },
        },
        final(config).format == args.format,
        final(config).grouping == match args.grouping {
            Some(grouping) => grouping,
            None => DEFAULT_GROUPING,
        },
        final(config).seek == match args.seek {
            Some(seek) => seek,
            None => 0,
        },
        final(config).offset == match args.display_offset {
            Some(offset) => offset,
            None => 0,
        },
        final(config).length == match args.length {
            Some(length) => length,
            None => usize::MAX,
        },
        final(config).show_offset == !args.no_offset,
        final(config).show_text == !args.no_text,
        final(config).decimal_offset == args.decimal_offset,
        final(config).color_choice == args.color,
        final(config).colors == old(config).colors,
        final(config).language == old(config).language,
        final(config).vector == old(config).vector,
        final(config).capitalize == old(config).capitalize,
        final(config).var_name == old(config).var_name,
{
    config.subcommand = SubCommand::Dump;
    config.input = args.infile;
    config.plain = args.plain;
    config.cols = match args.cols {
        Some(cols) => cols,
        None => if args.plain {
            DEFAULT_PLAIN_COLUMNS
        } else {
            DEFAULT_COLUMNS
        },
    };
    config.format = args.format;
    config.grouping = match args.grouping {
        Some(grouping) => grouping,
        None => DEFAULT_GROUPING,
    };
    config.seek = match args.seek {
        Some(seek) => seek,
        None => 0,
    };
    config.offset = match args.display_offset {
        Some(offset) => offset,
        None => 0,
    };
    config.length = match args.length {
        Some(length) => length,
        None => usize::MAX,
    };
    config.show_offset = !args.no_offset;
    config.show_text = !args.no_text;
    config.decimal_offset = args.decimal_offset;
    config.color_choice = args.color;
}

/// The name of a generated array where none is asked for.
pub open spec fn default_array_name() -> Seq<char> {
    "data"@
}

/// Takes over what was asked of a generated array. What was not said is: 12
/// columns; no seek; a length of zero; the name `data`.
pub fn parse_generate(args: GenerateArgs, config: &mut Config)
    ensures
        final(config).var_name@ == match args.name {
            Some(name) => name@,
            None => default_array_name(),
        },
        final(config).capitalize == args.capitalize,
        final(config).vector == args.vector,
        final(config).subcommand == SubCommand::Generate,
        final(config).input == args.infile,
        final(config).cols == match args.cols {
            Some(cols) => cols,
            None => DEFAULT_ARRAY_COLUMNS,
        },
        final(config).seek == match args.seek {
            Some(seek) => seek,
            None => 0,
        },
        final(config).length == match args.length {
            Some(length) => length,
            None => 0,
        },
        final(config).language == args.language,
        final(config).format == old(config).format,
        final(config).color_choice == old(config).color_choice,
        final(config).colors == old(config).colors,
        final(config).decimal_offset == old(config).decimal_offset,
        final(config).grouping == old(config).grouping,
        final(config).offset == old(config).offset,
        final(config).plain == old(config).plain,
        final(config).show_offset == old(config).show_offset,
        final(config).show_text == old(config).show_text,
{
    config.var_name = match args.name {
        Some(name) => name,
        None => String::from_str("data"),
    };
    config.capitalize = args.capitalize;
    config.vector = args.vector;
    config.subcommand = SubCommand::Generate;
    config.input = args.infile;
    config.cols = match args.cols {
        Some(cols) => cols,
        None => DEFAULT_ARRAY_COLUMNS,
    };
    config.seek = match args.seek {
        Some(seek) => seek,
        None => 0,
    };
    config.length = match args.length {
        Some(length) => length,
        None => 0,
    };
    config.language = args.language;
}

/// Takes over what was asked of a reversal. What was not said is: a length of zero.
pub fn parse_reverse(args: ReverseArgs, config: &mut Config)
    ensures
        final(config).subcommand == SubCommand::Reverse,
        final(config).input == args.infile,
        final(config).plain == args.plain,
        final(config).length == match args.length {
            Some(length) => length,
            None => 0,
        },
        final(config).cols == old(config).cols,
        final(config).grouping == old(config).grouping,
        final(config).format == old(config).format,
        final(config).show_offset == old(config).show_offset,
        final(config).show_text == old(config).show_text,
        final(config).decimal_offset == old(config).decimal_offset,
        final(config).offset == old(config).offset,
        final(config).seek == old(config).seek,
        final(config).color_choice == old(config).color_choice,
        final(config).colors == old(config).colors,
        final(config).language == old(config).language,
        final(config).vector == old(config).vector,
        final(config).capitalize == old(config).capitalize,
        final(config).var_name == old(config).var_name,
{
    config.subcommand = SubCommand::Reverse;
    config.input = args.infile;
    config.plain = args.plain;
    config.length = match args.length {
        Some(length) => length,
        None => 0,
    };
}

impl Config {
    /// What a run does before anything is asked of it: a dump of the standard
    /// input without a limit, with nothing shown beside the tokens.
    pub fn new() -> (config: Config)
        ensures
            config.cols == 0,
            config.color_choice == ColorChoice::Auto,
            config.colors.is_standard(),
            !config.decimal_offset,
            config.format == Format::Hexadecimal,
            config.grouping == 0,
            config.input is None,
            config.language == Language::C,
            config.length == usize::MAX,
            !config.plain,
            config.seek == 0,
            config.subcommand == SubCommand::Dump,
            config.offset == 0,
            !config.show_offset,
            !config.show_text,
            !config.vector,
            !config.capitalize,
            config.var_name@ == Seq::<char>::empty(),
    {
        Config {
            cols: 0,
            color_choice: ColorChoice::Auto,
            colors: LineColorConfig::new(),
            decimal_offset: false,
            format: Format::Hexadecimal,
            grouping: 0,
            input: None,
            language: Language::C,
            length: usize::MAX,
            plain: false,
            seek: 0,
            subcommand: SubCommand::Dump,
            offset: 0,
            show_offset: false,
            show_text: false,
            vector: false,
            capitalize: false,
            var_name: String::new(),
        }
    }

    /// The bias that shows `self.offset` for the stream position `position`.
    pub open spec fn bias(&self, position: u64) -> int {
        self.offset - position
    }

    /// The layout of the dump, where reading begins at the stream position
    /// `position`. A plain dump has no panels, whatever was asked of them. The
    /// bias of the layout is such that the first octet is shown at `self.offset`.
    pub fn layout(&self, position: u64) -> (r: Result<LayoutModel, ConfigError>)
        ensures
            match r {
                Ok(layout) => {
                    &&& layout@.columns == self.cols
                    &&& layout@.grouping == self.grouping
                    &&& layout@.base == self.format
                    &&& layout@.show_offset == (!self.plain && self.show_offset)
                    &&& layout@.show_text == (!self.plain && self.show_text)
                    &&& layout@.decimal_offset == self.decimal_offset
                    &&& layout@.display_bias == self.bias(position)
                    &&& layout@.display_offset(position as int) == self.offset
                    &&& layout@.wf()
                },
                Err(ConfigError::BiasOutOfRange) => !(i64::MIN <= self.bias(position) <= i64::MAX),
                Err(ConfigError::ZeroGrouping) => i64::MIN <= self.bias(position) <= i64::MAX
                    && self.grouping == 0 && !self.plain && (self.show_offset || self.show_text),
            },
    {
        let bias: i128 = self.offset as i128 - position as i128;
        if bias < i64::MIN as i128 || bias > i64::MAX as i128 {
            return Err(ConfigError::BiasOutOfRange);
        }
        let r = LayoutModel::new(
            self.cols,
            self.grouping,
            self.format,
            !self.plain && self.show_offset,
            !self.plain && self.show_text,
            self.decimal_offset,
            bias as i64,
        );
        match r {
            Ok(layout) => {
                let _spacing = layout.spacing();
                Ok(layout)
            },
            Err(e) => Err(e),
        }
    }
}

} // verus!
