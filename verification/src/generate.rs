//! Bytes as an array in source code.

use crate::config::{Config, Format, Language, DEFAULT_ARRAY_COLUMNS};
use crate::formatter::{rows, window, Row};
use crate::numeric::{count_digits, digit_count, digits, push_digits};
use crate::parser::texts;
use crate::text::to_text;
use vstd::prelude::*;
use vstd::slice::slice_subrange;
use vstd::string::StringExecFns;

verus! {

/// What `str::to_uppercase` of the standard library gives for a text.
pub uninterp spec fn uppercased(text: Seq<char>) -> Seq<char>;

/// `str::to_uppercase` of the standard library: the text with each character
/// replaced by its upper-case equivalent.
#[verifier::external_body]
pub(crate) fn to_uppercase(text: &str) -> (upper: String)
    ensures
        upper@ == uppercased(text@),
{
    text.to_uppercase()
}

/// A number in decimal, without leading zeros.
pub open spec fn decimal(value: int) -> Seq<char> {
    digits(value, 10, digit_count(value, 10))
}

/// The name of the array as it is written.
pub open spec fn written_name(name: Seq<char>, capitalize: bool) -> Seq<char> {
    if capitalize {
        uppercased(name)
    } else {
        name
    }
}

/// The lines that open the array, without the line end of the last.
pub open spec fn header_text(language: Language, vector: bool, name: Seq<char>, size: int) -> Seq<
    char,
> {
    match language {
        Language::C => "#include <stdint.h>\n\nuint8_t "@ + name + "[] = {"@,
        Language::Cpp => if vector {
            "#include <vector>\n#include <cstdint>\n\nstd::vector<uint8_t> "@ + name + " = {"@
        } else {
            "#include <array>\n#include <cstdint>\n\nstd::array<uint8_t, "@ + decimal(size)
                + "> "@ + name + " = {"@
        },
        Language::Rust => if vector {
            "pub let "@ + name + " = vec!["@
        } else {
            "pub const "@ + name + ": [u8; "@ + decimal(size) + "] = ["@
        },
        Language::Python => name + " = ["@,
    }
}

/// The line that closes the array.
pub open spec fn footer_text(language: Language) -> Seq<char> {
    match language {
        Language::C | Language::Cpp => "};"@,
        Language::Python => "]"@,
        Language::Rust => "];"@,
    }
}

/// The items of `bytes[i..]`: each octet as `0x` and its token, with a comma and
/// a blank between two.
pub open spec fn items_from(bytes: Seq<u8>, i: int, format: Format) -> Seq<char>
    decreases bytes.len() - i,
{
    if i < 0 || i >= bytes.len() {
        Seq::empty()
    } else {
        (if i > 0 {
            ", "@
        } else {
            Seq::empty()
        }) + "0x"@ + format.token(bytes[i]) + items_from(bytes, i + 1, format)
    }
}

/// One line of the array: two blanks, the items, and a comma.
pub open spec fn array_line_text(bytes: Seq<u8>, format: Format) -> Seq<char> {
    "  "@ + items_from(bytes, 0, format) + ","@
}

/// How many octets the array is said to hold: what the file holds behind the
/// seek, up to the length.
pub open spec fn array_size_of(file_len: u64, seek: i64, length: usize) -> int {
    let behind = file_len - (if seek < 0 {
        -seek
    } else {
        seek as int
    });
    if behind < length {
        behind
    } else {
        length as int
    }
}

/// Octets per line of the array.
pub open spec fn array_columns(cols: u16) -> int {
    if cols > 0 {
        cols as int
    } else {
        DEFAULT_ARRAY_COLUMNS as int
    }
}

/// The lines of the body of the array.
pub open spec fn body_texts(bytes: Seq<u8>, columns: int, format: Format) -> Seq<Seq<char>> {
    let all = rows(bytes, 0, true, columns);
    Seq::new(all.len(), |j: int| array_line_text(all[j].octets, format))
}

/// A number in decimal, without leading zeros.
pub fn decimal_text(value: u64) -> (text: String)
    ensures
        text@ == decimal(value as int),
{
    let mut out: Vec<char> = Vec::new();
    push_digits(&mut out, value, 10, count_digits(value, 10));
    assert(out@ =~= decimal(value as int));
    to_text(out.as_slice())
}

/// How many octets the array is said to hold.
pub fn array_size(file_len: u64, seek: i64, length: usize) -> (size: u64)
    requires
        (if seek < 0 {
            -seek
        } else {
            seek as int
        }) <= file_len,
    ensures
        size == array_size_of(file_len, seek, length),
{
    let distance: u64 = if seek < 0 {
        (-(seek as i128)) as u64
    } else {
        seek as u64
    };
    let behind = file_len - distance;
    if behind < length as u64 {
        behind
    } else {
        length as u64
    }
}

/// The lines that open the array.
pub fn array_header(language: Language, vector: bool, name: &str, size: u64) -> (text: String)
    ensures
        text@ == header_text(language, vector, name@, size as int),
{
    let mut text = String::new();
    match language {
        Language::C => {
            text.append("#include <stdint.h>\n\nuint8_t ");
            text.append(name);
            text.append("[] = {");
        },
        Language::Cpp => {
            if vector {
                text.append("#include <vector>\n#include <cstdint>\n\nstd::vector<uint8_t> ");
            } else {
                text.append("#include <array>\n#include <cstdint>\n\nstd::array<uint8_t, ");
                text.append(decimal_text(size).as_str());
                text.append("> ");
            }
            text.append(name);
            text.append(" = {");
        },
        Language::Rust => {
            if vector {
                text.append("pub let ");
                text.append(name);
                text.append(" = vec![");
            } else {
                text.append("pub const ");
                text.append(name);
                text.append(": [u8; ");
                text.append(decimal_text(size).as_str());
                text.append("] = [");
            }
        },
        Language::Python => {
            text.append(name);
            text.append(" = [");
        },
    }
    assert(text@ =~= header_text(language, vector, name@, size as int));
    text
}

/// The line that closes the array.
pub fn array_footer(language: Language) -> (text: &'static str)
    ensures
        text@ == footer_text(language),
{
    match language {
        Language::C | Language::Cpp => "};",
        Language::Python => "]",
        Language::Rust => "];",
    }
}

/// One line of the array.
pub fn array_line(bytes: &[u8], format: Format) -> (text: String)
    ensures
        text@ == array_line_text(bytes@, format),
{
    let mut text = String::from_str("  ");
    let ghost whole = text@ + items_from(bytes@, 0, format);
    let mut i: usize = 0;
    while i < bytes.len()
        invariant
            i <= bytes@.len(),
            text@ + items_from(bytes@, i as int, format) == whole,
        decreases bytes@.len() - i,
    {
        let ghost before = text@;
        if i > 0 {
            text.append(", ");
        }
        text.append("0x");
        text.append(format.value(bytes[i]).as_str());
        proof {
            let piece = (if i > 0 {
                ", "@
            } else {
                Seq::empty()
            }) + "0x"@ + format.token(bytes@[i as int]);
            let rest = items_from(bytes@, i + 1, format);
            assert(text@ =~= before + piece);
            assert((before + piece) + rest =~= before + (piece + rest));
        }
        i += 1;
    }
    assert(text@ =~= text@ + items_from(bytes@, i as int, format));
    text.append(",");
    text
}

/// The name of the array as it is written.
pub fn array_name(config: &Config) -> (name: String)
    ensures
        name@ == written_name(config.var_name@, config.capitalize),
{
    if config.capitalize {
        to_uppercase(config.var_name.as_str())
    } else {
        config.var_name.clone()
    }
}

/// The lines of the body of the array for the first `config.length` octets of `bytes`.
pub fn array_body(bytes: &[u8], config: &Config) -> (lines: Vec<String>)
    ensures
        texts(lines@) == body_texts(
            window(bytes@, config.length as int),
            array_columns(config.cols),
            config.format,
        ),
{
    let columns: usize = if config.cols > 0 {
        config.cols as usize
    } else {
        DEFAULT_ARRAY_COLUMNS as usize
    };
    let ghost shown = window(bytes@, config.length as int);
    let ghost all = rows(shown, 0, true, columns as int);
    let end: usize = if config.length < bytes.len() {
        config.length
    } else {
        bytes.len()
    };
    let mut lines: Vec<String> = Vec::new();
    let mut pos: usize = 0;
    let ghost mut done: Seq<Row> = Seq::empty();
    let ghost mut alternate: bool = true;
    proof {
        assert(shown.skip(0) =~= shown);
        assert(done + all =~= all);
    }
    while pos < end
        invariant
            pos <= end == shown.len() <= bytes@.len(),
            shown == window(bytes@, config.length as int),
            columns == array_columns(config.cols),
            lines@.len() == done.len(),
            forall|j: int|
                0 <= j < lines@.len() ==> (#[trigger] lines@[j])@ == array_line_text(
                    done[j].octets,
                    config.format,
                ),
            done + rows(shown.skip(pos as int), pos as int, alternate, columns as int) == all,
        decreases end - pos,
    {
        let left = end - pos;
        let take = if columns < left {
            columns
        } else {
            left
        };
        let chunk = slice_subrange(bytes, pos, pos + take);
        proof {
            let rest = shown.skip(pos as int);
            let row = Row { start_offset: pos as int, octets: rest.take(take as int), alternate };
            let tail = rows(rest.skip(take as int), pos + take, !alternate, columns as int);
            assert(chunk@ =~= rest.take(take as int));
            assert(rest.skip(take as int) =~= shown.skip(pos + take));
            assert(rows(rest, pos as int, alternate, columns as int) == seq![row] + tail);
            assert(done.push(row) + tail =~= done + (seq![row] + tail));
            done = done.push(row);
            alternate = !alternate;
        }
        lines.push(array_line(chunk, config.format));
        pos = pos + take;
    }
    proof {
        assert(shown.skip(pos as int).len() == 0);
        assert(done + Seq::<Row>::empty() =~= done);
        assert(texts(lines@) =~= body_texts(shown, columns as int, config.format));
    }
    lines
}

/// The lines of the array. The lines that open and close it are written where
/// `size` says how many octets it holds.
pub fn generate_array(bytes: &[u8], config: &Config, size: Option<u64>) -> (lines: Vec<String>)
    ensures
        texts(lines@) == (match size {
            Some(size) => seq![
                header_text(
                    config.language,
                    config.vector,
                    written_name(config.var_name@, config.capitalize),
                    size as int,
                ),
            ],
            None => Seq::empty(),
        }) + body_texts(
            window(bytes@, config.length as int),
            array_columns(config.cols),
            config.format,
        ) + (match size {
            Some(_) => seq![footer_text(config.language)],
            None => Seq::empty(),
        }),
{
    let mut lines: Vec<String> = Vec::new();
    if let Some(size) = size {
        let name = array_name(config);
        lines.push(array_header(config.language, config.vector, name.as_str(), size));
    }
    let ghost head = texts(lines@);
    let mut body = array_body(bytes, config);
    let ghost middle = texts(body@);
    lines.append(&mut body);
    assert(texts(lines@) =~= head + middle);
    if size.is_some() {
        lines.push(String::from_str(array_footer(config.language)));
    }
    assert(texts(lines@) =~= head + middle + (match size {
        Some(_) => seq![footer_text(config.language)],
        None => Seq::empty(),
    }));
    lines
}

} // verus!
