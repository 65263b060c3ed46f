use hexxer::config::{parse_generate, Config, Format, GenerateArgs, Language};
use hexxer::generate::{
    array_body, array_footer, array_header, array_line, array_name, array_size, decimal_text,
    generate_array,
};
use hexxer::source::{plan_seek, Discard, SeekError, SeekPlan};

fn config(language: Language, name: &str, capitalize: bool, vector: bool, cols: Option<u16>, length: usize) -> Config {
    let mut config = Config::new();
    parse_generate(
        GenerateArgs {
            infile: Some("in.bin".to_string()),
            cols,
            seek: None,
            length: Some(length),
            language,
            name: Some(name.to_string()),
            capitalize,
            vector,
        },
        &mut config,
    );
    config
}

#[test]
fn decimal_numbers() {
    assert_eq!(decimal_text(0), "0");
    assert_eq!(decimal_text(7), "7");
    assert_eq!(decimal_text(10), "10");
    assert_eq!(decimal_text(4096), "4096");
    assert_eq!(decimal_text(u64::MAX), "18446744073709551615");
}

#[test]
fn array_lines() {
    assert_eq!(array_line(&[0xde, 0xad, 0xbe], Format::Hexadecimal), "  0xde, 0xad, 0xbe,");
    assert_eq!(array_line(&[7], Format::Hexadecimal), "  0x07,");
    assert_eq!(array_line(&[], Format::Hexadecimal), "  ,");
    assert_eq!(array_line(&[8, 255], Format::Octal), "  0x010, 0x377,");
}

#[test]
fn array_headers() {
    assert_eq!(
        array_header(Language::C, false, "blob", 4),
        "#include <stdint.h>\n\nuint8_t blob[] = {"
    );
    assert_eq!(
        array_header(Language::Cpp, true, "blob", 4),
        "#include <vector>\n#include <cstdint>\n\nstd::vector<uint8_t> blob = {"
    );
    assert_eq!(
        array_header(Language::Cpp, false, "blob", 1234),
        "#include <array>\n#include <cstdint>\n\nstd::array<uint8_t, 1234> blob = {"
    );
    assert_eq!(array_header(Language::Rust, true, "blob", 4), "pub let blob = vec![");
    assert_eq!(array_header(Language::Rust, false, "blob", 4), "pub const blob: [u8; 4] = [");
    assert_eq!(array_header(Language::Python, false, "blob", 4), "blob = [");
}

#[test]
fn array_footers() {
    assert_eq!(array_footer(Language::C), "};");
    assert_eq!(array_footer(Language::Cpp), "};");
    assert_eq!(array_footer(Language::Python), "]");
    assert_eq!(array_footer(Language::Rust), "];");
}

#[test]
fn array_names() {
    assert_eq!(array_name(&config(Language::C, "blob", false, false, None, 0)), "blob");
    assert_eq!(array_name(&config(Language::C, "blob", true, false, None, 0)), "BLOB");
    assert_eq!(array_name(&config(Language::C, "stra\u{df}e", true, false, None, 0)), "STRASSE");
}

#[test]
fn array_sizes() {
    assert_eq!(array_size(100, 0, usize::MAX), 100);
    assert_eq!(array_size(100, 10, usize::MAX), 90);
    assert_eq!(array_size(100, -10, usize::MAX), 90);
    assert_eq!(array_size(100, 10, 50), 50);
    assert_eq!(array_size(100, 100, 50), 0);
    assert_eq!(array_size(100, 0, 0), 0);
}

#[test]
fn array_bodies() {
    let c = config(Language::C, "blob", false, false, Some(3), usize::MAX);
    assert_eq!(
        array_body(&[1, 2, 3, 4, 5, 6, 7], &c),
        vec!["  0x01, 0x02, 0x03,", "  0x04, 0x05, 0x06,", "  0x07,"]
    );
    let limited = config(Language::C, "blob", false, false, Some(3), 4);
    assert_eq!(array_body(&[1, 2, 3, 4, 5, 6, 7], &limited), vec!["  0x01, 0x02, 0x03,", "  0x04,"]);
    let twelve = config(Language::C, "blob", false, false, Some(0), usize::MAX);
    let bytes: Vec<u8> = (0u8..13).collect();
    let body = array_body(&bytes, &twelve);
    assert_eq!(body.len(), 2);
    assert_eq!(body[1], "  0x0c,");
    let nothing = config(Language::C, "blob", false, false, None, 0);
    assert!(array_body(&bytes, &nothing).is_empty());
}

#[test]
fn whole_arrays() {
    let rust = config(Language::Rust, "blob", true, false, Some(2), usize::MAX);
    assert_eq!(
        generate_array(&[1, 2, 3], &rust, Some(3)),
        vec!["pub const BLOB: [u8; 3] = [", "  0x01, 0x02,", "  0x03,", "];"]
    );
    assert_eq!(generate_array(&[1, 2, 3], &rust, None), vec!["  0x01, 0x02,", "  0x03,"]);
    let python = config(Language::Python, "blob", false, false, Some(4), usize::MAX);
    assert_eq!(generate_array(&[], &python, Some(0)), vec!["blob = [", "]"]);
}

#[test]
fn seek_plans() {
    assert_eq!(plan_seek(true, 0), Ok(SeekPlan::Start(0)));
    assert_eq!(plan_seek(true, 16), Ok(SeekPlan::Start(16)));
    assert_eq!(plan_seek(true, -16), Ok(SeekPlan::End(-16)));
    assert_eq!(plan_seek(true, i64::MIN), Ok(SeekPlan::End(i64::MIN)));
    assert_eq!(plan_seek(false, 0), Ok(SeekPlan::Stay));
    assert_eq!(plan_seek(false, 16), Ok(SeekPlan::Skip(16)));
    assert_eq!(plan_seek(false, -1), Err(SeekError::NegativeOnStream));
    assert_eq!(
        SeekError::NegativeOnStream.message(),
        "Seeking to negative offsets is not supported when reading from stdin"
    );
}

#[test]
fn discarding_counts_down() {
    let mut discard = Discard::new(5000);
    assert_eq!(discard.wanted(), 4096);
    assert!(discard.took(4096));
    assert_eq!(discard.remaining(), 904);
    assert_eq!(discard.wanted(), 904);
    assert!(discard.took(900));
    assert_eq!(discard.wanted(), 4);
    assert!(!discard.took(4));
    assert_eq!(discard.remaining(), 0);
    let mut ended = Discard::new(10);
    assert!(!ended.took(0));
    assert_eq!(ended.remaining(), 10);
    let mut none = Discard::new(0);
    assert_eq!(none.wanted(), 0);
    assert!(!none.took(0));
}
