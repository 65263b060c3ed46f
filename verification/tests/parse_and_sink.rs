use hexxer::codec::{collect, decode, encode};
use hexxer::config::Format;
use hexxer::error::{ParseError, SinkError};
use hexxer::layout::LayoutModel;
use hexxer::parser::{parse, parse_line, Rejection};
use hexxer::sink::{SparseByteSink, SparseWrite};

fn layout(columns: u16, grouping: u16, base: Format, offset: bool, text: bool) -> LayoutModel {
    LayoutModel::new(columns, grouping, base, offset, text, false, 0).unwrap()
}

fn write(offset: u64, value: u8) -> SparseWrite {
    SparseWrite { offset, value }
}

#[test]
fn line_with_offset_and_text_panel() {
    let l = layout(16, 2, Format::Hexadecimal, true, true);
    let writes = parse_line("00000010: 4142 4344 4546 4748 494a 4b4c 4d4e 4f50 ABCDEFGHIJKLMNOP", &l, 0).unwrap();
    assert_eq!(writes.len(), 16);
    assert_eq!(writes[0], write(0x10, 0x41));
    assert_eq!(writes[15], write(0x1f, 0x50));
}

#[test]
fn text_panel_is_not_read() {
    let l = layout(4, 2, Format::Hexadecimal, true, true);
    let writes = parse_line("00000000: 4142 4344 0000", &l, 0).unwrap();
    assert_eq!(writes, vec![write(0, 0x41), write(1, 0x42), write(2, 0x43), write(3, 0x44)]);
    let short = parse_line("00000000: 4142   ffff", &l, 0).unwrap();
    assert_eq!(short, vec![write(0, 0x41), write(1, 0x42)]);
}

#[test]
fn short_line_ends_at_two_blanks() {
    let l = layout(16, 4, Format::Hexadecimal, true, true);
    let line = format!("00000020: 48656c6c 6f{}Hello", " ".repeat(25));
    let writes = parse_line(&line, &l, 0).unwrap();
    assert_eq!(
        writes,
        vec![write(0x20, 0x48), write(0x21, 0x65), write(0x22, 0x6c), write(0x23, 0x6c), write(0x24, 0x6f)]
    );
}

#[test]
fn line_without_text_panel_is_read_to_its_end() {
    let l = layout(8, 2, Format::Hexadecimal, true, false);
    let writes = parse_line("00000000: 0102   0304  05", &l, 0).unwrap();
    assert_eq!(writes.len(), 5);
    assert_eq!(writes[4], write(4, 5));
}

#[test]
fn offset_in_decimal() {
    let l = LayoutModel::new(16, 2, Format::Hexadecimal, true, false, true, 0).unwrap();
    assert_eq!(parse_line("00000255: ff", &l, 0).unwrap(), vec![write(255, 0xff)]);
    assert_eq!(parse_line("0000025a: ff", &l, 0), Err(ParseError::MissingOffset));
    let hex = layout(16, 2, Format::Hexadecimal, true, false);
    assert_eq!(parse_line("0000025a: ff", &hex, 0).unwrap(), vec![write(0x25a, 0xff)]);
    assert_eq!(parse_line("25A: ff", &hex, 0).unwrap(), vec![write(0x25a, 0xff)]);
}

#[test]
fn other_bases() {
    let octal = layout(4, 1, Format::Octal, true, true);
    assert_eq!(
        parse_line("00000000: 101 102 377    AB.", &octal, 0).unwrap(),
        vec![write(0, 0o101), write(1, 0o102), write(2, 0xff)]
    );
    let decimal = layout(4, 2, Format::Decimal, true, false);
    assert_eq!(
        parse_line("00000000: 065066 255", &decimal, 0).unwrap(),
        vec![write(0, 65), write(1, 66), write(2, 255)]
    );
    let binary = layout(2, 1, Format::Binary, true, true);
    assert_eq!(
        parse_line("00000007: 01000001 01000010 AB", &binary, 0).unwrap(),
        vec![write(7, 0x41), write(8, 0x42)]
    );
}

#[test]
fn missing_offset() {
    let l = layout(16, 2, Format::Hexadecimal, true, true);
    assert_eq!(parse_line("", &l, 0), Err(ParseError::MissingOffset));
    assert_eq!(parse_line("4142 4344", &l, 0), Err(ParseError::MissingOffset));
    assert_eq!(parse_line(": 4142", &l, 0), Err(ParseError::MissingOffset));
    assert_eq!(parse_line("0000zz10: 4142", &l, 0), Err(ParseError::MissingOffset));
    assert_eq!(parse_line("00000010:4142", &l, 0), Err(ParseError::MissingOffset));
    assert_eq!(parse_line("00 000010: 4142", &l, 0), Err(ParseError::MissingOffset));
    assert_eq!(parse_line("1ffffffffffffffff: 41", &l, 0), Err(ParseError::MissingOffset));
}

#[test]
fn malformed_token() {
    let l = layout(16, 2, Format::Hexadecimal, true, true);
    assert_eq!(parse_line("00000000: 414", &l, 0), Err(ParseError::MalformedToken));
    assert_eq!(parse_line("00000000: 4142 4 44", &l, 0), Err(ParseError::MalformedToken));
    assert_eq!(parse_line("00000000: 41xx", &l, 0), Err(ParseError::MalformedToken));
    assert_eq!(parse_line("00000000: 4142 text", &l, 0), Err(ParseError::MalformedToken));
    let decimal = layout(16, 2, Format::Decimal, true, true);
    assert_eq!(parse_line("00000000: 065256", &decimal, 0), Err(ParseError::MalformedToken));
}

#[test]
fn malformed_line() {
    let open = layout(2, 2, Format::Hexadecimal, true, false);
    assert_eq!(parse_line("00000000: 0001 02", &open, 0), Err(ParseError::MalformedLine));
    assert_eq!(parse_line("00000000: 000102", &open, 0), Err(ParseError::MalformedLine));
    let with_text = layout(2, 2, Format::Hexadecimal, true, true);
    assert_eq!(parse_line("00000000: 000102", &with_text, 0), Err(ParseError::MalformedLine));
    assert_eq!(parse_line("00000000: 0001 02", &with_text, 0).unwrap().len(), 2);
    assert_eq!(parse_line("ffffffffffffffff: 41", &open, 0), Err(ParseError::MalformedLine));
    assert_eq!(
        parse_line("fffffffffffffffe: 41", &open, 0).unwrap(),
        vec![write(u64::MAX - 1, 0x41)]
    );
}

#[test]
fn lines_without_offsets_continue_at_the_cursor() {
    let l = layout(4, 2, Format::Hexadecimal, false, true);
    assert_eq!(parse_line("4142 4344 ABCD", &l, 100).unwrap()[0], write(100, 0x41));
    let lines = vec!["4142 4344 ABCD".to_string(), "45       E".to_string()];
    let outcome = parse(&lines, &l);
    assert!(outcome.rejected.is_empty());
    assert_eq!(
        outcome.writes,
        vec![write(0, 0x41), write(1, 0x42), write(2, 0x43), write(3, 0x44), write(4, 0x45)]
    );
}

#[test]
fn plain_lines() {
    let p = LayoutModel::new(0, 0, Format::Hexadecimal, false, false, false, 0).unwrap();
    let long: String = "ab".repeat(1000);
    assert_eq!(parse_line(&long, &p, 0).unwrap().len(), 1000);
    let bounded = LayoutModel::new(3, 0, Format::Hexadecimal, false, false, false, 0).unwrap();
    assert_eq!(parse_line("010203", &bounded, 0).unwrap().len(), 3);
    assert_eq!(parse_line("01020304", &bounded, 0), Err(ParseError::MalformedLine));
    let lines = vec!["010203".to_string(), "0405".to_string()];
    assert_eq!(decode(&lines, &bounded), Ok(vec![1, 2, 3, 4, 5]));
}

#[test]
fn malformed_line_is_skipped_and_the_rest_is_read() {
    let l = layout(4, 2, Format::Hexadecimal, true, true);
    let lines = vec![
        "00000000: 4142 4344 ABCD".to_string(),
        "00000004: 454 4748 EFGH".to_string(),
        "00000008: 494a 4b4c IJKL".to_string(),
    ];
    let outcome = parse(&lines, &l);
    assert_eq!(outcome.rejected, vec![Rejection { line: 1, reason: ParseError::MalformedToken }]);
    assert_eq!(
        outcome.writes,
        vec![
            write(0, 0x41), write(1, 0x42), write(2, 0x43), write(3, 0x44),
            write(8, 0x49), write(9, 0x4a), write(10, 0x4b), write(11, 0x4c),
        ]
    );
    let good = vec![lines[0].clone(), lines[2].clone()];
    assert_eq!(parse(&good, &l).writes, outcome.writes);
    assert_eq!(decode(&lines, &l), Err(SinkError::IncompleteRange));
}

#[test]
fn every_kind_of_rejection_is_reported_by_line() {
    let l = layout(2, 2, Format::Hexadecimal, true, false);
    let lines = vec![
        "no offset".to_string(),
        "00000000: 4142".to_string(),
        "00000002: 4".to_string(),
        "00000002: 4344 45".to_string(),
        "00000002: 4344".to_string(),
    ];
    let outcome = parse(&lines, &l);
    assert_eq!(
        outcome.rejected,
        vec![
            Rejection { line: 0, reason: ParseError::MissingOffset },
            Rejection { line: 2, reason: ParseError::MalformedToken },
            Rejection { line: 3, reason: ParseError::MalformedLine },
        ]
    );
    assert_eq!(decode(&lines, &l), Ok(vec![0x41, 0x42, 0x43, 0x44]));
}

#[test]
fn sink_keeps_the_last_write() {
    let mut sink = SparseByteSink::new();
    assert!(sink.is_empty());
    assert_eq!(sink.bounds(), None);
    sink.record(write(5, 1));
    sink.record(write(3, 2));
    sink.record(write(5, 9));
    sink.record(write(4, 7));
    assert_eq!(sink.len(), 3);
    assert!(!sink.is_empty());
    assert_eq!(sink.bounds(), Some((3, 5)));
    assert_eq!(sink.materialize_sparse(), vec![(3, 2), (4, 7), (5, 9)]);
    assert_eq!(sink.materialize(None), Ok(vec![2, 7, 9]));
    assert_eq!(sink.materialize(Some(0xee)), Ok(vec![2, 7, 9]));
}

#[test]
fn empty_sink_materializes_to_nothing() {
    let sink = SparseByteSink::new();
    assert_eq!(sink.materialize(None), Ok(vec![]));
    assert_eq!(sink.materialize(Some(0)), Ok(vec![]));
    assert_eq!(sink.materialize_sparse(), vec![]);
    assert_eq!(sink.len(), 0);
}

#[test]
fn sink_orders_what_comes_out_of_order() {
    let mut sink = SparseByteSink::new();
    for k in [9u64, 2, 7, 0, 5, 3, 8, 1, 6, 4] {
        sink.record(write(k, k as u8 * 2));
    }
    let expected: Vec<(u64, u8)> = (0u64..10).map(|k| (k, k as u8 * 2)).collect();
    assert_eq!(sink.materialize_sparse(), expected);
    assert_eq!(sink.materialize(None), Ok((0u8..10).map(|k| k * 2).collect::<Vec<u8>>()));
}

#[test]
fn gaps_take_the_fill_value_or_fail() {
    let mut sink = SparseByteSink::new();
    sink.record(write(10, 1));
    sink.record(write(13, 2));
    assert_eq!(sink.materialize(Some(0xff)), Ok(vec![1, 0xff, 0xff, 2]));
    assert_eq!(sink.materialize(Some(0)), Ok(vec![1, 0, 0, 2]));
    assert_eq!(sink.materialize(None), Err(SinkError::IncompleteRange));
    sink.record(write(11, 3));
    assert_eq!(sink.materialize(None), Err(SinkError::IncompleteRange));
    sink.record(write(12, 4));
    assert_eq!(sink.materialize(None), Ok(vec![1, 3, 4, 2]));
}

#[test]
fn sink_at_the_ends_of_the_offset_space() {
    let mut sink = SparseByteSink::new();
    sink.record(write(u64::MAX, 1));
    sink.record(write(u64::MAX - 2, 2));
    assert_eq!(sink.bounds(), Some((u64::MAX - 2, u64::MAX)));
    assert_eq!(sink.materialize(Some(7)), Ok(vec![2, 7, 1]));
    let mut low = SparseByteSink::new();
    low.record(write(0, 5));
    assert_eq!(low.materialize(None), Ok(vec![5]));
}

#[test]
fn sparse_reconstruction_of_two_distant_lines() {
    let l = layout(16, 2, Format::Hexadecimal, true, true);
    let first: Vec<u8> = (0x41u8..0x51).collect();
    let second: Vec<u8> = (0x61u8..0x71).collect();
    let mut lines = encode(&first, &l, 0x10, usize::MAX);
    lines.extend(encode(&second, &l, 0x30, usize::MAX));
    assert_eq!(lines[0], "00000010: 4142 4344 4546 4748 494a 4b4c 4d4e 4f50 ABCDEFGHIJKLMNOP");
    assert_eq!(lines[1], "00000030: 6162 6364 6566 6768 696a 6b6c 6d6e 6f70 abcdefghijklmnop");
    let outcome = parse(&lines, &l);
    assert!(outcome.rejected.is_empty());
    let sink = collect(&outcome.writes);
    let mut expected: Vec<(u64, u8)> = Vec::new();
    for i in 0..16u64 {
        expected.push((0x10 + i, 0x41 + i as u8));
    }
    for i in 0..16u64 {
        expected.push((0x30 + i, 0x61 + i as u8));
    }
    assert_eq!(sink.materialize_sparse(), expected);
    let mut filled = first.clone();
    filled.extend(vec![0u8; 16]);
    filled.extend(second.clone());
    assert_eq!(sink.materialize(Some(0)), Ok(filled));
    assert_eq!(sink.materialize(None), Err(SinkError::IncompleteRange));
    assert_eq!(decode(&lines, &l), Err(SinkError::IncompleteRange));
}

#[test]
fn lines_out_of_order_are_placed_by_their_offsets() {
    let l = layout(4, 2, Format::Hexadecimal, true, true);
    let lines = vec![
        "00000004: 4546 4748 EFGH".to_string(),
        "00000000: 4142 4344 ABCD".to_string(),
        "00000002: 7879      xy".to_string(),
    ];
    assert_eq!(decode(&lines, &l), Ok(b"ABxyEFGH".to_vec()));
}
