use hexxer::codec::{decode, decode_text, dump, encode, join, split_lines};
use hexxer::config::Format;
use hexxer::layout::LayoutModel;
use hexxer::parser::parse;

fn sample(n: usize) -> Vec<u8> {
    (0..n).map(|i| ((i * 37 + 11) % 256) as u8).collect()
}

fn check(bytes: &[u8], layout: &LayoutModel, start: u64) {
    let lines = encode(bytes, layout, start, usize::MAX);
    let outcome = parse(&lines, layout);
    assert!(outcome.rejected.is_empty());
    assert_eq!(outcome.writes.len(), bytes.len());
    let origin = if layout.show_offset() { start } else { 0 };
    for (i, w) in outcome.writes.iter().enumerate() {
        assert_eq!(w.offset, origin + i as u64);
        assert_eq!(w.value, bytes[i]);
    }
    assert_eq!(decode(&lines, layout), Ok(bytes.to_vec()));
}

#[test]
fn round_trip_of_every_octet_in_every_base() {
    let all: Vec<u8> = (0u16..256).map(|b| b as u8).collect();
    for base in [Format::Hexadecimal, Format::Octal, Format::Decimal, Format::Binary] {
        let layout = LayoutModel::new(16, 2, base, true, true, false, 0).unwrap();
        check(&all, &layout, 0);
    }
}

#[test]
fn round_trip_over_columns_and_groupings() {
    for columns in [0u16, 1, 2, 3, 7, 16, 30, 33] {
        for grouping in [1u16, 2, 3, 4, 5, 16, 40] {
            for show_text in [true, false] {
                let layout =
                    LayoutModel::new(columns, grouping, Format::Hexadecimal, true, show_text, false, 0).unwrap();
                for n in [0usize, 1, 2, 15, 16, 17, 31, 32, 33, 100] {
                    check(&sample(n), &layout, 0);
                }
            }
        }
    }
}

#[test]
fn round_trip_with_decimal_offsets_and_high_starts() {
    for decimal in [true, false] {
        let layout = LayoutModel::new(16, 4, Format::Octal, true, true, decimal, 0).unwrap();
        check(&sample(70), &layout, 0xffff_fff0);
        check(&sample(70), &layout, 99_999_990);
        check(&sample(70), &layout, u64::MAX - 70);
    }
}

#[test]
fn round_trip_without_offsets() {
    let annotated = LayoutModel::new(8, 2, Format::Hexadecimal, false, true, false, 0).unwrap();
    check(&sample(50), &annotated, 12345);
    let plain = LayoutModel::new(30, 0, Format::Hexadecimal, false, false, false, 0).unwrap();
    check(&sample(100), &plain, 0);
    let unbounded = LayoutModel::new(0, 0, Format::Binary, false, false, false, 0).unwrap();
    check(&sample(100), &unbounded, 0);
}

#[test]
fn round_trip_of_text_that_looks_like_tokens() {
    let layout = LayoutModel::new(4, 2, Format::Hexadecimal, true, true, false, 0).unwrap();
    check(b"abcdef0123456789  : 00", &layout, 0);
    check(b"    ", &layout, 0);
    check(b"::::", &layout, 0);
}

#[test]
fn round_trip_through_the_joined_text() {
    let layout = LayoutModel::new(16, 2, Format::Hexadecimal, true, true, false, 0).unwrap();
    let bytes = sample(300);
    let text = dump(&bytes, &layout, 0x40, usize::MAX);
    let lines: Vec<String> = text.lines().map(|l| l.to_string()).collect();
    assert_eq!(lines.len(), 19);
    assert_eq!(decode(&lines, &layout), Ok(bytes));
}

#[test]
fn round_trip_of_a_limited_dump() {
    let layout = LayoutModel::new(16, 2, Format::Hexadecimal, true, true, false, 0).unwrap();
    let bytes = sample(100);
    let lines = encode(&bytes, &layout, 0, 40);
    assert_eq!(lines.len(), 3);
    assert_eq!(decode(&lines, &layout), Ok(bytes[..40].to_vec()));
}

#[test]
fn text_splits_at_its_line_ends() {
    assert_eq!(split_lines(""), Vec::<String>::new());
    assert_eq!(split_lines("a"), vec!["a"]);
    assert_eq!(split_lines("a\n"), vec!["a"]);
    assert_eq!(split_lines("a\nb"), vec!["a", "b"]);
    assert_eq!(split_lines("\n"), vec![""]);
    assert_eq!(split_lines("a\n\nb\n"), vec!["a", "", "b"]);
    assert_eq!(split_lines("\u{2400}x\n."), vec!["\u{2400}x", "."]);
}

#[test]
fn round_trip_of_the_text_in_one_piece() {
    for (offset, text) in [(true, true), (true, false), (false, true), (false, false)] {
        for columns in [0u16, 5, 16] {
            let layout =
                LayoutModel::new(columns, 3, Format::Hexadecimal, offset, text, false, 0).unwrap();
            let bytes: Vec<u8> = (0u16..256).map(|b| b as u8).collect();
            let whole = dump(&bytes, &layout, 7, usize::MAX);
            assert_eq!(split_lines(&whole), encode(&bytes, &layout, 7, usize::MAX));
            assert_eq!(join(&split_lines(&whole)), whole);
            assert_eq!(decode_text(&whole, &layout), Ok(bytes));
        }
    }
    let layout = LayoutModel::new(16, 2, Format::Hexadecimal, true, true, false, 0).unwrap();
    assert_eq!(decode_text("", &layout), Ok(vec![]));
}
