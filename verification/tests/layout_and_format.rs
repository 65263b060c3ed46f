use hexxer::classify::DisplayClass;
use hexxer::codec::{dump, encode, join};
use hexxer::config::Format;
use hexxer::error::ConfigError;
use hexxer::formatter::{render_line, Formatter};
use hexxer::layout::LayoutModel;

fn annotated(columns: u16, grouping: u16, base: Format) -> LayoutModel {
    LayoutModel::new(columns, grouping, base, true, true, false, 0).unwrap()
}

fn plain(columns: u16) -> LayoutModel {
    LayoutModel::new(columns, 0, Format::Hexadecimal, false, false, false, 0).unwrap()
}

#[test]
fn zero_grouping_is_refused_where_octets_are_grouped() {
    assert_eq!(
        LayoutModel::new(16, 0, Format::Hexadecimal, true, true, false, 0).err(),
        Some(ConfigError::ZeroGrouping)
    );
    assert!(LayoutModel::new(16, 0, Format::Hexadecimal, true, false, false, 0).is_err());
    assert!(LayoutModel::new(16, 0, Format::Hexadecimal, false, true, false, 0).is_err());
    assert!(LayoutModel::new(16, 0, Format::Hexadecimal, false, false, false, 0).is_ok());
    assert!(LayoutModel::new(16, 1, Format::Hexadecimal, true, true, false, 0).is_ok());
}

#[test]
fn layout_keeps_what_it_was_given() {
    let layout = LayoutModel::new(24, 3, Format::Octal, true, false, true, -7).unwrap();
    assert_eq!(layout.columns(), 24);
    assert_eq!(layout.grouping(), 3);
    assert_eq!(layout.base(), Format::Octal);
    assert!(layout.show_offset());
    assert!(!layout.show_text());
    assert!(layout.decimal_offset());
    assert_eq!(layout.display_bias(), -7);
    assert!(!layout.plain());
    assert_eq!(layout.chunk(), 24);
    assert_eq!(layout.spacing(), 3);
    assert_eq!(layout.offset_radix(), 10);
}

#[test]
fn defaults_depend_on_the_mode() {
    let a = LayoutModel::with_defaults(None, None, Format::Hexadecimal, true, true, false, 0).unwrap();
    assert_eq!(a.columns(), 16);
    assert_eq!(a.grouping(), 2);
    let p = LayoutModel::with_defaults(None, None, Format::Hexadecimal, false, false, false, 0).unwrap();
    assert_eq!(p.columns(), 30);
    assert!(p.plain());
    let given = LayoutModel::with_defaults(Some(8), Some(4), Format::Binary, true, true, false, 0).unwrap();
    assert_eq!(given.columns(), 8);
    assert_eq!(given.grouping(), 4);
    assert!(LayoutModel::with_defaults(None, Some(0), Format::Hexadecimal, true, true, false, 0).is_err());
    assert!(LayoutModel::with_defaults(None, Some(0), Format::Hexadecimal, false, false, false, 0).is_ok());
}

#[test]
fn zero_columns_fall_back_or_unbind() {
    let a = annotated(0, 2, Format::Hexadecimal);
    assert_eq!(a.chunk(), 32);
    assert!(!a.unbounded());
    let p = plain(0);
    assert_eq!(p.chunk(), 32);
    assert!(p.unbounded());
    assert_eq!(p.spacing(), 0);
    assert!(!plain(30).unbounded());
}

#[test]
fn display_offset_adds_the_bias() {
    let layout = LayoutModel::new(16, 2, Format::Hexadecimal, true, true, false, -16).unwrap();
    assert_eq!(layout.display_offset(16), Some(0));
    assert_eq!(layout.display_offset(48), Some(32));
    assert_eq!(layout.display_offset(15), None);
    assert_eq!(layout.stream_position(0), Some(16));
    assert_eq!(layout.stream_position(u64::MAX), None);
    let up = LayoutModel::new(16, 2, Format::Hexadecimal, true, true, false, 256).unwrap();
    assert_eq!(up.display_offset(1), Some(257));
    assert_eq!(up.display_offset(u64::MAX), None);
    assert_eq!(up.stream_position(255), None);
    assert_eq!(up.stream_position(256), Some(0));
}

#[test]
fn negative_bias_shows_the_first_offset_as_zero() {
    let layout = LayoutModel::new(16, 2, Format::Hexadecimal, true, true, false, -16).unwrap();
    let shown = layout.display_offset(16).unwrap();
    let lines = hexxer::formatter::format(b"0123456789abcdef0123", &layout, shown, usize::MAX);
    assert_eq!(lines[0].start_offset, 0);
    assert!(lines[0].rendered_text.starts_with("00000000: "));
    assert!(lines[1].rendered_text.starts_with("00000010: "));
}

#[test]
fn full_line_in_hexadecimal() {
    let layout = annotated(16, 2, Format::Hexadecimal);
    let bytes: Vec<u8> = (0x41u8..0x51).collect();
    assert_eq!(
        render_line(&bytes, 0x10, &layout),
        "00000010: 4142 4344 4546 4748 494a 4b4c 4d4e 4f50 ABCDEFGHIJKLMNOP"
    );
}

#[test]
fn group_separators_stand_before_every_fourth_token() {
    let layout = LayoutModel::new(16, 4, Format::Hexadecimal, false, true, false, 0).unwrap();
    let bytes: Vec<u8> = (0x41u8..0x51).collect();
    let text = render_line(&bytes, 0, &layout);
    assert_eq!(text, "41424344 45464748 494a4b4c 4d4e4f50 ABCDEFGHIJKLMNOP");
    let panel: Vec<char> = text.chars().take(35).collect();
    let blanks: Vec<usize> = (0..35).filter(|&i| panel[i] == ' ').collect();
    assert_eq!(blanks, vec![8, 17, 26]);
}

#[test]
fn short_line_is_padded_to_the_width_of_a_full_one() {
    let layout = LayoutModel::new(16, 4, Format::Hexadecimal, true, false, false, 0).unwrap();
    let full: Vec<u8> = (0u8..16).collect();
    let full_text = render_line(&full, 0, &layout);
    let short_text = render_line(b"Hello", 0, &layout);
    assert_eq!(full_text.chars().count(), 10 + 2 * 16 + 3 + 1);
    assert_eq!(short_text.chars().count(), full_text.chars().count());
    assert_eq!(short_text, format!("00000000: 48656c6c 6f{}", " ".repeat(25)));
    let with_text = annotated(16, 4, Format::Hexadecimal);
    assert_eq!(
        render_line(b"Hello", 0, &with_text),
        format!("00000000: 48656c6c 6f{}Hello", " ".repeat(25))
    );
}

#[test]
fn padding_takes_two_blanks_for_each_missing_column() {
    let layout = annotated(4, 2, Format::Binary);
    assert_eq!(
        render_line(&[0x41], 0, &layout),
        format!("00000000: 01000001{}A", " ".repeat(8))
    );
    assert_eq!(
        render_line(&[0x41, 0x42, 0x43], 0, &layout),
        "00000000: 0100000101000010 01000011   ABC"
    );
}

#[test]
fn offsets_in_decimal_and_beyond_eight_digits() {
    let decimal = LayoutModel::new(16, 2, Format::Hexadecimal, true, false, true, 0).unwrap();
    assert!(render_line(&[0], 255, &decimal).starts_with("00000255: 00"));
    assert!(render_line(&[0], 123456789, &decimal).starts_with("123456789: 00"));
    let hex = annotated(16, 2, Format::Hexadecimal);
    assert!(render_line(&[0], 0xffffffff, &hex).starts_with("ffffffff: 00"));
    assert!(render_line(&[0], 0x1_0000_0000, &hex).starts_with("100000000: 00"));
    assert!(render_line(&[0], u64::MAX, &hex).starts_with("ffffffffffffffff: 00"));
    assert!(render_line(&[0], u64::MAX, &decimal).starts_with("18446744073709551615: 00"));
}

#[test]
fn text_panel_shows_pictures_and_dots() {
    let layout = LayoutModel::new(4, 4, Format::Hexadecimal, false, true, false, 0).unwrap();
    assert_eq!(
        render_line(&[0x00, 0x0a, 0x20, 0xff], 0, &layout),
        "000a20ff \u{2400}\u{240a}\u{2420}."
    );
}

#[test]
fn lines_carry_offsets_classes_and_tones() {
    let layout = annotated(4, 2, Format::Hexadecimal);
    let lines = hexxer::formatter::format(&[0x41, 0x00, 0x0a, 0x80, 0x42], &layout, 0x100, usize::MAX);
    assert_eq!(lines.len(), 2);
    assert_eq!(lines[0].start_offset, 0x100);
    assert_eq!(
        lines[0].octets,
        vec![
            (0x41, DisplayClass::Printable),
            (0x00, DisplayClass::Nul),
            (0x0a, DisplayClass::Control),
            (0x80, DisplayClass::Undefined),
        ]
    );
    assert_eq!(lines[0].rendered_text, "00000100: 4100 0a80 A\u{2400}\u{240a}.");
    assert!(lines[0].alternate);
    assert_eq!(lines[1].start_offset, 0x104);
    assert_eq!(lines[1].octets, vec![(0x42, DisplayClass::Printable)]);
    assert_eq!(lines[1].rendered_text, format!("00000104: 42{}B", " ".repeat(8)));
    assert!(!lines[1].alternate);
}

#[test]
fn length_limits_the_dump() {
    let layout = annotated(4, 2, Format::Hexadecimal);
    let bytes: Vec<u8> = (0u8..10).collect();
    let lines = hexxer::formatter::format(&bytes, &layout, 0, 6);
    assert_eq!(lines.len(), 2);
    assert_eq!(lines[0].octets.len(), 4);
    assert_eq!(lines[1].octets.len(), 2);
    assert!(hexxer::formatter::format(&bytes, &layout, 0, 0).is_empty());
    assert!(hexxer::formatter::format(&[], &layout, 0, usize::MAX).is_empty());
    assert_eq!(hexxer::formatter::format(&bytes, &layout, 0, usize::MAX).len(), 3);
}

#[test]
fn formatter_takes_chunks_as_they_are_read() {
    let layout = annotated(4, 2, Format::Hexadecimal);
    let mut formatter = Formatter::new(layout, 8, 6);
    assert_eq!(formatter.wanted(), 4);
    let first = formatter.emit(&[1, 2, 3, 4]).unwrap();
    assert_eq!(first.start_offset, 8);
    assert!(first.alternate);
    assert_eq!(formatter.offset(), 12);
    assert_eq!(formatter.wanted(), 2);
    let second = formatter.emit(&[5, 6]).unwrap();
    assert_eq!(second.start_offset, 12);
    assert!(!second.alternate);
    assert_eq!(second.rendered_text, "0000000c: 0506      \u{2405}\u{2406}");
    assert_eq!(formatter.wanted(), 0);
    assert!(formatter.emit(&[]).is_none());
    assert_eq!(formatter.offset(), 14);
}

#[test]
fn plain_dump_is_bare_tokens() {
    let layout = plain(0);
    let lines = hexxer::formatter::format(&[0xde, 0xad, 0xbe, 0xef], &layout, 0, usize::MAX);
    assert_eq!(lines.len(), 1);
    assert_eq!(lines[0].rendered_text, "deadbeef");
    assert_eq!(dump(&[0xde, 0xad, 0xbe, 0xef], &layout, 0, usize::MAX), "deadbeef\n");
    assert_eq!(dump(&[], &layout, 0, usize::MAX), "");
}

#[test]
fn plain_dump_without_columns_is_one_line() {
    let layout = plain(0);
    let bytes: Vec<u8> = (0u8..100).collect();
    let lines = encode(&bytes, &layout, 0, usize::MAX);
    assert_eq!(lines.len(), 1);
    assert_eq!(lines[0].len(), 200);
    let text = dump(&bytes, &layout, 0, usize::MAX);
    assert_eq!(text.matches('\n').count(), 1);
    assert!(text.ends_with('\n'));
    let chunks = hexxer::formatter::format(&bytes, &layout, 0, usize::MAX);
    assert_eq!(chunks.len(), 4);
    let pieces: String = chunks.iter().map(|l| l.rendered_text.as_str()).collect();
    assert_eq!(pieces, lines[0]);
}

#[test]
fn plain_dump_with_columns_breaks_lines() {
    let layout = plain(3);
    assert_eq!(
        dump(&[1, 2, 3, 4, 5, 6, 7], &layout, 0, usize::MAX),
        "010203\n040506\n07\n"
    );
    assert_eq!(
        encode(&[1, 2, 3, 4, 5, 6, 7], &layout, 0, usize::MAX),
        vec!["010203".to_string(), "040506".to_string(), "07".to_string()]
    );
}

#[test]
fn join_ends_every_line() {
    assert_eq!(join(&[]), "");
    assert_eq!(join(&["a".to_string(), "".to_string(), "bc".to_string()]), "a\n\nbc\n");
}
