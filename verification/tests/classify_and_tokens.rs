use hexxer::classify::{classify, glyph, DisplayClass};
use hexxer::config::Format;
use hexxer::error::ParseError;

#[test]
fn classes_of_known_octets() {
    assert_eq!(classify(0x41), DisplayClass::Printable);
    assert_eq!(classify(0x21), DisplayClass::Printable);
    assert_eq!(classify(0x7e), DisplayClass::Printable);
    assert_eq!(classify(0x00), DisplayClass::Nul);
    assert_eq!(classify(0x01), DisplayClass::Control);
    assert_eq!(classify(0x0a), DisplayClass::Control);
    assert_eq!(classify(0x1f), DisplayClass::Control);
    assert_eq!(classify(0x20), DisplayClass::Control);
    assert_eq!(classify(0x7f), DisplayClass::Control);
    assert_eq!(classify(0x80), DisplayClass::Undefined);
    assert_eq!(classify(0xff), DisplayClass::Undefined);
}

#[test]
fn classes_partition_all_octets() {
    let mut printable = 0;
    let mut nul = 0;
    let mut control = 0;
    let mut undefined = 0;
    for b in 0u16..256 {
        match classify(b as u8) {
            DisplayClass::Printable => printable += 1,
            DisplayClass::Nul => nul += 1,
            DisplayClass::Control => control += 1,
            DisplayClass::Undefined => undefined += 1,
        }
    }
    assert_eq!(printable, 94);
    assert_eq!(nul, 1);
    assert_eq!(control, 33);
    assert_eq!(undefined, 128);
    assert_eq!(printable + nul + control + undefined, 256);
}

#[test]
fn class_agrees_with_the_ascii_predicates() {
    for b in 0u16..256 {
        let b = b as u8;
        let expected = if b.is_ascii_graphic() {
            DisplayClass::Printable
        } else if b == 0 {
            DisplayClass::Nul
        } else if b.is_ascii_control() || b == 0x20 {
            DisplayClass::Control
        } else {
            DisplayClass::Undefined
        };
        assert_eq!(classify(b), expected);
    }
}

#[test]
fn glyphs_of_known_octets() {
    assert_eq!(glyph(0x41), 'A');
    assert_eq!(glyph(0x7e), '~');
    assert_eq!(glyph(0x00), '\u{2400}');
    assert_eq!(glyph(0x0a), '\u{240a}');
    assert_eq!(glyph(0x20), '\u{2420}');
    assert_eq!(glyph(0x7f), '\u{247f}');
    assert_eq!(glyph(0x80), '.');
    assert_eq!(glyph(0xff), '.');
}

#[test]
fn glyph_is_never_a_blank_or_a_line_end() {
    for b in 0u16..256 {
        let g = glyph(b as u8);
        assert_ne!(g, ' ');
        assert_ne!(g, '\n');
    }
}

#[test]
fn hexadecimal_tokens() {
    assert_eq!(Format::Hexadecimal.value(0xde), "de");
    assert_eq!(Format::Hexadecimal.value(0x0a), "0a");
    assert_eq!(Format::Hexadecimal.value(0x00), "00");
    assert_eq!(Format::Hexadecimal.value(0xff), "ff");
}

#[test]
fn octal_tokens() {
    assert_eq!(Format::Octal.value(0), "000");
    assert_eq!(Format::Octal.value(8), "010");
    assert_eq!(Format::Octal.value(255), "377");
}

#[test]
fn decimal_tokens() {
    assert_eq!(Format::Decimal.value(0), "000");
    assert_eq!(Format::Decimal.value(7), "007");
    assert_eq!(Format::Decimal.value(42), "042");
    assert_eq!(Format::Decimal.value(255), "255");
}

#[test]
fn binary_tokens() {
    assert_eq!(Format::Binary.value(0), "00000000");
    assert_eq!(Format::Binary.value(5), "00000101");
    assert_eq!(Format::Binary.value(255), "11111111");
}

#[test]
fn tokens_agree_with_the_standard_formatting() {
    for b in 0u16..256 {
        let b = b as u8;
        assert_eq!(Format::Hexadecimal.value(b), format!("{b:02x}"));
        assert_eq!(Format::Octal.value(b), format!("{b:03o}"));
        assert_eq!(Format::Decimal.value(b), format!("{b:03}"));
        assert_eq!(Format::Binary.value(b), format!("{b:08b}"));
    }
}

#[test]
fn token_width_is_fixed() {
    let bases = [
        (Format::Hexadecimal, 2usize),
        (Format::Octal, 3),
        (Format::Decimal, 3),
        (Format::Binary, 8),
    ];
    for (base, width) in bases {
        assert_eq!(base.token_width(), width);
        for b in 0u16..256 {
            assert_eq!(base.value(b as u8).chars().count(), width);
        }
    }
}

#[test]
fn tokens_read_back() {
    let bases = [Format::Hexadecimal, Format::Octal, Format::Decimal, Format::Binary];
    for base in bases {
        for b in 0u16..256 {
            let b = b as u8;
            assert_eq!(base.parse(&base.value(b)), Ok(b));
        }
    }
}

#[test]
fn parse_accepts_both_cases() {
    assert_eq!(Format::Hexadecimal.parse("de"), Ok(0xde));
    assert_eq!(Format::Hexadecimal.parse("DE"), Ok(0xde));
    assert_eq!(Format::Hexadecimal.parse("dE"), Ok(0xde));
}

#[test]
fn parse_rejects_other_widths() {
    assert_eq!(Format::Hexadecimal.parse(""), Err(ParseError::MalformedToken));
    assert_eq!(Format::Hexadecimal.parse("d"), Err(ParseError::MalformedToken));
    assert_eq!(Format::Hexadecimal.parse("dea"), Err(ParseError::MalformedToken));
    assert_eq!(Format::Octal.parse("77"), Err(ParseError::MalformedToken));
    assert_eq!(Format::Octal.parse("0377"), Err(ParseError::MalformedToken));
    assert_eq!(Format::Decimal.parse("7"), Err(ParseError::MalformedToken));
    assert_eq!(Format::Decimal.parse("0007"), Err(ParseError::MalformedToken));
    assert_eq!(Format::Binary.parse("0000010"), Err(ParseError::MalformedToken));
    assert_eq!(Format::Binary.parse("000001010"), Err(ParseError::MalformedToken));
}

#[test]
fn parse_rejects_foreign_digits() {
    assert_eq!(Format::Hexadecimal.parse("zz"), Err(ParseError::MalformedToken));
    assert_eq!(Format::Hexadecimal.parse("0g"), Err(ParseError::MalformedToken));
    assert_eq!(Format::Hexadecimal.parse("a "), Err(ParseError::MalformedToken));
    assert_eq!(Format::Octal.parse("008"), Err(ParseError::MalformedToken));
    assert_eq!(Format::Decimal.parse("0a0"), Err(ParseError::MalformedToken));
    assert_eq!(Format::Binary.parse("00000102"), Err(ParseError::MalformedToken));
    assert_eq!(Format::Hexadecimal.parse("\u{2400}0"), Err(ParseError::MalformedToken));
}

#[test]
fn parse_rejects_values_above_an_octet() {
    assert_eq!(Format::Octal.parse("377"), Ok(255));
    assert_eq!(Format::Octal.parse("400"), Err(ParseError::MalformedToken));
    assert_eq!(Format::Octal.parse("777"), Err(ParseError::MalformedToken));
    assert_eq!(Format::Decimal.parse("255"), Ok(255));
    assert_eq!(Format::Decimal.parse("256"), Err(ParseError::MalformedToken));
    assert_eq!(Format::Decimal.parse("999"), Err(ParseError::MalformedToken));
}
