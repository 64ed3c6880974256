use rust_signatures::decimal::{format_number, parse_number, NumberFault};
use std::num::IntErrorKind;

#[test]
fn numerals_are_read() {
    assert_eq!(parse_number("0"), Ok(0));
    assert_eq!(parse_number("60"), Ok(60));
    assert_eq!(parse_number("+60"), Ok(60));
    assert_eq!(parse_number("007"), Ok(7));
    assert_eq!(parse_number("4294967295"), Ok(u32::MAX));
    assert_eq!(parse_number("0004294967295"), Ok(u32::MAX));
}

#[test]
fn what_is_no_numeral_is_refused() {
    assert_eq!(parse_number(""), Err(NumberFault::Empty));
    assert_eq!(parse_number("+"), Err(NumberFault::InvalidDigit));
    assert_eq!(parse_number("-"), Err(NumberFault::InvalidDigit));
    assert_eq!(parse_number("-5"), Err(NumberFault::InvalidDigit));
    assert_eq!(parse_number("++5"), Err(NumberFault::InvalidDigit));
    assert_eq!(parse_number(" 5"), Err(NumberFault::InvalidDigit));
    assert_eq!(parse_number("5 "), Err(NumberFault::InvalidDigit));
    assert_eq!(parse_number("1_000"), Err(NumberFault::InvalidDigit));
    assert_eq!(parse_number("asdfa60"), Err(NumberFault::InvalidDigit));
    assert_eq!(parse_number("\u{663}"), Err(NumberFault::InvalidDigit));
    assert_eq!(parse_number("4294967296"), Err(NumberFault::TooLarge));
    assert_eq!(parse_number("99999999999"), Err(NumberFault::TooLarge));
}

#[test]
fn the_text_is_read_from_the_left() {
    assert_eq!(parse_number("9x"), Err(NumberFault::InvalidDigit));
    assert_eq!(parse_number("4294967295x"), Err(NumberFault::InvalidDigit));
    assert_eq!(parse_number("4294967296x"), Err(NumberFault::TooLarge));
    assert_eq!(parse_number("x99999999999"), Err(NumberFault::InvalidDigit));
}

#[test]
fn numerals_are_read_as_the_standard_library_reads_them() {
    let texts = [
        "", "+", "-", "0", "1", "60", "+60", "-60", "+0", "-0", "007", "4294967295",
        "4294967296", "+4294967295", "42949672950", "99999999999", "99999999999x", "9x", "x9",
        " 5", "5 ", "1_000", "12a", "1.5", "1e3", "0x10", "\u{663}", "5\u{663}", "++5", "+-5",
        "00000000000000000001", "429496729",
    ];
    for text in texts {
        let expected = match text.parse::<u32>() {
            Ok(number) => Ok(number),
            Err(error) => Err(match error.kind() {
                IntErrorKind::Empty => NumberFault::Empty,
                IntErrorKind::InvalidDigit => NumberFault::InvalidDigit,
                IntErrorKind::PosOverflow => NumberFault::TooLarge,
                other => panic!("{:?} for {:?}", other, text),
            }),
        };
        assert_eq!(parse_number(text), expected, "{:?}", text);
    }
}

#[test]
fn numbers_are_written() {
    assert_eq!(format_number(0), "0");
    assert_eq!(format_number(9), "9");
    assert_eq!(format_number(10), "10");
    assert_eq!(format_number(60), "60");
    assert_eq!(format_number(1_000_000), "1000000");
    assert_eq!(format_number(u32::MAX), "4294967295");
}

#[test]
fn what_is_written_reads_back() {
    for number in (0..100_000u32).chain([u32::MAX - 1, u32::MAX, 1_000_000_000, 999_999_999]) {
        let text = format_number(number);
        assert_eq!(text, number.to_string());
        assert_eq!(parse_number(&text), Ok(number));
    }
}
