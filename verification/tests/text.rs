use phrack_downloader::text::{chars_of, read_u32, to_decimal, IntErrorKind};

fn read(text: &str) -> Result<u32, IntErrorKind> {
    read_u32(&text.chars().collect())
}

#[test]
fn chars_of_keeps_every_character() {
    assert_eq!(chars_of(""), Vec::<char>::new());
    assert_eq!(chars_of("a/1"), vec!['a', '/', '1']);
    assert_eq!(chars_of("é→z"), vec!['é', '→', 'z']);
}

#[test]
fn to_decimal_writes_numbers_without_leading_zeros() {
    assert_eq!(to_decimal(0), "0");
    assert_eq!(to_decimal(7), "7");
    assert_eq!(to_decimal(10), "10");
    assert_eq!(to_decimal(909), "909");
    assert_eq!(to_decimal(4294967295), "4294967295");
    assert_eq!(to_decimal(18446744073709551615), "18446744073709551615");
}

#[test]
fn to_decimal_agrees_with_the_standard_notation() {
    for n in [1u64, 9, 11, 99, 100, 101, 1234567890, 1000000] {
        assert_eq!(to_decimal(n), n.to_string());
    }
}

#[test]
fn read_u32_reads_digits() {
    assert_eq!(read("0"), Ok(0));
    assert_eq!(read("42"), Ok(42));
    assert_eq!(read("007"), Ok(7));
    assert_eq!(read("4294967295"), Ok(4294967295));
    assert_eq!(read("0000000004294967295"), Ok(4294967295));
}

#[test]
fn read_u32_accepts_a_plus_sign() {
    assert_eq!(read("+5"), Ok(5));
    assert_eq!(read("+0"), Ok(0));
}

#[test]
fn read_u32_rejects_the_empty_text() {
    assert_eq!(read(""), Err(IntErrorKind::Empty));
}

#[test]
fn read_u32_rejects_what_is_no_digit() {
    assert_eq!(read("+"), Err(IntErrorKind::InvalidDigit));
    assert_eq!(read("-"), Err(IntErrorKind::InvalidDigit));
    assert_eq!(read("-1"), Err(IntErrorKind::InvalidDigit));
    assert_eq!(read("12a"), Err(IntErrorKind::InvalidDigit));
    assert_eq!(read(" 12"), Err(IntErrorKind::InvalidDigit));
    assert_eq!(read("1_000"), Err(IntErrorKind::InvalidDigit));
    assert_eq!(read("++1"), Err(IntErrorKind::InvalidDigit));
    assert_eq!(read("٣"), Err(IntErrorKind::InvalidDigit));
}

#[test]
fn read_u32_rejects_what_does_not_fit() {
    assert_eq!(read("4294967296"), Err(IntErrorKind::PosOverflow));
    assert_eq!(read("4294967300"), Err(IntErrorKind::PosOverflow));
    assert_eq!(read("99999999999"), Err(IntErrorKind::PosOverflow));
}

#[test]
fn read_u32_reports_what_goes_wrong_first() {
    assert_eq!(read("99999999999x"), Err(IntErrorKind::PosOverflow));
    assert_eq!(read("9x9999999999"), Err(IntErrorKind::InvalidDigit));
}

#[test]
fn read_u32_agrees_with_the_standard_parser() {
    for text in ["", "+", "0", "+17", "17+", "4294967295", "4294967296", "abc", "1 ", "00"] {
        let ours = read(text).ok();
        let theirs = text.parse::<u32>().ok();
        assert_eq!(ours, theirs, "on {:?}", text);
    }
}

#[test]
fn what_is_written_is_read_back() {
    for n in [0u32, 1, 10, 99, 65535, 4294967295] {
        assert_eq!(read(&to_decimal(n as u64)), Ok(n));
    }
}
