use sum_expr::number::{parse_decimal, IntErrorKind};

#[test]
fn parse_decimal_reads_plain_digits() {
    assert_eq!(parse_decimal("0"), Ok(0));
    assert_eq!(parse_decimal("7"), Ok(7));
    assert_eq!(parse_decimal("123"), Ok(123));
    assert_eq!(parse_decimal("0000000000000123"), Ok(123));
}

#[test]
fn parse_decimal_reads_signs() {
    assert_eq!(parse_decimal("+17"), Ok(17));
    assert_eq!(parse_decimal("-17"), Ok(-17));
    assert_eq!(parse_decimal("-0"), Ok(0));
}

#[test]
fn parse_decimal_reaches_both_ends_of_the_range() {
    assert_eq!(parse_decimal("2147483647"), Ok(i32::MAX));
    assert_eq!(parse_decimal("-2147483648"), Ok(i32::MIN));
    assert_eq!(parse_decimal("2147483648"), Err(IntErrorKind::PosOverflow));
    assert_eq!(parse_decimal("-2147483649"), Err(IntErrorKind::NegOverflow));
    assert_eq!(parse_decimal("99999999999999999999999999"), Err(IntErrorKind::PosOverflow));
    assert_eq!(parse_decimal("-99999999999999999999999999"), Err(IntErrorKind::NegOverflow));
}

#[test]
fn parse_decimal_rejects_empty_text() {
    assert_eq!(parse_decimal(""), Err(IntErrorKind::Empty));
}

#[test]
fn parse_decimal_rejects_what_is_no_digit() {
    assert_eq!(parse_decimal("+"), Err(IntErrorKind::InvalidDigit));
    assert_eq!(parse_decimal("-"), Err(IntErrorKind::InvalidDigit));
    assert_eq!(parse_decimal("12a"), Err(IntErrorKind::InvalidDigit));
    assert_eq!(parse_decimal("a12"), Err(IntErrorKind::InvalidDigit));
    assert_eq!(parse_decimal(" 12"), Err(IntErrorKind::InvalidDigit));
    assert_eq!(parse_decimal("+-1"), Err(IntErrorKind::InvalidDigit));
    assert_eq!(parse_decimal("1\u{663}"), Err(IntErrorKind::InvalidDigit));
}

#[test]
fn parse_decimal_reports_the_first_obstacle() {
    assert_eq!(parse_decimal("99999999999x"), Err(IntErrorKind::PosOverflow));
    assert_eq!(parse_decimal("2147483647x"), Err(IntErrorKind::InvalidDigit));
    assert_eq!(parse_decimal("x99999999999"), Err(IntErrorKind::InvalidDigit));
}

fn kind_of(error: std::num::ParseIntError) -> IntErrorKind {
    match error.kind() {
        std::num::IntErrorKind::Empty => IntErrorKind::Empty,
        std::num::IntErrorKind::InvalidDigit => IntErrorKind::InvalidDigit,
        std::num::IntErrorKind::PosOverflow => IntErrorKind::PosOverflow,
        std::num::IntErrorKind::NegOverflow => IntErrorKind::NegOverflow,
        other => panic!("no such error for a 32-bit integer: {:?}", other),
    }
}

#[test]
fn parse_decimal_agrees_with_the_standard_library() {
    let samples = [
        "", "+", "-", "0", "-0", "+0", "1", "-1", "+1", "00", "007", "12a", "a12", "1 2", " 1",
        "1 ", "--1", "++1", "+-1", "-+1", "1-", "1+", "2147483647", "2147483648", "-2147483648",
        "-2147483649", "21474836470", "2147483647x", "99999999999x", "-99999999999x",
        "x99999999999", "4294967296", "00000000002147483647", "-00000000002147483648", "1_000",
        "0x10", "1e3", "1.5", "\u{663}", "1\u{663}", "\u{e9}",
    ];
    for sample in samples {
        assert_eq!(
            parse_decimal(sample),
            sample.parse::<i32>().map_err(kind_of),
            "on {:?}",
            sample
        );
    }
}
