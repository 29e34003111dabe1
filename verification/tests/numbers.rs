use lib::numbers::{format_i32, parse_i32, IntErrorKind, ParseIntError};

fn kind_of(e: std::num::ParseIntError) -> IntErrorKind {
    match e.kind() {
        std::num::IntErrorKind::Empty => IntErrorKind::Empty,
        std::num::IntErrorKind::InvalidDigit => IntErrorKind::InvalidDigit,
        std::num::IntErrorKind::PosOverflow => IntErrorKind::PosOverflow,
        std::num::IntErrorKind::NegOverflow => IntErrorKind::NegOverflow,
        other => panic!("unexpected kind {:?}", other),
    }
}

fn agrees_with_std(s: &str) {
    let ours = parse_i32(s);
    let theirs = s.parse::<i32>();
    match (ours, theirs) {
        (Ok(a), Ok(b)) => assert_eq!(a, b, "value for {:?}", s),
        (Err(a), Err(b)) => assert_eq!(a.kind(), kind_of(b), "error for {:?}", s),
        (a, b) => panic!("disagree on {:?}: {:?} vs {:?}", s, a, b),
    }
}

#[test]
fn parse_reads_plain_numbers() {
    assert_eq!(parse_i32("42"), Ok(42));
    assert_eq!(parse_i32("10"), Ok(10));
    assert_eq!(parse_i32("-17"), Ok(-17));
    assert_eq!(parse_i32("+5"), Ok(5));
    assert_eq!(parse_i32("0"), Ok(0));
    assert_eq!(parse_i32("-0"), Ok(0));
    assert_eq!(parse_i32("007"), Ok(7));
}

#[test]
fn parse_reaches_both_ends_of_i32() {
    assert_eq!(parse_i32("2147483647"), Ok(i32::MAX));
    assert_eq!(parse_i32("-2147483648"), Ok(i32::MIN));
}

#[test]
fn parse_reports_each_error_kind() {
    assert_eq!(parse_i32(""), Err(ParseIntError { kind: IntErrorKind::Empty }));
    assert_eq!(parse_i32("abc"), Err(ParseIntError { kind: IntErrorKind::InvalidDigit }));
    assert_eq!(parse_i32("hello"), Err(ParseIntError { kind: IntErrorKind::InvalidDigit }));
    assert_eq!(parse_i32("+"), Err(ParseIntError { kind: IntErrorKind::InvalidDigit }));
    assert_eq!(parse_i32("-"), Err(ParseIntError { kind: IntErrorKind::InvalidDigit }));
    assert_eq!(parse_i32(" 1"), Err(ParseIntError { kind: IntErrorKind::InvalidDigit }));
    assert_eq!(parse_i32("2147483648"), Err(ParseIntError { kind: IntErrorKind::PosOverflow }));
    assert_eq!(parse_i32("-2147483649"), Err(ParseIntError { kind: IntErrorKind::NegOverflow }));
}

#[test]
fn parse_error_messages_match_std() {
    for s in ["", "x", "99999999999", "-99999999999"] {
        let ours = parse_i32(s).unwrap_err();
        let theirs = s.parse::<i32>().unwrap_err();
        assert_eq!(ours.message(), theirs.to_string());
    }
}

#[test]
fn parse_first_problem_decides_the_error() {
    // an overflow before the bad character wins, a bad character before the
    // overflow wins
    assert_eq!(parse_i32("99999999999x"), Err(ParseIntError { kind: IntErrorKind::PosOverflow }));
    assert_eq!(parse_i32("2147483647x"), Err(ParseIntError { kind: IntErrorKind::InvalidDigit }));
    assert_eq!(parse_i32("1x99999999999"), Err(ParseIntError { kind: IntErrorKind::InvalidDigit }));
    assert_eq!(parse_i32("-99999999999x"), Err(ParseIntError { kind: IntErrorKind::NegOverflow }));
}

#[test]
fn parse_agrees_with_std_on_many_inputs() {
    let samples = [
        "", "+", "-", "++1", "--1", "+-1", "1+", "1-", "0", "-0", "+0", "12", "-12", "١٢",
        "12é", "é", " ", "1 ", "2147483647", "2147483648", "-2147483648", "-2147483649",
        "00000000000000000001", "-00000000000000000001", "4294967296", "21474836470",
        "2147483647x", "21474836479x", "x2147483648", "+2147483647", "+2147483648",
        "999", "-9a", "0x10", "1_000",
    ];
    for s in samples {
        agrees_with_std(s);
    }
    for n in (-3000..3000).chain([i32::MIN, i32::MAX, i32::MIN + 1, i32::MAX - 1]) {
        agrees_with_std(&n.to_string());
    }
}

#[test]
fn format_matches_display() {
    for n in [0, 1, -1, 9, 10, 99, -100, 12345, i32::MAX, i32::MIN, i32::MIN + 1] {
        assert_eq!(format_i32(n), n.to_string());
    }
}

#[test]
fn format_then_parse_gives_the_number_back() {
    for n in [0, 7, -7, 42, 1000000, i32::MAX, i32::MIN, -123456789] {
        assert_eq!(parse_i32(&format_i32(n)), Ok(n));
    }
}
