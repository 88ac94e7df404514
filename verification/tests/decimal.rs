use abi_stable::decimal::{parse_u32, push_decimal, IntErrorKind, ParseIntError};
use std::num::IntErrorKind as StdKind;

fn std_parse(s: &str) -> Result<u32, IntErrorKind> {
    s.parse::<u32>().map_err(|e| match e.kind() {
        StdKind::Empty => IntErrorKind::Empty,
        StdKind::InvalidDigit => IntErrorKind::InvalidDigit,
        StdKind::PosOverflow => IntErrorKind::PosOverflow,
        other => panic!("unexpected kind {:?}", other),
    })
}

fn kind_of(s: &str) -> Result<u32, IntErrorKind> {
    parse_u32(s).map_err(|e| e.kind())
}

fn error_of(s: &str) -> ParseIntError {
    parse_u32(s).unwrap_err()
}

#[test]
fn parse_u32_plain_numbers() {
    assert_eq!(parse_u32("0"), Ok(0));
    assert_eq!(parse_u32("7"), Ok(7));
    assert_eq!(parse_u32("0042"), Ok(42));
    assert_eq!(parse_u32("+13"), Ok(13));
    assert_eq!(parse_u32("4294967295"), Ok(4294967295));
}

#[test]
fn parse_u32_errors() {
    assert_eq!(kind_of(""), Err(IntErrorKind::Empty));
    assert_eq!(kind_of("+"), Err(IntErrorKind::InvalidDigit));
    assert_eq!(kind_of("-"), Err(IntErrorKind::InvalidDigit));
    assert_eq!(kind_of("-5"), Err(IntErrorKind::InvalidDigit));
    assert_eq!(kind_of(" 1"), Err(IntErrorKind::InvalidDigit));
    assert_eq!(kind_of("1 "), Err(IntErrorKind::InvalidDigit));
    assert_eq!(kind_of("12a"), Err(IntErrorKind::InvalidDigit));
    assert_eq!(kind_of("++1"), Err(IntErrorKind::InvalidDigit));
    assert_eq!(kind_of("4294967296"), Err(IntErrorKind::PosOverflow));
    assert_eq!(kind_of("99999999999x"), Err(IntErrorKind::PosOverflow));
    assert_eq!(kind_of("x99999999999"), Err(IntErrorKind::InvalidDigit));
    assert_eq!(kind_of("٣"), Err(IntErrorKind::InvalidDigit));
}

#[test]
fn parse_u32_agrees_with_std() {
    let samples = [
        "", "+", "-", "0", "+0", "-0", "00000000000000000001", "12", "1_000", "1.5",
        "4294967295", "4294967296", "+4294967295", "18446744073709551616", "a", "9a",
        "429496729a", "4294967300a", "é1", "1é", " ", "+ 1", "007", "+-1",
    ];
    for s in samples.iter() {
        assert_eq!(kind_of(s), std_parse(s), "text {:?}", s);
    }
    for n in (0u64..5000).chain(4294967000u64..4294967400u64) {
        let s = n.to_string();
        assert_eq!(kind_of(&s), std_parse(&s), "text {:?}", s);
    }
}

#[test]
fn push_decimal_writes_like_display() {
    for n in [0u32, 1, 9, 10, 11, 99, 100, 305, 65535, 1000000, 4294967295].iter() {
        let mut out = String::from("v=");
        push_decimal(&mut out, *n);
        assert_eq!(out, format!("v={}", n));
    }
}

#[test]
fn decimal_text_reads_back() {
    for n in [0u32, 5, 10, 123456789, 4294967295].iter() {
        let mut out = String::new();
        push_decimal(&mut out, *n);
        assert_eq!(parse_u32(&out), Ok(*n));
    }
}

#[test]
fn parse_error_messages() {
    assert_eq!(error_of("").message(), "cannot parse integer from empty string");
    assert_eq!(error_of("x").message(), "invalid digit found in string");
    assert_eq!(error_of("99999999999").message(), "number too large to fit in target type");
    assert_eq!(
        error_of("").message(),
        "".parse::<u32>().unwrap_err().to_string()
    );
    assert_eq!(
        error_of("x").message(),
        "x".parse::<u32>().unwrap_err().to_string()
    );
    assert_eq!(
        error_of("99999999999").message(),
        "99999999999".parse::<u32>().unwrap_err().to_string()
    );
}

#[test]
fn parse_error_debug_matches_std() {
    for s in ["", "x", "+", "99999999999"].iter() {
        assert_eq!(
            format!("{:?}", error_of(s)),
            format!("{:?}", s.parse::<u32>().unwrap_err())
        );
    }
    assert_eq!(format!("{:?}", error_of("x")), "ParseIntError { kind: InvalidDigit }");
}
