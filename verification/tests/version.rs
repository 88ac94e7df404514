use abi_stable::decimal::parse_u32;
use abi_stable::version::{VersionNumber, VersionStrings};

fn strings(major: &'static str, minor: &'static str, patch: &'static str) -> VersionStrings {
    VersionStrings { major, minor, patch }
}

fn number(major: u32, minor: u32, patch: u32) -> VersionNumber {
    VersionNumber { major, minor, patch }
}

fn leak(s: String) -> &'static str {
    Box::leak(s.into_boxed_str())
}

#[test]
fn parses_plain_versions() {
    assert_eq!(VersionNumber::new(strings("1", "2", "3")), Ok(number(1, 2, 3)));
    assert_eq!(strings("0", "10", "0").parsed(), Ok(number(0, 10, 0)));
    assert_eq!(
        strings("4294967295", "0", "4294967295").parsed(),
        Ok(number(4294967295, 0, 4294967295))
    );
}

#[test]
fn patch_is_read_from_its_first_digits() {
    assert_eq!(strings("1", "2", "3-rc1").parsed(), Ok(number(1, 2, 3)));
    assert_eq!(strings("1", "2", "3+build.5").parsed(), Ok(number(1, 2, 3)));
    assert_eq!(strings("1", "2", "rc7").parsed(), Ok(number(1, 2, 7)));
    assert_eq!(strings("1", "2", "alpha12beta34").parsed(), Ok(number(1, 2, 12)));
    assert_eq!(strings("1", "2", "").parsed(), Ok(number(1, 2, 0)));
    assert_eq!(strings("1", "2", "beta").parsed(), Ok(number(1, 2, 0)));
    assert_eq!(strings("1", "2", "+5").parsed(), Ok(number(1, 2, 5)));
}

#[test]
fn major_field_errors() {
    let vs = strings("", "2", "3");
    let e = vs.parsed().unwrap_err();
    assert_eq!(e.version_strings(), vs);
    assert_eq!(
        e.display_string(),
        "\nInvalid version string:'.2.3'\nerror at the major field:cannot parse integer from empty string\n"
    );
}

#[test]
fn minor_field_errors() {
    let vs = strings("1", "x", "3");
    let e = VersionNumber::new(vs).unwrap_err();
    assert_eq!(e.version_strings(), vs);
    assert_eq!(
        e.display_string(),
        "\nInvalid version string:'1.x.3'\nerror at the minor field:invalid digit found in string\n"
    );
}

#[test]
fn patch_field_errors() {
    let vs = strings("1", "2", "v99999999999");
    let e = vs.parsed().unwrap_err();
    assert_eq!(e.version_strings(), vs);
    assert_eq!(
        e.display_string(),
        "\nInvalid version string:'1.2.v99999999999'\nerror at the patch field:number too large to fit in target type\n"
    );
}

#[test]
fn first_failing_field_is_reported() {
    let e = strings("a", "b", "99999999999").parsed().unwrap_err();
    assert!(e.display_string().contains("error at the major field:invalid digit"));
    let e = strings("1", "-1", "99999999999").parsed().unwrap_err();
    assert!(e.display_string().contains("error at the minor field:invalid digit"));
}

#[test]
fn parsed_equals_new() {
    for vs in [strings("1", "2", "3"), strings("x", "2", "3"), strings("0", "0", "1a")].iter() {
        assert_eq!(vs.parsed(), VersionNumber::new(*vs));
    }
}

#[test]
fn display_strings() {
    assert_eq!(strings("1", "2", "3-rc1").display_string(), "1.2.3-rc1");
    assert_eq!(number(0, 10, 4294967295).display_string(), "0.10.4294967295");
    assert_eq!(number(12, 0, 7).display_string(), "12.0.7");
}

#[test]
fn compatibility_from_one_zero() {
    assert!(number(1, 2, 0).is_compatible(number(1, 3, 0)));
    assert!(number(1, 2, 9).is_compatible(number(1, 2, 0)));
    assert!(!number(1, 3, 0).is_compatible(number(1, 2, 9)));
    assert!(!number(1, 0, 0).is_compatible(number(2, 0, 0)));
    assert!(!number(2, 0, 0).is_compatible(number(1, 9, 9)));
    assert!(!number(0, 1, 0).is_compatible(number(1, 1, 0)));
    assert!(!number(1, 1, 0).is_compatible(number(0, 1, 0)));
}

#[test]
fn compatibility_before_one_zero() {
    assert!(number(0, 1, 2).is_compatible(number(0, 1, 3)));
    assert!(number(0, 1, 2).is_compatible(number(0, 1, 2)));
    assert!(!number(0, 1, 3).is_compatible(number(0, 1, 2)));
    assert!(!number(0, 1, 0).is_compatible(number(0, 2, 0)));
    assert!(!number(0, 2, 0).is_compatible(number(0, 1, 0)));
}

#[test]
fn compatibility_is_reflexive_and_transitive() {
    let versions = [
        number(0, 0, 0), number(0, 0, 1), number(0, 1, 0), number(0, 1, 5), number(0, 2, 0),
        number(1, 0, 0), number(1, 0, 3), number(1, 1, 0), number(1, 2, 0), number(2, 0, 0),
    ];
    for a in versions.iter() {
        assert!(a.is_compatible(*a));
        for b in versions.iter() {
            for c in versions.iter() {
                if a.is_compatible(*b) && b.is_compatible(*c) {
                    assert!(a.is_compatible(*c), "{:?} {:?} {:?}", a, b, c);
                }
            }
        }
    }
}

#[test]
fn patch_does_not_matter_from_one_zero() {
    assert_eq!(
        number(1, 2, 0).is_compatible(number(1, 3, 0)),
        number(1, 2, 99).is_compatible(number(1, 3, 1))
    );
    assert_eq!(
        number(1, 4, 0).is_compatible(number(1, 3, 50)),
        number(1, 4, 50).is_compatible(number(1, 3, 0))
    );
}

#[test]
fn displayed_numbers_read_back() {
    for v in [number(0, 0, 0), number(1, 2, 3), number(4294967295, 17, 4294967295)].iter() {
        let text = v.display_string();
        let parts: Vec<&str> = text.split('.').collect();
        assert_eq!(parts.len(), 3);
        let vs = VersionStrings {
            major: leak(parts[0].to_string()),
            minor: leak(parts[1].to_string()),
            patch: leak(parts[2].to_string()),
        };
        assert_eq!(vs.parsed(), Ok(*v));
    }
}

#[test]
fn error_kind_in_field() {
    let e = strings("1", "2", "4294967296").parsed().unwrap_err();
    let expected = format!("patch field:{}\n", parse_u32("4294967296").unwrap_err().message());
    assert!(e.display_string().ends_with(&expected));
}

#[test]
fn invalid_version_debug_shows_the_parse_error() {
    let e = strings("1", "x", "3").parsed().unwrap_err();
    let text = format!("{:?}", e);
    assert!(text.contains("which_field: \"minor\""), "{}", text);
    assert!(text.contains("parse_error: ParseIntError { kind: InvalidDigit }"), "{}", text);
}
