use abi_stable::digit_runs::{is_decimal_digit, patch_text};

#[test]
fn patch_text_picks_the_first_digit_run() {
    assert_eq!(patch_text("3"), "3");
    assert_eq!(patch_text("3-rc1"), "3");
    assert_eq!(patch_text("rc17x2"), "17");
    assert_eq!(patch_text("x"), "0");
    assert_eq!(patch_text(""), "0");
    assert_eq!(patch_text("é42é"), "42");
    assert_eq!(patch_text("+5"), "5");
}

#[test]
fn decimal_digits() {
    for c in "0123456789".chars() {
        assert!(is_decimal_digit(c));
    }
    for c in "/:aZ +-٣".chars() {
        assert!(!is_decimal_digit(c));
    }
}
