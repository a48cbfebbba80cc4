use dot_steward::text::{blank, decimal_string, push_decimal};

#[test]
fn blank_means_white_space_only() {
    assert!(blank(""));
    assert!(blank(" \t\n\r"));
    assert!(blank("\u{a0}\u{2028}"));
    assert!(!blank(" a "));
    assert!(!blank("echo"));
}

#[test]
fn decimal_notation() {
    assert_eq!(decimal_string(0), "0");
    assert_eq!(decimal_string(7), "7");
    assert_eq!(decimal_string(10), "10");
    assert_eq!(decimal_string(1234), "1234");
    assert_eq!(decimal_string(usize::MAX), usize::MAX.to_string());
    let mut out = String::from("n=");
    push_decimal(&mut out, 305);
    assert_eq!(out, "n=305");
}
