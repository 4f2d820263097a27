use jsfx_lint::numbers::{decimal_string, is_u64_literal};
use jsfx_lint::report::{excerpt, is_shown, severity_label};
use jsfx_lint::issue_kind::Severity;
use jsfx_lint::words::{header_param_words, trim};

#[test]
fn decimal_forms() {
    assert_eq!(decimal_string(0), "0");
    assert_eq!(decimal_string(7), "7");
    assert_eq!(decimal_string(40), "40");
    assert_eq!(decimal_string(1053), "1053");
    assert_eq!(decimal_string(usize::MAX), usize::MAX.to_string());
}

#[test]
fn u64_literals() {
    assert!(is_u64_literal("10"));
    assert!(is_u64_literal("+10"));
    assert!(is_u64_literal("18446744073709551615"));
    assert!(!is_u64_literal("18446744073709551616"));
    assert!(!is_u64_literal("10.3"));
    assert!(!is_u64_literal("-1"));
    assert!(!is_u64_literal(""));
    assert!(!is_u64_literal("+"));
    assert!(!is_u64_literal(" 1"));
    assert!(!is_u64_literal("1a"));
}

#[test]
fn trimming() {
    assert_eq!(trim("  a b \t\n"), "a b");
    assert_eq!(trim("\u{3000}x\u{a0}"), "x");
    assert_eq!(trim("   "), "");
    assert_eq!(trim(""), "");
}

#[test]
fn param_words_stop_at_comment() {
    let w = header_param_words("1053 142 // request heights");
    assert_eq!(w, vec!["1053".to_string(), "142".to_string()]);
    let w = header_param_words("  10   20  30 ");
    assert_eq!(w, vec!["10".to_string(), "20".to_string(), "30".to_string()]);
    let w = header_param_words("//----");
    assert!(w.is_empty());
    let w = header_param_words("");
    assert!(w.is_empty());
}

#[test]
fn excerpt_of_short_line() {
    let e = excerpt(10, 3, 6);
    assert_eq!((e.start, e.end, e.pointer_padding, e.pointer_len), (0, 10, 2, 3));
    let e = excerpt(10, 0, 0);
    assert_eq!((e.start, e.end, e.pointer_padding, e.pointer_len), (0, 10, 0, 0));
}

#[test]
fn excerpt_of_long_line() {
    let e = excerpt(300, 100, 110);
    assert_eq!((e.start, e.end, e.pointer_padding, e.pointer_len), (40, 160, 59, 10));
    let e = excerpt(300, 280, 400);
    assert_eq!((e.start, e.end, e.pointer_padding, e.pointer_len), (220, 300, 59, 20));
}

#[test]
fn severity_labels() {
    assert_eq!(severity_label(Severity::Error), Some("error"));
    assert_eq!(severity_label(Severity::Warning), Some("warning"));
    assert_eq!(severity_label(Severity::Style), Some("style"));
    assert_eq!(severity_label(Severity::Silent), None);
    assert!(is_shown(Severity::Error, true));
    assert!(!is_shown(Severity::Warning, true));
    assert!(is_shown(Severity::Warning, false));
    assert!(!is_shown(Severity::Silent, false));
}
