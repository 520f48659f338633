use truss_fem::model::{parse_f64, parse_i64, parse_usize, strip_comment, tokenize};
use truss_fem::numbers::{is_float_text, parse_signed, parse_unsigned};
use truss_fem::text::{chars_of, trim_str};

#[test]
fn strip_comment_cuts_at_first_hash() {
    assert_eq!(strip_comment("1,2 # counts # more"), "1,2 ");
    assert_eq!(strip_comment("# all comment"), "");
    assert_eq!(strip_comment("no comment"), "no comment");
}

#[test]
fn tokenize_splits_on_commas_and_whitespace() {
    assert_eq!(tokenize(" 1, 2,,3\t4\r\n5 "), vec!["1", "2", "3", "4", "5"]);
    assert!(tokenize(" ,, \t").is_empty());
    assert_eq!(tokenize("a"), vec!["a"]);
}

#[test]
fn trim_removes_unicode_whitespace() {
    assert_eq!(trim_str("\u{a0} x y\u{3000}\t"), "x y");
    assert_eq!(trim_str("   "), "");
}

#[test]
fn chars_in_order() {
    assert_eq!(chars_of("aé"), vec!['a', 'é']);
}

#[test]
fn parse_usize_accepts_plus_and_spaces() {
    assert_eq!(parse_usize(" +42 ", "count").unwrap(), 42);
    assert_eq!(parse_usize("007", "count").unwrap(), 7);
    assert_eq!(parse_usize("-1", "count").unwrap_err().message(), "invalid count: '-1'");
    assert_eq!(parse_usize("+", "count").unwrap_err().message(), "invalid count: '+'");
    assert_eq!(parse_usize("", "count").unwrap_err().message(), "invalid count: ''");
    assert!(parse_usize("99999999999999999999999", "count").is_err());
}

#[test]
fn parse_i64_range() {
    assert_eq!(parse_i64("-9223372036854775808", "id").unwrap(), i64::MIN);
    assert_eq!(parse_i64("9223372036854775807", "id").unwrap(), i64::MAX);
    assert_eq!(parse_i64("-0", "id").unwrap(), 0);
    assert_eq!(
        parse_i64("9223372036854775808", "id").unwrap_err().message(),
        "invalid id: '9223372036854775808'"
    );
    assert!(parse_i64("1.0", "id").is_err());
    assert!(parse_i64("--1", "id").is_err());
}

#[test]
fn unsigned_and_signed_values() {
    assert_eq!(parse_unsigned(" 18446744073709551615 "), Some(u64::MAX));
    assert_eq!(parse_unsigned("18446744073709551616"), None);
    assert_eq!(parse_signed("+12"), Some(12));
    assert_eq!(parse_signed("-"), None);
}

#[test]
fn float_literal_syntax() {
    for ok in ["1", "-1.5", "+.5", "1.", "1e5", "1E+5", "2.5e-3", "inf", "-Infinity", "NaN", " 3 "] {
        assert!(is_float_text(ok), "{ok}");
        assert!(ok.trim().parse::<f64>().is_ok(), "{ok}");
    }
    for bad in [".", "e5", "1e", "1e+", "1..2", "--1", "infin", "0x10", "", "1 2"] {
        assert!(!is_float_text(bad), "{bad}");
        assert!(bad.trim().parse::<f64>().is_err(), "{bad}");
    }
}

#[test]
fn parse_f64_keeps_trimmed_text() {
    assert_eq!(parse_f64(" 72.0 ", "x").unwrap(), "72.0");
    assert_eq!(parse_f64("7..2", "x").unwrap_err().message(), "invalid x: '7..2'");
}
