use openclaw_bridge::bridge::{is_reset_trigger, strip_reset_trigger};
use openclaw_bridge::codec::{p_num, p_string};

#[test]
fn bare_triggers_reset() {
    assert!(is_reset_trigger("/new"));
    assert!(is_reset_trigger("/reset"));
    assert!(is_reset_trigger("  /new  "));
    assert!(!is_reset_trigger("/newer"));
    assert!(!is_reset_trigger("new"));
    assert!(!is_reset_trigger("hello"));
}

#[test]
fn triggers_with_remainder_reset_and_strip() {
    assert!(is_reset_trigger("/new start fresh"));
    assert!(is_reset_trigger("/reset please"));
    assert_eq!(strip_reset_trigger("/new start fresh").as_str(), "start fresh");
    assert_eq!(strip_reset_trigger("  /reset please  ").as_str(), "please");
    assert_eq!(strip_reset_trigger("/new").as_str(), "");
    assert_eq!(strip_reset_trigger("/reset").as_str(), "");
}

#[test]
fn non_triggers_pass_through_strip() {
    assert_eq!(strip_reset_trigger("hello").as_str(), "hello");
    assert_eq!(strip_reset_trigger("/newer thing").as_str(), "/newer thing");
}

#[test]
fn number_parser_reads_decimal_runs() {
    assert_eq!(p_num("123", 0), Some((123, 3)));
    assert_eq!(p_num("-45x", 0), Some((-45, 3)));
    assert_eq!(p_num("9223372036854775807", 0), Some((i64::MAX, 19)));
    assert_eq!(p_num("9223372036854775808", 0), None);
    assert_eq!(p_num("x1", 0), None);
    assert_eq!(p_num("", 0), None);
}

#[test]
fn string_parser_reads_escapes() {
    let (s, end) = p_string("\"a\\\"b\\\\c\\u000ad\"", 0).unwrap();
    assert_eq!(s.as_str(), "a\"b\\c\nd");
    assert_eq!(end, 16);
    let (t, _) = p_string("\"\\b\\f\\n\\r\\t\\/\"", 0).unwrap();
    assert_eq!(t.as_str(), "\u{8}\u{c}\n\r\t/");
    assert!(p_string("\"unterminated", 0).is_none());
    assert!(p_string("plain", 0).is_none());
}

#[test]
fn string_parser_reads_unicode_escapes() {
    let (s, _) = p_string("\"caf\\u00e9\"", 0).unwrap();
    assert_eq!(s.as_str(), "café");
    let (t, _) = p_string("\"\\u2603\"", 0).unwrap();
    assert_eq!(t.as_str(), "\u{2603}");
    assert!(p_string("\"\\ud800\"", 0).is_none());
    assert!(p_string("\"\\u12g4\"", 0).is_none());
}
