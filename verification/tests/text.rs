use kb::keymap::KeyOverrides;
use kb::text::{lines_str, parse_i64, parse_u32, replace_str, split_str, trim_str, words_str};

#[test]
fn lines_follow_str_lines() {
    assert_eq!(lines_str("a\r\nb\n\nc\r"), vec!["a", "b", "", "c\r"]);
    assert_eq!(lines_str(""), Vec::<String>::new());
    assert_eq!(lines_str("x\n"), vec!["x"]);
}

#[test]
fn splitting_and_trimming() {
    assert_eq!(split_str("a/b//c", '/'), vec!["a", "b", "", "c"]);
    assert_eq!(words_str("  a \t bc\u{3000}d "), vec!["a", "bc", "d"]);
    assert_eq!(trim_str("\u{a0} x y \n"), "x y");
    assert_eq!(replace_str("prefixprefix+prefi", "prefix", "Prefix"), "PrefixPrefix+prefi");
}

#[test]
fn integers_parse_like_std() {
    assert_eq!(parse_i64("-9223372036854775808"), Some(i64::MIN));
    assert_eq!(parse_i64("9223372036854775808"), None);
    assert_eq!(parse_i64("+17"), Some(17));
    assert_eq!(parse_i64("1 2"), None);
    assert_eq!(parse_i64("-"), None);
    assert_eq!(parse_i64("99999999999999999999999"), None);
    assert_eq!(parse_u32("4294967295"), Some(u32::MAX));
    assert_eq!(parse_u32("4294967296"), None);
    assert_eq!(parse_u32("-1"), None);
    assert_eq!(parse_u32("07"), Some(7));
}

#[test]
fn overrides_read_back_what_was_written() {
    let mut m = KeyOverrides::new();
    assert!(m.is_empty());
    m.insert("a".to_string(), "1".to_string());
    m.insert("b".to_string(), "2".to_string());
    m.insert("a".to_string(), "3".to_string());
    assert_eq!(m.get("a").unwrap(), "3");
    assert_eq!(m.get("b").unwrap(), "2");
    assert!(m.get("c").is_none());
    assert!(!m.is_empty());
}
