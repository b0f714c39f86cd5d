use fast_record::text::fmt_usize;
use fast_record::text::parse_bool;
use fast_record::text::parse_u8;
use fast_record::text::parse_usize;
use fast_record::text::split_once_str;
use fast_record::text::tokenize;
use fast_record::pad_truncate;

#[test]
fn tokenize_char_mode_one_token_per_scalar() {
    let toks = tokenize("ab", false);
    assert_eq!(toks, vec!["a".to_string(), "b".to_string()]);
    let empty = tokenize("", false);
    assert_eq!(empty, Vec::<String>::new());
}

#[test]
fn tokenize_word_mode_keeps_empty_tokens() {
    let toks = tokenize("a  b", true);
    assert_eq!(toks, vec!["a".to_string(), "".to_string(), "b".to_string()]);
    let single = tokenize("", true);
    assert_eq!(single, vec!["".to_string()]);
    let words = tokenize("hello world", true);
    assert_eq!(words, vec!["hello".to_string(), "world".to_string()]);
}

#[test]
fn split_once_at_first_occurrence() {
    let r = split_once_str("a\tb\tc", "\t").unwrap();
    assert_eq!(r.0, "a");
    assert_eq!(r.1, "b\tc");
    assert!(split_once_str("abc", "\t").is_none());
    let multi = split_once_str("x=>y", "=>").unwrap();
    assert_eq!(multi.0, "x");
    assert_eq!(multi.1, "y");
    assert!(split_once_str("abc", "").is_none());
}

#[test]
fn parse_usize_decimal() {
    assert_eq!(parse_usize("123"), Some(123));
    assert_eq!(parse_usize("+7"), Some(7));
    assert_eq!(parse_usize("0"), Some(0));
    assert_eq!(parse_usize(""), None);
    assert_eq!(parse_usize("+"), None);
    assert_eq!(parse_usize("12a"), None);
    assert_eq!(parse_usize("-3"), None);
    assert_eq!(parse_usize("99999999999999999999999999999"), None);
}

#[test]
fn parse_u8_is_capped_at_eight_bits() {
    assert_eq!(parse_u8("255"), Some(255));
    assert_eq!(parse_u8("256"), None);
    assert_eq!(parse_u8("2"), Some(2));
}

#[test]
fn parse_bool_exact_words_only() {
    assert_eq!(parse_bool("true"), Some(true));
    assert_eq!(parse_bool("false"), Some(false));
    assert_eq!(parse_bool("True"), None);
    assert_eq!(parse_bool(""), None);
}

#[test]
fn fmt_usize_decimal() {
    assert_eq!(fmt_usize(0), "0");
    assert_eq!(fmt_usize(7), "7");
    assert_eq!(fmt_usize(1234), "1234");
    assert_eq!(fmt_usize(100), "100");
}

#[test]
fn pad_truncate_fixed_width() {
    assert_eq!(pad_truncate(vec![1, 2], 4), vec![1, 2, 0, 0]);
    assert_eq!(pad_truncate(vec![1, 2, 3, 4, 5], 4), vec![1, 2, 3, 4]);
    assert_eq!(pad_truncate(vec![], 3), vec![0, 0, 0]);
    assert_eq!(pad_truncate(vec![9, 9], 2), vec![9, 9]);
}
