use opencapx::alerting::routes::trial_payload;
use opencapx::crypt::{decode_hex, hex_number, hex_padded, hex_text, is_hex_readable};
use opencapx::json::{Json, is_truthy, lookup_json_path, parse_u64, parse_usize};
use opencapx::order::{sort_texts, text_before};
use opencapx::text::{byte_len, chars_of, contains, decimal, ends_with, find_at, has_char, is_blank, is_one_of, rfind_at, starts_with, to_lower_ascii, trim, trim_end, trim_start};
use opencapx::values::{drop_member, json_equal, number_value, set_member, signed_value};
use opencapx::words::{join_texts, normalize_space, split_words, take_chars};

fn json(text: &str) -> Json {
    trial_payload(text).unwrap()
}

#[test]
fn words_are_joined_by_one_space() {
    assert_eq!(normalize_space("  a \n b\t c "), "a b c");
    assert_eq!(split_words(" x  y "), vec!["x".to_string(), "y".to_string()]);
    assert_eq!(take_chars("héllo", 2), "hé");
    assert_eq!(take_chars("a", 9), "a");
    assert_eq!(join_texts(&["a".to_string(), "b".to_string()], ", "), "a, b");
    assert_eq!(opencapx::words::signed_decimal(-12), "-12");
    assert_eq!(opencapx::words::signed_decimal(i64::MIN), "-9223372036854775808");
}

#[test]
fn texts_are_trimmed_and_searched() {
    assert_eq!(trim(" \u{3000}x y\n"), "x y");
    assert_eq!(trim_start("  x "), "x ");
    assert_eq!(trim_end(" x  "), " x");
    assert!(is_blank(" \t"));
    assert!(starts_with("plugin.x", "plugin."));
    assert!(ends_with("a.wav", ".wav"));
    assert!(contains("abc", "bc"));
    assert!(!contains("abc", "cb"));
    assert_eq!(to_lower_ascii("HÉ"), "hÉ");
    assert_eq!(byte_len("é"), 2);
    assert_eq!(decimal(0), "0");
    assert_eq!(decimal(u64::MAX), "18446744073709551615");
    assert!(has_char("a/b", '/'));
    assert!(is_one_of(&["a".to_string()], "a"));
    assert_eq!(find_at(&chars_of("abcabc"), &chars_of("c"), 3), Some(5));
    assert_eq!(rfind_at(&chars_of("abcabc"), &chars_of("a")), Some(3));
}

#[test]
fn lists_are_sorted_with_every_value_kept() {
    let list = vec!["b".to_string(), "a".to_string(), "b".to_string()];
    assert_eq!(sort_texts(list), vec!["a".to_string(), "b".to_string(), "b".to_string()]);
    assert!(text_before("a", "ab"));
    assert!(!text_before("b", "ab"));
}

#[test]
fn bytes_read_back_from_hex() {
    let bytes = [0u8, 15, 16, 255];
    assert_eq!(hex_text(&bytes), "000f10ff");
    assert!(is_hex_readable("000f10ff"));
    assert_eq!(decode_hex("000f10ff").unwrap(), bytes.to_vec());
    assert!(decode_hex("0").is_err());
    assert!(decode_hex("zz").is_err());
    assert_eq!(hex_number(255), "ff");
    assert_eq!(hex_padded(255, 4), "00ff");
}

#[test]
fn members_are_set_and_dropped() {
    let mut members = vec![("a".to_string(), json("1"))];
    set_member(&mut members, "b", json("2"));
    set_member(&mut members, "a", json("3"));
    let object = Json::Object(members);
    assert_eq!(object.member("a"), Some(&json("3")));
    assert_eq!(object.member("b"), Some(&json("2")));
    if let Json::Object(members) = object {
        let (left, dropped) = drop_member(members, "a");
        assert!(dropped);
        assert!(Json::Object(left).member("a").is_none());
    }
}

#[test]
fn values_are_looked_up_and_compared() {
    let v = json(r#"{"a": {"b": [1, "x"]}, "t": "text", "f": false}"#);
    assert_eq!(lookup_json_path(&v, "a.b"), Some(&json(r#"[1, "x"]"#)));
    assert_eq!(lookup_json_path(&v, "a.c"), None);
    assert_eq!(v.text_at_or("t", "else"), "text");
    assert_eq!(v.text_at_or("none", "else"), "else");
    assert_eq!(v.bool_at("f"), Some(false));
    assert!(json_equal(&v, &v));
    assert!(!json_equal(&v, &json("{}")));
    assert!(is_truthy(&json("1")));
    assert!(!is_truthy(&json("0")));
    assert!(!is_truthy(&json(r#""""#)));
    assert_eq!(parse_u64("18446744073709551615"), Some(u64::MAX));
    assert_eq!(parse_u64("18446744073709551616"), None);
    assert_eq!(parse_usize("x"), None);
    assert_eq!(signed_value(-3), json("-3"));
    assert_eq!(number_value(3), json("3"));
}

#[test]
fn hex_may_be_spaced() {
    assert!(is_hex_readable(" 00 0f 10 "));
    assert_eq!(decode_hex(" 00 0f 10 ").unwrap(), vec![0, 15, 16]);
}
