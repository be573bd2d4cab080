use codeg::decimal::i64_text;
use codeg::decimal::parse_u64;
use codeg::decimal::u64_text;
use codeg::json::Json;
use codeg::keyed::KeyedStore;
use codeg::text::byte_len;
use codeg::text::contains;
use codeg::text::join;
use codeg::text::replace;
use codeg::text::take_first_line;
use codeg::text::to_ascii_lowercase;
use codeg::text::trim;
use codeg::text::underscore;
use serde_json::Value;

#[test]
fn numbers_are_written_and_read_in_decimal() {
    for n in [0u64, 7, 10, 999, u64::MAX] {
        assert_eq!(u64_text(n), n.to_string());
        assert_eq!(parse_u64(&u64_text(n)), Some(n));
    }
    for n in [0i64, -1, i64::MIN, i64::MAX] {
        assert_eq!(i64_text(n), n.to_string());
    }
    for text in ["", "+", "-1", " 1", "1 ", "18446744073709551616", "1a", "\u{661}"] {
        assert_eq!(parse_u64(text), text.parse::<u64>().ok(), "{text:?}");
    }
    assert_eq!(parse_u64("+007"), Some(7));
}

#[test]
fn text_primitives_agree_with_the_standard_library() {
    for text in ["", "  a b\t\n", "\u{a0}x\u{3000}", "no", "\u{200b}y", "\r\n"] {
        assert_eq!(trim(text), text.trim());
    }
    assert_eq!(to_ascii_lowercase("\u{c4}BC-Z"), "\u{c4}bc-z");
    assert_eq!(underscore("a b-c_d"), "a_b_c_d");
    assert!(contains("abc", ""));
    assert!(contains("abcabd", "abd"));
    assert!(!contains("ab", "abc"));
    assert_eq!(replace("aaab", "aa", "x"), "aaab".replace("aa", "x"));
    for text in ["", "a", "a\nb", "a\r\nb", "a\r", "\nb", "\r\n"] {
        assert_eq!(take_first_line(text), text.lines().next().unwrap_or(text));
    }
    assert_eq!(byte_len("a\u{e9}"), 3);
    assert_eq!(join(&vec!["a".to_string(), "b".to_string()], ", "), "a, b");
    assert_eq!(join(&Vec::new(), ", "), "");
}

#[test]
fn a_store_keeps_its_keys_apart_and_in_order() {
    let mut store = KeyedStore::new();
    assert_eq!(store.insert("b".to_string(), 1), None);
    assert_eq!(store.insert("a".to_string(), 2), None);
    assert_eq!(store.insert("b".to_string(), 3), Some(1));
    assert_eq!(store.len(), 2);
    *store.get_mut("a").unwrap() += 10;
    assert_eq!(store.get("a"), Some(&12));
    *store.value_at(0) += 1;
    assert_eq!(store.remove("c"), None);
    assert_eq!(
        store.take_all(),
        vec![("b".to_string(), 4), ("a".to_string(), 12)]
    );
    assert!(!store.contains_key("a"));
}

#[test]
fn json_goes_through_serde_json_unchanged() {
    let text = r#"{"a":[null,true,1,-2,1.5,"x\u00e9\n"],"b":{"c":18446744073709551615}}"#;
    let json = Json::parse(text).unwrap();
    let expected: Value = serde_json::from_str(text).unwrap();
    assert_eq!(json.to_value(), expected);
    assert_eq!(json.clone().to_value(), expected);
    assert_eq!(json.to_text(), expected.to_string());
    assert_eq!(Json::from_value(expected), json);
    let items = json.get("a").unwrap();
    assert_eq!(items.get("a"), None);
    assert_eq!(json.get("b").unwrap().get("c").unwrap().as_u64(), Some(u64::MAX));
    assert_eq!(json.get("b").unwrap().get("c").unwrap().as_i64(), None);
    assert_eq!(Json::Integer(-2).as_i64(), Some(-2));
    assert_eq!(Json::Integer(2).as_u64(), Some(2));
    assert_eq!(Json::text("t").as_str(), Some("t"));
    assert_eq!(
        Json::parse("[").unwrap_err(),
        serde_json::from_str::<Value>("[").unwrap_err().to_string()
    );
}

#[test]
fn of_two_members_with_one_key_the_last_counts() {
    let json = Json::Object(vec![
        ("k".to_string(), Json::Unsigned(1)),
        ("k".to_string(), Json::Unsigned(2)),
    ]);
    assert_eq!(json.get("k"), Some(&Json::Unsigned(2)));
    assert_eq!(json.to_text(), r#"{"k":2}"#);
    let read = Json::parse(r#"{"k":1,"k":2}"#).unwrap();
    assert_eq!(read.get("k").unwrap().as_u64(), Some(2));
}
