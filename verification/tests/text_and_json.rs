//! Texts and JSON documents.

use wispr_flow_helper::json::{add_item, put, Json};
use wispr_flow_helper::text::{chars_of, contains_text, decimal_text, ends_with_text, is_before};
use wispr_flow_helper::text::{lower_text, same_text, starts_with_text, trim_text, white};

#[test]
fn white_space_is_that_of_unicode() {
    for u in 0..=0x10ffffu32 {
        if let Some(c) = char::from_u32(u) {
            assert_eq!(white(c), c.is_whitespace(), "{u:x}");
        }
    }
}

#[test]
fn texts_are_trimmed_at_both_ends() {
    for s in ["", "  ", " a b ", "a", "\u{3000}x\u{85}", "\n\tname\n"] {
        assert_eq!(trim_text(s), s.trim());
    }
}

#[test]
fn only_ascii_letters_are_lowered() {
    for s in ["", "ABCxyzZ", "ÄÖ-@[`{", "Gnome-Shell"] {
        assert_eq!(lower_text(s), s.to_ascii_lowercase());
    }
}

#[test]
fn parts_are_found() {
    assert!(contains_text("a gnome-shell b", "gnome-shell"));
    assert!(contains_text("abc", ""));
    assert!(!contains_text("ab", "abc"));
    assert!(starts_with_text("event12", "event"));
    assert!(!starts_with_text("eve", "event"));
    assert!(ends_with_text("a.desktop", ".desktop"));
    assert!(!ends_with_text("desktop", ".desktop"));
    assert!(same_text("äb", "äb"));
    assert!(!same_text("ab", "a"));
    assert_eq!(chars_of("aä"), vec!['a', 'ä']);
}

#[test]
fn order_is_that_of_texts() {
    let texts = ["", "a", "aa", "ab", "b", "Z", "ä", "\u{ffff}", "\u{10000}", "a|"];
    for x in texts {
        for y in texts {
            assert_eq!(is_before(x, y), x < y, "{x:?} {y:?}");
        }
    }
}

#[test]
fn decimal_is_exact() {
    for n in [0, 9, 10, 99, 100, 4242, 30_001, u64::MAX] {
        assert_eq!(decimal_text(n), n.to_string());
    }
}

#[test]
fn documents_are_written_and_read() {
    let text = r#"{"a":[1,null,true,"x|y"],"b":{"c":-2,"d":1.5,"e":18446744073709551615}}"#;
    let v = Json::parse(text).unwrap();
    let real: serde_json::Value = serde_json::from_str(text).unwrap();
    assert_eq!(v.pretty(), serde_json::to_string_pretty(&real).unwrap());
    let again = Json::parse(&v.pretty()).unwrap();
    assert_eq!(again.pretty(), v.pretty());
    let items = v.get("a").unwrap().as_array().unwrap();
    assert_eq!(items.len(), 4);
    assert_eq!(items[0].as_u64(), Some(1));
    assert!(items[1].is_null());
    assert_eq!(items[2].as_bool(), Some(true));
    assert_eq!(items[3].as_text().unwrap(), "x|y");
    let b = v.get("b").unwrap();
    assert_eq!(b.get("c").unwrap().as_u64(), None);
    assert_eq!(b.get("d").unwrap().as_u64(), None);
    assert_eq!(b.unsigned_at("e"), u64::MAX);
    assert_eq!(b.unsigned_at("c"), 0);
    assert_eq!(b.text_at("c"), "");
    assert!(v.get("z").is_none());
    assert!(items[0].get("a").is_none());
}

#[test]
fn integers_are_read_back() {
    for (text, unsigned, signed) in [
        ("0", Some(0), Some(0)),
        ("-1", None, Some(-1)),
        ("9223372036854775807", Some(i64::MAX as u64), Some(i64::MAX)),
        ("9223372036854775808", Some(i64::MAX as u64 + 1), None),
        ("-9223372036854775808", None, Some(i64::MIN)),
        ("-9223372036854775809", None, None),
        ("-0", None, None),
        ("1.0", None, None),
        ("\"1\"", None, None),
    ] {
        let v = Json::parse(text).unwrap();
        assert_eq!((v.as_u64(), v.as_i64()), (unsigned, signed), "{text}");
        if signed.is_some() {
            assert_eq!(v.pretty(), text);
            assert_eq!(Json::parse(&v.pretty()).unwrap().as_i64(), signed);
        }
    }
}

#[test]
fn members_are_written_in_the_order_of_their_keys() {
    let mut members = Vec::new();
    put(&mut members, "b", Json::unsigned(1));
    put(&mut members, "a", Json::unsigned(2));
    put(&mut members, "b", Json::unsigned(3));
    let v = Json::Object(members);
    assert_eq!(v.unsigned_at("b"), 3);
    assert_eq!(v.pretty(), "{\n  \"a\": 2,\n  \"b\": 3\n}");
}

#[test]
fn items_keep_their_order() {
    let mut items = Vec::new();
    add_item(&mut items, Json::text("x"));
    add_item(&mut items, Json::Null);
    assert_eq!(Json::Array(items).pretty(), "[\n  \"x\",\n  null\n]");
    assert_eq!(Json::Object(Vec::new()).pretty(), "{}");
}

#[test]
fn errors_of_the_parser_are_told() {
    for bad in ["", "{", "nul", "[1,]", "1 2"] {
        let real = serde_json::from_str::<serde_json::Value>(bad).unwrap_err();
        match Json::parse(bad) {
            Ok(v) => panic!("{v:?}"),
            Err(e) => assert_eq!(e, real.to_string()),
        }
    }
}

#[test]
fn depth_is_limited() {
    let deep = |n: usize| format!("{}{}", "[".repeat(n), "]".repeat(n));
    assert!(Json::parse(&deep(127)).is_ok());
    assert!(Json::parse(&deep(128)).is_err());
}

#[test]
fn later_member_of_a_text_counts() {
    let v = Json::parse(r#"{"k":1,"k":2}"#).unwrap();
    assert_eq!(v.unsigned_at("k"), 2);
}
