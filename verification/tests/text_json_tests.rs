use foundryvtt_streamdeck::json::{object, Json};
use foundryvtt_streamdeck::text::{format_decimal, format_hex_lower, is_blank, is_whitespace, str_eq, trim};

fn s(v: &str) -> Json {
    Json::Str(v.to_string())
}

fn obj(members: Vec<(&str, Json)>) -> Json {
    object(members.into_iter().map(|(k, v)| (k.to_string(), v)).collect())
}

#[test]
fn trim_matches_std() {
    for t in ["", "  a b  ", "\u{3000}x\u{2028}", "\t\n", "\u{85}y\u{a0}", "\u{200b}z", "no"] {
        assert_eq!(trim(t), t.trim(), "input {t:?}");
    }
    assert!(is_blank(" \u{2003} "));
    assert!(!is_blank(" x "));
}

#[test]
fn whitespace_matches_std() {
    for c in (0u32..0x3100).filter_map(char::from_u32) {
        assert_eq!(is_whitespace(c), c.is_whitespace(), "char {:x}", c as u32);
    }
}

#[test]
fn number_formatting() {
    assert_eq!(format_decimal(0), "0");
    assert_eq!(format_decimal(1234567890), "1234567890");
    assert_eq!(format_decimal(u64::MAX), u64::MAX.to_string());
    assert_eq!(format_hex_lower(0), "0");
    assert_eq!(format_hex_lower(0xbeef), "beef");
    assert_eq!(format_hex_lower(u64::MAX), format!("{:x}", u64::MAX));
}

#[test]
fn string_equality() {
    assert!(str_eq("é", "é"));
    assert!(!str_eq("é", "e"));
    assert!(!str_eq("ab", "abc"));
    assert!(str_eq("", ""));
}

#[test]
fn json_member_lookup() {
    let v = obj(vec![("a", Json::UInt(1)), ("b", s("x")), ("a", Json::UInt(2))]);
    assert_eq!(v.get("a"), Some(&Json::UInt(1)));
    assert_eq!(v.get_str("b"), Some("x"));
    assert_eq!(v.get_str("a"), None);
    assert_eq!(v.get("zz"), None);
    assert_eq!(s("x").get("a"), None);
    assert_eq!(Json::Int(-3).as_u64(), None);
    assert_eq!(Json::Int(3).as_u64(), Some(3));
    assert_eq!(Json::Bool(true).as_bool(), Some(true));
    assert!(Json::Null.is_null());
    assert_eq!(v.get_string_or_empty("missing"), "");
}

#[test]
fn json_with_member_replaces_in_place() {
    let v = obj(vec![("a", Json::UInt(1)), ("b", Json::UInt(2))]);
    let w = v.with_member("a", s("new"));
    assert_eq!(w, obj(vec![("a", s("new")), ("b", Json::UInt(2))]));
    let x = w.with_member("c", Json::Null);
    assert_eq!(x, obj(vec![("a", s("new")), ("b", Json::UInt(2)), ("c", Json::Null)]));
    assert_eq!(Json::Null.with_member("k", Json::Bool(false)), obj(vec![("k", Json::Bool(false))]));
}

#[test]
fn json_duplicate_and_pointer() {
    let v = obj(vec![("list", Json::Array(vec![s("a"), obj(vec![("n", Json::Float("1.5".to_string()))])]))]);
    assert_eq!(v.duplicate(), v);
    assert_eq!(Json::Array(vec![s("first"), s("second")]).pointer_first(), Some(&s("first")));
    assert_eq!(obj(vec![("0", s("zero"))]).pointer_first(), Some(&s("zero")));
    assert_eq!(Json::Array(vec![]).pointer_first(), None);
    assert_eq!(s("x").pointer_first(), None);
}
