use jsonrpc_core::decode::json_from_chars;
use jsonrpc_core::encode::json_to_chars;
use jsonrpc_core::json::JsonValue;
use jsonrpc_core::text::chars_of;

fn encode(v: &JsonValue) -> String {
    json_to_chars(v).into_iter().collect()
}

fn decode(s: &str) -> Option<JsonValue> {
    json_from_chars(&chars_of(s))
}

#[test]
fn test_encode_scalars() {
    assert_eq!(encode(&JsonValue::Null), "null");
    assert_eq!(encode(&JsonValue::Bool(true)), "true");
    assert_eq!(encode(&JsonValue::Bool(false)), "false");
    assert_eq!(encode(&JsonValue::UInt(0)), "0");
    assert_eq!(encode(&JsonValue::UInt(18446744073709551615)), "18446744073709551615");
    assert_eq!(encode(&JsonValue::Int(-1)), "-1");
    assert_eq!(encode(&JsonValue::Int(-9223372036854775808)), "-9223372036854775808");
}

#[test]
fn test_encode_escapes() {
    let v = JsonValue::Text("a\"b\\c\nd\te\u{8}f\u{c}g\rh\u{1}i".to_string());
    assert_eq!(encode(&v), "\"a\\\"b\\\\c\\nd\\te\\bf\\fg\\rh\\u0001i\"");
}

#[test]
fn test_decode_escapes_round_trip() {
    let v = JsonValue::Text("a\"b\\c\nd\te\u{8}f\u{c}g\rh\u{1}i\u{7f}".to_string());
    assert_eq!(decode(encode(&v).as_str()), Some(v));
}

#[test]
fn test_decode_unicode_escape() {
    assert_eq!(decode(r#""\u0041""#), Some(JsonValue::Text("A".to_string())));
    assert_eq!(decode(r#""\/""#), Some(JsonValue::Text("/".to_string())));
    assert_eq!(decode(r#""\u1234""#), Some(JsonValue::Text("\u{1234}".to_string())));
    assert_eq!(decode(r#""\uCAFE\uBABE""#), Some(JsonValue::Text("\u{CAFE}\u{BABE}".to_string())));
}

#[test]
fn test_decode_surrogate_pair() {
    assert_eq!(decode(r#""\uD83D\uDE00""#), Some(JsonValue::Text("\u{1F600}".to_string())));
    assert_eq!(decode(r#""\ud83d\ude00!""#), Some(JsonValue::Text("\u{1F600}!".to_string())));
    // an unpaired or ill-paired surrogate is refused
    assert_eq!(decode(r#""\uD83D""#), None);
    assert_eq!(decode(r#""\uD83Dx""#), None);
    assert_eq!(decode(r#""\uDE00\uD83D""#), None);
}

#[test]
fn test_decode_numbers() {
    assert_eq!(decode("0"), Some(JsonValue::UInt(0)));
    assert_eq!(decode("-0"), Some(JsonValue::UInt(0)));
    assert_eq!(decode("18446744073709551615"), Some(JsonValue::UInt(18446744073709551615)));
    assert_eq!(decode("18446744073709551616"), None);
    assert_eq!(decode("-9223372036854775808"), Some(JsonValue::Int(-9223372036854775808)));
    assert_eq!(decode("-9223372036854775809"), None);
    assert_eq!(decode("007"), None);
    assert_eq!(decode("1.5"), None);
}

#[test]
fn test_decode_whitespace() {
    let got = decode(" [ 1 , \"x\" , { \"k\" : null } ] ");
    let want = JsonValue::Array(vec![
        JsonValue::UInt(1),
        JsonValue::Text("x".to_string()),
        JsonValue::Object(vec![("k".to_string(), JsonValue::Null)]),
    ]);
    assert_eq!(got, Some(want));
}

#[test]
fn test_nested_round_trip() {
    let v = JsonValue::Object(vec![
        ("empty_list".to_string(), JsonValue::Array(vec![])),
        ("empty_obj".to_string(), JsonValue::Object(vec![])),
        (
            "mixed".to_string(),
            JsonValue::Array(vec![
                JsonValue::Null,
                JsonValue::Bool(false),
                JsonValue::Int(-32700),
                JsonValue::Array(vec![JsonValue::UInt(7)]),
            ]),
        ),
    ]);
    let text = encode(&v);
    assert_eq!(text, r#"{"empty_list":[],"empty_obj":{},"mixed":[null,false,-32700,[7]]}"#);
    assert_eq!(decode(text.as_str()), Some(v));
}

#[test]
fn test_decode_rejects_malformed() {
    assert_eq!(decode(""), None);
    assert_eq!(decode("nul"), None);
    assert_eq!(decode("[1,]2"), None);
    assert_eq!(decode("{\"a\":1"), None);
    assert_eq!(decode("\"unterminated"), None);
}

#[test]
fn test_duplicate_copies_structurally() {
    let v = JsonValue::Object(vec![(
        "xs".to_string(),
        JsonValue::Array(vec![JsonValue::UInt(1), JsonValue::Text("two".to_string())]),
    )]);
    assert_eq!(v.duplicate(), v);
}
