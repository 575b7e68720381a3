use cc_switch::profile::{check_profile_content, JsonCheckError};
use cc_switch::{canonical_json_value, JsonMember, JsonValue};

fn num(text: &str) -> JsonValue {
    JsonValue::Number(text.to_string())
}

fn text(value: &str) -> JsonValue {
    JsonValue::Str(value.to_string())
}

fn object(members: Vec<(&str, JsonValue)>) -> JsonValue {
    JsonValue::Object(
        members
            .into_iter()
            .map(|(key, value)| JsonMember { key: key.to_string(), value })
            .collect(),
    )
}

fn canonical(value: &JsonValue) -> String {
    canonical_json_value(value).unwrap()
}

#[test]
fn scalars_render_as_json() {
    assert_eq!(canonical(&JsonValue::Null), "null");
    assert_eq!(canonical(&JsonValue::Bool(true)), "true");
    assert_eq!(canonical(&JsonValue::Bool(false)), "false");
    assert_eq!(canonical(&num("-1.5")), "-1.5");
    assert_eq!(canonical(&text("plain")), "\"plain\"");
}

#[test]
fn strings_are_escaped_like_serde_json() {
    assert_eq!(
        canonical(&text("q\"b\\n\nt\tc\u{1}é")),
        "\"q\\\"b\\\\n\\nt\\tc\\u0001é\""
    );
    assert_eq!(canonical(&text("\u{8}\u{c}\r\u{1f}")), "\"\\b\\f\\r\\u001f\"");
}

#[test]
fn objects_are_sorted_by_key_and_compact() {
    let value = object(vec![
        ("mcp", JsonValue::Array(vec![text("b"), text("a")])),
        ("env", object(vec![("B", num("2")), ("A", num("1"))])),
    ]);
    assert_eq!(canonical(&value), "{\"env\":{\"A\":1,\"B\":2},\"mcp\":[\"b\",\"a\"]}");
}

#[test]
fn member_order_does_not_change_the_canonical_text() {
    let first = object(vec![("x", num("1")), ("y", JsonValue::Null), ("a", text("z"))]);
    let second = object(vec![("a", text("z")), ("x", num("1")), ("y", JsonValue::Null)]);
    assert_eq!(canonical(&first), canonical(&second));
}

#[test]
fn different_content_gives_different_text() {
    let first = object(vec![("env", object(vec![("A", num("1"))]))]);
    let second = object(vec![("env", object(vec![("A", num("3"))]))]);
    assert_ne!(canonical(&first), canonical(&second));
}

#[test]
fn empty_containers_render_as_brackets() {
    assert_eq!(canonical(&JsonValue::Array(Vec::new())), "[]");
    assert_eq!(canonical(&object(Vec::new())), "{}");
}

#[test]
fn keys_sort_by_code_point() {
    let value = object(vec![("é", num("1")), ("z", num("2")), ("Z", num("3"))]);
    assert_eq!(canonical(&value), "{\"Z\":3,\"z\":2,\"é\":1}");
}

#[test]
fn look_alike_values_keep_different_texts() {
    let pairs = vec![
        (num("1"), text("1")),
        (JsonValue::Null, text("null")),
        (JsonValue::Array(vec![text("a,b")]), JsonValue::Array(vec![text("a"), text("b")])),
        (
            object(vec![("a", text("b\",\"c"))]),
            object(vec![("a", text("b")), ("c", text(""))]),
        ),
        (JsonValue::Array(vec![JsonValue::Array(Vec::new())]), JsonValue::Array(Vec::new())),
    ];
    for (first, second) in pairs.iter() {
        assert_ne!(canonical(first), canonical(second));
    }
}

#[test]
fn canonical_json_from_slice_parses_and_renders() {
    assert_eq!(
        cc_switch::json::canonical_json_from_slice(b" { \"b\" : 1, \"a\" : [true, null, \"x\"] } "),
        Some("{\"a\":[true,null,\"x\"],\"b\":1}".to_string())
    );
    assert_eq!(cc_switch::json::canonical_json_from_slice(b"-2.5"), Some("-2.5".to_string()));
    assert_eq!(cc_switch::json::canonical_json_from_slice(b"{\"a\":"), None);
    assert_eq!(cc_switch::json::canonical_json_from_slice(b"1 2"), None);
}

#[test]
fn check_profile_content_accepts_only_json() {
    assert_eq!(check_profile_content(b"{\"env\":{}}\n"), Ok(()));
    assert_eq!(check_profile_content(b"env = 1"), Err(JsonCheckError::InvalidJson));
}
