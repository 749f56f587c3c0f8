use grey_signal::canonical::{full_event_bytes, unsigned_bytes};
use grey_signal::envelope::{Envelope, EVENT_SPEC_V1, PROBE_REQUESTED_V1};
use grey_signal::json::{write_canonical, JsonValue};

fn text(s: &str) -> JsonValue {
    JsonValue::Text(s.to_owned())
}

fn object(members: Vec<(&str, JsonValue)>) -> JsonValue {
    JsonValue::Object(members.into_iter().map(|(k, v)| (k.to_owned(), v)).collect())
}

fn canonical(value: &JsonValue) -> String {
    let mut out = String::new();
    write_canonical(value, &mut out);
    out
}

fn from_serde(value: &serde_json::Value) -> JsonValue {
    match value {
        serde_json::Value::Null => JsonValue::Null,
        serde_json::Value::Bool(b) => JsonValue::Bool(*b),
        serde_json::Value::Number(n) => JsonValue::Number(n.to_string()),
        serde_json::Value::String(s) => JsonValue::Text(s.clone()),
        serde_json::Value::Array(items) => JsonValue::Array(items.iter().map(from_serde).collect()),
        serde_json::Value::Object(map) => {
            JsonValue::Object(map.iter().rev().map(|(k, v)| (k.clone(), from_serde(v))).collect())
        }
    }
}

fn envelope() -> Envelope {
    Envelope {
        spec: EVENT_SPEC_V1.to_owned(),
        id: "evt_test_1".to_owned(),
        issuer: "p_test".to_owned(),
        key_id: "k1".to_owned(),
        kind: PROBE_REQUESTED_V1.to_owned(),
        target: "t_test".to_owned(),
        issued_at: "2026-08-30T17:49:00Z".to_owned(),
        expires_at: "2026-08-30T17:55:00Z".to_owned(),
        correlation_id: "cor_test_1".to_owned(),
        causation_id: None,
        payload: object(vec![("nonce", text("opaque-nonce"))]),
        signature: "sig".to_owned(),
    }
}

#[test]
fn unsigned_bytes_are_sorted_compact_json_without_signature() {
    let bytes = unsigned_bytes(&envelope()).unwrap();
    assert_eq!(
        String::from_utf8(bytes).unwrap(),
        [
            r#"{"causation_id":null,"correlation_id":"cor_test_1","expires_at":"2026-08-30T17:55:00Z","#,
            r#""id":"evt_test_1","issued_at":"2026-08-30T17:49:00Z","issuer":"p_test","key_id":"k1","#,
            r#""kind":"probe.requested.v1","payload":{"nonce":"opaque-nonce"},"spec":"grey-signal/event/v1","#,
            r#""target":"t_test"}"#,
        ]
        .concat()
    );
}

#[test]
fn full_event_bytes_include_signature() {
    let mut e = envelope();
    e.causation_id = Some("evt_0".to_owned());
    let bytes = full_event_bytes(&e).unwrap();
    assert_eq!(
        String::from_utf8(bytes).unwrap(),
        [
            r#"{"causation_id":"evt_0","correlation_id":"cor_test_1","expires_at":"2026-08-30T17:55:00Z","#,
            r#""id":"evt_test_1","issued_at":"2026-08-30T17:49:00Z","issuer":"p_test","key_id":"k1","#,
            r#""kind":"probe.requested.v1","payload":{"nonce":"opaque-nonce"},"signature":"sig","#,
            r#""spec":"grey-signal/event/v1","target":"t_test"}"#,
        ]
        .concat()
    );
}

#[test]
fn signature_does_not_change_unsigned_bytes() {
    let a = envelope();
    let mut b = envelope();
    b.signature = "another".to_owned();
    assert_eq!(unsigned_bytes(&a).unwrap(), unsigned_bytes(&b).unwrap());
    assert_ne!(full_event_bytes(&a).unwrap(), full_event_bytes(&b).unwrap());
}

#[test]
fn nested_members_sorted_at_every_level() {
    let value = object(vec![
        ("zeta", JsonValue::Array(vec![object(vec![("b", JsonValue::Bool(true)), ("a", JsonValue::Null)])])),
        ("alpha", object(vec![("y", JsonValue::Number("-1.5".to_owned())), ("x", JsonValue::Bool(false))])),
        ("Zed", JsonValue::Array(vec![])),
        ("é", object(vec![])),
    ]);
    assert_eq!(
        canonical(&value),
        r#"{"Zed":[],"alpha":{"x":false,"y":-1.5},"zeta":[{"a":null,"b":true}],"é":{}}"#
    );
}

#[test]
fn strings_are_escaped_as_json() {
    assert_eq!(canonical(&text("a\"b\\c\n\t\r\u{8}\u{c}\u{1}\u{1f}/é")), "\"a\\\"b\\\\c\\n\\t\\r\\b\\f\\u0001\\u001f/é\"");
}

#[test]
fn canonical_text_matches_serde_json() {
    let sources = [
        r#"{"b":1,"a":[true,null,{"d":"x\ny","c":-2}],"é":"ü","A":{}}"#,
        r#"[1.25,"\u0000",{"k":[[]]}]"#,
        r#""plain""#,
    ];
    for source in sources {
        let value: serde_json::Value = serde_json::from_str(source).unwrap();
        assert_eq!(canonical(&from_serde(&value)), serde_json::to_string(&value).unwrap());
    }
}

#[test]
fn clone_keeps_value_and_canonical_text() {
    let value = object(vec![
        ("b", JsonValue::Array(vec![text("x"), JsonValue::Null, JsonValue::Bool(true)])),
        ("a", object(vec![("z", JsonValue::Number("1.5".to_owned())), ("y", text("q"))])),
    ]);
    let copy = value.clone();
    assert_eq!(copy, value);
    assert_eq!(canonical(&copy), canonical(&value));
    assert_eq!(canonical(&copy), r#"{"a":{"y":"q","z":1.5},"b":["x",null,true]}"#);
}

#[test]
fn member_order_does_not_change_canonical_text() {
    let one = object(vec![("kind", text("k")), ("id", text("i")), ("payload", JsonValue::Null)]);
    let other = object(vec![("payload", JsonValue::Null), ("kind", text("k")), ("id", text("i"))]);
    assert_eq!(canonical(&one), canonical(&other));
    assert_eq!(canonical(&one), r#"{"id":"i","kind":"k","payload":null}"#);
}

#[test]
fn envelope_clone_keeps_canonical_bytes() {
    let original = envelope();
    let copy = original.clone();
    assert_eq!(copy, original);
    assert_eq!(full_event_bytes(&copy).unwrap(), full_event_bytes(&original).unwrap());
}

#[test]
fn full_bytes_insert_signature_between_payload_and_spec() {
    let mut e = envelope();
    e.signature = "c2ln".to_owned();
    let unsigned = String::from_utf8(unsigned_bytes(&e).unwrap()).unwrap();
    let full = String::from_utf8(full_event_bytes(&e).unwrap()).unwrap();
    let cut = unsigned.find(r#","spec":"#).unwrap();
    let expected = format!("{},\"signature\":\"c2ln\"{}", &unsigned[..cut], &unsigned[cut..]);
    assert_eq!(full, expected);
}

#[test]
fn nested_member_order_does_not_change_canonical_text() {
    let one = object(vec![
        ("outer", object(vec![("b", text("2")), ("a", JsonValue::Array(vec![object(vec![("y", JsonValue::Null), ("x", JsonValue::Bool(false))])]))])),
        ("first", text("1")),
    ]);
    let other = object(vec![
        ("first", text("1")),
        ("outer", object(vec![("a", JsonValue::Array(vec![object(vec![("x", JsonValue::Bool(false)), ("y", JsonValue::Null)])])), ("b", text("2"))])),
    ]);
    assert_eq!(canonical(&one), canonical(&other));
    assert_eq!(canonical(&one), r#"{"first":"1","outer":{"a":[{"x":false,"y":null}],"b":"2"}}"#);
}
