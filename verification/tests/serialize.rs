use opentelemetry_stdout::is_zero;
use opentelemetry_stdout::records::{Resource, Scope};
use opentelemetry_stdout::source::{SourceKeyValue, SourceValue};
use opentelemetry_stdout::values::{Key, KeyValue, Value};
use opentelemetry_stdout::wire::{
    key_value_json, pieces_to_string, resource_json, resource_json_pieces, scope_json, value_json,
    JsonPiece,
};

fn pair(key: &str, value: SourceValue) -> SourceKeyValue {
    SourceKeyValue { key: String::from(key), value }
}

/// What an unverified sink does with the pieces: renders each double slot
/// from its bit pattern and joins the text.
fn render(pieces: &[JsonPiece]) -> String {
    let mut out = String::new();
    for piece in pieces {
        match piece {
            JsonPiece::Text(text) => out.push_str(text),
            JsonPiece::Double(bits) => {
                let rendered = serde_json::to_string(&f64::from_bits(*bits)).unwrap();
                out.push_str(&rendered);
            }
        }
    }
    out
}

#[test]
fn is_zero_decides_zero() {
    assert!(is_zero(&0));
    assert!(!is_zero(&1));
    assert!(!is_zero(&u64::MAX));
}

#[test]
fn string_key_value_serializes_exactly() {
    let kv = KeyValue {
        key: Key(String::from("exporter")),
        value: Value::Str(String::from("jaeger")),
    };
    let text = key_value_json(&kv).unwrap();
    assert_eq!(text, r#"{"key":"exporter","value":{"stringValue":"jaeger"}}"#);
}

#[test]
fn bool_array_serializes_exactly() {
    let value = Value::Array(vec![Value::Bool(true), Value::Bool(false)]);
    let text = value_json(&value).unwrap();
    assert_eq!(text, r#"{"arrayValue":[{"boolValue":true},{"boolValue":false}]}"#);
}

#[test]
fn empty_array_serializes_exactly() {
    let text = value_json(&Value::Array(vec![])).unwrap();
    assert_eq!(text, r#"{"arrayValue":[]}"#);
}

#[test]
fn int_values_serialize_exactly() {
    assert_eq!(value_json(&Value::Int(0)).unwrap(), r#"{"intValue":0}"#);
    assert_eq!(value_json(&Value::Int(-42)).unwrap(), r#"{"intValue":-42}"#);
    assert_eq!(
        value_json(&Value::Int(i64::MAX)).unwrap(),
        r#"{"intValue":9223372036854775807}"#
    );
    assert_eq!(
        value_json(&Value::Int(i64::MIN)).unwrap(),
        r#"{"intValue":-9223372036854775808}"#
    );
}

#[test]
fn string_escaping_matches_json() {
    let raw = "a\"b\\c\nd\u{1b}e\tf\u{0}";
    let value = Value::Str(String::from(raw));
    let text = value_json(&value).unwrap();
    assert_eq!(
        text,
        "{\"stringValue\":\"a\\\"b\\\\c\\nd\\u001be\\tf\\u0000\"}"
    );
    let expected_inner = serde_json::to_string(raw).unwrap();
    assert_eq!(text, format!("{{\"stringValue\":{}}}", expected_inner));
}

#[test]
fn double_serializes_through_a_slot() {
    let bits = 1.5f64.to_bits();
    let value = Value::Double(bits);
    assert_eq!(value_json(&value), None);

    let mut pieces: Vec<JsonPiece> = Vec::new();
    opentelemetry_stdout::wire::write_value(&value, &mut pieces);
    assert!(pieces.contains(&JsonPiece::Double(bits)));
    assert_eq!(render(&pieces), r#"{"doubleValue":1.5}"#);
}

#[test]
fn double_inside_array_renders_in_place() {
    let bits_a = 0.25f64.to_bits();
    let bits_b = (-2.0f64).to_bits();
    let value = Value::Array(vec![Value::Double(bits_a), Value::Double(bits_b)]);
    let mut pieces: Vec<JsonPiece> = Vec::new();
    opentelemetry_stdout::wire::write_value(&value, &mut pieces);
    assert_eq!(
        render(&pieces),
        r#"{"arrayValue":[{"doubleValue":0.25},{"doubleValue":-2.0}]}"#
    );
}

#[test]
fn empty_resource_omits_dropped_count() {
    let resource = Resource::from_source(vec![]);
    let text = resource_json(&resource).unwrap();
    assert_eq!(text, r#"{"attributes":[]}"#);
}

#[test]
fn resource_with_nonzero_dropped_count_emits_it() {
    let resource = Resource {
        attributes: Vec::new(),
        dropped_attributes_count: 7,
    };
    let text = resource_json(&resource).unwrap();
    assert_eq!(text, r#"{"attributes":[],"droppedAttributesCount":7}"#);
}

#[test]
fn resource_serializes_attributes_in_order() {
    let resource = Resource::from_source(vec![
        pair("b", SourceValue::Int(1)),
        pair("a", SourceValue::Bool(true)),
    ]);
    let text = resource_json(&resource).unwrap();
    assert_eq!(
        text,
        r#"{"attributes":[{"key":"b","value":{"intValue":1}},{"key":"a","value":{"boolValue":true}}]}"#
    );
}

#[test]
fn resource_with_double_attribute_has_no_plain_text() {
    let resource = Resource::from_source(vec![pair(
        "ratio",
        SourceValue::Double(0.5f64.to_bits()),
    )]);
    assert_eq!(resource_json(&resource), None);
    let pieces = resource_json_pieces(&resource);
    assert_eq!(pieces_to_string(&pieces), None);
    assert_eq!(
        render(&pieces),
        r#"{"attributes":[{"key":"ratio","value":{"doubleValue":0.5}}]}"#
    );
}

#[test]
fn empty_scope_serializes_as_empty_object() {
    let scope = Scope::from_source(String::new(), None);
    let text = scope_json(&scope).unwrap();
    assert_eq!(text, r#"{}"#);
}

#[test]
fn scope_with_name_and_version_serializes_both() {
    let scope = Scope::from_source(String::from("my-lib"), Some(String::from("1.2.3")));
    let text = scope_json(&scope).unwrap();
    assert_eq!(text, r#"{"name":"my-lib","version":"1.2.3"}"#);
}

#[test]
fn scope_with_version_only_omits_name() {
    let scope = Scope::from_source(String::new(), Some(String::from("0.1.0")));
    let text = scope_json(&scope).unwrap();
    assert_eq!(text, r#"{"version":"0.1.0"}"#);
}

#[test]
fn scope_with_name_only_omits_version() {
    let scope = Scope::from_source(String::from("lib"), None);
    let text = scope_json(&scope).unwrap();
    assert_eq!(text, r#"{"name":"lib"}"#);
}

#[test]
fn serialized_output_parses_as_json() {
    let flags = opentelemetry_stdout::source::SourceArray::Int(vec![1, 2, 3]);
    let resource = Resource::from_source(vec![
        pair("service.name", SourceValue::Str(String::from("demo"))),
        pair("flags", SourceValue::Array(flags)),
    ]);
    let text = resource_json(&resource).unwrap();
    let parsed: serde_json::Value = serde_json::from_str(&text).unwrap();
    assert_eq!(
        parsed["attributes"][0]["value"]["stringValue"],
        serde_json::Value::String(String::from("demo"))
    );
    assert_eq!(parsed["attributes"][1]["value"]["arrayValue"][2]["intValue"], serde_json::Value::from(3i64));
}
