use opentelemetry_stdout::collection::AttributeSet;
use opentelemetry_stdout::records::{Resource, Scope};
use opentelemetry_stdout::source::{SourceArray, SourceKeyValue, SourceValue};
use opentelemetry_stdout::values::{Key, KeyValue, Value};

fn pair(key: &str, value: SourceValue) -> SourceKeyValue {
    SourceKeyValue { key: String::from(key), value }
}

#[test]
fn scalar_bool_keeps_kind_and_value() {
    assert_eq!(Value::from_source(SourceValue::Bool(true)), Value::Bool(true));
    assert_eq!(Value::from_source(SourceValue::Bool(false)), Value::Bool(false));
}

#[test]
fn scalar_int_keeps_kind_and_value() {
    assert_eq!(Value::from_source(SourceValue::Int(-42)), Value::Int(-42));
    assert_eq!(Value::from_source(SourceValue::Int(i64::MAX)), Value::Int(i64::MAX));
    assert_eq!(Value::from_source(SourceValue::Int(i64::MIN)), Value::Int(i64::MIN));
}

#[test]
fn scalar_double_is_bit_exact() {
    let cases: Vec<f64> = vec![1.5, -0.0, 0.0, f64::NAN, f64::INFINITY, f64::MIN_POSITIVE];
    for x in cases {
        let bits = x.to_bits();
        assert_eq!(Value::from_source(SourceValue::Double(bits)), Value::Double(bits));
    }
    let neg_zero = (-0.0f64).to_bits();
    let pos_zero = 0.0f64.to_bits();
    assert_ne!(neg_zero, pos_zero);
    assert_eq!(
        Value::from_source(SourceValue::Double(neg_zero)),
        Value::Double(neg_zero)
    );
}

#[test]
fn scalar_string_keeps_content() {
    let converted = Value::from_source(SourceValue::Str(String::from("jaeger")));
    assert_eq!(converted, Value::Str(String::from("jaeger")));
}

#[test]
fn key_copies_content() {
    let key = Key::from_source(String::from("service.name"));
    assert_eq!(key, Key(String::from("service.name")));
}

#[test]
fn arrays_preserve_length_and_order() {
    let converted = Value::from_source(SourceValue::Array(SourceArray::Int(vec![3, 1, 2])));
    assert_eq!(
        converted,
        Value::Array(vec![Value::Int(3), Value::Int(1), Value::Int(2)])
    );

    let converted = Value::from_source(SourceValue::Array(SourceArray::Bool(vec![true, false])));
    assert_eq!(
        converted,
        Value::Array(vec![Value::Bool(true), Value::Bool(false)])
    );

    let bits: Vec<u64> = vec![1.5f64.to_bits(), (-2.25f64).to_bits()];
    let converted = Value::from_source(SourceValue::Array(SourceArray::Double(bits.clone())));
    assert_eq!(
        converted,
        Value::Array(vec![Value::Double(bits[0]), Value::Double(bits[1])])
    );

    let converted = Value::from_source(SourceValue::Array(SourceArray::Str(vec![
        String::from("b"),
        String::from("a"),
    ])));
    assert_eq!(
        converted,
        Value::Array(vec![
            Value::Str(String::from("b")),
            Value::Str(String::from("a"))
        ])
    );
}

#[test]
fn empty_arrays_convert_to_empty_arrays() {
    for source in [
        SourceValue::Array(SourceArray::Bool(vec![])),
        SourceValue::Array(SourceArray::Int(vec![])),
        SourceValue::Array(SourceArray::Double(vec![])),
        SourceValue::Array(SourceArray::Str(vec![])),
    ] {
        assert_eq!(Value::from_source(source), Value::Array(vec![]));
    }
}

#[test]
fn key_value_converts_both_halves() {
    let kv = KeyValue::from_source(pair("exporter", SourceValue::Str(String::from("jaeger"))));
    assert_eq!(kv.key, Key(String::from("exporter")));
    assert_eq!(kv.value, Value::Str(String::from("jaeger")));
}

#[test]
fn attribute_set_sorts_by_key() {
    let set = AttributeSet::from_source(vec![
        pair("b", SourceValue::Int(2)),
        pair("c", SourceValue::Int(3)),
        pair("a", SourceValue::Int(1)),
    ]);
    let keys: Vec<&str> = set.0.iter().map(|kv| kv.key.0.as_str()).collect();
    assert_eq!(keys, vec!["a", "b", "c"]);
}

#[test]
fn attribute_set_last_write_wins_on_duplicate_keys() {
    let set = AttributeSet::from_source(vec![
        pair("b", SourceValue::Int(1)),
        pair("a", SourceValue::Int(2)),
        pair("b", SourceValue::Int(3)),
    ]);
    assert_eq!(set.0.len(), 2);
    assert_eq!(set.0[0].key, Key(String::from("a")));
    assert_eq!(set.0[0].value, Value::Int(2));
    assert_eq!(set.0[1].key, Key(String::from("b")));
    assert_eq!(set.0[1].value, Value::Int(3));
}

#[test]
fn attribute_set_orders_empty_key_first_and_by_code_point() {
    let set = AttributeSet::from_source(vec![
        pair("ab", SourceValue::Int(1)),
        pair("", SourceValue::Int(2)),
        pair("a", SourceValue::Int(3)),
        pair("b", SourceValue::Int(4)),
    ]);
    let keys: Vec<&str> = set.0.iter().map(|kv| kv.key.0.as_str()).collect();
    assert_eq!(keys, vec!["", "a", "ab", "b"]);
}

#[test]
fn resource_preserves_source_order_and_zero_dropped_count() {
    let resource = Resource::from_source(vec![
        pair("b", SourceValue::Int(1)),
        pair("a", SourceValue::Int(2)),
    ]);
    assert_eq!(resource.attributes.len(), 2);
    assert_eq!(resource.attributes[0].key, Key(String::from("b")));
    assert_eq!(resource.attributes[1].key, Key(String::from("a")));
    assert_eq!(resource.dropped_attributes_count, 0);
}

#[test]
fn scope_copies_name_and_version_with_empty_attributes() {
    let scope = Scope::from_source(String::from("my-lib"), Some(String::from("1.2.3")));
    assert_eq!(scope.name, String::from("my-lib"));
    assert_eq!(scope.version, Some(String::from("1.2.3")));
    assert_eq!(scope.attributes.len(), 0);
    assert_eq!(scope.dropped_attributes_count, 0);

    let scope = Scope::from_source(String::new(), None);
    assert_eq!(scope.name, String::new());
    assert_eq!(scope.version, None);
    assert_eq!(scope.attributes.len(), 0);
    assert_eq!(scope.dropped_attributes_count, 0);
}
