use bincode_json::ser::{
    MapSerializer, SeqSerializer, SeqVariantSerializer, Serializer, StructSerializer,
    StructVariantSerializer,
};
use bincode_json::value::Value;

#[test]
fn type_tag_predicates() {
    let v = Value::Integer(3);
    assert!(v.is_integer());
    assert!(!v.is_null());
    assert!(!v.is_str());
    assert!(!v.is_float());
    assert!(!v.is_blob());
    assert!(!v.is_bool());
    assert!(Value::Null.is_null());
    assert!(Value::String("s".to_string()).is_str());
    assert!(Value::Float(1.5f64.to_bits()).is_float());
    assert!(Value::Blob(vec![1]).is_blob());
    assert!(Value::Boolean(true).is_bool());
}

#[test]
fn typed_accessors() {
    assert_eq!(Value::Integer(3).as_integer(), Some(&3));
    assert_eq!(Value::Null.as_integer(), None);
    assert_eq!(Value::String("s".to_string()).as_str(), Some("s"));
    assert_eq!(Value::Integer(3).as_str(), None);
    assert_eq!(Value::Float(1.5f64.to_bits()).as_float(), Some(&1.5f64.to_bits()));
    assert_eq!(Value::Blob(vec![1, 2]).as_blob(), Some(&[1u8, 2][..]));
    assert_eq!(Value::Boolean(true).as_bool(), Some(&true));
    assert_eq!(Value::Boolean(true).as_float(), None);
}

#[test]
fn error_descriptions() {
    assert_eq!(Value::Null.error_description(), "type null");
    assert_eq!(Value::Blob(vec![]).error_description(), "type blob");
    assert_eq!(Value::Boolean(true).error_description(), "type boolean");
    assert_eq!(Value::Integer(1).error_description(), "type integer");
    assert_eq!(Value::Float(0).error_description(), "type float");
    assert_eq!(Value::Object(vec![]).error_description(), "type object");
    assert_eq!(Value::String(String::new()).error_description(), "type string");
    assert_eq!(Value::Array(vec![]).error_description(), "type array");
}

#[test]
fn conversions_from_integers() {
    assert_eq!(Value::from(-5i8), Value::Integer(-5));
    assert_eq!(Value::from(200u8), Value::Integer(200));
    assert_eq!(Value::from(-300i16), Value::Integer(-300));
    assert_eq!(Value::from(60000u16), Value::Integer(60000));
    assert_eq!(Value::from(-70000i32), Value::Integer(-70000));
    assert_eq!(Value::from(3_000_000_000u32), Value::Integer(3_000_000_000));
    assert_eq!(Value::from(i64::MIN), Value::Integer(i64::MIN));
    // An unsigned value above the signed range keeps its bit pattern.
    assert_eq!(Value::from(u64::MAX), Value::Integer(-1));
    assert_eq!(Value::from(7u64), Value::Integer(7));
    assert_eq!(Value::from("hi"), Value::String("hi".to_string()));
}

#[test]
fn serializer_primitives() {
    let s = Serializer::new();
    assert!(!s.is_human_readable());
    assert_eq!(s.serialize_bool(true).unwrap(), Value::Boolean(true));
    assert_eq!(s.serialize_i64(-2).unwrap(), Value::Integer(-2));
    assert_eq!(s.serialize_u64(u64::MAX).unwrap(), Value::Integer(-1));
    assert_eq!(
        s.serialize_f64(2.5f64.to_bits()).unwrap(),
        Value::Float(2.5f64.to_bits())
    );
    assert_eq!(s.serialize_char('x').unwrap(), Value::String("x".to_string()));
    assert_eq!(s.serialize_str("ab").unwrap(), Value::String("ab".to_string()));
    assert_eq!(s.serialize_bytes(&vec![1, 2]).unwrap(), Value::Blob(vec![1, 2]));
    assert_eq!(s.serialize_none().unwrap(), Value::Null);
    assert_eq!(s.serialize_unit().unwrap(), Value::Array(vec![]));
    assert_eq!(
        s.serialize_unit_variant("Quit").unwrap(),
        Value::String("Quit".to_string())
    );
}

#[test]
fn seq_builder() {
    let mut b = SeqSerializer::new();
    b.serialize_element(Value::Integer(1));
    b.serialize_element(Value::Boolean(false));
    assert_eq!(
        b.end(),
        Value::Array(vec![Value::Integer(1), Value::Boolean(false)])
    );
}

#[test]
fn seq_variant_builder() {
    let mut b = SeqVariantSerializer::new("Pair".to_string());
    b.serialize_field(Value::Integer(1));
    b.serialize_field(Value::Integer(2));
    assert_eq!(
        b.end(),
        Value::Object(vec![(
            "Pair".to_string(),
            Value::Array(vec![Value::Integer(1), Value::Integer(2)])
        )])
    );
}

#[test]
fn map_builder_enforces_string_keys() {
    let mut b = MapSerializer::new();
    b.serialize_key(Value::String("k".to_string())).unwrap();
    b.serialize_value(Value::Integer(1));
    let e = b.serialize_key(Value::Integer(9)).unwrap_err();
    assert_eq!(
        e,
        bincode_json::error::Error::Expected("type str".to_string(), "type integer".to_string())
    );
    assert_eq!(
        b.end(),
        Value::Object(vec![("k".to_string(), Value::Integer(1))])
    );
}

#[test]
fn map_builder_value_without_key_uses_empty_string() {
    let mut b = MapSerializer::new();
    b.serialize_value(Value::Integer(1));
    assert_eq!(
        b.end(),
        Value::Object(vec![(String::new(), Value::Integer(1))])
    );
}

#[test]
fn struct_builder_overwrites_repeated_fields_in_place() {
    let mut b = StructSerializer::new();
    b.serialize_field("a", Value::Integer(1));
    b.serialize_field("b", Value::Integer(2));
    b.serialize_field("a", Value::Integer(3));
    assert_eq!(
        b.end(),
        Value::Object(vec![
            ("a".to_string(), Value::Integer(3)),
            ("b".to_string(), Value::Integer(2)),
        ])
    );
}

#[test]
fn struct_variant_builder() {
    let mut b = StructVariantSerializer::new("Move".to_string());
    b.serialize_field("x", Value::Integer(1));
    b.serialize_field("y", Value::Integer(2));
    assert_eq!(
        b.end(),
        Value::Object(vec![(
            "Move".to_string(),
            Value::Object(vec![
                ("x".to_string(), Value::Integer(1)),
                ("y".to_string(), Value::Integer(2)),
            ])
        )])
    );
}

#[test]
fn builders_via_serializer_entry_points() {
    let s = Serializer::default();
    let mut seq = s.serialize_seq();
    seq.serialize_element(Value::Null);
    assert_eq!(seq.end(), Value::Array(vec![Value::Null]));
    let map = s.serialize_map();
    assert_eq!(map.end(), Value::Object(vec![]));
    let st = s.serialize_struct();
    assert_eq!(st.end(), Value::Object(vec![]));
    let tv = s.serialize_tuple_variant("T");
    assert_eq!(
        tv.end(),
        Value::Object(vec![("T".to_string(), Value::Array(vec![]))])
    );
    let sv = s.serialize_struct_variant("S");
    assert_eq!(
        sv.end(),
        Value::Object(vec![("S".to_string(), Value::Object(vec![]))])
    );
}
