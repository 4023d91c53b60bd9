use bincode_json::error::{BincodeError, Error};
use bincode_json::typed::{Case, Shape, Typed};
use bincode_json::value::Value;
use bincode_json::{from_slice, from_value, to_value};

fn union_shape() -> Shape {
    Shape::Union(vec![
        ("Quit".to_string(), Case::Unit),
        ("Go".to_string(), Case::Newtype(Box::new(Shape::Integer))),
    ])
}

#[test]
fn integer_key_is_rejected() {
    // Encoding a mapping whose key does not serialize to a string fails.
    let t = Typed::Mapping(vec![(Typed::Integer(3), Typed::Integer(1))]);
    let e = to_value(&t).unwrap_err();
    assert_eq!(
        e,
        Error::Expected("type str".to_string(), "type integer".to_string())
    );
}

#[test]
fn two_keys_fail_with_extra_key() {
    let v = Value::Object(vec![
        ("Go".to_string(), Value::Integer(1)),
        ("Quit".to_string(), Value::Null),
    ]);
    let e = from_value(&union_shape(), v).unwrap_err();
    assert_eq!(
        e,
        Error::Expected(
            "map with a single key".to_string(),
            "extra key \"Quit\"".to_string()
        )
    );
}

#[test]
fn empty_object_fails_with_variant_name() {
    let e = from_value(&union_shape(), Value::Object(vec![])).unwrap_err();
    assert_eq!(
        e,
        Error::Expected("variant name".to_string(), "empty object".to_string())
    );
}

#[test]
fn non_enum_value_at_enum_position() {
    let e = from_value(&union_shape(), Value::Integer(4)).unwrap_err();
    assert_eq!(
        e,
        Error::Expected("type integer".to_string(), "expected an enum".to_string())
    );
}

#[test]
fn unknown_variant_tag() {
    let e = from_value(&union_shape(), Value::String("Jump".to_string())).unwrap_err();
    assert_eq!(e, Error::Unknown("Jump".to_string()));
}

#[test]
fn bare_tag_for_payload_case_is_eof() {
    // A payload-carrying case named by a bare string has no payload to
    // read.
    let e = from_value(&union_shape(), Value::String("Go".to_string())).unwrap_err();
    assert_eq!(e, Error::Eof);
}

#[test]
fn tuple_payload_must_be_array() {
    let shape = Shape::Union(vec![(
        "Pair".to_string(),
        Case::Tuple(vec![Shape::Integer, Shape::Integer]),
    )]);
    let v = Value::Object(vec![("Pair".to_string(), Value::Integer(1))]);
    let e = from_value(&shape, v).unwrap_err();
    assert_eq!(
        e,
        Error::Expected("type integer".to_string(), "expected a tuple".to_string())
    );
}

#[test]
fn struct_payload_must_be_object() {
    let shape = Shape::Union(vec![(
        "Move".to_string(),
        Case::Fields(vec![("x".to_string(), Shape::Integer)]),
    )]);
    let v = Value::Object(vec![("Move".to_string(), Value::Integer(1))]);
    let e = from_value(&shape, v).unwrap_err();
    assert_eq!(
        e,
        Error::Expected("type integer".to_string(), "expected a struct".to_string())
    );
}

#[test]
fn integer_target_fed_object() {
    let v = Value::Object(vec![("id".to_string(), Value::Integer(7))]);
    let e = from_value(&Shape::Integer, v).unwrap_err();
    assert_eq!(
        e,
        Error::Expected("type integer".to_string(), "type object".to_string())
    );
}

#[test]
fn missing_field() {
    let shape = Shape::Fields(vec![("id".to_string(), Shape::Integer)]);
    let e = from_value(&shape, Value::Object(vec![])).unwrap_err();
    assert_eq!(e, Error::Missing("id".to_string()));
}

#[test]
fn duplicated_field() {
    let shape = Shape::Fields(vec![("id".to_string(), Shape::Integer)]);
    let v = Value::Object(vec![
        ("id".to_string(), Value::Integer(1)),
        ("id".to_string(), Value::Integer(2)),
    ]);
    let e = from_value(&shape, v).unwrap_err();
    assert_eq!(e, Error::Duplicated("id".to_string()));
}

#[test]
fn unknown_fields_are_ignored() {
    let shape = Shape::Fields(vec![("id".to_string(), Shape::Integer)]);
    let v = Value::Object(vec![
        ("extra".to_string(), Value::Null),
        ("id".to_string(), Value::Integer(1)),
    ]);
    let t = from_value(&shape, v).unwrap();
    assert_eq!(t, Typed::Fields(vec![("id".to_string(), Typed::Integer(1))]));
}

#[test]
fn tuple_arity_mismatch() {
    let shape = Shape::Tuple(vec![Shape::Integer, Shape::Integer]);
    let v = Value::Array(vec![Value::Integer(1)]);
    let e = from_value(&shape, v).unwrap_err();
    assert_eq!(
        e,
        Error::Expected("length 1".to_string(), "a tuple of size 2".to_string())
    );
}

#[test]
fn truncated_bytes_are_a_codec_error() {
    // The front of an integer encoding, cut short.
    let e = from_slice(&Shape::Integer, &[4u8]).unwrap_err();
    assert_eq!(
        e,
        Error::Bincode(BincodeError::Decode("unexpected end of input".to_string()))
    );
    assert_eq!(
        e.message(),
        "bincode error: decode: unexpected end of input"
    );
}

#[test]
fn bad_value_tag_in_bytes() {
    let e = from_slice(&Shape::Integer, &[9u8]).unwrap_err();
    assert_eq!(
        e,
        Error::Bincode(BincodeError::Decode("invalid value tag".to_string()))
    );
}

#[test]
fn nesting_past_the_depth_limit_fails_closed() {
    // 200 nested one-element arrays: deeper than the decoder's budget.
    let mut bytes: Vec<u8> = Vec::new();
    for _ in 0..200 {
        bytes.push(3);
        bytes.push(1);
    }
    bytes.push(0);
    let e = from_slice(&Shape::Any, &bytes).unwrap_err();
    assert_eq!(
        e,
        Error::Bincode(BincodeError::Decode("nesting too deep".to_string()))
    );
}

#[test]
fn error_messages_render() {
    assert_eq!(Error::Eof.message(), "unexpected eof");
    assert_eq!(
        Error::Custom("boom".to_string()).message(),
        "custom error: boom"
    );
    assert_eq!(
        Error::Expected("type str".to_string(), "type integer".to_string()).message(),
        "expected type str, found type integer"
    );
    assert_eq!(
        Error::Duplicated("id".to_string()).message(),
        "field id was duplicated"
    );
    assert_eq!(
        Error::Missing("id".to_string()).message(),
        "field id was missing"
    );
    assert_eq!(
        Error::Unknown("Jump".to_string()).message(),
        "field or variant Jump was unknown"
    );
}

#[test]
fn error_constructors() {
    assert_eq!(
        Error::custom("x".to_string()),
        Error::Custom("x".to_string())
    );
    assert_eq!(
        Error::invalid_type("map", "i64"),
        Error::Expected("i64".to_string(), "map".to_string())
    );
    assert_eq!(
        Error::invalid_value("7", "a positive number"),
        Error::Expected("a positive number".to_string(), "7".to_string())
    );
    assert_eq!(
        Error::invalid_length(3, "a tuple of size 2"),
        Error::Expected("length 3".to_string(), "a tuple of size 2".to_string())
    );
    assert_eq!(
        Error::invalid_length(1204, "a tuple of size 9"),
        Error::Expected("length 1204".to_string(), "a tuple of size 9".to_string())
    );
    assert_eq!(Error::unknown_variant("X"), Error::Unknown("X".to_string()));
    assert_eq!(Error::unknown_field("f"), Error::Unknown("f".to_string()));
    assert_eq!(Error::missing_field("f"), Error::Missing("f".to_string()));
    assert_eq!(
        Error::duplicate_field("f"),
        Error::Duplicated("f".to_string())
    );
    assert_eq!(
        Error::from(BincodeError::Encode("e".to_string())),
        Error::Bincode(BincodeError::Encode("e".to_string()))
    );
}
