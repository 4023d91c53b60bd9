use bincode_json::typed::{Case, Shape, Typed};
use bincode_json::value::Value;
use bincode_json::{from_slice, from_value, to_value, to_vec};

fn person() -> Typed {
    Typed::Fields(vec![
        ("id".to_string(), Typed::Integer(7)),
        ("name".to_string(), Typed::Text("a".to_string())),
    ])
}

fn person_shape() -> Shape {
    Shape::Fields(vec![
        ("id".to_string(), Shape::Integer),
        ("name".to_string(), Shape::Text),
    ])
}

#[test]
fn named_fields_to_value() {
    let v = to_value(&person()).unwrap();
    let expected = Value::Object(vec![
        ("id".to_string(), Value::Integer(7)),
        ("name".to_string(), Value::String("a".to_string())),
    ]);
    assert_eq!(v, expected);
}

#[test]
fn named_fields_round_trip() {
    let v = to_value(&person()).unwrap();
    let back = from_value(&person_shape(), v).unwrap();
    assert_eq!(back, person());
}

#[test]
fn named_fields_bytes_round_trip() {
    let bytes = to_vec(&person()).unwrap();
    let back = from_slice(&person_shape(), &bytes).unwrap();
    assert_eq!(back, person());
}

#[test]
fn primitive_round_trips() {
    let cases: Vec<(Typed, Shape)> = vec![
        (Typed::Bool(true), Shape::Bool),
        (Typed::Integer(-42), Shape::Integer),
        (Typed::Integer(i64::MIN), Shape::Integer),
        (Typed::Integer(i64::MAX), Shape::Integer),
        (Typed::Float(1.5f64.to_bits()), Shape::Float),
        (Typed::Float(f64::NEG_INFINITY.to_bits()), Shape::Float),
        (Typed::Char('é'), Shape::Char),
        (Typed::Text("hellö wörld".to_string()), Shape::Text),
        (Typed::Bytes(vec![0, 255, 3]), Shape::Bytes),
        (Typed::Unit, Shape::Unit),
        (Typed::Absent, Shape::Optional(Box::new(Shape::Integer))),
    ];
    for (t, s) in cases {
        let v = to_value(&t).unwrap();
        assert_eq!(from_value(&s, v).unwrap(), t);
        let bytes = to_vec(&t).unwrap();
        assert_eq!(from_slice(&s, &bytes).unwrap(), t);
    }
}

#[test]
fn nested_round_trip() {
    let t = Typed::Sequence(vec![
        Typed::Mapping(vec![(
            Typed::Text("xs".to_string()),
            Typed::Sequence(vec![Typed::Integer(1), Typed::Integer(2)]),
        )]),
        Typed::Present(Box::new(Typed::Integer(9))),
    ]);
    let s = Shape::Tuple(vec![
        Shape::Mapping(Box::new(Shape::Text), Box::new(Shape::Sequence(Box::new(Shape::Integer)))),
        Shape::Optional(Box::new(Shape::Integer)),
    ]);
    let bytes = to_vec(&t).unwrap();
    assert_eq!(from_slice(&s, &bytes).unwrap(), t);
}

#[test]
fn open_target_describes_itself() {
    // An open target rebuilds what the value actually is: text, numbers,
    // sequences and mappings with text keys.
    let t = Typed::Mapping(vec![
        (Typed::Text("a".to_string()), Typed::Integer(1)),
        (Typed::Text("b".to_string()), Typed::Sequence(vec![Typed::Bool(false)])),
    ]);
    let v = to_value(&t).unwrap();
    assert_eq!(from_value(&Shape::Any, v).unwrap(), t);
}

#[test]
fn unit_variant_tag_fidelity() {
    // A unit case encodes to a bare string equal to its tag name.
    let t = Typed::UnitVariant("Quit".to_string());
    let v = to_value(&t).unwrap();
    assert_eq!(v, Value::String("Quit".to_string()));
    let shape = Shape::Union(vec![
        ("Go".to_string(), Case::Newtype(Box::new(Shape::Integer))),
        ("Quit".to_string(), Case::Unit),
    ]);
    assert_eq!(from_value(&shape, v).unwrap(), t);
}

#[test]
fn struct_variant_example() {
    // Move { x: 1, y: 2 } becomes {"Move": {"x": 1, "y": 2}}.
    let t = Typed::FieldsVariant(
        "Move".to_string(),
        vec![
            ("x".to_string(), Typed::Integer(1)),
            ("y".to_string(), Typed::Integer(2)),
        ],
    );
    let v = to_value(&t).unwrap();
    let expected = Value::Object(vec![(
        "Move".to_string(),
        Value::Object(vec![
            ("x".to_string(), Value::Integer(1)),
            ("y".to_string(), Value::Integer(2)),
        ]),
    )]);
    assert_eq!(v, expected);
}

#[test]
fn variant_round_trips() {
    let shape = Shape::Union(vec![
        ("Quit".to_string(), Case::Unit),
        ("Go".to_string(), Case::Newtype(Box::new(Shape::Integer))),
        ("Pair".to_string(), Case::Tuple(vec![Shape::Integer, Shape::Text])),
        (
            "Move".to_string(),
            Case::Fields(vec![("x".to_string(), Shape::Integer), ("y".to_string(), Shape::Integer)]),
        ),
    ]);
    let cases = vec![
        Typed::UnitVariant("Quit".to_string()),
        Typed::NewtypeVariant("Go".to_string(), Box::new(Typed::Integer(3))),
        Typed::TupleVariant("Pair".to_string(), vec![Typed::Integer(1), Typed::Text("s".to_string())]),
        Typed::FieldsVariant(
            "Move".to_string(),
            vec![("x".to_string(), Typed::Integer(1)), ("y".to_string(), Typed::Integer(2))],
        ),
    ];
    for t in cases {
        let bytes = to_vec(&t).unwrap();
        assert_eq!(from_slice(&shape, &bytes).unwrap(), t);
    }
}

#[test]
fn optional_collapse() {
    // absent -> absent, present(5) -> present(5) through an optional
    // target; absent into a plain integer target is a type mismatch.
    let opt = Shape::Optional(Box::new(Shape::Integer));
    let v = to_value(&Typed::Absent).unwrap();
    assert!(v.is_null());
    assert_eq!(from_value(&opt, v).unwrap(), Typed::Absent);

    let t = Typed::Present(Box::new(Typed::Integer(5)));
    let v = to_value(&t).unwrap();
    assert_eq!(v, Value::Integer(5));
    assert_eq!(from_value(&opt, v).unwrap(), t);

    let e = from_value(&Shape::Integer, Value::Null).unwrap_err();
    assert_eq!(
        e,
        bincode_json::error::Error::Expected("type integer".to_string(), "type null".to_string())
    );
}

#[test]
fn unit_and_empty_array_interchange() {
    // A zero-field-marker target accepts the canonical unit encoding,
    // which is exactly the empty array.
    let canonical = to_value(&Typed::Unit).unwrap();
    assert_eq!(canonical, Value::Array(vec![]));
    assert_eq!(from_value(&Shape::Unit, canonical).unwrap(), Typed::Unit);
    assert_eq!(from_value(&Shape::Unit, Value::Array(vec![])).unwrap(), Typed::Unit);
}

#[test]
fn enum_keys_in_mappings() {
    // A key may be any type that encodes to a string, such as a unit
    // case of a tagged union.
    let key_shape = Shape::Union(vec![("Red".to_string(), Case::Unit)]);
    let t = Typed::Mapping(vec![(Typed::UnitVariant("Red".to_string()), Typed::Integer(1))]);
    let s = Shape::Mapping(Box::new(key_shape), Box::new(Shape::Integer));
    let v = to_value(&t).unwrap();
    assert_eq!(from_value(&s, v).unwrap(), t);
}

#[test]
fn repeated_mapping_key_keeps_first_position() {
    let t = Typed::Mapping(vec![
        (Typed::Text("k".to_string()), Typed::Integer(1)),
        (Typed::Text("other".to_string()), Typed::Integer(5)),
        (Typed::Text("k".to_string()), Typed::Integer(2)),
    ]);
    let v = to_value(&t).unwrap();
    let expected = Value::Object(vec![
        ("k".to_string(), Value::Integer(2)),
        ("other".to_string(), Value::Integer(5)),
    ]);
    assert_eq!(v, expected);
}

#[test]
fn deserializer_consumes_once() {
    let d = bincode_json::de::Deserializer::from(Value::Boolean(true));
    assert_eq!(d.deserialize(&Shape::Bool).unwrap(), Typed::Bool(true));
}

#[test]
fn deep_nesting_within_the_budget_round_trips() {
    let mut t = Typed::Integer(1);
    let mut s = Shape::Integer;
    for _ in 0..100 {
        t = Typed::Sequence(vec![t]);
        s = Shape::Sequence(Box::new(s));
    }
    let bytes = to_vec(&t).unwrap();
    assert_eq!(from_slice(&s, &bytes).unwrap(), t);
}
