//! The byte form is checked against the reference codec's standard
//! configuration: a value node is its kind tag as a one-byte variable
//! length number, followed by the payload encoded as that codec encodes
//! the corresponding plain value.

use bincode_json::typed::{Shape, Typed};
use bincode_json::{from_slice, to_vec};

fn anchor<E: bincode::Encode>(tag: u8, payload: E) -> Vec<u8> {
    let mut out = vec![tag];
    out.extend(bincode::encode_to_vec(payload, bincode::config::standard()).unwrap());
    out
}

#[test]
fn integers_match_the_reference_codec() {
    let cases: Vec<i64> = vec![0, 1, -1, 125, -126, 4000, -4000, i64::MAX, i64::MIN];
    for i in cases {
        assert_eq!(to_vec(&Typed::Integer(i)).unwrap(), anchor(4, i));
    }
}

#[test]
fn booleans_match_the_reference_codec() {
    assert_eq!(to_vec(&Typed::Bool(true)).unwrap(), anchor(1, true));
    assert_eq!(to_vec(&Typed::Bool(false)).unwrap(), anchor(1, false));
}

#[test]
fn floats_match_the_reference_codec() {
    for f in [0.0f64, 1.5, -2.25, f64::INFINITY] {
        assert_eq!(to_vec(&Typed::Float(f.to_bits())).unwrap(), anchor(5, f));
    }
}

#[test]
fn text_matches_the_reference_codec() {
    assert_eq!(
        to_vec(&Typed::Text("hellö".to_string())).unwrap(),
        anchor(7, "hellö".to_string())
    );
    assert_eq!(
        to_vec(&Typed::Text(String::new())).unwrap(),
        anchor(7, String::new())
    );
}

#[test]
fn blobs_match_the_reference_codec() {
    let data: Vec<u8> = (0u8..=255).collect();
    assert_eq!(
        to_vec(&Typed::Bytes(data.clone())).unwrap(),
        anchor(2, data)
    );
}

#[test]
fn null_and_unit_forms() {
    assert_eq!(to_vec(&Typed::Absent).unwrap(), vec![0]);
    // unit encodes as an empty array: tag 3, length 0
    assert_eq!(to_vec(&Typed::Unit).unwrap(), vec![3, 0]);
}

#[test]
fn arrays_compose_element_encodings() {
    let t = Typed::Sequence(vec![Typed::Integer(7), Typed::Bool(true)]);
    let mut expected = vec![3u8, 2];
    expected.extend(anchor(4, 7i64));
    expected.extend(anchor(1, true));
    assert_eq!(to_vec(&t).unwrap(), expected);
}

#[test]
fn objects_compose_key_and_value_encodings() {
    let t = Typed::Mapping(vec![(
        Typed::Text("k".to_string()),
        Typed::Integer(1),
    )]);
    let mut expected = vec![6u8, 1];
    expected.extend(bincode::encode_to_vec("k", bincode::config::standard()).unwrap());
    expected.extend(anchor(4, 1i64));
    assert_eq!(to_vec(&t).unwrap(), expected);
}

#[test]
fn variable_length_thresholds() {
    // The length prefix grows at 251, 2^16 and 2^32.
    let text_of = |n: usize| Typed::Text("x".repeat(n));
    let b250 = to_vec(&text_of(250)).unwrap();
    assert_eq!(&b250[..2], &[7, 250]);
    let b251 = to_vec(&text_of(251)).unwrap();
    assert_eq!(&b251[..4], &[7, 251, 251, 0]);
    let b70000 = to_vec(&text_of(70000)).unwrap();
    assert_eq!(&b70000[..6], &[7, 252, 112, 17, 1, 0]);
    assert_eq!(
        b70000[1..],
        bincode::encode_to_vec("x".repeat(70000), bincode::config::standard()).unwrap()[..]
    );
}

#[test]
fn trailing_bytes_are_ignored() {
    let mut bytes = to_vec(&Typed::Integer(9)).unwrap();
    bytes.extend([1, 2, 3]);
    assert_eq!(from_slice(&Shape::Integer, &bytes).unwrap(), Typed::Integer(9));
}

#[test]
fn reference_codec_decodes_what_we_write() {
    // The payload after our tag byte decodes with the reference codec.
    let bytes = to_vec(&Typed::Integer(-77)).unwrap();
    let (i, used): (i64, usize) =
        bincode::decode_from_slice(&bytes[1..], bincode::config::standard()).unwrap();
    assert_eq!(i, -77);
    assert_eq!(used, bytes.len() - 1);
}
