//! The decoder: walks a dynamic value against a consumer-supplied shape
//! and reconstructs the typed value, or reports precisely why the shapes
//! do not match.

use crate::error::{decimal_digits, Error, ErrorModel};
use crate::typed::{
    case_model_list, lemma_case_model_list, lemma_shape_model_fields, lemma_shape_model_list,
    lemma_typed_model_fields, lemma_typed_model_list, lemma_typed_model_pairs, shape_model,
    shape_model_fields, shape_model_list, Case, CaseModel, Shape, ShapeModel, Typed, typed_model,
    typed_model_fields, typed_model_list, typed_model_pairs, TypedModel,
};
use crate::value::{
    lemma_value_model_entries, lemma_value_model_list, type_label, Value, ValueModel, value_model,
    value_model_entries, value_model_list,
};
use vstd::prelude::*;

verus! {

/// The label a decode target announces in a mismatch error.
pub open spec fn shape_label(s: ShapeModel) -> Seq<char> {
    match s {
        ShapeModel::Any => "any value"@,
        ShapeModel::Bool => "type boolean"@,
        ShapeModel::Integer => "type integer"@,
        ShapeModel::Float => "type float"@,
        ShapeModel::Char => "type char"@,
        ShapeModel::Text => "type string"@,
        ShapeModel::Bytes => "type blob"@,
        ShapeModel::Optional(_) => "an optional"@,
        ShapeModel::Unit => "type unit"@,
        ShapeModel::Sequence(_) => "type array"@,
        ShapeModel::Tuple(_) => "type array"@,
        ShapeModel::Mapping(_, _) => "type object"@,
        ShapeModel::Fields(_) => "type object"@,
        ShapeModel::Union(_) => "an enum"@,
    }
}

/// How many entries at or after position `j` carry the key `k`.
pub open spec fn key_count_from(es: Seq<(Seq<char>, ValueModel)>, j: int, k: Seq<char>) -> nat
    decreases es.len() - j,
{
    if j < 0 || j >= es.len() {
        0
    } else {
        (if es[j].0 == k {
            1nat
        } else {
            0nat
        }) + key_count_from(es, j + 1, k)
    }
}

/// The first position at or after `j` whose key is `k`, or the length
/// when there is none.
pub open spec fn key_find_from(es: Seq<(Seq<char>, ValueModel)>, j: int, k: Seq<char>) -> int
    decreases es.len() - j,
{
    if j < 0 || j >= es.len() {
        es.len() as int
    } else if es[j].0 == k {
        j
    } else {
        key_find_from(es, j + 1, k)
    }
}

/// The first position of the case named `tag`, or the length when the
/// union has no such case.
pub open spec fn case_find(cs: Seq<(Seq<char>, CaseModel)>, j: int, tag: Seq<char>) -> int
    decreases cs.len() - j,
{
    if j < 0 || j >= cs.len() {
        cs.len() as int
    } else if cs[j].0 == tag {
        j
    } else {
        case_find(cs, j + 1, tag)
    }
}

/// What decoding a value against a target shape yields: the typed value
/// rebuilt, or the error raised. This is the structural inverse of
/// [`crate::ser::enc`].
pub open spec fn dec(s: ShapeModel, v: ValueModel) -> Result<TypedModel, ErrorModel>
    decreases s, v,
{
    match s {
        ShapeModel::Any => match v {
            ValueModel::Null => Ok(TypedModel::Absent),
            ValueModel::Boolean(b) => Ok(TypedModel::Bool(b)),
            ValueModel::Blob(b) => Ok(TypedModel::Bytes(b)),
            ValueModel::Array(vs) => match dec_elems(ShapeModel::Any, vs) {
                Ok(ts) => Ok(TypedModel::Sequence(ts)),
                Err(e) => Err(e),
            },
            ValueModel::Integer(i) => Ok(TypedModel::Integer(i)),
            ValueModel::Float(bits) => Ok(TypedModel::Float(bits)),
            ValueModel::Object(es) => match dec_any_entries(ShapeModel::Any, es) {
                Ok(ps) => Ok(TypedModel::Mapping(ps)),
                Err(e) => Err(e),
            },
            ValueModel::String(t) => Ok(TypedModel::Text(t)),
        },
        ShapeModel::Bool => match v {
            ValueModel::Boolean(b) => Ok(TypedModel::Bool(b)),
            _ => Err(ErrorModel::Expected(shape_label(s), type_label(v))),
        },
        ShapeModel::Integer => match v {
            ValueModel::Integer(i) => Ok(TypedModel::Integer(i)),
            _ => Err(ErrorModel::Expected(shape_label(s), type_label(v))),
        },
        ShapeModel::Float => match v {
            ValueModel::Float(bits) => Ok(TypedModel::Float(bits)),
            _ => Err(ErrorModel::Expected(shape_label(s), type_label(v))),
        },
        ShapeModel::Char => match v {
            ValueModel::String(t) => if t.len() == 1 {
                Ok(TypedModel::Char(t[0]))
            } else {
                Err(ErrorModel::Expected(shape_label(s), type_label(v)))
            },
            _ => Err(ErrorModel::Expected(shape_label(s), type_label(v))),
        },
        ShapeModel::Text => match v {
            ValueModel::String(t) => Ok(TypedModel::Text(t)),
            _ => Err(ErrorModel::Expected(shape_label(s), type_label(v))),
        },
        ShapeModel::Bytes => match v {
            ValueModel::Blob(b) => Ok(TypedModel::Bytes(b)),
            _ => Err(ErrorModel::Expected(shape_label(s), type_label(v))),
        },
        ShapeModel::Optional(inner) => match v {
            ValueModel::Null => Ok(TypedModel::Absent),
            _ => match dec(*inner, v) {
                Ok(t) => Ok(TypedModel::Present(Box::new(t))),
                Err(e) => Err(e),
            },
        },
        ShapeModel::Unit => match v {
            ValueModel::Array(vs) => if vs.len() == 0 {
                Ok(TypedModel::Unit)
            } else {
                Err(ErrorModel::Expected(shape_label(s), type_label(v)))
            },
            _ => Err(ErrorModel::Expected(shape_label(s), type_label(v))),
        },
        ShapeModel::Sequence(inner) => match v {
            ValueModel::Array(vs) => match dec_elems(*inner, vs) {
                Ok(ts) => Ok(TypedModel::Sequence(ts)),
                Err(e) => Err(e),
            },
            _ => Err(ErrorModel::Expected(shape_label(s), type_label(v))),
        },
        ShapeModel::Tuple(ss) => match v {
            ValueModel::Array(vs) => if vs.len() == ss.len() {
                match dec_tuple(ss, vs) {
                    Ok(ts) => Ok(TypedModel::Sequence(ts)),
                    Err(e) => Err(e),
                }
            } else {
                Err(
                    ErrorModel::Expected(
                        "length "@ + decimal_digits(vs.len()),
                        "a tuple of size "@ + decimal_digits(ss.len()),
                    ),
                )
            },
            _ => Err(ErrorModel::Expected(shape_label(s), type_label(v))),
        },
        ShapeModel::Mapping(ks, vsh) => match v {
            ValueModel::Object(es) => match dec_map_entries(*ks, *vsh, es) {
                Ok(ps) => Ok(TypedModel::Mapping(ps)),
                Err(e) => Err(e),
            },
            _ => Err(ErrorModel::Expected(shape_label(s), type_label(v))),
        },
        ShapeModel::Fields(fs) => match v {
            ValueModel::Object(es) => match dec_fields(fs, es) {
                Ok(ts) => Ok(TypedModel::Fields(ts)),
                Err(e) => Err(e),
            },
            _ => Err(ErrorModel::Expected(shape_label(s), type_label(v))),
        },
        ShapeModel::Union(cs) => match v {
            ValueModel::String(tag) => {
                let ci = case_find(cs, 0, tag);
                if ci < 0 || ci >= cs.len() {
                    Err(ErrorModel::Unknown(tag))
                } else if cs[ci].1 is Unit {
                    Ok(TypedModel::UnitVariant(tag))
                } else {
                    Err(ErrorModel::Eof)
                }
            },
            ValueModel::Object(es) => {
                if es.len() == 0 {
                    Err(ErrorModel::Expected("variant name"@, "empty object"@))
                } else if es.len() >= 2 {
                    Err(
                        ErrorModel::Expected(
                            "map with a single key"@,
                            "extra key \""@ + es[1].0 + "\""@,
                        ),
                    )
                } else {
                    let tag = es[0].0;
                    let payload = es[0].1;
                    let ci = case_find(cs, 0, tag);
                    if ci < 0 || ci >= cs.len() {
                        Err(ErrorModel::Unknown(tag))
                    } else {
                        dec_case(cs[ci].1, tag, payload)
                    }
                }
            },
            _ => Err(ErrorModel::Expected(type_label(v), "expected an enum"@)),
        },
    }
}

/// Decodes the payload of a matched tagged-union case.
pub open spec fn dec_case(c: CaseModel, tag: Seq<char>, payload: ValueModel) -> Result<
    TypedModel,
    ErrorModel,
>
    decreases c, payload,
{
    match c {
        CaseModel::Unit => Ok(TypedModel::UnitVariant(tag)),
        CaseModel::Newtype(ps) => match dec(*ps, payload) {
            Ok(t) => Ok(TypedModel::NewtypeVariant(tag, Box::new(t))),
            Err(e) => Err(e),
        },
        CaseModel::Tuple(ss) => match payload {
            ValueModel::Array(vs) => if vs.len() == ss.len() {
                match dec_tuple(ss, vs) {
                    Ok(ts) => Ok(TypedModel::TupleVariant(tag, ts)),
                    Err(e) => Err(e),
                }
            } else {
                Err(
                    ErrorModel::Expected(
                        "length "@ + decimal_digits(vs.len()),
                        "a tuple of size "@ + decimal_digits(ss.len()),
                    ),
                )
            },
            _ => Err(ErrorModel::Expected(type_label(payload), "expected a tuple"@)),
        },
        CaseModel::Fields(fsh) => match payload {
            ValueModel::Object(es) => match dec_fields(fsh, es) {
                Ok(ts) => Ok(TypedModel::FieldsVariant(tag, ts)),
                Err(e) => Err(e),
            },
            _ => Err(ErrorModel::Expected(type_label(payload), "expected a struct"@)),
        },
    }
}

/// Decodes every element of an array against one element shape.
pub open spec fn dec_elems(se: ShapeModel, vs: Seq<ValueModel>) -> Result<Seq<TypedModel>, ErrorModel>
    decreases se, vs,
{
    if vs.len() == 0 {
        Ok(Seq::empty())
    } else {
        match dec(se, vs[0]) {
            Err(e) => Err(e),
            Ok(t) => match dec_elems(se, vs.drop_first()) {
                Err(e) => Err(e),
                Ok(ts) => Ok(seq![t] + ts),
            },
        }
    }
}

/// Decodes the elements of an array against positional shapes, pairwise.
pub open spec fn dec_tuple(ss: Seq<ShapeModel>, vs: Seq<ValueModel>) -> Result<
    Seq<TypedModel>,
    ErrorModel,
>
    decreases ss, vs,
{
    if ss.len() == 0 || vs.len() == 0 {
        Ok(Seq::empty())
    } else {
        match dec(ss[0], vs[0]) {
            Err(e) => Err(e),
            Ok(t) => match dec_tuple(ss.drop_first(), vs.drop_first()) {
                Err(e) => Err(e),
                Ok(ts) => Ok(seq![t] + ts),
            },
        }
    }
}

/// Decodes object entries for an open target: each key becomes text, each
/// value describes itself.
pub open spec fn dec_any_entries(se: ShapeModel, es: Seq<(Seq<char>, ValueModel)>) -> Result<
    Seq<(TypedModel, TypedModel)>,
    ErrorModel,
>
    decreases se, es,
{
    if es.len() == 0 {
        Ok(Seq::empty())
    } else {
        match dec(se, es[0].1) {
            Err(e) => Err(e),
            Ok(t) => match dec_any_entries(se, es.drop_first()) {
                Err(e) => Err(e),
                Ok(ps) => Ok(seq![(TypedModel::Text(es[0].0), t)] + ps),
            },
        }
    }
}

/// Decodes object entries for a mapping target: each key is decoded as a
/// string value against the key shape, each value against the value shape.
pub open spec fn dec_map_entries(
    ks: ShapeModel,
    vsh: ShapeModel,
    es: Seq<(Seq<char>, ValueModel)>,
) -> Result<Seq<(TypedModel, TypedModel)>, ErrorModel>
    decreases vsh, es,
{
    if es.len() == 0 {
        Ok(Seq::empty())
    } else {
        match dec_key(ks, es[0].0) {
            Err(e) => Err(e),
            Ok(kt) => match dec(vsh, es[0].1) {
                Err(e) => Err(e),
                Ok(vt) => match dec_map_entries(ks, vsh, es.drop_first()) {
                    Err(e) => Err(e),
                    Ok(ps) => Ok(seq![(kt, vt)] + ps),
                },
            },
        }
    }
}

/// Decodes an object key, which always arrives as a string value.
pub open spec fn dec_key(ks: ShapeModel, k: Seq<char>) -> Result<TypedModel, ErrorModel>
    decreases ks,
{
    match ks {
        ShapeModel::Any => Ok(TypedModel::Text(k)),
        ShapeModel::Text => Ok(TypedModel::Text(k)),
        ShapeModel::Char => if k.len() == 1 {
            Ok(TypedModel::Char(k[0]))
        } else {
            Err(ErrorModel::Expected(shape_label(ks), "type string"@))
        },
        ShapeModel::Optional(inner) => match dec_key(*inner, k) {
            Ok(t) => Ok(TypedModel::Present(Box::new(t))),
            Err(e) => Err(e),
        },
        ShapeModel::Union(cs) => {
            let ci = case_find(cs, 0, k);
            if ci < 0 || ci >= cs.len() {
                Err(ErrorModel::Unknown(k))
            } else if cs[ci].1 is Unit {
                Ok(TypedModel::UnitVariant(k))
            } else {
                Err(ErrorModel::Eof)
            }
        },
        _ => Err(ErrorModel::Expected(shape_label(ks), "type string"@)),
    }
}

/// Decodes the declared fields of a named-field target from object
/// entries: a missing field, or one present more than once, is an error;
/// entries whose key no declared field carries are ignored.
pub open spec fn dec_fields(
    fs: Seq<(Seq<char>, ShapeModel)>,
    es: Seq<(Seq<char>, ValueModel)>,
) -> Result<Seq<(Seq<char>, TypedModel)>, ErrorModel>
    decreases fs, es,
{
    if fs.len() == 0 {
        Ok(Seq::empty())
    } else {
        let name = fs[0].0;
        let cnt = key_count_from(es, 0, name);
        if cnt == 0 {
            Err(ErrorModel::Missing(name))
        } else if cnt >= 2 {
            Err(ErrorModel::Duplicated(name))
        } else {
            let idx = key_find_from(es, 0, name);
            if idx < 0 || idx >= es.len() {
                Err(ErrorModel::Missing(name))
            } else {
                match dec(fs[0].1, es[idx].1) {
                Err(e) => Err(e),
                    Ok(t) => match dec_fields(fs.drop_first(), es.remove(idx)) {
                        Err(e) => Err(e),
                        Ok(ts) => Ok(seq![(name, t)] + ts),
                    },
                }
            }
        }
    }
}

pub open spec fn dec_result_model(r: Result<Typed, Error>) -> Result<TypedModel, ErrorModel> {
    match r {
        Ok(t) => Ok(t@),
        Err(e) => Err(e@),
    }
}


pub open spec fn dec_list_model(r: Result<Vec<Typed>, Error>) -> Result<Seq<TypedModel>, ErrorModel> {
    match r {
        Ok(ts) => Ok(typed_model_list(ts@)),
        Err(e) => Err(e@),
    }
}

pub open spec fn dec_pairs_model(r: Result<Vec<(Typed, Typed)>, Error>) -> Result<
    Seq<(TypedModel, TypedModel)>,
    ErrorModel,
> {
    match r {
        Ok(ps) => Ok(typed_model_pairs(ps@)),
        Err(e) => Err(e@),
    }
}

pub open spec fn dec_fields_model(r: Result<Vec<(String, Typed)>, Error>) -> Result<
    Seq<(Seq<char>, TypedModel)>,
    ErrorModel,
> {
    match r {
        Ok(fs) => Ok(typed_model_fields(fs@)),
        Err(e) => Err(e@),
    }
}

/// The label this decode target announces in a mismatch error.
pub fn shape_description(s: &Shape) -> (r: &'static str)
    ensures
        r@ == shape_label(s@),
{
    match s {
        Shape::Any => "any value",
        Shape::Bool => "type boolean",
        Shape::Integer => "type integer",
        Shape::Float => "type float",
        Shape::Char => "type char",
        Shape::Text => "type string",
        Shape::Bytes => "type blob",
        Shape::Optional(_) => "an optional",
        Shape::Unit => "type unit",
        Shape::Sequence(_) => "type array",
        Shape::Tuple(_) => "type array",
        Shape::Mapping(_, _) => "type object",
        Shape::Fields(_) => "type object",
        Shape::Union(_) => "an enum",
    }
}

fn mismatch(s: &Shape, v: &Value) -> (r: Error)
    ensures
        r@ == ErrorModel::Expected(shape_label(s@), type_label(v@)),
{
    Error::Expected(shape_description(s).to_owned(), v.error_description().to_owned())
}

fn length_error(got: usize, want: usize) -> (r: Error)
    ensures
        r@ == ErrorModel::Expected(
            "length "@ + decimal_digits(got as nat),
            "a tuple of size "@ + decimal_digits(want as nat),
        ),
{
    let mut left = String::from_str("length ");
    crate::error::append_decimal(&mut left, got as u64);
    let mut right = String::from_str("a tuple of size ");
    crate::error::append_decimal(&mut right, want as u64);
    Error::Expected(left, right)
}

/// The count of entries at or after `j` with key `name`, and the first
/// position carrying it.
fn scan_key(es: &Vec<(String, Value)>, j: usize, name: &String) -> (r: (usize, usize))
    requires
        j <= es@.len(),
    ensures
        r.0 as nat == key_count_from(value_model_entries(es@), j as int, name@),
        r.1 as int == key_find_from(value_model_entries(es@), j as int, name@),
        r.0 <= es@.len() - j,
        j <= r.1 <= es@.len(),
    decreases es@.len() - j,
{
    proof {
        lemma_value_model_entries(es@);
    }
    if j == es.len() {
        return (0, es.len());
    }
    let rest = scan_key(es, j + 1, name);
    if es[j].0 == *name {
        (rest.0 + 1, j)
    } else {
        rest
    }
}

/// The first position of the case named `tag`, or the length when there
/// is none.
fn find_case(cs: &Vec<(String, Case)>, j: usize, tag: &String) -> (ci: usize)
    requires
        j <= cs@.len(),
    ensures
        ci as int == case_find(case_model_list(cs@), j as int, tag@),
        j <= ci <= cs@.len(),
    decreases cs@.len() - j,
{
    proof {
        lemma_case_model_list(cs@);
    }
    if j == cs.len() {
        return cs.len();
    }
    if cs[j].0 == *tag {
        j
    } else {
        find_case(cs, j + 1, tag)
    }
}

/// Decodes a value against a target shape, per [`dec`]. The value is
/// consumed: each subtree is taken apart exactly once.
#[verifier::rlimit(100)]
#[verifier::spinoff_prover]
pub(crate) fn decode(s: &Shape, v: Value) -> (r: Result<Typed, Error>)
    ensures
        dec_result_model(r) == dec(s@, v@),
    decreases s, v,
{
    match s {
        Shape::Any => match v {
            Value::Null => Ok(Typed::Absent),
            Value::Boolean(b) => Ok(Typed::Bool(b)),
            Value::Blob(b) => Ok(Typed::Bytes(b)),
            Value::Array(vs) => {
                proof {
                    assert(decreases_to!(v => vs));
                    assert(decreases_to!(vs => vs@));
                    assert(decreases_to!(v => vs@));
                }
                match decode_elems(s, vs) {
                    Ok(ts) => Ok(Typed::Sequence(ts)),
                    Err(e) => Err(e),
                }
            },
            Value::Integer(i) => Ok(Typed::Integer(i)),
            Value::Float(bits) => Ok(Typed::Float(bits)),
            Value::Object(es) => {
                proof {
                    assert(decreases_to!(v => es));
                    assert(decreases_to!(es => es@));
                    assert(decreases_to!(v => es@));
                }
                match decode_any_entries(s, es) {
                    Ok(ps) => Ok(Typed::Mapping(ps)),
                    Err(e) => Err(e),
                }
            },
            Value::String(t) => Ok(Typed::Text(t)),
        },
        Shape::Bool => match v {
            Value::Boolean(b) => Ok(Typed::Bool(b)),
            other => Err(mismatch(s, &other)),
        },
        Shape::Integer => match v {
            Value::Integer(i) => Ok(Typed::Integer(i)),
            other => Err(mismatch(s, &other)),
        },
        Shape::Float => match v {
            Value::Float(bits) => Ok(Typed::Float(bits)),
            other => Err(mismatch(s, &other)),
        },
        Shape::Char => match v {
            Value::String(t) => {
                if t.as_str().unicode_len() == 1 {
                    let c = t.as_str().get_char(0);
                    Ok(Typed::Char(c))
                } else {
                    Err(mismatch(s, &Value::String(t)))
                }
            },
            other => Err(mismatch(s, &other)),
        },
        Shape::Text => match v {
            Value::String(t) => Ok(Typed::Text(t)),
            other => Err(mismatch(s, &other)),
        },
        Shape::Bytes => match v {
            Value::Blob(b) => Ok(Typed::Bytes(b)),
            other => Err(mismatch(s, &other)),
        },
        Shape::Optional(inner) => match v {
            Value::Null => Ok(Typed::Absent),
            other => match decode(inner, other) {
                Ok(t) => Ok(Typed::Present(Box::new(t))),
                Err(e) => Err(e),
            },
        },
        Shape::Unit => match v {
            Value::Array(vs) => {
                proof {
                    lemma_value_model_list(vs@);
                }
                if vs.len() == 0 {
                    Ok(Typed::Unit)
                } else {
                    Err(mismatch(s, &Value::Array(vs)))
                }
            },
            other => Err(mismatch(s, &other)),
        },
        Shape::Sequence(inner) => match v {
            Value::Array(vs) => {
                match decode_elems(inner, vs) {
                    Ok(ts) => Ok(Typed::Sequence(ts)),
                    Err(e) => Err(e),
                }
            },
            other => Err(mismatch(s, &other)),
        },
        Shape::Tuple(ss) => match v {
            Value::Array(vs) => {
                proof {
                    lemma_shape_model_list(ss@);
                    lemma_value_model_list(vs@);
                }
                if vs.len() == ss.len() {
                    proof {
                        lemma_shape_model_list(ss@);
                        assert(shape_model_list(ss@).subrange(0, ss@.len() as int)
                            =~= shape_model_list(ss@));
                    }
                    match decode_tuple(ss, 0, vs) {
                        Ok(ts) => Ok(Typed::Sequence(ts)),
                        Err(e) => Err(e),
                    }
                } else {
                    Err(length_error(vs.len(), ss.len()))
                }
            },
            other => Err(mismatch(s, &other)),
        },
        Shape::Mapping(ks, vsh) => match v {
            Value::Object(es) => {
                match decode_map_entries(ks, vsh, es) {
                    Ok(ps) => Ok(Typed::Mapping(ps)),
                    Err(e) => Err(e),
                }
            },
            other => Err(mismatch(s, &other)),
        },
        Shape::Fields(fs) => match v {
            Value::Object(es) => {
                proof {
                    lemma_shape_model_fields(fs@);
                    assert(shape_model_fields(fs@).subrange(0, fs@.len() as int)
                        =~= shape_model_fields(fs@));
                }
                match decode_fields(fs, 0, es) {
                    Ok(ts) => Ok(Typed::Fields(ts)),
                    Err(e) => Err(e),
                }
            },
            other => Err(mismatch(s, &other)),
        },
        Shape::Union(cs) => match v {
            Value::String(tag) => {
                proof {
                    lemma_case_model_list(cs@);
                }
                let ci = find_case(cs, 0, &tag);
                if ci >= cs.len() {
                    Err(Error::Unknown(tag))
                } else {
                    match &cs[ci].1 {
                        Case::Unit => Ok(Typed::UnitVariant(tag)),
                        _ => Err(Error::Eof),
                    }
                }
            },
            Value::Object(es) => {
                proof {
                    lemma_value_model_entries(es@);
                    lemma_case_model_list(cs@);
                }
                if es.len() == 0 {
                    Err(
                        Error::Expected(
                            String::from_str("variant name"),
                            String::from_str("empty object"),
                        ),
                    )
                } else if es.len() >= 2 {
                    let mut msg = String::from_str("extra key \"");
                    msg.append(es[1].0.as_str());
                    msg.append("\"");
                    Err(Error::Expected(String::from_str("map with a single key"), msg))
                } else {
                    let mut es = es;
                    let ghost es0 = es@;
                    let entry = es.remove(0);
                    let tag = entry.0;
                    let payload = entry.1;
                    let ci = find_case(cs, 0, &tag);
                    if ci >= cs.len() {
                        Err(Error::Unknown(tag))
                    } else {
                        proof {
                            assert(decreases_to!(*s => *cs));
                            assert(decreases_to!(*cs => cs@));
                            assert(decreases_to!(cs@ => cs@[ci as int]));
                            assert(decreases_to!(cs@[ci as int] => cs@[ci as int].1));
                            assert(decreases_to!(*s => cs@[ci as int].1));
                        }
                        decode_case(&cs[ci].1, tag, payload)
                    }
                }
            },
            other => Err(
                Error::Expected(
                    other.error_description().to_owned(),
                    String::from_str("expected an enum"),
                ),
            ),
        },
    }
}

/// Decodes the payload of a matched tagged-union case, per [`dec_case`].
#[verifier::rlimit(100)]
#[verifier::spinoff_prover]
fn decode_case(c: &Case, tag: String, payload: Value) -> (r: Result<Typed, Error>)
    ensures
        dec_result_model(r) == dec_case(c@, tag@, payload@),
    decreases c, payload,
{
    match c {
        Case::Unit => Ok(Typed::UnitVariant(tag)),
        Case::Newtype(ps) => match decode(ps, payload) {
            Ok(t) => Ok(Typed::NewtypeVariant(tag, Box::new(t))),
            Err(e) => Err(e),
        },
        Case::Tuple(ss) => match payload {
            Value::Array(vs) => {
                proof {
                    lemma_shape_model_list(ss@);
                    lemma_value_model_list(vs@);
                }
                if vs.len() == ss.len() {
                    proof {
                        lemma_shape_model_list(ss@);
                        assert(shape_model_list(ss@).subrange(0, ss@.len() as int)
                            =~= shape_model_list(ss@));
                    }
                    match decode_tuple(ss, 0, vs) {
                        Ok(ts) => Ok(Typed::TupleVariant(tag, ts)),
                        Err(e) => Err(e),
                    }
                } else {
                    Err(length_error(vs.len(), ss.len()))
                }
            },
            other => Err(
                Error::Expected(
                    other.error_description().to_owned(),
                    String::from_str("expected a tuple"),
                ),
            ),
        },
        Case::Fields(fsh) => match payload {
            Value::Object(es) => {
                proof {
                    lemma_shape_model_fields(fsh@);
                    assert(shape_model_fields(fsh@).subrange(0, fsh@.len() as int)
                        =~= shape_model_fields(fsh@));
                }
                match decode_fields(fsh, 0, es) {
                    Ok(ts) => Ok(Typed::FieldsVariant(tag, ts)),
                    Err(e) => Err(e),
                }
            },
            other => Err(
                Error::Expected(
                    other.error_description().to_owned(),
                    String::from_str("expected a struct"),
                ),
            ),
        },
    }
}

fn decode_elems(se: &Shape, vs: Vec<Value>) -> (r: Result<Vec<Typed>, Error>)
    ensures
        dec_list_model(r) == dec_elems(se@, value_model_list(vs@)),
    decreases se, vs@,
{
    proof {
        lemma_value_model_list(vs@);
    }
    let mut vs = vs;
    if vs.len() == 0 {
        let r: Result<Vec<Typed>, Error> = Ok(Vec::new());
        proof {
            assert(typed_model_list(Seq::<Typed>::empty()) =~= Seq::<TypedModel>::empty());
        }
        return r;
    }
    let ghost vs0 = vs@;
    let head = vs.remove(0);
    proof {
        assert(vs@ =~= vs0.drop_first());
        assert(value_model_list(vs0).drop_first() =~= value_model_list(vs@)) by {
            lemma_value_model_list(vs0);
            lemma_value_model_list(vs@);
        }
        assert(vs@ =~= vs0.subrange(1, vs0.len() as int));
        assert(decreases_to!(vs0 => vs0.subrange(1, vs0.len() as int)));
        assert(decreases_to!(vs0 => vs0[0]));
    }
    match decode(se, head) {
        Err(e) => Err(e),
        Ok(t) => match decode_elems(se, vs) {
            Err(e) => Err(e),
            Ok(rest) => {
                let mut out: Vec<Typed> = Vec::new();
                out.push(t);
                let mut rest = rest;
                let ghost rest_view = rest@;
                out.append(&mut rest);
                proof {
                    assert(out@ =~= seq![out@[0]] + rest_view);
                    lemma_typed_model_list(out@);
                    lemma_typed_model_list(rest_view);
                    assert(typed_model_list(out@) =~= seq![typed_model(out@[0])]
                        + typed_model_list(rest_view));
                }
                Ok(out)
            },
        },
    }
}

fn decode_tuple(ss: &Vec<Shape>, ti: usize, vs: Vec<Value>) -> (r: Result<Vec<Typed>, Error>)
    requires
        ti <= ss@.len(),
        ss@.len() - ti == vs@.len(),
    ensures
        dec_list_model(r) == dec_tuple(
            shape_model_list(ss@).subrange(ti as int, ss@.len() as int),
            value_model_list(vs@),
        ),
    decreases ss, vs@,
{
    proof {
        lemma_shape_model_list(ss@);
        lemma_value_model_list(vs@);
    }
    let ghost smodels = shape_model_list(ss@);
    let ghost sub = smodels.subrange(ti as int, ss@.len() as int);
    let mut vs = vs;
    if vs.len() == 0 {
        let r: Result<Vec<Typed>, Error> = Ok(Vec::new());
        proof {
            assert(typed_model_list(Seq::<Typed>::empty()) =~= Seq::<TypedModel>::empty());
        }
        return r;
    }
    let ghost vs0 = vs@;
    let head = vs.remove(0);
    proof {
        assert(sub[0] == smodels[ti as int]);
        assert(sub.drop_first() =~= smodels.subrange(ti + 1, ss@.len() as int));
        assert(vs@ =~= vs0.drop_first());
        assert(value_model_list(vs0).drop_first() =~= value_model_list(vs@)) by {
            lemma_value_model_list(vs0);
            lemma_value_model_list(vs@);
        }
        assert(vs@ =~= vs0.subrange(1, vs0.len() as int));
        assert(decreases_to!(vs0 => vs0.subrange(1, vs0.len() as int)));
        assert(ti < ss.len());
        assert(decreases_to!(*ss => ss@));
        assert(decreases_to!(ss@ => ss@[ti as int]));
    }
    match decode(&ss[ti], head) {
        Err(e) => Err(e),
        Ok(t) => match decode_tuple(ss, ti + 1, vs) {
            Err(e) => Err(e),
            Ok(rest) => {
                let mut out: Vec<Typed> = Vec::new();
                out.push(t);
                let mut rest = rest;
                let ghost rest_view = rest@;
                out.append(&mut rest);
                proof {
                    assert(out@ =~= seq![out@[0]] + rest_view);
                    lemma_typed_model_list(out@);
                    lemma_typed_model_list(rest_view);
                    assert(typed_model_list(out@) =~= seq![typed_model(out@[0])]
                        + typed_model_list(rest_view));
                }
                Ok(out)
            },
        },
    }
}

fn decode_any_entries(se: &Shape, es: Vec<(String, Value)>) -> (r: Result<Vec<(Typed, Typed)>, Error>)
    ensures
        dec_pairs_model(r) == dec_any_entries(se@, value_model_entries(es@)),
    decreases se, es@,
{
    proof {
        lemma_value_model_entries(es@);
    }
    let mut es = es;
    if es.len() == 0 {
        let r: Result<Vec<(Typed, Typed)>, Error> = Ok(Vec::new());
        proof {
            assert(typed_model_pairs(Seq::<(Typed, Typed)>::empty()) =~= Seq::<
                (TypedModel, TypedModel),
            >::empty());
        }
        return r;
    }
    let ghost es0 = es@;
    let entry = es.remove(0);
    proof {
        assert(es@ =~= es0.drop_first());
        assert(value_model_entries(es0).drop_first() =~= value_model_entries(es@)) by {
            lemma_value_model_entries(es0);
            lemma_value_model_entries(es@);
        }
        assert(es@ =~= es0.subrange(1, es0.len() as int));
        assert(decreases_to!(es0 => es0.subrange(1, es0.len() as int)));
        assert(decreases_to!(es0 => es0[0]));
        assert(decreases_to!(es0[0] => es0[0].1));
    }
    match decode(se, entry.1) {
        Err(e) => Err(e),
        Ok(t) => match decode_any_entries(se, es) {
            Err(e) => Err(e),
            Ok(rest) => {
                let mut out: Vec<(Typed, Typed)> = Vec::new();
                out.push((Typed::Text(entry.0), t));
                let mut rest = rest;
                let ghost rest_view = rest@;
                out.append(&mut rest);
                proof {
                    assert(out@ =~= seq![out@[0]] + rest_view);
                    lemma_typed_model_pairs(out@);
                    lemma_typed_model_pairs(rest_view);
                    assert(typed_model_pairs(out@) =~= seq![
                        (typed_model(out@[0].0), typed_model(out@[0].1)),
                    ] + typed_model_pairs(rest_view));
                }
                Ok(out)
            },
        },
    }
}

fn decode_map_entries(ks: &Shape, vsh: &Shape, es: Vec<(String, Value)>) -> (r: Result<
    Vec<(Typed, Typed)>,
    Error,
>)
    ensures
        dec_pairs_model(r) == dec_map_entries(ks@, vsh@, value_model_entries(es@)),
    decreases vsh, es@,
{
    proof {
        lemma_value_model_entries(es@);
    }
    let mut es = es;
    if es.len() == 0 {
        let r: Result<Vec<(Typed, Typed)>, Error> = Ok(Vec::new());
        proof {
            assert(typed_model_pairs(Seq::<(Typed, Typed)>::empty()) =~= Seq::<
                (TypedModel, TypedModel),
            >::empty());
        }
        return r;
    }
    let ghost es0 = es@;
    let entry = es.remove(0);
    proof {
        assert(es@ =~= es0.drop_first());
        assert(value_model_entries(es0).drop_first() =~= value_model_entries(es@)) by {
            lemma_value_model_entries(es0);
            lemma_value_model_entries(es@);
        }
        assert(es@ =~= es0.subrange(1, es0.len() as int));
        assert(decreases_to!(es0 => es0.subrange(1, es0.len() as int)));
        assert(decreases_to!(es0 => es0[0]));
        assert(decreases_to!(es0[0] => es0[0].1));
    }
    match decode_key(ks, entry.0) {
        Err(e) => Err(e),
        Ok(kt) => match decode(vsh, entry.1) {
            Err(e) => Err(e),
            Ok(vt) => match decode_map_entries(ks, vsh, es) {
                Err(e) => Err(e),
                Ok(rest) => {
                    let mut out: Vec<(Typed, Typed)> = Vec::new();
                    out.push((kt, vt));
                    let mut rest = rest;
                    let ghost rest_view = rest@;
                    out.append(&mut rest);
                    proof {
                        assert(out@ =~= seq![out@[0]] + rest_view);
                        lemma_typed_model_pairs(out@);
                        lemma_typed_model_pairs(rest_view);
                        assert(typed_model_pairs(out@) =~= seq![
                            (typed_model(out@[0].0), typed_model(out@[0].1)),
                        ] + typed_model_pairs(rest_view));
                    }
                    Ok(out)
                },
            },
        },
    }
}

/// Decodes an object key, which always arrives as a string, per
/// [`dec_key`].
fn decode_key(ks: &Shape, k: String) -> (r: Result<Typed, Error>)
    ensures
        dec_result_model(r) == dec_key(ks@, k@),
    decreases ks,
{
    match ks {
        Shape::Any => Ok(Typed::Text(k)),
        Shape::Text => Ok(Typed::Text(k)),
        Shape::Char => {
            if k.as_str().unicode_len() == 1 {
                let c = k.as_str().get_char(0);
                Ok(Typed::Char(c))
            } else {
                Err(
                    Error::Expected(
                        shape_description(ks).to_owned(),
                        String::from_str("type string"),
                    ),
                )
            }
        },
        Shape::Optional(inner) => match decode_key(inner, k) {
            Ok(t) => Ok(Typed::Present(Box::new(t))),
            Err(e) => Err(e),
        },
        Shape::Union(cs) => {
            proof {
                lemma_case_model_list(cs@);
            }
            let ci = find_case(cs, 0, &k);
            if ci >= cs.len() {
                Err(Error::Unknown(k))
            } else {
                match &cs[ci].1 {
                    Case::Unit => Ok(Typed::UnitVariant(k)),
                    _ => Err(Error::Eof),
                }
            }
        },
        _ => Err(
            Error::Expected(shape_description(ks).to_owned(), String::from_str("type string")),
        ),
    }
}

fn decode_fields(fs: &Vec<(String, Shape)>, fi: usize, es: Vec<(String, Value)>) -> (r: Result<
    Vec<(String, Typed)>,
    Error,
>)
    requires
        fi <= fs@.len(),
    ensures
        dec_fields_model(r) == dec_fields(
            shape_model_fields(fs@).subrange(fi as int, fs@.len() as int),
            value_model_entries(es@),
        ),
    decreases fs, es@,
{
    proof {
        lemma_shape_model_fields(fs@);
        lemma_value_model_entries(es@);
    }
    let ghost fmodels = shape_model_fields(fs@);
    let ghost sub = fmodels.subrange(fi as int, fs@.len() as int);
    if fi == fs.len() {
        let r: Result<Vec<(String, Typed)>, Error> = Ok(Vec::new());
        proof {
            assert(typed_model_fields(Seq::<(String, Typed)>::empty()) =~= Seq::<
                (Seq<char>, TypedModel),
            >::empty());
        }
        return r;
    }
    proof {
        assert(sub[0] == fmodels[fi as int]);
        assert(sub.drop_first() =~= fmodels.subrange(fi + 1, fs@.len() as int));
    }
    let name = &fs[fi].0;
    let (cnt, idx) = scan_key(&es, 0, name);
    if cnt == 0 {
        Err(Error::Missing(name.clone()))
    } else if cnt >= 2 {
        Err(Error::Duplicated(name.clone()))
    } else if idx >= es.len() {
        Err(Error::Missing(name.clone()))
    } else {
        let mut es = es;
        let ghost es0 = es@;
        let entry = es.remove(idx);
        proof {
            assert(value_model_entries(es0).remove(idx as int) =~= value_model_entries(es@)) by {
                lemma_value_model_entries(es0);
                lemma_value_model_entries(es@);
            }
            assert forall|i2: int| 0 <= i2 < es@.len() implies exists|i1: int|
                0 <= i1 < es0.len() && es0[i1] == #[trigger] es@[i2] by {
                if i2 < idx {
                    assert(es0[i2] == es@[i2]);
                } else {
                    assert(es0[i2 + 1] == es@[i2]);
                }
            }
            vstd::seq::axiom_seq_len_decreases(es0, es@);
            assert(decreases_to!(*fs => fs@));
            assert(decreases_to!(fs@ => fs@[fi as int]));
            assert(decreases_to!(fs@[fi as int] => fs@[fi as int].1));
            assert(decreases_to!(*fs => fs@[fi as int].1));
        }
        match decode(&fs[fi].1, entry.1) {
            Err(e) => Err(e),
            Ok(t) => match decode_fields(fs, fi + 1, es) {
                Err(e) => Err(e),
                Ok(rest) => {
                    let mut out: Vec<(String, Typed)> = Vec::new();
                    out.push((name.clone(), t));
                    let mut rest = rest;
                    let ghost rest_view = rest@;
                    out.append(&mut rest);
                    proof {
                        assert(out@ =~= seq![out@[0]] + rest_view);
                        lemma_typed_model_fields(out@);
                        lemma_typed_model_fields(rest_view);
                        assert(typed_model_fields(out@) =~= seq![
                            (out@[0].0@, typed_model(out@[0].1)),
                        ] + typed_model_fields(rest_view));
                    }
                    Ok(out)
                },
            },
        }
    }
}

/// A decoder holding the one value it will take apart. Reading it twice
/// yields `Eof`, as the value is consumed on the first use.
pub struct Deserializer {
    value: Option<Value>,
}

impl View for Deserializer {
    type V = Option<ValueModel>;

    closed spec fn view(&self) -> Option<ValueModel> {
        match self.value {
            Some(v) => Some(value_model(v)),
            None => None,
        }
    }
}

impl From<Value> for Deserializer {
    fn from(value: Value) -> (r: Deserializer)
        ensures
            r@ == Some(value@),
    {
        Deserializer { value: Some(value) }
    }
}

impl vstd::std_specs::convert::FromSpecImpl<Value> for Deserializer {
    closed spec fn obeys_from_spec() -> bool {
        false
    }

    closed spec fn from_spec(value: Value) -> Deserializer {
        Deserializer { value: None }
    }
}

impl Deserializer {
    /// Decodes the held value against the given target shape; with no
    /// value left, reports `Eof`.
    pub fn deserialize(self, s: &Shape) -> (r: Result<Typed, Error>)
        ensures
            match self@ {
                Some(m) => dec_result_model(r) == dec(s@, m),
                None => dec_result_model(r) == Err::<TypedModel, _>(ErrorModel::Eof),
            },
    {
        match self.value {
            Some(v) => decode(s, v),
            None => Err(Error::Eof),
        }
    }
}

} // verus!
