//! The laws the encoder and decoder obey together: a typed value that
//! fits a target shape comes back unchanged from an encode/decode round
//! trip, both through the value tree and through its byte form.

use crate::codec::{
    bytes_of, bytes_of_entries, bytes_of_list, dec_bytes, dec_bytes_entries, dec_bytes_list,
    dec_str, dec_varint, str_bytes, unzigzag, varint, zigzag, DEPTH_LIMIT,
};
use vstd::bytes::{
    lemma_auto_spec_u16_to_from_le_bytes, lemma_auto_spec_u32_to_from_le_bytes,
    lemma_auto_spec_u64_to_from_le_bytes, spec_u16_to_le_bytes, spec_u32_to_le_bytes,
    spec_u64_to_le_bytes,
};
use vstd::utf8::encode_utf8;
use crate::de::{
    case_find, dec, dec_any_entries, dec_case, dec_elems, dec_fields, dec_key, dec_map_entries,
    dec_tuple, key_count_from, key_find_from,
};
use crate::error::ErrorModel;
use crate::ser::{enc, enc_fields, enc_list, enc_pairs, lemma_obj_insert_missing};
use crate::typed::{CaseModel, ShapeModel, TypedModel};
use crate::value::{obj_insert, type_label, ValueModel, vm_depth, vm_depth_entries, vm_depth_list};
use vstd::prelude::*;

verus! {

/// The string a mapping key encodes to, for keys that encode to strings.
pub open spec fn enc_key_string(t: TypedModel) -> Seq<char>
    decreases t,
{
    match t {
        TypedModel::Text(s) => s,
        TypedModel::Char(c) => seq![c],
        TypedModel::Present(x) => enc_key_string(*x),
        TypedModel::UnitVariant(tag) => tag,
        _ => Seq::empty(),
    }
}

/// Whether a typed value fits a mapping-key position of shape `ks`: it
/// must encode to a string, and decoding that string against `ks` must
/// give the value back.
pub open spec fn key_conforms(ks: ShapeModel, t: TypedModel) -> bool
    decreases t,
{
    match (ks, t) {
        (ShapeModel::Any, TypedModel::Text(_)) => true,
        (ShapeModel::Text, TypedModel::Text(_)) => true,
        (ShapeModel::Char, TypedModel::Char(_)) => true,
        (ShapeModel::Optional(inner), TypedModel::Present(x)) => !(*x is Absent) && key_conforms(
            *inner,
            *x,
        ),
        (ShapeModel::Union(cs), TypedModel::UnitVariant(tag)) => {
            let ci = case_find(cs, 0, tag);
            0 <= ci < cs.len() && cs[ci].1 is Unit
        },
        _ => false,
    }
}

/// Whether a typed value fits a decode target: encoding it and decoding
/// the result against the target gives the value back. The collapse of
/// optionals rules out a present optional whose payload itself encodes to
/// null, and mappings and named-field composites must carry distinct
/// keys, or the re-encoded object would merge them.
pub open spec fn conforms(s: ShapeModel, t: TypedModel) -> bool
    decreases t, 0nat,
{
    match (s, t) {
        (ShapeModel::Any, TypedModel::Bool(_)) => true,
        (ShapeModel::Any, TypedModel::Integer(_)) => true,
        (ShapeModel::Any, TypedModel::Float(_)) => true,
        (ShapeModel::Any, TypedModel::Text(_)) => true,
        (ShapeModel::Any, TypedModel::Bytes(_)) => true,
        (ShapeModel::Any, TypedModel::Absent) => true,
        (ShapeModel::Any, TypedModel::Sequence(ts)) => conforms_list(ShapeModel::Any, ts),
        (ShapeModel::Any, TypedModel::Mapping(ps)) => conforms_map(ShapeModel::Any, ShapeModel::Any, ps),
        (ShapeModel::Bool, TypedModel::Bool(_)) => true,
        (ShapeModel::Integer, TypedModel::Integer(_)) => true,
        (ShapeModel::Float, TypedModel::Float(_)) => true,
        (ShapeModel::Char, TypedModel::Char(_)) => true,
        (ShapeModel::Text, TypedModel::Text(_)) => true,
        (ShapeModel::Bytes, TypedModel::Bytes(_)) => true,
        (ShapeModel::Optional(_), TypedModel::Absent) => true,
        (ShapeModel::Optional(inner), TypedModel::Present(x)) => !(*x is Absent) && conforms(
            *inner,
            *x,
        ),
        (ShapeModel::Unit, TypedModel::Unit) => true,
        (ShapeModel::Sequence(inner), TypedModel::Sequence(ts)) => conforms_list(*inner, ts),
        (ShapeModel::Tuple(ss), TypedModel::Sequence(ts)) => ss.len() == ts.len()
            && conforms_tuple(ss, ts),
        (ShapeModel::Mapping(ks, vsh), TypedModel::Mapping(ps)) => conforms_map(*ks, *vsh, ps),
        (ShapeModel::Fields(fsh), TypedModel::Fields(fts)) => conforms_fields(fsh, fts),
        (ShapeModel::Union(cs), TypedModel::UnitVariant(tag)) => {
            let ci = case_find(cs, 0, tag);
            0 <= ci < cs.len() && cs[ci].1 is Unit
        },
        (ShapeModel::Union(cs), TypedModel::NewtypeVariant(tag, x)) => {
            let ci = case_find(cs, 0, tag);
            &&& 0 <= ci < cs.len()
            &&& cs[ci].1 matches CaseModel::Newtype(inner) && conforms(*inner, *x)
        },
        (ShapeModel::Union(cs), TypedModel::TupleVariant(tag, ts)) => {
            let ci = case_find(cs, 0, tag);
            &&& 0 <= ci < cs.len()
            &&& cs[ci].1 matches CaseModel::Tuple(ss) && ss.len() == ts.len() && conforms_tuple(
                ss,
                ts,
            )
        },
        (ShapeModel::Union(cs), TypedModel::FieldsVariant(tag, fts)) => {
            let ci = case_find(cs, 0, tag);
            &&& 0 <= ci < cs.len()
            &&& cs[ci].1 matches CaseModel::Fields(fsh) && conforms_fields(fsh, fts)
        },
        _ => false,
    }
}

pub open spec fn conforms_list(se: ShapeModel, ts: Seq<TypedModel>) -> bool
    decreases ts, 1nat,
{
    if ts.len() == 0 {
        true
    } else {
        conforms(se, ts[0]) && conforms_list(se, ts.drop_first())
    }
}

pub open spec fn conforms_tuple(ss: Seq<ShapeModel>, ts: Seq<TypedModel>) -> bool
    decreases ts, 1nat,
{
    if ss.len() == 0 || ts.len() == 0 {
        true
    } else {
        conforms(ss[0], ts[0]) && conforms_tuple(ss.drop_first(), ts.drop_first())
    }
}

pub open spec fn conforms_map(
    ks: ShapeModel,
    vsh: ShapeModel,
    ps: Seq<(TypedModel, TypedModel)>,
) -> bool
    decreases ps, 1nat,
{
    &&& conforms_map_each(ks, vsh, ps)
    &&& forall|i: int, j: int|
        0 <= i < j < ps.len() ==> enc_key_string(#[trigger] ps[i].0) != enc_key_string(
            #[trigger] ps[j].0,
        )
}

pub open spec fn conforms_map_each(
    ks: ShapeModel,
    vsh: ShapeModel,
    ps: Seq<(TypedModel, TypedModel)>,
) -> bool
    decreases ps, 0nat,
{
    if ps.len() == 0 {
        true
    } else {
        key_conforms(ks, ps[0].0) && conforms(vsh, ps[0].1) && conforms_map_each(
            ks,
            vsh,
            ps.drop_first(),
        )
    }
}

pub open spec fn conforms_fields(
    fsh: Seq<(Seq<char>, ShapeModel)>,
    fts: Seq<(Seq<char>, TypedModel)>,
) -> bool
    decreases fts, 1nat,
{
    &&& fsh.len() == fts.len()
    &&& conforms_fields_each(fsh, fts)
    &&& forall|i: int, j: int|
        0 <= i < j < fts.len() ==> (#[trigger] fts[i]).0 != (#[trigger] fts[j]).0
}

pub open spec fn conforms_fields_each(
    fsh: Seq<(Seq<char>, ShapeModel)>,
    fts: Seq<(Seq<char>, TypedModel)>,
) -> bool
    decreases fts, 0nat,
{
    if fsh.len() == 0 || fts.len() == 0 {
        true
    } else {
        fsh[0].0 == fts[0].0 && conforms(fsh[0].1, fts[0].1) && conforms_fields_each(
            fsh.drop_first(),
            fts.drop_first(),
        )
    }
}

/// The value a typed value encodes to, where encoding succeeds.
pub open spec fn enc_val(t: TypedModel) -> ValueModel {
    match enc(t) {
        Ok(v) => v,
        Err(_) => ValueModel::Null,
    }
}

/// The object entries a conforming mapping encodes to.
pub open spec fn map_entries(ps: Seq<(TypedModel, TypedModel)>) -> Seq<(Seq<char>, ValueModel)>
    decreases ps,
{
    if ps.len() == 0 {
        Seq::empty()
    } else {
        seq![(enc_key_string(ps[0].0), enc_val(ps[0].1))] + map_entries(ps.drop_first())
    }
}

/// The object entries a conforming named-field composite encodes to.
pub open spec fn field_entries(fts: Seq<(Seq<char>, TypedModel)>) -> Seq<(Seq<char>, ValueModel)>
    decreases fts,
{
    if fts.len() == 0 {
        Seq::empty()
    } else {
        seq![(fts[0].0, enc_val(fts[0].1))] + field_entries(fts.drop_first())
    }
}

/// A key absent from every entry at or after `j` counts zero times.
pub proof fn lemma_key_count_zero(es: Seq<(Seq<char>, ValueModel)>, j: int, k: Seq<char>)
    requires
        0 <= j <= es.len(),
        forall|m: int| j <= m < es.len() ==> (#[trigger] es[m]).0 != k,
    ensures
        key_count_from(es, j, k) == 0,
    decreases es.len() - j,
{
    if j < es.len() {
        lemma_key_count_zero(es, j + 1, k);
    }
}

/// A conforming key encodes to its string and decodes from it unchanged.
pub proof fn lemma_rt_key(ks: ShapeModel, t: TypedModel)
    requires
        key_conforms(ks, t),
    ensures
        enc(t) == Ok::<_, ErrorModel>(ValueModel::String(enc_key_string(t))),
        dec_key(ks, enc_key_string(t)) == Ok::<_, ErrorModel>(t),
    decreases t,
{
    match (ks, t) {
        (ShapeModel::Optional(inner), TypedModel::Present(x)) => {
            lemma_rt_key(*inner, *x);
        },
        (ShapeModel::Union(cs), TypedModel::UnitVariant(tag)) => {
        },
        _ => {},
    }
}

/// A conforming typed value comes back unchanged from an encode/decode
/// round trip through the value tree.
#[verifier::rlimit(100)]
#[verifier::spinoff_prover]
pub proof fn lemma_round_trip(s: ShapeModel, t: TypedModel)
    requires
        conforms(s, t),
    ensures
        enc(t) == Ok::<_, ErrorModel>(enc_val(t)),
        dec(s, enc_val(t)) == Ok::<_, ErrorModel>(t),
    decreases t, 0nat,
{
    match (s, t) {
        (ShapeModel::Any, TypedModel::Sequence(ts)) => {
            lemma_rt_list(ShapeModel::Any, ts);
            assert(enc(t) == Ok::<ValueModel, ErrorModel>(enc_val(t)));
            assert(dec(s, enc_val(t)) == Ok::<TypedModel, ErrorModel>(t));
        },
        (ShapeModel::Any, TypedModel::Mapping(ps)) => {
            lemma_rt_map(ShapeModel::Any, ShapeModel::Any, ps);
            lemma_rt_any_entries(ps);
            let e0 = Seq::<(Seq<char>, ValueModel)>::empty();
            assert(forall|i: int, j: int|
                0 <= i < e0.len() && 0 <= j < ps.len() ==> (#[trigger] e0[i]).0 != enc_key_string(
                    (#[trigger] ps[j]).0,
                ));
            assert(enc_pairs(ps, e0) == Ok::<Seq<(Seq<char>, ValueModel)>, ErrorModel>(
                e0 + map_entries(ps),
            ));
            assert(e0 + map_entries(ps) =~= map_entries(ps));
            assert(enc(t) == Ok::<ValueModel, ErrorModel>(enc_val(t)));
            assert(dec(s, enc_val(t)) == Ok::<TypedModel, ErrorModel>(t));
        },
        (ShapeModel::Optional(inner), TypedModel::Present(x)) => {
            lemma_round_trip(*inner, *x);
            lemma_enc_not_null(*inner, *x);
            assert(enc(t) == Ok::<ValueModel, ErrorModel>(enc_val(t)));
            assert(dec(s, enc_val(t)) == Ok::<TypedModel, ErrorModel>(t));
        },
        (ShapeModel::Sequence(inner), TypedModel::Sequence(ts)) => {
            lemma_rt_list(*inner, ts);
            assert(enc(t) == Ok::<ValueModel, ErrorModel>(enc_val(t)));
            assert(dec(s, enc_val(t)) == Ok::<TypedModel, ErrorModel>(t));
        },
        (ShapeModel::Tuple(ss), TypedModel::Sequence(ts)) => {
            lemma_rt_tuple(ss, ts);
            assert(enc(t) == Ok::<ValueModel, ErrorModel>(enc_val(t)));
            assert(dec(s, enc_val(t)) == Ok::<TypedModel, ErrorModel>(t));
        },
        (ShapeModel::Mapping(ks, vsh), TypedModel::Mapping(ps)) => {
            lemma_rt_map(*ks, *vsh, ps);
            lemma_rt_map_entries(*ks, *vsh, ps);
            let e0 = Seq::<(Seq<char>, ValueModel)>::empty();
            assert(forall|i: int, j: int|
                0 <= i < e0.len() && 0 <= j < ps.len() ==> (#[trigger] e0[i]).0 != enc_key_string(
                    (#[trigger] ps[j]).0,
                ));
            assert(enc_pairs(ps, e0) == Ok::<Seq<(Seq<char>, ValueModel)>, ErrorModel>(
                e0 + map_entries(ps),
            ));
            assert(e0 + map_entries(ps) =~= map_entries(ps));
            assert(enc(t) == Ok::<ValueModel, ErrorModel>(enc_val(t)));
            assert(dec(s, enc_val(t)) == Ok::<TypedModel, ErrorModel>(t));
        },
        (ShapeModel::Fields(fsh), TypedModel::Fields(fts)) => {
            lemma_rt_fields(fsh, fts);
            lemma_rt_fields_entries(fsh, fts);
            let e0 = Seq::<(Seq<char>, ValueModel)>::empty();
            assert(forall|i: int, j: int|
                0 <= i < e0.len() && 0 <= j < fts.len() ==> (#[trigger] e0[i]).0 != (
                #[trigger] fts[j]).0);
            assert(enc_fields(fts, e0) == Ok::<Seq<(Seq<char>, ValueModel)>, ErrorModel>(
                e0 + field_entries(fts),
            ));
            assert(e0 + field_entries(fts) =~= field_entries(fts));
            assert(enc(t) == Ok::<ValueModel, ErrorModel>(enc_val(t)));
            assert(dec(s, enc_val(t)) == Ok::<TypedModel, ErrorModel>(t));
        },
        (ShapeModel::Union(cs), TypedModel::UnitVariant(tag)) => {
            assert(enc(t) == Ok::<ValueModel, ErrorModel>(enc_val(t)));
            assert(dec(s, enc_val(t)) == Ok::<TypedModel, ErrorModel>(t));
        },
        (ShapeModel::Union(cs), TypedModel::NewtypeVariant(tag, x)) => {
            let ci = case_find(cs, 0, tag);
            let inner = cs[ci].1->Newtype_0;
            lemma_round_trip(*inner, *x);
            let pv = enc_val(*x);
            assert(enc(t) == Ok::<ValueModel, ErrorModel>(ValueModel::Object(seq![(tag, pv)])));
            let es = seq![(tag, pv)];
            assert(es.len() == 1);
            assert(es[0].0 == tag);
            assert(es[0].1 == pv);
            assert(Box::new(*x) == x);
            assert(dec_case(cs[ci].1, tag, pv) == Ok::<TypedModel, ErrorModel>(t));
            assert(dec(s, enc_val(t)) == Ok::<TypedModel, ErrorModel>(t));
        },
        (ShapeModel::Union(cs), TypedModel::TupleVariant(tag, ts)) => {
            let ci = case_find(cs, 0, tag);
            let ss = cs[ci].1->Tuple_0;
            lemma_rt_tuple(ss, ts);
            let vs = enc_list(ts)->Ok_0;
            let pv = ValueModel::Array(vs);
            assert(enc(t) == Ok::<ValueModel, ErrorModel>(ValueModel::Object(seq![(tag, pv)])));
            let es = seq![(tag, pv)];
            assert(es.len() == 1);
            assert(es[0].0 == tag);
            assert(es[0].1 == pv);
            assert(vs.len() == ss.len());
            assert(dec_tuple(ss, vs) == Ok::<Seq<TypedModel>, ErrorModel>(ts));
            assert(dec_case(cs[ci].1, tag, pv) == Ok::<TypedModel, ErrorModel>(t));
            assert(dec(s, enc_val(t)) == Ok::<TypedModel, ErrorModel>(t));
        },
        (ShapeModel::Union(cs), TypedModel::FieldsVariant(tag, fts)) => {
            let ci = case_find(cs, 0, tag);
            let fsh = cs[ci].1->Fields_0;
            lemma_rt_fields(fsh, fts);
            lemma_rt_fields_entries(fsh, fts);
            let e0 = Seq::<(Seq<char>, ValueModel)>::empty();
            assert(forall|i: int, j: int|
                0 <= i < e0.len() && 0 <= j < fts.len() ==> (#[trigger] e0[i]).0 != (
                #[trigger] fts[j]).0);
            assert(enc_fields(fts, e0) == Ok::<Seq<(Seq<char>, ValueModel)>, ErrorModel>(
                e0 + field_entries(fts),
            ));
            assert(e0 + field_entries(fts) =~= field_entries(fts));
            let pv = ValueModel::Object(field_entries(fts));
            assert(enc(t) == Ok::<ValueModel, ErrorModel>(ValueModel::Object(seq![(tag, pv)])));
            let es = seq![(tag, pv)];
            assert(es.len() == 1);
            assert(es[0].0 == tag);
            assert(es[0].1 == pv);
            assert(dec_fields(fsh, field_entries(fts)) == Ok::<
                Seq<(Seq<char>, TypedModel)>,
                ErrorModel,
            >(fts));
            assert(dec_case(cs[ci].1, tag, pv) == Ok::<TypedModel, ErrorModel>(t));
            assert(dec(s, enc_val(t)) == Ok::<TypedModel, ErrorModel>(t));
        },
        (ShapeModel::Any, TypedModel::Bool(_)) => {
            assert(enc(t) == Ok::<ValueModel, ErrorModel>(enc_val(t)));
            assert(dec(s, enc_val(t)) == Ok::<TypedModel, ErrorModel>(t));
        },
        (ShapeModel::Any, TypedModel::Integer(_)) => {
            assert(enc(t) == Ok::<ValueModel, ErrorModel>(enc_val(t)));
            assert(dec(s, enc_val(t)) == Ok::<TypedModel, ErrorModel>(t));
        },
        (ShapeModel::Any, TypedModel::Float(_)) => {
            assert(enc(t) == Ok::<ValueModel, ErrorModel>(enc_val(t)));
            assert(dec(s, enc_val(t)) == Ok::<TypedModel, ErrorModel>(t));
        },
        (ShapeModel::Any, TypedModel::Text(_)) => {
            assert(enc(t) == Ok::<ValueModel, ErrorModel>(enc_val(t)));
            assert(dec(s, enc_val(t)) == Ok::<TypedModel, ErrorModel>(t));
        },
        (ShapeModel::Any, TypedModel::Bytes(_)) => {
            assert(enc(t) == Ok::<ValueModel, ErrorModel>(enc_val(t)));
            assert(dec(s, enc_val(t)) == Ok::<TypedModel, ErrorModel>(t));
        },
        (ShapeModel::Any, TypedModel::Absent) => {
            assert(enc(t) == Ok::<ValueModel, ErrorModel>(enc_val(t)));
            assert(dec(s, enc_val(t)) == Ok::<TypedModel, ErrorModel>(t));
        },
        (ShapeModel::Bool, TypedModel::Bool(_)) => {
            assert(enc(t) == Ok::<ValueModel, ErrorModel>(enc_val(t)));
            assert(dec(s, enc_val(t)) == Ok::<TypedModel, ErrorModel>(t));
        },
        (ShapeModel::Integer, TypedModel::Integer(_)) => {
            assert(enc(t) == Ok::<ValueModel, ErrorModel>(enc_val(t)));
            assert(dec(s, enc_val(t)) == Ok::<TypedModel, ErrorModel>(t));
        },
        (ShapeModel::Float, TypedModel::Float(_)) => {
            assert(enc(t) == Ok::<ValueModel, ErrorModel>(enc_val(t)));
            assert(dec(s, enc_val(t)) == Ok::<TypedModel, ErrorModel>(t));
        },
        (ShapeModel::Char, TypedModel::Char(c)) => {
            assert(seq![c].len() == 1);
            assert(seq![c][0] == c);
            assert(enc(t) == Ok::<ValueModel, ErrorModel>(enc_val(t)));
            assert(dec(s, enc_val(t)) == Ok::<TypedModel, ErrorModel>(t));
        },
        (ShapeModel::Text, TypedModel::Text(_)) => {
            assert(enc(t) == Ok::<ValueModel, ErrorModel>(enc_val(t)));
            assert(dec(s, enc_val(t)) == Ok::<TypedModel, ErrorModel>(t));
        },
        (ShapeModel::Bytes, TypedModel::Bytes(_)) => {
            assert(enc(t) == Ok::<ValueModel, ErrorModel>(enc_val(t)));
            assert(dec(s, enc_val(t)) == Ok::<TypedModel, ErrorModel>(t));
        },
        (ShapeModel::Optional(_), TypedModel::Absent) => {
            assert(enc(t) == Ok::<ValueModel, ErrorModel>(enc_val(t)));
            assert(dec(s, enc_val(t)) == Ok::<TypedModel, ErrorModel>(t));
        },
        (ShapeModel::Unit, TypedModel::Unit) => {
            assert(enc(t) == Ok::<ValueModel, ErrorModel>(enc_val(t)));
            assert(dec(s, enc_val(t)) == Ok::<TypedModel, ErrorModel>(t));
        },
        _ => {
            assert(!conforms(s, t));
        },
    }
}

/// A conforming present optional never encodes to null.
pub proof fn lemma_enc_not_null(s: ShapeModel, t: TypedModel)
    requires
        conforms(s, t),
        !(t is Absent),
    ensures
        !(enc_val(t) is Null),
    decreases t,
{
    match (s, t) {
        (ShapeModel::Optional(inner), TypedModel::Present(x)) => {
            lemma_enc_not_null(*inner, *x);
            lemma_round_trip(*inner, *x);
        },
        _ => {
            lemma_round_trip(s, t);
        },
    }
}

pub proof fn lemma_rt_list(se: ShapeModel, ts: Seq<TypedModel>)
    requires
        conforms_list(se, ts),
    ensures
        enc_list(ts) matches Ok(vs) && vs.len() == ts.len() && dec_elems(se, vs) == Ok::<
            _,
            ErrorModel,
        >(ts),
    decreases ts,
{
    if ts.len() == 0 {
        assert(dec_elems(se, Seq::<ValueModel>::empty()) == Ok::<_, ErrorModel>(Seq::<
            TypedModel,
        >::empty()));
        assert(ts =~= Seq::<TypedModel>::empty());
    } else {
        lemma_round_trip(se, ts[0]);
        lemma_rt_list(se, ts.drop_first());
        let vs = enc_list(ts)->Ok_0;
        assert(vs == seq![enc_val(ts[0])] + enc_list(ts.drop_first())->Ok_0);
        assert(vs[0] == enc_val(ts[0]));
        assert(vs.drop_first() =~= enc_list(ts.drop_first())->Ok_0);
        assert(seq![ts[0]] + ts.drop_first() =~= ts);
    }
}

pub proof fn lemma_rt_tuple(ss: Seq<ShapeModel>, ts: Seq<TypedModel>)
    requires
        conforms_tuple(ss, ts),
        ss.len() == ts.len(),
    ensures
        enc_list(ts) matches Ok(vs) && vs.len() == ts.len() && dec_tuple(ss, vs) == Ok::<
            _,
            ErrorModel,
        >(ts),
    decreases ts,
{
    if ts.len() == 0 {
        assert(ts =~= Seq::<TypedModel>::empty());
    } else {
        lemma_round_trip(ss[0], ts[0]);
        lemma_rt_tuple(ss.drop_first(), ts.drop_first());
        let vs = enc_list(ts)->Ok_0;
        assert(vs == seq![enc_val(ts[0])] + enc_list(ts.drop_first())->Ok_0);
        assert(vs[0] == enc_val(ts[0]));
        assert(vs.drop_first() =~= enc_list(ts.drop_first())->Ok_0);
        assert(seq![ts[0]] + ts.drop_first() =~= ts);
    }
}

/// Encoding conforming mapping pairs appends one entry per pair: with
/// distinct keys nothing is merged.
#[verifier::rlimit(100)]
#[verifier::spinoff_prover]
pub proof fn lemma_rt_map(ks: ShapeModel, vsh: ShapeModel, ps: Seq<(TypedModel, TypedModel)>)
    requires
        conforms_map(ks, vsh, ps),
    ensures
        forall|acc: Seq<(Seq<char>, ValueModel)>|
            (forall|i: int, j: int|
                0 <= i < acc.len() && 0 <= j < ps.len() ==> (#[trigger] acc[i]).0
                    != enc_key_string((#[trigger] ps[j]).0)) ==> #[trigger] enc_pairs(ps, acc)
                == Ok::<_, ErrorModel>(acc + map_entries(ps)),
    decreases ps,
{
    if ps.len() == 0 {
        assert forall|acc: Seq<(Seq<char>, ValueModel)>|
            (forall|i: int, j: int|
                0 <= i < acc.len() && 0 <= j < ps.len() ==> (#[trigger] acc[i]).0
                    != enc_key_string((#[trigger] ps[j]).0)) implies #[trigger] enc_pairs(ps, acc)
            == Ok::<_, ErrorModel>(acc + map_entries(ps)) by {
            assert(acc + map_entries(ps) =~= acc);
        }
    } else {
        lemma_rt_key(ks, ps[0].0);
        lemma_round_trip(vsh, ps[0].1);
        assert(conforms_map(ks, vsh, ps.drop_first())) by {
            assert(forall|i: int, j: int|
                0 <= i < j < ps.drop_first().len() ==> enc_key_string(
                    (#[trigger] ps.drop_first()[i]).0,
                ) != enc_key_string((#[trigger] ps.drop_first()[j]).0)) by {
                assert(forall|i: int|
                    0 <= i < ps.drop_first().len() ==> #[trigger] ps.drop_first()[i] == ps[i + 1]);
            }
        }
        lemma_rt_map(ks, vsh, ps.drop_first());
        assert forall|acc: Seq<(Seq<char>, ValueModel)>|
            (forall|i: int, j: int|
                0 <= i < acc.len() && 0 <= j < ps.len() ==> (#[trigger] acc[i]).0
                    != enc_key_string((#[trigger] ps[j]).0)) implies #[trigger] enc_pairs(ps, acc)
            == Ok::<_, ErrorModel>(acc + map_entries(ps)) by {
            let k0 = enc_key_string(ps[0].0);
            let v0 = enc_val(ps[0].1);
            assert(forall|i: int| 0 <= i < acc.len() ==> (#[trigger] acc[i]).0 != k0);
            lemma_obj_insert_missing(acc, k0, v0);
            let acc2 = acc.push((k0, v0));
            assert(forall|i: int, j: int|
                0 <= i < acc2.len() && 0 <= j < ps.drop_first().len() ==> (#[trigger] acc2[i]).0
                    != enc_key_string((#[trigger] ps.drop_first()[j]).0)) by {
                assert(forall|j: int|
                    0 <= j < ps.drop_first().len() ==> #[trigger] ps.drop_first()[j] == ps[j + 1]);
                assert(forall|i: int| 0 <= i < acc.len() ==> #[trigger] acc2[i] == acc[i]);
            }
            assert(enc_pairs(ps.drop_first(), acc2) == Ok::<_, ErrorModel>(
                acc2 + map_entries(ps.drop_first()),
            ));
            assert(acc2 + map_entries(ps.drop_first()) =~= acc + map_entries(ps));
        }
    }
}

/// Decoding the entries of a conforming mapping for a mapping target
/// rebuilds the pairs.
#[verifier::rlimit(100)]
pub proof fn lemma_rt_map_entries(ks: ShapeModel, vsh: ShapeModel, ps: Seq<(TypedModel, TypedModel)>)
    requires
        conforms_map(ks, vsh, ps),
    ensures
        dec_map_entries(ks, vsh, map_entries(ps)) == Ok::<_, ErrorModel>(ps),
    decreases ps,
{
    if ps.len() == 0 {
        assert(map_entries(ps) =~= Seq::<(Seq<char>, ValueModel)>::empty());
        assert(ps =~= Seq::<(TypedModel, TypedModel)>::empty());
    } else {
        lemma_rt_key(ks, ps[0].0);
        lemma_round_trip(vsh, ps[0].1);
        assert(conforms_map(ks, vsh, ps.drop_first())) by {
            assert(forall|i: int, j: int|
                0 <= i < j < ps.drop_first().len() ==> enc_key_string(
                    (#[trigger] ps.drop_first()[i]).0,
                ) != enc_key_string((#[trigger] ps.drop_first()[j]).0)) by {
                assert(forall|i: int|
                    0 <= i < ps.drop_first().len() ==> #[trigger] ps.drop_first()[i] == ps[i + 1]);
            }
        }
        lemma_rt_map_entries(ks, vsh, ps.drop_first());
        let es = map_entries(ps);
        assert(es[0] == (enc_key_string(ps[0].0), enc_val(ps[0].1)));
        assert(es.drop_first() =~= map_entries(ps.drop_first()));
        assert((ps[0].0, ps[0].1) == ps[0]);
        assert(seq![ps[0]] + ps.drop_first() =~= ps);
        assert(dec_key(ks, es[0].0) == Ok::<TypedModel, ErrorModel>(ps[0].0));
        assert(dec(vsh, es[0].1) == Ok::<TypedModel, ErrorModel>(ps[0].1));
        assert(dec_map_entries(ks, vsh, es.drop_first()) == Ok::<
            Seq<(TypedModel, TypedModel)>,
            ErrorModel,
        >(ps.drop_first()));
        assert(dec_map_entries(ks, vsh, es) == Ok::<Seq<(TypedModel, TypedModel)>, ErrorModel>(
            seq![(ps[0].0, ps[0].1)] + ps.drop_first(),
        ));
    }
}

/// Decoding the entries of a conforming mapping for an open target
/// rebuilds the pairs, keys as text.
#[verifier::rlimit(100)]
pub proof fn lemma_rt_any_entries(ps: Seq<(TypedModel, TypedModel)>)
    requires
        conforms_map(ShapeModel::Any, ShapeModel::Any, ps),
    ensures
        dec_any_entries(ShapeModel::Any, map_entries(ps)) == Ok::<_, ErrorModel>(ps),
    decreases ps,
{
    if ps.len() == 0 {
        assert(map_entries(ps) =~= Seq::<(Seq<char>, ValueModel)>::empty());
        assert(ps =~= Seq::<(TypedModel, TypedModel)>::empty());
    } else {
        lemma_rt_key(ShapeModel::Any, ps[0].0);
        lemma_round_trip(ShapeModel::Any, ps[0].1);
        assert(ps[0].0 is Text);
        assert(TypedModel::Text(enc_key_string(ps[0].0)) == ps[0].0);
        assert(conforms_map(ShapeModel::Any, ShapeModel::Any, ps.drop_first())) by {
            assert(forall|i: int, j: int|
                0 <= i < j < ps.drop_first().len() ==> enc_key_string(
                    (#[trigger] ps.drop_first()[i]).0,
                ) != enc_key_string((#[trigger] ps.drop_first()[j]).0)) by {
                assert(forall|i: int|
                    0 <= i < ps.drop_first().len() ==> #[trigger] ps.drop_first()[i] == ps[i + 1]);
            }
        }
        lemma_rt_any_entries(ps.drop_first());
        let es = map_entries(ps);
        assert(es[0] == (enc_key_string(ps[0].0), enc_val(ps[0].1)));
        assert(es.drop_first() =~= map_entries(ps.drop_first()));
        assert((ps[0].0, ps[0].1) == ps[0]);
        assert(seq![ps[0]] + ps.drop_first() =~= ps);
    }
}

/// Encoding conforming named fields appends one entry per field: with
/// distinct names nothing is merged.
#[verifier::rlimit(100)]
#[verifier::spinoff_prover]
pub proof fn lemma_rt_fields(
    fsh: Seq<(Seq<char>, ShapeModel)>,
    fts: Seq<(Seq<char>, TypedModel)>,
)
    requires
        conforms_fields(fsh, fts),
    ensures
        forall|acc: Seq<(Seq<char>, ValueModel)>|
            (forall|i: int, j: int|
                0 <= i < acc.len() && 0 <= j < fts.len() ==> (#[trigger] acc[i]).0 != (
                #[trigger] fts[j]).0) ==> #[trigger] enc_fields(fts, acc) == Ok::<_, ErrorModel>(
                acc + field_entries(fts),
            ),
    decreases fts,
{
    if fts.len() == 0 {
        assert forall|acc: Seq<(Seq<char>, ValueModel)>|
            (forall|i: int, j: int|
                0 <= i < acc.len() && 0 <= j < fts.len() ==> (#[trigger] acc[i]).0 != (
                #[trigger] fts[j]).0) implies #[trigger] enc_fields(fts, acc) == Ok::<
            _,
            ErrorModel,
        >(acc + field_entries(fts)) by {
            assert(acc + field_entries(fts) =~= acc);
        }
    } else {
        lemma_round_trip(fsh[0].1, fts[0].1);
        assert(conforms_fields(fsh.drop_first(), fts.drop_first())) by {
            assert(forall|i: int, j: int|
                0 <= i < j < fts.drop_first().len() ==> (#[trigger] fts.drop_first()[i]).0 != (
                #[trigger] fts.drop_first()[j]).0) by {
                assert(forall|i: int|
                    0 <= i < fts.drop_first().len() ==> #[trigger] fts.drop_first()[i] == fts[i
                        + 1]);
            }
        }
        lemma_rt_fields(fsh.drop_first(), fts.drop_first());
        assert forall|acc: Seq<(Seq<char>, ValueModel)>|
            (forall|i: int, j: int|
                0 <= i < acc.len() && 0 <= j < fts.len() ==> (#[trigger] acc[i]).0 != (
                #[trigger] fts[j]).0) implies #[trigger] enc_fields(fts, acc) == Ok::<
            _,
            ErrorModel,
        >(acc + field_entries(fts)) by {
            let k0 = fts[0].0;
            let v0 = enc_val(fts[0].1);
            assert(forall|i: int| 0 <= i < acc.len() ==> (#[trigger] acc[i]).0 != k0);
            lemma_obj_insert_missing(acc, k0, v0);
            let acc2 = acc.push((k0, v0));
            assert(forall|i: int, j: int|
                0 <= i < acc2.len() && 0 <= j < fts.drop_first().len() ==> (#[trigger] acc2[i]).0
                    != (#[trigger] fts.drop_first()[j]).0) by {
                assert(forall|j: int|
                    0 <= j < fts.drop_first().len() ==> #[trigger] fts.drop_first()[j] == fts[j
                        + 1]);
                assert(forall|i: int| 0 <= i < acc.len() ==> #[trigger] acc2[i] == acc[i]);
            }
            assert(enc_fields(fts.drop_first(), acc2) == Ok::<_, ErrorModel>(
                acc2 + field_entries(fts.drop_first()),
            ));
            assert(acc2 + field_entries(fts.drop_first()) =~= acc + field_entries(fts));
        }
    }
}

/// Decoding the entries of a conforming named-field composite rebuilds
/// the fields in declared order.
#[verifier::rlimit(100)]
pub proof fn lemma_rt_fields_entries(
    fsh: Seq<(Seq<char>, ShapeModel)>,
    fts: Seq<(Seq<char>, TypedModel)>,
)
    requires
        conforms_fields(fsh, fts),
    ensures
        dec_fields(fsh, field_entries(fts)) == Ok::<_, ErrorModel>(fts),
    decreases fts,
{
    let es = field_entries(fts);
    if fts.len() == 0 {
        assert(es =~= Seq::<(Seq<char>, ValueModel)>::empty());
        assert(fsh =~= Seq::<(Seq<char>, ShapeModel)>::empty());
        assert(fts =~= Seq::<(Seq<char>, TypedModel)>::empty());
    } else {
        lemma_round_trip(fsh[0].1, fts[0].1);
        let name = fsh[0].0;
        assert(es[0] == (fts[0].0, enc_val(fts[0].1)));
        assert(es.drop_first() =~= field_entries(fts.drop_first()));
        assert(es.len() == fts.len()) by {
            lemma_field_entries_len(fts);
        }
        assert(forall|m: int| 1 <= m < es.len() ==> (#[trigger] es[m]).0 == fts[m].0) by {
            lemma_field_entries_names(fts);
        }
        assert(forall|m: int| 1 <= m < es.len() ==> (#[trigger] es[m]).0 != name);
        lemma_key_count_zero(es, 1, name);
        assert(key_count_from(es, 0, name) == 1);
        assert(key_find_from(es, 0, name) == 0);
        assert(conforms_fields(fsh.drop_first(), fts.drop_first())) by {
            assert(forall|i: int, j: int|
                0 <= i < j < fts.drop_first().len() ==> (#[trigger] fts.drop_first()[i]).0 != (
                #[trigger] fts.drop_first()[j]).0) by {
                assert(forall|i: int|
                    0 <= i < fts.drop_first().len() ==> #[trigger] fts.drop_first()[i] == fts[i
                        + 1]);
            }
        }
        lemma_rt_fields_entries(fsh.drop_first(), fts.drop_first());
        assert(es.remove(0) =~= es.drop_first());
        assert((fts[0].0, fts[0].1) == fts[0]);
        assert(seq![fts[0]] + fts.drop_first() =~= fts);
    }
}

pub proof fn lemma_field_entries_len(fts: Seq<(Seq<char>, TypedModel)>)
    ensures
        field_entries(fts).len() == fts.len(),
    decreases fts,
{
    if fts.len() > 0 {
        lemma_field_entries_len(fts.drop_first());
    }
}

pub proof fn lemma_field_entries_names(fts: Seq<(Seq<char>, TypedModel)>)
    ensures
        field_entries(fts).len() == fts.len(),
        forall|m: int|
            0 <= m < fts.len() ==> (#[trigger] field_entries(fts)[m]).0 == fts[m].0,
    decreases fts,
{
    if fts.len() > 0 {
        lemma_field_entries_names(fts.drop_first());
        assert forall|m: int| 0 <= m < fts.len() implies (#[trigger] field_entries(fts)[m]).0
            == fts[m].0 by {
            if m > 0 {
                assert(field_entries(fts)[m] == field_entries(fts.drop_first())[m - 1]);
                assert(fts.drop_first()[m - 1] == fts[m]);
            }
        }
    }
}


/// Whether every length in the tree fits a 64-bit count, so the byte
/// form can carry it.
pub open spec fn vm_len_ok(v: ValueModel) -> bool
    decreases v,
{
    match v {
        ValueModel::Blob(bs) => bs.len() <= u64::MAX,
        ValueModel::String(t) => encode_utf8(t).len() <= u64::MAX,
        ValueModel::Array(vs) => vs.len() <= u64::MAX && vm_len_ok_list(vs),
        ValueModel::Object(es) => es.len() <= u64::MAX && vm_len_ok_entries(es),
        _ => true,
    }
}

pub open spec fn vm_len_ok_list(vs: Seq<ValueModel>) -> bool
    decreases vs,
{
    if vs.len() == 0 {
        true
    } else {
        vm_len_ok(vs[0]) && vm_len_ok_list(vs.drop_first())
    }
}

pub open spec fn vm_len_ok_entries(es: Seq<(Seq<char>, ValueModel)>) -> bool
    decreases es,
{
    if es.len() == 0 {
        true
    } else {
        encode_utf8(es[0].0).len() <= u64::MAX && vm_len_ok(es[0].1) && vm_len_ok_entries(
            es.drop_first(),
        )
    }
}

/// A byte span that holds two pieces in a row splits into the pieces.
pub proof fn lemma_split(bs: Seq<u8>, pos: int, a: Seq<u8>, b: Seq<u8>)
    requires
        0 <= pos,
        pos + a.len() + b.len() <= bs.len(),
        bs.subrange(pos, pos + a.len() + b.len()) == a + b,
    ensures
        bs.subrange(pos, pos + a.len()) == a,
        bs.subrange(pos + a.len(), pos + a.len() + b.len()) == b,
{
    assert forall|i: int| 0 <= i < a.len() implies bs.subrange(pos, pos + a.len())[i] == a[i] by {
        assert(bs.subrange(pos, pos + a.len() + b.len())[i] == (a + b)[i]);
    }
    assert(bs.subrange(pos, pos + a.len()) =~= a);
    assert forall|i: int|
        0 <= i < b.len() implies bs.subrange(pos + a.len(), pos + a.len() + b.len())[i] == b[i] by {
        assert(bs.subrange(pos + a.len(), pos + a.len() + b.len())[i] == bs[pos + a.len() + i]);
        assert(bs.subrange(pos, pos + a.len() + b.len())[a.len() + i] == bs[pos + a.len() + i]);
        assert((a + b)[a.len() + i] == b[i]);
    }
    assert(bs.subrange(pos + a.len(), pos + a.len() + b.len()) =~= b);
}

/// The zig-zag correspondence is a bijection on 64-bit numbers.
pub proof fn lemma_zigzag(i: i64)
    ensures
        unzigzag(zigzag(i)) == i,
{
}

/// A variable-length number written at `pos` reads back as itself.
#[verifier::rlimit(100)]
#[verifier::spinoff_prover]
pub proof fn lemma_varint_rt(u: u64, bs: Seq<u8>, pos: int)
    requires
        0 <= pos,
        pos + varint(u).len() <= bs.len(),
        bs.subrange(pos, pos + varint(u).len()) == varint(u),
    ensures
        dec_varint(bs, pos) == Ok::<_, Seq<char>>((u, pos + varint(u).len())),
{
    lemma_auto_spec_u16_to_from_le_bytes();
    lemma_auto_spec_u32_to_from_le_bytes();
    lemma_auto_spec_u64_to_from_le_bytes();
    let w = varint(u);
    assert(bs[pos] == bs.subrange(pos, pos + w.len())[0]);
    if u <= 250 {
        assert(bs[pos] == u as u8);
    } else if u <= 0xFFFF {
        assert(bs[pos] == 251);
        assert(bs.subrange(pos + 1, pos + 3) =~= w.subrange(1, 3));
        assert(w.subrange(1, 3) =~= spec_u16_to_le_bytes(u as u16));
    } else if u <= 0xFFFF_FFFF {
        assert(bs[pos] == 252);
        assert(bs.subrange(pos + 1, pos + 5) =~= w.subrange(1, 5));
        assert(w.subrange(1, 5) =~= spec_u32_to_le_bytes(u as u32));
    } else {
        assert(bs[pos] == 253);
        assert(bs.subrange(pos + 1, pos + 9) =~= w.subrange(1, 9));
        assert(w.subrange(1, 9) =~= spec_u64_to_le_bytes(u));
    }
}

/// A string written at `pos` reads back as itself.
#[verifier::rlimit(100)]
#[verifier::spinoff_prover]
pub proof fn lemma_str_rt(t: Seq<char>, bs: Seq<u8>, pos: int)
    requires
        0 <= pos,
        encode_utf8(t).len() <= u64::MAX,
        pos + str_bytes(t).len() <= bs.len(),
        bs.subrange(pos, pos + str_bytes(t).len()) == str_bytes(t),
    ensures
        dec_str(bs, pos) == Ok::<_, Seq<char>>((t, pos + str_bytes(t).len())),
{
    let ut = encode_utf8(t);
    let n = ut.len() as u64;
    let w = varint(n);
    lemma_split(bs, pos, w, ut);
    lemma_varint_rt(n, bs, pos);
    let p = pos + w.len();
    assert(bs.subrange(p, p + n) == ut);
    vstd::utf8::encode_utf8_valid_utf8(t);
    vstd::utf8::encode_utf8_decode_utf8(t);
}

/// The deepest child of a list is at least as deep as each element.
pub proof fn lemma_depth_list_bound(vs: Seq<ValueModel>, i: int)
    requires
        0 <= i < vs.len(),
    ensures
        vm_depth(vs[i]) <= vm_depth_list(vs),
    decreases vs,
{
    if i > 0 {
        lemma_depth_list_bound(vs.drop_first(), i - 1);
        assert(vs.drop_first()[i - 1] == vs[i]);
    }
}

pub proof fn lemma_depth_entries_bound(es: Seq<(Seq<char>, ValueModel)>, i: int)
    requires
        0 <= i < es.len(),
    ensures
        vm_depth(es[i].1) <= vm_depth_entries(es),
    decreases es,
{
    if i > 0 {
        lemma_depth_entries_bound(es.drop_first(), i - 1);
        assert(es.drop_first()[i - 1] == es[i]);
    }
}

/// A value tree written at `pos` reads back as itself, within the
/// nesting budget.
#[verifier::rlimit(100)]
#[verifier::spinoff_prover]
pub proof fn lemma_bytes_rt(v: ValueModel, bs: Seq<u8>, pos: int, depth: u64)
    requires
        vm_len_ok(v),
        vm_depth(v) < depth,
        0 <= pos,
        pos + bytes_of(v).len() <= bs.len(),
        bs.subrange(pos, pos + bytes_of(v).len()) == bytes_of(v),
    ensures
        dec_bytes(bs, pos, depth) == Ok::<_, Seq<char>>((v, pos + bytes_of(v).len())),
    decreases v, 0nat,
{
    let w = bytes_of(v);
    assert(bs[pos] == bs.subrange(pos, pos + w.len())[0]);
    match v {
        ValueModel::Null => {
            assert(bs[pos] == 0);
        },
        ValueModel::Boolean(b) => {
            assert(bs[pos] == 1);
            assert(bs[pos + 1] == bs.subrange(pos, pos + w.len())[1]);
        },
        ValueModel::Blob(data) => {
            assert(bs[pos] == 2);
            let n = data.len() as u64;
            let vi = varint(n);
            assert(w.subrange(1, w.len() as int) =~= vi + data);
            assert(bs.subrange(pos + 1, pos + 1 + vi.len() + data.len()) =~= w.subrange(
                1,
                w.len() as int,
            ));
            lemma_split(bs, pos + 1, vi, data);
            lemma_varint_rt(n, bs, pos + 1);
            let p2 = pos + 1 + vi.len();
            assert(bs.subrange(p2, p2 + n) == data);
        },
        ValueModel::Integer(i) => {
            assert(bs[pos] == 4);
            let vi = varint(zigzag(i));
            assert(bs.subrange(pos + 1, pos + 1 + vi.len()) =~= w.subrange(1, w.len() as int));
            assert(w.subrange(1, w.len() as int) =~= vi);
            lemma_varint_rt(zigzag(i), bs, pos + 1);
            lemma_zigzag(i);
        },
        ValueModel::Float(bits) => {
            assert(bs[pos] == 5);
            lemma_auto_spec_u64_to_from_le_bytes();
            assert(bs.subrange(pos + 1, pos + 9) =~= w.subrange(1, 9));
            assert(w.subrange(1, 9) =~= spec_u64_to_le_bytes(bits));
        },
        ValueModel::Array(vs) => {
            assert(bs[pos] == 3);
            let n = vs.len() as u64;
            let vi = varint(n);
            let body = bytes_of_list(vs);
            assert(w.subrange(1, w.len() as int) =~= vi + body);
            assert(bs.subrange(pos + 1, pos + 1 + vi.len() + body.len()) =~= w.subrange(
                1,
                w.len() as int,
            ));
            lemma_split(bs, pos + 1, vi, body);
            lemma_varint_rt(n, bs, pos + 1);
            let p2 = pos + 1 + vi.len();
            lemma_bytes_rt_list(vs, bs, p2, (depth - 1) as u64);
        },
        ValueModel::Object(es) => {
            assert(bs[pos] == 6);
            let n = es.len() as u64;
            let vi = varint(n);
            let body = bytes_of_entries(es);
            assert(w.subrange(1, w.len() as int) =~= vi + body);
            assert(bs.subrange(pos + 1, pos + 1 + vi.len() + body.len()) =~= w.subrange(
                1,
                w.len() as int,
            ));
            lemma_split(bs, pos + 1, vi, body);
            lemma_varint_rt(n, bs, pos + 1);
            let p2 = pos + 1 + vi.len();
            lemma_bytes_rt_entries(es, bs, p2, (depth - 1) as u64);
        },
        ValueModel::String(t) => {
            assert(bs[pos] == 7);
            assert(bs.subrange(pos + 1, pos + 1 + str_bytes(t).len()) =~= w.subrange(
                1,
                w.len() as int,
            ));
            assert(w.subrange(1, w.len() as int) =~= str_bytes(t));
            lemma_str_rt(t, bs, pos + 1);
        },
    }
}

/// A list of value trees written at `pos` reads back as itself.
#[verifier::rlimit(100)]
#[verifier::spinoff_prover]
pub proof fn lemma_bytes_rt_list(vs: Seq<ValueModel>, bs: Seq<u8>, pos: int, depth: u64)
    requires
        vs.len() <= u64::MAX,
        vm_len_ok_list(vs),
        vm_depth_list(vs) < depth,
        0 <= pos,
        pos + bytes_of_list(vs).len() <= bs.len(),
        bs.subrange(pos, pos + bytes_of_list(vs).len()) == bytes_of_list(vs),
    ensures
        dec_bytes_list(bs, pos, vs.len() as u64, depth) == Ok::<_, Seq<char>>(
            (vs, pos + bytes_of_list(vs).len()),
        ),
    decreases vs, 1nat,
{
    if vs.len() == 0 {
        assert(vs =~= Seq::<ValueModel>::empty());
    } else {
        let head = bytes_of(vs[0]);
        let rest = bytes_of_list(vs.drop_first());
        assert(bytes_of_list(vs) == head + rest);
        lemma_split(bs, pos, head, rest);
        lemma_depth_list_bound(vs, 0);
        lemma_bytes_rt(vs[0], bs, pos, depth);
        let p = pos + head.len();
        lemma_bytes_rt_list(vs.drop_first(), bs, p, depth);
        assert(vs.drop_first().len() as u64 == (vs.len() as u64 - 1) as u64);
        assert(seq![vs[0]] + vs.drop_first() =~= vs);
    }
}

/// A list of entries written at `pos` reads back as itself.
#[verifier::rlimit(100)]
#[verifier::spinoff_prover]
pub proof fn lemma_bytes_rt_entries(es: Seq<(Seq<char>, ValueModel)>, bs: Seq<u8>, pos: int, depth: u64)
    requires
        es.len() <= u64::MAX,
        vm_len_ok_entries(es),
        vm_depth_entries(es) < depth,
        0 <= pos,
        pos + bytes_of_entries(es).len() <= bs.len(),
        bs.subrange(pos, pos + bytes_of_entries(es).len()) == bytes_of_entries(es),
    ensures
        dec_bytes_entries(bs, pos, es.len() as u64, depth) == Ok::<_, Seq<char>>(
            (es, pos + bytes_of_entries(es).len()),
        ),
    decreases es, 1nat,
{
    if es.len() == 0 {
        assert(es =~= Seq::<(Seq<char>, ValueModel)>::empty());
    } else {
        let kb = str_bytes(es[0].0);
        let vb = bytes_of(es[0].1);
        let rest = bytes_of_entries(es.drop_first());
        assert(bytes_of_entries(es) == kb + vb + rest);
        assert(kb + vb + rest =~= kb + (vb + rest));
        lemma_split(bs, pos, kb, vb + rest);
        lemma_str_rt(es[0].0, bs, pos);
        let p = pos + kb.len();
        lemma_split(bs, p, vb, rest);
        lemma_depth_entries_bound(es, 0);
        lemma_bytes_rt(es[0].1, bs, p, depth);
        let p2 = p + vb.len();
        lemma_bytes_rt_entries(es.drop_first(), bs, p2, depth);
        assert(es.drop_first().len() as u64 == (es.len() as u64 - 1) as u64);
        assert((es[0].0, es[0].1) == es[0]);
        assert(seq![es[0]] + es.drop_first() =~= es);
    }
}

/// The full round trip through bytes: a conforming typed value encodes
/// to a value tree, the tree to bytes, and both decode back unchanged.
pub proof fn lemma_bytes_round_trip(s: ShapeModel, t: TypedModel)
    requires
        conforms(s, t),
        vm_len_ok(enc_val(t)),
        vm_depth(enc_val(t)) < DEPTH_LIMIT,
    ensures
        enc(t) == Ok::<ValueModel, ErrorModel>(enc_val(t)),
        dec_bytes(bytes_of(enc_val(t)), 0, DEPTH_LIMIT) == Ok::<_, Seq<char>>(
            (enc_val(t), bytes_of(enc_val(t)).len() as int),
        ),
        dec(s, enc_val(t)) == Ok::<TypedModel, ErrorModel>(t),
{
    lemma_round_trip(s, t);
    let bb = bytes_of(enc_val(t));
    assert(bb.subrange(0, bb.len() as int) =~= bb);
    lemma_bytes_rt(enc_val(t), bb, 0, DEPTH_LIMIT);
}


/// A tagged-union case without payload encodes to a bare string holding
/// its tag, and that string decodes back to the same case whenever the
/// union knows the tag as a payload-free case.
pub proof fn lemma_unit_case_tag(cs: Seq<(Seq<char>, CaseModel)>, tag: Seq<char>)
    ensures
        enc(TypedModel::UnitVariant(tag)) == Ok::<ValueModel, ErrorModel>(ValueModel::String(tag)),
        (0 <= case_find(cs, 0, tag) < cs.len() && cs[case_find(cs, 0, tag)].1 is Unit) ==> dec(
            ShapeModel::Union(cs),
            ValueModel::String(tag),
        ) == Ok::<TypedModel, ErrorModel>(TypedModel::UnitVariant(tag)),
{
}

/// Decoding a tagged union from an object demands exactly one key: an
/// empty object and an object with an extra key each fail with the
/// matching `Expected` error.
pub proof fn lemma_single_key_discipline(
    cs: Seq<(Seq<char>, CaseModel)>,
    es: Seq<(Seq<char>, ValueModel)>,
)
    ensures
        es.len() == 0 ==> dec(ShapeModel::Union(cs), ValueModel::Object(es)) == Err::<
            TypedModel,
            ErrorModel,
        >(ErrorModel::Expected("variant name"@, "empty object"@)),
        es.len() >= 2 ==> dec(ShapeModel::Union(cs), ValueModel::Object(es)) == Err::<
            TypedModel,
            ErrorModel,
        >(ErrorModel::Expected("map with a single key"@, "extra key \""@ + es[1].0 + "\""@)),
{
}

/// An absent optional encodes to null; null decodes to absent against an
/// optional target, and a present value passes through unwrapped. A
/// non-optional target rejects null as a type mismatch.
pub proof fn lemma_optional_collapse(inner: ShapeModel, t: TypedModel)
    ensures
        enc(TypedModel::Absent) == Ok::<ValueModel, ErrorModel>(ValueModel::Null),
        dec(ShapeModel::Optional(Box::new(inner)), ValueModel::Null) == Ok::<
            TypedModel,
            ErrorModel,
        >(TypedModel::Absent),
        enc(TypedModel::Present(Box::new(t))) == enc(t),
        dec(ShapeModel::Integer, ValueModel::Null) == Err::<TypedModel, ErrorModel>(
            ErrorModel::Expected("type integer"@, "type null"@),
        ),
{
}

/// The unit value encodes to an empty array, and a zero-field-marker
/// target accepts exactly that encoding.
pub proof fn lemma_unit_empty_array()
    ensures
        enc(TypedModel::Unit) == Ok::<ValueModel, ErrorModel>(
            ValueModel::Array(Seq::<ValueModel>::empty()),
        ),
        dec(ShapeModel::Unit, ValueModel::Array(Seq::<ValueModel>::empty())) == Ok::<
            TypedModel,
            ErrorModel,
        >(TypedModel::Unit),
{
}

/// Encoding a mapping whose first key does not encode to a string fails
/// with an `Expected` error naming the string requirement and what the
/// key actually was.
pub proof fn lemma_key_type_enforcement(ps: Seq<(TypedModel, TypedModel)>)
    requires
        ps.len() > 0,
        enc(ps[0].0) is Ok,
        !(enc(ps[0].0)->Ok_0 is String),
    ensures
        enc(TypedModel::Mapping(ps)) == Err::<ValueModel, ErrorModel>(
            ErrorModel::Expected("type str"@, type_label(enc(ps[0].0)->Ok_0)),
        ),
{
    assert(enc_pairs(ps, Seq::<(Seq<char>, ValueModel)>::empty()) == Err::<
        Seq<(Seq<char>, ValueModel)>,
        ErrorModel,
    >(ErrorModel::Expected("type str"@, type_label(enc(ps[0].0)->Ok_0))));
}

} // verus!
