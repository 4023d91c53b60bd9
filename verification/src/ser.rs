//! The encoder: walks a typed value and produces an equivalent dynamic
//! value, with a fixed, total mapping for every shape. Encoding only
//! fails when a mapping key does not encode to a string.

use crate::error::{Error, ErrorModel};
use crate::typed::{
    lemma_typed_model_fields, lemma_typed_model_list, lemma_typed_model_pairs, Typed, TypedModel,
    typed_model, typed_model_fields, typed_model_list, typed_model_pairs,
};
use crate::value::{
    lemma_value_model_entries, lemma_value_model_list, obj_insert, type_label, Value, ValueModel,
    value_model, value_model_entries, value_model_list,
};
use vstd::prelude::*;

verus! {

/// What encoding a typed value yields: the value produced, or the error
/// raised. The mapping is total but for one case: a mapping key whose
/// encoding is not a string.
pub open spec fn enc(t: TypedModel) -> Result<ValueModel, ErrorModel>
    decreases t,
{
    match t {
        TypedModel::Bool(b) => Ok(ValueModel::Boolean(b)),
        TypedModel::Integer(i) => Ok(ValueModel::Integer(i)),
        TypedModel::Float(bits) => Ok(ValueModel::Float(bits)),
        TypedModel::Char(c) => Ok(ValueModel::String(seq![c])),
        TypedModel::Text(s) => Ok(ValueModel::String(s)),
        TypedModel::Bytes(b) => Ok(ValueModel::Blob(b)),
        TypedModel::Absent => Ok(ValueModel::Null),
        TypedModel::Present(x) => enc(*x),
        TypedModel::Unit => Ok(ValueModel::Array(Seq::empty())),
        TypedModel::Sequence(ts) => match enc_list(ts) {
            Ok(vs) => Ok(ValueModel::Array(vs)),
            Err(e) => Err(e),
        },
        TypedModel::Mapping(ps) => match enc_pairs(ps, Seq::empty()) {
            Ok(es) => Ok(ValueModel::Object(es)),
            Err(e) => Err(e),
        },
        TypedModel::Fields(fs) => match enc_fields(fs, Seq::empty()) {
            Ok(es) => Ok(ValueModel::Object(es)),
            Err(e) => Err(e),
        },
        TypedModel::UnitVariant(tag) => Ok(ValueModel::String(tag)),
        TypedModel::NewtypeVariant(tag, x) => match enc(*x) {
            Ok(v) => Ok(ValueModel::Object(seq![(tag, v)])),
            Err(e) => Err(e),
        },
        TypedModel::TupleVariant(tag, ts) => match enc_list(ts) {
            Ok(vs) => Ok(ValueModel::Object(seq![(tag, ValueModel::Array(vs))])),
            Err(e) => Err(e),
        },
        TypedModel::FieldsVariant(tag, fs) => match enc_fields(fs, Seq::empty()) {
            Ok(es) => Ok(ValueModel::Object(seq![(tag, ValueModel::Object(es))])),
            Err(e) => Err(e),
        },
    }
}

pub open spec fn enc_list(ts: Seq<TypedModel>) -> Result<Seq<ValueModel>, ErrorModel>
    decreases ts,
{
    if ts.len() == 0 {
        Ok(Seq::empty())
    } else {
        match enc(ts[0]) {
            Err(e) => Err(e),
            Ok(v) => match enc_list(ts.drop_first()) {
                Err(e) => Err(e),
                Ok(vs) => Ok(seq![v] + vs),
            },
        }
    }
}

/// Encodes mapping pairs in order into an accumulated object. A key that
/// does not encode to a string stops everything with an `Expected` error;
/// a repeated key keeps its first position and takes the later value.
pub open spec fn enc_pairs(
    ps: Seq<(TypedModel, TypedModel)>,
    acc: Seq<(Seq<char>, ValueModel)>,
) -> Result<Seq<(Seq<char>, ValueModel)>, ErrorModel>
    decreases ps,
{
    if ps.len() == 0 {
        Ok(acc)
    } else {
        match enc(ps[0].0) {
            Err(e) => Err(e),
            Ok(kv) => match kv {
                ValueModel::String(k) => match enc(ps[0].1) {
                    Err(e) => Err(e),
                    Ok(v) => enc_pairs(ps.drop_first(), obj_insert(acc, k, v)),
                },
                _ => Err(ErrorModel::Expected("type str"@, type_label(kv))),
            },
        }
    }
}

pub open spec fn enc_fields(
    fs: Seq<(Seq<char>, TypedModel)>,
    acc: Seq<(Seq<char>, ValueModel)>,
) -> Result<Seq<(Seq<char>, ValueModel)>, ErrorModel>
    decreases fs,
{
    if fs.len() == 0 {
        Ok(acc)
    } else {
        match enc(fs[0].1) {
            Err(e) => Err(e),
            Ok(v) => enc_fields(fs.drop_first(), obj_insert(acc, fs[0].0, v)),
        }
    }
}

pub open spec fn enc_result_model(r: Result<Value, Error>) -> Result<ValueModel, ErrorModel> {
    match r {
        Ok(v) => Ok(v@),
        Err(e) => Err(e@),
    }
}

/// A fresh copy of a byte vector.
fn copy_bytes(b: &Vec<u8>) -> (r: Vec<u8>)
    ensures
        r@ == b@,
{
    let mut out: Vec<u8> = Vec::new();
    let mut i: usize = 0;
    while i < b.len()
        invariant
            0 <= i <= b@.len(),
            out@ =~= b@.subrange(0, i as int),
        decreases b@.len() - i,
    {
        out.push(b[i]);
        i += 1;
    }
    proof {
        assert(out@ =~= b@);
    }
    out
}

/// Relies on `String::from` for `char`: the string holding exactly the
/// one given character.
#[verifier::external_body]
fn string_of_char(c: char) -> (r: String)
    ensures
        r@ == seq![c],
{
    String::from(c)
}

/// Inserting a key at its first occurrence replaces the value in place.
pub proof fn lemma_obj_insert_at(
    es: Seq<(Seq<char>, ValueModel)>,
    k: Seq<char>,
    v: ValueModel,
    i: int,
)
    requires
        0 <= i < es.len(),
        es[i].0 == k,
        forall|j: int| 0 <= j < i ==> (#[trigger] es[j]).0 != k,
    ensures
        obj_insert(es, k, v) == es.update(i, (k, v)),
    decreases i,
{
    if i == 0 {
        assert(obj_insert(es, k, v) =~= es.update(0, (k, v)));
    } else {
        assert(es[0].0 != k);
        lemma_obj_insert_at(es.drop_first(), k, v, i - 1);
        assert(seq![es[0]] + es.drop_first().update(i - 1, (k, v)) =~= es.update(i, (k, v)));
    }
}

/// Inserting a key absent from the object appends the entry.
pub proof fn lemma_obj_insert_missing(es: Seq<(Seq<char>, ValueModel)>, k: Seq<char>, v: ValueModel)
    requires
        forall|j: int| 0 <= j < es.len() ==> (#[trigger] es[j]).0 != k,
    ensures
        obj_insert(es, k, v) == es.push((k, v)),
    decreases es,
{
    if es.len() == 0 {
        assert(obj_insert(es, k, v) =~= es.push((k, v)));
    } else {
        assert(es[0].0 != k);
        lemma_obj_insert_missing(es.drop_first(), k, v);
        assert(seq![es[0]] + es.drop_first().push((k, v)) =~= es.push((k, v)));
    }
}

/// Inserts a key/value pair into an entry list: an existing key keeps its
/// position and takes the new value, a new key is appended.
pub(crate) fn obj_upsert(entries: &mut Vec<(String, Value)>, k: String, v: Value)
    ensures
        value_model_entries(final(entries)@) == obj_insert(
            value_model_entries(old(entries)@),
            k@,
            v@,
        ),
{
    proof {
        lemma_value_model_entries(entries@);
    }
    let ghost es = value_model_entries(entries@);
    let mut i: usize = 0;
    while i < entries.len()
        invariant
            0 <= i <= entries@.len(),
            entries@ == old(entries)@,
            es == value_model_entries(entries@),
            es.len() == entries@.len(),
            forall|j: int|
                #![trigger es[j]]
                0 <= j < entries@.len() ==> es[j] == (entries@[j].0@, value_model(entries@[j].1)),
            forall|j: int| 0 <= j < i ==> (#[trigger] es[j]).0 != k@,
        decreases entries@.len() - i,
    {
        if entries[i].0 == k {
            proof {
                lemma_obj_insert_at(es, k@, v@, i as int);
            }
            entries[i] = (k, v);
            proof {
                lemma_value_model_entries(entries@);
                assert(value_model_entries(entries@) =~= es.update(i as int, (k@, v@)));
            }
            return ;
        }
        i += 1;
    }
    proof {
        lemma_obj_insert_missing(es, k@, v@);
    }
    entries.push((k, v));
    proof {
        lemma_value_model_entries(entries@);
        assert(value_model_entries(entries@) =~= es.push((k@, v@)));
    }
}

/// Encodes a typed value into a dynamic value, per [`enc`].
pub(crate) fn encode(t: &Typed) -> (r: Result<Value, Error>)
    ensures
        enc_result_model(r) == enc(t@),
    decreases t, 0nat, 0nat,
{
    match t {
        Typed::Bool(b) => Ok(Value::Boolean(*b)),
        Typed::Integer(i) => Ok(Value::Integer(*i)),
        Typed::Float(bits) => Ok(Value::Float(*bits)),
        Typed::Char(c) => Ok(Value::String(string_of_char(*c))),
        Typed::Text(s) => Ok(Value::String(s.clone())),
        Typed::Bytes(b) => Ok(Value::Blob(copy_bytes(b))),
        Typed::Absent => Ok(Value::Null),
        Typed::Present(x) => encode(x),
        Typed::Unit => {
            let r = Ok(Value::Array(Vec::new()));
            proof {
                assert(value_model_list(Seq::<Value>::empty()) =~= Seq::<ValueModel>::empty());
            }
            r
        },
        Typed::Sequence(ts) => {
            proof {
                lemma_typed_model_list(ts@);
                assert(typed_model_list(ts@).subrange(0, ts@.len() as int) =~= typed_model_list(
                    ts@,
                ));
            }
            match encode_list_from(ts, 0) {
                Ok(vs) => Ok(Value::Array(vs)),
                Err(e) => Err(e),
            }
        },
        Typed::Mapping(ps) => {
            proof {
                lemma_typed_model_pairs(ps@);
                assert(typed_model_pairs(ps@).subrange(0, ps@.len() as int) =~= typed_model_pairs(
                    ps@,
                ));
                assert(value_model_entries(Seq::<(String, Value)>::empty()) =~= Seq::<
                    (Seq<char>, ValueModel),
                >::empty());
            }
            match encode_pairs_from(ps, 0, Vec::new()) {
                Ok(es) => Ok(Value::Object(es)),
                Err(e) => Err(e),
            }
        },
        Typed::Fields(fs) => {
            proof {
                lemma_typed_model_fields(fs@);
                assert(typed_model_fields(fs@).subrange(0, fs@.len() as int) =~= typed_model_fields(
                    fs@,
                ));
                assert(value_model_entries(Seq::<(String, Value)>::empty()) =~= Seq::<
                    (Seq<char>, ValueModel),
                >::empty());
            }
            match encode_fields_from(fs, 0, Vec::new()) {
                Ok(es) => Ok(Value::Object(es)),
                Err(e) => Err(e),
            }
        },
        Typed::UnitVariant(tag) => Ok(Value::String(tag.clone())),
        Typed::NewtypeVariant(tag, x) => match encode(x) {
            Ok(v) => {
                let mut entries: Vec<(String, Value)> = Vec::new();
                entries.push((tag.clone(), v));
                let r = Ok(Value::Object(entries));
                proof {
                    lemma_value_model_entries(entries@);
                    assert(value_model_entries(entries@) =~= seq![
                        (tag@, value_model(entries@[0].1)),
                    ]);
                }
                r
            },
            Err(e) => Err(e),
        },
        Typed::TupleVariant(tag, ts) => {
            proof {
                lemma_typed_model_list(ts@);
                assert(typed_model_list(ts@).subrange(0, ts@.len() as int) =~= typed_model_list(
                    ts@,
                ));
            }
            match encode_list_from(ts, 0) {
                Ok(vs) => {
                    let mut entries: Vec<(String, Value)> = Vec::new();
                    entries.push((tag.clone(), Value::Array(vs)));
                    let r = Ok(Value::Object(entries));
                    proof {
                        lemma_value_model_entries(entries@);
                        assert(value_model_entries(entries@) =~= seq![
                            (tag@, value_model(entries@[0].1)),
                        ]);
                    }
                    r
                },
                Err(e) => Err(e),
            }
        },
        Typed::FieldsVariant(tag, fs) => {
            proof {
                lemma_typed_model_fields(fs@);
                assert(typed_model_fields(fs@).subrange(0, fs@.len() as int) =~= typed_model_fields(
                    fs@,
                ));
                assert(value_model_entries(Seq::<(String, Value)>::empty()) =~= Seq::<
                    (Seq<char>, ValueModel),
                >::empty());
            }
            match encode_fields_from(fs, 0, Vec::new()) {
                Ok(es) => {
                    let mut entries: Vec<(String, Value)> = Vec::new();
                    entries.push((tag.clone(), Value::Object(es)));
                    let r = Ok(Value::Object(entries));
                    proof {
                        lemma_value_model_entries(entries@);
                        assert(value_model_entries(entries@) =~= seq![
                            (tag@, value_model(entries@[0].1)),
                        ]);
                    }
                    r
                },
                Err(e) => Err(e),
            }
        },
    }
}

fn encode_list_from(ts: &Vec<Typed>, i: usize) -> (r: Result<Vec<Value>, Error>)
    requires
        i <= ts@.len(),
    ensures
        match r {
            Ok(vs) => enc_list(typed_model_list(ts@).subrange(i as int, ts@.len() as int)) == Ok::<
                _,
                ErrorModel,
            >(value_model_list(vs@)),
            Err(e) => enc_list(typed_model_list(ts@).subrange(i as int, ts@.len() as int))
                == Err::<Seq<ValueModel>, _>(e@),
        },
    decreases ts, 1nat, ts@.len() - i,
{
    proof {
        lemma_typed_model_list(ts@);
    }
    let ghost models = typed_model_list(ts@);
    let ghost sub = models.subrange(i as int, ts@.len() as int);
    if i == ts.len() {
        let r: Result<Vec<Value>, Error> = Ok(Vec::new());
        proof {
            assert(sub.len() == 0);
            assert(value_model_list(Seq::<Value>::empty()) =~= Seq::<ValueModel>::empty());
        }
        return r;
    }
    proof {
        assert(sub[0] == models[i as int]);
        assert(models[i as int] == typed_model(ts@[i as int]));
        assert(sub.drop_first() =~= models.subrange(i + 1, ts@.len() as int));
    }
    match encode(&ts[i]) {
        Err(e) => Err(e),
        Ok(v) => match encode_list_from(ts, i + 1) {
            Err(e) => Err(e),
            Ok(rest) => {
                let mut out: Vec<Value> = Vec::new();
                out.push(v);
                let mut rest = rest;
                let ghost rest_view = rest@;
                out.append(&mut rest);
                proof {
                    assert(out@ =~= seq![out@[0]] + rest_view);
                    lemma_value_model_list(out@);
                    lemma_value_model_list(rest_view);
                    assert(value_model_list(out@) =~= seq![value_model(out@[0])]
                        + value_model_list(rest_view));
                }
                Ok(out)
            },
        },
    }
}

fn encode_pairs_from(ps: &Vec<(Typed, Typed)>, i: usize, acc: Vec<(String, Value)>) -> (r: Result<
    Vec<(String, Value)>,
    Error,
>)
    requires
        i <= ps@.len(),
    ensures
        match r {
            Ok(es) => enc_pairs(
                typed_model_pairs(ps@).subrange(i as int, ps@.len() as int),
                value_model_entries(acc@),
            ) == Ok::<_, ErrorModel>(value_model_entries(es@)),
            Err(e) => enc_pairs(
                typed_model_pairs(ps@).subrange(i as int, ps@.len() as int),
                value_model_entries(acc@),
            ) == Err::<Seq<(Seq<char>, ValueModel)>, _>(e@),
        },
    decreases ps, 1nat, ps@.len() - i,
{
    proof {
        lemma_typed_model_pairs(ps@);
    }
    let ghost models = typed_model_pairs(ps@);
    let ghost sub = models.subrange(i as int, ps@.len() as int);
    if i == ps.len() {
        return Ok(acc);
    }
    proof {
        assert(sub[0] == models[i as int]);
        assert(models[i as int] == (typed_model(ps@[i as int].0), typed_model(ps@[i as int].1)));
        assert(sub.drop_first() =~= models.subrange(i + 1, ps@.len() as int));
    }
    match encode(&ps[i].0) {
        Err(e) => Err(e),
        Ok(kv) => match kv {
            Value::String(k) => match encode(&ps[i].1) {
                Err(e) => Err(e),
                Ok(v) => {
                    let mut acc = acc;
                    obj_upsert(&mut acc, k, v);
                    encode_pairs_from(ps, i + 1, acc)
                },
            },
            other => Err(
                Error::Expected(
                    String::from_str("type str"),
                    other.error_description().to_owned(),
                ),
            ),
        },
    }
}

fn encode_fields_from(fs: &Vec<(String, Typed)>, i: usize, acc: Vec<(String, Value)>) -> (r: Result<
    Vec<(String, Value)>,
    Error,
>)
    requires
        i <= fs@.len(),
    ensures
        match r {
            Ok(es) => enc_fields(
                typed_model_fields(fs@).subrange(i as int, fs@.len() as int),
                value_model_entries(acc@),
            ) == Ok::<_, ErrorModel>(value_model_entries(es@)),
            Err(e) => enc_fields(
                typed_model_fields(fs@).subrange(i as int, fs@.len() as int),
                value_model_entries(acc@),
            ) == Err::<Seq<(Seq<char>, ValueModel)>, _>(e@),
        },
    decreases fs, 1nat, fs@.len() - i,
{
    proof {
        lemma_typed_model_fields(fs@);
    }
    let ghost models = typed_model_fields(fs@);
    let ghost sub = models.subrange(i as int, fs@.len() as int);
    if i == fs.len() {
        return Ok(acc);
    }
    proof {
        assert(sub[0] == models[i as int]);
        assert(models[i as int] == (fs@[i as int].0@, typed_model(fs@[i as int].1)));
        assert(sub.drop_first() =~= models.subrange(i + 1, fs@.len() as int));
    }
    match encode(&fs[i].1) {
        Err(e) => Err(e),
        Ok(v) => {
            let mut acc = acc;
            let key = fs[i].0.clone();
            obj_upsert(&mut acc, key, v);
            encode_fields_from(fs, i + 1, acc)
        },
    }
}


/// Builds an array value from elements encoded one by one.
pub struct SeqSerializer {
    inner: Vec<Value>,
}

impl View for SeqSerializer {
    type V = Seq<ValueModel>;

    closed spec fn view(&self) -> Seq<ValueModel> {
        value_model_list(self.inner@)
    }
}

impl SeqSerializer {
    pub fn new() -> (r: SeqSerializer)
        ensures
            r@ == Seq::<ValueModel>::empty(),
    {
        let r = SeqSerializer { inner: Vec::new() };
        proof {
            assert(value_model_list(Seq::<Value>::empty()) =~= Seq::<ValueModel>::empty());
        }
        r
    }

    /// Appends one already-encoded element.
    pub fn serialize_element(&mut self, value: Value)
        ensures
            final(self)@ == old(self)@.push(value@),
    {
        proof {
            lemma_value_model_list(self.inner@);
        }
        let ghost before = self.inner@;
        self.inner.push(value);
        proof {
            lemma_value_model_list(self.inner@);
            lemma_value_model_list(before);
            assert(value_model_list(self.inner@) =~= value_model_list(before).push(
                value_model(value),
            ));
        }
    }

    /// Finishes the array.
    pub fn end(self) -> (r: Value)
        ensures
            r@ == ValueModel::Array(self@),
    {
        Value::Array(self.inner)
    }
}

/// Builds a tagged-union case with positional payloads: an object with
/// one entry, the tag naming an array of the fields.
pub struct SeqVariantSerializer {
    variant: String,
    inner: Vec<Value>,
}

impl View for SeqVariantSerializer {
    type V = (Seq<char>, Seq<ValueModel>);

    closed spec fn view(&self) -> (Seq<char>, Seq<ValueModel>) {
        (self.variant@, value_model_list(self.inner@))
    }
}

impl SeqVariantSerializer {
    pub fn new(variant: String) -> (r: SeqVariantSerializer)
        ensures
            r@ == (variant@, Seq::<ValueModel>::empty()),
    {
        let r = SeqVariantSerializer { variant, inner: Vec::new() };
        proof {
            assert(value_model_list(Seq::<Value>::empty()) =~= Seq::<ValueModel>::empty());
        }
        r
    }

    /// Appends one already-encoded positional field.
    pub fn serialize_field(&mut self, value: Value)
        ensures
            final(self)@ == (old(self)@.0, old(self)@.1.push(value@)),
    {
        proof {
            lemma_value_model_list(self.inner@);
        }
        let ghost before = self.inner@;
        self.inner.push(value);
        proof {
            lemma_value_model_list(self.inner@);
            lemma_value_model_list(before);
            assert(value_model_list(self.inner@) =~= value_model_list(before).push(
                value_model(value),
            ));
        }
    }

    /// Finishes the single-entry object.
    pub fn end(self) -> (r: Value)
        ensures
            r@ == ValueModel::Object(seq![(self@.0, ValueModel::Array(self@.1))]),
    {
        let ghost me = self@;
        let mut entries: Vec<(String, Value)> = Vec::new();
        entries.push((self.variant, Value::Array(self.inner)));
        let r = Value::Object(entries);
        proof {
            lemma_value_model_entries(entries@);
            assert(value_model_entries(entries@) =~= seq![(me.0, ValueModel::Array(me.1))]);
        }
        r
    }
}

/// Builds an object from alternating key and value calls. A key that is
/// not a string value is rejected; a repeated key keeps its first
/// position and takes the later value.
pub struct MapSerializer {
    inner: Vec<(String, Value)>,
    next_key: Option<String>,
}

impl View for MapSerializer {
    type V = (Seq<(Seq<char>, ValueModel)>, Option<Seq<char>>);

    closed spec fn view(&self) -> (Seq<(Seq<char>, ValueModel)>, Option<Seq<char>>) {
        (
            value_model_entries(self.inner@),
            match self.next_key {
                Some(k) => Some(k@),
                None => None,
            },
        )
    }
}

impl MapSerializer {
    pub fn new() -> (r: MapSerializer)
        ensures
            r@ == (Seq::<(Seq<char>, ValueModel)>::empty(), Option::<Seq<char>>::None),
    {
        let r = MapSerializer { inner: Vec::new(), next_key: None };
        proof {
            assert(value_model_entries(Seq::<(String, Value)>::empty()) =~= Seq::<
                (Seq<char>, ValueModel),
            >::empty());
        }
        r
    }

    /// Takes the next entry's key, which must be a string value.
    pub fn serialize_key(&mut self, key: Value) -> (r: Result<(), Error>)
        ensures
            match r {
                Ok(_) => key@ matches ValueModel::String(k) && final(self)@ == (
                    old(self)@.0,
                    Some(k),
                ),
                Err(e) => !(key@ is String) && e@ == ErrorModel::Expected(
                    "type str"@,
                    type_label(key@),
                ) && final(self)@ == old(self)@,
            },
    {
        match key {
            Value::String(k) => {
                self.next_key = Some(k);
                Ok(())
            },
            other => Err(
                Error::Expected(
                    String::from_str("type str"),
                    other.error_description().to_owned(),
                ),
            ),
        }
    }

    /// Takes the next entry's value and inserts the pair; without a
    /// pending key, the empty string is used as the key.
    pub fn serialize_value(&mut self, value: Value)
        ensures
            final(self)@.1 is None,
            final(self)@.0 == obj_insert(
                old(self)@.0,
                match old(self)@.1 {
                    Some(k) => k,
                    None => Seq::<char>::empty(),
                },
                value@,
            ),
    {
        let key = match self.next_key.take() {
            Some(k) => k,
            None => String::new(),
        };
        obj_upsert(&mut self.inner, key, value);
    }

    /// Finishes the object.
    pub fn end(self) -> (r: Value)
        ensures
            r@ == ValueModel::Object(self@.0),
    {
        Value::Object(self.inner)
    }
}

/// Builds an object keyed by field name.
pub struct StructSerializer {
    inner: Vec<(String, Value)>,
}

impl View for StructSerializer {
    type V = Seq<(Seq<char>, ValueModel)>;

    closed spec fn view(&self) -> Seq<(Seq<char>, ValueModel)> {
        value_model_entries(self.inner@)
    }
}

impl StructSerializer {
    pub fn new() -> (r: StructSerializer)
        ensures
            r@ == Seq::<(Seq<char>, ValueModel)>::empty(),
    {
        let r = StructSerializer { inner: Vec::new() };
        proof {
            assert(value_model_entries(Seq::<(String, Value)>::empty()) =~= Seq::<
                (Seq<char>, ValueModel),
            >::empty());
        }
        r
    }

    /// Inserts one named field.
    pub fn serialize_field(&mut self, key: &str, value: Value)
        ensures
            final(self)@ == obj_insert(old(self)@, key@, value@),
    {
        obj_upsert(&mut self.inner, key.to_owned(), value);
    }

    /// Finishes the object.
    pub fn end(self) -> (r: Value)
        ensures
            r@ == ValueModel::Object(self@),
    {
        Value::Object(self.inner)
    }
}

/// Builds a tagged-union case with named payloads: an object with one
/// entry, the tag naming an object of the fields.
pub struct StructVariantSerializer {
    variant: String,
    inner: Vec<(String, Value)>,
}

impl View for StructVariantSerializer {
    type V = (Seq<char>, Seq<(Seq<char>, ValueModel)>);

    closed spec fn view(&self) -> (Seq<char>, Seq<(Seq<char>, ValueModel)>) {
        (self.variant@, value_model_entries(self.inner@))
    }
}

impl StructVariantSerializer {
    pub fn new(variant: String) -> (r: StructVariantSerializer)
        ensures
            r@ == (variant@, Seq::<(Seq<char>, ValueModel)>::empty()),
    {
        let r = StructVariantSerializer { variant, inner: Vec::new() };
        proof {
            assert(value_model_entries(Seq::<(String, Value)>::empty()) =~= Seq::<
                (Seq<char>, ValueModel),
            >::empty());
        }
        r
    }

    /// Inserts one named field.
    pub fn serialize_field(&mut self, key: &str, value: Value)
        ensures
            final(self)@ == (old(self)@.0, obj_insert(old(self)@.1, key@, value@)),
    {
        obj_upsert(&mut self.inner, key.to_owned(), value);
    }

    /// Finishes the single-entry object.
    pub fn end(self) -> (r: Value)
        ensures
            r@ == ValueModel::Object(seq![(self@.0, ValueModel::Object(self@.1))]),
    {
        let ghost me = self@;
        let mut entries: Vec<(String, Value)> = Vec::new();
        entries.push((self.variant, Value::Object(self.inner)));
        let r = Value::Object(entries);
        proof {
            lemma_value_model_entries(entries@);
            assert(value_model_entries(entries@) =~= seq![(me.0, ValueModel::Object(me.1))]);
        }
        r
    }
}


/// The encoder. It holds no state: each call walks one typed value.
pub struct Serializer;

impl Serializer {
    /// Constructs a new [`Serializer`] with default configuration.
    pub fn new() -> (r: Serializer) {
        Serializer
    }

    /// Encodes a typed value, per [`enc`].
    pub fn serialize(&self, t: &Typed) -> (r: Result<Value, Error>)
        ensures
            enc_result_model(r) == enc(t@),
    {
        encode(t)
    }


    /// Encodes a boolean.
    pub fn serialize_bool(&self, v: bool) -> (r: Result<Value, Error>)
        ensures
            r matches Ok(val) && val@ == ValueModel::Boolean(v),
    {
        Ok(Value::Boolean(v))
    }

    /// Encodes a signed 64-bit integer; every narrower width widens to it.
    pub fn serialize_i64(&self, v: i64) -> (r: Result<Value, Error>)
        ensures
            r matches Ok(val) && val@ == ValueModel::Integer(v),
    {
        Ok(Value::Integer(v))
    }

    /// Encodes an unsigned 64-bit integer, reinterpreted as a signed bit
    /// pattern.
    pub fn serialize_u64(&self, v: u64) -> (r: Result<Value, Error>)
        ensures
            r matches Ok(val) && val@ == ValueModel::Integer(crate::value::as_signed(v)),
    {
        if v <= i64::MAX as u64 {
            Ok(Value::Integer(v as i64))
        } else {
            Ok(Value::Integer(-((u64::MAX - v) as i64) - 1))
        }
    }

    /// Encodes a 64-bit float, given as its raw bit pattern.
    pub fn serialize_f64(&self, bits: u64) -> (r: Result<Value, Error>)
        ensures
            r matches Ok(val) && val@ == ValueModel::Float(bits),
    {
        Ok(Value::Float(bits))
    }

    /// Encodes one character as a one-character string.
    pub fn serialize_char(&self, v: char) -> (r: Result<Value, Error>)
        ensures
            r matches Ok(val) && val@ == ValueModel::String(seq![v]),
    {
        Ok(Value::String(string_of_char(v)))
    }

    /// Encodes text.
    pub fn serialize_str(&self, v: &str) -> (r: Result<Value, Error>)
        ensures
            r matches Ok(val) && val@ == ValueModel::String(v@),
    {
        Ok(Value::String(v.to_owned()))
    }

    /// Encodes a byte sequence.
    pub fn serialize_bytes(&self, v: &Vec<u8>) -> (r: Result<Value, Error>)
        ensures
            r matches Ok(val) && val@ == ValueModel::Blob(v@),
    {
        Ok(Value::Blob(copy_bytes(v)))
    }

    /// Encodes an absent optional.
    pub fn serialize_none(&self) -> (r: Result<Value, Error>)
        ensures
            r matches Ok(val) && val@ == ValueModel::Null,
    {
        Ok(Value::Null)
    }

    /// Encodes the unit value, or a zero-field marker type.
    pub fn serialize_unit(&self) -> (r: Result<Value, Error>)
        ensures
            r matches Ok(val) && val@ == ValueModel::Array(Seq::<ValueModel>::empty()),
    {
        let r = Ok(Value::Array(Vec::new()));
        proof {
            assert(value_model_list(Seq::<Value>::empty()) =~= Seq::<ValueModel>::empty());
        }
        r
    }

    /// Encodes a tagged-union case without payload: a bare string
    /// holding the tag.
    pub fn serialize_unit_variant(&self, variant: &str) -> (r: Result<Value, Error>)
        ensures
            r matches Ok(val) && val@ == ValueModel::String(variant@),
    {
        Ok(Value::String(variant.to_owned()))
    }

    /// Starts an ordered sequence, tuple or tuple struct.
    pub fn serialize_seq(&self) -> (r: SeqSerializer)
        ensures
            r@ == Seq::<ValueModel>::empty(),
    {
        SeqSerializer::new()
    }

    /// Starts a tagged-union case with positional payloads.
    pub fn serialize_tuple_variant(&self, variant: &str) -> (r: SeqVariantSerializer)
        ensures
            r@ == (variant@, Seq::<ValueModel>::empty()),
    {
        SeqVariantSerializer::new(variant.to_owned())
    }

    /// Starts a mapping.
    pub fn serialize_map(&self) -> (r: MapSerializer)
        ensures
            r@ == (Seq::<(Seq<char>, ValueModel)>::empty(), Option::<Seq<char>>::None),
    {
        MapSerializer::new()
    }

    /// Starts a named-field composite.
    pub fn serialize_struct(&self) -> (r: StructSerializer)
        ensures
            r@ == Seq::<(Seq<char>, ValueModel)>::empty(),
    {
        StructSerializer::new()
    }

    /// Starts a tagged-union case with named payloads.
    pub fn serialize_struct_variant(&self, variant: &str) -> (r: StructVariantSerializer)
        ensures
            r@ == (variant@, Seq::<(Seq<char>, ValueModel)>::empty()),
    {
        StructVariantSerializer::new(variant.to_owned())
    }

    /// This encoder produces a machine-oriented representation.
    pub fn is_human_readable(&self) -> (r: bool)
        ensures
            !r,
    {
        false
    }
}

impl Default for Serializer {
    fn default() -> (r: Serializer) {
        Serializer
    }
}

} // verus!
