//! Concrete descriptions of typed values and of decode targets.
//!
//! A [`Typed`] value is the shape a typed datum reports about itself to
//! the encoder: primitives, optionals, sequences, mappings, named-field
//! composites and tagged-union cases. A [`Shape`] is what a decode target
//! asks for. Both are plain trees, so the whole walk is verified.

use vstd::prelude::*;

verus! {

/// Mathematical model of a [`Typed`] value.
pub enum TypedModel {
    Bool(bool),
    Integer(i64),
    Float(u64),
    Char(char),
    Text(Seq<char>),
    Bytes(Seq<u8>),
    Absent,
    Present(Box<TypedModel>),
    Unit,
    Sequence(Seq<TypedModel>),
    Mapping(Seq<(TypedModel, TypedModel)>),
    Fields(Seq<(Seq<char>, TypedModel)>),
    UnitVariant(Seq<char>),
    NewtypeVariant(Seq<char>, Box<TypedModel>),
    TupleVariant(Seq<char>, Seq<TypedModel>),
    FieldsVariant(Seq<char>, Seq<(Seq<char>, TypedModel)>),
}

/// A typed value, described structurally. All integer widths collapse to
/// a signed 64-bit value; a float is carried as its 64-bit bit pattern.
#[derive(Debug)]
pub enum Typed {
    Bool(bool),
    Integer(i64),
    Float(u64),
    Char(char),
    Text(String),
    Bytes(Vec<u8>),
    /// An optional with nothing in it.
    Absent,
    /// An optional holding a value.
    Present(Box<Typed>),
    /// The unit value, or a zero-field marker type.
    Unit,
    /// An ordered sequence, a tuple, or a tuple struct.
    Sequence(Vec<Typed>),
    /// A mapping; every key must encode to a string.
    Mapping(Vec<(Typed, Typed)>),
    /// A named-field composite.
    Fields(Vec<(String, Typed)>),
    /// A tagged-union case without payload.
    UnitVariant(String),
    /// A tagged-union case with one unnamed payload.
    NewtypeVariant(String, Box<Typed>),
    /// A tagged-union case with positional payloads.
    TupleVariant(String, Vec<Typed>),
    /// A tagged-union case with named payloads.
    FieldsVariant(String, Vec<(String, Typed)>),
}

pub open spec fn typed_model(t: Typed) -> TypedModel
    decreases t,
{
    match t {
        Typed::Bool(b) => TypedModel::Bool(b),
        Typed::Integer(i) => TypedModel::Integer(i),
        Typed::Float(bits) => TypedModel::Float(bits),
        Typed::Char(c) => TypedModel::Char(c),
        Typed::Text(s) => TypedModel::Text(s@),
        Typed::Bytes(b) => TypedModel::Bytes(b@),
        Typed::Absent => TypedModel::Absent,
        Typed::Present(x) => TypedModel::Present(Box::new(typed_model(*x))),
        Typed::Unit => TypedModel::Unit,
        Typed::Sequence(ts) => TypedModel::Sequence(typed_model_list(ts@)),
        Typed::Mapping(ps) => TypedModel::Mapping(typed_model_pairs(ps@)),
        Typed::Fields(fs) => TypedModel::Fields(typed_model_fields(fs@)),
        Typed::UnitVariant(tag) => TypedModel::UnitVariant(tag@),
        Typed::NewtypeVariant(tag, x) => TypedModel::NewtypeVariant(
            tag@,
            Box::new(typed_model(*x)),
        ),
        Typed::TupleVariant(tag, ts) => TypedModel::TupleVariant(tag@, typed_model_list(ts@)),
        Typed::FieldsVariant(tag, fs) => TypedModel::FieldsVariant(tag@, typed_model_fields(fs@)),
    }
}

pub open spec fn typed_model_list(s: Seq<Typed>) -> Seq<TypedModel>
    decreases s,
{
    if s.len() == 0 {
        Seq::empty()
    } else {
        seq![typed_model(s[0])] + typed_model_list(s.drop_first())
    }
}

pub open spec fn typed_model_pairs(s: Seq<(Typed, Typed)>) -> Seq<(TypedModel, TypedModel)>
    decreases s,
{
    if s.len() == 0 {
        Seq::empty()
    } else {
        seq![(typed_model(s[0].0), typed_model(s[0].1))] + typed_model_pairs(s.drop_first())
    }
}

pub open spec fn typed_model_fields(s: Seq<(String, Typed)>) -> Seq<(Seq<char>, TypedModel)>
    decreases s,
{
    if s.len() == 0 {
        Seq::empty()
    } else {
        seq![(s[0].0@, typed_model(s[0].1))] + typed_model_fields(s.drop_first())
    }
}

impl View for Typed {
    type V = TypedModel;

    open spec fn view(&self) -> TypedModel {
        typed_model(*self)
    }
}

pub proof fn lemma_typed_model_list(s: Seq<Typed>)
    ensures
        typed_model_list(s).len() == s.len(),
        forall|i: int|
            #![trigger typed_model_list(s)[i]]
            #![trigger s[i]]
            0 <= i < s.len() ==> typed_model_list(s)[i] == typed_model(s[i]),
    decreases s,
{
    if s.len() > 0 {
        lemma_typed_model_list(s.drop_first());
        assert forall|i: int| 0 <= i < s.len() implies typed_model_list(s)[i] == typed_model(
            #[trigger] s[i],
        ) by {
            if i > 0 {
                assert(s.drop_first()[i - 1] == s[i]);
            }
        }
    }
}

pub proof fn lemma_typed_model_pairs(s: Seq<(Typed, Typed)>)
    ensures
        typed_model_pairs(s).len() == s.len(),
        forall|i: int|
            #![trigger typed_model_pairs(s)[i]]
            #![trigger s[i]]
            0 <= i < s.len() ==> typed_model_pairs(s)[i] == (
                typed_model(s[i].0),
                typed_model(s[i].1),
            ),
    decreases s,
{
    if s.len() > 0 {
        lemma_typed_model_pairs(s.drop_first());
        assert forall|i: int| 0 <= i < s.len() implies typed_model_pairs(s)[i] == (
        typed_model((#[trigger] s[i]).0),
        typed_model(s[i].1),
        ) by {
            if i > 0 {
                assert(s.drop_first()[i - 1] == s[i]);
            }
        }
    }
}

pub proof fn lemma_typed_model_fields(s: Seq<(String, Typed)>)
    ensures
        typed_model_fields(s).len() == s.len(),
        forall|i: int|
            #![trigger typed_model_fields(s)[i]]
            #![trigger s[i]]
            0 <= i < s.len() ==> typed_model_fields(s)[i] == (s[i].0@, typed_model(s[i].1)),
    decreases s,
{
    if s.len() > 0 {
        lemma_typed_model_fields(s.drop_first());
        assert forall|i: int| 0 <= i < s.len() implies typed_model_fields(s)[i] == (
        (#[trigger] s[i]).0@,
        typed_model(s[i].1),
        ) by {
            if i > 0 {
                assert(s.drop_first()[i - 1] == s[i]);
            }
        }
    }
}

/// Mathematical model of one tagged-union case of a [`Shape`].
pub enum CaseModel {
    Unit,
    Newtype(Box<ShapeModel>),
    Tuple(Seq<ShapeModel>),
    Fields(Seq<(Seq<char>, ShapeModel)>),
}

/// Mathematical model of a [`Shape`].
pub enum ShapeModel {
    Any,
    Bool,
    Integer,
    Float,
    Char,
    Text,
    Bytes,
    Optional(Box<ShapeModel>),
    Unit,
    Sequence(Box<ShapeModel>),
    Tuple(Seq<ShapeModel>),
    Mapping(Box<ShapeModel>, Box<ShapeModel>),
    Fields(Seq<(Seq<char>, ShapeModel)>),
    Union(Seq<(Seq<char>, CaseModel)>),
}

/// One tagged-union case of a decode target: how its payload is shaped.
#[derive(Debug)]
pub enum Case {
    Unit,
    Newtype(Box<Shape>),
    Tuple(Vec<Shape>),
    Fields(Vec<(String, Shape)>),
}

/// A decode target: what shape the consumer asks the decoder to build.
/// `Any` asks the value to describe what it actually is.
#[derive(Debug)]
pub enum Shape {
    Any,
    Bool,
    Integer,
    Float,
    Char,
    Text,
    Bytes,
    Optional(Box<Shape>),
    Unit,
    Sequence(Box<Shape>),
    Tuple(Vec<Shape>),
    Mapping(Box<Shape>, Box<Shape>),
    Fields(Vec<(String, Shape)>),
    Union(Vec<(String, Case)>),
}

pub open spec fn shape_model(s: Shape) -> ShapeModel
    decreases s,
{
    match s {
        Shape::Any => ShapeModel::Any,
        Shape::Bool => ShapeModel::Bool,
        Shape::Integer => ShapeModel::Integer,
        Shape::Float => ShapeModel::Float,
        Shape::Char => ShapeModel::Char,
        Shape::Text => ShapeModel::Text,
        Shape::Bytes => ShapeModel::Bytes,
        Shape::Optional(inner) => ShapeModel::Optional(Box::new(shape_model(*inner))),
        Shape::Unit => ShapeModel::Unit,
        Shape::Sequence(inner) => ShapeModel::Sequence(Box::new(shape_model(*inner))),
        Shape::Tuple(ss) => ShapeModel::Tuple(shape_model_list(ss@)),
        Shape::Mapping(k, v) => ShapeModel::Mapping(
            Box::new(shape_model(*k)),
            Box::new(shape_model(*v)),
        ),
        Shape::Fields(fs) => ShapeModel::Fields(shape_model_fields(fs@)),
        Shape::Union(cs) => ShapeModel::Union(case_model_list(cs@)),
    }
}

pub open spec fn shape_model_list(s: Seq<Shape>) -> Seq<ShapeModel>
    decreases s,
{
    if s.len() == 0 {
        Seq::empty()
    } else {
        seq![shape_model(s[0])] + shape_model_list(s.drop_first())
    }
}

pub open spec fn shape_model_fields(s: Seq<(String, Shape)>) -> Seq<(Seq<char>, ShapeModel)>
    decreases s,
{
    if s.len() == 0 {
        Seq::empty()
    } else {
        seq![(s[0].0@, shape_model(s[0].1))] + shape_model_fields(s.drop_first())
    }
}

pub open spec fn case_model(c: Case) -> CaseModel
    decreases c,
{
    match c {
        Case::Unit => CaseModel::Unit,
        Case::Newtype(inner) => CaseModel::Newtype(Box::new(shape_model(*inner))),
        Case::Tuple(ss) => CaseModel::Tuple(shape_model_list(ss@)),
        Case::Fields(fs) => CaseModel::Fields(shape_model_fields(fs@)),
    }
}

pub open spec fn case_model_list(s: Seq<(String, Case)>) -> Seq<(Seq<char>, CaseModel)>
    decreases s,
{
    if s.len() == 0 {
        Seq::empty()
    } else {
        seq![(s[0].0@, case_model(s[0].1))] + case_model_list(s.drop_first())
    }
}

impl View for Shape {
    type V = ShapeModel;

    open spec fn view(&self) -> ShapeModel {
        shape_model(*self)
    }
}

impl View for Case {
    type V = CaseModel;

    open spec fn view(&self) -> CaseModel {
        case_model(*self)
    }
}

pub proof fn lemma_shape_model_list(s: Seq<Shape>)
    ensures
        shape_model_list(s).len() == s.len(),
        forall|i: int|
            #![trigger shape_model_list(s)[i]]
            #![trigger s[i]]
            0 <= i < s.len() ==> shape_model_list(s)[i] == shape_model(s[i]),
    decreases s,
{
    if s.len() > 0 {
        lemma_shape_model_list(s.drop_first());
        assert forall|i: int| 0 <= i < s.len() implies shape_model_list(s)[i] == shape_model(
            #[trigger] s[i],
        ) by {
            if i > 0 {
                assert(s.drop_first()[i - 1] == s[i]);
            }
        }
    }
}

pub proof fn lemma_shape_model_fields(s: Seq<(String, Shape)>)
    ensures
        shape_model_fields(s).len() == s.len(),
        forall|i: int|
            #![trigger shape_model_fields(s)[i]]
            #![trigger s[i]]
            0 <= i < s.len() ==> shape_model_fields(s)[i] == (s[i].0@, shape_model(s[i].1)),
    decreases s,
{
    if s.len() > 0 {
        lemma_shape_model_fields(s.drop_first());
        assert forall|i: int| 0 <= i < s.len() implies shape_model_fields(s)[i] == (
        (#[trigger] s[i]).0@,
        shape_model(s[i].1),
        ) by {
            if i > 0 {
                assert(s.drop_first()[i - 1] == s[i]);
            }
        }
    }
}

pub proof fn lemma_case_model_list(s: Seq<(String, Case)>)
    ensures
        case_model_list(s).len() == s.len(),
        forall|i: int|
            #![trigger case_model_list(s)[i]]
            #![trigger s[i]]
            0 <= i < s.len() ==> case_model_list(s)[i] == (s[i].0@, case_model(s[i].1)),
    decreases s,
{
    if s.len() > 0 {
        lemma_case_model_list(s.drop_first());
        assert forall|i: int| 0 <= i < s.len() implies case_model_list(s)[i] == (
        (#[trigger] s[i]).0@,
        case_model(s[i].1),
        ) by {
            if i > 0 {
                assert(s.drop_first()[i - 1] == s[i]);
            }
        }
    }
}

/// Structural equality of two typed values: true exactly when the models
/// agree.
pub fn typed_eq(a: &Typed, b: &Typed) -> (r: bool)
    ensures
        r == (a@ == b@),
    decreases a,
{
    match (a, b) {
        (Typed::Bool(x), Typed::Bool(y)) => x == y,
        (Typed::Integer(x), Typed::Integer(y)) => x == y,
        (Typed::Float(x), Typed::Float(y)) => x == y,
        (Typed::Char(x), Typed::Char(y)) => x == y,
        (Typed::Text(x), Typed::Text(y)) => *x == *y,
        (Typed::Bytes(x), Typed::Bytes(y)) => {
            let r = crate::value::byte_vec_eq(x, y);
            proof {
                if x@ == y@ {
                    assert(a@ == b@);
                }
            }
            r
        },
        (Typed::Absent, Typed::Absent) => true,
        (Typed::Present(x), Typed::Present(y)) => typed_eq(x, y),
        (Typed::Unit, Typed::Unit) => true,
        (Typed::Sequence(x), Typed::Sequence(y)) => typed_list_eq(x, y),
        (Typed::Mapping(x), Typed::Mapping(y)) => typed_pairs_eq(x, y),
        (Typed::Fields(x), Typed::Fields(y)) => typed_fields_eq(x, y),
        (Typed::UnitVariant(x), Typed::UnitVariant(y)) => *x == *y,
        (Typed::NewtypeVariant(xt, x), Typed::NewtypeVariant(yt, y)) => *xt == *yt && typed_eq(
            x,
            y,
        ),
        (Typed::TupleVariant(xt, x), Typed::TupleVariant(yt, y)) => *xt == *yt && typed_list_eq(
            x,
            y,
        ),
        (Typed::FieldsVariant(xt, x), Typed::FieldsVariant(yt, y)) => *xt == *yt
            && typed_fields_eq(x, y),
        _ => false,
    }
}

fn typed_list_eq(x: &Vec<Typed>, y: &Vec<Typed>) -> (r: bool)
    ensures
        r == (typed_model_list(x@) == typed_model_list(y@)),
    decreases x,
{
    proof {
        lemma_typed_model_list(x@);
        lemma_typed_model_list(y@);
    }
    if x.len() != y.len() {
        return false;
    }
    let mut i: usize = 0;
    while i < x.len()
        invariant
            0 <= i <= x.len(),
            x@.len() == y@.len(),
            forall|j: int| 0 <= j < i ==> typed_model(x@[j]) == typed_model(y@[j]),
        decreases x@.len() - i,
    {
        if !typed_eq(&x[i], &y[i]) {
            proof {
                lemma_typed_model_list(x@);
                lemma_typed_model_list(y@);
                assert(typed_model_list(x@)[i as int] != typed_model_list(y@)[i as int]);
            }
            return false;
        }
        i += 1;
    }
    proof {
        lemma_typed_model_list(x@);
        lemma_typed_model_list(y@);
        assert(typed_model_list(x@) =~= typed_model_list(y@));
    }
    true
}

fn typed_pairs_eq(x: &Vec<(Typed, Typed)>, y: &Vec<(Typed, Typed)>) -> (r: bool)
    ensures
        r == (typed_model_pairs(x@) == typed_model_pairs(y@)),
    decreases x,
{
    proof {
        lemma_typed_model_pairs(x@);
        lemma_typed_model_pairs(y@);
    }
    if x.len() != y.len() {
        return false;
    }
    let mut i: usize = 0;
    while i < x.len()
        invariant
            0 <= i <= x.len(),
            x@.len() == y@.len(),
            forall|j: int|
                0 <= j < i ==> typed_model(x@[j].0) == typed_model(y@[j].0) && typed_model(x@[j].1)
                    == typed_model(y@[j].1),
        decreases x@.len() - i,
    {
        if !typed_eq(&x[i].0, &y[i].0) || !typed_eq(&x[i].1, &y[i].1) {
            proof {
                lemma_typed_model_pairs(x@);
                lemma_typed_model_pairs(y@);
                assert(typed_model_pairs(x@)[i as int] != typed_model_pairs(y@)[i as int]);
            }
            return false;
        }
        i += 1;
    }
    proof {
        lemma_typed_model_pairs(x@);
        lemma_typed_model_pairs(y@);
        assert(typed_model_pairs(x@) =~= typed_model_pairs(y@));
    }
    true
}

fn typed_fields_eq(x: &Vec<(String, Typed)>, y: &Vec<(String, Typed)>) -> (r: bool)
    ensures
        r == (typed_model_fields(x@) == typed_model_fields(y@)),
    decreases x,
{
    proof {
        lemma_typed_model_fields(x@);
        lemma_typed_model_fields(y@);
    }
    if x.len() != y.len() {
        return false;
    }
    let mut i: usize = 0;
    while i < x.len()
        invariant
            0 <= i <= x.len(),
            x@.len() == y@.len(),
            forall|j: int|
                0 <= j < i ==> x@[j].0@ == y@[j].0@ && typed_model(x@[j].1) == typed_model(y@[j].1),
        decreases x@.len() - i,
    {
        let keys_agree = x[i].0 == y[i].0;
        if !keys_agree || !typed_eq(&x[i].1, &y[i].1) {
            proof {
                lemma_typed_model_fields(x@);
                lemma_typed_model_fields(y@);
                assert(typed_model_fields(x@)[i as int] != typed_model_fields(y@)[i as int]);
            }
            return false;
        }
        i += 1;
    }
    proof {
        lemma_typed_model_fields(x@);
        lemma_typed_model_fields(y@);
        assert(typed_model_fields(x@) =~= typed_model_fields(y@));
    }
    true
}

impl PartialEq for Typed {
    fn eq(&self, other: &Typed) -> (r: bool) {
        typed_eq(self, other)
    }
}

impl vstd::std_specs::cmp::PartialEqSpecImpl for Typed {
    open spec fn obeys_eq_spec() -> bool {
        true
    }

    open spec fn eq_spec(&self, other: &Typed) -> bool {
        self@ == other@
    }
}

} // verus!
