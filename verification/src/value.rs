//! The dynamic value tree and its mathematical model.

use vstd::prelude::*;

verus! {

/// Mathematical model of a [`Value`] tree: the same shape over `Seq` and
/// plain scalars, used by every contract in this crate.
pub enum ValueModel {
    Null,
    Boolean(bool),
    Blob(Seq<u8>),
    Array(Seq<ValueModel>),
    Integer(i64),
    Float(u64),
    Object(Seq<(Seq<char>, ValueModel)>),
    String(Seq<char>),
}

/// A dynamic value. A `Float` carries the raw bit pattern of a 64-bit
/// IEEE number, so that the tree itself stays free of float arithmetic.
/// `Object` keeps its entries in insertion order, with unique keys.
#[derive(Debug)]
pub enum Value {
    Null,
    Boolean(bool),
    Blob(Vec<u8>),
    Array(Vec<Value>),
    Integer(i64),
    Float(u64),
    Object(Vec<(String, Value)>),
    String(String),
}

pub open spec fn value_model(v: Value) -> ValueModel
    decreases v,
{
    match v {
        Value::Null => ValueModel::Null,
        Value::Boolean(b) => ValueModel::Boolean(b),
        Value::Blob(b) => ValueModel::Blob(b@),
        Value::Array(a) => ValueModel::Array(value_model_list(a@)),
        Value::Integer(i) => ValueModel::Integer(i),
        Value::Float(bits) => ValueModel::Float(bits),
        Value::Object(entries) => ValueModel::Object(value_model_entries(entries@)),
        Value::String(s) => ValueModel::String(s@),
    }
}

pub open spec fn value_model_list(s: Seq<Value>) -> Seq<ValueModel>
    decreases s,
{
    if s.len() == 0 {
        Seq::empty()
    } else {
        seq![value_model(s[0])] + value_model_list(s.drop_first())
    }
}

pub open spec fn value_model_entries(s: Seq<(String, Value)>) -> Seq<(Seq<char>, ValueModel)>
    decreases s,
{
    if s.len() == 0 {
        Seq::empty()
    } else {
        seq![(s[0].0@, value_model(s[0].1))] + value_model_entries(s.drop_first())
    }
}

impl View for Value {
    type V = ValueModel;

    open spec fn view(&self) -> ValueModel {
        value_model(*self)
    }
}

/// The model of a list of values is the list of their models, element by
/// element.
pub proof fn lemma_value_model_list(s: Seq<Value>)
    ensures
        value_model_list(s).len() == s.len(),
        forall|i: int|
            #![trigger value_model_list(s)[i]]
            #![trigger s[i]]
            0 <= i < s.len() ==> value_model_list(s)[i] == value_model(s[i]),
    decreases s,
{
    if s.len() > 0 {
        lemma_value_model_list(s.drop_first());
        assert forall|i: int| 0 <= i < s.len() implies value_model_list(s)[i] == value_model(
            #[trigger] s[i],
        ) by {
            if i > 0 {
                assert(s.drop_first()[i - 1] == s[i]);
            }
        }
    }
}

/// The model of an entry list is the list of (key view, value model) pairs.
pub proof fn lemma_value_model_entries(s: Seq<(String, Value)>)
    ensures
        value_model_entries(s).len() == s.len(),
        forall|i: int|
            #![trigger value_model_entries(s)[i]]
            #![trigger s[i]]
            0 <= i < s.len() ==> value_model_entries(s)[i] == (s[i].0@, value_model(s[i].1)),
    decreases s,
{
    if s.len() > 0 {
        lemma_value_model_entries(s.drop_first());
        assert forall|i: int| 0 <= i < s.len() implies value_model_entries(s)[i] == (
        (#[trigger] s[i]).0@,
        value_model(s[i].1),
        ) by {
            if i > 0 {
                assert(s.drop_first()[i - 1] == s[i]);
            }
        }
    }
}

/// The fixed human-readable label of each value kind, used in error
/// messages and nowhere else.
pub open spec fn type_label(m: ValueModel) -> Seq<char> {
    match m {
        ValueModel::Null => "type null"@,
        ValueModel::Blob(_) => "type blob"@,
        ValueModel::Boolean(_) => "type boolean"@,
        ValueModel::Integer(_) => "type integer"@,
        ValueModel::Float(_) => "type float"@,
        ValueModel::Object(_) => "type object"@,
        ValueModel::String(_) => "type string"@,
        ValueModel::Array(_) => "type array"@,
    }
}

/// Inserting into an object: an existing key keeps its position and takes
/// the new value; a new key is appended at the end.
pub open spec fn obj_insert(
    es: Seq<(Seq<char>, ValueModel)>,
    k: Seq<char>,
    v: ValueModel,
) -> Seq<(Seq<char>, ValueModel)>
    decreases es,
{
    if es.len() == 0 {
        seq![(k, v)]
    } else if es[0].0 == k {
        seq![(k, v)] + es.drop_first()
    } else {
        seq![es[0]] + obj_insert(es.drop_first(), k, v)
    }
}

/// Nesting depth of a value: zero for leaves, one more than the deepest
/// child for arrays and objects.
pub open spec fn vm_depth(m: ValueModel) -> nat
    decreases m,
{
    match m {
        ValueModel::Array(vs) => 1 + vm_depth_list(vs),
        ValueModel::Object(es) => 1 + vm_depth_entries(es),
        _ => 0,
    }
}

pub open spec fn vm_depth_list(vs: Seq<ValueModel>) -> nat
    decreases vs,
{
    if vs.len() == 0 {
        0
    } else if vm_depth(vs[0]) >= vm_depth_list(vs.drop_first()) {
        vm_depth(vs[0])
    } else {
        vm_depth_list(vs.drop_first())
    }
}

pub open spec fn vm_depth_entries(es: Seq<(Seq<char>, ValueModel)>) -> nat
    decreases es,
{
    if es.len() == 0 {
        0
    } else if vm_depth(es[0].1) >= vm_depth_entries(es.drop_first()) {
        vm_depth(es[0].1)
    } else {
        vm_depth_entries(es.drop_first())
    }
}

impl Value {
    /// The label of this value's kind, for error messages.
    pub fn error_description(&self) -> (r: &'static str)
        ensures
            r@ == type_label(self@),
    {
        match self {
            Value::Null => "type null",
            Value::Blob(_) => "type blob",
            Value::Boolean(_) => "type boolean",
            Value::Integer(_) => "type integer",
            Value::Float(_) => "type float",
            Value::Object(_) => "type object",
            Value::String(_) => "type string",
            Value::Array(_) => "type array",
        }
    }

    /// Returns `true` exactly when this value is `Null`.
    pub fn is_null(&self) -> (r: bool)
        ensures
            r == (self@ is Null),
    {
        matches!(self, Value::Null)
    }

    pub fn is_str(&self) -> (r: bool)
        ensures
            r == (self@ is String),
    {
        matches!(self, Value::String(_))
    }

    pub fn as_str(&self) -> (r: Option<&str>)
        ensures
            match r {
                Some(s) => self@ matches ValueModel::String(m) && s@ == m,
                None => !(self@ is String),
            },
    {
        match self {
            Value::String(s) => Some(s.as_str()),
            _ => None,
        }
    }

    pub fn is_integer(&self) -> (r: bool)
        ensures
            r == (self@ is Integer),
    {
        matches!(self, Value::Integer(_))
    }

    pub fn as_integer(&self) -> (r: Option<&i64>)
        ensures
            match r {
                Some(i) => self@ matches ValueModel::Integer(m) && *i == m,
                None => !(self@ is Integer),
            },
    {
        match self {
            Value::Integer(i) => Some(i),
            _ => None,
        }
    }

    /// A float is carried as its raw 64-bit IEEE bit pattern.
    pub fn is_float(&self) -> (r: bool)
        ensures
            r == (self@ is Float),
    {
        matches!(self, Value::Float(_))
    }

    pub fn as_float(&self) -> (r: Option<&u64>)
        ensures
            match r {
                Some(bits) => self@ matches ValueModel::Float(m) && *bits == m,
                None => !(self@ is Float),
            },
    {
        match self {
            Value::Float(bits) => Some(bits),
            _ => None,
        }
    }

    pub fn is_blob(&self) -> (r: bool)
        ensures
            r == (self@ is Blob),
    {
        matches!(self, Value::Blob(_))
    }

    pub fn as_blob(&self) -> (r: Option<&[u8]>)
        ensures
            match r {
                Some(b) => self@ matches ValueModel::Blob(m) && b@ == m,
                None => !(self@ is Blob),
            },
    {
        match self {
            Value::Blob(b) => Some(b.as_slice()),
            _ => None,
        }
    }

    pub fn is_bool(&self) -> (r: bool)
        ensures
            r == (self@ is Boolean),
    {
        matches!(self, Value::Boolean(_))
    }

    pub fn as_bool(&self) -> (r: Option<&bool>)
        ensures
            match r {
                Some(b) => self@ matches ValueModel::Boolean(m) && *b == m,
                None => !(self@ is Boolean),
            },
    {
        match self {
            Value::Boolean(b) => Some(b),
            _ => None,
        }
    }
}

/// The value that an unsigned 64-bit word stands for when its bits are
/// read as a signed 64-bit word.
pub open spec fn as_signed(u: u64) -> i64 {
    if u <= i64::MAX as u64 {
        u as i64
    } else {
        ((u as int) - 0x1_0000_0000_0000_0000) as i64
    }
}

impl From<i8> for Value {
    fn from(i: i8) -> (r: Value) {
        Value::Integer(i as i64)
    }
}

impl vstd::std_specs::convert::FromSpecImpl<i8> for Value {
    open spec fn obeys_from_spec() -> bool {
        true
    }

    open spec fn from_spec(i: i8) -> Value {
        Value::Integer(i as i64)
    }
}

impl From<u8> for Value {
    fn from(i: u8) -> (r: Value) {
        Value::Integer(i as i64)
    }
}

impl vstd::std_specs::convert::FromSpecImpl<u8> for Value {
    open spec fn obeys_from_spec() -> bool {
        true
    }

    open spec fn from_spec(i: u8) -> Value {
        Value::Integer(i as i64)
    }
}

impl From<i16> for Value {
    fn from(i: i16) -> (r: Value) {
        Value::Integer(i as i64)
    }
}

impl vstd::std_specs::convert::FromSpecImpl<i16> for Value {
    open spec fn obeys_from_spec() -> bool {
        true
    }

    open spec fn from_spec(i: i16) -> Value {
        Value::Integer(i as i64)
    }
}

impl From<u16> for Value {
    fn from(i: u16) -> (r: Value) {
        Value::Integer(i as i64)
    }
}

impl vstd::std_specs::convert::FromSpecImpl<u16> for Value {
    open spec fn obeys_from_spec() -> bool {
        true
    }

    open spec fn from_spec(i: u16) -> Value {
        Value::Integer(i as i64)
    }
}

impl From<i32> for Value {
    fn from(i: i32) -> (r: Value) {
        Value::Integer(i as i64)
    }
}

impl vstd::std_specs::convert::FromSpecImpl<i32> for Value {
    open spec fn obeys_from_spec() -> bool {
        true
    }

    open spec fn from_spec(i: i32) -> Value {
        Value::Integer(i as i64)
    }
}

impl From<u32> for Value {
    fn from(i: u32) -> (r: Value) {
        Value::Integer(i as i64)
    }
}

impl vstd::std_specs::convert::FromSpecImpl<u32> for Value {
    open spec fn obeys_from_spec() -> bool {
        true
    }

    open spec fn from_spec(i: u32) -> Value {
        Value::Integer(i as i64)
    }
}

impl From<i64> for Value {
    fn from(i: i64) -> (r: Value) {
        Value::Integer(i)
    }
}

impl vstd::std_specs::convert::FromSpecImpl<i64> for Value {
    open spec fn obeys_from_spec() -> bool {
        true
    }

    open spec fn from_spec(i: i64) -> Value {
        Value::Integer(i)
    }
}

impl From<u64> for Value {
    /// An unsigned 64-bit integer is reinterpreted as a signed bit pattern.
    fn from(i: u64) -> (r: Value) {
        if i <= i64::MAX as u64 {
            Value::Integer(i as i64)
        } else {
            Value::Integer(-((u64::MAX - i) as i64) - 1)
        }
    }
}

impl vstd::std_specs::convert::FromSpecImpl<u64> for Value {
    open spec fn obeys_from_spec() -> bool {
        true
    }

    open spec fn from_spec(i: u64) -> Value {
        Value::Integer(as_signed(i))
    }
}

impl<'a> From<&'a str> for Value {
    fn from(s: &'a str) -> (r: Value)
        ensures
            r@ == ValueModel::String(s@),
    {
        Value::String(s.to_owned())
    }
}

impl<'a> vstd::std_specs::convert::FromSpecImpl<&'a str> for Value {
    open spec fn obeys_from_spec() -> bool {
        false
    }

    open spec fn from_spec(s: &'a str) -> Value {
        Value::Null
    }
}

/// Structural equality of two values: true exactly when the models agree.
pub fn value_eq(a: &Value, b: &Value) -> (r: bool)
    ensures
        r == (a@ == b@),
    decreases a,
{
    match (a, b) {
        (Value::Null, Value::Null) => true,
        (Value::Boolean(x), Value::Boolean(y)) => x == y,
        (Value::Blob(x), Value::Blob(y)) => {
            let r = byte_vec_eq(x, y);
            proof {
                if x@ == y@ {
                    assert(a@ == b@);
                }
            }
            r
        },
        (Value::Array(x), Value::Array(y)) => value_list_eq(x, y),
        (Value::Integer(x), Value::Integer(y)) => x == y,
        (Value::Float(x), Value::Float(y)) => x == y,
        (Value::Object(x), Value::Object(y)) => value_entries_eq(x, y),
        (Value::String(x), Value::String(y)) => *x == *y,
        _ => false,
    }
}

pub(crate) fn byte_vec_eq(x: &Vec<u8>, y: &Vec<u8>) -> (r: bool)
    ensures
        r == (x@ == y@),
{
    if x.len() != y.len() {
        return false;
    }
    let mut i: usize = 0;
    while i < x.len()
        invariant
            0 <= i <= x.len(),
            x@.len() == y@.len(),
            forall|j: int| 0 <= j < i ==> x@[j] == y@[j],
        decreases x@.len() - i,
    {
        if x[i] != y[i] {
            return false;
        }
        i += 1;
    }
    proof {
        assert(x@ =~= y@);
    }
    true
}

fn value_list_eq(x: &Vec<Value>, y: &Vec<Value>) -> (r: bool)
    ensures
        r == (value_model_list(x@) == value_model_list(y@)),
    decreases x,
{
    proof {
        lemma_value_model_list(x@);
        lemma_value_model_list(y@);
    }
    if x.len() != y.len() {
        return false;
    }
    let mut i: usize = 0;
    while i < x.len()
        invariant
            0 <= i <= x.len(),
            x@.len() == y@.len(),
            forall|j: int| 0 <= j < i ==> value_model(x@[j]) == value_model(y@[j]),
        decreases x@.len() - i,
    {
        if !value_eq(&x[i], &y[i]) {
            proof {
                lemma_value_model_list(x@);
                lemma_value_model_list(y@);
                assert(value_model_list(x@)[i as int] != value_model_list(y@)[i as int]);
            }
            return false;
        }
        i += 1;
    }
    proof {
        lemma_value_model_list(x@);
        lemma_value_model_list(y@);
        assert(value_model_list(x@) =~= value_model_list(y@));
    }
    true
}

fn value_entries_eq(x: &Vec<(String, Value)>, y: &Vec<(String, Value)>) -> (r: bool)
    ensures
        r == (value_model_entries(x@) == value_model_entries(y@)),
    decreases x,
{
    proof {
        lemma_value_model_entries(x@);
        lemma_value_model_entries(y@);
    }
    if x.len() != y.len() {
        return false;
    }
    let mut i: usize = 0;
    while i < x.len()
        invariant
            0 <= i <= x.len(),
            x@.len() == y@.len(),
            forall|j: int|
                0 <= j < i ==> x@[j].0@ == y@[j].0@ && value_model(x@[j].1) == value_model(y@[j].1),
        decreases x@.len() - i,
    {
        let keys_agree = x[i].0 == y[i].0;
        if !keys_agree || !value_eq(&x[i].1, &y[i].1) {
            proof {
                lemma_value_model_entries(x@);
                lemma_value_model_entries(y@);
                assert(value_model_entries(x@)[i as int] != value_model_entries(y@)[i as int]);
            }
            return false;
        }
        i += 1;
    }
    proof {
        lemma_value_model_entries(x@);
        lemma_value_model_entries(y@);
        assert(value_model_entries(x@) =~= value_model_entries(y@));
    }
    true
}

impl PartialEq for Value {
    fn eq(&self, other: &Value) -> (r: bool) {
        value_eq(self, other)
    }
}

impl vstd::std_specs::cmp::PartialEqSpecImpl for Value {
    open spec fn obeys_eq_spec() -> bool {
        true
    }

    open spec fn eq_spec(&self, other: &Value) -> bool {
        self@ == other@
    }
}

} // verus!
