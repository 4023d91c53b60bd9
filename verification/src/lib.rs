//! A dynamic, self-describing value tree with a structural encoder and
//! decoder for typed data, and a compact binary form of the tree itself.
//!
//! A [`typed::Typed`] value describes the shape of any typed datum;
//! [`to_value`] turns it into a [`value::Value`] tree and [`from_value`]
//! turns a tree back into a typed value against a [`typed::Shape`]
//! target. [`to_vec`] and [`from_slice`] do the same through the compact
//! byte form of the tree.

pub mod codec;
pub mod de;
pub mod error;
pub mod laws;
pub mod ser;
pub mod typed;
pub mod value;

use crate::codec::{bytes_of, dec_bytes, decode_value_bytes, encode_value_bytes, DEPTH_LIMIT};
use crate::de::{dec, dec_result_model, decode};
use crate::error::{BincodeError, BincodeErrorModel, Error, ErrorModel};
use crate::ser::{enc, enc_result_model, encode};
use crate::typed::{Shape, Typed, TypedModel};
use crate::value::{Value, ValueModel};
use vstd::prelude::*;

verus! {

/// Converts a typed value into a dynamic value tree, per
/// [`crate::ser::enc`]: the mapping is total, except that a mapping key
/// whose encoding is not a string is an `Expected` error.
pub fn to_value(val: &Typed) -> (r: Result<Value, Error>)
    ensures
        enc_result_model(r) == enc(val@),
{
    encode(val)
}

/// Interprets a dynamic value tree as a typed value shaped like `target`,
/// per [`crate::de::dec`].
pub fn from_value(target: &Shape, val: Value) -> (r: Result<Typed, Error>)
    ensures
        dec_result_model(r) == dec(target@, val@),
{
    decode(target, val)
}

/// Encodes a typed value as a byte vector: the value tree of
/// [`to_value`], in the byte form of [`crate::codec::bytes_of`].
pub fn to_vec(val: &Typed) -> (r: Result<Vec<u8>, Error>)
    ensures
        match r {
            Ok(bytes) => enc(val@) matches Ok(v) && bytes@ == bytes_of(v),
            Err(e) => enc(val@) == Err::<ValueModel, _>(e@),
        },
{
    match encode(val) {
        Err(e) => Err(e),
        Ok(v) => {
            let mut out: Vec<u8> = Vec::new();
            encode_value_bytes(&mut out, &v);
            Ok(out)
        },
    }
}

/// Decodes a typed value shaped like `target` from bytes: one value tree
/// is read from the front of `val`, per [`crate::codec::dec_bytes`] with
/// the nesting budget [`DEPTH_LIMIT`]; trailing bytes are ignored. A
/// byte-level failure is wrapped as a `Bincode` error, untouched.
pub fn from_slice(target: &Shape, val: &[u8]) -> (r: Result<Typed, Error>)
    ensures
        match dec_bytes(val@, 0, DEPTH_LIMIT) {
            Ok((v, _)) => dec_result_model(r) == dec(target@, v),
            Err(m) => r matches Err(e) && e@ == ErrorModel::Bincode(BincodeErrorModel::Decode(m)),
        },
{
    match decode_value_bytes(val, 0, DEPTH_LIMIT) {
        Ok((v, _)) => decode(target, v),
        Err(m) => Err(Error::Bincode(BincodeError::Decode(m))),
    }
}

} // verus!
