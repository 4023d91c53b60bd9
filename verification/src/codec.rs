//! The compact binary form of a value tree: a one-byte kind tag, variable
//! length integers, length-prefixed UTF-8 text and raw bytes, and 64-bit
//! little-endian words for float bit patterns.
//!
//! Small unsigned numbers are a single byte; larger ones carry a marker
//! byte (251, 252 or 253) followed by the little-endian 16-, 32- or
//! 64-bit word. Signed numbers are mapped to unsigned ones by the usual
//! zig-zag correspondence. Decoding is guarded by a nesting-depth limit
//! so adversarial input cannot exhaust the call stack.

use crate::value::{
    lemma_value_model_entries, lemma_value_model_list, Value, ValueModel, value_model,
    value_model_entries, value_model_list,
};
use vstd::bytes::{
    spec_u16_from_le_bytes, spec_u16_to_le_bytes, spec_u32_from_le_bytes, spec_u32_to_le_bytes,
    spec_u64_from_le_bytes, spec_u64_to_le_bytes, u16_from_le_bytes, u16_to_le_bytes,
    u32_from_le_bytes, u32_to_le_bytes, u64_from_le_bytes, u64_to_le_bytes,
};
use vstd::prelude::*;
use vstd::slice::{slice_subrange, slice_to_vec};
use vstd::utf8::{decode_utf8, encode_utf8, valid_utf8};

verus! {

/// The deepest nesting the byte decoder will follow before failing
/// closed.
pub const DEPTH_LIMIT: u64 = 128;

/// The zig-zag image of a signed number: non-negatives go to evens,
/// negatives to odds.
pub open spec fn zigzag(i: i64) -> u64 {
    if i >= 0 {
        (2 * (i as int)) as u64
    } else {
        (2 * (-(i as int)) - 1) as u64
    }
}

/// The signed number a zig-zag image stands for.
pub open spec fn unzigzag(u: u64) -> i64 {
    if u % 2 == 0 {
        (u / 2) as i64
    } else {
        (-1 - ((u as int - 1) / 2)) as i64
    }
}

/// The variable-length encoding of an unsigned 64-bit number.
pub open spec fn varint(u: u64) -> Seq<u8> {
    if u <= 250 {
        seq![u as u8]
    } else if u <= 0xFFFF {
        seq![251u8] + spec_u16_to_le_bytes(u as u16)
    } else if u <= 0xFFFF_FFFF {
        seq![252u8] + spec_u32_to_le_bytes(u as u32)
    } else {
        seq![253u8] + spec_u64_to_le_bytes(u)
    }
}

/// The encoding of a piece of text: its UTF-8 byte length, then the
/// bytes.
pub open spec fn str_bytes(t: Seq<char>) -> Seq<u8> {
    varint(encode_utf8(t).len() as u64) + encode_utf8(t)
}

/// The full byte encoding of a value tree.
pub open spec fn bytes_of(v: ValueModel) -> Seq<u8>
    decreases v,
{
    match v {
        ValueModel::Null => seq![0u8],
        ValueModel::Boolean(b) => seq![
            1u8,
            if b {
                1u8
            } else {
                0u8
            },
        ],
        ValueModel::Blob(bs) => seq![2u8] + varint(bs.len() as u64) + bs,
        ValueModel::Array(vs) => seq![3u8] + varint(vs.len() as u64) + bytes_of_list(vs),
        ValueModel::Integer(i) => seq![4u8] + varint(zigzag(i)),
        ValueModel::Float(bits) => seq![5u8] + spec_u64_to_le_bytes(bits),
        ValueModel::Object(es) => seq![6u8] + varint(es.len() as u64) + bytes_of_entries(es),
        ValueModel::String(t) => seq![7u8] + str_bytes(t),
    }
}

pub open spec fn bytes_of_list(vs: Seq<ValueModel>) -> Seq<u8>
    decreases vs,
{
    if vs.len() == 0 {
        Seq::empty()
    } else {
        bytes_of(vs[0]) + bytes_of_list(vs.drop_first())
    }
}

pub open spec fn bytes_of_entries(es: Seq<(Seq<char>, ValueModel)>) -> Seq<u8>
    decreases es,
{
    if es.len() == 0 {
        Seq::empty()
    } else {
        str_bytes(es[0].0) + bytes_of(es[0].1) + bytes_of_entries(es.drop_first())
    }
}

/// Reads one variable-length unsigned number: the value and the position
/// after it, or the reason the bytes cannot be read.
pub open spec fn dec_varint(bs: Seq<u8>, pos: int) -> Result<(u64, int), Seq<char>> {
    if pos < 0 || pos >= bs.len() {
        Err("unexpected end of input"@)
    } else if bs[pos] <= 250 {
        Ok((bs[pos] as u64, pos + 1))
    } else if bs[pos] == 251 {
        if pos + 3 <= bs.len() {
            Ok((spec_u16_from_le_bytes(bs.subrange(pos + 1, pos + 3)) as u64, pos + 3))
        } else {
            Err("unexpected end of input"@)
        }
    } else if bs[pos] == 252 {
        if pos + 5 <= bs.len() {
            Ok((spec_u32_from_le_bytes(bs.subrange(pos + 1, pos + 5)) as u64, pos + 5))
        } else {
            Err("unexpected end of input"@)
        }
    } else if bs[pos] == 253 {
        if pos + 9 <= bs.len() {
            Ok((spec_u64_from_le_bytes(bs.subrange(pos + 1, pos + 9)), pos + 9))
        } else {
            Err("unexpected end of input"@)
        }
    } else {
        Err("invalid integer marker"@)
    }
}

/// Reads one length-prefixed UTF-8 string.
pub open spec fn dec_str(bs: Seq<u8>, pos: int) -> Result<(Seq<char>, int), Seq<char>> {
    match dec_varint(bs, pos) {
        Err(m) => Err(m),
        Ok((n, p)) => if p + n <= bs.len() {
            if valid_utf8(bs.subrange(p, p + n)) {
                Ok((decode_utf8(bs.subrange(p, p + n)), p + n))
            } else {
                Err("invalid utf-8"@)
            }
        } else {
            Err("unexpected end of input"@)
        },
    }
}

/// Reads one value tree: the value and the position after it, or the
/// reason the bytes cannot be read. `depth` is the nesting budget left.
pub open spec fn dec_bytes(bs: Seq<u8>, pos: int, depth: u64) -> Result<(ValueModel, int), Seq<char>>
    decreases depth, 0nat, 0nat,
{
    match dec_varint(bs, pos) {
        Err(m) => Err(m),
        Ok((tag, p)) => if tag == 0 {
            Ok((ValueModel::Null, p))
        } else if tag == 1 {
            if p < bs.len() {
                if bs[p] == 0 {
                    Ok((ValueModel::Boolean(false), p + 1))
                } else if bs[p] == 1 {
                    Ok((ValueModel::Boolean(true), p + 1))
                } else {
                    Err("invalid boolean byte"@)
                }
            } else {
                Err("unexpected end of input"@)
            }
        } else if tag == 2 {
            match dec_varint(bs, p) {
                Err(m) => Err(m),
                Ok((n, p2)) => if p2 + n <= bs.len() {
                    Ok((ValueModel::Blob(bs.subrange(p2, p2 + n)), p2 + n))
                } else {
                    Err("unexpected end of input"@)
                },
            }
        } else if tag == 3 {
            match dec_varint(bs, p) {
                Err(m) => Err(m),
                Ok((n, p2)) => if depth == 0 {
                    Err("nesting too deep"@)
                } else {
                    match dec_bytes_list(bs, p2, n, (depth - 1) as u64) {
                        Err(m) => Err(m),
                        Ok((vs, p3)) => Ok((ValueModel::Array(vs), p3)),
                    }
                },
            }
        } else if tag == 4 {
            match dec_varint(bs, p) {
                Err(m) => Err(m),
                Ok((u, p2)) => Ok((ValueModel::Integer(unzigzag(u)), p2)),
            }
        } else if tag == 5 {
            if p + 8 <= bs.len() {
                Ok((ValueModel::Float(spec_u64_from_le_bytes(bs.subrange(p, p + 8))), p + 8))
            } else {
                Err("unexpected end of input"@)
            }
        } else if tag == 6 {
            match dec_varint(bs, p) {
                Err(m) => Err(m),
                Ok((n, p2)) => if depth == 0 {
                    Err("nesting too deep"@)
                } else {
                    match dec_bytes_entries(bs, p2, n, (depth - 1) as u64) {
                        Err(m) => Err(m),
                        Ok((es, p3)) => Ok((ValueModel::Object(es), p3)),
                    }
                },
            }
        } else if tag == 7 {
            match dec_str(bs, p) {
                Err(m) => Err(m),
                Ok((t, p2)) => Ok((ValueModel::String(t), p2)),
            }
        } else {
            Err("invalid value tag"@)
        },
    }
}

/// Reads `n` consecutive value trees.
pub open spec fn dec_bytes_list(bs: Seq<u8>, pos: int, n: u64, depth: u64) -> Result<
    (Seq<ValueModel>, int),
    Seq<char>,
>
    decreases depth, 1nat, n,
{
    if n == 0 {
        Ok((Seq::empty(), pos))
    } else {
        match dec_bytes(bs, pos, depth) {
            Err(m) => Err(m),
            Ok((v, p)) => match dec_bytes_list(bs, p, (n - 1) as u64, depth) {
                Err(m) => Err(m),
                Ok((vs, p2)) => Ok((seq![v] + vs, p2)),
            },
        }
    }
}

/// Reads `n` consecutive key/value entries.
pub open spec fn dec_bytes_entries(bs: Seq<u8>, pos: int, n: u64, depth: u64) -> Result<
    (Seq<(Seq<char>, ValueModel)>, int),
    Seq<char>,
>
    decreases depth, 1nat, n,
{
    if n == 0 {
        Ok((Seq::empty(), pos))
    } else {
        match dec_str(bs, pos) {
            Err(m) => Err(m),
            Ok((k, p)) => match dec_bytes(bs, p, depth) {
                Err(m) => Err(m),
                Ok((v, p2)) => match dec_bytes_entries(bs, p2, (n - 1) as u64, depth) {
                    Err(m) => Err(m),
                    Ok((es, p3)) => Ok((seq![(k, v)] + es, p3)),
                },
            },
        }
    }
}

/// Appends the bytes of `b` to `out`.
fn append_bytes(out: &mut Vec<u8>, b: &Vec<u8>)
    ensures
        final(out)@ == old(out)@ + b@,
{
    let mut i: usize = 0;
    while i < b.len()
        invariant
            0 <= i <= b@.len(),
            out@ =~= old(out)@ + b@.subrange(0, i as int),
        decreases b@.len() - i,
    {
        out.push(b[i]);
        i += 1;
    }
    proof {
        assert(out@ =~= old(out)@ + b@);
    }
}

/// The zig-zag image of a signed number.
fn zigzag_exec(i: i64) -> (r: u64)
    ensures
        r == zigzag(i),
{
    if i >= 0 {
        (i as u64) * 2
    } else {
        ((-(i + 1)) as u64) * 2 + 1
    }
}

/// The signed number a zig-zag image stands for.
fn unzigzag_exec(u: u64) -> (r: i64)
    ensures
        r == unzigzag(u),
{
    if u % 2 == 0 {
        (u / 2) as i64
    } else {
        -1 - ((u - 1) / 2) as i64
    }
}

/// Appends the variable-length encoding of `u` to `out`.
fn encode_varint(out: &mut Vec<u8>, u: u64)
    ensures
        final(out)@ == old(out)@ + varint(u),
{
    if u <= 250 {
        out.push(u as u8);
        proof {
            assert(out@ =~= old(out)@ + varint(u));
        }
    } else if u <= 0xFFFF {
        out.push(251);
        let w = u16_to_le_bytes(u as u16);
        append_bytes(out, &w);
        proof {
            assert(out@ =~= old(out)@ + varint(u));
        }
    } else if u <= 0xFFFF_FFFF {
        out.push(252);
        let w = u32_to_le_bytes(u as u32);
        append_bytes(out, &w);
        proof {
            assert(out@ =~= old(out)@ + varint(u));
        }
    } else {
        out.push(253);
        let w = u64_to_le_bytes(u);
        append_bytes(out, &w);
        proof {
            assert(out@ =~= old(out)@ + varint(u));
        }
    }
}

/// Appends the length-prefixed UTF-8 bytes of `t` to `out`.
fn encode_str_bytes(out: &mut Vec<u8>, t: &String)
    ensures
        final(out)@ == old(out)@ + str_bytes(t@),
{
    let bv = t.as_str().as_bytes_vec();
    encode_varint(out, bv.len() as u64);
    append_bytes(out, &bv);
    proof {
        assert(out@ =~= old(out)@ + str_bytes(t@));
    }
}

/// Appends the byte encoding of `v` to `out`, per [`bytes_of`].
pub(crate) fn encode_value_bytes(out: &mut Vec<u8>, v: &Value)
    ensures
        final(out)@ == old(out)@ + bytes_of(v@),
    decreases v, 0nat, 0nat,
{
    match v {
        Value::Null => {
            out.push(0);
            proof {
                assert(out@ =~= old(out)@ + bytes_of(v@));
            }
        },
        Value::Boolean(b) => {
            out.push(1);
            out.push(if *b {
                1
            } else {
                0
            });
            proof {
                assert(out@ =~= old(out)@ + bytes_of(v@));
            }
        },
        Value::Blob(bs) => {
            out.push(2);
            encode_varint(out, bs.len() as u64);
            append_bytes(out, bs);
            proof {
                assert(out@ =~= old(out)@ + bytes_of(v@));
            }
        },
        Value::Array(vs) => {
            out.push(3);
            encode_varint(out, vs.len() as u64);
            proof {
                lemma_value_model_list(vs@);
                assert(value_model_list(vs@).subrange(0, vs@.len() as int) =~= value_model_list(
                    vs@,
                ));
            }
            encode_list_bytes(out, vs, 0);
            proof {
                assert(out@ =~= old(out)@ + bytes_of(v@));
            }
        },
        Value::Integer(i) => {
            out.push(4);
            let z = zigzag_exec(*i);
            encode_varint(out, z);
            proof {
                assert(out@ =~= old(out)@ + bytes_of(v@));
            }
        },
        Value::Float(bits) => {
            out.push(5);
            let w = u64_to_le_bytes(*bits);
            append_bytes(out, &w);
            proof {
                assert(out@ =~= old(out)@ + bytes_of(v@));
            }
        },
        Value::Object(es) => {
            out.push(6);
            encode_varint(out, es.len() as u64);
            proof {
                lemma_value_model_entries(es@);
                assert(value_model_entries(es@).subrange(0, es@.len() as int)
                    =~= value_model_entries(es@));
            }
            encode_entries_bytes(out, es, 0);
            proof {
                assert(out@ =~= old(out)@ + bytes_of(v@));
            }
        },
        Value::String(t) => {
            out.push(7);
            encode_str_bytes(out, t);
            proof {
                assert(out@ =~= old(out)@ + bytes_of(v@));
            }
        },
    }
}

fn encode_list_bytes(out: &mut Vec<u8>, vs: &Vec<Value>, i: usize)
    requires
        i <= vs@.len(),
    ensures
        final(out)@ == old(out)@ + bytes_of_list(
            value_model_list(vs@).subrange(i as int, vs@.len() as int),
        ),
    decreases vs, 1nat, vs@.len() - i,
{
    proof {
        lemma_value_model_list(vs@);
    }
    let ghost models = value_model_list(vs@);
    let ghost sub = models.subrange(i as int, vs@.len() as int);
    if i == vs.len() {
        proof {
            assert(out@ =~= old(out)@ + bytes_of_list(sub));
        }
        return ;
    }
    proof {
        assert(sub[0] == models[i as int]);
        assert(sub.drop_first() =~= models.subrange(i + 1, vs@.len() as int));
    }
    encode_value_bytes(out, &vs[i]);
    encode_list_bytes(out, vs, i + 1);
    proof {
        assert(out@ =~= old(out)@ + bytes_of_list(sub));
    }
}

fn encode_entries_bytes(out: &mut Vec<u8>, es: &Vec<(String, Value)>, i: usize)
    requires
        i <= es@.len(),
    ensures
        final(out)@ == old(out)@ + bytes_of_entries(
            value_model_entries(es@).subrange(i as int, es@.len() as int),
        ),
    decreases es, 1nat, es@.len() - i,
{
    proof {
        lemma_value_model_entries(es@);
    }
    let ghost models = value_model_entries(es@);
    let ghost sub = models.subrange(i as int, es@.len() as int);
    if i == es.len() {
        proof {
            assert(out@ =~= old(out)@ + bytes_of_entries(sub));
        }
        return ;
    }
    proof {
        assert(sub[0] == models[i as int]);
        assert(sub.drop_first() =~= models.subrange(i + 1, es@.len() as int));
    }
    encode_str_bytes(out, &es[i].0);
    encode_value_bytes(out, &es[i].1);
    encode_entries_bytes(out, es, i + 1);
    proof {
        assert(out@ =~= old(out)@ + bytes_of_entries(sub));
    }
}


pub open spec fn dec_value_result_model(r: Result<(Value, usize), String>) -> Result<
    (ValueModel, int),
    Seq<char>,
> {
    match r {
        Ok((v, p)) => Ok((v@, p as int)),
        Err(m) => Err(m@),
    }
}

pub open spec fn dec_list_result_model(r: Result<(Vec<Value>, usize), String>) -> Result<
    (Seq<ValueModel>, int),
    Seq<char>,
> {
    match r {
        Ok((vs, p)) => Ok((value_model_list(vs@), p as int)),
        Err(m) => Err(m@),
    }
}

pub open spec fn dec_entries_result_model(r: Result<(Vec<(String, Value)>, usize), String>) -> Result<
    (Seq<(Seq<char>, ValueModel)>, int),
    Seq<char>,
> {
    match r {
        Ok((es, p)) => Ok((value_model_entries(es@), p as int)),
        Err(m) => Err(m@),
    }
}

/// Relies on `String::from_utf8`: it succeeds exactly on valid UTF-8 and
/// the returned string holds exactly the given bytes.
#[verifier::external_body]
fn string_from_utf8(bytes: Vec<u8>) -> (r: Option<String>)
    ensures
        match r {
            Some(s) => valid_utf8(bytes@) && encode_utf8(s@) == bytes@,
            None => !valid_utf8(bytes@),
        },
{
    String::from_utf8(bytes).ok()
}

/// Reads one variable-length unsigned number, per [`dec_varint`].
fn decode_varint(bs: &[u8], pos: usize) -> (r: Result<(u64, usize), String>)
    ensures
        match r {
            Ok((u, p)) => dec_varint(bs@, pos as int) == Ok::<_, Seq<char>>((u, p as int)) && pos
                < p <= bs@.len(),
            Err(m) => dec_varint(bs@, pos as int) == Err::<(u64, int), _>(m@),
        },
{
    if pos >= bs.len() {
        return Err(String::from_str("unexpected end of input"));
    }
    let b = bs[pos];
    if b <= 250 {
        Ok((b as u64, pos + 1))
    } else if b == 251 {
        if bs.len() - pos >= 3 {
            let w = u16_from_le_bytes(slice_subrange(bs, pos + 1, pos + 3));
            Ok((w as u64, pos + 3))
        } else {
            Err(String::from_str("unexpected end of input"))
        }
    } else if b == 252 {
        if bs.len() - pos >= 5 {
            let w = u32_from_le_bytes(slice_subrange(bs, pos + 1, pos + 5));
            Ok((w as u64, pos + 5))
        } else {
            Err(String::from_str("unexpected end of input"))
        }
    } else if b == 253 {
        if bs.len() - pos >= 9 {
            let w = u64_from_le_bytes(slice_subrange(bs, pos + 1, pos + 9));
            Ok((w, pos + 9))
        } else {
            Err(String::from_str("unexpected end of input"))
        }
    } else {
        Err(String::from_str("invalid integer marker"))
    }
}

/// Turns a decoded length into a span end, when it fits what is left.
fn span_end(bs: &[u8], p: usize, n: u64) -> (r: Option<usize>)
    requires
        p <= bs@.len(),
    ensures
        match r {
            Some(end) => p + n <= bs@.len() && end as int == p + n,
            None => !(p + n <= bs@.len()),
        },
{
    if n <= (bs.len() - p) as u64 {
        Some(p + (n as usize))
    } else {
        None
    }
}

/// Reads one length-prefixed UTF-8 string, per [`dec_str`].
fn decode_str(bs: &[u8], pos: usize) -> (r: Result<(String, usize), String>)
    ensures
        match r {
            Ok((t, p)) => dec_str(bs@, pos as int) == Ok::<_, Seq<char>>((t@, p as int)) && pos
                < p <= bs@.len(),
            Err(m) => dec_str(bs@, pos as int) == Err::<(Seq<char>, int), _>(m@),
        },
{
    let (n, p) = match decode_varint(bs, pos) {
        Ok(x) => x,
        Err(m) => {
            return Err(m);
        },
    };
    let end = match span_end(bs, p, n) {
        Some(e) => e,
        None => {
            return Err(String::from_str("unexpected end of input"));
        },
    };
    let sub = slice_to_vec(slice_subrange(bs, p, end));
    match string_from_utf8(sub) {
        Some(t) => {
            proof {
                vstd::utf8::encode_utf8_decode_utf8(t@);
            }
            Ok((t, end))
        },
        None => Err(String::from_str("invalid utf-8")),
    }
}

/// Reads one value tree, per [`dec_bytes`].
pub(crate) fn decode_value_bytes(bs: &[u8], pos: usize, depth: u64) -> (r: Result<
    (Value, usize),
    String,
>)
    ensures
        dec_value_result_model(r) == dec_bytes(bs@, pos as int, depth),
        r matches Ok((v, p)) ==> pos < p <= bs@.len(),
    decreases depth, 0nat, 0nat,
{
    let (tag, p) = match decode_varint(bs, pos) {
        Ok(x) => x,
        Err(m) => {
            return Err(m);
        },
    };
    if tag == 0 {
        Ok((Value::Null, p))
    } else if tag == 1 {
        if p < bs.len() {
            let b = bs[p];
            if b == 0 {
                Ok((Value::Boolean(false), p + 1))
            } else if b == 1 {
                Ok((Value::Boolean(true), p + 1))
            } else {
                Err(String::from_str("invalid boolean byte"))
            }
        } else {
            Err(String::from_str("unexpected end of input"))
        }
    } else if tag == 2 {
        let (n, p2) = match decode_varint(bs, p) {
            Ok(x) => x,
            Err(m) => {
                return Err(m);
            },
        };
        match span_end(bs, p2, n) {
            Some(end) => {
                let sub = slice_to_vec(slice_subrange(bs, p2, end));
                Ok((Value::Blob(sub), end))
            },
            None => Err(String::from_str("unexpected end of input")),
        }
    } else if tag == 3 {
        let (n, p2) = match decode_varint(bs, p) {
            Ok(x) => x,
            Err(m) => {
                return Err(m);
            },
        };
        if depth == 0 {
            Err(String::from_str("nesting too deep"))
        } else {
            match decode_list_bytes(bs, p2, n, depth - 1) {
                Err(m) => Err(m),
                Ok((vs, p3)) => Ok((Value::Array(vs), p3)),
            }
        }
    } else if tag == 4 {
        let (u, p2) = match decode_varint(bs, p) {
            Ok(x) => x,
            Err(m) => {
                return Err(m);
            },
        };
        Ok((Value::Integer(unzigzag_exec(u)), p2))
    } else if tag == 5 {
        if bs.len() - p >= 8 {
            let w = u64_from_le_bytes(slice_subrange(bs, p, p + 8));
            Ok((Value::Float(w), p + 8))
        } else {
            Err(String::from_str("unexpected end of input"))
        }
    } else if tag == 6 {
        let (n, p2) = match decode_varint(bs, p) {
            Ok(x) => x,
            Err(m) => {
                return Err(m);
            },
        };
        if depth == 0 {
            Err(String::from_str("nesting too deep"))
        } else {
            match decode_entries_bytes(bs, p2, n, depth - 1) {
                Err(m) => Err(m),
                Ok((es, p3)) => Ok((Value::Object(es), p3)),
            }
        }
    } else if tag == 7 {
        match decode_str(bs, p) {
            Err(m) => Err(m),
            Ok((t, p2)) => Ok((Value::String(t), p2)),
        }
    } else {
        Err(String::from_str("invalid value tag"))
    }
}

fn decode_list_bytes(bs: &[u8], pos: usize, n: u64, depth: u64) -> (r: Result<
    (Vec<Value>, usize),
    String,
>)
    requires
        pos <= bs@.len(),
    ensures
        dec_list_result_model(r) == dec_bytes_list(bs@, pos as int, n, depth),
        r matches Ok((vs, p)) ==> pos <= p <= bs@.len(),
    decreases depth, 1nat, n,
{
    if n == 0 {
        let r: Result<(Vec<Value>, usize), String> = Ok((Vec::new(), pos));
        proof {
            assert(value_model_list(Seq::<Value>::empty()) =~= Seq::<ValueModel>::empty());
        }
        return r;
    }
    match decode_value_bytes(bs, pos, depth) {
        Err(m) => Err(m),
        Ok((v, p)) => match decode_list_bytes(bs, p, n - 1, depth) {
            Err(m) => Err(m),
            Ok((rest, p2)) => {
                let mut out: Vec<Value> = Vec::new();
                out.push(v);
                let mut rest = rest;
                let ghost rest_view = rest@;
                out.append(&mut rest);
                proof {
                    assert(out@ =~= seq![out@[0]] + rest_view);
                    lemma_value_model_list(out@);
                    lemma_value_model_list(rest_view);
                    assert(value_model_list(out@) =~= seq![value_model(out@[0])]
                        + value_model_list(rest_view));
                }
                Ok((out, p2))
            },
        },
    }
}

fn decode_entries_bytes(bs: &[u8], pos: usize, n: u64, depth: u64) -> (r: Result<
    (Vec<(String, Value)>, usize),
    String,
>)
    requires
        pos <= bs@.len(),
    ensures
        dec_entries_result_model(r) == dec_bytes_entries(bs@, pos as int, n, depth),
        r matches Ok((es, p)) ==> pos <= p <= bs@.len(),
    decreases depth, 1nat, n,
{
    if n == 0 {
        let r: Result<(Vec<(String, Value)>, usize), String> = Ok((Vec::new(), pos));
        proof {
            assert(value_model_entries(Seq::<(String, Value)>::empty()) =~= Seq::<
                (Seq<char>, ValueModel),
            >::empty());
        }
        return r;
    }
    match decode_str(bs, pos) {
        Err(m) => Err(m),
        Ok((k, p)) => match decode_value_bytes(bs, p, depth) {
            Err(m) => Err(m),
            Ok((v, p2)) => match decode_entries_bytes(bs, p2, n - 1, depth) {
                Err(m) => Err(m),
                Ok((rest, p3)) => {
                    let mut out: Vec<(String, Value)> = Vec::new();
                    out.push((k, v));
                    let mut rest = rest;
                    let ghost rest_view = rest@;
                    out.append(&mut rest);
                    proof {
                        assert(out@ =~= seq![out@[0]] + rest_view);
                        lemma_value_model_entries(out@);
                        lemma_value_model_entries(rest_view);
                        assert(value_model_entries(out@) =~= seq![
                            (out@[0].0@, value_model(out@[0].1)),
                        ] + value_model_entries(rest_view));
                    }
                    Ok((out, p3))
                },
            },
        },
    }
}

} // verus!
