//! The closed error taxonomy raised by encoding, decoding and the binary
//! codec.

use vstd::prelude::*;

verus! {

/// Mathematical model of a [`BincodeError`].
pub enum BincodeErrorModel {
    Encode(Seq<char>),
    Decode(Seq<char>),
}

/// Mathematical model of an [`Error`].
pub enum ErrorModel {
    Bincode(BincodeErrorModel),
    Custom(Seq<char>),
    Expected(Seq<char>, Seq<char>),
    Duplicated(Seq<char>),
    Missing(Seq<char>),
    Unknown(Seq<char>),
    Eof,
}

/// A failure of the binary codec, split by direction. The payload is a
/// human-readable description of what went wrong with the byte stream.
#[derive(Debug)]
pub enum BincodeError {
    Encode(String),
    Decode(String),
}

/// Everything that can go wrong while encoding or decoding.
#[derive(Debug)]
pub enum Error {
    /// The binary codec failed; the payload is not inspected further.
    Bincode(BincodeError),
    /// A consumer-supplied message.
    Custom(String),
    /// A shape mismatch: what was wanted, then what was found.
    Expected(String, String),
    /// A named-field target saw the same field twice.
    Duplicated(String),
    /// A named-field target required a field absent from the input.
    Missing(String),
    /// An unrecognized case or field name.
    Unknown(String),
    /// A value was required but none was available.
    Eof,
}

impl View for BincodeError {
    type V = BincodeErrorModel;

    open spec fn view(&self) -> BincodeErrorModel {
        match self {
            BincodeError::Encode(s) => BincodeErrorModel::Encode(s@),
            BincodeError::Decode(s) => BincodeErrorModel::Decode(s@),
        }
    }
}

impl View for Error {
    type V = ErrorModel;

    open spec fn view(&self) -> ErrorModel {
        match self {
            Error::Bincode(e) => ErrorModel::Bincode(e@),
            Error::Custom(s) => ErrorModel::Custom(s@),
            Error::Expected(e, f) => ErrorModel::Expected(e@, f@),
            Error::Duplicated(s) => ErrorModel::Duplicated(s@),
            Error::Missing(s) => ErrorModel::Missing(s@),
            Error::Unknown(s) => ErrorModel::Unknown(s@),
            Error::Eof => ErrorModel::Eof,
        }
    }
}

/// The rendered message of a binary-codec failure.
pub open spec fn bincode_error_message(m: BincodeErrorModel) -> Seq<char> {
    match m {
        BincodeErrorModel::Encode(s) => "encode: "@ + s,
        BincodeErrorModel::Decode(s) => "decode: "@ + s,
    }
}

/// The rendered message of an error.
pub open spec fn error_message(m: ErrorModel) -> Seq<char> {
    match m {
        ErrorModel::Bincode(e) => "bincode error: "@ + bincode_error_message(e),
        ErrorModel::Custom(s) => "custom error: "@ + s,
        ErrorModel::Expected(e, f) => "expected "@ + e + ", found "@ + f,
        ErrorModel::Duplicated(s) => "field "@ + s + " was duplicated"@,
        ErrorModel::Missing(s) => "field "@ + s + " was missing"@,
        ErrorModel::Unknown(s) => "field or variant "@ + s + " was unknown"@,
        ErrorModel::Eof => "unexpected eof"@,
    }
}

impl BincodeError {
    /// The human-readable message of this codec failure.
    pub fn message(&self) -> (r: String)
        ensures
            r@ == bincode_error_message(self@),
    {
        match self {
            BincodeError::Encode(s) => {
                let mut out = String::from_str("encode: ");
                out.append(s.as_str());
                out
            },
            BincodeError::Decode(s) => {
                let mut out = String::from_str("decode: ");
                out.append(s.as_str());
                out
            },
        }
    }
}

impl Error {
    /// The human-readable message of this error.
    pub fn message(&self) -> (r: String)
        ensures
            r@ == error_message(self@),
    {
        match self {
            Error::Bincode(e) => {
                let mut out = String::from_str("bincode error: ");
                let inner = e.message();
                out.append(inner.as_str());
                out
            },
            Error::Custom(s) => {
                let mut out = String::from_str("custom error: ");
                out.append(s.as_str());
                out
            },
            Error::Expected(e, f) => {
                let mut out = String::from_str("expected ");
                out.append(e.as_str());
                out.append(", found ");
                out.append(f.as_str());
                out
            },
            Error::Duplicated(s) => {
                let mut out = String::from_str("field ");
                out.append(s.as_str());
                out.append(" was duplicated");
                out
            },
            Error::Missing(s) => {
                let mut out = String::from_str("field ");
                out.append(s.as_str());
                out.append(" was missing");
                out
            },
            Error::Unknown(s) => {
                let mut out = String::from_str("field or variant ");
                out.append(s.as_str());
                out.append(" was unknown");
                out
            },
            Error::Eof => String::from_str("unexpected eof"),
        }
    }

    /// A consumer-supplied message, as a `Custom` error.
    pub fn custom(msg: String) -> (r: Error)
        ensures
            r@ == ErrorModel::Custom(msg@),
    {
        Error::Custom(msg)
    }

    /// A type mismatch: the unexpected kind found, and what was expected.
    pub fn invalid_type(unexp: &str, exp: &str) -> (r: Error)
        ensures
            r@ == ErrorModel::Expected(exp@, unexp@),
    {
        Error::Expected(exp.to_owned(), unexp.to_owned())
    }

    /// A value of the right type but wrong content.
    pub fn invalid_value(unexp: &str, exp: &str) -> (r: Error)
        ensures
            r@ == ErrorModel::Expected(exp@, unexp@),
    {
        Error::Expected(exp.to_owned(), unexp.to_owned())
    }

    /// A sequence of the wrong length.
    pub fn invalid_length(len: usize, exp: &str) -> (r: Error)
        ensures
            r@ == ErrorModel::Expected("length "@ + decimal_digits(len as nat), exp@),
    {
        let mut msg = String::from_str("length ");
        append_decimal(&mut msg, len as u64);
        Error::Expected(msg, exp.to_owned())
    }

    /// An unrecognized case name.
    pub fn unknown_variant(variant: &str) -> (r: Error)
        ensures
            r@ == ErrorModel::Unknown(variant@),
    {
        Error::Unknown(variant.to_owned())
    }

    /// An unrecognized field name.
    pub fn unknown_field(field: &str) -> (r: Error)
        ensures
            r@ == ErrorModel::Unknown(field@),
    {
        Error::Unknown(field.to_owned())
    }

    /// A required field that was absent.
    pub fn missing_field(field: &str) -> (r: Error)
        ensures
            r@ == ErrorModel::Missing(field@),
    {
        Error::Missing(field.to_owned())
    }

    /// A field that appeared twice.
    pub fn duplicate_field(field: &str) -> (r: Error)
        ensures
            r@ == ErrorModel::Duplicated(field@),
    {
        Error::Duplicated(field.to_owned())
    }
}

impl From<BincodeError> for Error {
    fn from(e: BincodeError) -> (r: Error) {
        Error::Bincode(e)
    }
}

impl vstd::std_specs::convert::FromSpecImpl<BincodeError> for Error {
    open spec fn obeys_from_spec() -> bool {
        true
    }

    open spec fn from_spec(e: BincodeError) -> Error {
        Error::Bincode(e)
    }
}

/// The decimal digits of a number, most significant first.
pub open spec fn decimal_digits(n: nat) -> Seq<char>
    decreases n,
{
    if n < 10 {
        seq![decimal_digit(n)]
    } else {
        decimal_digits(n / 10).push(decimal_digit(n % 10))
    }
}

pub open spec fn decimal_digit(n: nat) -> char {
    if n == 0 {
        '0'
    } else if n == 1 {
        '1'
    } else if n == 2 {
        '2'
    } else if n == 3 {
        '3'
    } else if n == 4 {
        '4'
    } else if n == 5 {
        '5'
    } else if n == 6 {
        '6'
    } else if n == 7 {
        '7'
    } else if n == 8 {
        '8'
    } else {
        '9'
    }
}

/// Appends the decimal rendering of `n` to `out`.
pub fn append_decimal(out: &mut String, n: u64)
    ensures
        final(out)@ == old(out)@ + decimal_digits(n as nat),
    decreases n,
{
    if n >= 10 {
        append_decimal(out, n / 10);
    }
    let digit: &str = match n % 10 {
        0 => "0",
        1 => "1",
        2 => "2",
        3 => "3",
        4 => "4",
        5 => "5",
        6 => "6",
        7 => "7",
        8 => "8",
        _ => "9",
    };
    proof {
        reveal_strlit("0");
        reveal_strlit("1");
        reveal_strlit("2");
        reveal_strlit("3");
        reveal_strlit("4");
        reveal_strlit("5");
        reveal_strlit("6");
        reveal_strlit("7");
        reveal_strlit("8");
        reveal_strlit("9");
    }
    out.append(digit);
}

/// Structural equality of two codec failures.
pub fn bincode_error_eq(a: &BincodeError, b: &BincodeError) -> (r: bool)
    ensures
        r == (a@ == b@),
{
    match (a, b) {
        (BincodeError::Encode(x), BincodeError::Encode(y)) => *x == *y,
        (BincodeError::Decode(x), BincodeError::Decode(y)) => *x == *y,
        _ => false,
    }
}

impl PartialEq for BincodeError {
    fn eq(&self, other: &BincodeError) -> (r: bool) {
        bincode_error_eq(self, other)
    }
}

impl vstd::std_specs::cmp::PartialEqSpecImpl for BincodeError {
    open spec fn obeys_eq_spec() -> bool {
        true
    }

    open spec fn eq_spec(&self, other: &BincodeError) -> bool {
        self@ == other@
    }
}

impl PartialEq for Error {
    fn eq(&self, other: &Error) -> (r: bool) {
        match (self, other) {
            (Error::Bincode(x), Error::Bincode(y)) => bincode_error_eq(x, y),
            (Error::Custom(x), Error::Custom(y)) => *x == *y,
            (Error::Expected(xe, xf), Error::Expected(ye, yf)) => *xe == *ye && *xf == *yf,
            (Error::Duplicated(x), Error::Duplicated(y)) => *x == *y,
            (Error::Missing(x), Error::Missing(y)) => *x == *y,
            (Error::Unknown(x), Error::Unknown(y)) => *x == *y,
            (Error::Eof, Error::Eof) => true,
            _ => false,
        }
    }
}

impl vstd::std_specs::cmp::PartialEqSpecImpl for Error {
    open spec fn obeys_eq_spec() -> bool {
        true
    }

    open spec fn eq_spec(&self, other: &Error) -> bool {
        self@ == other@
    }
}

} // verus!
