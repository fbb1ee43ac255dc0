//! The values a record holds and the types a schema gives them.
use vstd::prelude::*;

use crate::parse::{i64_text, int_text};
use crate::text::owned;

verus! {

/// The type of a field in a schema.
#[derive(Debug, Clone, Copy, PartialEq, Eq, Structural)]
pub enum DataType {
    Null,
    Int64,
    Float64,
    Boolean,
    String,
}

/// A value held by a record.
///
/// `Float64` holds the IEEE-754 bit pattern of a 64-bit float. Arithmetic on
/// floats, reading them from text and writing them as text happen outside
/// this library; `Value` only carries them and compares them as floats.
#[derive(Debug)]
pub enum Value {
    Null,
    Int64(i64),
    Float64(u64),
    Boolean(bool),
    String(String),
}

/// The bit pattern is a NaN: all exponent bits set and a non-zero fraction.
pub open spec fn float_is_nan(bits: u64) -> bool {
    bits & 0x7ff0_0000_0000_0000u64 == 0x7ff0_0000_0000_0000u64 && bits
        & 0x000f_ffff_ffff_ffffu64 != 0
}

/// IEEE-754 equality of two doubles given by their bit patterns: NaN equals
/// nothing, `+0.0` equals `-0.0`, and otherwise the patterns must agree.
pub open spec fn float_bits_eq(a: u64, b: u64) -> bool {
    !float_is_nan(a) && !float_is_nan(b) && (a == b || (a & 0x7fff_ffff_ffff_ffffu64 == 0 && b
        & 0x7fff_ffff_ffff_ffffu64 == 0))
}

fn float_eq(a: u64, b: u64) -> (r: bool)
    ensures
        r == float_bits_eq(a, b),
{
    let a_nan = a & 0x7ff0_0000_0000_0000u64 == 0x7ff0_0000_0000_0000u64 && a
        & 0x000f_ffff_ffff_ffffu64 != 0;
    let b_nan = b & 0x7ff0_0000_0000_0000u64 == 0x7ff0_0000_0000_0000u64 && b
        & 0x000f_ffff_ffff_ffffu64 != 0;
    !a_nan && !b_nan && (a == b || (a & 0x7fff_ffff_ffff_ffffu64 == 0 && b
        & 0x7fff_ffff_ffff_ffffu64 == 0))
}

/// `==` on values: same variant and equal contents, floats compared as floats.
pub open spec fn values_equal(a: Value, b: Value) -> bool {
    match (a, b) {
        (Value::Null, Value::Null) => true,
        (Value::Int64(x), Value::Int64(y)) => x == y,
        (Value::Float64(x), Value::Float64(y)) => float_bits_eq(x, y),
        (Value::Boolean(x), Value::Boolean(y)) => x == y,
        (Value::String(x), Value::String(y)) => x@ == y@,
        _ => false,
    }
}

impl PartialEq for Value {
    fn eq(&self, other: &Value) -> (r: bool) {
        match (self, other) {
            (Value::Null, Value::Null) => true,
            (Value::Int64(x), Value::Int64(y)) => *x == *y,
            (Value::Float64(x), Value::Float64(y)) => float_eq(*x, *y),
            (Value::Boolean(x), Value::Boolean(y)) => *x == *y,
            (Value::String(x), Value::String(y)) => *x == *y,
            _ => false,
        }
    }
}

impl vstd::std_specs::cmp::PartialEqSpecImpl for Value {
    open spec fn obeys_eq_spec() -> bool {
        true
    }

    open spec fn eq_spec(&self, other: &Value) -> bool {
        values_equal(*self, *other)
    }
}

impl Clone for Value {
    fn clone(&self) -> (r: Value)
        ensures
            r == *self,
    {
        match self {
            Value::Null => Value::Null,
            Value::Int64(x) => Value::Int64(*x),
            Value::Float64(x) => Value::Float64(*x),
            Value::Boolean(x) => Value::Boolean(*x),
            Value::String(x) => Value::String(x.clone()),
        }
    }
}

/// The text `Display` gives every value but a float.
pub open spec fn plain_text(v: Value) -> Seq<char> {
    match v {
        Value::Null => "null"@,
        Value::Int64(x) => int_text(x as int),
        Value::Float64(_) => Seq::empty(),
        Value::Boolean(b) => if b {
            "true"@
        } else {
            "false"@
        },
        Value::String(s) => s@,
    }
}

/// `text` is what `Display` writes for `v`, where `float_text` writes floats.
pub open spec fn is_text_of<T: Fn(u64) -> String>(v: Value, text: String, float_text: T) -> bool {
    match v {
        Value::Float64(bits) => float_text.ensures((bits,), text),
        _ => text@ == plain_text(v),
    }
}

impl Value {
    pub fn string(value: &str) -> (r: Value)
        ensures
            r matches Value::String(s) && s@ == value@,
    {
        Value::String(owned(value))
    }

    pub fn int64(value: i64) -> (r: Value)
        ensures
            r == Value::Int64(value),
    {
        Value::Int64(value)
    }

    pub fn boolean(value: bool) -> (r: Value)
        ensures
            r == Value::Boolean(value),
    {
        Value::Boolean(value)
    }

    pub fn as_string(&self) -> (r: Option<&str>)
        ensures
            match *self {
                Value::String(s) => r matches Some(t) && t@ == s@,
                _ => r is None,
            },
    {
        match self {
            Value::String(value) => Some(value.as_str()),
            _ => None,
        }
    }

    pub fn as_i64(&self) -> (r: Option<i64>)
        ensures
            match *self {
                Value::Int64(x) => r == Some(x),
                _ => r is None,
            },
    {
        match self {
            Value::Int64(value) => Some(*value),
            _ => None,
        }
    }

    /// The type a value of this variant has.
    pub fn data_type(&self) -> (r: DataType)
        ensures
            r == spec_data_type(*self),
    {
        match self {
            Value::Null => DataType::Null,
            Value::Int64(_) => DataType::Int64,
            Value::Float64(_) => DataType::Float64,
            Value::Boolean(_) => DataType::Boolean,
            Value::String(_) => DataType::String,
        }
    }

    /// What `Display` writes for this value; `float_text` writes floats.
    pub fn to_text<T: Fn(u64) -> String>(&self, float_text: &T) -> (r: String)
        requires
            forall|b: u64| float_text.requires((b,)),
        ensures
            is_text_of(*self, r, *float_text),
    {
        proof {
            reveal_strlit("null");
            reveal_strlit("true");
            reveal_strlit("false");
        }
        match self {
            Value::Null => owned("null"),
            Value::Int64(x) => i64_text(*x),
            Value::Float64(bits) => float_text(*bits),
            Value::Boolean(b) => if *b {
                owned("true")
            } else {
                owned("false")
            },
            Value::String(s) => s.clone(),
        }
    }
}

pub open spec fn spec_data_type(v: Value) -> DataType {
    match v {
        Value::Null => DataType::Null,
        Value::Int64(_) => DataType::Int64,
        Value::Float64(_) => DataType::Float64,
        Value::Boolean(_) => DataType::Boolean,
        Value::String(_) => DataType::String,
    }
}

impl From<i64> for Value {
    fn from(value: i64) -> (r: Value) {
        Value::Int64(value)
    }
}

impl vstd::std_specs::convert::FromSpecImpl<i64> for Value {
    open spec fn obeys_from_spec() -> bool {
        true
    }

    open spec fn from_spec(value: i64) -> Value {
        Value::Int64(value)
    }
}

impl From<bool> for Value {
    fn from(value: bool) -> (r: Value) {
        Value::Boolean(value)
    }
}

impl vstd::std_specs::convert::FromSpecImpl<bool> for Value {
    open spec fn obeys_from_spec() -> bool {
        true
    }

    open spec fn from_spec(value: bool) -> Value {
        Value::Boolean(value)
    }
}

impl<'a> From<&'a str> for Value {
    fn from(value: &'a str) -> (r: Value)
        ensures
            r matches Value::String(s) && s@ == value@,
    {
        Value::String(owned(value))
    }
}

impl<'a> vstd::std_specs::convert::FromSpecImpl<&'a str> for Value {
    /// Two strings with the same characters need not be the same `String`
    /// value to Verus, so no single value is named here; `from` states its
    /// result instead.
    open spec fn obeys_from_spec() -> bool {
        false
    }

    open spec fn from_spec(value: &'a str) -> Value {
        choose|v: Value| #[trigger] plain_text(v) == value@ && v is String
    }
}

} // verus!
