//! The loosely-typed JSON value representation that request parameters and
//! response results are carried in.
//!
//! Numbers are modelled as signed 64-bit integers: the protocol layer here
//! never needs fractional numbers, and the codec rejects them on the wire.

use vstd::prelude::*;

verus! {

/// A JSON value: the argument/result representation of the protocol.
///
/// An object is kept as the sequence of its members in wire order; no
/// key-uniqueness is enforced at this layer.
#[derive(Debug, PartialEq)]
pub enum Value {
    Null,
    Bool(bool),
    Int(i64),
    Str(String),
    Arr(Vec<Value>),
    Obj(Vec<(String, Value)>),
}

/// The mathematical model of a [`Value`].
#[verifier::ext_equal]
pub enum ValueV {
    Null,
    Bool(bool),
    Int(i64),
    Str(Seq<char>),
    Arr(Seq<ValueV>),
    Obj(Seq<(Seq<char>, ValueV)>),
}

/// The model of an executable value, member by member.
pub open spec fn value_rep(v: Value) -> ValueV
    decreases v,
{
    match v {
        Value::Null => ValueV::Null,
        Value::Bool(b) => ValueV::Bool(b),
        Value::Int(n) => ValueV::Int(n),
        Value::Str(s) => ValueV::Str(s@),
        Value::Arr(a) => ValueV::Arr(
            Seq::new(
                a@.len(),
                |i: int|
                    if 0 <= i < a@.len() {
                        proof {
                            assert(decreases_to!(v => a));
                            assert(decreases_to!(a => a@[i]));
                        }
                        value_rep(a@[i])
                    } else {
                        ValueV::Null
                    },
            ),
        ),
        Value::Obj(m) => ValueV::Obj(
            Seq::new(
                m@.len(),
                |i: int|
                    if 0 <= i < m@.len() {
                        proof {
                            assert(decreases_to!(v => m));
                            assert(decreases_to!(m => m@[i]));
                            assert(decreases_to!(m@[i] => m@[i].1));
                        }
                        (m@[i].0@, value_rep(m@[i].1))
                    } else {
                        (Seq::empty(), ValueV::Null)
                    },
            ),
        ),
    }
}

impl View for Value {
    type V = ValueV;

    open spec fn view(&self) -> ValueV {
        value_rep(*self)
    }
}


impl Value {
    /// The carried integer, for an integer value.
    pub fn as_int(&self) -> (r: Option<i64>)
        ensures
            (match self {
                Value::Int(n) => r == Some(*n),
                _ => r is None,
            }),
    {
        match self {
            Value::Int(n) => Some(*n),
            _ => None,
        }
    }

    /// The carried truth value, for a boolean value.
    pub fn as_bool(&self) -> (r: Option<bool>)
        ensures
            (match self {
                Value::Bool(b) => r == Some(*b),
                _ => r is None,
            }),
    {
        match self {
            Value::Bool(b) => Some(*b),
            _ => None,
        }
    }

    /// The carried text, for a string value.
    pub fn as_str(&self) -> (r: Option<&String>)
        ensures
            (match self {
                Value::Str(s) => r matches Some(t) && t@ == s@,
                _ => r is None,
            }),
    {
        match self {
            Value::Str(s) => Some(s),
            _ => None,
        }
    }

    /// Whether the value is the JSON null.
    pub fn is_null(&self) -> (r: bool)
        ensures
            r == (self is Null),
    {
        match self {
            Value::Null => true,
            _ => false,
        }
    }
}

} // verus!
