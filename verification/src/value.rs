//! Script values.
//!
//! Numbers are modeled as 64-bit integers plus the three non-finite values;
//! objects are handles into the object arena owned by the update context.

use vstd::prelude::*;
use crate::text::{dec_string, i64_to_string};

verus! {

/// A script number: a finite 64-bit integer or one of the non-finite values.
#[derive(Clone, Copy, PartialEq, Eq, Structural, Debug)]
pub enum Number {
    Finite(i64),
    NotANumber,
    Infinity,
    NegInfinity,
}

/// A script value.
#[derive(Debug)]
pub enum Value {
    Undefined,
    Null,
    Bool(bool),
    Number(Number),
    Text(String),
    Object(usize),
}

/// The mathematical model of a script value.
pub enum ValueModel {
    Undefined,
    Null,
    Bool(bool),
    Number(Number),
    Text(Seq<char>),
    Object(int),
}

impl View for Value {
    type V = ValueModel;

    open spec fn view(&self) -> ValueModel {
        match self {
            Value::Undefined => ValueModel::Undefined,
            Value::Null => ValueModel::Null,
            Value::Bool(b) => ValueModel::Bool(*b),
            Value::Number(n) => ValueModel::Number(*n),
            Value::Text(s) => ValueModel::Text(s@),
            Value::Object(id) => ValueModel::Object(*id as int),
        }
    }
}

impl Clone for Value {
    fn clone(&self) -> (r: Self)
        ensures
            r@ == self@,
    {
        match self {
            Value::Undefined => Value::Undefined,
            Value::Null => Value::Null,
            Value::Bool(b) => Value::Bool(*b),
            Value::Number(n) => Value::Number(*n),
            Value::Text(s) => Value::Text(s.clone()),
            Value::Object(id) => Value::Object(*id),
        }
    }
}

/// The string a value coerces to, for values whose coercion does not
/// re-enter script code.
pub open spec fn spec_coerce_to_string(v: ValueModel) -> Seq<char> {
    match v {
        ValueModel::Undefined => "undefined"@,
        ValueModel::Null => "null"@,
        ValueModel::Bool(b) => if b {
            "true"@
        } else {
            "false"@
        },
        ValueModel::Number(Number::Finite(n)) => dec_string(n as int),
        ValueModel::Number(Number::NotANumber) => "NaN"@,
        ValueModel::Number(Number::Infinity) => "Infinity"@,
        ValueModel::Number(Number::NegInfinity) => "-Infinity"@,
        ValueModel::Text(s) => s,
        ValueModel::Object(_) => "[object Object]"@,
    }
}

impl Value {
    /// Coerce the value to its display string.
    ///
    /// Coercion of an object would re-enter script code in the full VM; here
    /// every object renders as the default object string.
    pub fn coerce_to_string(&self) -> (r: String)
        ensures
            r@ == spec_coerce_to_string(self@),
    {
        proof {
            reveal_strlit("undefined");
            reveal_strlit("null");
            reveal_strlit("true");
            reveal_strlit("false");
            reveal_strlit("NaN");
            reveal_strlit("Infinity");
            reveal_strlit("-Infinity");
            reveal_strlit("[object Object]");
        }
        match self {
            Value::Undefined => String::from_str("undefined"),
            Value::Null => String::from_str("null"),
            Value::Bool(b) => if *b {
                String::from_str("true")
            } else {
                String::from_str("false")
            },
            Value::Number(Number::Finite(n)) => i64_to_string(*n),
            Value::Number(Number::NotANumber) => String::from_str("NaN"),
            Value::Number(Number::Infinity) => String::from_str("Infinity"),
            Value::Number(Number::NegInfinity) => String::from_str("-Infinity"),
            Value::Text(s) => s.clone(),
            Value::Object(_) => String::from_str("[object Object]"),
        }
    }
}

} // verus!
