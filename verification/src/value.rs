//! Runtime values of the virtual machine.

use vstd::prelude::*;
use crate::interner::Symbol;
use crate::num::{ieee_eq, num_eq};

verus! {

/// A tagged runtime value: boolean, nil, IEEE-754 double (carried as its
/// bit pattern), or interned string symbol.
#[derive(Debug, Clone, Copy, PartialEq, Eq, Structural)]
pub enum Value {
    Bool(bool),
    Nil,
    Number(u64),
    String(Symbol),
}

/// Language equality of two values: same variant and same payload, with
/// numbers compared by IEEE-754 equality and strings by symbol.
pub open spec fn spec_value_eq(a: Value, b: Value) -> bool {
    match (a, b) {
        (Value::Bool(x), Value::Bool(y)) => x == y,
        (Value::Nil, Value::Nil) => true,
        (Value::Number(x), Value::Number(y)) => ieee_eq(x, y),
        (Value::String(x), Value::String(y)) => x == y,
        _ => false,
    }
}

/// A value is falsey exactly when it is `Nil` or `Bool(false)`.
pub open spec fn spec_is_falsey(v: Value) -> bool {
    v == Value::Nil || v == Value::Bool(false)
}

/// Every `String` value in the sequence names a symbol the interner has.
pub open spec fn syms_valid(vs: Seq<Value>, n: int) -> bool {
    forall|i: int|
        0 <= i < vs.len() ==> match #[trigger] vs[i] {
            Value::String(s) => (s as int) < n,
            _ => true,
        }
}

impl Value {
    /// The value is a number.
    pub fn is_number(&self) -> (r: bool)
        ensures
            r == (self matches Value::Number(_)),
    {
        match self {
            Value::Number(_) => true,
            _ => false,
        }
    }

    /// The number's bit pattern, or the operand error message.
    pub fn as_number(&self) -> (r: Result<u64, String>)
        ensures
            match r {
                Ok(n) => *self == Value::Number(n),
                Err(m) => !(self matches Value::Number(_)) && m@ == "Operands must be numbers."@,
            },
    {
        match self {
            Value::Number(n) => Ok(*n),
            _ => Err(String::from_str("Operands must be numbers.")),
        }
    }

    /// The value is an interned string.
    pub fn is_string(&self) -> (r: bool)
        ensures
            r == (self matches Value::String(_)),
    {
        match self {
            Value::String(_) => true,
            _ => false,
        }
    }

    /// The string's symbol, or the operand error message.
    pub fn as_string(&self) -> (r: Result<&Symbol, String>)
        ensures
            match r {
                Ok(s) => *self == Value::String(*s),
                Err(m) => !(self matches Value::String(_)) && m@ == "Operands must be strings."@,
            },
    {
        match self {
            Value::String(s) => Ok(s),
            _ => Err(String::from_str("Operands must be strings.")),
        }
    }

    /// Truthiness: `Nil` and `Bool(false)` are falsey, all else truthy.
    pub fn is_falsey(&self) -> (r: bool)
        ensures
            r == spec_is_falsey(*self),
    {
        match self {
            Value::Nil => true,
            Value::Bool(false) => true,
            _ => false,
        }
    }

    /// Language equality, as the `Equal` instruction applies it.
    pub fn equals(&self, other: &Value) -> (r: bool)
        ensures
            r == spec_value_eq(*self, *other),
    {
        match (self, other) {
            (Value::Bool(x), Value::Bool(y)) => *x == *y,
            (Value::Nil, Value::Nil) => true,
            (Value::Number(x), Value::Number(y)) => num_eq(*x, *y),
            (Value::String(x), Value::String(y)) => *x == *y,
            _ => false,
        }
    }
}

} // verus!
