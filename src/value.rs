//! The mathematical model of runtime values.

use std::rc::Rc;
use vstd::prelude::*;
use crate::ast::Statement;

verus! {

/// The native functions reachable by name when no binding shadows them.
#[derive(Debug, Clone, Copy, PartialEq, Eq, Structural)]
pub enum Builtin {
    Len,
    First,
    Last,
    Rest,
    Push,
    Puts,
}

/// The model of a hash key: only integers, booleans and strings can be keys.
pub enum KeyV {
    Integer(i32),
    Boolean(bool),
    String(Seq<char>),
}

/// The model of a runtime object.
pub enum Value {
    Integer(i32),
    Boolean(bool),
    String(Seq<char>),
    Null,
    ReturnValue(Box<Value>),
    Error(Seq<char>),
    /// Parameter names, body, and the index of the captured frame.
    Function(Seq<Seq<char>>, Rc<Vec<Statement>>, nat),
    Builtin(Builtin),
    Array(Seq<Value>),
    /// Entries: each key with its value. Hash literals build them with
    /// distinct keys in increasing key order.
    Hash(Seq<(KeyV, Value)>),
}

/// The name of a value's type, as diagnostics print it.
pub open spec fn kind_name(v: Value) -> Seq<char> {
    match v {
        Value::Integer(_) => "INTEGER"@,
        Value::Boolean(_) => "BOOLEAN"@,
        Value::String(_) => "STRING"@,
        Value::Null => "NULL"@,
        Value::ReturnValue(_) => "RETURN_VALUE"@,
        Value::Error(_) => "ERROR"@,
        Value::Function(..) => "FUNCTION"@,
        Value::Builtin(_) => "BUILTIN"@,
        Value::Array(_) => "ARRAY"@,
        Value::Hash(_) => "HASH"@,
    }
}

/// `false` and `null` are falsy; every other value is truthy.
pub open spec fn truthy(v: Value) -> bool {
    !(v == Value::Boolean(false) || v == Value::Null)
}

/// The key that a value stands for, if it can be a key.
pub open spec fn key_of(v: Value) -> Option<KeyV> {
    match v {
        Value::Integer(i) => Some(KeyV::Integer(i)),
        Value::Boolean(b) => Some(KeyV::Boolean(b)),
        Value::String(s) => Some(KeyV::String(s)),
        _ => None,
    }
}

/// The value that a key was made from.
pub open spec fn key_value(k: KeyV) -> Value {
    match k {
        KeyV::Integer(i) => Value::Integer(i),
        KeyV::Boolean(b) => Value::Boolean(b),
        KeyV::String(s) => Value::String(s),
    }
}

} // verus!
