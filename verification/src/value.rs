//! Runtime values and the constant pool that holds them.

use vstd::prelude::*;
use vstd::std_specs::cmp::PartialEqSpecImpl;
use vstd::string::StringExecFns;
use crate::number;

verus! {

/// A runtime value. A number is held as the 64 bits of its IEEE-754 binary64
/// encoding, so that a value can be stored, compared and moved around without
/// any floating-point operation.
#[derive(Debug, Clone, Copy)]
pub enum Value {
    Number(u64),
    Bool(bool),
    Nil,
}

/// Structural equality of values: numbers by IEEE equality, booleans by
/// value, nil with nil, and values of different variants never.
pub open spec fn values_equal(a: Value, b: Value) -> bool {
    match (a, b) {
        (Value::Number(x), Value::Number(y)) => number::equal(x, y),
        (Value::Bool(x), Value::Bool(y)) => x == y,
        (Value::Nil, Value::Nil) => true,
        _ => false,
    }
}

/// Only nil and `false` are falsy.
pub open spec fn falsy(v: Value) -> bool {
    match v {
        Value::Nil => true,
        Value::Bool(b) => !b,
        Value::Number(_) => false,
    }
}

impl PartialEq for Value {
    fn eq(&self, other: &Value) -> (r: bool) {
        match (*self, *other) {
            (Value::Number(x), Value::Number(y)) => number::is_equal(x, y),
            (Value::Bool(x), Value::Bool(y)) => x == y,
            (Value::Nil, Value::Nil) => true,
            _ => false,
        }
    }
}

impl PartialEqSpecImpl for Value {
    open spec fn obeys_eq_spec() -> bool {
        true
    }

    open spec fn eq_spec(&self, other: &Value) -> bool {
        values_equal(*self, *other)
    }
}

impl Value {
    /// Whether the value counts as false in a boolean context.
    pub fn is_falsy(&self) -> (r: bool)
        ensures
            r == falsy(*self),
    {
        match self {
            Value::Nil => true,
            Value::Bool(b) => !*b,
            Value::Number(_) => false,
        }
    }

    /// The encoding of the number, if the value is one.
    pub fn as_number(&self) -> (r: Option<u64>)
        ensures
            r == (match *self {
                Value::Number(bits) => Some(bits),
                _ => None::<u64>,
            }),
    {
        match self {
            Value::Number(n) => Some(*n),
            _ => None,
        }
    }
}

/// How a value is written: `nil`, `true`, `false`, or for a number the text
/// that the caller has for it.
pub open spec fn value_text(value: Value, number_text: Seq<char>) -> Seq<char> {
    match value {
        Value::Number(_) => number_text,
        Value::Bool(true) => "true"@,
        Value::Bool(false) => "false"@,
        Value::Nil => "nil"@,
    }
}

/// Writes a value out. Writing a number out takes floating-point
/// formatting, which is the caller's to do: `number_text` is the text of the
/// number where `value` is one, and is not looked at where it is not.
pub fn value_to_string(value: Value, number_text: &str) -> (r: String)
    ensures
        r@ == value_text(value, number_text@),
{
    match value {
        Value::Number(_) => String::from_str(number_text),
        Value::Bool(true) => String::from_str("true"),
        Value::Bool(false) => String::from_str("false"),
        Value::Nil => String::from_str("nil"),
    }
}

/// A growable pool of values, addressed by index in insertion order.
#[derive(Debug)]
pub struct ValueArray {
    values: Vec<Value>,
}

impl View for ValueArray {
    type V = Seq<Value>;

    closed spec fn view(&self) -> Seq<Value> {
        self.values@
    }
}

/// `Vec::capacity` reports how many elements the vector can hold without
/// reallocating, which is never less than its length.
#[verifier::external_body]
fn vec_capacity(values: &Vec<Value>) -> (r: usize)
    ensures
        r >= values@.len(),
{
    values.capacity()
}

impl ValueArray {
    /// An empty pool.
    pub fn new() -> (r: Self)
        ensures
            r@ == Seq::<Value>::empty(),
    {
        ValueArray { values: Vec::new() }
    }

    /// Appends `value` at the end of the pool.
    pub fn write(&mut self, value: Value)
        ensures
            final(self)@ == old(self)@.push(value),
    {
        self.values.push(value);
    }

    /// The number of values in the pool.
    pub fn count(&self) -> (r: usize)
        ensures
            r == self@.len(),
    {
        self.values.len()
    }

    /// The number of values the pool has room for before it must grow.
    pub fn capacity(&self) -> (r: usize)
        ensures
            r >= self@.len(),
    {
        vec_capacity(&self.values)
    }

    /// The value at `index`, or `None` past the end of the pool.
    pub fn get(&self, index: usize) -> (r: Option<&Value>)
        ensures
            index < self@.len() ==> r == Some(&self@[index as int]),
            index >= self@.len() ==> r is None,
    {
        if index < self.values.len() {
            Some(&self.values[index])
        } else {
            None
        }
    }

    /// All values, in insertion order.
    pub fn values(&self) -> (r: &[Value])
        ensures
            r@ == self@,
    {
        self.values.as_slice()
    }
}

impl Default for ValueArray {
    fn default() -> (r: Self)
        ensures
            r@ == Seq::<Value>::empty(),
    {
        ValueArray::new()
    }
}

} // verus!
