//! Runtime values and the coarse types that operations are selected by.

use vstd::prelude::*;
use vstd::std_specs::cmp::PartialEqSpecImpl;

verus! {

/// A 64-bit binary floating-point number, held as its IEEE 754 bit
/// pattern. The library moves such numbers around and never computes on
/// them: arithmetic on them is asked of the caller (see `FloatRequest`).
#[derive(Clone, Copy, Debug, PartialEq, Eq, Structural)]
pub struct Float {
    pub bits: u64,
}

/// The classification of a value that operations are selected by. `Any`
/// stands for every type; no value has it.
#[derive(Clone, Copy, Debug, Eq)]
pub enum Type {
    Any,
    String,
    Char,
    Int,
    Float,
    Boolean,
}

impl Type {
    /// Whether a value of one type is accepted where the other is asked
    /// for: `Any` goes with everything, every other type with itself.
    pub open spec fn accepts(self, other: Type) -> bool {
        self is Any || other is Any || self == other
    }

    /// The name of the type as printed in signatures.
    pub open spec fn spec_name(self) -> Seq<char> {
        match self {
            Type::Any => "any"@,
            Type::String => "str"@,
            Type::Char => "char"@,
            Type::Int => "int"@,
            Type::Float => "float"@,
            Type::Boolean => "bool"@,
        }
    }

    /// The name of the type as printed in signatures.
    pub fn name(&self) -> (r: &'static str)
        ensures
            r@ == self.spec_name(),
    {
        match self {
            Type::Any => "any",
            Type::String => "str",
            Type::Char => "char",
            Type::Int => "int",
            Type::Float => "float",
            Type::Boolean => "bool",
        }
    }
}

impl PartialEq for Type {
    fn eq(&self, other: &Self) -> (r: bool) {
        match (self, other) {
            (Type::Any, _) => true,
            (_, Type::Any) => true,
            (Type::String, Type::String) => true,
            (Type::Char, Type::Char) => true,
            (Type::Int, Type::Int) => true,
            (Type::Float, Type::Float) => true,
            (Type::Boolean, Type::Boolean) => true,
            _ => false,
        }
    }
}

impl PartialEqSpecImpl for Type {
    open spec fn obeys_eq_spec() -> bool {
        true
    }

    open spec fn eq_spec(&self, other: &Self) -> bool {
        self.accepts(*other)
    }
}

/// A runtime value.
#[derive(Debug, PartialEq)]
pub enum Value {
    String(String),
    Char(char),
    Int(i64),
    Float(Float),
    Boolean(bool),
}

/// What a `Value` holds, as mathematics.
pub enum ValueView {
    String(Seq<char>),
    Char(char),
    Int(i64),
    Float(Float),
    Boolean(bool),
}

impl ValueView {
    /// The type of the value.
    pub open spec fn typ(self) -> Type {
        match self {
            ValueView::String(_) => Type::String,
            ValueView::Char(_) => Type::Char,
            ValueView::Int(_) => Type::Int,
            ValueView::Float(_) => Type::Float,
            ValueView::Boolean(_) => Type::Boolean,
        }
    }
}

impl View for Value {
    type V = ValueView;

    open spec fn view(&self) -> ValueView {
        match self {
            Value::String(s) => ValueView::String(s@),
            Value::Char(c) => ValueView::Char(*c),
            Value::Int(i) => ValueView::Int(*i),
            Value::Float(x) => ValueView::Float(*x),
            Value::Boolean(b) => ValueView::Boolean(*b),
        }
    }
}

impl Value {
    /// The type of the value; never `Any`.
    pub fn typ(&self) -> (r: Type)
        ensures
            r == self@.typ(),
            !(r is Any),
    {
        match self {
            Value::String(_) => Type::String,
            Value::Char(_) => Type::Char,
            Value::Int(_) => Type::Int,
            Value::Float(_) => Type::Float,
            Value::Boolean(_) => Type::Boolean,
        }
    }

    /// Whether two values have the same variant and hold the same thing.
    /// Floats are compared by their bit patterns.
    pub fn same(&self, other: &Value) -> (r: bool)
        ensures
            r == (self@ == other@),
    {
        match (self, other) {
            (Value::String(a), Value::String(b)) => *a == *b,
            (Value::Char(a), Value::Char(b)) => *a == *b,
            (Value::Int(a), Value::Int(b)) => *a == *b,
            (Value::Float(a), Value::Float(b)) => a.bits == b.bits,
            (Value::Boolean(a), Value::Boolean(b)) => *a == *b,
            _ => false,
        }
    }
}

impl Clone for Value {
    fn clone(&self) -> (r: Self)
        ensures
            r@ == self@,
    {
        match self {
            Value::String(s) => Value::String(s.clone()),
            Value::Char(c) => Value::Char(*c),
            Value::Int(i) => Value::Int(*i),
            Value::Float(x) => Value::Float(*x),
            Value::Boolean(b) => Value::Boolean(*b),
        }
    }
}

} // verus!
