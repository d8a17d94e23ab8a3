use vstd::prelude::*;

verus! {

/// The bit that holds the sign of an IEEE 754 binary64 number.
pub const SIGN_BIT: u64 = 0x8000_0000_0000_0000;

/// A runtime value. A number is an IEEE 754 binary64 value, held as its bit
/// pattern; an identifier is a global variable's name, found only in a
/// chunk's constant pool.
#[derive(Debug, Clone, PartialEq)]
pub enum Value {
    Boolean(bool),
    Number(u64),
    Identifier(String),
    Nil,
}

/// The binary64 negation of the number with bits `bits`: the same number
/// with its sign flipped, NaN included.
pub open spec fn negated(bits: u64) -> u64 {
    bits ^ SIGN_BIT
}

/// Negates the number with bits `bits`.
pub fn negate_number(bits: u64) -> (r: u64)
    ensures
        r == negated(bits),
{
    bits ^ SIGN_BIT
}

impl Value {
    /// A copy of this value.
    pub fn duplicate(&self) -> (r: Value)
        ensures
            r == *self,
    {
        match self {
            Value::Boolean(b) => Value::Boolean(*b),
            Value::Number(n) => Value::Number(*n),
            Value::Identifier(name) => Value::Identifier(name.clone()),
            Value::Nil => Value::Nil,
        }
    }
}

} // verus!
