use vstd::prelude::*;
use crate::text::str_eq;

verus! {

/// A literal value carried by an attribute.
///
/// A floating-point literal is kept as its source text: the digits are
/// what the generators print back out, and no arithmetic is ever done on
/// the value.
#[derive(Debug)]
pub enum Literal {
    String(String),
    Boolean(bool),
    Integer(i64),
    UnsignedInteger(u64),
    Float(String),
    Character(char),
}

/// Equality of two literals: same variant, same payload (texts compared
/// by their characters).
pub open spec fn literal_eq(a: Literal, b: Literal) -> bool {
    match (a, b) {
        (Literal::String(x), Literal::String(y)) => x@ == y@,
        (Literal::Boolean(x), Literal::Boolean(y)) => x == y,
        (Literal::Integer(x), Literal::Integer(y)) => x == y,
        (Literal::UnsignedInteger(x), Literal::UnsignedInteger(y)) => x == y,
        (Literal::Float(x), Literal::Float(y)) => x@ == y@,
        (Literal::Character(x), Literal::Character(y)) => x == y,
        _ => false,
    }
}

impl Literal {
    /// Structural equality with another literal.
    pub fn equals(&self, other: &Literal) -> (r: bool)
        ensures
            r == literal_eq(*self, *other),
    {
        match (self, other) {
            (Literal::String(x), Literal::String(y)) => str_eq(x.as_str(), y.as_str()),
            (Literal::Boolean(x), Literal::Boolean(y)) => x == y,
            (Literal::Integer(x), Literal::Integer(y)) => x == y,
            (Literal::UnsignedInteger(x), Literal::UnsignedInteger(y)) => x == y,
            (Literal::Float(x), Literal::Float(y)) => str_eq(x.as_str(), y.as_str()),
            (Literal::Character(x), Literal::Character(y)) => x == y,
            _ => false,
        }
    }

    /// A copy of this literal.
    pub fn duplicate(&self) -> (r: Literal)
        ensures
            literal_eq(r, *self),
    {
        match self {
            Literal::String(x) => Literal::String(x.clone()),
            Literal::Boolean(x) => Literal::Boolean(*x),
            Literal::Integer(x) => Literal::Integer(*x),
            Literal::UnsignedInteger(x) => Literal::UnsignedInteger(*x),
            Literal::Float(x) => Literal::Float(x.clone()),
            Literal::Character(x) => Literal::Character(*x),
        }
    }
}

impl Clone for Literal {
    fn clone(&self) -> (r: Self)
        ensures
            literal_eq(r, *self),
    {
        self.duplicate()
    }
}

impl PartialEq for Literal {
    fn eq(&self, other: &Self) -> (r: bool) {
        self.equals(other)
    }
}

impl vstd::std_specs::cmp::PartialEqSpecImpl for Literal {
    open spec fn obeys_eq_spec() -> bool {
        true
    }

    open spec fn eq_spec(&self, other: &Literal) -> bool {
        literal_eq(*self, *other)
    }
}

} // verus!
