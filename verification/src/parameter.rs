use vstd::prelude::*;
use crate::attribute::{Attributes, attributes_eq};
use crate::identifier::Identifier;
use crate::text::str_eq;
use crate::types::{Mutability, Type, type_eq};

verus! {

/// A function parameter: attributes, name and type.
#[derive(Debug)]
pub struct Parameter {
    pub attributes: Attributes,
    pub identifier: Identifier,
    pub type_: Type,
}

/// Structural equality of two parameters.
pub open spec fn parameter_eq(a: Parameter, b: Parameter) -> bool {
    &&& attributes_eq(a.attributes, b.attributes)
    &&& a.identifier@ == b.identifier@
    &&& type_eq(a.type_, b.type_)
}

/// The mutability a parameter derives from its type.
pub open spec fn spec_mutability(p: Parameter) -> Mutability {
    if p.type_ matches Type::Reference(q) && q.mutability == Mutability::Mutable {
        Mutability::Mutable
    } else {
        Mutability::Constant
    }
}

impl Parameter {
    /// Builds a parameter.
    pub fn new(attributes: Attributes, identifier: Identifier, type_: Type) -> (r: Parameter)
        ensures
            r.attributes == attributes,
            r.identifier == identifier,
            r.type_ == type_,
    {
        Parameter { attributes, identifier, type_ }
    }

    /// A parameter is mutable exactly when its type is a mutable
    /// reference.
    pub fn mutability(&self) -> (r: Mutability)
        ensures
            r == spec_mutability(*self),
    {
        if self.type_.is_mutable_reference() {
            Mutability::Mutable
        } else {
            Mutability::Constant
        }
    }

    /// Whether this parameter is a receiver, that is, named `self`.
    pub fn is_receiver(&self) -> (r: bool)
        ensures
            r == (self.identifier@ == "self"@),
    {
        str_eq(self.identifier.name.as_str(), "self")
    }

    /// Structural equality with another parameter.
    pub fn equals(&self, other: &Parameter) -> (r: bool)
        ensures
            r == parameter_eq(*self, *other),
    {
        self.attributes.equals(&other.attributes) && self.identifier == other.identifier
            && self.type_.equals(&other.type_)
    }

    /// A copy of this parameter.
    pub fn duplicate(&self) -> (r: Parameter)
        ensures
            parameter_eq(r, *self),
    {
        Parameter {
            attributes: self.attributes.duplicate(),
            identifier: self.identifier.clone(),
            type_: self.type_.duplicate(),
        }
    }
}

impl Clone for Parameter {
    fn clone(&self) -> (r: Self)
        ensures
            parameter_eq(r, *self),
    {
        self.duplicate()
    }
}

impl PartialEq for Parameter {
    fn eq(&self, other: &Self) -> (r: bool) {
        self.equals(other)
    }
}

impl vstd::std_specs::cmp::PartialEqSpecImpl for Parameter {
    open spec fn obeys_eq_spec() -> bool {
        true
    }

    open spec fn eq_spec(&self, other: &Parameter) -> bool {
        parameter_eq(*self, *other)
    }
}

} // verus!
