use vstd::prelude::*;
use crate::attribute::{Attributes, attributes_eq};
use crate::identifier::Identifier;
use crate::parameter::{Parameter, parameter_eq, spec_mutability};
use crate::types::{Mutability, Type, type_eq};
use crate::visibility::Visibility;

verus! {

/// Marker for an asynchronous function.
#[derive(Debug, Clone, Copy, PartialEq, Eq, Structural)]
pub struct Async;

/// What makes a function a method: the receiver's mutability and the
/// owning type.
#[derive(Debug)]
pub struct Method {
    pub mutability: Mutability,
    pub owner: Type,
}

/// A function or method of the interface being bound.
#[derive(Debug)]
pub struct Function {
    pub attributes: Attributes,
    pub visibility: Visibility,
    pub method: Option<Method>,
    pub asyncness: Option<Async>,
    pub identifier: Identifier,
    pub inputs: Vec<Parameter>,
    pub output: Option<Type>,
}

/// Structural equality of two optional method markers.
pub open spec fn method_opt_eq(a: Option<Method>, b: Option<Method>) -> bool {
    match (a, b) {
        (Some(x), Some(y)) => x.mutability == y.mutability && type_eq(x.owner, y.owner),
        (None, None) => true,
        _ => false,
    }
}

/// Pairwise structural equality of two parameter sequences.
pub open spec fn parameter_seq_eq(a: Seq<Parameter>, b: Seq<Parameter>) -> bool {
    a.len() == b.len() && forall|i: int| 0 <= i < a.len() ==> parameter_eq(#[trigger] a[i], b[i])
}

/// Structural equality of two optional types.
pub open spec fn type_opt_eq(a: Option<Type>, b: Option<Type>) -> bool {
    match (a, b) {
        (Some(x), Some(y)) => type_eq(x, y),
        (None, None) => true,
        _ => false,
    }
}

/// Both are asynchronous, or neither is.
pub open spec fn async_opt_eq(a: Option<Async>, b: Option<Async>) -> bool {
    (a is Some) == (b is Some)
}

/// Structural equality of two functions.
pub open spec fn function_eq(a: Function, b: Function) -> bool {
    &&& attributes_eq(a.attributes, b.attributes)
    &&& a.visibility == b.visibility
    &&& method_opt_eq(a.method, b.method)
    &&& async_opt_eq(a.asyncness, b.asyncness)
    &&& a.identifier@ == b.identifier@
    &&& parameter_seq_eq(a.inputs@, b.inputs@)
    &&& type_opt_eq(a.output, b.output)
}

impl Function {
    /// Builds a bare function: no method owner.
    pub fn new(
        attributes: Attributes,
        visibility: Visibility,
        asyncness: Option<Async>,
        identifier: Identifier,
        inputs: Vec<Parameter>,
        output: Option<Type>,
    ) -> (r: Function)
        ensures
            r.attributes == attributes,
            r.visibility == visibility,
            r.method is None,
            r.asyncness == asyncness,
            r.identifier == identifier,
            r.inputs == inputs,
            r.output == output,
    {
        Function { attributes, visibility, method: None, asyncness, identifier, inputs, output }
    }

    /// Structural equality with another function.
    pub fn equals(&self, other: &Function) -> (r: bool)
        ensures
            r == function_eq(*self, *other),
    {
        let head = self.attributes.equals(&other.attributes) && self.visibility
            == other.visibility && self.identifier == other.identifier;
        if !head {
            return false;
        }
        let methods = match (&self.method, &other.method) {
            (Some(x), Some(y)) => x.mutability == y.mutability && x.owner.equals(&y.owner),
            (None, None) => true,
            _ => false,
        };
        if !methods {
            return false;
        }
        let asyncs = match (&self.asyncness, &other.asyncness) {
            (Some(_), Some(_)) => true,
            (None, None) => true,
            _ => false,
        };
        if !asyncs {
            return false;
        }
        let outputs = match (&self.output, &other.output) {
            (Some(x), Some(y)) => x.equals(y),
            (None, None) => true,
            _ => false,
        };
        if !outputs {
            return false;
        }
        if self.inputs.len() != other.inputs.len() {
            return false;
        }
        let n = self.inputs.len();
        let mut i: usize = 0;
        while i < n
            invariant
                0 <= i <= n,
                n == self.inputs@.len(),
                n == other.inputs@.len(),
                forall|j: int| 0 <= j < i ==> parameter_eq(
                    #[trigger] self.inputs@[j],
                    other.inputs@[j],
                ),
            decreases n - i,
        {
            if !self.inputs[i].equals(&other.inputs[i]) {
                return false;
            }
            i += 1;
        }
        true
    }

    /// A copy of this function.
    pub fn duplicate(&self) -> (r: Function)
        ensures
            function_eq(r, *self),
    {
        let method = match &self.method {
            Some(m) => Some(Method { mutability: m.mutability, owner: m.owner.duplicate() }),
            None => None,
        };
        let asyncness = match &self.asyncness {
            Some(_) => Some(Async),
            None => None,
        };
        let output = match &self.output {
            Some(t) => Some(t.duplicate()),
            None => None,
        };
        let n = self.inputs.len();
        let mut inputs: Vec<Parameter> = Vec::new();
        let mut i: usize = 0;
        while i < n
            invariant
                0 <= i <= n,
                n == self.inputs@.len(),
                inputs@.len() == i,
                forall|j: int| 0 <= j < i ==> parameter_eq(#[trigger] inputs@[j], self.inputs@[j]),
            decreases n - i,
        {
            inputs.push(self.inputs[i].duplicate());
            i += 1;
        }
        Function {
            attributes: self.attributes.duplicate(),
            visibility: self.visibility,
            method,
            asyncness,
            identifier: self.identifier.clone(),
            inputs,
            output,
        }
    }

    /// Turns this function into a method of `owner`: when the first
    /// parameter is the receiver it is stripped from the inputs, and its
    /// mutability becomes the method's receiver mutability; without a
    /// receiver the method is constant.
    pub fn into_method(self, owner: Type) -> (r: Function)
        ensures
            r.attributes == self.attributes,
            r.visibility == self.visibility,
            r.asyncness == self.asyncness,
            r.identifier == self.identifier,
            r.output == self.output,
            r.method matches Some(m) && m.owner == owner,
            self.inputs@.len() > 0 && self.inputs@[0].identifier@ == "self"@ ==> {
                &&& r.inputs@ == self.inputs@.drop_first()
                &&& r.method matches Some(m) && m.mutability == spec_mutability(self.inputs@[0])
            },
            !(self.inputs@.len() > 0 && self.inputs@[0].identifier@ == "self"@) ==> {
                &&& r.inputs@ == self.inputs@
                &&& r.method matches Some(m) && m.mutability == Mutability::Constant
            },
    {
        let Function { attributes, visibility, method: _, asyncness, identifier, mut inputs, output }
            = self;
        let has_receiver = inputs.len() > 0 && inputs[0].is_receiver();
        let mutability = if has_receiver {
            let receiver = inputs.remove(0);
            receiver.mutability()
        } else {
            Mutability::Constant
        };
        Function {
            attributes,
            visibility,
            method: Some(Method { mutability, owner }),
            asyncness,
            identifier,
            inputs,
            output,
        }
    }
}

impl Clone for Function {
    fn clone(&self) -> (r: Self)
        ensures
            function_eq(r, *self),
    {
        self.duplicate()
    }
}

impl PartialEq for Function {
    fn eq(&self, other: &Self) -> (r: bool) {
        self.equals(other)
    }
}

impl vstd::std_specs::cmp::PartialEqSpecImpl for Function {
    open spec fn obeys_eq_spec() -> bool {
        true
    }

    open spec fn eq_spec(&self, other: &Function) -> bool {
        function_eq(*self, *other)
    }
}


/// Function equality is reflexive.
pub proof fn lemma_function_eq_reflexive(f: Function)
    ensures
        function_eq(f, f),
{
    crate::attribute::lemma_attribute_seq_eq_reflexive(f.attributes.attributes@);
    match f.method {
        Some(m) => {
            crate::types::lemma_type_eq_reflexive(m.owner);
        },
        None => {},
    }
    match f.output {
        Some(t) => {
            crate::types::lemma_type_eq_reflexive(t);
        },
        None => {},
    }
    assert forall|i: int| 0 <= i < f.inputs@.len() implies parameter_eq(
        #[trigger] f.inputs@[i],
        f.inputs@[i],
    ) by {
        crate::attribute::lemma_attribute_seq_eq_reflexive(f.inputs@[i].attributes.attributes@);
        crate::types::lemma_type_eq_reflexive(f.inputs@[i].type_);
    }
}

} // verus!
