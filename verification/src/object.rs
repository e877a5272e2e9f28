use vstd::prelude::*;
use vstd::pervasive::VecAdditionalExecFns;
use crate::attribute::{Attributes, attributes_eq};
use crate::function::{Function, function_eq, method_opt_eq};
use crate::identifier::Identifier;
use crate::parameter::Parameter;
use crate::path::Path;
use crate::text::str_eq;
use crate::type_definition::{TypeDefinition, spec_definition_identifier, spec_definition_visibility,
    type_definition_eq};
use crate::types::{Reference, Type, type_eq};
use crate::visibility::Visibility;

verus! {

/// An implementation block: methods attached to a self type.
#[derive(Debug)]
pub struct Implementation {
    pub attributes: Attributes,
    pub self_: Type,
    pub items: Vec<Function>,
}

/// The merge of a type definition with the implementation blocks found
/// for the same path in a scope.
#[derive(Debug)]
pub struct Object {
    pub path: Path,
    pub definition: TypeDefinition,
    pub implementations: Vec<Implementation>,
}

pub open spec fn function_seq_eq(a: Seq<Function>, b: Seq<Function>) -> bool {
    a.len() == b.len() && forall|i: int| 0 <= i < a.len() ==> function_eq(#[trigger] a[i], b[i])
}

pub open spec fn implementation_eq(a: Implementation, b: Implementation) -> bool {
    &&& attributes_eq(a.attributes, b.attributes)
    &&& type_eq(a.self_, b.self_)
    &&& function_seq_eq(a.items@, b.items@)
}

pub open spec fn implementation_seq_eq(a: Seq<Implementation>, b: Seq<Implementation>) -> bool {
    a.len() == b.len() && forall|i: int| 0 <= i < a.len() ==> implementation_eq(
        #[trigger] a[i],
        b[i],
    )
}

pub open spec fn object_eq(a: Object, b: Object) -> bool {
    &&& a.path@ == b.path@
    &&& type_definition_eq(a.definition, b.definition)
    &&& implementation_seq_eq(a.implementations@, b.implementations@)
}

/// The identifier an object is keyed by in a scope: the one its
/// definition declares.
pub open spec fn spec_object_identifier(o: Object) -> Seq<char> {
    spec_definition_identifier(o.definition)
}

/// The visibility an object presents: the one its definition declares.
pub open spec fn spec_object_visibility(o: Object) -> Visibility {
    spec_definition_visibility(o.definition)
}

impl Object {
    /// The identifier the object's definition declares.
    pub fn identifier(&self) -> (r: &Identifier)
        ensures
            r@ == spec_object_identifier(*self),
    {
        self.definition.identifier()
    }

    /// The visibility the object's definition declares.
    pub fn visibility(&self) -> (r: Visibility)
        ensures
            r == spec_object_visibility(*self),
    {
        self.definition.visibility()
    }

    pub fn equals(&self, other: &Object) -> (r: bool)
        ensures
            r == object_eq(*self, *other),
    {
        if !(self.path == other.path && self.definition.equals(&other.definition)) {
            return false;
        }
        if self.implementations.len() != other.implementations.len() {
            return false;
        }
        let n = self.implementations.len();
        let mut i: usize = 0;
        while i < n
            invariant
                0 <= i <= n,
                n == self.implementations@.len(),
                n == other.implementations@.len(),
                self.path@ == other.path@,
                type_definition_eq(self.definition, other.definition),
                forall|j: int| 0 <= j < i ==> implementation_eq(
                    #[trigger] self.implementations@[j],
                    other.implementations@[j],
                ),
            decreases n - i,
        {
            if !self.implementations[i].equals(&other.implementations[i]) {
                return false;
            }
            i += 1;
        }
        true
    }
}

impl Implementation {
    pub fn equals(&self, other: &Implementation) -> (r: bool)
        ensures
            r == implementation_eq(*self, *other),
    {
        if !(self.attributes.equals(&other.attributes) && self.self_.equals(&other.self_)) {
            return false;
        }
        if self.items.len() != other.items.len() {
            return false;
        }
        let n = self.items.len();
        let mut i: usize = 0;
        while i < n
            invariant
                0 <= i <= n,
                n == self.items@.len(),
                n == other.items@.len(),
                attributes_eq(self.attributes, other.attributes),
                type_eq(self.self_, other.self_),
                forall|j: int| 0 <= j < i ==> function_eq(#[trigger] self.items@[j], other.items@[j]),
            decreases n - i,
        {
            if !self.items[i].equals(&other.items[i]) {
                return false;
            }
            i += 1;
        }
        true
    }
}

/// `b` is `a` with every path segment called `Self` renamed to `name`.
pub open spec fn type_self_replaced(a: Type, b: Type, name: Seq<char>) -> bool
    decreases a,
{
    match (a, b) {
        (Type::Path(p), Type::Path(q)) => q@ == p@.map_values(
            |s: Seq<char>| if s == "Self"@ { name } else { s },
        ),
        (Type::Reference(r), Type::Reference(s)) => {
            &&& r.kind == s.kind
            &&& r.mutability == s.mutability
            &&& type_self_replaced(*r.type_, *s.type_, name)
        },
        _ => false,
    }
}

pub open spec fn type_opt_self_replaced(a: Option<Type>, b: Option<Type>, name: Seq<char>) -> bool {
    match (a, b) {
        (Some(x), Some(y)) => type_self_replaced(x, y, name),
        (None, None) => true,
        _ => false,
    }
}

pub open spec fn parameter_self_replaced(a: Parameter, b: Parameter, name: Seq<char>) -> bool {
    &&& attributes_eq(a.attributes, b.attributes)
    &&& a.identifier@ == b.identifier@
    &&& type_self_replaced(a.type_, b.type_, name)
}

pub open spec fn function_self_replaced(a: Function, b: Function, name: Seq<char>) -> bool {
    &&& attributes_eq(a.attributes, b.attributes)
    &&& a.visibility == b.visibility
    &&& method_opt_eq(a.method, b.method)
    &&& crate::function::async_opt_eq(a.asyncness, b.asyncness)
    &&& a.identifier@ == b.identifier@
    &&& a.inputs@.len() == b.inputs@.len()
    &&& forall|i: int| 0 <= i < a.inputs@.len() ==> parameter_self_replaced(
        #[trigger] a.inputs@[i],
        b.inputs@[i],
        name,
    )
    &&& type_opt_self_replaced(a.output, b.output, name)
}

/// `b` is `a` with `Self` replaced in every item's parameter and return
/// types; the block's own fields are untouched.
pub open spec fn implementation_self_replaced(
    a: Implementation,
    b: Implementation,
    name: Seq<char>,
) -> bool {
    &&& b.attributes == a.attributes
    &&& b.self_ == a.self_
    &&& a.items@.len() == b.items@.len()
    &&& forall|i: int| 0 <= i < a.items@.len() ==> function_self_replaced(
        #[trigger] a.items@[i],
        b.items@[i],
        name,
    )
}

impl Type {
    /// This type with every path segment called `Self` renamed to `name`.
    pub fn with_self_renamed(&self, name: &str) -> (r: Type)
        ensures
            type_self_replaced(*self, r, name@),
        decreases *self,
    {
        match self {
            Type::Path(p) => {
                let n = p.segments.len();
                let mut segments: Vec<Identifier> = Vec::new();
                let mut i: usize = 0;
                while i < n
                    invariant
                        0 <= i <= n,
                        n == p.segments@.len(),
                        segments@.len() == i,
                        forall|j: int| 0 <= j < i ==> #[trigger] segments@[j]@ == (if p@[j]
                            == "Self"@ {
                            name@
                        } else {
                            p@[j]
                        }),
                    decreases n - i,
                {
                    if str_eq(p.segments[i].name.as_str(), "Self") {
                        segments.push(Identifier::new(name));
                    } else {
                        segments.push(p.segments[i].clone());
                    }
                    i += 1;
                }
                let q = Path { segments };
                proof {
                    assert(q@ =~= p@.map_values(
                        |s: Seq<char>| if s == "Self"@ { name@ } else { s },
                    ));
                }
                Type::Path(q)
            },
            Type::Reference(q) => Type::Reference(
                Reference {
                    kind: q.kind,
                    mutability: q.mutability,
                    type_: Box::new(q.type_.with_self_renamed(name)),
                },
            ),
        }
    }
}

impl Implementation {
    /// Rewrites every `Self` in the items' parameter and return types to
    /// the given concrete name.
    pub fn replace_self_with_name(&mut self, name: &str)
        ensures
            implementation_self_replaced(*old(self), *final(self), name@),
    {
        let n = self.items.len();
        let mut i: usize = 0;
        while i < n
            invariant
                0 <= i <= n,
                n == self.items@.len(),
                self.items@.len() == old(self).items@.len(),
                self.attributes == old(self).attributes,
                self.self_ == old(self).self_,
                forall|j: int| i <= j < n ==> self.items@[j] == old(self).items@[j],
                forall|j: int| 0 <= j < i ==> function_self_replaced(
                    #[trigger] old(self).items@[j],
                    self.items@[j],
                    name@,
                ),
            decreases n - i,
        {
            let item = &self.items[i];
            let m = item.inputs.len();
            let mut inputs: Vec<Parameter> = Vec::new();
            let mut k: usize = 0;
            while k < m
                invariant
                    0 <= k <= m,
                    m == item.inputs@.len(),
                    inputs@.len() == k,
                    forall|j: int| 0 <= j < k ==> parameter_self_replaced(
                        #[trigger] item.inputs@[j],
                        inputs@[j],
                        name@,
                    ),
                decreases m - k,
            {
                let p = &item.inputs[k];
                inputs.push(
                    Parameter {
                        attributes: p.attributes.duplicate(),
                        identifier: p.identifier.clone(),
                        type_: p.type_.with_self_renamed(name),
                    },
                );
                k += 1;
            }
            let output = match &item.output {
                Some(t) => Some(t.with_self_renamed(name)),
                None => None,
            };
            let method = match &item.method {
                Some(mm) => Some(
                    crate::function::Method { mutability: mm.mutability, owner: mm.owner.duplicate() },
                ),
                None => None,
            };
            let replaced = Function {
                attributes: item.attributes.duplicate(),
                visibility: item.visibility,
                method,
                asyncness: item.asyncness,
                identifier: item.identifier.clone(),
                inputs,
                output,
            };
            self.items.set(i, replaced);
            i += 1;
        }
    }
}


impl PartialEq for Object {
    fn eq(&self, other: &Self) -> (r: bool) {
        self.equals(other)
    }
}

impl vstd::std_specs::cmp::PartialEqSpecImpl for Object {
    open spec fn obeys_eq_spec() -> bool {
        true
    }

    open spec fn eq_spec(&self, other: &Object) -> bool {
        object_eq(*self, *other)
    }
}

impl PartialEq for Implementation {
    fn eq(&self, other: &Self) -> (r: bool) {
        self.equals(other)
    }
}

impl vstd::std_specs::cmp::PartialEqSpecImpl for Implementation {
    open spec fn obeys_eq_spec() -> bool {
        true
    }

    open spec fn eq_spec(&self, other: &Implementation) -> bool {
        implementation_eq(*self, *other)
    }
}


/// Implementation equality is reflexive.
pub proof fn lemma_implementation_eq_reflexive(im: Implementation)
    ensures
        implementation_eq(im, im),
{
    crate::attribute::lemma_attribute_seq_eq_reflexive(im.attributes.attributes@);
    crate::types::lemma_type_eq_reflexive(im.self_);
    assert forall|i: int| 0 <= i < im.items@.len() implies function_eq(
        #[trigger] im.items@[i],
        im.items@[i],
    ) by {
        crate::function::lemma_function_eq_reflexive(im.items@[i]);
    }
}

/// Object equality is reflexive.
pub proof fn lemma_object_eq_reflexive(o: Object)
    ensures
        object_eq(o, o),
{
    crate::type_definition::lemma_type_definition_eq_reflexive(o.definition);
    assert forall|i: int| 0 <= i < o.implementations@.len() implies implementation_eq(
        #[trigger] o.implementations@[i],
        o.implementations@[i],
    ) by {
        lemma_implementation_eq_reflexive(o.implementations@[i]);
    }
}

} // verus!
