use vstd::prelude::*;
use crate::attribute::{Attributes, attributes_eq};
use crate::identifier::Identifier;
use crate::types::{Type, type_eq};
use crate::visibility::Visibility;

verus! {

/// A structure field.
#[derive(Debug)]
pub struct Field {
    pub attributes: Attributes,
    pub visibility: Visibility,
    pub identifier: Option<Identifier>,
    pub type_: Type,
}

/// An enumeration variant.
#[derive(Debug)]
pub struct Variant {
    pub attributes: Attributes,
    pub identifier: Identifier,
}

/// A structure definition.
#[derive(Debug)]
pub struct Structure {
    pub attributes: Attributes,
    pub visibility: Visibility,
    pub identifier: Identifier,
    pub fields: Vec<Field>,
}

/// An enumeration definition.
#[derive(Debug)]
pub struct Enumeration {
    pub attributes: Attributes,
    pub visibility: Visibility,
    pub identifier: Identifier,
    pub variants: Vec<Variant>,
}

/// A type definition: what an object is, before its implementations are
/// merged in.
#[derive(Debug)]
pub enum TypeDefinition {
    Structure(Structure),
    Enumeration(Enumeration),
}

pub open spec fn identifier_opt_eq(a: Option<Identifier>, b: Option<Identifier>) -> bool {
    match (a, b) {
        (Some(x), Some(y)) => x@ == y@,
        (None, None) => true,
        _ => false,
    }
}

pub open spec fn field_eq(a: Field, b: Field) -> bool {
    &&& attributes_eq(a.attributes, b.attributes)
    &&& a.visibility == b.visibility
    &&& identifier_opt_eq(a.identifier, b.identifier)
    &&& type_eq(a.type_, b.type_)
}

pub open spec fn variant_eq(a: Variant, b: Variant) -> bool {
    attributes_eq(a.attributes, b.attributes) && a.identifier@ == b.identifier@
}

pub open spec fn field_seq_eq(a: Seq<Field>, b: Seq<Field>) -> bool {
    a.len() == b.len() && forall|i: int| 0 <= i < a.len() ==> field_eq(#[trigger] a[i], b[i])
}

pub open spec fn variant_seq_eq(a: Seq<Variant>, b: Seq<Variant>) -> bool {
    a.len() == b.len() && forall|i: int| 0 <= i < a.len() ==> variant_eq(#[trigger] a[i], b[i])
}

pub open spec fn structure_eq(a: Structure, b: Structure) -> bool {
    &&& attributes_eq(a.attributes, b.attributes)
    &&& a.visibility == b.visibility
    &&& a.identifier@ == b.identifier@
    &&& field_seq_eq(a.fields@, b.fields@)
}

pub open spec fn enumeration_eq(a: Enumeration, b: Enumeration) -> bool {
    &&& attributes_eq(a.attributes, b.attributes)
    &&& a.visibility == b.visibility
    &&& a.identifier@ == b.identifier@
    &&& variant_seq_eq(a.variants@, b.variants@)
}

pub open spec fn type_definition_eq(a: TypeDefinition, b: TypeDefinition) -> bool {
    match (a, b) {
        (TypeDefinition::Structure(x), TypeDefinition::Structure(y)) => structure_eq(x, y),
        (TypeDefinition::Enumeration(x), TypeDefinition::Enumeration(y)) => enumeration_eq(x, y),
        _ => false,
    }
}

/// The identifier a definition declares.
pub open spec fn spec_definition_identifier(d: TypeDefinition) -> Seq<char> {
    match d {
        TypeDefinition::Structure(s) => s.identifier@,
        TypeDefinition::Enumeration(e) => e.identifier@,
    }
}

/// The visibility a definition declares.
pub open spec fn spec_definition_visibility(d: TypeDefinition) -> Visibility {
    match d {
        TypeDefinition::Structure(s) => s.visibility,
        TypeDefinition::Enumeration(e) => e.visibility,
    }
}

impl Field {
    pub fn equals(&self, other: &Field) -> (r: bool)
        ensures
            r == field_eq(*self, *other),
    {
        let ids = match (&self.identifier, &other.identifier) {
            (Some(x), Some(y)) => x == y,
            (None, None) => true,
            _ => false,
        };
        self.attributes.equals(&other.attributes) && self.visibility == other.visibility && ids
            && self.type_.equals(&other.type_)
    }

    pub fn duplicate(&self) -> (r: Field)
        ensures
            field_eq(r, *self),
    {
        let identifier = match &self.identifier {
            Some(x) => Some(x.clone()),
            None => None,
        };
        Field {
            attributes: self.attributes.duplicate(),
            visibility: self.visibility,
            identifier,
            type_: self.type_.duplicate(),
        }
    }
}

impl Variant {
    pub fn equals(&self, other: &Variant) -> (r: bool)
        ensures
            r == variant_eq(*self, *other),
    {
        self.attributes.equals(&other.attributes) && self.identifier == other.identifier
    }

    pub fn duplicate(&self) -> (r: Variant)
        ensures
            variant_eq(r, *self),
    {
        Variant { attributes: self.attributes.duplicate(), identifier: self.identifier.clone() }
    }
}

impl Structure {
    pub fn equals(&self, other: &Structure) -> (r: bool)
        ensures
            r == structure_eq(*self, *other),
    {
        if !(self.attributes.equals(&other.attributes) && self.visibility == other.visibility
            && self.identifier == other.identifier) {
            return false;
        }
        if self.fields.len() != other.fields.len() {
            return false;
        }
        let n = self.fields.len();
        let mut i: usize = 0;
        while i < n
            invariant
                0 <= i <= n,
                n == self.fields@.len(),
                n == other.fields@.len(),
                attributes_eq(self.attributes, other.attributes),
                self.visibility == other.visibility,
                self.identifier@ == other.identifier@,
                forall|j: int| 0 <= j < i ==> field_eq(#[trigger] self.fields@[j], other.fields@[j]),
            decreases n - i,
        {
            if !self.fields[i].equals(&other.fields[i]) {
                return false;
            }
            i += 1;
        }
        true
    }

    pub fn duplicate(&self) -> (r: Structure)
        ensures
            structure_eq(r, *self),
    {
        let n = self.fields.len();
        let mut fields: Vec<Field> = Vec::new();
        let mut i: usize = 0;
        while i < n
            invariant
                0 <= i <= n,
                n == self.fields@.len(),
                fields@.len() == i,
                forall|j: int| 0 <= j < i ==> field_eq(#[trigger] fields@[j], self.fields@[j]),
            decreases n - i,
        {
            fields.push(self.fields[i].duplicate());
            i += 1;
        }
        Structure {
            attributes: self.attributes.duplicate(),
            visibility: self.visibility,
            identifier: self.identifier.clone(),
            fields,
        }
    }
}

impl Enumeration {
    pub fn equals(&self, other: &Enumeration) -> (r: bool)
        ensures
            r == enumeration_eq(*self, *other),
    {
        if !(self.attributes.equals(&other.attributes) && self.visibility == other.visibility
            && self.identifier == other.identifier) {
            return false;
        }
        if self.variants.len() != other.variants.len() {
            return false;
        }
        let n = self.variants.len();
        let mut i: usize = 0;
        while i < n
            invariant
                0 <= i <= n,
                n == self.variants@.len(),
                n == other.variants@.len(),
                attributes_eq(self.attributes, other.attributes),
                self.visibility == other.visibility,
                self.identifier@ == other.identifier@,
                forall|j: int| 0 <= j < i ==> variant_eq(
                    #[trigger] self.variants@[j],
                    other.variants@[j],
                ),
            decreases n - i,
        {
            if !self.variants[i].equals(&other.variants[i]) {
                return false;
            }
            i += 1;
        }
        true
    }

    pub fn duplicate(&self) -> (r: Enumeration)
        ensures
            enumeration_eq(r, *self),
    {
        let n = self.variants.len();
        let mut variants: Vec<Variant> = Vec::new();
        let mut i: usize = 0;
        while i < n
            invariant
                0 <= i <= n,
                n == self.variants@.len(),
                variants@.len() == i,
                forall|j: int| 0 <= j < i ==> variant_eq(#[trigger] variants@[j], self.variants@[j]),
            decreases n - i,
        {
            variants.push(self.variants[i].duplicate());
            i += 1;
        }
        Enumeration {
            attributes: self.attributes.duplicate(),
            visibility: self.visibility,
            identifier: self.identifier.clone(),
            variants,
        }
    }
}

impl TypeDefinition {
    /// The identifier this definition declares.
    pub fn identifier(&self) -> (r: &Identifier)
        ensures
            r@ == spec_definition_identifier(*self),
    {
        match self {
            TypeDefinition::Structure(s) => &s.identifier,
            TypeDefinition::Enumeration(e) => &e.identifier,
        }
    }

    /// The visibility this definition declares.
    pub fn visibility(&self) -> (r: Visibility)
        ensures
            r == spec_definition_visibility(*self),
    {
        match self {
            TypeDefinition::Structure(s) => s.visibility,
            TypeDefinition::Enumeration(e) => e.visibility,
        }
    }

    pub fn equals(&self, other: &TypeDefinition) -> (r: bool)
        ensures
            r == type_definition_eq(*self, *other),
    {
        match (self, other) {
            (TypeDefinition::Structure(x), TypeDefinition::Structure(y)) => x.equals(y),
            (TypeDefinition::Enumeration(x), TypeDefinition::Enumeration(y)) => x.equals(y),
            _ => false,
        }
    }

    pub fn duplicate(&self) -> (r: TypeDefinition)
        ensures
            type_definition_eq(r, *self),
    {
        match self {
            TypeDefinition::Structure(x) => TypeDefinition::Structure(x.duplicate()),
            TypeDefinition::Enumeration(x) => TypeDefinition::Enumeration(x.duplicate()),
        }
    }
}

impl Clone for TypeDefinition {
    fn clone(&self) -> (r: Self)
        ensures
            type_definition_eq(r, *self),
    {
        self.duplicate()
    }
}

impl PartialEq for Field {
    fn eq(&self, other: &Self) -> (r: bool) {
        self.equals(other)
    }
}

impl vstd::std_specs::cmp::PartialEqSpecImpl for Field {
    open spec fn obeys_eq_spec() -> bool {
        true
    }

    open spec fn eq_spec(&self, other: &Field) -> bool {
        field_eq(*self, *other)
    }
}

impl PartialEq for Variant {
    fn eq(&self, other: &Self) -> (r: bool) {
        self.equals(other)
    }
}

impl vstd::std_specs::cmp::PartialEqSpecImpl for Variant {
    open spec fn obeys_eq_spec() -> bool {
        true
    }

    open spec fn eq_spec(&self, other: &Variant) -> bool {
        variant_eq(*self, *other)
    }
}

impl PartialEq for TypeDefinition {
    fn eq(&self, other: &Self) -> (r: bool) {
        self.equals(other)
    }
}

impl vstd::std_specs::cmp::PartialEqSpecImpl for TypeDefinition {
    open spec fn obeys_eq_spec() -> bool {
        true
    }

    open spec fn eq_spec(&self, other: &TypeDefinition) -> bool {
        type_definition_eq(*self, *other)
    }
}


/// Definition equality is reflexive.
pub proof fn lemma_type_definition_eq_reflexive(d: TypeDefinition)
    ensures
        type_definition_eq(d, d),
{
    match d {
        TypeDefinition::Structure(s) => {
            crate::attribute::lemma_attribute_seq_eq_reflexive(s.attributes.attributes@);
            assert forall|i: int| 0 <= i < s.fields@.len() implies field_eq(
                #[trigger] s.fields@[i],
                s.fields@[i],
            ) by {
                crate::attribute::lemma_attribute_seq_eq_reflexive(
                    s.fields@[i].attributes.attributes@,
                );
                crate::types::lemma_type_eq_reflexive(s.fields@[i].type_);
            }
        },
        TypeDefinition::Enumeration(e) => {
            crate::attribute::lemma_attribute_seq_eq_reflexive(e.attributes.attributes@);
            assert forall|i: int| 0 <= i < e.variants@.len() implies variant_eq(
                #[trigger] e.variants@[i],
                e.variants@[i],
            ) by {
                crate::attribute::lemma_attribute_seq_eq_reflexive(
                    e.variants@[i].attributes.attributes@,
                );
            }
        },
    }
}

} // verus!
