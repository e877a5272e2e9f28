use vstd::prelude::*;
use crate::identifier::Identifier;
use crate::literal::{Literal, literal_eq};

verus! {

/// A source-level decorator: a bare flag, a named literal value, or a
/// named group of nested attributes.
#[derive(Debug)]
pub enum Attribute {
    Flag(Identifier),
    Named(Identifier, Literal),
    Group(Identifier, Attributes),
}

/// An ordered list of attributes.
#[derive(Debug)]
pub struct Attributes {
    pub attributes: Vec<Attribute>,
}

/// Structural equality of two attributes.
pub open spec fn attribute_eq(a: Attribute, b: Attribute) -> bool
    decreases a,
{
    match (a, b) {
        (Attribute::Flag(x), Attribute::Flag(y)) => x@ == y@,
        (Attribute::Named(x, l), Attribute::Named(y, m)) => x@ == y@ && literal_eq(l, m),
        (Attribute::Group(x, g), Attribute::Group(y, h)) => x@ == y@ && attribute_seq_eq(
            g.attributes@,
            h.attributes@,
        ),
        _ => false,
    }
}

/// Pairwise structural equality of two attribute sequences.
pub open spec fn attribute_seq_eq(a: Seq<Attribute>, b: Seq<Attribute>) -> bool
    decreases a,
{
    if a.len() != b.len() {
        false
    } else if a.len() == 0 {
        true
    } else {
        attribute_eq(a[0], b[0]) && attribute_seq_eq(a.drop_first(), b.drop_first())
    }
}

/// Structural equality of two attribute lists.
pub open spec fn attributes_eq(a: Attributes, b: Attributes) -> bool {
    attribute_seq_eq(a.attributes@, b.attributes@)
}

/// `attribute_seq_eq` holds exactly when the sequences match index by
/// index.
pub proof fn lemma_attribute_seq_eq_index(a: Seq<Attribute>, b: Seq<Attribute>)
    ensures
        attribute_seq_eq(a, b) <==> (a.len() == b.len() && forall|i: int|
            0 <= i < a.len() ==> attribute_eq(#[trigger] a[i], b[i])),
    decreases a,
{
    if a.len() == b.len() && a.len() > 0 {
        lemma_attribute_seq_eq_index(a.drop_first(), b.drop_first());
        if attribute_seq_eq(a, b) {
            assert forall|i: int| 0 <= i < a.len() implies attribute_eq(#[trigger] a[i], b[i]) by {
                if i > 0 {
                    assert(a[i] == a.drop_first()[i - 1]);
                    assert(b[i] == b.drop_first()[i - 1]);
                }
            }
        } else {
            if a.len() == b.len() && forall|i: int|
                0 <= i < a.len() ==> attribute_eq(#[trigger] a[i], b[i]) {
                assert forall|i: int|
                    0 <= i < a.drop_first().len() implies attribute_eq(
                    #[trigger] a.drop_first()[i],
                    b.drop_first()[i],
                ) by {
                    assert(a.drop_first()[i] == a[i + 1]);
                    assert(b.drop_first()[i] == b[i + 1]);
                }
                assert(attribute_eq(a[0], b[0]));
            }
        }
    }
}

/// Attribute equality is symmetric.
pub proof fn lemma_attribute_eq_symmetric(a: Attribute, b: Attribute)
    requires
        attribute_eq(a, b),
    ensures
        attribute_eq(b, a),
    decreases a,
{
    match (a, b) {
        (Attribute::Group(x, g), Attribute::Group(y, h)) => {
            lemma_attribute_seq_eq_symmetric(g.attributes@, h.attributes@);
        },
        _ => {},
    }
}

/// Attribute sequence equality is symmetric.
pub proof fn lemma_attribute_seq_eq_symmetric(a: Seq<Attribute>, b: Seq<Attribute>)
    requires
        attribute_seq_eq(a, b),
    ensures
        attribute_seq_eq(b, a),
    decreases a,
{
    if a.len() == b.len() && a.len() > 0 {
        lemma_attribute_eq_symmetric(a[0], b[0]);
        lemma_attribute_seq_eq_symmetric(a.drop_first(), b.drop_first());
    }
}

/// Attribute equality is reflexive.
pub proof fn lemma_attribute_eq_reflexive(a: Attribute)
    ensures
        attribute_eq(a, a),
    decreases a,
{
    match a {
        Attribute::Group(_, g) => {
            lemma_attribute_seq_eq_reflexive(g.attributes@);
        },
        _ => {},
    }
}

/// Attribute sequence equality is reflexive.
pub proof fn lemma_attribute_seq_eq_reflexive(s: Seq<Attribute>)
    ensures
        attribute_seq_eq(s, s),
    decreases s,
{
    if s.len() > 0 {
        lemma_attribute_eq_reflexive(s[0]);
        lemma_attribute_seq_eq_reflexive(s.drop_first());
    }
}

/// `a` carries the marker group an "ignore" directive uses: a group
/// called `ligen` holding exactly one empty group called `ignore`.
pub open spec fn is_ignore_attribute(a: Attribute) -> bool {
    &&& a matches Attribute::Group(id, g)
    &&& id@ == "ligen"@
    &&& g.attributes@.len() == 1
    &&& g.attributes@[0] matches Attribute::Group(id2, g2)
    &&& id2@ == "ignore"@
    &&& g2.attributes@.len() == 0
}

impl Attribute {
    /// Structural equality with another attribute.
    pub fn equals(&self, other: &Attribute) -> (r: bool)
        ensures
            r == attribute_eq(*self, *other),
        decreases *self,
    {
        match (self, other) {
            (Attribute::Flag(x), Attribute::Flag(y)) => x == y,
            (Attribute::Named(x, l), Attribute::Named(y, m)) => x == y && l.equals(m),
            (Attribute::Group(x, g), Attribute::Group(y, h)) => x == y && g.equals(h),
            _ => false,
        }
    }

    /// A copy of this attribute.
    pub fn duplicate(&self) -> (r: Attribute)
        ensures
            attribute_eq(r, *self),
            attribute_eq(*self, r),
        decreases *self,
    {
        let r = match self {
            Attribute::Flag(x) => Attribute::Flag(x.clone()),
            Attribute::Named(x, l) => Attribute::Named(x.clone(), l.duplicate()),
            Attribute::Group(x, g) => Attribute::Group(x.clone(), g.duplicate()),
        };
        proof {
            lemma_attribute_eq_symmetric(r, *self);
        }
        r
    }
}

impl Attributes {
    /// The empty attribute list.
    pub fn empty() -> (r: Attributes)
        ensures
            r.attributes@.len() == 0,
    {
        Attributes { attributes: Vec::new() }
    }

    /// Structural equality with another attribute list.
    pub fn equals(&self, other: &Attributes) -> (r: bool)
        ensures
            r == attributes_eq(*self, *other),
        decreases *self,
    {
        if self.attributes.len() != other.attributes.len() {
            proof {
                lemma_attribute_seq_eq_index(self.attributes@, other.attributes@);
            }
            return false;
        }
        let n = self.attributes.len();
        let mut i: usize = 0;
        while i < n
            invariant
                0 <= i <= n,
                n == self.attributes@.len(),
                n == other.attributes@.len(),
                forall|j: int| 0 <= j < i ==> attribute_eq(
                    #[trigger] self.attributes@[j],
                    other.attributes@[j],
                ),
            decreases n - i,
        {
            if !self.attributes[i].equals(&other.attributes[i]) {
                proof {
                    lemma_attribute_seq_eq_index(self.attributes@, other.attributes@);
                }
                return false;
            }
            i += 1;
        }
        proof {
            lemma_attribute_seq_eq_index(self.attributes@, other.attributes@);
        }
        true
    }

    /// A copy of this attribute list.
    pub fn duplicate(&self) -> (r: Attributes)
        ensures
            attributes_eq(r, *self),
            attributes_eq(*self, r),
        decreases *self,
    {
        let n = self.attributes.len();
        let mut attributes: Vec<Attribute> = Vec::new();
        let mut i: usize = 0;
        while i < n
            invariant
                0 <= i <= n,
                n == self.attributes@.len(),
                attributes@.len() == i,
                forall|j: int| 0 <= j < i ==> attribute_eq(
                    #[trigger] attributes@[j],
                    self.attributes@[j],
                ),
            decreases n - i,
        {
            attributes.push(self.attributes[i].duplicate());
            i += 1;
        }
        let r = Attributes { attributes };
        proof {
            lemma_attribute_seq_eq_index(r.attributes@, self.attributes@);
            lemma_attribute_seq_eq_symmetric(r.attributes@, self.attributes@);
        }
        r
    }

    /// Whether the list holds an attribute structurally equal to `probe`.
    pub fn contains(&self, probe: &Attribute) -> (r: bool)
        ensures
            r == exists|i: int|
                0 <= i < self.attributes@.len() && attribute_eq(
                    #[trigger] self.attributes@[i],
                    *probe,
                ),
    {
        let n = self.attributes.len();
        let mut i: usize = 0;
        while i < n
            invariant
                0 <= i <= n,
                n == self.attributes@.len(),
                forall|j: int| 0 <= j < i ==> !attribute_eq(#[trigger] self.attributes@[j], *probe),
            decreases n - i,
        {
            if self.attributes[i].equals(probe) {
                return true;
            }
            i += 1;
        }
        false
    }

    /// Appends one attribute.
    pub fn push(&mut self, attribute: Attribute)
        ensures
            final(self).attributes@ == old(self).attributes@.push(attribute),
    {
        self.attributes.push(attribute);
    }

    /// Number of attributes in the list.
    pub fn len(&self) -> (r: usize)
        ensures
            r == self.attributes@.len(),
    {
        self.attributes.len()
    }

    /// Whether the list is empty.
    pub fn is_empty(&self) -> (r: bool)
        ensures
            r == (self.attributes@.len() == 0),
    {
        self.attributes.len() == 0
    }
}

impl Clone for Attribute {
    fn clone(&self) -> (r: Self)
        ensures
            attribute_eq(r, *self),
    {
        self.duplicate()
    }
}

impl Clone for Attributes {
    fn clone(&self) -> (r: Self)
        ensures
            attributes_eq(r, *self),
    {
        self.duplicate()
    }
}

impl PartialEq for Attribute {
    fn eq(&self, other: &Self) -> (r: bool) {
        self.equals(other)
    }
}

impl vstd::std_specs::cmp::PartialEqSpecImpl for Attribute {
    open spec fn obeys_eq_spec() -> bool {
        true
    }

    open spec fn eq_spec(&self, other: &Attribute) -> bool {
        attribute_eq(*self, *other)
    }
}

impl PartialEq for Attributes {
    fn eq(&self, other: &Self) -> (r: bool) {
        self.equals(other)
    }
}

impl vstd::std_specs::cmp::PartialEqSpecImpl for Attributes {
    open spec fn obeys_eq_spec() -> bool {
        true
    }

    open spec fn eq_spec(&self, other: &Attributes) -> bool {
        attributes_eq(*self, *other)
    }
}

} // verus!
