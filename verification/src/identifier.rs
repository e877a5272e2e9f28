use vstd::prelude::*;
use vstd::string::*;
use crate::text::str_eq;

verus! {

/// Navigation kind of an identifier, derived from its name: the three
/// reserved segment names and everything else.
#[derive(Debug, Clone, Copy, PartialEq, Eq, Structural)]
pub enum IdentifierKind {
    Root,
    SelfRef,
    SuperRef,
    Other,
}

/// A canonical name: the leaf value that paths, entities and sections
/// are addressed by.
#[derive(Debug)]
pub struct Identifier {
    pub name: String,
}

impl View for Identifier {
    type V = Seq<char>;

    open spec fn view(&self) -> Seq<char> {
        self.name@
    }
}

/// The navigation kind a name denotes.
pub open spec fn spec_kind_of(name: Seq<char>) -> IdentifierKind {
    if name == "root"@ {
        IdentifierKind::Root
    } else if name == "self"@ {
        IdentifierKind::SelfRef
    } else if name == "super"@ {
        IdentifierKind::SuperRef
    } else {
        IdentifierKind::Other
    }
}

impl Identifier {
    /// Builds an identifier from a name.
    pub fn new(name: &str) -> (r: Self)
        ensures
            r@ == name@,
    {
        Identifier { name: String::from_str(name) }
    }

    /// The navigation kind of this identifier.
    pub fn kind(&self) -> (r: IdentifierKind)
        ensures
            r == spec_kind_of(self@),
    {
        if str_eq(self.name.as_str(), "root") {
            IdentifierKind::Root
        } else if str_eq(self.name.as_str(), "self") {
            IdentifierKind::SelfRef
        } else if str_eq(self.name.as_str(), "super") {
            IdentifierKind::SuperRef
        } else {
            IdentifierKind::Other
        }
    }
}

impl Clone for Identifier {
    fn clone(&self) -> (r: Self)
        ensures
            r == *self,
    {
        Identifier { name: self.name.clone() }
    }
}

impl PartialEq for Identifier {
    fn eq(&self, other: &Self) -> (r: bool) {
        self.name == other.name
    }
}

impl vstd::std_specs::cmp::PartialEqSpecImpl for Identifier {
    open spec fn obeys_eq_spec() -> bool {
        true
    }

    open spec fn eq_spec(&self, other: &Identifier) -> bool {
        self@ == other@
    }
}

} // verus!
