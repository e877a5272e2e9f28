use vstd::prelude::*;
use crate::identifier::Identifier;
use crate::module::{Module, module_eq};

verus! {

/// The represented library: its name and the root of its module tree.
/// Persisting it to and from disk is I/O around the crate: the callers
/// serialize this value and write the text out.
#[derive(Debug)]
pub struct Library {
    pub identifier: Identifier,
    pub root_module: Module,
}

/// Structural equality of two libraries.
pub open spec fn library_eq(a: Library, b: Library) -> bool {
    a.identifier@ == b.identifier@ && module_eq(a.root_module, b.root_module)
}

impl Library {
    /// Builds a library around a root module.
    pub fn new(identifier: Identifier, root_module: Module) -> (r: Library)
        ensures
            r.identifier == identifier,
            r.root_module == root_module,
    {
        Library { identifier, root_module }
    }
}

impl Library {
    /// Structural equality with another library.
    pub fn equals(&self, other: &Library) -> (r: bool)
        ensures
            r == library_eq(*self, *other),
    {
        self.identifier == other.identifier && self.root_module.equals(&other.root_module)
    }
}

impl PartialEq for Library {
    fn eq(&self, other: &Self) -> (r: bool) {
        self.equals(other)
    }
}

impl vstd::std_specs::cmp::PartialEqSpecImpl for Library {
    open spec fn obeys_eq_spec() -> bool {
        true
    }

    open spec fn eq_spec(&self, other: &Library) -> bool {
        library_eq(*self, *other)
    }
}

impl crate::tree::HasIdentifier for Library {
    open spec fn spec_identifier(&self) -> Seq<char> {
        self.identifier@
    }

    fn identifier(&self) -> (r: &String) {
        &self.identifier.name
    }
}

} // verus!
