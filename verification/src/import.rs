use vstd::prelude::*;
use crate::attribute::{Attributes, attributes_eq, lemma_attribute_seq_eq_symmetric};
use crate::identifier::Identifier;
use crate::path::Path;
use crate::text::str_eq;
use crate::type_definition::identifier_opt_eq;

verus! {

/// An import statement of a module: a path, optionally renamed, with its
/// own attributes and visibility.
#[derive(Debug)]
pub struct Import {
    pub attributes: Attributes,
    pub visibility: crate::visibility::Visibility,
    pub renaming: Option<Identifier>,
    pub path: Path,
}

/// Structural equality of two imports.
pub open spec fn import_eq(a: Import, b: Import) -> bool {
    &&& attributes_eq(a.attributes, b.attributes)
    &&& a.visibility == b.visibility
    &&& identifier_opt_eq(a.renaming, b.renaming)
    &&& a.path@ == b.path@
}

/// The import's terminal segment is the wildcard marker.
pub open spec fn spec_is_wildcard(i: Import) -> bool {
    i.path@.len() > 0 && i.path@.last() == "*"@
}

impl Import {
    /// Builds an import.
    pub fn new(
        attributes: Attributes,
        visibility: crate::visibility::Visibility,
        renaming: Option<Identifier>,
        path: Path,
    ) -> (r: Import)
        ensures
            r.attributes == attributes,
            r.visibility == visibility,
            r.renaming == renaming,
            r.path == path,
    {
        Import { attributes, visibility, renaming, path }
    }

    /// Whether this import's last segment is the wildcard marker.
    pub fn is_wildcard(&self) -> (r: bool)
        ensures
            r == spec_is_wildcard(*self),
    {
        match self.path.last() {
            Some(s) => str_eq(s.name.as_str(), "*"),
            None => false,
        }
    }

    /// Structural equality with another import.
    pub fn equals(&self, other: &Import) -> (r: bool)
        ensures
            r == import_eq(*self, *other),
    {
        let renamings = match (&self.renaming, &other.renaming) {
            (Some(x), Some(y)) => x == y,
            (None, None) => true,
            _ => false,
        };
        self.attributes.equals(&other.attributes) && self.visibility == other.visibility
            && renamings && self.path == other.path
    }

    /// A copy of this import.
    pub fn duplicate(&self) -> (r: Import)
        ensures
            import_eq(r, *self),
            import_eq(*self, r),
    {
        let renaming = match &self.renaming {
            Some(x) => Some(x.clone()),
            None => None,
        };
        Import {
            attributes: self.attributes.duplicate(),
            visibility: self.visibility,
            renaming,
            path: self.path.clone(),
        }
    }
}

impl Clone for Import {
    fn clone(&self) -> (r: Self)
        ensures
            import_eq(r, *self),
            import_eq(*self, r),
    {
        self.duplicate()
    }
}

impl PartialEq for Import {
    fn eq(&self, other: &Self) -> (r: bool) {
        self.equals(other)
    }
}

impl vstd::std_specs::cmp::PartialEqSpecImpl for Import {
    open spec fn obeys_eq_spec() -> bool {
        true
    }

    open spec fn eq_spec(&self, other: &Import) -> bool {
        import_eq(*self, *other)
    }
}


/// Import equality is reflexive.
pub proof fn lemma_import_eq_reflexive(i: Import)
    ensures
        import_eq(i, i),
{
    crate::attribute::lemma_attribute_seq_eq_reflexive(i.attributes.attributes@);
}

} // verus!
