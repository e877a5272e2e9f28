use vstd::prelude::*;

verus! {

/// Visibility of an entity, as generators consume it.
#[derive(Debug, Clone, Copy, PartialEq, Eq, Structural)]
pub enum Visibility {
    Public,
    Private,
    Inherited,
}

impl Visibility {
    /// Whether this is `Public`.
    pub fn is_public(&self) -> (r: bool)
        ensures
            r == (*self == Visibility::Public),
    {
        match self {
            Visibility::Public => true,
            _ => false,
        }
    }
}

} // verus!
