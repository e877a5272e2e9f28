use vstd::prelude::*;

verus! {

/// Error reported by parsing and finalization steps.
#[derive(Debug)]
pub enum Error {
    Message(String),
}

impl Error {
    /// The error's message text.
    pub fn message(&self) -> (r: &String)
        ensures
            self matches Error::Message(m) && r@ == m@,
    {
        match self {
            Error::Message(m) => m,
        }
    }
}

} // verus!
