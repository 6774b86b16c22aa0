use vstd::prelude::*;

verus! {

/// What an operation on the store can fail with.
#[derive(Debug, PartialEq)]
pub enum Error {
    /// No record under the requested (owner, id).
    NotFound,
    /// A value given by the caller breaks a rule; the text says which.
    InvalidInput(String),
}

} // verus!
