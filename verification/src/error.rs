//! The one way a bracket can fail.

use vstd::prelude::*;

verus! {

/// Why no bracket could be made.
#[derive(Debug, Clone, Copy, PartialEq, Eq, Structural)]
pub enum BracketError {
    /// There are no participants: a bracket needs at least one.
    EmptyInput,
}

impl BracketError {
    /// The message shown to the user for this error.
    pub fn message(&self) -> (text: String)
        ensures
            text@ == "no participants: a bracket needs at least one name"@,
    {
        "no participants: a bracket needs at least one name".to_owned()
    }
}

} // verus!
