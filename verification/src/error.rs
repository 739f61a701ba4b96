//! Errors of the state-machine library.

use vstd::prelude::*;

verus! {

/// `std::io::Error`, carried as it is by `HsmError::Io`; nothing is assumed
/// of what it holds.
#[verifier::external_type_specification]
#[verifier::external_body]
pub struct ExIoError(std::io::Error);

/// What went wrong, with a message.
#[derive(Debug)]
pub enum HsmError {
    Validation(String),
    Runtime(String),
    StateMachine(String),
    Path(String),
    Event(String),
    Context(String),
    Io(std::io::Error),
    Channel(String),
}

impl HsmError {
    /// Whether this is a model validation failure.
    pub fn is_validation(&self) -> (r: bool)
        ensures
            r == (self is Validation),
    {
        match self {
            HsmError::Validation(_) => true,
            _ => false,
        }
    }
}

} // verus!
