//! The errors the library reports.
use vstd::prelude::*;

verus! {

/// What went wrong, in the words the caller is shown.
#[derive(Debug)]
pub enum Error {
    /// A command was asked for with settings that contradict each other.
    IllegalArguments(String),
    /// An input could not be read as what it was meant to be.
    ParseError(String),
    /// A stream refused what was written to it.
    IoError(String),
}

impl Error {
    /// The sentence the error carries.
    pub fn message(&self) -> (r: String)
        ensures
            r@ == match self {
                Error::IllegalArguments(m) => m@,
                Error::ParseError(m) => m@,
                Error::IoError(m) => m@,
            },
    {
        match self {
            Error::IllegalArguments(m) => m.clone(),
            Error::ParseError(m) => m.clone(),
            Error::IoError(m) => m.clone(),
        }
    }
}

} // verus!
