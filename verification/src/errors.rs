//! The errors of the library.
use vstd::prelude::*;

verus! {

/// An error of the client, with its message.
#[derive(Debug, Clone, PartialEq, Eq)]
pub enum Error {
    /// An error described by its message alone.
    Msg(String),
}

impl Error {
    /// The message of the error.
    pub fn message(&self) -> (res: &String)
        ensures
            match self {
                Error::Msg(m) => res == m,
            },
    {
        match self {
            Error::Msg(m) => m,
        }
    }
}

} // verus!
