use vstd::prelude::*;

verus! {

/// Errors surfaced by the session cache and the ASPA object rules.
#[derive(Debug)]
pub enum Error {
    /// A bearer token that cannot be turned back into a session.
    InvalidCredentials(String),
    /// Any other failure, with a description of its cause.
    Custom(String),
}

impl Error {
    /// The description carried by the error.
    pub fn message(&self) -> (r: &String)
        ensures
            r == match self {
                Error::InvalidCredentials(m) => m,
                Error::Custom(m) => m,
            },
    {
        match self {
            Error::InvalidCredentials(m) => m,
            Error::Custom(m) => m,
        }
    }
}

} // verus!
