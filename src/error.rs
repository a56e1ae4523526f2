//! The error of parsing a claim.
use vstd::prelude::*;

verus! {

/// An error met while parsing claims.
#[derive(Debug, PartialEq, Eq)]
#[non_exhaustive]
pub enum Error {
    /// A text that is not a claim; the message names it.
    Syntax(String),
}

impl Error {
    /// The message that the error carries.
    pub open spec fn message(self) -> Seq<char> {
        match self {
            Error::Syntax(m) => m@,
        }
    }

    /// The message that the error carries.
    pub fn description(&self) -> (r: &str)
        ensures
            r@ == self.message(),
    {
        match self {
            Error::Syntax(m) => m.as_str(),
        }
    }
}

} // verus!
