//! The closed set of ways in which a session can fail.

use vstd::prelude::*;

verus! {

/// What went wrong in a session, by kind.
#[derive(Clone, Copy, Debug, PartialEq, Eq, Structural)]
pub enum IdentError {
    /// The client sent no usable query line.
    NoQuery,
    /// The query was not two comma-separated port numbers.
    InvalidPort,
    /// The connection listing could not be obtained.
    Lookup,
}

impl IdentError {
    /// The fixed human-readable text of each kind.
    pub open spec fn description_text(self) -> Seq<char> {
        match self {
            IdentError::NoQuery => "no query received from client"@,
            IdentError::InvalidPort => "invalid port specification in query"@,
            IdentError::Lookup => "connection lookup failed"@,
        }
    }

    /// A short description of the error.
    pub fn description(&self) -> (text: &'static str)
        ensures
            text@ == self.description_text(),
    {
        match self {
            IdentError::NoQuery => "no query received from client",
            IdentError::InvalidPort => "invalid port specification in query",
            IdentError::Lookup => "connection lookup failed",
        }
    }
}

} // verus!
