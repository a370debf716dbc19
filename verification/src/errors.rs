//! Error values returned by the library.

use vstd::prelude::*;

verus! {

/// Reasons an input is rejected by a validation rule.
#[derive(Debug, Clone, PartialEq, Eq)]
pub enum ValidationError {
    InvalidInput(String),
}

/// Failures reported by storage lookups.
#[derive(Debug, Clone, PartialEq, Eq)]
pub enum DatabaseError {
    NotFound(String),
}

/// The library's error type.
#[derive(Debug, Clone, PartialEq, Eq)]
pub enum Error {
    Validation(ValidationError),
    Database(DatabaseError),
    /// A decimal computation left the range that a 96-bit decimal can hold.
    Calculation(String),
}

pub type Result<T> = core::result::Result<T, Error>;

/// An invalid-input error carrying the message `msg`.
pub open spec fn is_invalid_input(e: Error, msg: Seq<char>) -> bool {
    e matches Error::Validation(ValidationError::InvalidInput(m)) && m@ == msg
}

/// A not-found error carrying the message `msg`.
pub open spec fn is_not_found(e: Error, msg: Seq<char>) -> bool {
    e matches Error::Database(DatabaseError::NotFound(m)) && m@ == msg
}

/// The error that a validation rule returns for a message.
pub fn invalid(msg: String) -> (e: Error)
    ensures
        e == Error::Validation(ValidationError::InvalidInput(msg)),
{
    Error::Validation(ValidationError::InvalidInput(msg))
}

/// The error for a record that is not found.
pub fn not_found(msg: String) -> (e: Error)
    ensures
        e == Error::Database(DatabaseError::NotFound(msg)),
{
    Error::Database(DatabaseError::NotFound(msg))
}

impl Error {
    /// The human-readable message of the error.
    pub fn message(&self) -> (s: String)
        ensures
            s@ == self.spec_message(),
    {
        match self {
            Error::Validation(ValidationError::InvalidInput(m)) => {
                let mut s = String::from_str("Invalid input: ");
                s.append(m.as_str());
                s
            },
            Error::Database(DatabaseError::NotFound(m)) => {
                let mut s = String::from_str("Not found: ");
                s.append(m.as_str());
                s
            },
            Error::Calculation(m) => {
                let mut s = String::from_str("Calculation error: ");
                s.append(m.as_str());
                s
            },
        }
    }

    pub open spec fn spec_message(&self) -> Seq<char> {
        match self {
            Error::Validation(ValidationError::InvalidInput(m)) => "Invalid input: "@ + m@,
            Error::Database(DatabaseError::NotFound(m)) => "Not found: "@ + m@,
            Error::Calculation(m) => "Calculation error: "@ + m@,
        }
    }
}

} // verus!
