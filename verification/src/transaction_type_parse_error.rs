//! The error produced when a transaction-type text is not recognised.

use vstd::prelude::*;
use vstd::string::StringExecFns;

verus! {

/// An unrecognised transaction-type text; the variant carries the
/// lowercased input for diagnostics.
#[derive(Debug)]
pub enum TransactionTypeParseError {
    InvalidType(String),
}

impl TransactionTypeParseError {
    /// A user-facing description of the error.
    pub fn message(&self) -> (r: String)
        ensures
            (match self {
                TransactionTypeParseError::InvalidType(s) => r@ == s@
                    + " is not a valid type"@,
            }),
    {
        match self {
            TransactionTypeParseError::InvalidType(s) => {
                let mut m = s.clone();
                m.append(" is not a valid type");
                m
            },
        }
    }
}

} // verus!
