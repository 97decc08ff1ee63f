//! The direction of a transaction: a two-valued tag with case-insensitive
//! parsing and a lowercase serialized form. Deposits order before
//! withdrawals.

use vstd::prelude::*;
use vstd::string::StringExecFns;
use crate::transaction_type_parse_error::TransactionTypeParseError;
use core::cmp::Ordering;

verus! {

/// Unicode lowercasing of a character sequence; the result is a function of
/// the characters alone.
pub uninterp spec fn lower_of(s: Seq<char>) -> Seq<char>;

/// Relies on std's `str::to_lowercase`: the lowercase equivalent of the
/// string, determined by its characters alone.
#[verifier::external_body]
fn lowercase(s: &str) -> (r: String)
    ensures
        r@ == lower_of(s@),
{
    s.to_lowercase()
}

/// The direction of a transaction.
#[derive(Clone, Copy, Debug, PartialEq, Eq, Structural, Hash)]
pub enum TransactionType {
    Deposit,
    Withdrawal,
}

impl TransactionType {
    /// The lowercase serialized text of the type.
    pub open spec fn text(self) -> Seq<char> {
        match self {
            TransactionType::Deposit => "deposit"@,
            TransactionType::Withdrawal => "withdrawal"@,
        }
    }

    /// The serialized textual form: always lowercase.
    pub fn as_text(&self) -> (r: &'static str)
        ensures
            r@ == self.text(),
    {
        match self {
            TransactionType::Deposit => "deposit",
            TransactionType::Withdrawal => "withdrawal",
        }
    }

    /// Parse a type from text, matching `"deposit"` and `"withdrawal"`
    /// case-insensitively; any other input is an error carrying the
    /// lowercased input.
    pub fn parse(s: &str) -> (r: Result<TransactionType, TransactionTypeParseError>)
        ensures
            (match r {
                Ok(t) => (t == TransactionType::Deposit && lower_of(s@) == "deposit"@) || (t
                    == TransactionType::Withdrawal && lower_of(s@) == "withdrawal"@),
                Err(e) => lower_of(s@) != "deposit"@ && lower_of(s@) != "withdrawal"@ && (
                e matches TransactionTypeParseError::InvalidType(t) && t@ == lower_of(s@)),
            }),
    {
        let lowered = lowercase(s);
        let deposit_text = String::from_str("deposit");
        let withdrawal_text = String::from_str("withdrawal");
        if lowered == deposit_text {
            Ok(TransactionType::Deposit)
        } else if lowered == withdrawal_text {
            Ok(TransactionType::Withdrawal)
        } else {
            Err(TransactionTypeParseError::InvalidType(lowered))
        }
    }
}

impl core::str::FromStr for TransactionType {
    type Err = TransactionTypeParseError;

    fn from_str(s: &str) -> Result<TransactionType, TransactionTypeParseError> {
        TransactionType::parse(s)
    }
}

impl PartialOrd for TransactionType {
    fn partial_cmp(&self, other: &TransactionType) -> (r: Option<Ordering>) {
        match (self, other) {
            (TransactionType::Deposit, TransactionType::Deposit) => Some(Ordering::Equal),
            (TransactionType::Deposit, TransactionType::Withdrawal) => Some(Ordering::Less),
            (TransactionType::Withdrawal, TransactionType::Deposit) => Some(Ordering::Greater),
            (TransactionType::Withdrawal, TransactionType::Withdrawal) => Some(Ordering::Equal),
        }
    }
}

impl vstd::std_specs::cmp::PartialOrdSpecImpl for TransactionType {
    open spec fn obeys_partial_cmp_spec() -> bool {
        true
    }

    /// Deposits order strictly before withdrawals.
    open spec fn partial_cmp_spec(&self, other: &TransactionType) -> Option<Ordering> {
        match (self, other) {
            (TransactionType::Deposit, TransactionType::Deposit) => Some(Ordering::Equal),
            (TransactionType::Deposit, TransactionType::Withdrawal) => Some(Ordering::Less),
            (TransactionType::Withdrawal, TransactionType::Deposit) => Some(Ordering::Greater),
            (TransactionType::Withdrawal, TransactionType::Withdrawal) => Some(Ordering::Equal),
        }
    }
}

} // verus!
