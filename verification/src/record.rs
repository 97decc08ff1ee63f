//! A check-register entry: an identifier, a transaction, and an optional
//! link to the entry immediately preceding it in the account's chain. The
//! chain is exclusively owned and therefore acyclic, and carries the
//! running-balance computation. Two records are equal exactly when their
//! identifiers are — equality is by identity, not structure.

use vstd::prelude::*;
use vstd::std_specs::cmp::PartialEqSpec;
use vstd::string::StringExecFns;
use crate::chars::{chars_string, split_char, split_char_seq, str_chars, push_str_chars};
use crate::transaction::Transaction;
use crate::transaction_type::TransactionType;

verus! {

/// A check-register entry.
#[derive(Debug)]
pub struct Record {
    pub id: String,
    pub transaction: Transaction,
    pub previous_record: Option<Box<Record>>,
}

/// Relies on uuid's `Uuid::new_v4` and its hyphenated formatting: a fresh
/// random identifier in the 36-character hyphenated form.
#[verifier::external_body]
pub(crate) fn new_unique_id() -> (r: String)
    ensures
        r@.len() == 36,
{
    uuid::Uuid::new_v4().hyphenated().to_string()
}

impl Record {
    /// Whether the entry and the whole chain behind it carry a nonempty
    /// identifier and a real date.
    pub open spec fn wf(self) -> bool
        decreases self,
    {
        &&& self.id@.len() > 0
        &&& self.transaction.wf()
        &&& (match self.previous_record {
            Some(p) => p.wf(),
            None => true,
        })
    }

    /// The signed contribution of the entry's own transaction, in
    /// hundredths: positive for a deposit, negative for a withdrawal.
    pub open spec fn signed_amount(self) -> int {
        if self.transaction.transaction_type == TransactionType::Deposit {
            self.transaction.amount.cents as int
        } else {
            -(self.transaction.amount.cents as int)
        }
    }

    /// The running balance at this entry: the balance of the chain before
    /// it, plus its own signed contribution.
    pub open spec fn spec_balance(self) -> int
        decreases self,
    {
        (match self.previous_record {
            Some(p) => p.spec_balance(),
            None => 0,
        }) + self.signed_amount()
    }

    /// Whether the running balance of every suffix of the chain lies
    /// within machine range.
    pub open spec fn balance_fits(self) -> bool
        decreases self,
    {
        &&& i128::MIN <= self.spec_balance() <= i128::MAX
        &&& (match self.previous_record {
            Some(p) => p.balance_fits(),
            None => true,
        })
    }

    /// The running balance at this entry, in hundredths: the balance of
    /// the chain before it plus this transaction's amount for a deposit,
    /// minus it for a withdrawal.
    pub fn balance(&self) -> (r: i128)
        requires
            self.balance_fits(),
        ensures
            r == self.spec_balance(),
        decreases *self,
    {
        let prior: i128 = match &self.previous_record {
            Some(p) => p.balance(),
            None => 0,
        };
        let own: i128 = self.transaction.amount.cents as i128;
        match self.transaction.transaction_type {
            TransactionType::Deposit => prior + own,
            TransactionType::Withdrawal => prior - own,
        }
    }

    /// An empty entry: a fresh identifier, a default transaction, no
    /// previous entry.
    pub fn new() -> (r: Record)
        ensures
            r.id@.len() == 36,
            r.transaction.wf(),
            r.transaction.check_number is None,
            r.transaction.category is None,
            r.transaction.vendor@ == Seq::<char>::empty(),
            r.transaction.memo@ == Seq::<char>::empty(),
            r.transaction.amount.cents == 0,
            r.transaction.transaction_type == TransactionType::Withdrawal,
            !r.transaction.is_reconciled,
            r.previous_record is None,
            r.wf(),
    {
        Record { id: new_unique_id(), transaction: Transaction::new(), previous_record: None }
    }

    /// An entry from an identifier and a transaction. An empty identifier
    /// is replaced by a fresh 36-character one; a nonempty identifier is
    /// used verbatim.
    pub fn from(id: &str, transaction: Transaction) -> (r: Record)
        ensures
            id@.len() > 0 ==> r.id@ == id@,
            id@.len() == 0 ==> r.id@.len() == 36,
            r.transaction == transaction,
            r.previous_record is None,
            transaction.wf() ==> r.wf(),
    {
        Record::from_with_previous(id, transaction, None)
    }

    /// An entry from an identifier, a transaction, and the entry that
    /// precedes it in the chain. An empty identifier is replaced by a
    /// fresh 36-character one.
    pub fn from_with_previous(
        id: &str,
        transaction: Transaction,
        previous: Option<Box<Record>>,
    ) -> (r: Record)
        ensures
            id@.len() > 0 ==> r.id@ == id@,
            id@.len() == 0 ==> r.id@.len() == 36,
            r.transaction == transaction,
            r.previous_record == previous,
            (transaction.wf() && (match previous {
                Some(p) => p.wf(),
                None => true,
            })) ==> r.wf(),
    {
        let id_value: String = if id.is_empty() {
            new_unique_id()
        } else {
            String::from_str(id)
        };
        Record { id: id_value, transaction, previous_record: previous }
    }

    /// The tab-separated text of the entry: the identifier, then the
    /// transaction's own columns. The chain link is never serialized.
    pub open spec fn tsv_chars(self) -> Seq<char> {
        self.id@ + seq!['\t'] + self.transaction.tsv_chars()
    }

    /// Append the tab-separated text of the entry.
    pub fn push_tsv_chars(&self, out: &mut Vec<char>)
        ensures
            final(out)@ == old(out)@ + self.tsv_chars(),
    {
        let ghost pre = out@;
        push_str_chars(out, self.id.as_str());
        out.push('\t');
        self.transaction.push_tsv_chars(out);
        proof {
            assert(out@ =~= pre + self.tsv_chars());
        }
    }

    /// The tab-separated text of the entry.
    pub fn to_string(&self) -> (r: String)
        ensures
            r@ == self.tsv_chars(),
    {
        let mut out: Vec<char> = Vec::new();
        self.push_tsv_chars(&mut out);
        chars_string(&out)
    }

    /// Whether this entry is the one that a tab-separated row denotes: the
    /// identifier from the first column (a fresh one where it is empty),
    /// the transaction from the remaining columns, no chain link.
    pub open spec fn matches_tsv_row(self, s: Seq<char>) -> bool {
        let cols = split_char_seq(s, '\t');
        &&& (if cols[0].len() == 0 {
            self.id@.len() == 36
        } else {
            self.id@ == cols[0]
        })
        &&& self.transaction.matches_tsv_columns(cols.skip(1))
        &&& self.previous_record is None
    }

    /// An entry from a tab-separated row, best-effort: an empty identifier
    /// column is replaced by a fresh identifier, and malformed transaction
    /// columns fall back to their defaults.
    pub fn from_string(s: &str) -> (r: Record)
        ensures
            r.matches_tsv_row(s@),
            r.wf(),
    {
        let v = str_chars(s);
        Record::from_row_chars(&v)
    }

    /// An entry from the characters of a tab-separated row.
    pub(crate) fn from_row_chars(v: &Vec<char>) -> (r: Record)
        ensures
            r.matches_tsv_row(v@),
            r.wf(),
    {
        let cols = split_char(v, '\t');
        proof {
            assert(split_char_seq(v@, '\t').len() >= 1);
            assert(cols.deep_view()[0] == cols@[0]@);
        }
        let id_col: &Vec<char> = &cols[0];
        let id_value: String = if id_col.len() == 0 {
            new_unique_id()
        } else {
            chars_string(id_col)
        };
        let transaction = Transaction::from_columns(&cols, 1);
        Record { id: id_value, transaction, previous_record: None }
    }
}

impl PartialEq for Record {
    /// Records compare by identifier alone.
    fn eq(&self, other: &Self) -> (r: bool) {
        self.id == other.id
    }
}

impl vstd::std_specs::cmp::PartialEqSpecImpl for Record {
    open spec fn obeys_eq_spec() -> bool {
        true
    }

    /// Equality by identity: the identifiers agree, whatever the
    /// transactions or the chains behind them.
    open spec fn eq_spec(&self, other: &Self) -> bool {
        self.id@ == other.id@
    }
}

/// Record equality is by identity alone: two records with the same
/// identifier are equal, and two with different identifiers are not,
/// whatever their transactions or chains.
pub proof fn lemma_record_equality_by_id(a: Record, b: Record)
    ensures
        a.eq_spec(&b) <==> a.id@ == b.id@,
{
}

} // verus!
