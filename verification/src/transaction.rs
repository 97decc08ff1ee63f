//! One financial event: a date, an optional check number, an optional
//! category, a vendor, a memo, a non-negative amount, a direction, and a
//! reconciliation flag. A transaction serializes to seven tab-separated
//! columns with the amount placed in one of two mutually exclusive slots
//! according to its direction, and decodes from such a row best-effort,
//! with every malformed column falling back to its default.

use vstd::prelude::*;
use vstd::string::StringExecFns;
use crate::amount::{parse_amount, spec_parse_amount, Amount};
use crate::chars::{chars_string, split_char, split_char_seq, str_chars, push_str_chars};
use crate::date::{
    date_day_val, date_month_val, date_year_val, is_date_shape, parse_date_chars, valid_ymd,
    DateTime,
};
use crate::digits::{dec_chars, parse_u64_digits, push_dec_u64, spec_parse_u64};
use crate::transaction_type::TransactionType;

verus! {

/// One financial event.
#[derive(Clone, Debug)]
pub struct Transaction {
    pub date: DateTime,
    pub check_number: Option<u32>,
    pub category: Option<String>,
    pub vendor: String,
    pub memo: String,
    pub amount: Amount,
    pub transaction_type: TransactionType,
    pub is_reconciled: bool,
}

/// What parsing a column as a check number yields: the denoted value when
/// the column is a nonempty digit run that fits; nothing otherwise.
pub open spec fn spec_parse_check_number(s: Seq<char>) -> Option<u32> {
    match spec_parse_u64(s) {
        Some(x) => if x <= u32::MAX {
            Some(x as u32)
        } else {
            None
        },
        None => None,
    }
}

/// The column of a split row, or the empty column where the row is short.
pub open spec fn tsv_col(cols: Seq<Seq<char>>, i: int) -> Seq<char> {
    if 0 <= i < cols.len() {
        cols[i]
    } else {
        Seq::<char>::empty()
    }
}

impl Transaction {
    /// Whether the transaction's date names a real moment.
    pub open spec fn wf(self) -> bool {
        self.date.wf()
    }

    /// The tab-separated text of the transaction: date, check number,
    /// reconciliation flag, category, vendor, memo, and the amount in the
    /// deposit slot or the withdrawal slot.
    pub open spec fn tsv_chars(self) -> Seq<char> {
        self.date.date_chars() + seq!['\t'] + (match self.check_number {
            Some(n) => dec_chars(n as nat),
            None => Seq::<char>::empty(),
        }) + seq!['\t'] + (if self.is_reconciled {
            seq!['Y']
        } else {
            seq!['N']
        }) + seq!['\t'] + (match self.category {
            Some(c) => c@,
            None => Seq::<char>::empty(),
        }) + seq!['\t'] + self.vendor@ + seq!['\t'] + self.memo@ + seq!['\t'] + (
        if self.transaction_type == TransactionType::Withdrawal {
            seq!['\t'] + self.amount.decimal_chars()
        } else {
            self.amount.decimal_chars() + seq!['\t']
        })
    }

    /// An empty transaction: dated now, a withdrawal of nothing, with
    /// every other field at its default.
    pub fn new() -> (r: Transaction)
        ensures
            r.wf(),
            r.check_number is None,
            r.category is None,
            r.vendor@ == Seq::<char>::empty(),
            r.memo@ == Seq::<char>::empty(),
            r.amount.cents == 0,
            r.transaction_type == TransactionType::Withdrawal,
            !r.is_reconciled,
    {
        Transaction {
            date: DateTime::now(),
            check_number: None,
            category: None,
            vendor: String::new(),
            memo: String::new(),
            amount: Amount::zero(),
            transaction_type: TransactionType::Withdrawal,
            is_reconciled: false,
        }
    }

    /// A transaction from given values. A given date text must have the
    /// date shape and name a real day, and the transaction is dated that
    /// day's local midnight; a malformed date text is the format error.
    /// With no date text the transaction is dated now.
    pub fn from(
        date: Option<&str>,
        check_number: Option<u32>,
        category: Option<&str>,
        vendor: &str,
        memo: &str,
        amount: Amount,
        transaction_type: TransactionType,
        is_reconciled: bool,
    ) -> (r: Result<Transaction, String>)
        ensures
            (match r {
                Ok(t) => {
                    &&& (match date {
                        Some(d) => is_date_shape(d@) && valid_ymd(
                            date_year_val(d@) as int,
                            date_month_val(d@) as int,
                            date_day_val(d@) as int,
                        ) && t.date == DateTime::midnight(
                            date_year_val(d@) as int,
                            date_month_val(d@) as int,
                            date_day_val(d@) as int,
                        ),
                        None => true,
                    })
                    &&& t.wf()
                    &&& t.check_number == check_number
                    &&& (match (category, t.category) {
                        (Some(c), Some(tc)) => tc@ == c@,
                        (None, None) => true,
                        _ => false,
                    })
                    &&& t.vendor@ == vendor@
                    &&& t.memo@ == memo@
                    &&& t.amount == amount
                    &&& t.transaction_type == transaction_type
                    &&& t.is_reconciled == is_reconciled
                },
                Err(e) => (match date {
                    Some(d) => !(is_date_shape(d@) && valid_ymd(
                        date_year_val(d@) as int,
                        date_month_val(d@) as int,
                        date_day_val(d@) as int,
                    )) && e@ == crate::date::format_error_text(),
                    None => false,
                }),
            }),
    {
        let date_value: DateTime = match date {
            Some(text) => {
                match DateTime::parse(text) {
                    Ok(d) => d,
                    Err(e) => {
                        return Err(e);
                    },
                }
            },
            None => DateTime::now(),
        };
        Ok(
            Transaction {
                date: date_value,
                check_number,
                category: match category {
                    Some(c) => Some(String::from_str(c)),
                    None => None,
                },
                vendor: String::from_str(vendor),
                memo: String::from_str(memo),
                amount,
                transaction_type,
                is_reconciled,
            },
        )
    }

    /// Append the tab-separated text of the transaction.
    #[verifier::rlimit(50)]
    pub fn push_tsv_chars(&self, out: &mut Vec<char>)
        ensures
            final(out)@ == old(out)@ + self.tsv_chars(),
    {
        let ghost pre = out@;
        self.date.push_date_chars(out);
        out.push('\t');
        match &self.check_number {
            Some(n) => {
                push_dec_u64(out, *n as u64);
            },
            None => {},
        }
        out.push('\t');
        if self.is_reconciled {
            out.push('Y');
        } else {
            out.push('N');
        }
        out.push('\t');
        match &self.category {
            Some(c) => {
                push_str_chars(out, c.as_str());
            },
            None => {},
        }
        out.push('\t');
        push_str_chars(out, self.vendor.as_str());
        out.push('\t');
        push_str_chars(out, self.memo.as_str());
        out.push('\t');
        match self.transaction_type {
            TransactionType::Withdrawal => {
                out.push('\t');
                self.amount.push_decimal_chars(out);
            },
            TransactionType::Deposit => {
                self.amount.push_decimal_chars(out);
                out.push('\t');
            },
        }
        proof {
            assert(out@ =~= pre + self.tsv_chars());
        }
    }

    /// The tab-separated text of the transaction.
    pub fn to_string(&self) -> (r: String)
        ensures
            r@ == self.tsv_chars(),
    {
        let mut out: Vec<char> = Vec::new();
        self.push_tsv_chars(&mut out);
        chars_string(&out)
    }

    /// A transaction from a tab-separated row, best-effort: a malformed
    /// date column dates the transaction now, and every other malformed
    /// column falls back to its default.
    pub fn from_string(s: &str) -> (r: Transaction)
        ensures
            r.matches_tsv_columns(split_char_seq(s@, '\t')),
            r.wf(),
    {
        let v = str_chars(s);
        let cols = split_char(&v, '\t');
        let r = Transaction::from_columns(&cols, 0);
        proof {
            assert(cols.deep_view().skip(0) =~= cols.deep_view());
        }
        r
    }

    /// Whether this transaction is the one that a split row denotes. The
    /// date is pinned only where the date column parses: a malformed date
    /// column dates the transaction at the decoder's clock.
    pub open spec fn matches_tsv_columns(self, cols: Seq<Seq<char>>) -> bool {
        &&& (if is_date_shape(tsv_col(cols, 0)) && valid_ymd(
            date_year_val(tsv_col(cols, 0)) as int,
            date_month_val(tsv_col(cols, 0)) as int,
            date_day_val(tsv_col(cols, 0)) as int,
        ) {
            self.date == DateTime::midnight(
                date_year_val(tsv_col(cols, 0)) as int,
                date_month_val(tsv_col(cols, 0)) as int,
                date_day_val(tsv_col(cols, 0)) as int,
            )
        } else {
            self.date.wf()
        })
        &&& self.check_number == spec_parse_check_number(tsv_col(cols, 1))
        &&& self.is_reconciled == (tsv_col(cols, 2) =~= seq!['Y'])
        &&& (match self.category {
            Some(c) => tsv_col(cols, 3).len() > 0 && c@ == tsv_col(cols, 3),
            None => tsv_col(cols, 3).len() == 0,
        })
        &&& self.vendor@ == tsv_col(cols, 4)
        &&& self.memo@ == tsv_col(cols, 5)
        &&& (if tsv_col(cols, 6).len() > 0 {
            &&& self.transaction_type == TransactionType::Deposit
            &&& self.amount.cents == (match spec_parse_amount(tsv_col(cols, 6)) {
                Some(c) => c,
                None => 0,
            })
        } else {
            &&& self.transaction_type == TransactionType::Withdrawal
            &&& self.amount.cents == (match spec_parse_amount(tsv_col(cols, 7)) {
                Some(c) => c,
                None => 0,
            })
        })
    }

    /// A transaction from the columns of a split row, the first `offset`
    /// columns left aside.
    pub(crate) fn from_columns(cols: &Vec<Vec<char>>, offset: usize) -> (r: Transaction)
        requires
            offset <= cols@.len(),
        ensures
            r.matches_tsv_columns(cols.deep_view().skip(offset as int)),
            r.wf(),
    {
        let empty: Vec<char> = Vec::new();
        let n = cols.len() - offset;
        let ghost view = cols.deep_view().skip(offset as int);
        proof {
            assert(empty@ =~= Seq::<char>::empty());
            assert forall|i: int| 0 <= i < n implies view[i] == cols@[offset + i]@ by {}
        }
        let c0: &Vec<char> = if n > 0 {
            &cols[offset]
        } else {
            &empty
        };
        let date_value: DateTime = match parse_date_chars(c0) {
            Some(d) => d,
            None => DateTime::now(),
        };
        let c1: &Vec<char> = if n > 1 {
            &cols[offset + 1]
        } else {
            &empty
        };
        let check_number: Option<u32> = match parse_u64_digits(c1, 0, c1.len()) {
            Some(x) => if x <= u32::MAX as u64 {
                Some(x as u32)
            } else {
                None
            },
            None => None,
        };
        proof {
            assert(c1@.subrange(0, c1@.len() as int) =~= c1@);
        }
        let c2: &Vec<char> = if n > 2 {
            &cols[offset + 2]
        } else {
            &empty
        };
        let is_reconciled: bool = c2.len() == 1 && c2[0] == 'Y';
        proof {
            if c2@.len() == 1 && c2@[0] == 'Y' {
                assert(c2@ =~= seq!['Y']);
            }
        }
        let c3: &Vec<char> = if n > 3 {
            &cols[offset + 3]
        } else {
            &empty
        };
        let category: Option<String> = if c3.len() == 0 {
            None
        } else {
            Some(chars_string(c3))
        };
        let c4: &Vec<char> = if n > 4 {
            &cols[offset + 4]
        } else {
            &empty
        };
        let vendor: String = chars_string(c4);
        let c5: &Vec<char> = if n > 5 {
            &cols[offset + 5]
        } else {
            &empty
        };
        let memo: String = chars_string(c5);
        let c6: &Vec<char> = if n > 6 {
            &cols[offset + 6]
        } else {
            &empty
        };
        let c7: &Vec<char> = if n > 7 {
            &cols[offset + 7]
        } else {
            &empty
        };
        let deposit_slot_filled: bool = c6.len() > 0;
        let amount_col: &Vec<char> = if deposit_slot_filled {
            c6
        } else {
            c7
        };
        let amount_cents: u64 = match parse_amount(amount_col, 0, amount_col.len()) {
            Some(c) => c,
            None => 0,
        };
        proof {
            assert(amount_col@.subrange(0, amount_col@.len() as int) =~= amount_col@);
        }
        Transaction {
            date: date_value,
            check_number,
            category,
            vendor,
            memo,
            amount: Amount { cents: amount_cents },
            transaction_type: if deposit_slot_filled {
                TransactionType::Deposit
            } else {
                TransactionType::Withdrawal
            },
            is_reconciled,
        }
    }
}

impl PartialEq for Transaction {
    /// Transactions are equal exactly when all their fields are.
    fn eq(&self, other: &Self) -> (r: bool) {
        self.date == other.date && (match (self.check_number, other.check_number) {
            (Some(a), Some(b)) => a == b,
            (None, None) => true,
            _ => false,
        }) && (match (&self.category, &other.category) {
            (Some(a), Some(b)) => *a == *b,
            (None, None) => true,
            _ => false,
        }) && self.vendor == other.vendor && self.memo == other.memo && self.amount
            == other.amount && self.transaction_type == other.transaction_type
            && self.is_reconciled == other.is_reconciled
    }
}

impl vstd::std_specs::cmp::PartialEqSpecImpl for Transaction {
    open spec fn obeys_eq_spec() -> bool {
        true
    }

    /// Structural equality over all eight fields.
    open spec fn eq_spec(&self, other: &Self) -> bool {
        &&& self.date == other.date
        &&& self.check_number == other.check_number
        &&& (match (self.category, other.category) {
            (Some(a), Some(b)) => a@ == b@,
            (None, None) => true,
            _ => false,
        })
        &&& self.vendor@ == other.vendor@
        &&& self.memo@ == other.memo@
        &&& self.amount == other.amount
        &&& self.transaction_type == other.transaction_type
        &&& self.is_reconciled == other.is_reconciled
    }
}

} // verus!
