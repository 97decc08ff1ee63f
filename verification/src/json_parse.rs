//! Decoding the JSON encoding of records: a recursive-descent parse of an
//! array of record objects. Keys may come in any order; unknown members
//! are skipped; a duplicate, a missing required member, or any text
//! outside the grammar is an error. Missing optional members take their
//! defaults: no check number, no category, an empty memo, a zero amount,
//! an unreconciled flag — and a missing identifier or date is filled in
//! by the decoder with a fresh identifier or the present moment.

use vstd::prelude::*;
use vstd::string::StringExecFns;
use crate::amount::frac_cents;
use crate::chars::str_chars;
use crate::date::{
    date_day_val, date_month_val, date_year_val, is_date_shape, valid_ymd, DateTime,
};
use crate::digits::{all_digits, digits_val, is_digit, u64_max};
use crate::record::Record;
use crate::transaction::Transaction;
use crate::transaction_type::TransactionType;

verus! {

/// An error from decoding: carries a diagnostic message.
#[derive(Debug)]
pub struct DecodeError {
    pub message: String,
}

/// Whether a character is JSON whitespace.
pub open spec fn is_json_ws(c: char) -> bool {
    c == ' ' || c == '\t' || c == '\n' || c == '\r'
}

/// The first index at or after `i` that is not whitespace, or the length.
pub open spec fn ws_end(s: Seq<char>, i: int) -> int
    decreases s.len() - i,
{
    if i < 0 || i >= s.len() {
        i
    } else if is_json_ws(s[i]) {
        ws_end(s, i + 1)
    } else {
        i
    }
}

/// Skipping whitespace never moves backward and stops on the first
/// non-whitespace character.
pub proof fn lemma_ws_end(s: Seq<char>, i: int)
    requires
        0 <= i <= s.len(),
    ensures
        i <= ws_end(s, i) <= s.len(),
        ws_end(s, i) < s.len() ==> !is_json_ws(s[ws_end(s, i)]),
        forall|j: int| i <= j < ws_end(s, i) ==> is_json_ws(#[trigger] s[j]),
    decreases s.len() - i,
{
    if i < s.len() && is_json_ws(s[i]) {
        lemma_ws_end(s, i + 1);
    }
}

/// The value of a hexadecimal digit character, sixteen otherwise.
pub open spec fn hex_val(c: char) -> int {
    if is_digit(c) {
        c as u32 - 48
    } else if 97 <= c as u32 <= 102 {
        c as u32 - 87
    } else if 65 <= c as u32 <= 70 {
        c as u32 - 55
    } else {
        16
    }
}

/// The value of four hexadecimal digits, where all four are such.
pub open spec fn hex4(s: Seq<char>, i: int) -> Option<int> {
    if 0 <= i && i + 4 <= s.len() && hex_val(s[i]) < 16 && hex_val(s[i + 1]) < 16 && hex_val(
        s[i + 2],
    ) < 16 && hex_val(s[i + 3]) < 16 {
        Some(
            hex_val(s[i]) * 4096 + hex_val(s[i + 1]) * 256 + hex_val(s[i + 2]) * 16 + hex_val(
                s[i + 3],
            ),
        )
    } else {
        None
    }
}

/// The character a single-letter escape stands for.
pub open spec fn escape_of(c: char) -> Option<char> {
    if c == '"' {
        Some('"')
    } else if c == '\\' {
        Some('\\')
    } else if c == '/' {
        Some('/')
    } else if c == 'b' {
        Some('\u{8}')
    } else if c == 'f' {
        Some('\u{c}')
    } else if c == 'n' {
        Some('\n')
    } else if c == 'r' {
        Some('\r')
    } else if c == 't' {
        Some('\t')
    } else {
        None
    }
}

/// The character a `\u` escape at `i` denotes, and the position after it:
/// four hexadecimal digits, a high surrogate demanding a paired low
/// surrogate in a second `\u` escape.
pub open spec fn parse_u_escape(s: Seq<char>, i: int) -> Option<(char, int)> {
    match hex4(s, i + 2) {
        Some(v) => if 0xD800 <= v < 0xDC00 {
            if i + 8 <= s.len() && s[i + 6] == '\\' && s[i + 7] == 'u' {
                match hex4(s, i + 8) {
                    Some(lo) => if 0xDC00 <= lo < 0xE000 {
                        Some(
                            (((0x10000 + (v - 0xD800) * 0x400 + (lo - 0xDC00)) as u32) as char, (i
                                + 12) as int),
                        )
                    } else {
                        None
                    },
                    None => None,
                }
            } else {
                None
            }
        } else if 0xDC00 <= v < 0xE000 {
            None
        } else {
            Some(((v as u32) as char, i + 6))
        },
        None => None,
    }
}

/// The characters a JSON string literal's body denotes from `i` to its
/// closing quote, and the position after that quote.
pub open spec fn parse_string_body(s: Seq<char>, i: int) -> Option<(Seq<char>, int)>
    decreases s.len() - i, 0int,
{
    if i < 0 || i >= s.len() {
        None
    } else if s[i] == '"' {
        Some((Seq::<char>::empty(), i + 1))
    } else if s[i] == '\\' {
        if i + 2 > s.len() {
            None
        } else if s[i + 1] == 'u' {
            match parse_u_escape(s, i) {
                Some((c, j)) => parse_string_cons(s, c, if j > i { j } else { i + 1 }),
                None => None,
            }
        } else {
            match escape_of(s[i + 1]) {
                Some(c) => parse_string_cons(s, c, i + 2),
                None => None,
            }
        }
    } else if (s[i] as u32) < 32 {
        None
    } else {
        parse_string_cons(s, s[i], i + 1)
    }
}

/// One decoded character, then the rest of the string body.
pub open spec fn parse_string_cons(s: Seq<char>, c: char, j: int) -> Option<(Seq<char>, int)>
    decreases s.len() - j, 1int,
{
    if j <= 0 {
        None
    } else {
        match parse_string_body(s, j) {
            Some((rest, k)) => Some((seq![c] + rest, k)),
            None => None,
        }
    }
}

/// The characters a JSON string literal at `i` denotes, and the position
/// after its closing quote.
pub open spec fn parse_string(s: Seq<char>, i: int) -> Option<(Seq<char>, int)> {
    if 0 <= i < s.len() && s[i] == '"' {
        parse_string_body(s, i + 1)
    } else {
        None
    }
}

/// A parsed string body ends past where it started.
pub proof fn lemma_parse_string_body_advances(s: Seq<char>, i: int)
    ensures
        (match parse_string_body(s, i) {
            Some((_, j)) => i < j <= s.len(),
            None => true,
        }),
    decreases s.len() - i, 0int,
{
    if 0 <= i < s.len() {
        if s[i] == '\\' {
            if i + 2 <= s.len() && s[i + 1] == 'u' {
                match parse_u_escape(s, i) {
                    Some((c, j)) => {
                        lemma_parse_string_cons_advances(s, c, if j > i {
                            j
                        } else {
                            i + 1
                        });
                    },
                    None => {},
                }
            } else if i + 2 <= s.len() {
                match escape_of(s[i + 1]) {
                    Some(c) => {
                        lemma_parse_string_cons_advances(s, c, i + 2);
                    },
                    None => {},
                }
            }
        } else if s[i] != '"' && (s[i] as u32) >= 32 {
            lemma_parse_string_cons_advances(s, s[i], i + 1);
        }
    }
}

proof fn lemma_parse_string_cons_advances(s: Seq<char>, c: char, j: int)
    ensures
        (match parse_string_cons(s, c, j) {
            Some((_, k)) => j < k <= s.len(),
            None => true,
        }),
    decreases s.len() - j, 1int,
{
    if j > 0 {
        lemma_parse_string_body_advances(s, j);
    }
}

/// A parsed string literal ends past where it started.
pub proof fn lemma_parse_string_advances(s: Seq<char>, i: int)
    ensures
        (match parse_string(s, i) {
            Some((_, j)) => i < j <= s.len(),
            None => true,
        }),
{
    if 0 <= i < s.len() && s[i] == '"' {
        lemma_parse_string_body_advances(s, i + 1);
    }
}

/// The first index at or after `i` that is not a decimal digit, or the
/// length.
pub open spec fn digits_end(s: Seq<char>, i: int) -> int
    decreases s.len() - i,
{
    if i < 0 || i >= s.len() {
        i
    } else if is_digit(s[i]) {
        digits_end(s, i + 1)
    } else {
        i
    }
}

/// The digit run from `i` is exactly what `digits_end` delimits.
pub proof fn lemma_digits_end(s: Seq<char>, i: int)
    requires
        0 <= i <= s.len(),
    ensures
        i <= digits_end(s, i) <= s.len(),
        digits_end(s, i) < s.len() ==> !is_digit(s[digits_end(s, i)]),
        forall|j: int| i <= j < digits_end(s, i) ==> is_digit(#[trigger] s[j]),
    decreases s.len() - i,
{
    if i < s.len() && is_digit(s[i]) {
        lemma_digits_end(s, i + 1);
    }
}

/// An unsigned JSON integer at `i`: a nonempty digit run with no needless
/// leading zero, whose value fits a machine word; yields the value and the
/// position after the run.
pub open spec fn parse_json_uint(s: Seq<char>, i: int) -> Option<(u64, int)> {
    let e = digits_end(s, i);
    if e == i {
        None
    } else if s[i] == '0' && e > i + 1 {
        None
    } else if digits_val(s.subrange(i, e)) > u64_max() {
        None
    } else {
        Some((digits_val(s.subrange(i, e)) as u64, e))
    }
}

/// Whether the character after a number would extend it into a form the
/// decoder does not accept there.
pub open spec fn number_continues(s: Seq<char>, j: int) -> bool {
    0 <= j < s.len() && (s[j] == '.' || s[j] == 'e' || s[j] == 'E')
}

/// A check-number value at `i`: `null` for none, or an unsigned integer
/// that fits; a sign, a fraction, or an exponent is an error.
pub open spec fn parse_check_value(s: Seq<char>, i: int) -> Option<(Option<u32>, int)> {
    if parse_literal(s, i, "null"@) {
        Some((None, i + 4))
    } else {
        match parse_json_uint(s, i) {
            Some((v, j)) => if v <= u32::MAX && !number_continues(s, j) {
                Some((Some(v as u32), j))
            } else {
                None
            },
            None => None,
        }
    }
}

/// An amount value at `i`: an unsigned integer with an optional fraction
/// of one or two digits, as a whole number of hundredths; a sign, a longer
/// fraction, or an exponent is an error.
pub open spec fn parse_amount_value(s: Seq<char>, i: int) -> Option<(u64, int)> {
    match parse_json_uint(s, i) {
        Some((units, j)) => if 0 <= j < s.len() && s[j] == '.' {
            let f = digits_end(s, j + 1);
            let flen = f - (j + 1);
            if flen < 1 || flen > 2 {
                None
            } else if number_continues(s, f) || (0 <= f < s.len() && is_digit(s[f])) {
                None
            } else if units > (u64_max() - frac_cents(s.subrange(j + 1, f))) / 100 {
                None
            } else {
                Some(((units * 100 + frac_cents(s.subrange(j + 1, f))) as u64, f))
            }
        } else if number_continues(s, j) {
            None
        } else if units > u64_max() / 100 {
            None
        } else {
            Some(((units * 100) as u64, j))
        },
        None => None,
    }
}

/// Whether the given word stands at `i`.
pub open spec fn parse_literal(s: Seq<char>, i: int, w: Seq<char>) -> bool {
    0 <= i && i + w.len() <= s.len() && s.subrange(i, i + w.len()) == w
}

} // verus!

verus! {

/// The next position after a component: the claimed position where it
/// lies properly beyond `i` and within the text, and the position just
/// past `i` otherwise. Every parsing component in fact lands within those
/// bounds, so the fallback never fires; it keeps each position's progress
/// evident.
pub open spec fn bounded_next(i: int, j: int, len: int) -> int {
    if i < j && j <= len {
        j
    } else {
        i + 1
    }
}

/// The position one past a number token at `i`, skipped loosely: an
/// optional sign, digits, an optional fraction, an optional exponent.
pub open spec fn skip_number(s: Seq<char>, i: int) -> Option<int> {
    let i1 = if 0 <= i < s.len() && s[i] == '-' {
        i + 1
    } else {
        i
    };
    let e = digits_end(s, i1);
    if e == i1 {
        None
    } else {
        let f = if 0 <= e < s.len() && s[e] == '.' {
            digits_end(s, e + 1)
        } else {
            e
        };
        if 0 <= f < s.len() && (s[f] == 'e' || s[f] == 'E') {
            let g = if 0 <= f + 1 < s.len() && (s[f + 1] == '+' || s[f + 1] == '-') {
                f + 2
            } else {
                f + 1
            };
            let h = digits_end(s, g);
            if h == g {
                None
            } else {
                Some(h)
            }
        } else {
            Some(f)
        }
    }
}

/// The position one past the JSON value at `i`, whatever it is; unknown
/// members are skipped with this.
pub open spec fn skip_value(s: Seq<char>, i: int) -> Option<int>
    decreases s.len() - i, 0int,
{
    if i < 0 || i >= s.len() {
        None
    } else if s[i] == '"' {
        match parse_string(s, i) {
            Some((_, j)) => Some(j),
            None => None,
        }
    } else if s[i] == '{' {
        let j = bounded_next(i, ws_end(s, i + 1), s.len() as int);
        if j < s.len() && s[j] == '}' {
            Some(j + 1)
        } else {
            skip_members(s, j)
        }
    } else if s[i] == '[' {
        let j = bounded_next(i, ws_end(s, i + 1), s.len() as int);
        if j < s.len() && s[j] == ']' {
            Some(j + 1)
        } else {
            skip_items(s, j)
        }
    } else if parse_literal(s, i, "true"@) {
        Some(i + 4)
    } else if parse_literal(s, i, "false"@) {
        Some(i + 5)
    } else if parse_literal(s, i, "null"@) {
        Some(i + 4)
    } else {
        skip_number(s, i)
    }
}

/// The position one past the remaining members of an object, from the
/// first character of a key.
pub open spec fn skip_members(s: Seq<char>, i: int) -> Option<int>
    decreases s.len() - i, 1int,
{
    if i < 0 || i >= s.len() {
        None
    } else {
        match parse_string(s, i) {
            Some((_, j0)) => {
                let k = bounded_next(i, ws_end(s, bounded_next(i, j0, s.len() as int)), s.len() as int);
                if k < s.len() && s[k] == ':' {
                    let v = bounded_next(k, ws_end(s, k + 1), s.len() as int);
                    match skip_value(s, v) {
                        Some(e0) => {
                            let p = bounded_next(
                                v,
                                ws_end(s, bounded_next(v, e0, s.len() as int)),
                                s.len() as int,
                            );
                            if p < s.len() && s[p] == ',' {
                                skip_members(
                                    s,
                                    bounded_next(p, ws_end(s, p + 1), s.len() as int),
                                )
                            } else if p < s.len() && s[p] == '}' {
                                Some(p + 1)
                            } else {
                                None
                            }
                        },
                        None => None,
                    }
                } else {
                    None
                }
            },
            None => None,
        }
    }
}

/// The position one past the remaining items of an array, from the first
/// character of an item.
pub open spec fn skip_items(s: Seq<char>, i: int) -> Option<int>
    decreases s.len() - i, 1int,
{
    if i < 0 || i >= s.len() {
        None
    } else {
        match skip_value(s, i) {
            Some(e0) => {
                let p = bounded_next(
                    i,
                    ws_end(s, bounded_next(i, e0, s.len() as int)),
                    s.len() as int,
                );
                if p < s.len() && s[p] == ',' {
                    skip_items(s, bounded_next(p, ws_end(s, p + 1), s.len() as int))
                } else if p < s.len() && s[p] == ']' {
                    Some(p + 1)
                } else {
                    None
                }
            },
            None => None,
        }
    }
}

/// Skipping a value ends past where it started and within the text.
pub proof fn lemma_skip_value_advances(s: Seq<char>, i: int)
    ensures
        (match skip_value(s, i) {
            Some(j) => i < j <= s.len(),
            None => true,
        }),
    decreases s.len() - i, 0int,
{
    if 0 <= i < s.len() {
        if s[i] == '"' {
            lemma_parse_string_advances(s, i);
        } else if s[i] == '{' {
            let j = bounded_next(i, ws_end(s, i + 1), s.len() as int);
            if !(j < s.len() && s[j] == '}') {
                lemma_skip_members_advances(s, j);
            }
        } else if s[i] == '[' {
            let j = bounded_next(i, ws_end(s, i + 1), s.len() as int);
            if !(j < s.len() && s[j] == ']') {
                lemma_skip_items_advances(s, j);
            }
        } else if parse_literal(s, i, "true"@) {
            reveal_strlit("true");
        } else if parse_literal(s, i, "false"@) {
            reveal_strlit("false");
        } else if parse_literal(s, i, "null"@) {
            reveal_strlit("null");
        } else {
            lemma_skip_number_advances(s, i);
        }
    }
}

proof fn lemma_skip_number_advances(s: Seq<char>, i: int)
    requires
        0 <= i < s.len(),
    ensures
        (match skip_number(s, i) {
            Some(j) => i < j <= s.len(),
            None => true,
        }),
{
    let i1 = if s[i] == '-' {
        i + 1
    } else {
        i
    };
    lemma_digits_end(s, i1);
    let e = digits_end(s, i1);
    if e != i1 {
        if 0 <= e < s.len() && s[e] == '.' {
            lemma_digits_end(s, e + 1);
        }
        let f = if 0 <= e < s.len() && s[e] == '.' {
            digits_end(s, e + 1)
        } else {
            e
        };
        if 0 <= f < s.len() && (s[f] == 'e' || s[f] == 'E') {
            let g = if 0 <= f + 1 < s.len() && (s[f + 1] == '+' || s[f + 1] == '-') {
                f + 2
            } else {
                f + 1
            };
            if g <= s.len() {
                lemma_digits_end(s, g);
            }
        }
    }
}

proof fn lemma_skip_members_advances(s: Seq<char>, i: int)
    ensures
        (match skip_members(s, i) {
            Some(j) => i < j <= s.len(),
            None => true,
        }),
    decreases s.len() - i, 1int,
{
    if 0 <= i < s.len() {
        match parse_string(s, i) {
            Some((_, j0)) => {
                let k = bounded_next(
                    i,
                    ws_end(s, bounded_next(i, j0, s.len() as int)),
                    s.len() as int,
                );
                if k < s.len() && s[k] == ':' {
                    let v = bounded_next(k, ws_end(s, k + 1), s.len() as int);
                    match skip_value(s, v) {
                        Some(e0) => {
                            lemma_skip_value_advances(s, v);
                            let p = bounded_next(
                                v,
                                ws_end(s, bounded_next(v, e0, s.len() as int)),
                                s.len() as int,
                            );
                            if p < s.len() && s[p] == ',' {
                                lemma_skip_members_advances(
                                    s,
                                    bounded_next(p, ws_end(s, p + 1), s.len() as int),
                                );
                            }
                        },
                        None => {},
                    }
                }
            },
            None => {},
        }
    }
}

proof fn lemma_skip_items_advances(s: Seq<char>, i: int)
    ensures
        (match skip_items(s, i) {
            Some(j) => i < j <= s.len(),
            None => true,
        }),
    decreases s.len() - i, 1int,
{
    if 0 <= i < s.len() {
        match skip_value(s, i) {
            Some(e0) => {
                lemma_skip_value_advances(s, i);
                let p = bounded_next(
                    i,
                    ws_end(s, bounded_next(i, e0, s.len() as int)),
                    s.len() as int,
                );
                if p < s.len() && s[p] == ',' {
                    lemma_skip_items_advances(
                        s,
                        bounded_next(p, ws_end(s, p + 1), s.len() as int),
                    );
                }
            },
            None => {},
        }
    }
}

} // verus!

verus! {

/// The fields of a transaction object as they are collected: a field is
/// present once its member has been seen, so a duplicate is detectable.
pub struct TxAcc {
    pub date: Option<DateTime>,
    pub check_number: Option<Option<u32>>,
    pub category: Option<Option<Seq<char>>>,
    pub vendor: Option<Seq<char>>,
    pub memo: Option<Seq<char>>,
    pub amount: Option<u64>,
    pub transaction_type: Option<TransactionType>,
    pub is_reconciled: Option<bool>,
}

/// No member seen yet.
pub open spec fn tx_acc_empty() -> TxAcc {
    TxAcc {
        date: None,
        check_number: None,
        category: None,
        vendor: None,
        memo: None,
        amount: None,
        transaction_type: None,
        is_reconciled: None,
    }
}

/// One collected transaction member at `v`: the accumulator with that
/// member's field filled and the position after the value, or nothing for
/// a duplicate or malformed member. An unknown key's value is skipped.
pub open spec fn tx_member(s: Seq<char>, v: int, key: Seq<char>, acc: TxAcc) -> Option<
    (TxAcc, int),
> {
    if key == "date"@ {
        if acc.date is Some {
            None
        } else {
            match parse_string(s, v) {
                Some((txt, j)) => if is_date_shape(txt) && valid_ymd(
                    date_year_val(txt) as int,
                    date_month_val(txt) as int,
                    date_day_val(txt) as int,
                ) {
                    Some(
                        (
                            TxAcc {
                                date: Some(
                                    DateTime::midnight(
                                        date_year_val(txt) as int,
                                        date_month_val(txt) as int,
                                        date_day_val(txt) as int,
                                    ),
                                ),
                                ..acc
                            },
                            j,
                        ),
                    )
                } else {
                    None
                },
                None => None,
            }
        }
    } else if key == "check_number"@ {
        if acc.check_number is Some {
            None
        } else {
            match parse_check_value(s, v) {
                Some((cv, j)) => Some((TxAcc { check_number: Some(cv), ..acc }, j)),
                None => None,
            }
        }
    } else if key == "category"@ {
        if acc.category is Some {
            None
        } else if parse_literal(s, v, "null"@) {
            Some((TxAcc { category: Some(None), ..acc }, v + 4))
        } else {
            match parse_string(s, v) {
                Some((txt, j)) => Some((TxAcc { category: Some(Some(txt)), ..acc }, j)),
                None => None,
            }
        }
    } else if key == "vendor"@ {
        if acc.vendor is Some {
            None
        } else {
            match parse_string(s, v) {
                Some((txt, j)) => Some((TxAcc { vendor: Some(txt), ..acc }, j)),
                None => None,
            }
        }
    } else if key == "memo"@ {
        if acc.memo is Some {
            None
        } else {
            match parse_string(s, v) {
                Some((txt, j)) => Some((TxAcc { memo: Some(txt), ..acc }, j)),
                None => None,
            }
        }
    } else if key == "amount"@ {
        if acc.amount is Some {
            None
        } else {
            match parse_amount_value(s, v) {
                Some((a, j)) => Some((TxAcc { amount: Some(a), ..acc }, j)),
                None => None,
            }
        }
    } else if key == "type"@ {
        if acc.transaction_type is Some {
            None
        } else {
            match parse_string(s, v) {
                Some((txt, j)) => if txt == "deposit"@ {
                    Some(
                        (TxAcc { transaction_type: Some(TransactionType::Deposit), ..acc }, j),
                    )
                } else if txt == "withdrawal"@ {
                    Some(
                        (
                            TxAcc { transaction_type: Some(TransactionType::Withdrawal), ..acc },
                            j,
                        ),
                    )
                } else {
                    None
                },
                None => None,
            }
        }
    } else if key == "is_reconciled"@ {
        if acc.is_reconciled is Some {
            None
        } else if parse_literal(s, v, "true"@) {
            Some((TxAcc { is_reconciled: Some(true), ..acc }, v + 4))
        } else if parse_literal(s, v, "false"@) {
            Some((TxAcc { is_reconciled: Some(false), ..acc }, v + 5))
        } else {
            None
        }
    } else {
        match skip_value(s, v) {
            Some(j) => Some((acc, j)),
            None => None,
        }
    }
}

/// The members of a transaction object, from the first character of a key
/// to just past the closing brace.
pub open spec fn parse_tx_members(s: Seq<char>, i: int, acc: TxAcc) -> Option<(TxAcc, int)>
    decreases s.len() - i,
{
    if i < 0 || i >= s.len() {
        None
    } else {
        match parse_string(s, i) {
            Some((key, j0)) => {
                let k = bounded_next(
                    i,
                    ws_end(s, bounded_next(i, j0, s.len() as int)),
                    s.len() as int,
                );
                if k < s.len() && s[k] == ':' {
                    let v = bounded_next(k, ws_end(s, k + 1), s.len() as int);
                    match tx_member(s, v, key, acc) {
                        Some((acc2, e0)) => {
                            let p = bounded_next(
                                v,
                                ws_end(s, bounded_next(v, e0, s.len() as int)),
                                s.len() as int,
                            );
                            if p < s.len() && s[p] == ',' {
                                parse_tx_members(
                                    s,
                                    bounded_next(p, ws_end(s, p + 1), s.len() as int),
                                    acc2,
                                )
                            } else if p < s.len() && s[p] == '}' {
                                Some((acc2, p + 1))
                            } else {
                                None
                            }
                        },
                        None => None,
                    }
                } else {
                    None
                }
            },
            None => None,
        }
    }
}

/// A decoded transaction: the collected members with their defaults
/// applied. A missing date is left open for the decoder to fill with the
/// present moment.
pub struct RawTransaction {
    pub date: Option<DateTime>,
    pub check_number: Option<u32>,
    pub category: Option<Seq<char>>,
    pub vendor: Seq<char>,
    pub memo: Seq<char>,
    pub amount: u64,
    pub transaction_type: TransactionType,
    pub is_reconciled: bool,
}

/// The transaction the collected members denote: the vendor and the type
/// are required, everything else takes its default.
pub open spec fn tx_of_acc(acc: TxAcc) -> Option<RawTransaction> {
    match (acc.vendor, acc.transaction_type) {
        (Some(vendor), Some(tt)) => Some(
            RawTransaction {
                date: acc.date,
                check_number: (match acc.check_number {
                    Some(c) => c,
                    None => None,
                }),
                category: (match acc.category {
                    Some(c) => c,
                    None => None,
                }),
                vendor: vendor,
                memo: (match acc.memo {
                    Some(m) => m,
                    None => Seq::<char>::empty(),
                }),
                amount: (match acc.amount {
                    Some(a) => a,
                    None => 0,
                }),
                transaction_type: tt,
                is_reconciled: (match acc.is_reconciled {
                    Some(b) => b,
                    None => false,
                }),
            },
        ),
        _ => None,
    }
}

/// A transaction object at `i`, on its opening brace: the collected
/// transaction and the position just past the closing brace.
pub open spec fn parse_tx_object(s: Seq<char>, i: int) -> Option<(RawTransaction, int)> {
    if 0 <= i < s.len() && s[i] == '{' {
        let j = bounded_next(i, ws_end(s, i + 1), s.len() as int);
        if j < s.len() && s[j] == '}' {
            None
        } else {
            match parse_tx_members(s, j, tx_acc_empty()) {
                Some((acc, k)) => match tx_of_acc(acc) {
                    Some(t) => Some((t, k)),
                    None => None,
                },
                None => None,
            }
        }
    } else {
        None
    }
}

/// A decoded record: an identifier where one was given — a missing one is
/// left open for the decoder to fill with a fresh identifier — and the
/// transaction.
pub struct RawRecord {
    pub id: Option<Seq<char>>,
    pub transaction: RawTransaction,
}

/// The fields of a record object as they are collected.
pub struct RecAcc {
    pub id: Option<Seq<char>>,
    pub transaction: Option<RawTransaction>,
}

/// One collected record member at `v`.
pub open spec fn rec_member(s: Seq<char>, v: int, key: Seq<char>, acc: RecAcc) -> Option<
    (RecAcc, int),
> {
    if key == "id"@ {
        if acc.id is Some {
            None
        } else {
            match parse_string(s, v) {
                Some((txt, j)) => Some((RecAcc { id: Some(txt), ..acc }, j)),
                None => None,
            }
        }
    } else if key == "transaction"@ {
        if acc.transaction is Some {
            None
        } else {
            match parse_tx_object(s, v) {
                Some((t, j)) => Some((RecAcc { transaction: Some(t), ..acc }, j)),
                None => None,
            }
        }
    } else {
        match skip_value(s, v) {
            Some(j) => Some((acc, j)),
            None => None,
        }
    }
}

/// The members of a record object, from the first character of a key to
/// just past the closing brace.
pub open spec fn parse_rec_members(s: Seq<char>, i: int, acc: RecAcc) -> Option<(RecAcc, int)>
    decreases s.len() - i,
{
    if i < 0 || i >= s.len() {
        None
    } else {
        match parse_string(s, i) {
            Some((key, j0)) => {
                let k = bounded_next(
                    i,
                    ws_end(s, bounded_next(i, j0, s.len() as int)),
                    s.len() as int,
                );
                if k < s.len() && s[k] == ':' {
                    let v = bounded_next(k, ws_end(s, k + 1), s.len() as int);
                    match rec_member(s, v, key, acc) {
                        Some((acc2, e0)) => {
                            let p = bounded_next(
                                v,
                                ws_end(s, bounded_next(v, e0, s.len() as int)),
                                s.len() as int,
                            );
                            if p < s.len() && s[p] == ',' {
                                parse_rec_members(
                                    s,
                                    bounded_next(p, ws_end(s, p + 1), s.len() as int),
                                    acc2,
                                )
                            } else if p < s.len() && s[p] == '}' {
                                Some((acc2, p + 1))
                            } else {
                                None
                            }
                        },
                        None => None,
                    }
                } else {
                    None
                }
            },
            None => None,
        }
    }
}

/// A record object at `i`, on its opening brace: the decoded record and
/// the position just past the closing brace. The transaction member is
/// required.
pub open spec fn parse_record_object(s: Seq<char>, i: int) -> Option<(RawRecord, int)> {
    if 0 <= i < s.len() && s[i] == '{' {
        let j = bounded_next(i, ws_end(s, i + 1), s.len() as int);
        if j < s.len() && s[j] == '}' {
            None
        } else {
            match parse_rec_members(s, j, RecAcc { id: None, transaction: None }) {
                Some((acc, k)) => match acc.transaction {
                    Some(t) => Some((RawRecord { id: acc.id, transaction: t }, k)),
                    None => None,
                },
                None => None,
            }
        }
    } else {
        None
    }
}

/// The record objects of the array, from the first character of an object
/// to just past the closing bracket.
pub open spec fn parse_records(s: Seq<char>, i: int, acc: Seq<RawRecord>) -> Option<
    (Seq<RawRecord>, int),
>
    decreases s.len() - i,
{
    if i < 0 || i >= s.len() {
        None
    } else {
        match parse_record_object(s, i) {
            Some((r, e0)) => {
                let p = bounded_next(
                    i,
                    ws_end(s, bounded_next(i, e0, s.len() as int)),
                    s.len() as int,
                );
                if p < s.len() && s[p] == ',' {
                    parse_records(
                        s,
                        bounded_next(p, ws_end(s, p + 1), s.len() as int),
                        acc.push(r),
                    )
                } else if p < s.len() && s[p] == ']' {
                    Some((acc.push(r), p + 1))
                } else {
                    None
                }
            },
            None => None,
        }
    }
}

/// What decoding a text yields: the records of one well-formed JSON array
/// with nothing but whitespace around it, or nothing at all.
pub open spec fn spec_decode_json(s: Seq<char>) -> Option<Seq<RawRecord>> {
    let i = ws_end(s, 0);
    if 0 <= i < s.len() && s[i] == '[' {
        let j = bounded_next(i, ws_end(s, i + 1), s.len() as int);
        if j < s.len() && s[j] == ']' {
            if ws_end(s, j + 1) == s.len() {
                Some(Seq::<RawRecord>::empty())
            } else {
                None
            }
        } else {
            match parse_records(s, j, Seq::<RawRecord>::empty()) {
                Some((rs, k)) => if ws_end(s, k) == s.len() {
                    Some(rs)
                } else {
                    None
                },
                None => None,
            }
        }
    } else {
        None
    }
}

/// Whether a record is one that the given decoded data permits: every
/// field pinned by the data, a missing identifier filled with a fresh
/// 36-character one, a missing date filled with some real moment.
pub open spec fn record_matches_raw(rec: Record, raw: RawRecord) -> bool {
    &&& (match raw.id {
        Some(s) => rec.id@ == s,
        None => rec.id@.len() == 36,
    })
    &&& (match raw.transaction.date {
        Some(d) => rec.transaction.date == d,
        None => rec.transaction.date.wf(),
    })
    &&& rec.transaction.check_number == raw.transaction.check_number
    &&& (match (raw.transaction.category, rec.transaction.category) {
        (Some(s), Some(c)) => c@ == s,
        (None, None) => true,
        _ => false,
    })
    &&& rec.transaction.vendor@ == raw.transaction.vendor
    &&& rec.transaction.memo@ == raw.transaction.memo
    &&& rec.transaction.amount.cents == raw.transaction.amount
    &&& rec.transaction.transaction_type == raw.transaction.transaction_type
    &&& rec.transaction.is_reconciled == raw.transaction.is_reconciled
    &&& rec.previous_record is None
}

} // verus!

verus! {

broadcast use vstd::utf8::char_u32_cast;

/// Relies on std's `char::from_u32`: a character for every Unicode scalar
/// value — below the surrogate range or between it and the top code
/// point — and nothing otherwise.
#[verifier::external_body]
fn char_from_u32(u: u32) -> (r: Option<char>)
    ensures
        (match r {
            Some(c) => c as u32 == u,
            None => true,
        }),
        (r is Some <==> (u < 0xD800 || (0xE000 <= u && u <= 0x10FFFF))),
{
    char::from_u32(u)
}

/// Skip whitespace from `i`.
fn ws_to(v: &Vec<char>, i: usize) -> (r: usize)
    requires
        i <= v@.len(),
    ensures
        i <= r <= v@.len(),
        r == ws_end(v@, i as int),
        r < v@.len() ==> !is_json_ws(v@[r as int]),
{
    let n = v.len();
    let mut k: usize = i;
    while k < n && (v[k] == ' ' || v[k] == '\t' || v[k] == '\n' || v[k] == '\r')
        invariant
            i <= k <= n,
            n == v@.len(),
            ws_end(v@, i as int) == ws_end(v@, k as int),
        decreases n - k,
    {
        k = k + 1;
    }
    k
}

/// Skip decimal digits from `i`.
fn digits_to(v: &Vec<char>, i: usize) -> (r: usize)
    requires
        i <= v@.len(),
    ensures
        i <= r <= v@.len(),
        r == digits_end(v@, i as int),
        r < v@.len() ==> !is_digit(v@[r as int]),
        forall|j: int| i <= j < r ==> is_digit(#[trigger] v@[j]),
    decreases v@.len() - i,
{
    let n = v.len();
    let mut k: usize = i;
    while k < n && (v[k] as u32) >= 48 && (v[k] as u32) <= 57
        invariant
            i <= k <= n,
            n == v@.len(),
            digits_end(v@, i as int) == digits_end(v@, k as int),
            forall|j: int| i <= j < k ==> is_digit(#[trigger] v@[j]),
        decreases n - k,
    {
        k = k + 1;
    }
    proof {
        lemma_digits_end(v@, k as int);
    }
    k
}

/// The value of one hexadecimal digit character, sixteen otherwise.
fn hex_digit(c: char) -> (r: u32)
    ensures
        r as int == hex_val(c),
{
    let u = c as u32;
    if 48 <= u && u <= 57 {
        u - 48
    } else if 97 <= u && u <= 102 {
        u - 87
    } else if 65 <= u && u <= 70 {
        u - 55
    } else {
        16
    }
}

/// The value of four hexadecimal digits at `i`.
fn hex4_at(v: &Vec<char>, i: usize) -> (r: Option<u32>)
    requires
        i <= v@.len(),
    ensures
        (match (r, hex4(v@, i as int)) {
            (Some(a), Some(b)) => a as int == b && a < 0x10000,
            (None, None) => true,
            _ => false,
        }),
{
    if v.len() - i < 4 {
        return None;
    }
    let a = hex_digit(v[i]);
    let b = hex_digit(v[i + 1]);
    let c = hex_digit(v[i + 2]);
    let d = hex_digit(v[i + 3]);
    if a < 16 && b < 16 && c < 16 && d < 16 {
        Some(a * 4096 + b * 256 + c * 16 + d)
    } else {
        None
    }
}

/// Whether the given word stands at `i`.
fn literal_at(v: &Vec<char>, i: usize, w: &str) -> (r: bool)
    requires
        i <= v@.len(),
    ensures
        r == parse_literal(v@, i as int, w@),
        r ==> i + w@.len() <= v@.len(),
{
    let m: usize = vstd::string::StrSliceExecFns::unicode_len(w);
    let n = v.len();
    if n - i < m {
        proof {
            assert(!parse_literal(v@, i as int, w@));
        }
        return false;
    }
    let mut k: usize = 0;
    while k < m
        invariant
            k <= m,
            m == w@.len(),
            n == v@.len(),
            i + m <= n,
            forall|j: int| 0 <= j < k ==> v@[i + j] == w@[j],
        decreases m - k,
    {
        let c: char = vstd::string::StrSliceExecFns::get_char(w, k);
        if v[i + k] != c {
            proof {
                assert(v@.subrange(i as int, i + m) [k as int] != w@[k as int]);
            }
            return false;
        }
        k = k + 1;
    }
    proof {
        assert(v@.subrange(i as int, i + m) =~= w@);
    }
    true
}

/// The characters of a JSON string literal at `i` and the position after
/// its closing quote.
fn parse_string_at(v: &Vec<char>, i: usize) -> (r: Option<(Vec<char>, usize)>)
    requires
        i <= v@.len(),
    ensures
        (match (r, parse_string(v@, i as int)) {
            (Some((c, j)), Some((sc, sj))) => c@ == sc && j as int == sj && i < j <= v@.len(),
            (None, None) => true,
            _ => false,
        }),
{
    let n = v.len();
    if i >= n || v[i] != '"' {
        return None;
    }
    proof {
        lemma_parse_string_advances(v@, i as int);
    }
    let mut acc: Vec<char> = Vec::new();
    let mut k: usize = i + 1;
    loop
        invariant
            i < n,
            v@[i as int] == '"',
            i + 1 <= k <= n,
            n == v@.len(),
            (match parse_string_body(v@, i + 1) {
                Some((sc, sj)) => (match parse_string_body(v@, k as int) {
                    Some((rest, rj)) => sc == acc@ + rest && sj == rj,
                    None => false,
                }),
                None => parse_string_body(v@, k as int) is None,
            }),
        decreases n - k,
    {
        if k >= n {
            proof {
                assert(parse_string_body(v@, k as int) is None);
            }
            return None;
        }
        let c = v[k];
        if c == '"' {
            proof {
                assert(parse_string_body(v@, k as int) == Some(
                    (Seq::<char>::empty(), k + 1 as int),
                ));
                assert(acc@ + Seq::<char>::empty() =~= acc@);
            }
            return Some((acc, k + 1));
        } else if c == '\\' {
            if n - k < 2 {
                proof {
                    assert(parse_string_body(v@, k as int) is None);
                }
                return None;
            }
            let e = v[k + 1];
            if e == 'u' {
                match parse_u_escape_at(v, k) {
                    Some((ch, j)) => {
                        let j1: usize = if j > k {
                            j
                        } else {
                            k + 1
                        };
                        proof {
                            lemma_parse_string_body_advances(v@, j1 as int);
                            assert(parse_string_body(v@, k as int) == parse_string_cons(
                                v@,
                                ch,
                                j1 as int,
                            ));
                            lemma_cons_step(v@, acc@, ch, j1 as int);
                        }
                        acc.push(ch);
                        k = j1;
                    },
                    None => {
                        proof {
                            assert(parse_string_body(v@, k as int) is None);
                        }
                        return None;
                    },
                }
            } else {
                let ch: Option<char> = if e == '"' {
                    Some('"')
                } else if e == '\\' {
                    Some('\\')
                } else if e == '/' {
                    Some('/')
                } else if e == 'b' {
                    Some('\u{8}')
                } else if e == 'f' {
                    Some('\u{c}')
                } else if e == 'n' {
                    Some('\n')
                } else if e == 'r' {
                    Some('\r')
                } else if e == 't' {
                    Some('\t')
                } else {
                    None
                };
                proof {
                    assert(ch == escape_of(e));
                }
                match ch {
                    Some(ch) => {
                        proof {
                            assert(parse_string_body(v@, k as int) == parse_string_cons(
                                v@,
                                ch,
                                k + 2 as int,
                            ));
                            lemma_cons_step(v@, acc@, ch, k + 2 as int);
                        }
                        acc.push(ch);
                        k = k + 2;
                    },
                    None => {
                        proof {
                            assert(parse_string_body(v@, k as int) is None);
                        }
                        return None;
                    },
                }
            }
        } else if (c as u32) < 32 {
            proof {
                assert(parse_string_body(v@, k as int) is None);
            }
            return None;
        } else {
            proof {
                assert(parse_string_body(v@, k as int) == parse_string_cons(v@, c, k + 1 as int));
                lemma_cons_step(v@, acc@, c, k + 1 as int);
            }
            acc.push(c);
            k = k + 1;
        }
    }
}

/// Consuming one character extends the collected content by it.
proof fn lemma_cons_step(s: Seq<char>, acc: Seq<char>, c: char, j: int)
    requires
        j > 0,
    ensures
        (match parse_string_cons(s, c, j) {
            Some((cons, cj)) => (match parse_string_body(s, j) {
                Some((rest, rj)) => acc + cons == acc.push(c) + rest && cj == rj,
                None => false,
            }),
            None => parse_string_body(s, j) is None,
        }),
{
    match parse_string_body(s, j) {
        Some((rest, rj)) => {
            assert(acc + (seq![c] + rest) =~= acc.push(c) + rest);
        },
        None => {},
    }
}

/// The character a `\u` escape at `i` denotes and the position after it.
fn parse_u_escape_at(v: &Vec<char>, i: usize) -> (r: Option<(char, usize)>)
    requires
        i <= v@.len(),
    ensures
        (match (r, parse_u_escape(v@, i as int)) {
            (Some((c, j)), Some((sc, sj))) => c == sc && j as int == sj && j <= v@.len(),
            (None, None) => true,
            _ => false,
        }),
{
    let n = v.len();
    if n - i < 6 {
        proof {
            assert(hex4(v@, i + 2 as int) is None);
        }
        return None;
    }
    match hex4_at(v, i + 2) {
        Some(hv) => {
            if 0xD800 <= hv && hv < 0xDC00 {
                if n - i >= 8 && v[i + 6] == '\\' && v[i + 7] == 'u' {
                    if n - i >= 12 {
                        match hex4_at(v, i + 8) {
                            Some(lo) => {
                                if 0xDC00 <= lo && lo < 0xE000 {
                                    let combined: u32 = 0x10000 + (hv - 0xD800) * 0x400 + (lo
                                        - 0xDC00);
                                    match char_from_u32(combined) {
                                        Some(c) => {
                                            proof {
                                                vstd::utf8::char_u32_cast(c, combined);
                                            }
                                            Some((c, i + 12))
                                        },
                                        None => {
                                            proof {
                                                assert(false);
                                            }
                                            None
                                        },
                                    }
                                } else {
                                    None
                                }
                            },
                            None => None,
                        }
                    } else {
                        proof {
                            assert(hex4(v@, i + 8 as int) is None);
                        }
                        None
                    }
                } else {
                    None
                }
            } else if 0xDC00 <= hv && hv < 0xE000 {
                None
            } else {
                match char_from_u32(hv) {
                    Some(c) => {
                        proof {
                            vstd::utf8::char_u32_cast(c, hv);
                        }
                        Some((c, i + 6))
                    },
                    None => {
                        proof {
                            assert(false);
                        }
                        None
                    },
                }
            }
        },
        None => None,
    }
}

} // verus!

verus! {

/// The next position after a component, bounded as `bounded_next` says.
fn bnext(i: usize, j: usize, len: usize) -> (r: usize)
    requires
        i < len,
    ensures
        r as int == bounded_next(i as int, j as int, len as int),
        i < r <= len,
{
    if i < j && j <= len {
        j
    } else {
        i + 1
    }
}

/// An unsigned JSON integer at `i` and the position after it.
fn parse_json_uint_at(v: &Vec<char>, i: usize) -> (r: Option<(u64, usize)>)
    requires
        i <= v@.len(),
    ensures
        (match (r, parse_json_uint(v@, i as int)) {
            (Some((x, j)), Some((sx, sj))) => x == sx && j as int == sj && i < j <= v@.len(),
            (None, None) => true,
            _ => false,
        }),
{
    let e = digits_to(v, i);
    if e == i {
        return None;
    }
    if v[i] == '0' && e > i + 1 {
        return None;
    }
    proof {
        let sub = v@.subrange(i as int, e as int);
        assert forall|k: int| 0 <= k < sub.len() implies is_digit(#[trigger] sub[k]) by {
            assert(sub[k] == v@[i + k]);
        }
    }
    match crate::digits::parse_u64_digits(v, i, e) {
        Some(x) => Some((x, e)),
        None => None,
    }
}

/// A check-number value at `i` and the position after it.
fn parse_check_value_at(v: &Vec<char>, i: usize) -> (r: Option<(Option<u32>, usize)>)
    requires
        i <= v@.len(),
    ensures
        (match (r, parse_check_value(v@, i as int)) {
            (Some((x, j)), Some((sx, sj))) => x == sx && j as int == sj && i < j <= v@.len(),
            (None, None) => true,
            _ => false,
        }),
{
    let n = v.len();
    if literal_at(v, i, "null") {
        proof {
            reveal_strlit("null");
        }
        return Some((None, i + 4));
    }
    match parse_json_uint_at(v, i) {
        Some((x, j)) => {
            if x <= u32::MAX as u64 && !(j < n && (v[j] == '.' || v[j] == 'e' || v[j] == 'E')) {
                Some((Some(x as u32), j))
            } else {
                None
            }
        },
        None => None,
    }
}

/// An amount value at `i`, as a whole number of hundredths, and the
/// position after it.
fn parse_amount_value_at(v: &Vec<char>, i: usize) -> (r: Option<(u64, usize)>)
    requires
        i <= v@.len(),
    ensures
        (match (r, parse_amount_value(v@, i as int)) {
            (Some((x, j)), Some((sx, sj))) => x == sx && j as int == sj && i < j <= v@.len(),
            (None, None) => true,
            _ => false,
        }),
{
    let n = v.len();
    let (units, j) = match parse_json_uint_at(v, i) {
        Some(p) => p,
        None => {
            return None;
        },
    };
    if j < n && v[j] == '.' {
        let f = digits_to(v, j + 1);
        let flen = f - (j + 1);
        if flen < 1 || flen > 2 {
            return None;
        }
        if f < n && (v[f] == '.' || v[f] == 'e' || v[f] == 'E') {
            return None;
        }
        let frac: u64 = match crate::amount::parse_frac(v, j + 1, f) {
            Some(x) => x,
            None => {
                proof {
                    let sub = v@.subrange(j + 1 as int, f as int);
                    assert forall|k: int| 0 <= k < sub.len() implies is_digit(
                        #[trigger] sub[k],
                    ) by {
                        assert(sub[k] == v@[j + 1 + k]);
                    }
                    assert(false);
                }
                return None;
            },
        };
        proof {
            let sub = v@.subrange(j + 1 as int, f as int);
            assert forall|k: int| 0 <= k < sub.len() implies is_digit(#[trigger] sub[k]) by {
                assert(sub[k] == v@[j + 1 + k]);
            }
        }
        if units <= (u64::MAX - frac) / 100 {
            proof {
                let u = units as nat;
                let fc = frac as nat;
                assert(u * 100 + fc <= u64_max()) by (nonlinear_arith)
                    requires
                        u <= (u64_max() - fc) / 100,
                        fc < 100,
                ;
            }
            Some((units * 100 + frac, f))
        } else {
            proof {
                let u = units as nat;
                let fc = frac as nat;
                assert(u * 100 + fc > u64_max()) by (nonlinear_arith)
                    requires
                        u > (u64_max() - fc) / 100,
                        fc < 100,
                ;
            }
            None
        }
    } else {
        if j < n && (v[j] == 'e' || v[j] == 'E') {
            return None;
        }
        if units <= u64::MAX / 100 {
            proof {
                let u = units as nat;
                assert(u * 100 <= (u64_max() / 100) * 100 <= u64_max()) by (nonlinear_arith)
                    requires
                        u <= u64_max() / 100,
                ;
            }
            Some((units * 100, j))
        } else {
            proof {
                let u = units as nat;
                assert(u * 100 > u64_max()) by (nonlinear_arith)
                    requires
                        u > u64_max() / 100,
                ;
            }
            None
        }
    }
}

/// Skip the JSON value at `i`, whatever it is.
fn skip_value_at(v: &Vec<char>, i: usize) -> (r: Option<usize>)
    requires
        i <= v@.len(),
    ensures
        (match (r, skip_value(v@, i as int)) {
            (Some(j), Some(sj)) => j as int == sj && i < j <= v@.len(),
            (None, None) => true,
            _ => false,
        }),
    decreases v@.len() - i, 0int,
{
    proof {
        lemma_skip_value_advances(v@, i as int);
    }
    let n = v.len();
    if i >= n {
        return None;
    }
    let c = v[i];
    if c == '"' {
        match parse_string_at(v, i) {
            Some((_, j)) => Some(j),
            None => None,
        }
    } else if c == '{' {
        let w = ws_to(v, i + 1);
        let j = bnext(i, w, n);
        if j < n && v[j] == '}' {
            Some(j + 1)
        } else {
            skip_members_at(v, j)
        }
    } else if c == '[' {
        let w = ws_to(v, i + 1);
        let j = bnext(i, w, n);
        if j < n && v[j] == ']' {
            Some(j + 1)
        } else {
            skip_items_at(v, j)
        }
    } else if literal_at(v, i, "true") {
        proof {
            reveal_strlit("true");
        }
        Some(i + 4)
    } else if literal_at(v, i, "false") {
        proof {
            reveal_strlit("false");
        }
        Some(i + 5)
    } else if literal_at(v, i, "null") {
        proof {
            reveal_strlit("null");
        }
        Some(i + 4)
    } else {
        // a number token, skipped loosely
        let i1: usize = if v[i] == '-' {
            i + 1
        } else {
            i
        };
        let e = digits_to(v, i1);
        if e == i1 {
            return None;
        }
        let f: usize = if e < n && v[e] == '.' {
            digits_to(v, e + 1)
        } else {
            e
        };
        if f < n && (v[f] == 'e' || v[f] == 'E') {
            let g: usize = if f + 1 < n && (v[f + 1] == '+' || v[f + 1] == '-') {
                f + 2
            } else {
                f + 1
            };
            let h = digits_to(v, g);
            if h == g {
                None
            } else {
                Some(h)
            }
        } else {
            Some(f)
        }
    }
}

/// Skip the remaining members of an object, from the first character of a
/// key.
fn skip_members_at(v: &Vec<char>, i: usize) -> (r: Option<usize>)
    requires
        i <= v@.len(),
    ensures
        (match (r, skip_members(v@, i as int)) {
            (Some(j), Some(sj)) => j as int == sj && i < j <= v@.len(),
            (None, None) => true,
            _ => false,
        }),
    decreases v@.len() - i, 1int,
{
    proof {
        lemma_skip_members_advances(v@, i as int);
    }
    let n = v.len();
    if i >= n {
        return None;
    }
    match parse_string_at(v, i) {
        Some((_, j0)) => {
            let w1 = bnext(i, j0, n);
            let w2 = ws_to(v, w1);
            let k = bnext(i, w2, n);
            if k < n && v[k] == ':' {
                let w3 = ws_to(v, k + 1);
                let vv = bnext(k, w3, n);
                match skip_value_at(v, vv) {
                    Some(e0) => {
                        let w4 = bnext(vv, e0, n);
                        let w5 = ws_to(v, w4);
                        let p = bnext(vv, w5, n);
                        if p < n && v[p] == ',' {
                            let w6 = ws_to(v, p + 1);
                            skip_members_at(v, bnext(p, w6, n))
                        } else if p < n && v[p] == '}' {
                            Some(p + 1)
                        } else {
                            None
                        }
                    },
                    None => None,
                }
            } else {
                None
            }
        },
        None => None,
    }
}

/// Skip the remaining items of an array, from the first character of an
/// item.
fn skip_items_at(v: &Vec<char>, i: usize) -> (r: Option<usize>)
    requires
        i <= v@.len(),
    ensures
        (match (r, skip_items(v@, i as int)) {
            (Some(j), Some(sj)) => j as int == sj && i < j <= v@.len(),
            (None, None) => true,
            _ => false,
        }),
    decreases v@.len() - i, 1int,
{
    proof {
        lemma_skip_items_advances(v@, i as int);
    }
    let n = v.len();
    if i >= n {
        return None;
    }
    match skip_value_at(v, i) {
        Some(e0) => {
            let w1 = bnext(i, e0, n);
            let w2 = ws_to(v, w1);
            let p = bnext(i, w2, n);
            if p < n && v[p] == ',' {
                let w3 = ws_to(v, p + 1);
                skip_items_at(v, bnext(p, w3, n))
            } else if p < n && v[p] == ']' {
                Some(p + 1)
            } else {
                None
            }
        },
        None => None,
    }
}

} // verus!

verus! {

/// The exec fields of a decoded transaction.
pub(crate) struct TxParts {
    pub date: Option<DateTime>,
    pub check_number: Option<u32>,
    pub category: Option<String>,
    pub vendor: String,
    pub memo: String,
    pub amount: u64,
    pub transaction_type: TransactionType,
    pub is_reconciled: bool,
}

/// Whether the exec fields carry exactly the decoded transaction.
pub(crate) open spec fn tx_parts_match(p: TxParts, raw: RawTransaction) -> bool {
    &&& p.date == raw.date
    &&& p.check_number == raw.check_number
    &&& (match (p.category, raw.category) {
        (Some(c), Some(s)) => c@ == s,
        (None, None) => true,
        _ => false,
    })
    &&& p.vendor@ == raw.vendor
    &&& p.memo@ == raw.memo
    &&& p.amount == raw.amount
    &&& p.transaction_type == raw.transaction_type
    &&& p.is_reconciled == raw.is_reconciled
}

/// Whether a key's characters are exactly the given word.
fn key_is(k: &Vec<char>, w: &str) -> (r: bool)
    ensures
        r == (k@ == w@),
{
    let m: usize = vstd::string::StrSliceExecFns::unicode_len(w);
    if k.len() != m {
        return false;
    }
    let mut j: usize = 0;
    while j < m
        invariant
            j <= m,
            m == w@.len(),
            m == k@.len(),
            forall|x: int| 0 <= x < j ==> k@[x] == w@[x],
        decreases m - j,
    {
        let c: char = vstd::string::StrSliceExecFns::get_char(w, j);
        if k[j] != c {
            return false;
        }
        j = j + 1;
    }
    proof {
        assert(k@ =~= w@);
    }
    true
}

/// The collected state of a transaction object's members, as the spec
/// accumulator.
pub(crate) open spec fn acc_view(
    date: Option<DateTime>,
    check: Option<Option<u32>>,
    cat: Option<Option<String>>,
    vendor: Option<String>,
    memo: Option<String>,
    amount: Option<u64>,
    tt: Option<TransactionType>,
    isrec: Option<bool>,
) -> TxAcc {
    TxAcc {
        date: date,
        check_number: check,
        category: (match cat {
            Some(Some(s)) => Some(Some(s@)),
            Some(None) => Some(None),
            None => None,
        }),
        vendor: (match vendor {
            Some(s) => Some(s@),
            None => None,
        }),
        memo: (match memo {
            Some(s) => Some(s@),
            None => None,
        }),
        amount: amount,
        transaction_type: tt,
        is_reconciled: isrec,
    }
}

/// A transaction object at `i`, on its opening brace.
#[verifier::loop_isolation(false)]
#[verifier::rlimit(100)]
pub(crate) fn parse_tx_object_at(v: &Vec<char>, i: usize) -> (r: Option<(TxParts, usize)>)
    requires
        i <= v@.len(),
    ensures
        (match (r, parse_tx_object(v@, i as int)) {
            (Some((p, j)), Some((raw, sj))) => tx_parts_match(p, raw) && j as int == sj && j
                <= v@.len(),
            (None, None) => true,
            _ => false,
        }),
{
    let n = v.len();
    if !(i < n && v[i] == '{') {
        return None;
    }
    let w0 = ws_to(v, i + 1);
    let j0 = bnext(i, w0, n);
    if j0 < n && v[j0] == '}' {
        return None;
    }
    let mut date: Option<DateTime> = None;
    let mut check: Option<Option<u32>> = None;
    let mut cat: Option<Option<String>> = None;
    let mut vendor: Option<String> = None;
    let mut memo: Option<String> = None;
    let mut amount: Option<u64> = None;
    let mut tt: Option<TransactionType> = None;
    let mut isrec: Option<bool> = None;
    let mut cur: usize = j0;
    proof {
        assert(acc_view(date, check, cat, vendor, memo, amount, tt, isrec) == tx_acc_empty());
    }
    loop
        invariant
            cur <= n,
            n == v@.len(),
            i < n,
            parse_tx_members(v@, j0 as int, tx_acc_empty()) == parse_tx_members(
                v@,
                cur as int,
                acc_view(date, check, cat, vendor, memo, amount, tt, isrec),
            ),
        decreases n - cur,
    {
        let ghost acc0 = acc_view(date, check, cat, vendor, memo, amount, tt, isrec);
        if cur >= n {
            return None;
        }
        let (key, kend) = match parse_string_at(v, cur) {
            Some(p) => p,
            None => {
                return None;
            },
        };
        let w1 = bnext(cur, kend, n);
        let w2 = ws_to(v, w1);
        let k = bnext(cur, w2, n);
        if !(k < n && v[k] == ':') {
            return None;
        }
        let w3 = ws_to(v, k + 1);
        let vv = bnext(k, w3, n);
        let e0: usize;
        if key_is(&key, "date") {
            if date.is_some() {
                return None;
            }
            let (txt, j) = match parse_string_at(v, vv) {
                Some(p) => p,
                None => {
                    return None;
                },
            };
            match crate::date::parse_date_chars(&txt) {
                Some(d) => {
                    date = Some(d);
                    e0 = j;
                },
                None => {
                    return None;
                },
            }
        } else if key_is(&key, "check_number") {
            if check.is_some() {
                return None;
            }
            match parse_check_value_at(v, vv) {
                Some((cv, j)) => {
                    check = Some(cv);
                    e0 = j;
                },
                None => {
                    return None;
                },
            }
        } else if key_is(&key, "category") {
            if cat.is_some() {
                return None;
            }
            if literal_at(v, vv, "null") {
                proof {
                    reveal_strlit("null");
                }
                cat = Some(None);
                e0 = vv + 4;
            } else {
                match parse_string_at(v, vv) {
                    Some((txt, j)) => {
                        cat = Some(Some(crate::chars::chars_string(&txt)));
                        e0 = j;
                    },
                    None => {
                        return None;
                    },
                }
            }
        } else if key_is(&key, "vendor") {
            if vendor.is_some() {
                return None;
            }
            match parse_string_at(v, vv) {
                Some((txt, j)) => {
                    vendor = Some(crate::chars::chars_string(&txt));
                    e0 = j;
                },
                None => {
                    return None;
                },
            }
        } else if key_is(&key, "memo") {
            if memo.is_some() {
                return None;
            }
            match parse_string_at(v, vv) {
                Some((txt, j)) => {
                    memo = Some(crate::chars::chars_string(&txt));
                    e0 = j;
                },
                None => {
                    return None;
                },
            }
        } else if key_is(&key, "amount") {
            if amount.is_some() {
                return None;
            }
            match parse_amount_value_at(v, vv) {
                Some((a, j)) => {
                    amount = Some(a);
                    e0 = j;
                },
                None => {
                    return None;
                },
            }
        } else if key_is(&key, "type") {
            if tt.is_some() {
                return None;
            }
            let (txt, j) = match parse_string_at(v, vv) {
                Some(p) => p,
                None => {
                    return None;
                },
            };
            if key_is(&txt, "deposit") {
                tt = Some(TransactionType::Deposit);
                e0 = j;
            } else if key_is(&txt, "withdrawal") {
                tt = Some(TransactionType::Withdrawal);
                e0 = j;
            } else {
                return None;
            }
        } else if key_is(&key, "is_reconciled") {
            if isrec.is_some() {
                return None;
            }
            if literal_at(v, vv, "true") {
                proof {
                    reveal_strlit("true");
                }
                isrec = Some(true);
                e0 = vv + 4;
            } else if literal_at(v, vv, "false") {
                proof {
                    reveal_strlit("false");
                }
                isrec = Some(false);
                e0 = vv + 5;
            } else {
                return None;
            }
        } else {
            match skip_value_at(v, vv) {
                Some(j) => {
                    e0 = j;
                },
                None => {
                    return None;
                },
            }
        }
        let ghost acc2 = acc_view(date, check, cat, vendor, memo, amount, tt, isrec);
        proof {
            assert(tx_member(v@, vv as int, key@, acc0) == Some((acc2, e0 as int)));
        }
        let w4 = bnext(vv, e0, n);
        let w5 = ws_to(v, w4);
        let p = bnext(vv, w5, n);
        if p < n && v[p] == ',' {
            let w6 = ws_to(v, p + 1);
            let next = bnext(p, w6, n);
            proof {
                assert(parse_tx_members(v@, cur as int, acc0) == parse_tx_members(
                    v@,
                    next as int,
                    acc2,
                ));
            }
            cur = next;
        } else if p < n && v[p] == '}' {
            proof {
                assert(parse_tx_members(v@, cur as int, acc0) == Some((acc2, p + 1 as int)));
            }
            let vendor_v: String = match vendor {
                Some(x) => x,
                None => {
                    return None;
                },
            };
            let tt_v: TransactionType = match tt {
                Some(x) => x,
                None => {
                    return None;
                },
            };
            let parts = TxParts {
                date,
                check_number: (match check {
                    Some(c) => c,
                    None => None,
                }),
                category: (match cat {
                    Some(c) => c,
                    None => None,
                }),
                vendor: vendor_v,
                memo: (match memo {
                    Some(m) => m,
                    None => String::new(),
                }),
                amount: (match amount {
                    Some(a) => a,
                    None => 0,
                }),
                transaction_type: tt_v,
                is_reconciled: (match isrec {
                    Some(b) => b,
                    None => false,
                }),
            };
            return Some((parts, p + 1));
        } else {
            return None;
        }
    }
}

} // verus!

verus! {

/// The exec fields of a decoded record.
pub(crate) struct RecParts {
    pub id: Option<String>,
    pub transaction: TxParts,
}

/// Whether the exec fields carry exactly the decoded record.
pub(crate) open spec fn rec_parts_match(p: RecParts, raw: RawRecord) -> bool {
    &&& (match (p.id, raw.id) {
        (Some(s), Some(t)) => s@ == t,
        (None, None) => true,
        _ => false,
    })
    &&& tx_parts_match(p.transaction, raw.transaction)
}

/// The collected state of a record object's members, as the spec
/// accumulator.
pub(crate) open spec fn rec_acc_view(
    id: Option<String>,
    tx: Option<TxParts>,
    raw_tx: Option<RawTransaction>,
) -> RecAcc {
    RecAcc {
        id: (match id {
            Some(s) => Some(s@),
            None => None,
        }),
        transaction: raw_tx,
    }
}

/// A record object at `i`, on its opening brace.
#[verifier::loop_isolation(false)]
#[verifier::rlimit(100)]
pub(crate) fn parse_record_object_at(v: &Vec<char>, i: usize) -> (r: Option<(RecParts, usize)>)
    requires
        i <= v@.len(),
    ensures
        (match (r, parse_record_object(v@, i as int)) {
            (Some((p, j)), Some((raw, sj))) => rec_parts_match(p, raw) && j as int == sj && j
                <= v@.len(),
            (None, None) => true,
            _ => false,
        }),
{
    let n = v.len();
    if !(i < n && v[i] == '{') {
        return None;
    }
    let w0 = ws_to(v, i + 1);
    let j0 = bnext(i, w0, n);
    if j0 < n && v[j0] == '}' {
        return None;
    }
    let mut id: Option<String> = None;
    let mut tx: Option<TxParts> = None;
    let ghost mut raw_tx: Option<RawTransaction> = None;
    let mut cur: usize = j0;
    proof {
        assert(rec_acc_view(id, tx, raw_tx) == (RecAcc { id: None, transaction: None }));
    }
    loop
        invariant
            cur <= n,
            n == v@.len(),
            i < n,
            (match (tx, raw_tx) {
                (Some(p), Some(raw)) => tx_parts_match(p, raw),
                (None, None) => true,
                _ => false,
            }),
            parse_rec_members(v@, j0 as int, RecAcc { id: None, transaction: None })
                == parse_rec_members(v@, cur as int, rec_acc_view(id, tx, raw_tx)),
        decreases n - cur,
    {
        let ghost acc0 = rec_acc_view(id, tx, raw_tx);
        if cur >= n {
            return None;
        }
        let (key, kend) = match parse_string_at(v, cur) {
            Some(p) => p,
            None => {
                return None;
            },
        };
        let w1 = bnext(cur, kend, n);
        let w2 = ws_to(v, w1);
        let k = bnext(cur, w2, n);
        if !(k < n && v[k] == ':') {
            return None;
        }
        let w3 = ws_to(v, k + 1);
        let vv = bnext(k, w3, n);
        let e0: usize;
        if key_is(&key, "id") {
            if id.is_some() {
                return None;
            }
            match parse_string_at(v, vv) {
                Some((txt, j)) => {
                    id = Some(crate::chars::chars_string(&txt));
                    e0 = j;
                },
                None => {
                    return None;
                },
            }
        } else if key_is(&key, "transaction") {
            if tx.is_some() {
                return None;
            }
            match parse_tx_object_at(v, vv) {
                Some((parts, j)) => {
                    proof {
                        raw_tx = Some(parse_tx_object(v@, vv as int)->Some_0.0);
                    }
                    tx = Some(parts);
                    e0 = j;
                },
                None => {
                    return None;
                },
            }
        } else {
            match skip_value_at(v, vv) {
                Some(j) => {
                    e0 = j;
                },
                None => {
                    return None;
                },
            }
        }
        let ghost acc2 = rec_acc_view(id, tx, raw_tx);
        proof {
            assert(rec_member(v@, vv as int, key@, acc0) == Some((acc2, e0 as int)));
        }
        let w4 = bnext(vv, e0, n);
        let w5 = ws_to(v, w4);
        let p = bnext(vv, w5, n);
        if p < n && v[p] == ',' {
            let w6 = ws_to(v, p + 1);
            let next = bnext(p, w6, n);
            proof {
                assert(parse_rec_members(v@, cur as int, acc0) == parse_rec_members(
                    v@,
                    next as int,
                    acc2,
                ));
            }
            cur = next;
        } else if p < n && v[p] == '}' {
            proof {
                assert(parse_rec_members(v@, cur as int, acc0) == Some((acc2, p + 1 as int)));
            }
            let tx_v: TxParts = match tx {
                Some(x) => x,
                None => {
                    return None;
                },
            };
            return Some((RecParts { id, transaction: tx_v }, p + 1));
        } else {
            return None;
        }
    }
}

/// A friendly diagnostic for text the decoder rejects.
fn decode_error() -> (r: DecodeError) {
    DecodeError { message: String::from_str("the text is not a well-formed record array") }
}

/// A record from decoded parts: a missing identifier becomes a fresh
/// 36-character one, a missing date becomes the present moment.
fn record_of_parts(parts: RecParts, Ghost(raw): Ghost<RawRecord>) -> (rec: Record)
    requires
        rec_parts_match(parts, raw),
    ensures
        record_matches_raw(rec, raw),
{
    let id_v: String = match parts.id {
        Some(s) => s,
        None => crate::record::new_unique_id(),
    };
    let tp = parts.transaction;
    let date_v: DateTime = match tp.date {
        Some(d) => d,
        None => DateTime::now(),
    };
    Record {
        id: id_v,
        transaction: Transaction {
            date: date_v,
            check_number: tp.check_number,
            category: tp.category,
            vendor: tp.vendor,
            memo: tp.memo,
            amount: crate::amount::Amount { cents: tp.amount },
            transaction_type: tp.transaction_type,
            is_reconciled: tp.is_reconciled,
        },
        previous_record: None,
    }
}

/// The records a JSON text denotes. Succeeds exactly on one well-formed
/// array of record objects with nothing but whitespace around it; every
/// field is pinned by the text, except that a record without an
/// identifier member receives a fresh 36-character identifier and a
/// transaction without a date member is dated at the decoder's clock.
#[verifier::loop_isolation(false)]
#[verifier::rlimit(100)]
pub fn decode_json(text: &str) -> (r: Result<Vec<Record>, DecodeError>)
    ensures
        (match (r, spec_decode_json(text@)) {
            (Ok(recs), Some(raws)) => recs@.len() == raws.len() && (forall|k: int|
                0 <= k < raws.len() ==> record_matches_raw(#[trigger] recs@[k], raws[k])),
            (Err(_), None) => true,
            _ => false,
        }),
{
    let v = str_chars(text);
    let n = v.len();
    let i = ws_to(&v, 0);
    if !(i < n && v[i] == '[') {
        return Err(decode_error());
    }
    let w0 = ws_to(&v, i + 1);
    let j0 = bnext(i, w0, n);
    if j0 < n && v[j0] == ']' {
        let t = ws_to(&v, j0 + 1);
        if t == n {
            let empty_out: Vec<Record> = Vec::new();
            return Ok(empty_out);
        } else {
            return Err(decode_error());
        }
    }
    let mut out: Vec<Record> = Vec::new();
    let ghost mut racc: Seq<RawRecord> = Seq::<RawRecord>::empty();
    let mut cur: usize = j0;
    loop
        invariant
            cur <= n,
            n == v@.len(),
            i < n,
            out@.len() == racc.len(),
            forall|k: int|
                0 <= k < racc.len() ==> record_matches_raw(#[trigger] out@[k], racc[k]),
            parse_records(v@, j0 as int, Seq::<RawRecord>::empty()) == parse_records(
                v@,
                cur as int,
                racc,
            ),
        decreases n - cur,
    {
        let ghost racc0 = racc;
        if cur >= n {
            return Err(decode_error());
        }
        let (parts, e0) = match parse_record_object_at(&v, cur) {
            Some(p) => p,
            None => {
                return Err(decode_error());
            },
        };
        let ghost raw = parse_record_object(v@, cur as int)->Some_0.0;
        let rec = record_of_parts(parts, Ghost(raw));
        out.push(rec);
        proof {
            racc = racc0.push(raw);
        }
        let w1 = bnext(cur, e0, n);
        let w2 = ws_to(&v, w1);
        let p = bnext(cur, w2, n);
        if p < n && v[p] == ',' {
            let w3 = ws_to(&v, p + 1);
            let next = bnext(p, w3, n);
            proof {
                assert(parse_records(v@, cur as int, racc0) == parse_records(
                    v@,
                    next as int,
                    racc,
                ));
            }
            cur = next;
        } else if p < n && v[p] == ']' {
            proof {
                assert(parse_records(v@, cur as int, racc0) == Some((racc, p + 1 as int)));
            }
            let t = ws_to(&v, p + 1);
            if t == n {
                return Ok(out);
            } else {
                return Err(decode_error());
            }
        } else {
            return Err(decode_error());
        }
    }
}

} // verus!
