//! Amounts of money. An amount is a non-negative whole number of
//! hundredths, so that the two-decimal-place text every encoding uses is
//! exact. The tab-separated form always carries two fraction digits; the
//! JSON form carries the shortest fraction, but never none.

use vstd::prelude::*;
use crate::chars::{char_pos, chars_string, lemma_char_pos_unique};
use crate::digits::{
    all_digits, dec_chars, digit_char, digits_val, is_digit, lemma_dec_chars_form,
    lemma_dec_chars_val, lemma_digit_char_val, lemma_pad2_form, pad2_chars, parse_u64_digits,
    push_dec_u64, push_pad2_u64, spec_parse_u64, u64_max,
};

verus! {

/// A non-negative amount of money, as a whole number of hundredths.
#[derive(Clone, Copy, Debug, PartialEq, Eq, Structural, Hash)]
pub struct Amount {
    pub cents: u64,
}

impl Amount {
    /// An amount from a whole number of hundredths.
    pub fn from_cents(cents: u64) -> (r: Amount)
        ensures
            r.cents == cents,
    {
        Amount { cents }
    }

    /// The zero amount.
    pub fn zero() -> (r: Amount)
        ensures
            r.cents == 0,
    {
        Amount { cents: 0 }
    }

    /// The text with exactly two decimal places.
    pub open spec fn decimal_chars(self) -> Seq<char> {
        dec_chars((self.cents / 100) as nat) + seq!['.'] + pad2_chars((self.cents % 100) as nat)
    }

    /// The shortest decimal text that still has a fraction digit.
    pub open spec fn json_chars(self) -> Seq<char> {
        if self.cents % 100 == 0 {
            dec_chars((self.cents / 100) as nat) + seq!['.', '0']
        } else if self.cents % 10 == 0 {
            dec_chars((self.cents / 100) as nat) + seq!['.', digit_char(
                ((self.cents / 10) % 10) as int,
            )]
        } else {
            self.decimal_chars()
        }
    }

    /// Append the two-decimal-place text to a character vector.
    pub fn push_decimal_chars(&self, out: &mut Vec<char>)
        ensures
            final(out)@ == old(out)@ + self.decimal_chars(),
    {
        let ghost pre = out@;
        push_dec_u64(out, self.cents / 100);
        out.push('.');
        push_pad2_u64(out, self.cents % 100);
        proof {
            assert(out@ =~= pre + self.decimal_chars());
        }
    }

    /// Append the shortest-fraction text to a character vector.
    pub fn push_json_chars(&self, out: &mut Vec<char>)
        ensures
            final(out)@ == old(out)@ + self.json_chars(),
    {
        let ghost pre = out@;
        if self.cents % 100 == 0 {
            push_dec_u64(out, self.cents / 100);
            out.push('.');
            out.push('0');
            proof {
                assert(out@ =~= pre + self.json_chars());
            }
        } else if self.cents % 10 == 0 {
            push_dec_u64(out, self.cents / 100);
            out.push('.');
            let d: u8 = ((self.cents / 10) % 10) as u8;
            out.push((48 + d) as char);
            proof {
                assert(out@ =~= pre + self.json_chars());
            }
        } else {
            self.push_decimal_chars(out);
        }
    }

    /// The text with exactly two decimal places.
    pub fn to_decimal_string(&self) -> (r: String)
        ensures
            r@ == self.decimal_chars(),
    {
        let mut out: Vec<char> = Vec::new();
        self.push_decimal_chars(&mut out);
        chars_string(&out)
    }
}

/// The number of hundredths that a fraction run of at most two digits
/// denotes.
pub open spec fn frac_cents(fp: Seq<char>) -> nat {
    if fp.len() == 0 {
        0
    } else if fp.len() == 1 {
        digits_val(fp) * 10
    } else {
        digits_val(fp)
    }
}

/// What parsing a plain decimal amount text yields: a whole number of
/// hundredths when the text is a nonempty digit run, optionally followed
/// by a point and at most two fraction digits, and the value fits; nothing
/// otherwise.
pub open spec fn spec_parse_amount(s: Seq<char>) -> Option<u64> {
    let p = char_pos(s, '.');
    if p == s.len() {
        if s.len() > 0 && all_digits(s) && digits_val(s) * 100 <= u64_max() {
            Some((digits_val(s) * 100) as u64)
        } else {
            None
        }
    } else {
        let ip = s.take(p);
        let fp = s.skip(p + 1);
        if ip.len() > 0 && fp.len() <= 2 && all_digits(ip) && all_digits(fp) && digits_val(ip)
            * 100 + frac_cents(fp) <= u64_max() {
            Some((digits_val(ip) * 100 + frac_cents(fp)) as u64)
        } else {
            None
        }
    }
}

/// Parse a slice of a character vector as a decimal amount.
pub fn parse_amount(v: &Vec<char>, from: usize, to: usize) -> (r: Option<u64>)
    requires
        from <= to <= v@.len(),
    ensures
        r == spec_parse_amount(v@.subrange(from as int, to as int)),
{
    let ghost whole = v@.subrange(from as int, to as int);
    let mut dot: usize = from;
    let mut found: bool = false;
    while !found && dot < to
        invariant
            from <= dot <= to <= v@.len(),
            forall|j: int| from <= j < dot ==> v@[j] != '.',
            found ==> (dot < to && v@[dot as int] == '.'),
        decreases to - dot + (if found { 0int } else { 1int }),
    {
        if v[dot] == '.' {
            found = true;
        } else {
            dot = dot + 1;
        }
    }
    proof {
        let p = (dot - from) as int;
        assert forall|j: int| 0 <= j < p implies whole[j] != '.' by {
            assert(whole[j] == v@[from + j]);
        }
        if found {
            assert(whole[p] == v@[dot as int]);
        }
        lemma_char_pos_unique(whole, '.', p);
    }
    if !found {
        // no point: a whole number of units
        match parse_u64_digits(v, from, to) {
            Some(units) => {
                if units <= u64::MAX / 100 {
                    proof {
                        let u = units as nat;
                        assert(u * 100 <= (u64_max() / 100) * 100 <= u64_max()) by (nonlinear_arith)
                            requires u <= u64_max() / 100;
                    }
                    Some(units * 100)
                } else {
                    proof {
                        let u = units as nat;
                        assert(u * 100 > u64_max()) by (nonlinear_arith)
                            requires u > u64_max() / 100;
                    }
                    None
                }
            },
            None => None,
        }
    } else {
        let units = match parse_u64_digits(v, from, dot) {
            Some(x) => x,
            None => {
                proof {
                    assert(whole.take((dot - from) as int) =~= v@.subrange(
                        from as int,
                        dot as int,
                    ));
                }
                return None;
            },
        };
        proof {
            assert(whole.take((dot - from) as int) =~= v@.subrange(from as int, dot as int));
        }
        if to - (dot + 1) > 2 {
            proof {
                assert(whole.skip((dot - from + 1) as int) =~= v@.subrange(
                    (dot + 1) as int,
                    to as int,
                ));
            }
            return None;
        }
        let frac: u64 = match parse_frac(v, dot + 1, to) {
            Some(x) => x,
            None => {
                proof {
                    assert(whole.skip((dot - from + 1) as int) =~= v@.subrange(
                        (dot + 1) as int,
                        to as int,
                    ));
                }
                return None;
            },
        };
        proof {
            assert(whole.skip((dot - from + 1) as int) =~= v@.subrange((dot + 1) as int, to as int));
        }
        if units <= (u64::MAX - frac) / 100 {
            proof {
                let u = units as nat;
                let f = frac as nat;
                assert(u * 100 + f <= u64_max()) by (nonlinear_arith)
                    requires u <= (u64_max() - f) / 100, f < 100;
            }
            Some(units * 100 + frac)
        } else {
            proof {
                let u = units as nat;
                let f = frac as nat;
                assert(u * 100 + f > u64_max()) by (nonlinear_arith)
                    requires u > (u64_max() - f) / 100, f < 100;
            }
            None
        }
    }
}

/// Outside the digits and the point, no character occurs in an amount's
/// two-decimal-place text.
pub proof fn lemma_amount_decimal_avoids(a: Amount, c: char)
    requires
        !is_digit(c),
        c != '.',
    ensures
        crate::chars::avoids(a.decimal_chars(), c),
{
    let q = (a.cents / 100) as nat;
    let r = (a.cents % 100) as nat;
    lemma_dec_chars_form(q);
    lemma_pad2_form(r);
    crate::chars::lemma_avoids_concat(dec_chars(q), seq!['.'], c);
    crate::chars::lemma_avoids_concat(dec_chars(q) + seq!['.'], pad2_chars(r), c);
}

/// Parsing the two-decimal-place text of an amount gives the amount back.
pub proof fn lemma_amount_decimal_round_trip(a: Amount)
    ensures
        spec_parse_amount(a.decimal_chars()) == Some(a.cents),
{
    let q = (a.cents / 100) as nat;
    let r = (a.cents % 100) as nat;
    let ip = dec_chars(q);
    let fp = pad2_chars(r);
    let s = a.decimal_chars();
    lemma_dec_chars_form(q);
    lemma_dec_chars_val(q);
    lemma_pad2_form(r);
    assert forall|j: int| 0 <= j < ip.len() implies s[j] != '.' by {
        assert(s[j] == ip[j]);
        assert(is_digit(ip[j]));
    }
    assert(s[ip.len() as int] == '.');
    lemma_char_pos_unique(s, '.', ip.len() as int);
    assert(s.take(ip.len() as int) =~= ip);
    assert(s.skip(ip.len() as int + 1) =~= fp);
    assert(frac_cents(fp) == r);
    assert(q * 100 + r == a.cents);
}

/// Parsing the shortest-fraction text of an amount also gives the amount
/// back.
pub proof fn lemma_amount_json_round_trip(a: Amount)
    ensures
        spec_parse_amount(a.json_chars()) == Some(a.cents),
{
    if a.cents % 100 == 0 {
        assert(digit_char(0) == '0');
        assert(a.json_chars() =~= dec_chars((a.cents / 100) as nat) + seq!['.', digit_char(0)]);
        lemma_amount_short_frac(a, 0);
    } else if a.cents % 10 == 0 {
        let d = ((a.cents / 10) % 10) as nat;
        assert(a.cents % 100 == d * 10) by (nonlinear_arith)
            requires
                a.cents % 10 == 0,
                d == (a.cents / 10) % 10,
        ;
        lemma_amount_short_frac(a, d);
    } else {
        lemma_amount_decimal_round_trip(a);
    }
}

/// Parsing a one-fraction-digit rendering of an amount whose hundredths
/// end in zero gives the amount back.
proof fn lemma_amount_short_frac(a: Amount, d: nat)
    requires
        d <= 9,
        a.cents % 100 == d * 10,
        a.json_chars() == dec_chars((a.cents / 100) as nat) + seq!['.', digit_char(d as int)],
    ensures
        spec_parse_amount(a.json_chars()) == Some(a.cents),
{
    let q = (a.cents / 100) as nat;
    let ip = dec_chars(q);
    let fp = seq![digit_char(d as int)];
    let s = a.json_chars();
    lemma_dec_chars_form(q);
    lemma_dec_chars_val(q);
    lemma_digit_char_val(d as int);
    assert(s =~= ip + seq!['.'] + fp);
    assert forall|j: int| 0 <= j < ip.len() implies s[j] != '.' by {
        assert(s[j] == ip[j]);
        assert(is_digit(ip[j]));
    }
    assert(s[ip.len() as int] == '.');
    lemma_char_pos_unique(s, '.', ip.len() as int);
    assert(s.take(ip.len() as int) =~= ip);
    assert(s.skip(ip.len() as int + 1) =~= fp);
    assert(fp.drop_last() =~= Seq::<char>::empty());
    assert(digits_val(Seq::<char>::empty()) == 0);
    assert(fp.last() == digit_char(d as int));
    assert(digits_val(fp) == digits_val(fp.drop_last()) * 10 + crate::digits::digit_val(fp.last()));
    assert(digits_val(fp) == d);
    assert(frac_cents(fp) == d * 10);
    assert(q * 100 + d * 10 == a.cents);
}

/// The number of hundredths denoted by a fraction run of at most two
/// digits; nothing when a character is not a digit.
pub(crate) fn parse_frac(v: &Vec<char>, from: usize, to: usize) -> (r: Option<u64>)
    requires
        from <= to <= v@.len(),
        to - from <= 2,
    ensures
        (match r {
            Some(f) => all_digits(v@.subrange(from as int, to as int)) && f == frac_cents(
                v@.subrange(from as int, to as int),
            ) && f < 100,
            None => !all_digits(v@.subrange(from as int, to as int)),
        }),
{
    let ghost fp = v@.subrange(from as int, to as int);
    if from == to {
        proof {
            assert(all_digits(fp));
        }
        return Some(0);
    }
    match parse_u64_digits(v, from, to) {
        Some(x) => {
            proof {
                crate::digits::lemma_digits_val_bound(fp);
                crate::digits::lemma_pow10_small();
            }
            if to - from == 1 {
                Some(x * 10)
            } else {
                Some(x)
            }
        },
        None => {
            proof {
                crate::digits::lemma_digits_val_bound(fp);
                crate::digits::lemma_pow10_small();
            }
            None
        },
    }
}

} // verus!
