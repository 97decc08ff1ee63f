//! Decimal digit text: specification of the decimal rendering of a number,
//! executable formatting into character vectors, parsing of digit runs, and
//! the inversion lemmas that connect the two.

use vstd::prelude::*;

verus! {

/// The character for one decimal digit value.
pub open spec fn digit_char(d: int) -> char {
    ((48 + d) as u8) as char
}

/// Whether a character is a decimal digit.
pub open spec fn is_digit(c: char) -> bool {
    48 <= c as u32 <= 57
}

/// The value of one decimal digit character.
pub open spec fn digit_val(c: char) -> nat {
    if is_digit(c) {
        (c as u32 - 48) as nat
    } else {
        0
    }
}

/// The decimal text of a natural number, most significant digit first,
/// without sign, padding, or leading zeros.
pub open spec fn dec_chars(n: nat) -> Seq<char>
    decreases n,
{
    if n < 10 {
        seq![digit_char(n as int)]
    } else {
        dec_chars(n / 10).push(digit_char((n % 10) as int))
    }
}

/// The decimal text of a number, left-padded with zeros to two places.
pub open spec fn pad2_chars(n: nat) -> Seq<char> {
    if n < 10 {
        seq!['0'] + dec_chars(n)
    } else {
        dec_chars(n)
    }
}

/// The decimal text of a number, left-padded with zeros to four places.
pub open spec fn pad4_chars(n: nat) -> Seq<char> {
    if n < 10 {
        seq!['0', '0', '0'] + dec_chars(n)
    } else if n < 100 {
        seq!['0', '0'] + dec_chars(n)
    } else if n < 1000 {
        seq!['0'] + dec_chars(n)
    } else {
        dec_chars(n)
    }
}

/// Whether every character of a sequence is a decimal digit.
pub open spec fn all_digits(s: Seq<char>) -> bool {
    forall|i: int| 0 <= i < s.len() ==> is_digit(#[trigger] s[i])
}

/// The number that a run of decimal digit characters denotes.
pub open spec fn digits_val(s: Seq<char>) -> nat
    decreases s.len(),
{
    if s.len() == 0 {
        0
    } else {
        digits_val(s.drop_last()) * 10 + digit_val(s.last())
    }
}

/// The decimal rendering of a number consists of digits, is never empty,
/// and starts with a zero only for the number zero itself.
pub proof fn lemma_dec_chars_form(n: nat)
    ensures
        dec_chars(n).len() >= 1,
        all_digits(dec_chars(n)),
        n > 0 ==> dec_chars(n)[0] != '0',
        n < 10 ==> dec_chars(n).len() == 1,
    decreases n,
{
    if n >= 10 {
        lemma_dec_chars_form(n / 10);
    }
}

/// A digit character carries the digit value it was made from.
pub proof fn lemma_digit_char_val(d: int)
    requires
        0 <= d <= 9,
    ensures
        is_digit(digit_char(d)),
        digit_val(digit_char(d)) == d,
{
    assert(digit_char(d) as u32 == 48 + d);
}

/// Reading back the decimal rendering of a number gives the number.
pub proof fn lemma_dec_chars_val(n: nat)
    ensures
        digits_val(dec_chars(n)) == n,
    decreases n,
{
    if n < 10 {
        let s = dec_chars(n);
        assert(s.drop_last() =~= Seq::<char>::empty());
        assert(digits_val(Seq::<char>::empty()) == 0);
        lemma_digit_char_val(n as int);
        assert(digits_val(s) == digits_val(s.drop_last()) * 10 + digit_val(s.last()));
    } else {
        lemma_dec_chars_val(n / 10);
        lemma_digit_char_val((n % 10) as int);
        let s = dec_chars(n);
        assert(s.drop_last() =~= dec_chars(n / 10));
        assert(digits_val(s) == (n / 10) * 10 + n % 10);
    }
}

/// Appending digit text multiplies the value by the corresponding power of ten.
pub proof fn lemma_digits_val_append(s: Seq<char>, t: Seq<char>)
    ensures
        digits_val(s + t) == digits_val(s) * pow10(t.len()) + digits_val(t),
    decreases t.len(),
{
    if t.len() == 0 {
        assert(s + t =~= s);
        assert(pow10(t.len()) == 1);
        let v = digits_val(s);
        assert(v * 1 == v) by (nonlinear_arith);
        assert(v * pow10(t.len()) == v * 1);
    } else {
        lemma_digits_val_append(s, t.drop_last());
        assert((s + t).drop_last() =~= s + t.drop_last());
        assert((s + t).last() == t.last());
        let v = digits_val(s);
        let p = pow10((t.len() - 1) as nat);
        let dvd = digits_val(t.drop_last());
        let dl = digit_val(t.last());
        assert(digits_val(s + t) == digits_val(s + t.drop_last()) * 10 + dl);
        assert(digits_val(s + t.drop_last()) == v * p + dvd);
        assert((v * p + dvd) * 10 + dl == v * (10 * p) + (dvd * 10 + dl)) by (nonlinear_arith);
        assert(pow10(t.len()) == 10 * p);
        assert(digits_val(t) == dvd * 10 + dl);
        assert(digits_val(s + t) == (v * p + dvd) * 10 + dl);
        assert(v * pow10(t.len()) == v * (10 * p));
        assert(digits_val(s + t) == digits_val(s) * pow10(t.len()) + digits_val(t));
    }
}

/// Ten to a natural power.
pub open spec fn pow10(k: nat) -> nat
    decreases k,
{
    if k == 0 {
        1
    } else {
        10 * pow10((k - 1) as nat)
    }
}

/// A digit run is worth at least as much as any of its prefixes.
pub proof fn lemma_digits_val_prefix(s: Seq<char>, i: int)
    requires
        0 <= i <= s.len(),
    ensures
        digits_val(s.take(i)) <= digits_val(s),
{
    lemma_digits_val_append(s.take(i), s.skip(i));
    assert(s.take(i) + s.skip(i) =~= s);
    lemma_pow10_pos((s.len() - i) as nat);
    let v = digits_val(s.take(i));
    let p = pow10((s.len() - i) as nat);
    assert(v * 1 <= v * p) by (nonlinear_arith)
        requires p >= 1, v >= 0;
}

/// The small powers of ten, by computation.
pub proof fn lemma_pow10_small()
    ensures
        pow10(0) == 1,
        pow10(1) == 10,
        pow10(2) == 100,
        pow10(3) == 1000,
        pow10(4) == 10000,
{
    reveal_with_fuel(pow10, 6);
}

pub proof fn lemma_pow10_pos(k: nat)
    ensures
        pow10(k) >= 1,
    decreases k,
{
    if k > 0 {
        lemma_pow10_pos((k - 1) as nat);
    }
}

/// Append the decimal text of a number to a character vector.
pub fn push_dec_u64(out: &mut Vec<char>, n: u64)
    ensures
        final(out)@ == old(out)@ + dec_chars(n as nat),
    decreases n,
{
    if n >= 10 {
        push_dec_u64(out, n / 10);
    }
    let d: u8 = (n % 10) as u8;
    let c: char = (48 + d) as char;
    out.push(c);
    proof {
        if n < 10 {
            assert(old(out)@ + dec_chars(n as nat) =~= old(out)@.push(c));
        } else {
            assert(old(out)@ + dec_chars(n as nat) =~= (old(out)@
                + dec_chars((n / 10) as nat)).push(c));
        }
    }
}

/// Append the two-place zero-padded decimal text of a number.
pub fn push_pad2_u64(out: &mut Vec<char>, n: u64)
    ensures
        final(out)@ == old(out)@ + pad2_chars(n as nat),
{
    if n < 10 {
        out.push('0');
    }
    push_dec_u64(out, n);
    proof {
        if n < 10 {
            assert(old(out)@ + pad2_chars(n as nat) =~= old(out)@.push('0') + dec_chars(
                n as nat,
            ));
        }
    }
}

/// Append the four-place zero-padded decimal text of a number.
pub fn push_pad4_u64(out: &mut Vec<char>, n: u64)
    ensures
        final(out)@ == old(out)@ + pad4_chars(n as nat),
{
    let ghost pre = out@;
    if n < 10 {
        out.push('0');
        out.push('0');
        out.push('0');
    } else if n < 100 {
        out.push('0');
        out.push('0');
    } else if n < 1000 {
        out.push('0');
    }
    push_dec_u64(out, n);
    proof {
        assert(pre + pad4_chars(n as nat) =~= out@);
    }
}

/// A run of digits denotes less than ten to its length.
pub proof fn lemma_digits_val_bound(s: Seq<char>)
    ensures
        digits_val(s) < pow10(s.len()),
    decreases s.len(),
{
    if s.len() == 0 {
    } else {
        lemma_digits_val_bound(s.drop_last());
        assert(digit_val(s.last()) <= 9);
        let v = digits_val(s.drop_last());
        let p = pow10((s.len() - 1) as nat);
        assert(v * 10 + 9 < p * 10) by (nonlinear_arith)
            requires v < p;
    }
}

/// The length of a decimal rendering: one digit below ten, two below a
/// hundred, four below ten thousand.
pub proof fn lemma_dec_chars_len(n: nat)
    ensures
        n < 10 ==> dec_chars(n).len() == 1,
        10 <= n < 100 ==> dec_chars(n).len() == 2,
        100 <= n < 1000 ==> dec_chars(n).len() == 3,
        1000 <= n < 10000 ==> dec_chars(n).len() == 4,
    decreases n,
{
    if n >= 10 {
        lemma_dec_chars_len(n / 10);
    }
}

/// The two-place padded rendering of a number below one hundred: two
/// digits that read back as the number.
pub proof fn lemma_pad2_form(n: nat)
    requires
        n < 100,
    ensures
        pad2_chars(n).len() == 2,
        all_digits(pad2_chars(n)),
        digits_val(pad2_chars(n)) == n,
{
    lemma_dec_chars_form(n);
    lemma_dec_chars_val(n);
    lemma_dec_chars_len(n);
    if n < 10 {
        lemma_digits_val_append(seq!['0'], dec_chars(n));
        lemma_digits_val_zeros(seq!['0']);
        assert(is_digit('0'));
    }
}

/// The four-place padded rendering of a number below ten thousand: four
/// digits that read back as the number.
pub proof fn lemma_pad4_form(n: nat)
    requires
        n < 10000,
    ensures
        pad4_chars(n).len() == 4,
        all_digits(pad4_chars(n)),
        digits_val(pad4_chars(n)) == n,
{
    lemma_dec_chars_form(n);
    lemma_dec_chars_val(n);
    lemma_dec_chars_len(n);
    assert(is_digit('0'));
    if n < 10 {
        lemma_digits_val_append(seq!['0', '0', '0'], dec_chars(n));
        lemma_digits_val_zeros(seq!['0', '0', '0']);
        assert(digits_val(seq!['0', '0', '0']) == 0);
        assert(pad4_chars(n) == seq!['0', '0', '0'] + dec_chars(n));
        assert(digits_val(pad4_chars(n)) == 0 * pow10(dec_chars(n).len()) + n);
    } else if n < 100 {
        lemma_digits_val_append(seq!['0', '0'], dec_chars(n));
        lemma_digits_val_zeros(seq!['0', '0']);
    } else if n < 1000 {
        lemma_digits_val_append(seq!['0'], dec_chars(n));
        lemma_digits_val_zeros(seq!['0']);
    }
}

/// A run of zero characters denotes zero.
pub proof fn lemma_digits_val_zeros(s: Seq<char>)
    requires
        forall|i: int| 0 <= i < s.len() ==> s[i] == '0',
    ensures
        digits_val(s) == 0,
    decreases s.len(),
{
    if s.len() > 0 {
        lemma_digits_val_zeros(s.drop_last());
    }
}

/// A run of digits avoids every non-digit character.
pub proof fn lemma_digits_avoid(s: Seq<char>, c: char)
    requires
        all_digits(s),
        !is_digit(c),
    ensures
        crate::chars::avoids(s, c),
{
}

/// The largest value a `u64` can hold, as a spec number.
pub open spec fn u64_max() -> nat {
    0xffff_ffff_ffff_ffff
}

/// What parsing a run of characters as an unsigned number yields: the
/// denoted value when the run is a nonempty all-digit run that fits, and
/// nothing otherwise.
pub open spec fn spec_parse_u64(s: Seq<char>) -> Option<u64> {
    if s.len() > 0 && all_digits(s) && digits_val(s) <= u64_max() {
        Some(digits_val(s) as u64)
    } else {
        None
    }
}

/// Parse a slice of a character vector as an unsigned decimal number.
pub fn parse_u64_digits(s: &Vec<char>, from: usize, to: usize) -> (r: Option<u64>)
    requires
        from <= to <= s@.len(),
    ensures
        r == spec_parse_u64(s@.subrange(from as int, to as int)),
{
    let ghost whole = s@.subrange(from as int, to as int);
    if from == to {
        return None;
    }
    let mut acc: u64 = 0;
    let mut i: usize = from;
    while i < to
        invariant
            from <= i <= to <= s@.len(),
            whole == s@.subrange(from as int, to as int),
            all_digits(whole.take(i - from)),
            acc as nat == digits_val(whole.take(i - from)),
        decreases to - i,
    {
        let c: char = s[i];
        let u: u32 = c as u32;
        proof {
            assert(whole[i - from] == c);
        }
        if u < 48 || u > 57 {
            return None;
        }
        let d: u64 = (u - 48) as u64;
        if acc > (u64::MAX - d) / 10 {
            proof {
                let pre = whole.take(i - from + 1);
                assert(pre.drop_last() =~= whole.take(i - from));
                assert(digits_val(pre) == acc as nat * 10 + d as nat);
                lemma_digits_val_prefix(whole, i - from + 1);
                assert(acc as nat * 10 + d > u64_max()) by (nonlinear_arith)
                    requires acc as nat > (u64_max() - d) / 10, 0 <= d <= 9;
            }
            return None;
        }
        proof {
            let pre = whole.take(i - from + 1);
            assert(pre.drop_last() =~= whole.take(i - from));
            assert(acc as nat * 10 + d <= u64_max()) by (nonlinear_arith)
                requires acc as nat <= (u64_max() - d) / 10, 0 <= d <= 9;
        }
        acc = acc * 10 + d;
        i = i + 1;
    }
    proof {
        assert(whole.take(to - from) =~= whole);
    }
    Some(acc)
}

} // verus!
