//! The round-trip laws of the JSON codec: every piece the encoder writes
//! is read back exactly by the decoder, so decoding an encoded sequence
//! of records reproduces the records, field for field.

use vstd::prelude::*;
use crate::amount::{frac_cents, Amount};
use crate::digits::{
    all_digits, dec_chars, digit_char, digits_val, is_digit, lemma_dec_chars_form,
    lemma_dec_chars_val, lemma_digit_char_val, u64_max,
};
use crate::json::{hex_char, json_escape, json_escape_char, json_string_chars};
use crate::json_parse::{
    digits_end, escape_of, hex4, hex_val, parse_amount_value, parse_check_value,
    parse_json_uint, parse_literal, parse_string, parse_string_body, parse_string_cons,
    parse_u_escape,
};

verus! {

/// A hexadecimal digit character reads back as its value.
proof fn lemma_hex_char_val(d: int)
    requires
        0 <= d < 16,
    ensures
        hex_val(hex_char(d)) == d,
        (hex_char(d) as u32) < 128,
{
    if d < 10 {
        lemma_digit_char_val(d);
        assert(hex_char(d) as u32 == 48 + d);
    } else {
        assert(hex_char(d) as u32 == 97 + (d - 10));
    }
}

/// The decoder reads back exactly the string body the encoder wrote.
pub(crate) proof fn lemma_body_round_trip(pre: Seq<char>, s: Seq<char>, post: Seq<char>)
    ensures
        parse_string_body(pre + json_escape(s) + seq!['"'] + post, pre.len() as int) == Some(
            (s, (pre.len() + json_escape(s).len() + 1) as int),
        ),
    decreases s.len(),
{
    let text = pre + json_escape(s) + seq!['"'] + post;
    let i = pre.len() as int;
    if s.len() == 0 {
        assert(json_escape(s) == Seq::<char>::empty());
        assert(text[i] == '"');
        assert(parse_string_body(text, i) == Some((Seq::<char>::empty(), i + 1)));
        assert(s =~= Seq::<char>::empty());
    } else {
        let c = s[0];
        let ec = json_escape_char(c);
        assert(json_escape(s) == ec + json_escape(s.skip(1)));
        let pre2 = pre + ec;
        lemma_body_round_trip(pre2, s.skip(1), post);
        let text2 = pre2 + json_escape(s.skip(1)) + seq!['"'] + post;
        assert(text =~= text2);
        let i2 = pre2.len() as int;
        assert(parse_string_body(text, i2) == Some(
            (s.skip(1), (pre2.len() + json_escape(s.skip(1)).len() + 1) as int),
        ));
        assert(i2 == i + ec.len());
        // the escape block begins at `i`
        assert forall|k: int| 0 <= k < ec.len() implies text[i + k] == ec[k] by {
            assert((json_escape(s) + seq!['"'] + post)[k] == json_escape(s)[k]);
            assert(json_escape(s)[k] == ec[k]);
        }
        if c == '"' || c == '\\' || c == '\u{8}' || c == '\t' || c == '\n' || c == '\u{c}' || c
            == '\r' {
            assert(ec.len() == 2 && ec[0] == '\\');
            assert(text[i] == '\\');
            assert(text[i + 1] == ec[1]);
            assert(ec[1] != 'u');
            assert(escape_of(ec[1]) == Some(c));
            assert(parse_string_body(text, i) == parse_string_cons(text, c, i + 2));
        } else if (c as u32) < 32 {
            assert(ec =~= seq!['\\', 'u', '0', '0', hex_char(c as u32 as int / 16), hex_char(
                c as u32 as int % 16,
            )]);
            assert(text[i] == '\\' && text[i + 1] == 'u');
            assert(text[i + 2] == '0' && text[i + 3] == '0');
            assert(text[i + 4] == hex_char(c as u32 as int / 16));
            assert(text[i + 5] == hex_char(c as u32 as int % 16));
            lemma_hex_char_val(c as u32 as int / 16);
            lemma_hex_char_val(c as u32 as int % 16);
            assert(hex_val('0') == 0);
            assert(hex4(text, i + 2) == Some(
                0 * 4096 + 0 * 256 + (c as u32 as int / 16) * 16 + (c as u32 as int % 16),
            ));
            assert((c as u32 as int / 16) * 16 + (c as u32 as int % 16) == c as u32);
            assert(parse_u_escape(text, i) == Some((((c as u32) as u32) as char, i + 6)));
            vstd::utf8::char_u32_cast(c, c as u32);
            assert(parse_u_escape(text, i) == Some((c, i + 6)));
            assert(parse_string_body(text, i) == parse_string_cons(text, c, i + 6));
        } else {
            assert(ec =~= seq![c]);
            assert(text[i] == c);
            assert(c != '"' && c != '\\' && (c as u32) >= 32);
            assert(parse_string_body(text, i) == parse_string_cons(text, c, i + 1));
        }
        assert(parse_string_body(text, i) == parse_string_cons(text, c, i2));
        assert(parse_string_cons(text, c, i2) == Some(
            (seq![c] + s.skip(1), (pre2.len() + json_escape(s.skip(1)).len() + 1) as int),
        ));
        assert(seq![c] + s.skip(1) =~= s);
        assert(pre2.len() + json_escape(s.skip(1)).len() + 1 == pre.len() + json_escape(s).len()
            + 1);
    }
}

/// The decoder reads back exactly the string literal the encoder wrote.
pub proof fn lemma_string_round_trip(pre: Seq<char>, s: Seq<char>, post: Seq<char>)
    ensures
        parse_string(pre + json_string_chars(s) + post, pre.len() as int) == Some(
            (s, (pre.len() + json_string_chars(s).len()) as int),
        ),
{
    reveal(json_string_chars);
    let text = pre + json_string_chars(s) + post;
    assert(text[pre.len() as int] == '"');
    lemma_body_round_trip(pre + seq!['"'], s, post);
    let text2 = (pre + seq!['"']) + json_escape(s) + seq!['"'] + post;
    assert(text =~= text2);
    assert(parse_string_body(text, pre.len() as int + 1) == Some(
        (s, (pre.len() + 1 + json_escape(s).len() + 1) as int),
    ));
    assert(pre.len() < text.len());
}

/// The first position at or after `i` holding a non-digit pins the digit
/// run's end.
proof fn lemma_digits_end_unique(s: Seq<char>, i: int, k: int)
    requires
        0 <= i <= k <= s.len(),
        forall|j: int| i <= j < k ==> is_digit(#[trigger] s[j]),
        k < s.len() ==> !is_digit(s[k]),
    ensures
        digits_end(s, i) == k,
    decreases k - i,
{
    if i < k {
        lemma_digits_end_unique(s, i + 1, k);
    }
}

/// The decoder reads back exactly the unsigned integer the encoder wrote.
proof fn lemma_uint_round_trip(pre: Seq<char>, n: u64, post: Seq<char>)
    requires
        post.len() > 0 ==> !is_digit(post[0]),
    ensures
        parse_json_uint(pre + dec_chars(n as nat) + post, pre.len() as int) == Some(
            (n, (pre.len() + dec_chars(n as nat).len()) as int),
        ),
{
    let d = dec_chars(n as nat);
    let text = pre + d + post;
    let i = pre.len() as int;
    let e = i + d.len();
    lemma_dec_chars_form(n as nat);
    lemma_dec_chars_val(n as nat);
    assert forall|j: int| i <= j < e implies is_digit(#[trigger] text[j]) by {
        assert(text[j] == d[j - i]);
    }
    if e < text.len() {
        assert(text[e] == post[0]);
    }
    lemma_digits_end_unique(text, i, e);
    assert(text[i] == d[0]);
    if n > 0 {
        assert(text[i] != '0');
    } else {
        assert(d.len() == 1);
    }
    assert(text.subrange(i, e) =~= d);
}

/// The word `null` does not stand where a digit does.
proof fn lemma_digit_is_not_null(text: Seq<char>, i: int)
    requires
        0 <= i < text.len(),
        is_digit(text[i]),
    ensures
        !parse_literal(text, i, "null"@),
{
    reveal_strlit("null");
    if parse_literal(text, i, "null"@) {
        assert(text.subrange(i, i + 4)[0] == text[i]);
        assert(text[i] == 'n');
    }
}

/// The decoder reads back exactly the check number the encoder wrote.
pub proof fn lemma_check_round_trip(pre: Seq<char>, n: u32, post: Seq<char>)
    requires
        post.len() > 0,
        !is_digit(post[0]),
        post[0] != '.' && post[0] != 'e' && post[0] != 'E',
    ensures
        parse_check_value(pre + dec_chars(n as nat) + post, pre.len() as int) == Some(
            (Some(n), (pre.len() + dec_chars(n as nat).len()) as int),
        ),
{
    let d = dec_chars(n as nat);
    let text = pre + d + post;
    let i = pre.len() as int;
    lemma_uint_round_trip(pre, n as u64, post);
    lemma_dec_chars_form(n as nat);
    assert(text[i] == d[0]);
    lemma_digit_is_not_null(text, i);
    let e = i + d.len();
    assert(text[e] == post[0]);
}

/// The decoder reads back exactly the amount the encoder wrote.
pub proof fn lemma_amount_round_trip(pre: Seq<char>, a: Amount, post: Seq<char>)
    requires
        post.len() > 0,
        !is_digit(post[0]),
        post[0] != '.' && post[0] != 'e' && post[0] != 'E',
    ensures
        parse_amount_value(pre + a.json_chars() + post, pre.len() as int) == Some(
            (a.cents, (pre.len() + a.json_chars().len()) as int),
        ),
{
    let i = pre.len() as int;
    let q = (a.cents / 100) as nat;
    let units = dec_chars(q);
    lemma_dec_chars_form(q);
    lemma_dec_chars_val(q);
    if a.cents % 100 == 0 {
        let fp = seq!['0'];
        assert(a.json_chars() =~= units + seq!['.'] + fp);
        assert(fp.drop_last() =~= Seq::<char>::empty());
        assert(digits_val(Seq::<char>::empty()) == 0);
        assert(is_digit('0') && crate::digits::digit_val('0') == 0);
        assert(frac_cents(fp) == 0);
        lemma_amount_round_trip_frac(pre, a, fp, post);
    } else if a.cents % 10 == 0 {
        let dd = ((a.cents / 10) % 10) as nat;
        let fp = seq![digit_char(dd as int)];
        lemma_digit_char_val(dd as int);
        assert(a.json_chars() =~= units + seq!['.'] + fp);
        assert(fp.drop_last() =~= Seq::<char>::empty());
        assert(digits_val(Seq::<char>::empty()) == 0);
        assert(frac_cents(fp) == dd * 10);
        assert(a.cents % 100 == dd * 10) by (nonlinear_arith)
            requires
                a.cents % 10 == 0,
                dd == (a.cents / 10) % 10,
        ;
        lemma_amount_round_trip_frac(pre, a, fp, post);
    } else {
        let r = (a.cents % 100) as nat;
        let fp = crate::digits::pad2_chars(r);
        crate::digits::lemma_pad2_form(r);
        assert(a.json_chars() =~= units + seq!['.'] + fp);
        assert(frac_cents(fp) == r);
        lemma_amount_round_trip_frac(pre, a, fp, post);
    }
}

/// The common shape of the three amount renderings: the units, a point,
/// and one or two fraction digits.
proof fn lemma_amount_round_trip_frac(pre: Seq<char>, a: Amount, fp: Seq<char>, post: Seq<char>)
    requires
        post.len() > 0,
        !is_digit(post[0]),
        post[0] != '.' && post[0] != 'e' && post[0] != 'E',
        1 <= fp.len() <= 2,
        all_digits(fp),
        a.json_chars() == dec_chars((a.cents / 100) as nat) + seq!['.'] + fp,
        (a.cents / 100) * 100 + frac_cents(fp) == a.cents,
    ensures
        parse_amount_value(pre + a.json_chars() + post, pre.len() as int) == Some(
            (a.cents, (pre.len() + a.json_chars().len()) as int),
        ),
{
    let i = pre.len() as int;
    let q = (a.cents / 100) as nat;
    let units = dec_chars(q);
    let text = pre + a.json_chars() + post;
    let post1 = seq!['.'] + fp + post;
    lemma_dec_chars_form(q);
    lemma_dec_chars_val(q);
    assert(text =~= pre + units + post1);
    assert(!is_digit('.'));
    lemma_uint_round_trip(pre, (a.cents / 100) as u64, post1);
    assert(parse_json_uint(text, i) == Some(((a.cents / 100) as u64, i + units.len())));
    let j = i + units.len();
    assert(text[j] == '.');
    let f = j + 1 + fp.len();
    assert forall|k: int| j + 1 <= k < f implies is_digit(#[trigger] text[k]) by {
        assert(text[k] == fp[k - (j + 1)]);
    }
    assert(text[f] == post[0]);
    lemma_digits_end_unique(text, j + 1, f);
    assert(text.subrange(j + 1, f) =~= fp);
    let u = a.cents / 100;
    assert(u <= (u64_max() - frac_cents(fp)) / 100) by (nonlinear_arith)
        requires
            u * 100 + frac_cents(fp) == a.cents,
            a.cents <= u64_max(),
            frac_cents(fp) >= 0,
            u >= 0,
    ;
    assert(parse_amount_value(text, i) == Some((a.cents, f)));
    assert(f == pre.len() + a.json_chars().len());
}

} // verus!

