//! The pretty-printed JSON encoding of records: a two-space-indented
//! array of objects, each object's keys in a fixed order, with absent
//! check numbers and categories, empty memos, and false reconciliation
//! flags omitted entirely.

use vstd::prelude::*;
use crate::chars::chars_string;
use crate::chars::push_str_chars;
use crate::digits::{dec_chars, digit_char, push_dec_u64};
use crate::record::Record;
use crate::transaction::Transaction;

verus! {

/// The hexadecimal digit character for a value below sixteen, lowercase.
pub open spec fn hex_char(d: int) -> char {
    if d < 10 {
        digit_char(d)
    } else {
        ((97 + (d - 10)) as u8) as char
    }
}

/// The escape of one character inside a JSON string literal: the quote,
/// the backslash, and control characters are escaped; everything else
/// stands for itself.
pub open spec fn json_escape_char(c: char) -> Seq<char> {
    if c == '"' {
        seq!['\\', '"']
    } else if c == '\\' {
        seq!['\\', '\\']
    } else if c == '\u{8}' {
        seq!['\\', 'b']
    } else if c == '\t' {
        seq!['\\', 't']
    } else if c == '\n' {
        seq!['\\', 'n']
    } else if c == '\u{c}' {
        seq!['\\', 'f']
    } else if c == '\r' {
        seq!['\\', 'r']
    } else if (c as u32) < 32 {
        seq!['\\', 'u', '0', '0', hex_char(c as u32 as int / 16), hex_char(c as u32 as int % 16)]
    } else {
        seq![c]
    }
}

/// The escaped body of a JSON string literal.
pub open spec fn json_escape(s: Seq<char>) -> Seq<char>
    decreases s.len(),
{
    if s.len() == 0 {
        Seq::<char>::empty()
    } else {
        json_escape_char(s[0]) + json_escape(s.skip(1))
    }
}

/// Escaping one more character appends its escape.
pub proof fn lemma_json_escape_push(a: Seq<char>, c: char)
    ensures
        json_escape(a.push(c)) == json_escape(a) + json_escape_char(c),
    decreases a.len(),
{
    if a.len() == 0 {
        assert(a.push(c)[0] == c);
        assert(a.push(c).skip(1) =~= Seq::<char>::empty());
        assert(json_escape(Seq::<char>::empty()) == Seq::<char>::empty());
        assert(json_escape(a.push(c)) =~= json_escape(a) + json_escape_char(c));
    } else {
        lemma_json_escape_push(a.skip(1), c);
        assert(a.push(c)[0] == a[0]);
        assert(a.push(c).skip(1) =~= a.skip(1).push(c));
        assert(json_escape(a.push(c)) =~= json_escape(a) + json_escape_char(c));
    }
}

/// A JSON string literal carrying the given characters.
#[verifier::opaque]
pub open spec fn json_string_chars(s: Seq<char>) -> Seq<char> {
    seq!['"'] + json_escape(s) + seq!['"']
}

/// Two spaces for each level of indentation.
#[verifier::opaque]
pub open spec fn indent_chars(n: nat) -> Seq<char> {
    Seq::new(2 * n, |i: int| ' ')
}

/// The separator between members and between array items.
pub open spec fn member_sep() -> Seq<char> {
    seq![',', '\n']
}

/// The separator, indentation and key that introduce a member after the
/// first.
#[verifier::opaque]
pub open spec fn member_prefix(ind: nat, key: Seq<char>) -> Seq<char> {
    member_sep() + indent_chars(ind) + key
}

/// The pretty JSON object text of a transaction, its members one level
/// deeper than `ind`: its opening members followed by the rest.
#[verifier::opaque]
pub open spec fn transaction_json_chars(t: Transaction, ind: nat) -> Seq<char> {
    tx_json_head(t, ind) + tx_json_tail(t, ind)
}

/// The pretty JSON object text of a record: the identifier and the
/// transaction; the chain link is never part of the JSON shape.
#[verifier::opaque]
pub open spec fn record_json_chars(r: Record, ind: nat) -> Seq<char> {
    let ii = indent_chars(ind + 1);
    seq!['{', '\n'] + ii + "\"id\": "@ + json_string_chars(r.id@) + member_sep() + ii
        + "\"transaction\": "@ + transaction_json_chars(r.transaction, ind + 1) + seq!['\n']
        + indent_chars(ind) + seq!['}']
}

/// The items of the array after the first, each preceded by the separator
/// and the item indentation.
pub open spec fn json_items_tail(rs: Seq<Record>) -> Seq<char>
    decreases rs.len(),
{
    if rs.len() == 0 {
        Seq::<char>::empty()
    } else {
        member_sep() + indent_chars(1) + record_json_chars(rs[0], 1) + json_items_tail(rs.skip(1))
    }
}

/// One more tail item appends its separator, indentation and object.
pub proof fn lemma_json_items_push(a: Seq<Record>, r: Record)
    ensures
        json_items_tail(a.push(r)) == json_items_tail(a) + member_sep() + indent_chars(1)
            + record_json_chars(r, 1),
    decreases a.len(),
{
    if a.len() == 0 {
        assert(a.push(r)[0] == r);
        assert(a.push(r).skip(1) =~= Seq::<Record>::empty());
        assert(json_items_tail(Seq::<Record>::empty()) == Seq::<char>::empty());
        assert(json_items_tail(a.push(r)) =~= json_items_tail(a) + member_sep() + indent_chars(1)
            + record_json_chars(r, 1));
    } else {
        lemma_json_items_push(a.skip(1), r);
        assert(a.push(r)[0] == a[0]);
        assert(a.push(r).skip(1) =~= a.skip(1).push(r));
        assert(json_items_tail(a.push(r)) =~= json_items_tail(a) + member_sep() + indent_chars(1)
            + record_json_chars(r, 1));
    }
}

/// The pretty JSON array text of a sequence of records.
pub open spec fn spec_encode_json(rs: Seq<Record>) -> Seq<char> {
    if rs.len() == 0 {
        seq!['[', ']']
    } else {
        seq!['[', '\n'] + indent_chars(1) + record_json_chars(rs[0], 1) + json_items_tail(
            rs.skip(1),
        ) + seq!['\n', ']']
    }
}

/// Append one lowercase hexadecimal digit.
fn push_hex(out: &mut Vec<char>, d: u32)
    requires
        d < 16,
    ensures
        final(out)@ == old(out)@.push(hex_char(d as int)),
{
    if d < 10 {
        out.push((48 + d as u8) as char);
    } else {
        out.push((97 + (d - 10) as u8) as char);
    }
}

/// Append the escape of one character.
fn push_escaped_char(out: &mut Vec<char>, c: char)
    ensures
        final(out)@ == old(out)@ + json_escape_char(c),
{
    let ghost pre = out@;
    if c == '"' {
        out.push('\\');
        out.push('"');
    } else if c == '\\' {
        out.push('\\');
        out.push('\\');
    } else if c == '\u{8}' {
        out.push('\\');
        out.push('b');
    } else if c == '\t' {
        out.push('\\');
        out.push('t');
    } else if c == '\n' {
        out.push('\\');
        out.push('n');
    } else if c == '\u{c}' {
        out.push('\\');
        out.push('f');
    } else if c == '\r' {
        out.push('\\');
        out.push('r');
    } else if (c as u32) < 32 {
        out.push('\\');
        out.push('u');
        out.push('0');
        out.push('0');
        push_hex(out, (c as u32) / 16);
        push_hex(out, (c as u32) % 16);
    } else {
        out.push(c);
    }
    proof {
        assert(out@ =~= pre + json_escape_char(c));
    }
}

/// Append a JSON string literal carrying the characters of a string.
fn push_json_string(out: &mut Vec<char>, s: &str)
    ensures
        final(out)@ == old(out)@ + json_string_chars(s@),
{
    proof {
        reveal(json_string_chars);
    }
    let ghost pre = out@;
    out.push('"');
    let n: usize = vstd::string::StrSliceExecFns::unicode_len(s);
    let mut i: usize = 0;
    while i < n
        invariant
            i <= n,
            n == s@.len(),
            out@ == pre + seq!['"'] + json_escape(s@.take(i as int)),
        decreases n - i,
    {
        let c: char = vstd::string::StrSliceExecFns::get_char(s, i);
        push_escaped_char(out, c);
        proof {
            lemma_json_escape_push(s@.take(i as int), c);
            assert(s@.take(i as int).push(c) =~= s@.take(i + 1));
        }
        i = i + 1;
    }
    out.push('"');
    proof {
        assert(s@.take(n as int) =~= s@);
        assert(out@ =~= pre + json_string_chars(s@));
    }
}

/// Append two spaces per indentation level.
fn push_indent(out: &mut Vec<char>, n: usize)
    requires
        n <= 1000,
    ensures
        final(out)@ == old(out)@ + indent_chars(n as nat),
{
    proof {
        reveal(indent_chars);
    }
    let mut i: usize = 0;
    while i < n
        invariant
            i <= n,
            out@ == old(out)@ + indent_chars(i as nat),
        decreases n - i,
    {
        out.push(' ');
        out.push(' ');
        proof {
            reveal(indent_chars);
            assert(old(out)@ + indent_chars((i + 1) as nat) =~= (old(out)@ + indent_chars(
                i as nat,
            )).push(' ').push(' '));
        }
        i = i + 1;
    }
    proof {
        reveal(indent_chars);
        assert(old(out)@ + indent_chars(0) =~= old(out)@);
    }
}

/// The opening of a transaction object: the brace, the date member, and
/// the optional check-number and category members.
#[verifier::opaque]
pub open spec fn tx_json_head(t: Transaction, ind: nat) -> Seq<char> {
    seq!['{', '\n'] + indent_chars(ind + 1) + "\"date\": "@ + json_string_chars(
        t.date.date_chars(),
    ) + (match t.check_number {
        Some(n) => member_prefix(ind + 1, "\"check_number\": "@) + dec_chars(n as nat),
        None => Seq::<char>::empty(),
    }) + (match t.category {
        Some(c) => member_prefix(ind + 1, "\"category\": "@) + json_string_chars(c@),
        None => Seq::<char>::empty(),
    })
}

/// The rest of a transaction object: the vendor, the optional memo, the
/// amount, the type, the optional reconciliation flag, and the closing
/// brace.
#[verifier::opaque]
pub open spec fn tx_json_tail(t: Transaction, ind: nat) -> Seq<char> {
    member_prefix(ind + 1, "\"vendor\": "@) + json_string_chars(t.vendor@) + (
    if t.memo@.len() > 0 {
        member_prefix(ind + 1, "\"memo\": "@) + json_string_chars(t.memo@)
    } else {
        Seq::<char>::empty()
    }) + member_prefix(ind + 1, "\"amount\": "@) + t.amount.json_chars() + member_prefix(
        ind + 1,
        "\"type\": "@,
    ) + json_string_chars(t.transaction_type.text()) + (if t.is_reconciled {
        member_prefix(ind + 1, "\"is_reconciled\": true"@)
    } else {
        Seq::<char>::empty()
    }) + seq!['\n'] + indent_chars(ind) + seq!['}']
}

/// A transaction object is its opening followed by its rest.
pub proof fn lemma_tx_json_split(t: Transaction, ind: nat)
    ensures
        transaction_json_chars(t, ind) == tx_json_head(t, ind) + tx_json_tail(t, ind),
{
    reveal(transaction_json_chars);
}

/// Append the separator, indentation and key that introduce a member.
fn push_member_prefix(out: &mut Vec<char>, ind: usize, key: &str)
    requires
        ind <= 101,
    ensures
        final(out)@ == old(out)@ + member_prefix(ind as nat, key@),
{
    let ghost pre = out@;
    out.push(',');
    out.push('\n');
    push_indent(out, ind);
    push_str_chars(out, key);
    proof {
        reveal(member_prefix);
        assert(out@ =~= pre + member_prefix(ind as nat, key@));
    }
}

/// Append the opening members of the transaction object.
#[verifier::rlimit(100)]
fn push_tx_json_head(t: &Transaction, out: &mut Vec<char>, ind: usize)
    requires
        ind <= 100,
    ensures
        final(out)@ == old(out)@ + tx_json_head(*t, ind as nat),
{
    let ghost pre = out@;
    out.push('{');
    out.push('\n');
    push_indent(out, ind + 1);
    push_str_chars(out, "\"date\": ");
    let date_text = t.date.format();
    push_json_string(out, date_text.as_str());
    let ghost h1 = pre + seq!['{', '\n'] + indent_chars((ind + 1) as nat) + "\"date\": "@
        + json_string_chars(t.date.date_chars());
    proof {
        assert(out@ =~= h1);
    }
    match &t.check_number {
        Some(n) => {
            push_member_prefix(out, ind + 1, "\"check_number\": ");
            push_dec_u64(out, *n as u64);
        },
        None => {},
    }
    let ghost h2 = h1 + (match t.check_number {
        Some(n) => member_prefix((ind + 1) as nat, "\"check_number\": "@) + dec_chars(n as nat),
        None => Seq::<char>::empty(),
    });
    proof {
        assert(out@ =~= h2);
    }
    match &t.category {
        Some(c) => {
            push_member_prefix(out, ind + 1, "\"category\": ");
            push_json_string(out, c.as_str());
        },
        None => {},
    }
    proof {
        let h3 = h2 + (match &t.category {
            Some(c) => member_prefix((ind + 1) as nat, "\"category\": "@) + json_string_chars(
                c@,
            ),
            None => Seq::<char>::empty(),
        });
        assert(out@ =~= h3);
        reveal(tx_json_head);
        assert(out@ =~= pre + tx_json_head(*t, ind as nat));
    }
}

/// Append the remaining members and the closing brace of the transaction
/// object.
#[verifier::rlimit(100)]
fn push_tx_json_tail(t: &Transaction, out: &mut Vec<char>, ind: usize)
    requires
        ind <= 100,
    ensures
        final(out)@ == old(out)@ + tx_json_tail(*t, ind as nat),
{
    let ghost pre = out@;
    push_member_prefix(out, ind + 1, "\"vendor\": ");
    push_json_string(out, t.vendor.as_str());
    let ghost w1 = pre + member_prefix((ind + 1) as nat, "\"vendor\": "@) + json_string_chars(
        t.vendor@,
    );
    proof {
        assert(out@ =~= w1);
    }
    if !t.memo.as_str().is_empty() {
        push_member_prefix(out, ind + 1, "\"memo\": ");
        push_json_string(out, t.memo.as_str());
    }
    let ghost w2 = w1 + (if t.memo@.len() > 0 {
        member_prefix((ind + 1) as nat, "\"memo\": "@) + json_string_chars(t.memo@)
    } else {
        Seq::<char>::empty()
    });
    proof {
        assert(out@ =~= w2);
    }
    push_member_prefix(out, ind + 1, "\"amount\": ");
    t.amount.push_json_chars(out);
    push_member_prefix(out, ind + 1, "\"type\": ");
    push_json_string(out, t.transaction_type.as_text());
    let ghost w4 = w2 + member_prefix((ind + 1) as nat, "\"amount\": "@) + t.amount.json_chars()
        + member_prefix((ind + 1) as nat, "\"type\": "@) + json_string_chars(
        t.transaction_type.text(),
    );
    proof {
        assert(out@ =~= w4);
    }
    if t.is_reconciled {
        push_member_prefix(out, ind + 1, "\"is_reconciled\": true");
    }
    out.push('\n');
    push_indent(out, ind);
    out.push('}');
    proof {
        let w5 = w4 + (if t.is_reconciled {
            member_prefix((ind + 1) as nat, "\"is_reconciled\": true"@)
        } else {
            Seq::<char>::empty()
        });
        assert(out@ =~= w5 + seq!['\n'] + indent_chars(ind as nat) + seq!['}']);
        reveal(tx_json_tail);
        assert(out@ =~= pre + tx_json_tail(*t, ind as nat));
    }
}

impl Transaction {
    /// Append the pretty JSON object text of the transaction.
    pub fn push_json_chars(&self, out: &mut Vec<char>, ind: usize)
        requires
            ind <= 100,
        ensures
            final(out)@ == old(out)@ + transaction_json_chars(*self, ind as nat),
    {
        let ghost pre = out@;
        push_tx_json_head(self, out, ind);
        push_tx_json_tail(self, out, ind);
        proof {
            lemma_tx_json_split(*self, ind as nat);
            assert(out@ =~= pre + transaction_json_chars(*self, ind as nat));
        }
    }
}

impl Record {
    /// Append the pretty JSON object text of the record.
    pub fn push_json_chars(&self, out: &mut Vec<char>, ind: usize)
        requires
            ind <= 99,
        ensures
            final(out)@ == old(out)@ + record_json_chars(*self, ind as nat),
    {
        let ghost pre = out@;
        out.push('{');
        out.push('\n');
        push_indent(out, ind + 1);
        push_str_chars(out, "\"id\": ");
        push_json_string(out, self.id.as_str());
        out.push(',');
        out.push('\n');
        push_indent(out, ind + 1);
        push_str_chars(out, "\"transaction\": ");
        self.transaction.push_json_chars(out, ind + 1);
        out.push('\n');
        push_indent(out, ind);
        out.push('}');
        proof {
            reveal(record_json_chars);
            assert(out@ =~= pre + record_json_chars(*self, ind as nat));
        }
    }

    /// The pretty JSON object text of the record on its own.
    pub fn to_json_string(&self) -> (r: String)
        ensures
            r@ == record_json_chars(*self, 0),
    {
        let mut out: Vec<char> = Vec::new();
        self.push_json_chars(&mut out, 0);
        chars_string(&out)
    }
}

/// The pretty JSON array text of a sequence of records.
pub fn encode_json(records: &Vec<Record>) -> (r: String)
    ensures
        r@ == spec_encode_json(records@),
{
    let mut out: Vec<char> = Vec::new();
    if records.len() == 0 {
        out.push('[');
        out.push(']');
        proof {
            assert(out@ =~= spec_encode_json(records@));
        }
        return chars_string(&out);
    }
    out.push('[');
    out.push('\n');
    push_indent(&mut out, 1);
    let first: &Record = &records[0];
    first.push_json_chars(&mut out, 1);
    let ghost head = seq!['[', '\n'] + indent_chars(1) + record_json_chars(records@[0], 1);
    proof {
        assert(out@ =~= head);
        assert(records@.skip(1).take(0) =~= Seq::<Record>::empty());
    }
    let mut i: usize = 1;
    while i < records.len()
        invariant
            1 <= i <= records@.len(),
            head == seq!['[', '\n'] + indent_chars(1) + record_json_chars(records@[0], 1),
            out@ == head + json_items_tail(records@.skip(1).take(i - 1)),
        decreases records@.len() - i,
    {
        out.push(',');
        out.push('\n');
        push_indent(&mut out, 1);
        let rec: &Record = &records[i];
        rec.push_json_chars(&mut out, 1);
        proof {
            let tail = records@.skip(1);
            lemma_json_items_push(tail.take(i - 1), records@[i as int]);
            assert(tail.take(i - 1).push(records@[i as int]) =~= tail.take(i as int));
            assert(out@ =~= head + json_items_tail(tail.take(i as int)));
        }
        i = i + 1;
    }
    out.push('\n');
    out.push(']');
    proof {
        assert(records@.skip(1).take(records@.len() - 1) =~= records@.skip(1));
        assert(out@ =~= spec_encode_json(records@));
    }
    chars_string(&out)
}

} // verus!
