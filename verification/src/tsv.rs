//! The tab-separated encoding of a sequence of records: one row per
//! record, rows terminated by a carriage return and line feed, the
//! terminator written even after the final row. Decoding splits on the
//! terminators, drops the empty piece a trailing terminator leaves, and
//! reads each row best-effort; it never fails.

use vstd::prelude::*;
use crate::amount::{
    lemma_amount_decimal_avoids, lemma_amount_decimal_round_trip, spec_parse_amount,
};
use crate::chars::{
    avoids, char_pos, chars_string, copy_range, lemma_avoids_concat, lemma_char_pos_unique,
    lemma_split_char_prepend, split_char_seq, str_chars,
};
use crate::date::{
    date_render, is_date_shape, lemma_date_chars_avoids, lemma_date_parse_format_round_trip,
    DateTime,
};
use crate::digits::{
    all_digits, dec_chars, is_digit, lemma_dec_chars_form, lemma_dec_chars_val,
    lemma_digits_avoid, u64_max,
};
use crate::record::Record;
use crate::transaction::{spec_parse_check_number, tsv_col, Transaction};
use crate::transaction_type::TransactionType;

verus! {

/// The encoded text of a sequence of records: each record's row followed
/// by a carriage return and line feed.
pub open spec fn spec_encode_tsv(rs: Seq<Record>) -> Seq<char>
    decreases rs.len(),
{
    if rs.len() == 0 {
        Seq::<char>::empty()
    } else {
        rs[0].tsv_chars() + seq!['\r', '\n'] + spec_encode_tsv(rs.skip(1))
    }
}

/// Encoding one more record appends its row and a terminator.
pub proof fn lemma_encode_tsv_push(rs: Seq<Record>, r: Record)
    ensures
        spec_encode_tsv(rs.push(r)) == spec_encode_tsv(rs) + r.tsv_chars() + seq!['\r', '\n'],
    decreases rs.len(),
{
    if rs.len() == 0 {
        assert(rs.push(r)[0] == r);
        assert(rs.push(r).skip(1) =~= Seq::<Record>::empty());
        assert(spec_encode_tsv(Seq::<Record>::empty()) =~= Seq::<char>::empty());
        assert(spec_encode_tsv(rs.push(r)) =~= spec_encode_tsv(rs) + r.tsv_chars() + seq![
            '\r',
            '\n',
        ]);
    } else {
        lemma_encode_tsv_push(rs.skip(1), r);
        assert(rs.push(r)[0] == rs[0]);
        assert(rs.push(r).skip(1) =~= rs.skip(1).push(r));
        assert(spec_encode_tsv(rs.push(r)) =~= spec_encode_tsv(rs) + r.tsv_chars() + seq![
            '\r',
            '\n',
        ]);
    }
}

/// Equal rows encode to equal text.
pub proof fn lemma_encode_tsv_congruent(a: Seq<Record>, b: Seq<Record>)
    requires
        a.len() == b.len(),
        forall|i: int| 0 <= i < a.len() ==> (#[trigger] a[i].tsv_chars()) == b[i].tsv_chars(),
    ensures
        spec_encode_tsv(a) == spec_encode_tsv(b),
    decreases a.len(),
{
    if a.len() > 0 {
        assert(a.skip(1).len() == b.skip(1).len());
        assert forall|i: int| 0 <= i < a.skip(1).len() implies (#[trigger] a.skip(
            1,
        )[i].tsv_chars()) == b.skip(1)[i].tsv_chars() by {
            assert(a.skip(1)[i] == a[i + 1]);
            assert(b.skip(1)[i] == b[i + 1]);
        }
        lemma_encode_tsv_congruent(a.skip(1), b.skip(1));
        assert(a[0].tsv_chars() == b[0].tsv_chars());
    }
}

/// The tab-separated text of a sequence of records.
pub fn encode_tsv(records: &Vec<Record>) -> (r: String)
    ensures
        r@ == spec_encode_tsv(records@),
{
    let mut out: Vec<char> = Vec::new();
    let mut i: usize = 0;
    while i < records.len()
        invariant
            i <= records@.len(),
            out@ == spec_encode_tsv(records@.take(i as int)),
        decreases records@.len() - i,
    {
        let rec: &Record = &records[i];
        rec.push_tsv_chars(&mut out);
        out.push('\r');
        out.push('\n');
        proof {
            lemma_encode_tsv_push(records@.take(i as int), records@[i as int]);
            assert(records@.take(i as int).push(records@[i as int]) =~= records@.take(i + 1));
            assert(out@ =~= spec_encode_tsv(records@.take(i as int)) + records@[i as int].tsv_chars()
                + seq!['\r', '\n']);
        }
        i = i + 1;
    }
    proof {
        assert(records@.take(records@.len() as int) =~= records@);
    }
    chars_string(&out)
}

/// The index of the first carriage-return line-feed pair, or the length
/// of the sequence when there is none.
pub open spec fn crlf_pos(s: Seq<char>) -> int
    decreases s.len(),
{
    if s.len() < 2 {
        s.len() as int
    } else if s[0] == '\r' && s[1] == '\n' {
        0
    } else {
        1 + crlf_pos(s.skip(1))
    }
}

/// Where the first terminator pair lies: within the sequence, on a pair,
/// with no pair before it.
pub proof fn lemma_crlf_pos(s: Seq<char>)
    ensures
        0 <= crlf_pos(s) <= s.len(),
        crlf_pos(s) < s.len() ==> crlf_pos(s) + 1 < s.len() && s[crlf_pos(s)] == '\r'
            && s[crlf_pos(s) + 1] == '\n',
        forall|j: int|
            0 <= j < crlf_pos(s) && j + 1 < s.len() ==> !(#[trigger] s[j] == '\r' && s[j + 1]
                == '\n'),
    decreases s.len(),
{
    if s.len() >= 2 && !(s[0] == '\r' && s[1] == '\n') {
        lemma_crlf_pos(s.skip(1));
        assert forall|j: int|
            0 <= j < crlf_pos(s) && j + 1 < s.len() implies !(#[trigger] s[j] == '\r' && s[j + 1]
            == '\n') by {
            if j > 0 {
                assert(s.skip(1)[j - 1] == s[j]);
                assert(s.skip(1)[j] == s[j + 1]);
            }
        }
    }
}

/// The first terminator pair is the only index on a pair with none before.
pub proof fn lemma_crlf_pos_unique(s: Seq<char>, k: int)
    requires
        0 <= k <= s.len(),
        forall|j: int|
            0 <= j < k && j + 1 < s.len() ==> !(#[trigger] s[j] == '\r' && s[j + 1] == '\n'),
        k < s.len() ==> k + 1 < s.len() && s[k] == '\r' && s[k + 1] == '\n',
    ensures
        crlf_pos(s) == k,
{
    lemma_crlf_pos(s);
    let p = crlf_pos(s);
    if p < k {
        assert(s[p] == '\r' && s[p + 1] == '\n');
    } else if k < p {
        assert(!(s[k] == '\r' && s[k + 1] == '\n'));
    }
}

/// The pieces of a text between terminator pairs.
pub open spec fn split_crlf(s: Seq<char>) -> Seq<Seq<char>>
    decreases s.len(),
    via split_crlf_decreases
{
    let p = crlf_pos(s);
    if p == s.len() {
        seq![s]
    } else {
        seq![s.take(p)] + split_crlf(s.skip(p + 2))
    }
}

#[via_fn]
proof fn split_crlf_decreases(s: Seq<char>) {
    lemma_crlf_pos(s);
}

/// The rows of an encoded text: the pieces between terminators, the empty
/// piece after a trailing terminator dropped.
pub open spec fn tsv_lines(s: Seq<char>) -> Seq<Seq<char>> {
    let pieces = split_crlf(s);
    if pieces.len() > 0 && pieces.last().len() == 0 {
        pieces.drop_last()
    } else {
        pieces
    }
}

/// Splitting a text that opens with a terminator-free piece and a
/// terminator yields that piece and then the split of the rest.
pub proof fn lemma_split_crlf_prepend(a: Seq<char>, b: Seq<char>)
    requires
        avoids(a, '\r'),
    ensures
        split_crlf(a + seq!['\r', '\n'] + b) == seq![a] + split_crlf(b),
{
    let s = a + seq!['\r', '\n'] + b;
    assert forall|j: int|
        0 <= j < a.len() && j + 1 < s.len() implies !(#[trigger] s[j] == '\r' && s[j + 1]
        == '\n') by {
        assert(s[j] == a[j]);
    }
    assert(s[a.len() as int] == '\r');
    assert(s[a.len() as int + 1] == '\n');
    lemma_crlf_pos_unique(s, a.len() as int);
    assert(s.take(a.len() as int) =~= a);
    assert(s.skip(a.len() as int + 2) =~= b);
}

/// Find the first terminator pair at or after an index.
fn find_crlf(v: &Vec<char>, from: usize) -> (r: usize)
    requires
        from <= v@.len(),
    ensures
        from <= r <= v@.len(),
        r - from == crlf_pos(v@.skip(from as int)),
    decreases v@.len() - from,
{
    let n = v.len();
    let mut i: usize = from;
    while n - i > 1
        invariant
            from <= i <= n,
            n == v@.len(),
            forall|j: int|
                from <= j < i && j + 1 < n ==> !(#[trigger] v@[j] == '\r' && v@[j + 1] == '\n'),
        decreases n - i,
    {
        if v[i] == '\r' && v[i + 1] == '\n' {
            proof {
                lemma_crlf_bridge(v@, from as int, i as int);
            }
            return i;
        }
        i = i + 1;
    }
    proof {
        lemma_crlf_bridge(v@, from as int, n as int);
    }
    n
}

/// Bridge from index facts on a vector to `crlf_pos` on its suffix.
proof fn lemma_crlf_bridge(s: Seq<char>, from: int, k: int)
    requires
        0 <= from <= k <= s.len(),
        forall|j: int|
            from <= j < k && j + 1 < s.len() ==> !(#[trigger] s[j] == '\r' && s[j + 1] == '\n'),
        k < s.len() ==> k + 1 < s.len() && s[k] == '\r' && s[k + 1] == '\n',
    ensures
        crlf_pos(s.skip(from)) == k - from,
{
    let t = s.skip(from);
    assert forall|j: int|
        0 <= j < k - from && j + 1 < t.len() implies !(#[trigger] t[j] == '\r' && t[j + 1]
        == '\n') by {
        assert(t[j] == s[from + j]);
        assert(t[j + 1] == s[from + j + 1]);
    }
    if k < s.len() {
        assert(t[k - from] == s[k]);
        assert(t[k - from + 1] == s[k + 1]);
    }
    lemma_crlf_pos_unique(t, k - from);
}

/// Split the tail of a character vector on terminator pairs, appending
/// the pieces.
fn split_crlf_from(v: &Vec<char>, from: usize, out: &mut Vec<Vec<char>>)
    requires
        from <= v@.len(),
    ensures
        final(out).deep_view() == old(out).deep_view() + split_crlf(v@.skip(from as int)),
    decreases v@.len() - from,
{
    let ghost rest = v@.skip(from as int);
    let p = find_crlf(v, from);
    let piece = copy_range(v, from, p);
    proof {
        lemma_crlf_pos(rest);
        assert(rest.take((p - from) as int) =~= v@.subrange(from as int, p as int));
        assert(piece.deep_view() =~= piece@);
    }
    out.push(piece);
    proof {
        assert(out.deep_view() =~~= old(out).deep_view() + seq![rest.take((p - from) as int)]);
    }
    if p < v.len() {
        proof {
            assert(rest.skip((p - from + 2) as int) =~= v@.skip((p + 2) as int));
        }
        split_crlf_from(v, p + 2, out);
        proof {
            assert(out.deep_view() =~~= old(out).deep_view() + split_crlf(rest));
        }
    } else {
        proof {
            assert(rest.take((p - from) as int) =~= rest);
            assert(out.deep_view() =~~= old(out).deep_view() + split_crlf(rest));
        }
    }
}

/// The records of a tab-separated text: one per line, best-effort, never
/// failing; malformed columns fall back to their defaults.
pub fn decode_tsv(text: &str) -> (r: Vec<Record>)
    ensures
        r@.len() == tsv_lines(text@).len(),
        forall|i: int|
            0 <= i < r@.len() ==> (#[trigger] r@[i]).matches_tsv_row(tsv_lines(text@)[i])
                && r@[i].wf(),
{
    let v = str_chars(text);
    let mut lines: Vec<Vec<char>> = Vec::new();
    split_crlf_from(&v, 0, &mut lines);
    proof {
        assert(v@.skip(0) =~= v@);
        assert(lines.deep_view() =~= split_crlf(text@));
        assert(split_crlf(text@).len() > 0);
    }
    if lines.len() > 0 && lines[lines.len() - 1].len() == 0 {
        proof {
            assert(lines.deep_view().last() == lines@.last()@);
        }
        let _ = lines.pop();
        proof {
            assert(lines.deep_view() =~~= tsv_lines(text@));
        }
    } else {
        proof {
            assert(lines.deep_view().last() == lines@.last()@);
            assert(lines.deep_view() =~~= tsv_lines(text@));
        }
    }
    let mut out: Vec<Record> = Vec::new();
    let mut i: usize = 0;
    while i < lines.len()
        invariant
            i <= lines@.len(),
            lines.deep_view() == tsv_lines(text@),
            out@.len() == i,
            forall|k: int|
                0 <= k < i ==> (#[trigger] out@[k]).matches_tsv_row(tsv_lines(text@)[k])
                    && out@[k].wf(),
        decreases lines@.len() - i,
    {
        let line: &Vec<char> = &lines[i];
        let rec = Record::from_row_chars(line);
        proof {
            assert(lines.deep_view()[i as int] == lines@[i as int]@);
        }
        out.push(rec);
        i = i + 1;
    }
    out
}

/// Whether a text field is free of the separator and terminator
/// characters that the row format cannot carry.
pub open spec fn field_clean(s: Seq<char>) -> bool {
    &&& avoids(s, '\t')
    &&& avoids(s, '\r')
    &&& avoids(s, '\n')
}

/// Whether a record can ride the tab-separated encoding unchanged: a
/// nonempty identifier, a real date, and free text without separators or
/// terminators.
pub open spec fn tsv_clean(r: Record) -> bool {
    &&& r.wf()
    &&& field_clean(r.id@)
    &&& (match r.transaction.category {
        Some(c) => field_clean(c@),
        None => true,
    })
    &&& field_clean(r.transaction.vendor@)
    &&& field_clean(r.transaction.memo@)
}

/// The check-number column of a transaction.
pub open spec fn check_col(t: Transaction) -> Seq<char> {
    match t.check_number {
        Some(n) => dec_chars(n as nat),
        None => Seq::<char>::empty(),
    }
}

/// The reconciliation column of a transaction.
pub open spec fn flag_col(t: Transaction) -> Seq<char> {
    if t.is_reconciled {
        seq!['Y']
    } else {
        seq!['N']
    }
}

/// The category column of a transaction.
pub open spec fn category_col(t: Transaction) -> Seq<char> {
    match t.category {
        Some(c) => c@,
        None => Seq::<char>::empty(),
    }
}

/// The columns a transaction's row splits into.
pub open spec fn transaction_cols(t: Transaction) -> Seq<Seq<char>> {
    seq![t.date.date_chars(), check_col(t), flag_col(t), category_col(t), t.vendor@, t.memo@] + (
    if t.transaction_type == TransactionType::Withdrawal {
        seq![Seq::<char>::empty(), t.amount.decimal_chars()]
    } else {
        seq![t.amount.decimal_chars(), Seq::<char>::empty()]
    })
}

/// The fixed-format columns of a clean transaction avoid a character that
/// is no digit, hyphen, point, or flag letter.
proof fn lemma_fixed_cols_avoid(t: Transaction, c: char)
    requires
        t.wf(),
        !is_digit(c),
        c != '-',
        c != '.',
        c != 'Y',
        c != 'N',
    ensures
        avoids(t.date.date_chars(), c),
        avoids(check_col(t), c),
        avoids(flag_col(t), c),
        avoids(t.amount.decimal_chars(), c),
{
    lemma_date_chars_avoids(t.date, c);
    match t.check_number {
        Some(n) => {
            lemma_dec_chars_form(n as nat);
            lemma_digits_avoid(dec_chars(n as nat), c);
        },
        None => {},
    }
    lemma_amount_decimal_avoids(t.amount, c);
}

/// A clean transaction's row splits on tabs into exactly its columns.
#[verifier::rlimit(100)]
proof fn lemma_transaction_row_cols(t: Transaction)
    requires
        t.wf(),
        (match t.category {
            Some(c) => field_clean(c@),
            None => true,
        }),
        field_clean(t.vendor@),
        field_clean(t.memo@),
    ensures
        split_char_seq(t.tsv_chars(), '\t') == transaction_cols(t),
{
    let tab = '\t';
    let d = t.date.date_chars();
    let ck = check_col(t);
    let fl = flag_col(t);
    let ct = category_col(t);
    let vd = t.vendor@;
    let mm = t.memo@;
    let am = t.amount.decimal_chars();
    lemma_fixed_cols_avoid(t, tab);
    let r6 = if t.transaction_type == TransactionType::Withdrawal {
        seq![tab] + am
    } else {
        am + seq![tab]
    };
    let r5 = mm + seq![tab] + r6;
    let r4 = vd + seq![tab] + r5;
    let r3 = ct + seq![tab] + r4;
    let r2 = fl + seq![tab] + r3;
    let r1 = ck + seq![tab] + r2;
    assert(t.tsv_chars() =~= d + seq![tab] + r1);
    if t.transaction_type == TransactionType::Withdrawal {
        assert(r6 =~= Seq::<char>::empty() + seq![tab] + am);
        crate::chars::lemma_split_char_prepend(Seq::<char>::empty(), am, tab);
        crate::chars::lemma_split_char_whole(am, tab);
        assert(split_char_seq(r6, tab) =~~= seq![Seq::<char>::empty(), am]);
    } else {
        assert(r6 =~= am + seq![tab] + Seq::<char>::empty());
        crate::chars::lemma_split_char_prepend(am, Seq::<char>::empty(), tab);
        crate::chars::lemma_split_char_whole(Seq::<char>::empty(), tab);
        assert(split_char_seq(r6, tab) =~~= seq![am, Seq::<char>::empty()]);
    }
    lemma_split_char_prepend(mm, r6, tab);
    lemma_split_char_prepend(vd, r5, tab);
    lemma_split_char_prepend(ct, r4, tab);
    lemma_split_char_prepend(fl, r3, tab);
    lemma_split_char_prepend(ck, r2, tab);
    lemma_split_char_prepend(d, r1, tab);
    assert(split_char_seq(t.tsv_chars(), tab) =~~= transaction_cols(t));
}

/// A clean record's row splits on tabs into its identifier and then the
/// transaction's columns.
proof fn lemma_record_row_cols(r: Record)
    requires
        tsv_clean(r),
    ensures
        split_char_seq(r.tsv_chars(), '\t') == seq![r.id@] + transaction_cols(r.transaction),
{
    lemma_transaction_row_cols(r.transaction);
    assert(r.tsv_chars() =~= r.id@ + seq!['\t'] + r.transaction.tsv_chars());
    lemma_split_char_prepend(r.id@, r.transaction.tsv_chars(), '\t');
}

/// A record the row format can carry decodes from its own row only to
/// records that re-encode to the same row.
pub proof fn lemma_tsv_row_round_trip(r: Record, d: Record)
    requires
        tsv_clean(r),
        d.matches_tsv_row(r.tsv_chars()),
    ensures
        d.tsv_chars() == r.tsv_chars(),
{
    lemma_record_row_cols(r);
    let cols = split_char_seq(r.tsv_chars(), '\t');
    let t = r.transaction;
    let tc = transaction_cols(t);
    assert(cols[0] == r.id@);
    assert(cols.skip(1) =~~= tc);
    assert(r.id@.len() > 0);
    assert(d.id@ == r.id@);
    assert(d.transaction.matches_tsv_columns(tc));
    assert(tc.len() == 8);
    // the date column
    let y = t.date.year as int;
    let m = t.date.month as int;
    let dy = t.date.day as int;
    lemma_date_parse_format_round_trip(y, m, dy, true, true);
    assert(t.date.date_chars() =~= date_render(y, m, dy, true, true));
    assert(tsv_col(tc, 0) == t.date.date_chars());
    assert(d.transaction.date == DateTime::midnight(y, m, dy));
    assert(d.transaction.date.date_chars() =~= t.date.date_chars());
    // the check-number column
    assert(tsv_col(tc, 1) == check_col(t));
    match t.check_number {
        Some(n) => {
            lemma_dec_chars_form(n as nat);
            lemma_dec_chars_val(n as nat);
            assert(spec_parse_check_number(check_col(t)) == Some(n));
        },
        None => {
            assert(spec_parse_check_number(check_col(t)) is None);
        },
    }
    assert(d.transaction.check_number == t.check_number);
    // the reconciliation column
    assert(tsv_col(tc, 2) == flag_col(t));
    if t.is_reconciled {
        assert(flag_col(t) =~= seq!['Y']);
    } else {
        assert(flag_col(t)[0] == 'N');
        assert(!(flag_col(t) =~= seq!['Y']));
    }
    assert(d.transaction.is_reconciled == t.is_reconciled);
    // the category column
    assert(tsv_col(tc, 3) == category_col(t));
    // vendor and memo
    assert(tsv_col(tc, 4) == t.vendor@);
    assert(tsv_col(tc, 5) == t.memo@);
    assert(d.transaction.vendor@ == t.vendor@);
    assert(d.transaction.memo@ == t.memo@);
    // the amount columns
    lemma_amount_decimal_round_trip(t.amount);
    lemma_dec_chars_form((t.amount.cents / 100) as nat);
    crate::digits::lemma_pad2_form((t.amount.cents % 100) as nat);
    assert(t.amount.decimal_chars().len() >= 4);
    if t.transaction_type == TransactionType::Withdrawal {
        assert(tsv_col(tc, 6) == Seq::<char>::empty());
        assert(tsv_col(tc, 7) == t.amount.decimal_chars());
        assert(d.transaction.transaction_type == TransactionType::Withdrawal);
        assert(d.transaction.amount.cents == t.amount.cents);
    } else {
        assert(tsv_col(tc, 6) == t.amount.decimal_chars());
        assert(d.transaction.transaction_type == TransactionType::Deposit);
        assert(d.transaction.amount.cents == t.amount.cents);
    }
    // the re-encoded row
    assert(check_col(d.transaction) == check_col(t));
    assert(flag_col(d.transaction) == flag_col(t));
    assert(category_col(d.transaction) =~= category_col(t));
    assert(d.transaction.amount.decimal_chars() == t.amount.decimal_chars());
    assert(d.transaction.tsv_chars() =~= t.tsv_chars());
    assert(d.tsv_chars() =~= r.tsv_chars());
}

/// A clean record's row contains no carriage return.
proof fn lemma_row_avoids_cr(r: Record)
    requires
        tsv_clean(r),
    ensures
        avoids(r.tsv_chars(), '\r'),
{
    let c = '\r';
    let t = r.transaction;
    lemma_fixed_cols_avoid(t, c);
    let tab = seq!['\t'];
    assert(avoids(tab, c));
    let d = t.date.date_chars();
    let ck = check_col(t);
    let fl = flag_col(t);
    let ct = category_col(t);
    let vd = t.vendor@;
    let mm = t.memo@;
    let am = t.amount.decimal_chars();
    let last = if t.transaction_type == TransactionType::Withdrawal {
        tab + am
    } else {
        am + tab
    };
    if t.transaction_type == TransactionType::Withdrawal {
        lemma_avoids_concat(tab, am, c);
    } else {
        lemma_avoids_concat(am, tab, c);
    }
    let p1 = d + tab;
    lemma_avoids_concat(d, tab, c);
    let p2 = p1 + ck;
    lemma_avoids_concat(p1, ck, c);
    let p3 = p2 + tab;
    lemma_avoids_concat(p2, tab, c);
    let p4 = p3 + fl;
    lemma_avoids_concat(p3, fl, c);
    let p5 = p4 + tab;
    lemma_avoids_concat(p4, tab, c);
    let p6 = p5 + ct;
    lemma_avoids_concat(p5, ct, c);
    let p7 = p6 + tab;
    lemma_avoids_concat(p6, tab, c);
    let p8 = p7 + vd;
    lemma_avoids_concat(p7, vd, c);
    let p9 = p8 + tab;
    lemma_avoids_concat(p8, tab, c);
    let p10 = p9 + mm;
    lemma_avoids_concat(p9, mm, c);
    let p11 = p10 + tab;
    lemma_avoids_concat(p10, tab, c);
    let p12 = p11 + last;
    lemma_avoids_concat(p11, last, c);
    assert(t.tsv_chars() =~= p12);
    let q1 = r.id@ + tab;
    lemma_avoids_concat(r.id@, tab, c);
    let q2 = q1 + t.tsv_chars();
    lemma_avoids_concat(q1, t.tsv_chars(), c);
    assert(r.tsv_chars() =~= q2);
}

/// The pieces of an encoded text: each record's row in order, and one
/// final empty piece from the trailing terminator.
proof fn lemma_split_crlf_of_encode(rs: Seq<Record>)
    requires
        forall|i: int| 0 <= i < rs.len() ==> #[trigger] tsv_clean(rs[i]),
    ensures
        split_crlf(spec_encode_tsv(rs)).len() == rs.len() + 1,
        split_crlf(spec_encode_tsv(rs)).last().len() == 0,
        forall|i: int|
            0 <= i < rs.len() ==> split_crlf(spec_encode_tsv(rs))[i] == rs[i].tsv_chars(),
    decreases rs.len(),
{
    if rs.len() == 0 {
        assert(spec_encode_tsv(rs).len() == 0);
        assert(crlf_pos(spec_encode_tsv(rs)) == 0);
        assert(split_crlf(spec_encode_tsv(rs)) =~~= seq![Seq::<char>::empty()]);
    } else {
        assert(tsv_clean(rs[0]));
        lemma_row_avoids_cr(rs[0]);
        assert forall|i: int| 0 <= i < rs.skip(1).len() implies #[trigger] tsv_clean(
            rs.skip(1)[i],
        ) by {
            assert(rs.skip(1)[i] == rs[i + 1]);
        }
        lemma_split_crlf_of_encode(rs.skip(1));
        lemma_split_crlf_prepend(rs[0].tsv_chars(), spec_encode_tsv(rs.skip(1)));
        let pieces = split_crlf(spec_encode_tsv(rs));
        let rest = split_crlf(spec_encode_tsv(rs.skip(1)));
        assert(pieces == seq![rs[0].tsv_chars()] + rest);
        assert(pieces.last() == rest.last());
        assert forall|i: int| 0 <= i < rs.len() implies pieces[i] == rs[i].tsv_chars() by {
            if i > 0 {
                assert(pieces[i] == rest[i - 1]);
                assert(rs.skip(1)[i - 1] == rs[i]);
            }
        }
    }
}

/// The rows of an encoded text are exactly the records' rows.
pub proof fn lemma_tsv_lines_of_encode(rs: Seq<Record>)
    requires
        forall|i: int| 0 <= i < rs.len() ==> #[trigger] tsv_clean(rs[i]),
    ensures
        tsv_lines(spec_encode_tsv(rs)).len() == rs.len(),
        forall|i: int|
            0 <= i < rs.len() ==> tsv_lines(spec_encode_tsv(rs))[i] == rs[i].tsv_chars(),
{
    lemma_split_crlf_of_encode(rs);
}

/// Encoding, decoding, and encoding again reproduces the first encoding:
/// for records whose fields the row format can carry, every decode result
/// the decoder's contract permits re-encodes to the same text, so the
/// encode-decode-encode pipeline is stable.
pub proof fn lemma_tsv_round_trip(rs: Seq<Record>, decoded: Seq<Record>)
    requires
        forall|i: int| 0 <= i < rs.len() ==> #[trigger] tsv_clean(rs[i]),
        decoded.len() == tsv_lines(spec_encode_tsv(rs)).len(),
        forall|i: int|
            0 <= i < decoded.len() ==> (#[trigger] decoded[i]).matches_tsv_row(
                tsv_lines(spec_encode_tsv(rs))[i],
            ),
    ensures
        spec_encode_tsv(decoded) == spec_encode_tsv(rs),
{
    lemma_tsv_lines_of_encode(rs);
    assert(decoded.len() == rs.len());
    assert forall|i: int| 0 <= i < decoded.len() implies (#[trigger] decoded[i].tsv_chars())
        == rs[i].tsv_chars() by {
        lemma_tsv_row_round_trip(rs[i], decoded[i]);
    }
    lemma_encode_tsv_congruent(decoded, rs);
}

} // verus!
