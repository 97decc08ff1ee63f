//! Conversions between strings and vectors of characters. The codec logic
//! works on character vectors; the public functions take and return strings.

use vstd::prelude::*;
use vstd::string::StrSliceExecFns;

verus! {

/// Relies on std's `String::push`: appends one character to the string.
#[verifier::external_body]
pub(crate) fn push_char(s: &mut String, c: char)
    ensures
        final(s)@ == old(s)@.push(c),
{
    s.push(c);
}

/// The characters of a string, as a vector.
pub fn str_chars(s: &str) -> (r: Vec<char>)
    ensures
        r@ == s@,
{
    let n: usize = s.unicode_len();
    let mut out: Vec<char> = Vec::new();
    let mut i: usize = 0;
    while i < n
        invariant
            i <= n,
            n == s@.len(),
            out@ == s@.take(i as int),
        decreases n - i,
    {
        let c: char = s.get_char(i);
        out.push(c);
        proof {
            assert(s@.take(i as int).push(c) =~= s@.take(i + 1));
        }
        i = i + 1;
    }
    proof {
        assert(s@.take(n as int) =~= s@);
    }
    out
}

/// The index of the first occurrence of a character, or the length of the
/// sequence when the character does not occur.
pub open spec fn char_pos(s: Seq<char>, c: char) -> int
    decreases s.len(),
{
    if s.len() == 0 {
        0
    } else if s[0] == c {
        0
    } else {
        1 + char_pos(s.skip(1), c)
    }
}

/// Where the first occurrence of a character lies: within the sequence and
/// on the character, with no occurrence before it.
pub proof fn lemma_char_pos(s: Seq<char>, c: char)
    ensures
        0 <= char_pos(s, c) <= s.len(),
        char_pos(s, c) < s.len() ==> s[char_pos(s, c)] == c,
        forall|j: int| 0 <= j < char_pos(s, c) ==> s[j] != c,
    decreases s.len(),
{
    if s.len() > 0 && s[0] != c {
        lemma_char_pos(s.skip(1), c);
        assert forall|j: int| 0 <= j < char_pos(s, c) implies s[j] != c by {
            if j > 0 {
                assert(s.skip(1)[j - 1] == s[j]);
            }
        }
    }
}

/// The first occurrence is the only index that lies on the character with
/// none before it.
pub proof fn lemma_char_pos_unique(s: Seq<char>, c: char, k: int)
    requires
        0 <= k <= s.len(),
        forall|j: int| 0 <= j < k ==> s[j] != c,
        k < s.len() ==> s[k] == c,
    ensures
        char_pos(s, c) == k,
{
    lemma_char_pos(s, c);
    let p = char_pos(s, c);
    if p < k {
        assert(s[p] == c);
    } else if k < p {
        assert(s[k] != c);
    }
}

/// Find the first occurrence of a character at or after an index.
pub fn find_char(v: &Vec<char>, from: usize, c: char) -> (r: usize)
    requires
        from <= v@.len(),
    ensures
        from <= r <= v@.len(),
        r - from == char_pos(v@.skip(from as int), c),
        r < v@.len() ==> v@[r as int] == c,
        forall|j: int| from <= j < r ==> v@[j] != c,
{
    let n = v.len();
    let mut i: usize = from;
    while i < n
        invariant
            from <= i <= n,
            n == v@.len(),
            forall|j: int| from <= j < i ==> v@[j] != c,
        decreases n - i,
    {
        if v[i] == c {
            proof {
                lemma_char_pos_helper(v@, from as int, i as int, c);
            }
            return i;
        }
        i = i + 1;
    }
    proof {
        lemma_char_pos_helper(v@, from as int, n as int, c);
    }
    n
}

/// Bridge from index facts on a vector to `char_pos` on its suffix.
proof fn lemma_char_pos_helper(s: Seq<char>, from: int, k: int, c: char)
    requires
        0 <= from <= k <= s.len(),
        forall|j: int| from <= j < k ==> s[j] != c,
        k < s.len() ==> s[k] == c,
    ensures
        char_pos(s.skip(from), c) == k - from,
{
    let t = s.skip(from);
    assert forall|j: int| 0 <= j < k - from implies t[j] != c by {
        assert(t[j] == s[from + j]);
    }
    if k < s.len() {
        assert(t[k - from] == s[k]);
    }
    lemma_char_pos_unique(t, c, k - from);
}

/// Append the characters of a string to a character vector.
pub fn push_str_chars(out: &mut Vec<char>, s: &str)
    ensures
        final(out)@ == old(out)@ + s@,
{
    let n: usize = s.unicode_len();
    let mut i: usize = 0;
    while i < n
        invariant
            i <= n,
            n == s@.len(),
            out@ == old(out)@ + s@.take(i as int),
        decreases n - i,
    {
        let c: char = s.get_char(i);
        out.push(c);
        proof {
            assert((old(out)@ + s@.take(i as int)).push(c) =~= old(out)@ + s@.take(i + 1));
        }
        i = i + 1;
    }
    proof {
        assert(old(out)@ + s@.take(n as int) =~= old(out)@ + s@);
    }
}

/// A copy of a slice of a character vector.
pub fn copy_range(v: &Vec<char>, from: usize, to: usize) -> (r: Vec<char>)
    requires
        from <= to <= v@.len(),
    ensures
        r@ == v@.subrange(from as int, to as int),
{
    let mut out: Vec<char> = Vec::new();
    let mut i: usize = from;
    while i < to
        invariant
            from <= i <= to <= v@.len(),
            out@ == v@.subrange(from as int, i as int),
        decreases to - i,
    {
        let c: char = v[i];
        out.push(c);
        proof {
            assert(v@.subrange(from as int, i as int).push(c) =~= v@.subrange(
                from as int,
                i + 1,
            ));
        }
        i = i + 1;
    }
    out
}

/// Whether a character never occurs in a sequence.
pub open spec fn avoids(s: Seq<char>, c: char) -> bool {
    forall|i: int| 0 <= i < s.len() ==> s[i] != c
}

/// Concatenation preserves avoidance.
pub proof fn lemma_avoids_concat(a: Seq<char>, b: Seq<char>, c: char)
    requires
        avoids(a, c),
        avoids(b, c),
    ensures
        avoids(a + b, c),
{
    assert forall|i: int| 0 <= i < (a + b).len() implies (a + b)[i] != c by {
        if i < a.len() {
            assert((a + b)[i] == a[i]);
        } else {
            assert((a + b)[i] == b[i - a.len()]);
        }
    }
}

/// Splitting a sequence that opens with a separator-free piece and the
/// separator yields that piece and then the split of the rest.
pub proof fn lemma_split_char_prepend(a: Seq<char>, b: Seq<char>, sep: char)
    requires
        avoids(a, sep),
    ensures
        split_char_seq(a + seq![sep] + b, sep) == seq![a] + split_char_seq(b, sep),
{
    let s = a + seq![sep] + b;
    assert forall|j: int| 0 <= j < a.len() implies s[j] != sep by {
        assert(s[j] == a[j]);
    }
    assert(s[a.len() as int] == sep);
    lemma_char_pos_unique(s, sep, a.len() as int);
    assert(s.take(a.len() as int) =~= a);
    assert(s.skip(a.len() as int + 1) =~= b);
    assert(split_char_seq(s, sep) == seq![a] + split_char_seq(b, sep));
}

/// A sequence free of the separator splits into itself alone.
pub proof fn lemma_split_char_whole(s: Seq<char>, sep: char)
    requires
        avoids(s, sep),
    ensures
        split_char_seq(s, sep) == seq![s],
{
    lemma_char_pos_unique(s, sep, s.len() as int);
}

/// The pieces of a character sequence between occurrences of a separator:
/// one more piece than there are separators, in order, separators dropped.
pub open spec fn split_char_seq(s: Seq<char>, sep: char) -> Seq<Seq<char>>
    decreases s.len(),
    via split_char_seq_decreases
{
    let p = char_pos(s, sep);
    if p == s.len() {
        seq![s]
    } else {
        seq![s.take(p)] + split_char_seq(s.skip(p + 1), sep)
    }
}

#[via_fn]
proof fn split_char_seq_decreases(s: Seq<char>, sep: char) {
    lemma_char_pos(s, sep);
}

/// Split a character vector on a separator character.
pub fn split_char(v: &Vec<char>, sep: char) -> (r: Vec<Vec<char>>)
    ensures
        r.deep_view() == split_char_seq(v@, sep),
{
    let mut out: Vec<Vec<char>> = Vec::new();
    split_char_from(v, 0, sep, &mut out);
    proof {
        assert(v@.skip(0) =~= v@);
        assert(out.deep_view() =~= split_char_seq(v@, sep));
    }
    out
}

/// Split the tail of a character vector on a separator, appending the
/// pieces.
fn split_char_from(v: &Vec<char>, from: usize, sep: char, out: &mut Vec<Vec<char>>)
    requires
        from <= v@.len(),
    ensures
        final(out).deep_view() == old(out).deep_view() + split_char_seq(
            v@.skip(from as int),
            sep,
        ),
    decreases v@.len() - from,
{
    let ghost rest = v@.skip(from as int);
    let p = find_char(v, from, sep);
    let piece = copy_range(v, from, p);
    proof {
        lemma_char_pos(rest, sep);
        assert(rest.take((p - from) as int) =~= v@.subrange(from as int, p as int));
        assert(piece.deep_view() =~= piece@);
    }
    out.push(piece);
    proof {
        assert(out.deep_view() =~~= old(out).deep_view() + seq![rest.take((p - from) as int)]);
    }
    if p < v.len() {
        proof {
            assert(rest.skip((p - from + 1) as int) =~= v@.skip((p + 1) as int));
        }
        split_char_from(v, p + 1, sep, out);
        proof {
            assert(out.deep_view() =~~= old(out).deep_view() + split_char_seq(rest, sep));
        }
    } else {
        proof {
            assert(rest.take((p - from) as int) =~= rest);
            assert(out.deep_view() =~~= old(out).deep_view() + split_char_seq(rest, sep));
        }
    }
}

/// A string built from a vector of characters.
pub fn chars_string(v: &Vec<char>) -> (r: String)
    ensures
        r@ == v@,
{
    let mut out: String = String::new();
    let mut i: usize = 0;
    while i < v.len()
        invariant
            i <= v@.len(),
            out@ == v@.take(i as int),
        decreases v@.len() - i,
    {
        let c: char = v[i];
        push_char(&mut out, c);
        proof {
            assert(v@.take(i as int).push(c) =~= v@.take(i + 1));
        }
        i = i + 1;
    }
    proof {
        assert(v@.take(v@.len() as int) =~= v@);
    }
    out
}

} // verus!
