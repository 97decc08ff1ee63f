//! Calendar dates and clock times. A date text has the canonical shape
//! `YYYY-MM-DD` (month and day may be written with one digit on input; the
//! formatted output is always zero-padded), and names a real day of the
//! proleptic Gregorian calendar. Parsed dates resolve to local midnight.

use vstd::prelude::*;
use vstd::string::StringExecFns;
use crate::chars::{chars_string, str_chars};
use crate::digits::{
    dec_chars, digits_val, is_digit, lemma_digits_val_bound, lemma_pow10_small, pad2_chars,
    pad4_chars, parse_u64_digits, pow10, push_pad2_u64, push_pad4_u64,
};

verus! {

broadcast use vstd::utf8::char_is_scalar;

/// A moment on the local clock: a calendar date and a time of day.
#[derive(Clone, Copy, Debug, PartialEq, Eq, Structural, Hash)]
pub struct DateTime {
    pub year: u16,
    pub month: u8,
    pub day: u8,
    pub hour: u8,
    pub minute: u8,
    pub second: u8,
    pub nanosecond: u32,
}

/// Whether a year is a leap year of the proleptic Gregorian calendar.
pub open spec fn is_leap_year(y: int) -> bool {
    y % 4 == 0 && (y % 100 != 0 || y % 400 == 0)
}

/// The number of days in a month of a given year.
pub open spec fn days_in_month(y: int, m: int) -> int {
    if m == 2 {
        if is_leap_year(y) {
            29
        } else {
            28
        }
    } else if m == 4 || m == 6 || m == 9 || m == 11 {
        30
    } else {
        31
    }
}

/// Whether the numbers name a real calendar day within the four-digit
/// year range the date text can carry.
pub open spec fn valid_ymd(y: int, m: int, d: int) -> bool {
    &&& 0 <= y <= 9999
    &&& 1 <= m <= 12
    &&& 1 <= d <= days_in_month(y, m)
}

/// The shape of a date text: four digits, a hyphen, one or two digits, a
/// hyphen, one or two digits.
pub open spec fn is_date_shape(s: Seq<char>) -> bool {
    &&& 8 <= s.len() <= 10
    &&& (forall|i: int| 0 <= i < 4 ==> is_digit(#[trigger] s[i]))
    &&& s[4] == '-'
    &&& is_digit(s[5])
    &&& (if s[6] == '-' {
        &&& s.len() <= 9
        &&& (forall|i: int| 7 <= i < s.len() ==> is_digit(#[trigger] s[i]))
    } else {
        &&& s.len() >= 9
        &&& is_digit(s[6])
        &&& s[7] == '-'
        &&& (forall|i: int| 8 <= i < s.len() ==> is_digit(#[trigger] s[i]))
    })
}

/// The index one past the month digits of a shaped date text.
pub open spec fn shape_month_end(s: Seq<char>) -> int {
    if s[6] == '-' {
        6
    } else {
        7
    }
}

/// The year a shaped date text names.
pub open spec fn date_year_val(s: Seq<char>) -> nat {
    digits_val(s.subrange(0, 4))
}

/// The month a shaped date text names.
pub open spec fn date_month_val(s: Seq<char>) -> nat {
    digits_val(s.subrange(5, shape_month_end(s)))
}

/// The day a shaped date text names.
pub open spec fn date_day_val(s: Seq<char>) -> nat {
    digits_val(s.subrange(shape_month_end(s) + 1, s.len() as int))
}

/// The message carried by every date-format error.
pub open spec fn format_error_text() -> Seq<char> {
    "String must be in the format of YYYY-MM-DD."@
}

impl DateTime {
    /// Whether the value names a real date and a real time of day.
    pub open spec fn wf(self) -> bool {
        &&& valid_ymd(self.year as int, self.month as int, self.day as int)
        &&& self.hour < 24
        &&& self.minute < 60
        &&& self.second < 60
        &&& self.nanosecond < 2_000_000_000
    }

    /// Local midnight of a calendar date.
    pub open spec fn midnight(y: int, m: int, d: int) -> DateTime {
        DateTime {
            year: y as u16,
            month: m as u8,
            day: d as u8,
            hour: 0,
            minute: 0,
            second: 0,
            nanosecond: 0,
        }
    }

    /// The canonical zero-padded `YYYY-MM-DD` text of the date part.
    pub open spec fn date_chars(self) -> Seq<char> {
        pad4_chars(self.year as nat) + seq!['-'] + pad2_chars(self.month as nat) + seq!['-']
            + pad2_chars(self.day as nat)
    }

    /// Append the canonical date text to a character vector.
    pub fn push_date_chars(&self, out: &mut Vec<char>)
        ensures
            final(out)@ == old(out)@ + self.date_chars(),
    {
        let ghost pre = out@;
        push_pad4_u64(out, self.year as u64);
        out.push('-');
        push_pad2_u64(out, self.month as u64);
        out.push('-');
        push_pad2_u64(out, self.day as u64);
        proof {
            assert(out@ =~= pre + self.date_chars());
        }
    }

    /// The canonical zero-padded `YYYY-MM-DD` text of the date part.
    pub fn format(&self) -> (r: String)
        ensures
            r@ == self.date_chars(),
    {
        let mut out: Vec<char> = Vec::new();
        self.push_date_chars(&mut out);
        chars_string(&out)
    }

    /// Parse a date text. Succeeds exactly on texts with the date shape
    /// that name a real calendar day, and yields that day's local
    /// midnight; everything else is the format error.
    pub fn parse(s: &str) -> (r: Result<DateTime, String>)
        ensures
            (match r {
                Ok(d) => {
                    &&& is_date_shape(s@)
                    &&& valid_ymd(
                        date_year_val(s@) as int,
                        date_month_val(s@) as int,
                        date_day_val(s@) as int,
                    )
                    &&& d == DateTime::midnight(
                        date_year_val(s@) as int,
                        date_month_val(s@) as int,
                        date_day_val(s@) as int,
                    )
                    &&& d.wf()
                },
                Err(e) => {
                    &&& !(is_date_shape(s@) && valid_ymd(
                        date_year_val(s@) as int,
                        date_month_val(s@) as int,
                        date_day_val(s@) as int,
                    ))
                    &&& e@ == format_error_text()
                },
            }),
    {
        let v = str_chars(s);
        match parse_date_chars(&v) {
            Some(d) => Ok(d),
            None => Err(format_error_string()),
        }
    }

    /// The current moment on the local clock. A clock outside the
    /// representable year range falls back to the earliest representable
    /// moment.
    pub fn now() -> (r: DateTime)
        ensures
            r.wf(),
    {
        let (y, mo, d, h, mi, se, ns) = now_parts();
        if y < 0 || y > 9999 {
            DateTime {
                year: 1970,
                month: 1,
                day: 1,
                hour: 0,
                minute: 0,
                second: 0,
                nanosecond: 0,
            }
        } else {
            DateTime { year: y as u16, month: mo, day: d, hour: h, minute: mi, second: se, nanosecond: ns }
        }
    }
}

/// A calendar date written as year-month-day: the year always four
/// digits, month and day zero-padded to two digits or bare.
pub open spec fn date_render(y: int, m: int, d: int, pad_month: bool, pad_day: bool) -> Seq<
    char,
> {
    pad4_chars(y as nat) + seq!['-'] + (if pad_month {
        pad2_chars(m as nat)
    } else {
        dec_chars(m as nat)
    }) + seq!['-'] + (if pad_day {
        pad2_chars(d as nat)
    } else {
        dec_chars(d as nat)
    })
}

/// Every real calendar day, written with or without zero padding of month
/// and day, has the date shape and names exactly its own year, month and
/// day — so parsing yields that day's midnight — and the canonical
/// formatted text of that midnight is the fully padded rendering.
pub proof fn lemma_date_parse_format_round_trip(
    y: int,
    m: int,
    d: int,
    pad_month: bool,
    pad_day: bool,
)
    requires
        valid_ymd(y, m, d),
    ensures
        is_date_shape(date_render(y, m, d, pad_month, pad_day)),
        date_year_val(date_render(y, m, d, pad_month, pad_day)) == y,
        date_month_val(date_render(y, m, d, pad_month, pad_day)) == m,
        date_day_val(date_render(y, m, d, pad_month, pad_day)) == d,
        DateTime::midnight(y, m, d).wf(),
        DateTime::midnight(y, m, d).date_chars() == date_render(y, m, d, true, true),
{
    let s = date_render(y, m, d, pad_month, pad_day);
    let a = pad4_chars(y as nat);
    let mm = if pad_month {
        pad2_chars(m as nat)
    } else {
        dec_chars(m as nat)
    };
    let dd = if pad_day {
        pad2_chars(d as nat)
    } else {
        dec_chars(d as nat)
    };
    crate::digits::lemma_pad4_form(y as nat);
    crate::digits::lemma_dec_chars_form(m as nat);
    crate::digits::lemma_dec_chars_val(m as nat);
    crate::digits::lemma_dec_chars_len(m as nat);
    crate::digits::lemma_dec_chars_form(d as nat);
    crate::digits::lemma_dec_chars_val(d as nat);
    crate::digits::lemma_dec_chars_len(d as nat);
    if pad_month {
        crate::digits::lemma_pad2_form(m as nat);
    }
    if pad_day {
        crate::digits::lemma_pad2_form(d as nat);
    }
    assert(1 <= mm.len() <= 2 && 1 <= dd.len() <= 2);
    assert(s.len() == 6 + mm.len() + dd.len());
    let me = 5 + mm.len() as int;
    assert forall|i: int| 0 <= i < 4 implies is_digit(#[trigger] s[i]) by {
        assert(s[i] == a[i]);
    }
    assert(s[4] == '-');
    assert(s[5] == mm[0]);
    assert(is_digit(s[5]));
    if mm.len() == 1 {
        assert(s[6] == '-');
        assert forall|i: int| 7 <= i < s.len() implies is_digit(#[trigger] s[i]) by {
            assert(s[i] == dd[i - 7]);
        }
    } else {
        assert(s[6] == mm[1]);
        assert(is_digit(s[6]));
        assert(s[6] != '-');
        assert(s[7] == '-');
        assert forall|i: int| 8 <= i < s.len() implies is_digit(#[trigger] s[i]) by {
            assert(s[i] == dd[i - 8]);
        }
    }
    assert(is_date_shape(s));
    assert(shape_month_end(s) == me);
    assert(s.subrange(0, 4) =~= a);
    assert(s.subrange(5, me) =~= mm);
    assert(s.subrange(me + 1, s.len() as int) =~= dd);
    assert(DateTime::midnight(y, m, d).date_chars() =~= date_render(y, m, d, true, true));
}

/// Outside the digits and the hyphen, no character occurs in a date's
/// canonical text.
pub proof fn lemma_date_chars_avoids(d: DateTime, c: char)
    requires
        d.wf(),
        !is_digit(c),
        c != '-',
    ensures
        crate::chars::avoids(d.date_chars(), c),
{
    crate::digits::lemma_pad4_form(d.year as nat);
    crate::digits::lemma_pad2_form(d.month as nat);
    crate::digits::lemma_pad2_form(d.day as nat);
    let a = pad4_chars(d.year as nat);
    let b = pad2_chars(d.month as nat);
    let e = pad2_chars(d.day as nat);
    crate::chars::lemma_avoids_concat(a, seq!['-'], c);
    crate::chars::lemma_avoids_concat(a + seq!['-'], b, c);
    crate::chars::lemma_avoids_concat(a + seq!['-'] + b, seq!['-'], c);
    crate::chars::lemma_avoids_concat(a + seq!['-'] + b + seq!['-'], e, c);
}

/// Whether a text has the canonical date shape: four digits, a hyphen,
/// one or two digits, a hyphen, one or two digits.
pub fn is_proper_date_format(s: &str) -> (r: bool)
    ensures
        r == is_date_shape(s@),
{
    let v = str_chars(s);
    date_shape_chars(&v)
}

/// The user-facing date-format error message.
pub(crate) fn format_error_string() -> (r: String)
    ensures
        r@ == format_error_text(),
{
    let m = String::from_str("String must be in the format of YYYY-MM-DD.");
    m
}

/// Relies on chrono's `Local::now` and its `Datelike` / `Timelike`
/// accessors: the current local calendar date and clock time. The crate
/// documents month in 1..=12, day a real day of that month, hour below 24,
/// minute and second below 60, and nanosecond below two billion (values of
/// a billion and above represent a leap second).
#[verifier::external_body]
fn now_parts() -> (r: (i32, u8, u8, u8, u8, u8, u32))
    ensures
        1 <= r.1 <= 12,
        1 <= r.2,
        r.2 as int <= days_in_month(r.0 as int, r.1 as int),
        r.3 < 24,
        r.4 < 60,
        r.5 < 60,
        r.6 < 2_000_000_000,
{
    let t = chrono::Local::now();
    let y = chrono::Datelike::year(&t);
    let mo = chrono::Datelike::month(&t) as u8;
    let d = chrono::Datelike::day(&t) as u8;
    let h = chrono::Timelike::hour(&t) as u8;
    let mi = chrono::Timelike::minute(&t) as u8;
    let se = chrono::Timelike::second(&t) as u8;
    let ns = chrono::Timelike::nanosecond(&t);
    (y, mo, d, h, mi, se, ns)
}

/// The number of days in a month of a given year.
pub fn days_in_month_of(y: u16, m: u8) -> (r: u8)
    requires
        1 <= m <= 12,
    ensures
        r as int == days_in_month(y as int, m as int),
{
    if m == 2 {
        if y % 4 == 0 && (y % 100 != 0 || y % 400 == 0) {
            29
        } else {
            28
        }
    } else if m == 4 || m == 6 || m == 9 || m == 11 {
        30
    } else {
        31
    }
}

/// Whether a character vector has the date shape.
#[verifier::loop_isolation(false)]
pub(crate) fn date_shape_chars(v: &Vec<char>) -> (r: bool)
    ensures
        r == is_date_shape(v@),
{
    let n = v.len();
    if n < 8 || n > 10 {
        return false;
    }
    let mut i: usize = 0;
    while i < 4
        invariant
            i <= 4,
            v@.len() >= 8,
            forall|j: int| 0 <= j < i ==> is_digit(#[trigger] v@[j]),
        decreases 4 - i,
    {
        let c = v[i];
        if (c as u32) < 48 || (c as u32) > 57 {
            return false;
        }
        i = i + 1;
    }
    if v[4] != '-' {
        return false;
    }
    let c5 = v[5];
    if (c5 as u32) < 48 || (c5 as u32) > 57 {
        return false;
    }
    if v[6] == '-' {
        if n > 9 {
            return false;
        }
        let mut i: usize = 7;
        while i < n
            invariant
                7 <= i <= n,
                n == v@.len(),
                forall|j: int| 7 <= j < i ==> is_digit(#[trigger] v@[j]),
            decreases n - i,
        {
            let c = v[i];
            if (c as u32) < 48 || (c as u32) > 57 {
                return false;
            }
            i = i + 1;
        }
        true
    } else {
        if n < 9 {
            return false;
        }
        let c6 = v[6];
        if (c6 as u32) < 48 || (c6 as u32) > 57 {
            return false;
        }
        if v[7] != '-' {
            return false;
        }
        let mut i: usize = 8;
        while i < n
            invariant
                8 <= i <= n,
                n == v@.len(),
                forall|j: int| 8 <= j < i ==> is_digit(#[trigger] v@[j]),
            decreases n - i,
        {
            let c = v[i];
            if (c as u32) < 48 || (c as u32) > 57 {
                return false;
            }
            i = i + 1;
        }
        true
    }
}

/// Parse a character vector as a date: the local midnight of the named
/// day when the text has the date shape and names a real day.
pub(crate) fn parse_date_chars(v: &Vec<char>) -> (r: Option<DateTime>)
    ensures
        (match r {
            Some(d) => {
                &&& is_date_shape(v@)
                &&& valid_ymd(
                    date_year_val(v@) as int,
                    date_month_val(v@) as int,
                    date_day_val(v@) as int,
                )
                &&& d == DateTime::midnight(
                    date_year_val(v@) as int,
                    date_month_val(v@) as int,
                    date_day_val(v@) as int,
                )
                &&& d.wf()
            },
            None => !(is_date_shape(v@) && valid_ymd(
                date_year_val(v@) as int,
                date_month_val(v@) as int,
                date_day_val(v@) as int,
            )),
        }),
{
    if !date_shape_chars(v) {
        return None;
    }
    let month_end: usize = if v[6] == '-' {
        6
    } else {
        7
    };
    proof {
        let s = v@;
        let me = month_end as int;
        assert forall|k: int| 0 <= k < 4 implies is_digit(#[trigger] s.subrange(0, 4)[k]) by {
            assert(s.subrange(0, 4)[k] == s[k]);
        }
        lemma_pow10_small();
        lemma_digits_val_bound(s.subrange(0, 4));
        assert forall|k: int| 0 <= k < me - 5 implies is_digit(
            #[trigger] s.subrange(5, me)[k],
        ) by {
            assert(s.subrange(5, me)[k] == s[5 + k]);
        }
        lemma_digits_val_bound(s.subrange(5, me));
        assert forall|k: int| 0 <= k < s.len() - me - 1 implies is_digit(
            #[trigger] s.subrange(me + 1, s.len() as int)[k],
        ) by {
            assert(s.subrange(me + 1, s.len() as int)[k] == s[me + 1 + k]);
        }
        lemma_digits_val_bound(s.subrange(me + 1, s.len() as int));
    }
    let year_v: u64 = match parse_u64_digits(v, 0, 4) {
        Some(x) => x,
        None => {
            return None;
        },
    };
    let month_v: u64 = match parse_u64_digits(v, 5, month_end) {
        Some(x) => x,
        None => {
            return None;
        },
    };
    let day_v: u64 = match parse_u64_digits(v, month_end + 1, v.len()) {
        Some(x) => x,
        None => {
            return None;
        },
    };
    let year: u16 = year_v as u16;
    if month_v < 1 || month_v > 12 {
        return None;
    }
    let month: u8 = month_v as u8;
    if day_v < 1 || day_v > days_in_month_of(year, month) as u64 {
        return None;
    }
    let day: u8 = day_v as u8;
    Some(
        DateTime {
            year,
            month,
            day,
            hour: 0,
            minute: 0,
            second: 0,
            nanosecond: 0,
        },
    )
}

} // verus!
