//! Calendar dates of the proleptic Gregorian calendar, in the range the
//! `chrono` crate supports, with their ISO `YYYY-MM-DD` text.
use vstd::prelude::*;
use chrono::Datelike;
use chrono::TimeZone;
use crate::text::{decimal, digits_value, all_digits, is_digit, u64_digits, append, string_of, lemma_decimal_digits, digit_value};

verus! {

/// Whether `y` is a leap year.
pub open spec fn is_leap(y: int) -> bool {
    y % 4 == 0 && (y % 100 != 0 || y % 400 == 0)
}

/// The number of days of month `m` of year `y`.
pub open spec fn days_in_month(y: int, m: int) -> int {
    if m == 2 {
        if is_leap(y) {
            29
        } else {
            28
        }
    } else if m == 4 || m == 6 || m == 9 || m == 11 {
        30
    } else {
        31
    }
}

/// The earliest year a date can have.
pub open spec fn min_year() -> int {
    -262143
}

/// The latest year a date can have.
pub open spec fn max_year() -> int {
    262142
}

/// A valid date: a year in range, a month 1 to 12, and a day of that month.
pub open spec fn valid_ymd(y: int, m: int, d: int) -> bool {
    &&& min_year() <= y <= max_year()
    &&& 1 <= m <= 12
    &&& 1 <= d <= days_in_month(y, m)
}

/// The number of days before January 1 of year `y`, counted from
/// January 1 of year 1.
pub open spec fn days_before_year(y: int) -> int {
    let p = y - 1;
    365 * p + p / 4 - p / 100 + p / 400
}

/// The number of days of year `y` before month `m`.
pub open spec fn days_before_month(y: int, m: int) -> int {
    let base: int = if m <= 1 {
        0
    } else if m == 2 {
        31
    } else if m == 3 {
        59
    } else if m == 4 {
        90
    } else if m == 5 {
        120
    } else if m == 6 {
        151
    } else if m == 7 {
        181
    } else if m == 8 {
        212
    } else if m == 9 {
        243
    } else if m == 10 {
        273
    } else if m == 11 {
        304
    } else {
        334
    };
    base + if m > 2 && is_leap(y) {
        1int
    } else {
        0int
    }
}

/// The position of a date on the day line: January 1 of year 1 is day 0.
pub open spec fn day_number(v: (int, int, int)) -> int {
    days_before_year(v.0) + days_before_month(v.0, v.1) + v.2 - 1
}

/// Strictly earlier, comparing year, then month, then day.
pub open spec fn ymd_lt(a: (int, int, int), b: (int, int, int)) -> bool {
    ||| a.0 < b.0
    ||| (a.0 == b.0 && a.1 < b.1)
    ||| (a.0 == b.0 && a.1 == b.1 && a.2 < b.2)
}

/// A calendar date.
#[derive(Debug, Clone, Copy, PartialEq, Eq, Structural, PartialOrd, Ord, Hash)]
pub struct Date {
    year: i32,
    month: u32,
    day: u32,
}

impl View for Date {
    type V = (int, int, int);

    closed spec fn view(&self) -> (int, int, int) {
        (self.year as int, self.month as int, self.day as int)
    }
}

impl Date {
    #[verifier::type_invariant]
    spec fn valid(self) -> bool {
        valid_ymd(self.year as int, self.month as int, self.day as int)
    }

    /// The date of the given year, month and day; `None` when there is no
    /// such day or the year is out of range.
    #[verifier::rlimit(30)]
    pub fn from_ymd_opt(year: i32, month: u32, day: u32) -> (r: Option<Date>)
        ensures
            r is Some <==> valid_ymd(year as int, month as int, day as int),
            r matches Some(x) ==> x@ == (year as int, month as int, day as int),
    {
        if year < -262143 || year > 262142 || month < 1 || month > 12 || day < 1 {
            return None;
        }
        let leap = year % 4 == 0 && (year % 100 != 0 || year % 400 == 0);
        let dim: u32 = if month == 2 {
            if leap {
                29
            } else {
                28
            }
        } else if month == 4 || month == 6 || month == 9 || month == 11 {
            30
        } else {
            31
        };
        assert(leap == is_leap(year as int));
        if day > dim {
            return None;
        }
        Some(Date { year, month, day })
    }

    pub fn year(&self) -> (r: i32)
        ensures
            r as int == self@.0,
            valid_ymd(self@.0, self@.1, self@.2),
    {
        proof {
            use_type_invariant(self);
        }
        self.year
    }

    pub fn month(&self) -> (r: u32)
        ensures
            r as int == self@.1,
            valid_ymd(self@.0, self@.1, self@.2),
    {
        proof {
            use_type_invariant(self);
        }
        self.month
    }

    pub fn day(&self) -> (r: u32)
        ensures
            r as int == self@.2,
            valid_ymd(self@.0, self@.1, self@.2),
    {
        proof {
            use_type_invariant(self);
        }
        self.day
    }

    /// Whether this date comes strictly before `other`.
    pub fn is_before(&self, other: &Date) -> (r: bool)
        ensures
            r == ymd_lt(self@, other@),
    {
        self.year < other.year || (self.year == other.year && self.month < other.month) || (self.year
            == other.year && self.month == other.month && self.day < other.day)
    }
}

// ---------------------------------------------------------------------------
// ISO text
// ---------------------------------------------------------------------------

/// `n` in decimal, with leading zeros up to `w` digits.
pub open spec fn padded(n: nat, w: nat) -> Seq<char> {
    let d = decimal(n);
    if d.len() < w {
        Seq::new((w - d.len()) as nat, |i: int| '0') + d
    } else {
        d
    }
}

/// The year as `%Y` writes it: four digits, zero-padded, for years 0 to
/// 9999; otherwise a sign and at least four digits.
pub open spec fn year_text(y: int) -> Seq<char> {
    if 0 <= y <= 9999 {
        padded(y as nat, 4)
    } else if y < 0 {
        seq!['-'] + padded((-y) as nat, 4)
    } else {
        seq!['+'] + padded(y as nat, 4)
    }
}

/// The ISO text `YYYY-MM-DD` of a date (`%Y-%m-%d`).
pub open spec fn iso_text(v: (int, int, int)) -> Seq<char> {
    year_text(v.0) + seq!['-'] + padded(v.1 as nat, 2) + seq!['-'] + padded(v.2 as nat, 2)
}

/// `n` in decimal with leading zeros up to `w` digits.
fn padded_exec(n: u64, w: usize) -> (r: Vec<char>)
    ensures
        r@ == padded(n as nat, w as nat),
{
    let d = u64_digits(n);
    if d.len() < w {
        let mut r: Vec<char> = Vec::new();
        let k = w - d.len();
        let mut i: usize = 0;
        while i < k
            invariant
                i <= k,
                r@ == Seq::new(i as nat, |j: int| '0'),
            decreases k - i,
        {
            r.push('0');
            i += 1;
            assert(r@ =~= Seq::new(i as nat, |j: int| '0'));
        }
        append(&mut r, &d);
        r
    } else {
        d
    }
}

impl Date {
    /// The ISO text of the date, `YYYY-MM-DD` (`%Y-%m-%d`).
    pub fn to_iso(&self) -> (r: String)
        ensures
            r@ == iso_text(self@),
    {
        proof {
            use_type_invariant(self);
        }
        let y = self.year;
        let mut out: Vec<char> = if 0 <= y && y <= 9999 {
            padded_exec(y as u64, 4)
        } else if y < 0 {
            let mut s = vec!['-'];
            let p = padded_exec((-y) as u64, 4);
            append(&mut s, &p);
            s
        } else {
            let mut s = vec!['+'];
            let p = padded_exec(y as u64, 4);
            append(&mut s, &p);
            s
        };
        assert(out@ == year_text(self@.0));
        out.push('-');
        let m = padded_exec(self.month as u64, 2);
        append(&mut out, &m);
        out.push('-');
        let d = padded_exec(self.day as u64, 2);
        append(&mut out, &d);
        assert(out@ =~= iso_text(self@));
        string_of(&out)
    }
}

/// The date an exact ISO text `YYYY-MM-DD` names: four digits of a year
/// from 0 to 9999, two of a month and two of a day, forming a valid date.
pub open spec fn iso_date(s: Seq<char>) -> Option<(int, int, int)> {
    if s.len() == 10 && s[4] == '-' && s[7] == '-' && all_digits(s.subrange(0, 4)) && all_digits(
        s.subrange(5, 7),
    ) && all_digits(s.subrange(8, 10)) {
        let y = digits_value(s.subrange(0, 4)) as int;
        let m = digits_value(s.subrange(5, 7)) as int;
        let d = digits_value(s.subrange(8, 10)) as int;
        if valid_ymd(y, m, d) {
            Some((y, m, d))
        } else {
            None
        }
    } else {
        None
    }
}

/// The date, if any, `chrono::NaiveDate::parse_from_str(s, fmt)` reads
/// from `s` in the format `fmt`.
pub uninterp spec fn chrono_date(s: Seq<char>, fmt: Seq<char>) -> Option<(int, int, int)>;

/// The date, if any, chrono reads from `s` in the format `%Y-%m-%d`.
pub open spec fn chrono_ymd(s: Seq<char>) -> Option<(int, int, int)> {
    chrono_date(s, "%Y-%m-%d"@)
}

/// An exact `YYYYMMDD` text of a valid date.
pub open spec fn compact_date(s: Seq<char>) -> Option<(int, int, int)> {
    if s.len() == 8 && all_digits(s) {
        let y = digits_value(s.subrange(0, 4)) as int;
        let m = digits_value(s.subrange(4, 6)) as int;
        let d = digits_value(s.subrange(6, 8)) as int;
        if valid_ymd(y, m, d) {
            Some((y, m, d))
        } else {
            None
        }
    } else {
        None
    }
}

/// The plain value of an optional date.
pub open spec fn opt_date_view(o: Option<Date>) -> Option<(int, int, int)> {
    match o {
        Some(d) => Some(d@),
        None => None,
    }
}

/// `chrono::NaiveDate::parse_from_str(s, fmt)`, an error read as `None`.
/// Its result is named `chrono_date`; the cases of the formats this
/// library reads are stated too: with `%Y-%m-%d`, an exact `YYYY-MM-DD`
/// text of a valid date reads as that date, and so does the text chrono
/// itself writes for any valid date (`%Y` is documented to take the sign
/// it writes outside 0 to 9999, in formatting and in parsing); with
/// `%Y%m%d`, an exact `YYYYMMDD` text of a valid date does (chrono reads at
/// most four digits of an unsigned year and two of a month or a day).
/// Which other texts chrono accepts (single-digit fields, ...) is left to
/// the crate.
#[verifier::external_body]
fn parse_date_with(s: &str, fmt: &str) -> (r: Option<Date>)
    ensures
        opt_date_view(r) == chrono_date(s@, fmt@),
        fmt@ == "%Y-%m-%d"@ && iso_date(s@) is Some ==> opt_date_view(r) == iso_date(s@),
        fmt@ == "%Y-%m-%d"@ && iso_read(s@) is Some ==> opt_date_view(r) == iso_read(s@),
        fmt@ == "%Y%m%d"@ && compact_date(s@) is Some ==> opt_date_view(r) == compact_date(s@),
{
    match chrono::NaiveDate::parse_from_str(s, fmt) {
        Ok(x) => Some(Date { year: x.year(), month: x.month(), day: x.day() }),
        Err(_) => None,
    }
}

// ---------------------------------------------------------------------------
// Instants
// ---------------------------------------------------------------------------

/// The instant, as (seconds since 1970-01-01T00:00:00Z, nanoseconds past
/// that second), that `chrono::DateTime::parse_from_rfc3339` reads from
/// `s`; `None` when it does not read `s`.
pub uninterp spec fn rfc3339_instant(s: Seq<char>) -> Option<(i64, u32)>;

/// Whether `chrono::DateTime::parse_from_rfc3339` accepts a text.
pub open spec fn rfc3339_valid(s: Seq<char>) -> bool {
    rfc3339_instant(s) is Some
}

/// An instant an RFC 3339 text can denote: a four-digit year at an offset
/// of less than a day, and the nanoseconds of a second (past 10^9 only
/// within a leap second, which ends a minute).
pub open spec fn rfc3339_range(i: (i64, u32)) -> bool {
    &&& -62_167_219_200 - 86_400 <= i.0 <= 253_402_300_800 + 86_400
    &&& i.1 < 2_000_000_000
    &&& i.1 >= 1_000_000_000 ==> i.0 % 60 == 59
}

/// `chrono::DateTime::parse_from_rfc3339`, the result given as its
/// timestamp and its nanoseconds. The instant is named `rfc3339_instant`;
/// also stated is what the parser's grammar bounds: a four-digit year, an
/// offset within ±23:59, and nanoseconds past 10^9 only in a leap second.
#[verifier::external_body]
pub(crate) fn parse_rfc3339_instant(s: &str) -> (r: Option<(i64, u32)>)
    ensures
        r == rfc3339_instant(s@),
        r matches Some(i) ==> rfc3339_range(i),
{
    match chrono::DateTime::parse_from_rfc3339(s) {
        Ok(dt) => Some((dt.timestamp(), dt.timestamp_subsec_nanos())),
        Err(_) => None,
    }
}

/// The UTC day of an instant, as a day number.
pub open spec fn utc_day(i: (i64, u32)) -> int {
    day_number((1970, 1, 1)) + i.0 / 86_400
}

/// The day `d` is the instant's day at some offset of less than a day from
/// UTC: it lies within one day of the instant's UTC day.
pub open spec fn near_utc_day(d: (int, int, int), i: (i64, u32)) -> bool {
    -1 <= day_number(d) - utc_day(i) <= 1
}

/// `t` is a `%Y-%m-%d %H:%M` text of a time on the day `d`: the day's ISO
/// text, a space, two digits, a colon and two digits.
pub open spec fn minute_text_on(t: Seq<char>, d: (int, int, int)) -> bool {
    let n = iso_text(d).len() as int + 1;
    &&& t.len() == n + 5
    &&& t.subrange(0, n) == iso_text(d) + seq![' ']
    &&& is_digit(t[n]) && is_digit(t[n + 1]) && t[n + 2] == ':' && is_digit(t[n + 3]) && is_digit(t[n + 4])
}

/// `chrono::Local.timestamp_opt`: the instant in the machine's time zone,
/// as its calendar day and its `%Y-%m-%d %H:%M` text. chrono documents a
/// single result for seconds in range and valid nanoseconds, and its
/// offsets are under a day: the day lies within one day of the instant's
/// UTC day, and the text is that day's ISO text (chrono's `%Y` writes a
/// year as `year_text` does) then the hour and minute. Which of those days
/// and which hour and minute depend on the machine's time zone and are left
/// unsaid.
#[verifier::external_body]
pub(crate) fn local_time_of(i: (i64, u32)) -> (r: (Date, String))
    requires
        rfc3339_range(i),
    ensures
        near_utc_day(r.0@, i),
        minute_text_on(r.1@, r.0@),
{
    let t = chrono::Local.timestamp_opt(i.0, i.1).single().expect("an instant in range");
    let d = t.date_naive();
    (Date { year: d.year(), month: d.month(), day: d.day() }, t.format("%Y-%m-%d %H:%M").to_string())
}

/// `chrono::Utc::now()`, as its timestamp and nanoseconds. Nothing is
/// promised of it: it is the time of the call.
#[verifier::external_body]
pub(crate) fn now_instant() -> (r: (i64, u32)) {
    let t = chrono::Utc::now();
    (t.timestamp(), t.timestamp_subsec_nanos())
}

/// `a` is a later instant than `b`.
pub open spec fn instant_after(a: (i64, u32), b: (i64, u32)) -> bool {
    a.0 > b.0 || (a.0 == b.0 && a.1 > b.1)
}

/// Whether `a` is a later instant than `b`.
pub fn is_after(a: (i64, u32), b: (i64, u32)) -> (r: bool)
    ensures
        r == instant_after(a, b),
{
    a.0 > b.0 || (a.0 == b.0 && a.1 > b.1)
}

/// The date chrono reads from `s` in the format `%Y-%m-%d`: an exact
/// `YYYY-MM-DD` text of a valid date reads as that date, and so does the
/// ISO text of any valid date.
pub(crate) fn parse_ymd(s: &str) -> (r: Option<Date>)
    ensures
        opt_date_view(r) == chrono_ymd(s@),
        iso_date(s@) is Some ==> opt_date_view(r) == iso_date(s@),
        iso_read(s@) is Some ==> opt_date_view(r) == iso_read(s@),
{
    parse_date_with(s, "%Y-%m-%d")
}

/// The date chrono reads from `s` in the format `%Y%m%d`: an exact
/// `YYYYMMDD` text of a valid date reads as that date.
pub(crate) fn parse_compact_ymd(s: &str) -> (r: Option<Date>)
    ensures
        opt_date_view(r) == chrono_date(s@, "%Y%m%d"@),
        compact_date(s@) is Some ==> opt_date_view(r) == compact_date(s@),
{
    parse_date_with(s, "%Y%m%d")
}

// ---------------------------------------------------------------------------
// Reading back the ISO text
// ---------------------------------------------------------------------------

/// Leading zeros do not change the value of a digit text.
proof fn lemma_leading_zeros(k: nat, d: Seq<char>)
    ensures
        digits_value(Seq::new(k, |i: int| '0') + d) == digits_value(d),
    decreases d.len() + k,
{
    let z = Seq::new(k, |i: int| '0');
    if d.len() == 0 {
        assert(z + d =~= z);
        if k > 0 {
            let z1 = Seq::new((k - 1) as nat, |i: int| '0');
            assert(z.drop_last() =~= z1);
            assert(z1 + d =~= z1);
            lemma_leading_zeros((k - 1) as nat, d);
            assert(digit_value(z.last()) == 0);
        }
    } else {
        lemma_leading_zeros(k, d.drop_last());
        assert((z + d).drop_last() =~= z + d.drop_last());
        assert((z + d).last() == d.last());
    }
}

/// The decimal text of a number below 10000 has at most four digits, and
/// below 100 at most two.
proof fn lemma_decimal_len(n: nat)
    ensures
        n < 10 ==> decimal(n).len() == 1,
        n < 100 ==> decimal(n).len() <= 2,
        n < 1000 ==> decimal(n).len() <= 3,
        n < 10000 ==> decimal(n).len() <= 4,
    decreases n,
{
    if n >= 10 {
        lemma_decimal_len(n / 10);
    }
}

/// A zero-padded number wider than its digits is `w` digits worth `n`.
pub proof fn lemma_padded(n: nat, w: nat)
    requires
        decimal(n).len() <= w,
    ensures
        padded(n, w).len() == w,
        all_digits(padded(n, w)),
        digits_value(padded(n, w)) == n,
{
    lemma_decimal_digits(n);
    let d = decimal(n);
    if d.len() < w {
        let k = (w - d.len()) as nat;
        lemma_leading_zeros(k, d);
        let p = Seq::new(k, |i: int| '0') + d;
        assert forall|i: int| 0 <= i < p.len() implies is_digit(#[trigger] p[i]) by {
            if i >= k {
                assert(p[i] == d[i - k]);
            }
        }
    }
}

/// The date whose ISO text `s` is, if any: `%Y-%m-%d` as chrono writes it,
/// the year signed outside 0 to 9999.
pub open spec fn iso_read(s: Seq<char>) -> Option<(int, int, int)> {
    if exists|v: (int, int, int)| valid_ymd(v.0, v.1, v.2) && #[trigger] iso_text(v) == s {
        Some(choose|v: (int, int, int)| valid_ymd(v.0, v.1, v.2) && #[trigger] iso_text(v) == s)
    } else {
        None
    }
}

/// A zero-padded number is digits worth the number, at least `w` of them.
proof fn lemma_padded_any(n: nat, w: nat)
    ensures
        all_digits(padded(n, w)),
        digits_value(padded(n, w)) == n,
        padded(n, w).len() >= 1,
        padded(n, w).len() >= w,
{
    lemma_decimal_digits(n);
    if decimal(n).len() <= w {
        lemma_padded(n, w);
    }
}

/// The year's `%Y` text: its first character tells the sign (a digit for
/// 0 to 9999, `-` below, `+` above) and the rest is digits worth its size.
pub proof fn lemma_year_text(y: int)
    ensures
        year_text(y).len() >= 4,
        0 <= y <= 9999 ==> is_digit(year_text(y)[0]) && all_digits(year_text(y)) && digits_value(year_text(y))
            == y,
        y < 0 ==> year_text(y)[0] == '-' && all_digits(year_text(y).drop_first()) && digits_value(
            year_text(y).drop_first(),
        ) == -y,
        y > 9999 ==> year_text(y)[0] == '+' && all_digits(year_text(y).drop_first()) && digits_value(
            year_text(y).drop_first(),
        ) == y,
        forall|i: int|
            0 <= i < year_text(y).len() ==> is_digit(#[trigger] year_text(y)[i]) || year_text(y)[i] == '-'
                || year_text(y)[i] == '+',
{
    if 0 <= y <= 9999 {
        lemma_decimal_len(y as nat);
        lemma_padded(y as nat, 4);
        assert(is_digit(year_text(y)[0]));
    } else {
        let n: nat = if y < 0 {
            (-y) as nat
        } else {
            y as nat
        };
        lemma_padded_any(n, 4);
        let p = padded(n, 4);
        let c = if y < 0 {
            '-'
        } else {
            '+'
        };
        assert(year_text(y) == seq![c] + p);
        assert(year_text(y).drop_first() =~= p);
        assert forall|i: int| 0 <= i < year_text(y).len() implies is_digit(#[trigger] year_text(y)[i])
            || year_text(y)[i] == '-' || year_text(y)[i] == '+' by {
            if i > 0 {
                assert(year_text(y)[i] == p[i - 1]);
            }
        }
    }
}

/// The ISO text of a valid date: the year's text, then `-`, two digits,
/// `-` and two digits; every character a digit, `-` or `+`.
pub proof fn lemma_iso_shape(v: (int, int, int))
    requires
        valid_ymd(v.0, v.1, v.2),
    ensures
        iso_text(v).len() == year_text(v.0).len() + 6,
        iso_text(v).subrange(0, year_text(v.0).len() as int) == year_text(v.0),
        iso_text(v).subrange(year_text(v.0).len() as int + 1, year_text(v.0).len() as int + 3) == padded(v.1 as nat, 2),
        iso_text(v).subrange(year_text(v.0).len() as int + 4, year_text(v.0).len() as int + 6) == padded(v.2 as nat, 2),
        all_digits(padded(v.1 as nat, 2)) && digits_value(padded(v.1 as nat, 2)) == v.1,
        all_digits(padded(v.2 as nat, 2)) && digits_value(padded(v.2 as nat, 2)) == v.2,
        is_digit(iso_text(v).last()),
        forall|i: int|
            0 <= i < iso_text(v).len() ==> is_digit(#[trigger] iso_text(v)[i]) || iso_text(v)[i] == '-'
                || iso_text(v)[i] == '+',
{
    lemma_year_text(v.0);
    lemma_decimal_len(v.1 as nat);
    lemma_decimal_len(v.2 as nat);
    lemma_padded(v.1 as nat, 2);
    lemma_padded(v.2 as nat, 2);
    let y = year_text(v.0);
    let m = padded(v.1 as nat, 2);
    let d = padded(v.2 as nat, 2);
    let s = iso_text(v);
    let l = y.len() as int;
    assert(s =~= y + seq!['-'] + m + seq!['-'] + d);
    assert(s.subrange(0, l) =~= y);
    assert(s.subrange(l + 1, l + 3) =~= m);
    assert(s.subrange(l + 4, l + 6) =~= d);
    assert(s.last() == d[1]);
    assert forall|i: int| 0 <= i < s.len() implies is_digit(#[trigger] s[i]) || s[i] == '-' || s[i] == '+' by {
        if i < l {
            assert(s[i] == y[i]);
        } else if l < i < l + 3 {
            assert(s[i] == m[i - l - 1]);
        } else if l + 3 < i {
            assert(s[i] == d[i - l - 4]);
        }
    }
}

/// Two valid dates with the same ISO text are the same date.
pub proof fn lemma_iso_text_injective(a: (int, int, int), b: (int, int, int))
    requires
        valid_ymd(a.0, a.1, a.2),
        valid_ymd(b.0, b.1, b.2),
        iso_text(a) == iso_text(b),
    ensures
        a == b,
{
    lemma_iso_shape(a);
    lemma_iso_shape(b);
    lemma_year_text(a.0);
    lemma_year_text(b.0);
    let ya = year_text(a.0);
    let yb = year_text(b.0);
    assert(ya.len() == yb.len());
    assert(ya == yb);
    if 0 <= a.0 <= 9999 {
        assert(is_digit(ya[0]));
    } else if a.0 < 0 {
        assert(ya[0] == '-');
    } else {
        assert(ya[0] == '+');
    }
}

/// The ISO text of a valid date reads back as that date.
pub proof fn lemma_iso_read(v: (int, int, int))
    requires
        valid_ymd(v.0, v.1, v.2),
    ensures
        iso_read(iso_text(v)) == Some(v),
{
    let s = iso_text(v);
    assert(valid_ymd(v.0, v.1, v.2) && iso_text(v) == s);
    let c = choose|u: (int, int, int)| valid_ymd(u.0, u.1, u.2) && #[trigger] iso_text(u) == s;
    lemma_iso_text_injective(c, v);
}

// ---------------------------------------------------------------------------
// Clock texts
// ---------------------------------------------------------------------------

/// The day of the week of a date, 0 for Monday: January 1 of year 1 of the
/// proleptic Gregorian calendar was a Monday.
pub open spec fn weekday(d: (int, int, int)) -> int {
    day_number(d) % 7
}

/// chrono's `%a`: the English abbreviation of weekday `w` (0 for Monday).
pub open spec fn weekday_abbr(w: int) -> Seq<char> {
    if w == 0 {
        seq!['M', 'o', 'n']
    } else if w == 1 {
        seq!['T', 'u', 'e']
    } else if w == 2 {
        seq!['W', 'e', 'd']
    } else if w == 3 {
        seq!['T', 'h', 'u']
    } else if w == 4 {
        seq!['F', 'r', 'i']
    } else if w == 5 {
        seq!['S', 'a', 't']
    } else {
        seq!['S', 'u', 'n']
    }
}

/// chrono's `%b`: the English abbreviation of month `m`.
pub open spec fn month_abbr(m: int) -> Seq<char> {
    if m == 1 {
        seq!['J', 'a', 'n']
    } else if m == 2 {
        seq!['F', 'e', 'b']
    } else if m == 3 {
        seq!['M', 'a', 'r']
    } else if m == 4 {
        seq!['A', 'p', 'r']
    } else if m == 5 {
        seq!['M', 'a', 'y']
    } else if m == 6 {
        seq!['J', 'u', 'n']
    } else if m == 7 {
        seq!['J', 'u', 'l']
    } else if m == 8 {
        seq!['A', 'u', 'g']
    } else if m == 9 {
        seq!['S', 'e', 'p']
    } else if m == 10 {
        seq!['O', 'c', 't']
    } else if m == 11 {
        seq!['N', 'o', 'v']
    } else {
        seq!['D', 'e', 'c']
    }
}

/// A time of day: an hour below 24, a minute below 60, and a second below
/// 61 (60 only in a leap second).
pub open spec fn valid_hms(h: int, mi: int, sec: int) -> bool {
    0 <= h < 24 && 0 <= mi < 60 && 0 <= sec < 61
}

/// `%H:%M` of a time of day.
pub open spec fn hm_text(h: int, mi: int) -> Seq<char> {
    padded(h as nat, 2) + seq![':'] + padded(mi as nat, 2)
}

/// `%a %d-%b-%Y` of a date: its weekday, day, month and year.
pub open spec fn day_text(d: (int, int, int)) -> Seq<char> {
    weekday_abbr(weekday(d)) + seq![' '] + padded(d.2 as nat, 2) + seq!['-'] + month_abbr(d.1) + seq!['-']
        + year_text(d.0)
}

/// `%Y-%m-%d %H:%M:%S` of a date and time of day.
pub open spec fn stamp_text(d: (int, int, int), h: int, mi: int, sec: int) -> Seq<char> {
    iso_text(d) + seq![' '] + hm_text(h, mi) + seq![':'] + padded(sec as nat, 2)
}

/// `%a %d %b %Y  %H:%M` of a date and time of day.
pub open spec fn list_time_text(d: (int, int, int), h: int, mi: int) -> Seq<char> {
    weekday_abbr(weekday(d)) + seq![' '] + padded(d.2 as nat, 2) + seq![' '] + month_abbr(d.1) + seq![' ']
        + year_text(d.0) + seq![' ', ' '] + hm_text(h, mi)
}

/// `t` is the `day_text` of some valid date, as a daily summary shows the
/// day.
pub open spec fn is_day_text(t: Seq<char>) -> bool {
    exists|d: (int, int, int)| valid_ymd(d.0, d.1, d.2) && t == #[trigger] day_text(d)
}

/// `t` is the `stamp_text` of some valid date and time of day.
pub open spec fn is_stamp_text(t: Seq<char>) -> bool {
    exists|d: (int, int, int), h: int, mi: int, sec: int|
        valid_ymd(d.0, d.1, d.2) && valid_hms(h, mi, sec) && t == #[trigger] stamp_text(d, h, mi, sec)
}

/// `t` is the `list_time_text` of some valid date and time of day, as a
/// printed list shows when it was printed.
pub open spec fn is_list_time_text(t: Seq<char>) -> bool {
    exists|d: (int, int, int), h: int, mi: int|
        valid_ymd(d.0, d.1, d.2) && valid_hms(h, mi, 0) && t == #[trigger] list_time_text(d, h, mi)
}

// ---------------------------------------------------------------------------
// Day arithmetic
// ---------------------------------------------------------------------------

/// The number of days of year `y`.
pub open spec fn days_in_year(y: int) -> int {
    if is_leap(y) {
        366
    } else {
        365
    }
}

/// Consecutive years are `days_in_year` apart on the day line.
#[verifier::rlimit(60)]
#[verifier::spinoff_prover]
pub proof fn lemma_year_step(y: int)
    ensures
        days_before_year(y + 1) == days_before_year(y) + days_in_year(y),
{
    let p = y - 1;
    assert((p + 1) / 4 - p / 4 == if y % 4 == 0 {
        1int
    } else {
        0int
    });
    assert((p + 1) / 100 - p / 100 == if y % 100 == 0 {
        1int
    } else {
        0int
    });
    assert((p + 1) / 400 - p / 400 == if y % 400 == 0 {
        1int
    } else {
        0int
    });
}

/// Within a year, a valid date's day number stays before the next year's.
pub proof fn lemma_day_in_year(y: int, m: int, d: int)
    requires
        1 <= m <= 12,
        1 <= d <= days_in_month(y, m),
    ensures
        0 <= days_before_month(y, m) + d - 1 < days_in_year(y),
        m < 12 ==> days_before_month(y, m + 1) == days_before_month(y, m) + days_in_month(y, m),
{
}

/// Years before `y` lie before it on the day line.
pub proof fn lemma_years_ordered(a: int, b: int)
    requires
        a < b,
    ensures
        days_before_year(a) + days_in_year(a) <= days_before_year(b),
    decreases b - a,
{
    lemma_year_step(a);
    if a + 1 < b {
        lemma_years_ordered(a + 1, b);
        lemma_year_step(a + 1);
    }
}

/// The calendar order of valid dates is their order on the day line.
pub proof fn lemma_day_number_order(a: (int, int, int), b: (int, int, int))
    requires
        valid_ymd(a.0, a.1, a.2),
        valid_ymd(b.0, b.1, b.2),
    ensures
        ymd_lt(a, b) <==> day_number(a) < day_number(b),
        a == b <==> day_number(a) == day_number(b),
{
    lemma_day_in_year(a.0, a.1, a.2);
    lemma_day_in_year(b.0, b.1, b.2);
    if a.0 < b.0 {
        lemma_years_ordered(a.0, b.0);
    } else if b.0 < a.0 {
        lemma_years_ordered(b.0, a.0);
    } else if a.1 < b.1 {
        lemma_months_ordered(a.0, a.1, b.1);
    } else if b.1 < a.1 {
        lemma_months_ordered(a.0, b.1, a.1);
    }
}

/// Months before `m` lie before it within a year.
pub proof fn lemma_months_ordered(y: int, a: int, b: int)
    requires
        1 <= a < b <= 12,
    ensures
        days_before_month(y, a) + days_in_month(y, a) <= days_before_month(y, b),
{
}

/// The position of a date's month on the month line: January of year 0 is
/// month 0.
pub open spec fn month_index(v: (int, int, int)) -> int {
    v.0 * 12 + v.1 - 1
}

/// `v` moved by `months` calendar months, its day clamped to the target
/// month's last day.
pub open spec fn add_months_spec(v: (int, int, int), months: int) -> (int, int, int) {
    let t = month_index(v) + months;
    let y = t / 12;
    let m = t % 12 + 1;
    let d = if v.2 < days_in_month(y, m) {
        v.2
    } else {
        days_in_month(y, m)
    };
    (y, m, d)
}

/// A later month is a later date, whatever the days.
pub proof fn lemma_month_index_order(a: (int, int, int), b: (int, int, int))
    requires
        1 <= a.1 <= 12,
        1 <= b.1 <= 12,
        month_index(a) < month_index(b),
    ensures
        ymd_lt(a, b),
{
}

/// The earliest date.
pub open spec fn first_date() -> (int, int, int) {
    (min_year(), 1, 1)
}

/// The latest date.
pub open spec fn last_date() -> (int, int, int) {
    (max_year(), 12, 31)
}

impl Date {
    /// `chrono::NaiveDate::checked_add_signed` with a whole number of days:
    /// the date `n` days later (earlier for negative `n`), or `None` when
    /// that date is out of range.
    #[verifier::external_body]
    pub(crate) fn checked_add_days(&self, n: i64) -> (r: Option<Date>)
        requires
            i32::MIN <= n <= i32::MAX,
        ensures
            r matches Some(x) ==> day_number(x@) == day_number(self@) + n && valid_ymd(x@.0, x@.1, x@.2),
            r is None <==> !(day_number(first_date()) <= day_number(self@) + n <= day_number(last_date())),
    {
        let nd = chrono::NaiveDate::from_ymd_opt(self.year, self.month, self.day).expect("a valid date");
        match nd.checked_add_signed(chrono::TimeDelta::days(n)) {
            Some(x) => Some(Date { year: x.year(), month: x.month(), day: x.day() }),
            None => None,
        }
    }
}

impl Date {
    /// `chrono::NaiveDate::checked_add_months`: the date `months` calendar
    /// months later, its day clamped to the last day of the target month;
    /// the date itself for zero months; `None` when the target is out of
    /// range or the month count exceeds `i32::MAX`.
    #[verifier::external_body]
    pub(crate) fn checked_add_months(&self, months: u32) -> (r: Option<Date>)
        ensures
            months == 0 ==> r == Some(*self),
            months > i32::MAX ==> r is None,
            0 < months <= i32::MAX ==> (r is Some <==> (month_index(self@) + months) / 12 <= max_year()),
            0 < months <= i32::MAX ==> (r matches Some(x) ==> x@ == add_months_spec(self@, months as int)),
    {
        let nd = chrono::NaiveDate::from_ymd_opt(self.year, self.month, self.day).expect("a valid date");
        match nd.checked_add_months(chrono::Months::new(months)) {
            Some(x) => Some(Date { year: x.year(), month: x.month(), day: x.day() }),
            None => None,
        }
    }

    /// `chrono::NaiveDate::checked_sub_months`: the date `months` calendar
    /// months earlier, its day clamped to the last day of the target month;
    /// the date itself for zero months; `None` when the target is out of
    /// range or the month count exceeds `i32::MAX`.
    #[verifier::external_body]
    pub(crate) fn checked_sub_months(&self, months: u32) -> (r: Option<Date>)
        ensures
            months == 0 ==> r == Some(*self),
            months > i32::MAX ==> r is None,
            0 < months <= i32::MAX ==> (r is Some <==> min_year() <= (month_index(self@) - months) / 12),
            0 < months <= i32::MAX ==> (r matches Some(x) ==> x@ == add_months_spec(self@, -months)),
    {
        let nd = chrono::NaiveDate::from_ymd_opt(self.year, self.month, self.day).expect("a valid date");
        match nd.checked_sub_months(chrono::Months::new(months)) {
            Some(x) => Some(Date { year: x.year(), month: x.month(), day: x.day() }),
            None => None,
        }
    }
}

/// The number of days in a month: the day of the month of the day before
/// the first of the next month, so that next month must be in range too.
pub fn last_day_of_month(year: i32, month: u32) -> (r: u32)
    requires
        min_year() <= year <= max_year(),
        1 <= month <= 12,
        !(year == max_year() && month == 12),
    ensures
        r == days_in_month(year as int, month as int),
{
    let leap = year % 4 == 0 && (year % 100 != 0 || year % 400 == 0);
    assert(leap == is_leap(year as int));
    if month == 2 {
        if leap {
            29
        } else {
            28
        }
    } else if month == 4 || month == 6 || month == 9 || month == 11 {
        30
    } else {
        31
    }
}

/// Adds `months` calendar months to `date`, clamping the day of the month
/// to the target month's last day rather than overflowing into the next
/// month (Jan 31 + 1 month is Feb 28 or 29), always from `date`'s own day,
/// so a schedule anchored on the 31st returns to the 31st in months that
/// have one. The month count must stay within `i32` and the target month
/// within range (and before the last month of the last year, as the day
/// count of a month is derived from the first day of the next).
#[verifier::rlimit(30)]
pub fn add_months_clamped(date: Date, months: i32) -> (r: Date)
    requires
        i32::MIN <= month_index(date@) + months <= i32::MAX,
        min_year() <= (month_index(date@) + months) / 12 <= max_year(),
        !((month_index(date@) + months) / 12 == max_year() && (month_index(date@) + months) % 12 == 11),
    ensures
        r@ == add_months_spec(date@, months as int),
        valid_ymd(r@.0, r@.1, r@.2),
{
    let y = date.year();
    let mo = date.month();
    let d = date.day();
    let total: i64 = (y as i64) * 12 + (mo as i64) - 1 + (months as i64);
    let year_i: i64 = if total >= 0 {
        total / 12
    } else {
        -((-total + 11) / 12)
    };
    let month_i: i64 = total - year_i * 12;
    assert(year_i == total / 12 && month_i == total % 12) by {
        if total < 0 {
            assert(-((-total + 11) / 12) == total / 12) by (nonlinear_arith)
                requires total < 0;
        }
    }
    let year = year_i as i32;
    let month = (month_i + 1) as u32;
    let last_day = last_day_of_month(year, month);
    let day = if d < last_day {
        d
    } else {
        last_day
    };
    match Date::from_ymd_opt(year, month, day) {
        Some(r) => r,
        None => {
            assert(false);
            date
        },
    }
}

} // verus!
