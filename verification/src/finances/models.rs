//! The finance records: spending categories, transaction kinds,
//! frequencies and account kinds with their journal names; accounts,
//! spending entries, recurring items and transfers; and the period
//! phrases of recurring rules.
//!
//! Amounts are whole cents, interest rates hundredths of a percent, and
//! credit limits whole cents.
use vstd::prelude::*;
use crate::date::{Date, iso_text, iso_read, chrono_ymd, parse_ymd, opt_date_view, lemma_iso_read, lemma_iso_shape};
use crate::text::{chars_of, eq_str, string_of, append, append_str, split_once, split_once_exec, trim, trim_exec, find, matches_at, is_ws, lemma_find_bounds, lemma_find_from_first, lemma_trim_start_exact, lemma_trim_end_exact};
use crate::date::{valid_ymd, day_number, month_index, add_months_spec, ymd_lt, first_date, last_date, max_year, add_months_clamped, lemma_day_number_order, lemma_month_index_order, lemma_day_in_year, lemma_year_step, lemma_years_ordered};

verus! {

#[derive(Debug, Clone, Copy, PartialEq, Eq, Structural)]
pub enum SpendingCategory {
    Stupid,
    Survival,
}

/// The hledger account a spending category posts to.
pub open spec fn category_account(c: SpendingCategory) -> Seq<char> {
    match c {
        SpendingCategory::Stupid => "expenses:stupid"@,
        SpendingCategory::Survival => "expenses:survival"@,
    }
}

/// The category whose account is `s`.
pub open spec fn category_of_account(s: Seq<char>) -> Option<SpendingCategory> {
    if s == "expenses:stupid"@ {
        Some(SpendingCategory::Stupid)
    } else if s == "expenses:survival"@ {
        Some(SpendingCategory::Survival)
    } else {
        None
    }
}

/// The tag value of a category.
pub open spec fn category_tag(c: SpendingCategory) -> Seq<char> {
    match c {
        SpendingCategory::Stupid => "stupid"@,
        SpendingCategory::Survival => "survival"@,
    }
}

/// The category whose tag value is `s`.
pub open spec fn category_of_tag(s: Seq<char>) -> Option<SpendingCategory> {
    if s == "stupid"@ {
        Some(SpendingCategory::Stupid)
    } else if s == "survival"@ {
        Some(SpendingCategory::Survival)
    } else {
        None
    }
}

impl SpendingCategory {
    /// The hledger account this category posts to.
    pub fn account(&self) -> (r: &'static str)
        ensures
            r@ == category_account(*self),
    {
        match self {
            SpendingCategory::Stupid => "expenses:stupid",
            SpendingCategory::Survival => "expenses:survival",
        }
    }

    pub fn from_account(account: &str) -> (r: Option<Self>)
        ensures
            r == category_of_account(account@),
    {
        let a = chars_of(account);
        if eq_str(&a, "expenses:stupid") {
            Some(SpendingCategory::Stupid)
        } else if eq_str(&a, "expenses:survival") {
            Some(SpendingCategory::Survival)
        } else {
            None
        }
    }

    /// The short tag value used for a recurring item's optional
    /// `category:` tag; distinct from `account()`, which is a full hledger
    /// account path.
    pub fn tag(&self) -> (r: &'static str)
        ensures
            r@ == category_tag(*self),
    {
        match self {
            SpendingCategory::Stupid => "stupid",
            SpendingCategory::Survival => "survival",
        }
    }

    pub fn from_tag(s: &str) -> (r: Option<Self>)
        ensures
            r == category_of_tag(s@),
    {
        let a = chars_of(s);
        if eq_str(&a, "stupid") {
            Some(SpendingCategory::Stupid)
        } else if eq_str(&a, "survival") {
            Some(SpendingCategory::Survival)
        } else {
            None
        }
    }
}

/// A category's account names it, and only it: reading the account back
/// gives the category, and an account that reads as a category is that
/// category's account.
pub proof fn lemma_category_account_round_trip(c: SpendingCategory, s: Seq<char>)
    ensures
        category_of_account(category_account(c)) == Some(c),
        category_of_account(s) == Some(c) ==> s == category_account(c),
{
    reveal_strlit("expenses:stupid");
    reveal_strlit("expenses:survival");
    assert("expenses:stupid"@.len() != "expenses:survival"@.len());
}

/// A category's tag names it, and only it.
pub proof fn lemma_category_tag_round_trip(c: SpendingCategory, s: Seq<char>)
    ensures
        category_of_tag(category_tag(c)) == Some(c),
        category_of_tag(s) == Some(c) ==> s == category_tag(c),
{
    reveal_strlit("stupid");
    reveal_strlit("survival");
    assert("stupid"@.len() != "survival"@.len());
}

#[derive(Debug, Clone, Copy, PartialEq, Eq, Structural)]
pub enum TxnKind {
    Income,
    Expense,
}

#[derive(Debug, Clone, Copy, PartialEq, Eq, Structural)]
pub enum Frequency {
    Weekly,
    Biweekly,
    Monthly,
    Yearly,
}

/// The hledger periodic-rule period expression of a frequency.
pub open spec fn phrase_of(f: Frequency) -> Seq<char> {
    match f {
        Frequency::Weekly => "weekly"@,
        Frequency::Biweekly => "every 2 weeks"@,
        Frequency::Monthly => "monthly"@,
        Frequency::Yearly => "yearly"@,
    }
}

/// The frequency whose period expression is `s`.
pub open spec fn frequency_of_phrase(s: Seq<char>) -> Option<Frequency> {
    if s == "weekly"@ {
        Some(Frequency::Weekly)
    } else if s == "every 2 weeks"@ {
        Some(Frequency::Biweekly)
    } else if s == "monthly"@ {
        Some(Frequency::Monthly)
    } else if s == "yearly"@ {
        Some(Frequency::Yearly)
    } else {
        None
    }
}

impl Frequency {
    /// The hledger periodic-rule period expression this frequency maps to.
    pub fn period_phrase(&self) -> (r: &'static str)
        ensures
            r@ == phrase_of(*self),
    {
        match self {
            Frequency::Weekly => "weekly",
            Frequency::Biweekly => "every 2 weeks",
            Frequency::Monthly => "monthly",
            Frequency::Yearly => "yearly",
        }
    }

    pub fn from_period_phrase(phrase: &str) -> (r: Option<Self>)
        ensures
            r == frequency_of_phrase(phrase@),
    {
        let a = chars_of(phrase);
        if eq_str(&a, "weekly") {
            Some(Frequency::Weekly)
        } else if eq_str(&a, "every 2 weeks") {
            Some(Frequency::Biweekly)
        } else if eq_str(&a, "monthly") {
            Some(Frequency::Monthly)
        } else if eq_str(&a, "yearly") {
            Some(Frequency::Yearly)
        } else {
            None
        }
    }
}

/// A frequency's period expression names it, and only it.
pub proof fn lemma_phrase_round_trip(f: Frequency, s: Seq<char>)
    ensures
        frequency_of_phrase(phrase_of(f)) == Some(f),
        frequency_of_phrase(s) == Some(f) ==> s == phrase_of(f),
{
    reveal_strlit("weekly");
    reveal_strlit("every 2 weeks");
    reveal_strlit("monthly");
    reveal_strlit("yearly");
    assert("weekly"@[0] != "yearly"@[0]);
    assert("weekly"@.len() != "every 2 weeks"@.len());
    assert("weekly"@.len() != "monthly"@.len());
    assert("every 2 weeks"@.len() != "monthly"@.len());
    assert("every 2 weeks"@.len() != "yearly"@.len());
    assert("monthly"@.len() != "yearly"@.len());
}

#[derive(Debug, Clone, Copy, PartialEq, Eq, Structural)]
pub enum AccountKind {
    Asset,
    Liability,
}

/// The hledger top-level account of an account kind.
pub open spec fn kind_prefix(k: AccountKind) -> Seq<char> {
    match k {
        AccountKind::Asset => "assets"@,
        AccountKind::Liability => "liabilities"@,
    }
}

/// The account kind whose top-level account is `s`.
pub open spec fn kind_of_prefix(s: Seq<char>) -> Option<AccountKind> {
    if s == "assets"@ {
        Some(AccountKind::Asset)
    } else if s == "liabilities"@ {
        Some(AccountKind::Liability)
    } else {
        None
    }
}

impl AccountKind {
    /// The hledger top-level account this kind posts under.
    pub fn prefix(&self) -> (r: &'static str)
        ensures
            r@ == kind_prefix(*self),
    {
        match self {
            AccountKind::Asset => "assets",
            AccountKind::Liability => "liabilities",
        }
    }

    pub fn from_prefix(prefix: &str) -> (r: Option<Self>)
        ensures
            r == kind_of_prefix(prefix@),
    {
        let a = chars_of(prefix);
        if eq_str(&a, "assets") {
            Some(AccountKind::Asset)
        } else if eq_str(&a, "liabilities") {
            Some(AccountKind::Liability)
        } else {
            None
        }
    }
}

/// An account kind's prefix names it, and only it.
pub proof fn lemma_prefix_round_trip(k: AccountKind, s: Seq<char>)
    ensures
        kind_of_prefix(kind_prefix(k)) == Some(k),
        kind_of_prefix(s) == Some(k) ==> s == kind_prefix(k),
{
    reveal_strlit("assets");
    reveal_strlit("liabilities");
    assert("assets"@.len() != "liabilities"@.len());
}

// ---------------------------------------------------------------------------
// Records
// ---------------------------------------------------------------------------

/// A user-managed account that spending entries and recurring items post
/// their non-category leg against. `balance` (cents) comes from a live
/// hledger query, never from the journal text.
#[derive(Debug, Clone)]
pub struct Account {
    pub id: String,
    pub name: String,
    pub kind: AccountKind,
    pub slug: String,
    pub balance: i64,
    /// Annual percentage rate in hundredths of a percent (`2499` is
    /// 24.99%).
    pub interest_rate: Option<i64>,
    /// Credit limit in cents.
    pub credit_limit: Option<i64>,
}

/// The full hledger account path of an account: `kind:slug`.
pub open spec fn account_path(kind: AccountKind, slug: Seq<char>) -> Seq<char> {
    kind_prefix(kind) + seq![':'] + slug
}

impl Account {
    /// The full hledger account path this account posts against, such as
    /// `assets:checking` or `liabilities:visa`.
    pub fn hledger_account(&self) -> (r: String)
        ensures
            r@ == account_path(self.kind, self.slug@),
    {
        let mut v = chars_of(self.kind.prefix());
        v.push(':');
        let s = chars_of(self.slug.as_str());
        append(&mut v, &s);
        string_of(&v)
    }
}

#[derive(Debug, Clone)]
pub struct SpendingEntry {
    pub id: String,
    pub date: Date,
    pub description: String,
    pub category: SpendingCategory,
    /// Cents.
    pub amount: i64,
    pub account: String,
}

#[derive(Debug, Clone)]
pub struct RecurringItem {
    pub id: String,
    pub name: String,
    /// Cents.
    pub amount: i64,
    pub kind: TxnKind,
    pub label: String,
    pub frequency: Frequency,
    pub reference_date: Option<Date>,
    pub account: String,
    /// Budget-category attribution: bookkeeping metadata only, not a change
    /// to the item's own `expenses:{label}` posting account.
    pub category: Option<SpendingCategory>,
}

/// A hypothetical, never persisted recurring item for previews.
#[derive(Debug, Clone)]
pub struct PreviewItem {
    pub name: String,
    /// Cents.
    pub amount: i64,
    pub kind: TxnKind,
    pub frequency: Frequency,
    pub reference_date: Option<Date>,
    pub account: String,
}

/// A one-off movement of money between two of the user's own accounts.
#[derive(Debug, Clone)]
pub struct TransferEntry {
    pub id: String,
    pub date: Date,
    pub description: String,
    /// Cents.
    pub amount: i64,
    pub from_account: String,
    pub to_account: String,
}

/// A recurring movement between two accounts.
#[derive(Debug, Clone)]
pub struct RecurringTransfer {
    pub id: String,
    pub name: String,
    /// Cents.
    pub amount: i64,
    pub frequency: Frequency,
    pub reference_date: Option<Date>,
    pub from_account: String,
    pub to_account: String,
}

/// Spending per category, in cents.
#[derive(Debug, Clone, Copy, PartialEq, Eq, Structural)]
pub struct CategoryTotals {
    pub stupid: i64,
    pub survival: i64,
}

impl CategoryTotals {
    pub fn default() -> (r: Self)
        ensures
            r.stupid == 0 && r.survival == 0,
    {
        CategoryTotals { stupid: 0, survival: 0 }
    }
}

// ---------------------------------------------------------------------------
// Period phrases
// ---------------------------------------------------------------------------

/// The period expression of a periodic rule: the frequency's phrase, and
/// with a reference date hledger's `from YYYY-MM-DD` anchor.
pub open spec fn period_text(f: Frequency, rd: Option<(int, int, int)>) -> Seq<char> {
    match rd {
        Some(d) => phrase_of(f) + " from "@ + iso_text(d),
        None => phrase_of(f),
    }
}

/// The date chrono reads from a text, with the documented case spelled
/// out: the ISO text of a valid date, as chrono writes it.
pub open spec fn date_read(s: Seq<char>) -> Option<(int, int, int)> {
    if iso_read(s) is Some {
        iso_read(s)
    } else {
        chrono_ymd(s)
    }
}

/// A period expression read back: the part before ` from ` names the
/// frequency and the part after it the reference date (`None` when it does
/// not read as one); without ` from `, the whole expression names the
/// frequency.
pub open spec fn period_of(s: Seq<char>) -> Option<(Frequency, Option<(int, int, int)>)> {
    match split_once(s, " from "@) {
        Some((p, ds)) => match frequency_of_phrase(trim(p)) {
            Some(f) => Some((f, date_read(trim(ds)))),
            None => None,
        },
        None => match frequency_of_phrase(trim(s)) {
            Some(f) => Some((f, None)),
            None => None,
        },
    }
}

/// Builds the full hledger period expression for a periodic-rule header:
/// the frequency's phrase, plus hledger's `from <date>` anchor when there
/// is a reference date, so occurrences land on that date's cadence.
pub fn build_period_phrase(frequency: Frequency, reference_date: Option<Date>) -> (r: String)
    ensures
        r@ == period_text(frequency, opt_date_view(reference_date)),
{
    let mut v = chars_of(frequency.period_phrase());
    match reference_date {
        Some(d) => {
            append_str(&mut v, " from ");
            let iso = d.to_iso();
            append_str(&mut v, iso.as_str());
        },
        None => {},
    }
    string_of(&v)
}

/// Splits a period expression back into its frequency and optional
/// reference date (see `period_of`).
pub fn parse_period_phrase(period: &str) -> (r: Option<(Frequency, Option<Date>)>)
    ensures
        match r {
            Some((f, rd)) => period_of(period@) == Some((f, opt_date_view(rd))),
            None => period_of(period@) is None,
        },
{
    let p = chars_of(period);
    let sep = chars_of(" from ");
    match split_once_exec(&p, &sep) {
        Some((phrase, date_str)) => {
            let ph = string_of(&trim_exec(&phrase));
            let frequency = match Frequency::from_period_phrase(ph.as_str()) {
                Some(f) => f,
                None => return None,
            };
            let ds = string_of(&trim_exec(&date_str));
            let reference_date = parse_ymd(ds.as_str());
            Some((frequency, reference_date))
        },
        None => {
            let ph = string_of(&trim_exec(&p));
            match Frequency::from_period_phrase(ph.as_str()) {
                Some(f) => Some((f, None)),
                None => None,
            }
        },
    }
}

/// A text that starts and ends with non-whitespace is its own trim.
pub proof fn lemma_trim_solid(s: Seq<char>)
    requires
        s.len() > 0,
        !is_ws(s[0]),
        !is_ws(s.last()),
    ensures
        trim(s) == s,
{
    lemma_trim_start_exact(s, 0);
    assert(s.skip(0) =~= s);
    lemma_trim_end_exact(s, s.len() as int);
    assert(s.take(s.len() as int) =~= s);
}

/// ` from ` cannot start at a position followed by a character other than
/// `f`.
proof fn lemma_from_needs_f(s: Seq<char>, k: int)
    requires
        matches_at(s, " from "@, k),
    ensures
        s[k + 1] == 'f',
{
    reveal_strlit(" from ");
    assert(s.subrange(k, k + 6)[1] == s[k + 1]);
}

/// A frequency's phrase has no `f` in it and no whitespace at its ends.
proof fn lemma_phrase_shape(f: Frequency)
    ensures
        forall|k: int| 0 <= k < phrase_of(f).len() ==> #[trigger] phrase_of(f)[k] != 'f',
        phrase_of(f).len() > 0,
        !is_ws(phrase_of(f)[0]),
        !is_ws(phrase_of(f).last()),
{
    reveal_strlit("weekly");
    reveal_strlit("every 2 weeks");
    reveal_strlit("monthly");
    reveal_strlit("yearly");
}

/// A period expression written by `build_period_phrase` reads back as its
/// frequency and reference date.
#[verifier::rlimit(30)]
pub proof fn lemma_period_round_trip(f: Frequency, rd: Option<(int, int, int)>)
    requires
        rd matches Some(d) ==> valid_ymd(d.0, d.1, d.2),
    ensures
        period_of(period_text(f, rd)) == Some((f, rd)),
{
    let ph = phrase_of(f);
    lemma_phrase_shape(f);
    lemma_phrase_round_trip(f, ph);
    lemma_trim_solid(ph);
    let sep = " from "@;
    reveal_strlit(" from ");
    match rd {
        None => {
            lemma_find_bounds(ph, sep);
            if find(ph, sep) is Some {
                let i = find(ph, sep)->Some_0;
                lemma_from_needs_f(ph, i);
            }
        },
        Some(d) => {
            let iso = iso_text(d);
            lemma_iso_read(d);
            lemma_iso_shape(d);
            crate::date::lemma_year_text(d.0);
            assert(iso[0] == iso.subrange(0, crate::date::year_text(d.0).len() as int)[0]);
            let s = ph + sep + iso;
            assert(s.subrange(ph.len() as int, ph.len() + 6int) =~= sep);
            assert forall|k: int| 0 <= k < ph.len() implies !#[trigger] matches_at(s, sep, k) by {
                if matches_at(s, sep, k) {
                    lemma_from_needs_f(s, k);
                    if k + 1 < ph.len() {
                        assert(s[k + 1] == ph[k + 1]);
                    } else {
                        assert(s[k + 1] == sep[0]);
                    }
                }
            }
            lemma_find_from_first(s, sep, 0, ph.len() as int);
            assert(s.take(ph.len() as int) =~= ph);
            assert(s.skip(ph.len() + 6int) =~= iso);
            assert(!is_ws(iso[0]) && !is_ws(iso.last()));
            lemma_trim_solid(iso);
        },
    }
}

// ---------------------------------------------------------------------------
// Occurrences
// ---------------------------------------------------------------------------

/// `v` is the `k`-th occurrence (from 0) of a frequency anchored at
/// `anchor`: `7k` or `14k` days later, or `k` or `12k` months later with the
/// day clamped to the month.
pub open spec fn is_nth_occurrence(f: Frequency, anchor: (int, int, int), k: int, v: (int, int, int)) -> bool {
    &&& valid_ymd(v.0, v.1, v.2)
    &&& match f {
        Frequency::Weekly => day_number(v) == day_number(anchor) + 7 * k,
        Frequency::Biweekly => day_number(v) == day_number(anchor) + 14 * k,
        Frequency::Monthly => v == add_months_spec(anchor, k),
        Frequency::Yearly => v == add_months_spec(anchor, 12 * k),
    }
}

/// `a` is not after `b`.
pub open spec fn ymd_le(a: (int, int, int), b: (int, int, int)) -> bool {
    !ymd_lt(b, a)
}

/// The occurrence count beyond which every occurrence lies after `end`.
pub open spec fn occurrence_bound(f: Frequency, anchor: (int, int, int), end: (int, int, int)) -> int {
    let dd = day_number(end) - day_number(anchor);
    let md = month_index(end) - month_index(anchor);
    match f {
        Frequency::Weekly => if dd >= 0 {
            dd / 7 + 1
        } else {
            0
        },
        Frequency::Biweekly => if dd >= 0 {
            dd / 14 + 1
        } else {
            0
        },
        Frequency::Monthly => if md >= 0 {
            md + 1
        } else {
            0
        },
        Frequency::Yearly => if md >= 0 {
            md / 12 + 1
        } else {
            0
        },
    }
}

/// Occurrences grow with their index.
pub proof fn lemma_occurrence_order(
    f: Frequency,
    anchor: (int, int, int),
    j: int,
    k: int,
    u: (int, int, int),
    v: (int, int, int),
)
    requires
        0 <= j < k,
        is_nth_occurrence(f, anchor, j, u),
        is_nth_occurrence(f, anchor, k, v),
    ensures
        ymd_lt(u, v),
{
    lemma_day_number_order(u, v);
    match f {
        Frequency::Monthly => {
            lemma_month_index_order(u, v);
        },
        Frequency::Yearly => {
            lemma_month_index_order(u, v);
        },
        _ => {},
    }
}

/// `j` steps of `step` fit in `d` only if `j` is at most `d / step`.
proof fn lemma_steps_within(d: int, step: int, j: int)
    requires
        0 < step,
        0 <= j,
        step * j <= d,
    ensures
        j <= d / step,
{
    assert(j <= d / step) by (nonlinear_arith)
        requires
            0 < step,
            0 <= j,
            step * j <= d,
    ;
}

/// Up to `d / step + 1` steps of `step` reach no further than `d + step`.
proof fn lemma_steps_cover(d: int, step: int, k: int)
    requires
        0 < step,
        0 <= d,
        0 <= k <= d / step + 1,
    ensures
        step * k <= d + step,
{
    assert(step * k <= d + step) by (nonlinear_arith)
        requires
            0 < step,
            0 <= d,
            0 <= k <= d / step + 1,
    ;
}

/// The walk to `end` stays within the date range: every occurrence it
/// computes, up to the one at the bound, is a date of the range. A monthly
/// or yearly occurrence reads its month's length from the first day of the
/// next month, so it lies before the last month of the range.
pub open spec fn occurrences_fit(f: Frequency, anchor: (int, int, int), end: (int, int, int)) -> bool {
    let b = occurrence_bound(f, anchor, end);
    match f {
        Frequency::Weekly => day_number(anchor) + 7 * b <= day_number(last_date()),
        Frequency::Biweekly => day_number(anchor) + 14 * b <= day_number(last_date()),
        Frequency::Monthly => month_index(anchor) + b <= 12 * max_year() + 10,
        Frequency::Yearly => month_index(anchor) + 12 * b <= 12 * max_year() + 10,
    }
}

/// A walk whose end and anchor lie before the last two years of the range
/// stays within it.
pub proof fn lemma_early_dates_fit(f: Frequency, anchor: (int, int, int), end: (int, int, int))
    requires
        valid_ymd(anchor.0, anchor.1, anchor.2),
        valid_ymd(end.0, end.1, end.2),
        end.0 < max_year() - 1,
        anchor.0 < max_year() - 1,
    ensures
        occurrences_fit(f, anchor, end),
{
    lemma_day_number_order(end, last_date());
    lemma_day_number_order(anchor, last_date());
    lemma_day_in_year(end.0, end.1, end.2);
    lemma_year_step(end.0);
    lemma_years_ordered(end.0 + 1, max_year());
    lemma_day_in_year(max_year(), 12, 31);
    assert(day_number(end) + 365 <= day_number(last_date()));
    let dd = day_number(end) - day_number(anchor);
    let md = month_index(end) - month_index(anchor);
    match f {
        Frequency::Weekly => if dd >= 0 {
            lemma_steps_cover(dd, 7, dd / 7 + 1);
        },
        Frequency::Biweekly => if dd >= 0 {
            lemma_steps_cover(dd, 14, dd / 14 + 1);
        },
        Frequency::Yearly => if md >= 0 {
            lemma_steps_cover(md, 12, md / 12 + 1);
        },
        Frequency::Monthly => {},
    }
}

/// No occurrence at or beyond the bound is on or before `end`.
pub proof fn lemma_occurrence_bound(
    f: Frequency,
    anchor: (int, int, int),
    end: (int, int, int),
    j: int,
    u: (int, int, int),
)
    requires
        valid_ymd(end.0, end.1, end.2),
        0 <= j,
        is_nth_occurrence(f, anchor, j, u),
        ymd_le(u, end),
    ensures
        j < occurrence_bound(f, anchor, end),
{
    lemma_day_number_order(u, end);
    match f {
        Frequency::Monthly => {
            if month_index(end) < month_index(u) {
                lemma_month_index_order(end, u);
            }
        },
        Frequency::Yearly => {
            if month_index(end) < month_index(u) {
                lemma_month_index_order(end, u);
            }
            lemma_steps_within(month_index(end) - month_index(anchor), 12, j);
        },
        Frequency::Weekly => {
            lemma_steps_within(day_number(end) - day_number(anchor), 7, j);
        },
        Frequency::Biweekly => {
            lemma_steps_within(day_number(end) - day_number(anchor), 14, j);
        },
    }
}

/// An occurrence's index determines it.
pub proof fn lemma_occurrence_unique(f: Frequency, anchor: (int, int, int), k: int, u: (int, int, int), v: (int, int, int))
    requires
        is_nth_occurrence(f, anchor, k, u),
        is_nth_occurrence(f, anchor, k, v),
    ensures
        u == v,
{
    lemma_day_number_order(u, v);
}

impl Frequency {
    /// The `k`-th occurrence (from 0) of this frequency anchored at
    /// `anchor`, always computed from `anchor` itself, so month-end clamping
    /// never compounds across steps.
    pub fn nth_occurrence(&self, anchor: Date, k: i64) -> (r: Date)
        requires
            0 <= k <= 100000000,
            match *self {
                Frequency::Weekly => day_number(anchor@) + 7 * k <= day_number(last_date()),
                Frequency::Biweekly => day_number(anchor@) + 14 * k <= day_number(last_date()),
                Frequency::Monthly => month_index(anchor@) + k <= 12 * max_year() + 10,
                Frequency::Yearly => month_index(anchor@) + 12 * k <= 12 * max_year() + 10,
            },
        ensures
            is_nth_occurrence(*self, anchor@, k as int, r@),
    {
        let y = anchor.year();
        proof {
            lemma_day_number_order(first_date(), anchor@);
        }
        match self {
            Frequency::Weekly => {
                match anchor.checked_add_days(7 * k) {
                    Some(d) => d,
                    None => {
                        assert(false);
                        anchor
                    },
                }
            },
            Frequency::Biweekly => {
                match anchor.checked_add_days(14 * k) {
                    Some(d) => d,
                    None => {
                        assert(false);
                        anchor
                    },
                }
            },
            Frequency::Monthly => add_months_clamped(anchor, k as i32),
            Frequency::Yearly => add_months_clamped(anchor, 12 * (k as i32)),
        }
    }
}

/// The anchor of a schedule: its reference date, or the window's start.
pub open spec fn anchor_of(reference_date: Option<Date>, start: Date) -> (int, int, int) {
    match reference_date {
        Some(d) => d@,
        None => start@,
    }
}

impl Frequency {
    /// The occurrence dates of this frequency within `[start, end]`
    /// inclusive, in order, anchored at `reference_date` (or at `start`
    /// itself when there is none: a schedule without a reference date has
    /// no other cadence anchor). Empty when `start` is after `end`.
    /// Otherwise the walk computes each occurrence up to the first after
    /// `end`, which must lie in the date range (see `occurrences_fit`).
    #[verifier::rlimit(100)]
    #[verifier::spinoff_prover]
    pub fn occurrences_between(&self, reference_date: Option<Date>, start: Date, end: Date) -> (r: Vec<Date>)
        requires
            ymd_lt(end@, start@) || occurrences_fit(*self, anchor_of(reference_date, start), end@),
        ensures
            ymd_lt(end@, start@) ==> r@.len() == 0,
            forall|i: int, j: int| 0 <= i < j < r@.len() ==> ymd_lt(r@[i]@, r@[j]@),
            forall|i: int|
                0 <= i < r@.len() ==> ymd_le(start@, (#[trigger] r@[i])@) && ymd_le(r@[i]@, end@) && exists|k: int|
                    k >= 0 && #[trigger] is_nth_occurrence(*self, anchor_of(reference_date, start), k, r@[i]@),
            forall|k: int, v: (int, int, int)|
                k >= 0 && #[trigger] is_nth_occurrence(*self, anchor_of(reference_date, start), k, v) && ymd_le(
                    start@,
                    v,
                ) && ymd_le(v, end@) ==> exists|i: int| 0 <= i < r@.len() && (#[trigger] r@[i])@ == v,
    {
        if end.is_before(&start) {
            return Vec::new();
        }
        let anchor = match reference_date {
            Some(d) => d,
            None => start,
        };
        let f = *self;
        let _ = end.day();
        let _ = anchor.day();
        proof {
            lemma_day_number_order(anchor@, end@);
            lemma_day_number_order(first_date(), anchor@);
            lemma_day_number_order(anchor@, last_date());
        }
        let mut occ: Vec<Date> = Vec::new();
        let mut k: i64 = 0;
        loop
            invariant_except_break
                0 <= k <= occurrence_bound(f, anchor@, end@),
            invariant
                0 <= k,
                f == *self,
                anchor@ == anchor_of(reference_date, start),
                valid_ymd(anchor@.0, anchor@.1, anchor@.2),
                valid_ymd(end@.0, end@.1, end@.2),
                occurrences_fit(f, anchor@, end@),
                day_number(anchor@) <= day_number(last_date()),
                forall|j: int, v: (int, int, int)|
                    0 <= j < k && #[trigger] is_nth_occurrence(f, anchor@, j, v) ==> ymd_le(v, end@),
                forall|i: int|
                    0 <= i < occ@.len() ==> ymd_le(start@, (#[trigger] occ@[i])@) && ymd_le(occ@[i]@, end@)
                        && exists|j: int| 0 <= j < k && #[trigger] is_nth_occurrence(f, anchor@, j, occ@[i]@),
                forall|i: int, j: int| 0 <= i < j < occ@.len() ==> ymd_lt(occ@[i]@, occ@[j]@),
                forall|j: int, v: (int, int, int)|
                    0 <= j < k && #[trigger] is_nth_occurrence(f, anchor@, j, v) && ymd_le(start@, v) ==> exists|
                        i: int,
                    | 0 <= i < occ@.len() && (#[trigger] occ@[i])@ == v,
            ensures
                forall|j: int, v: (int, int, int)|
                    j >= k && #[trigger] is_nth_occurrence(f, anchor@, j, v) ==> ymd_lt(end@, v),
            decreases occurrence_bound(f, anchor@, end@) - k,
        {
            proof {
                assert(k <= 100000000) by {
                    lemma_day_number_order(anchor@, end@);
                }
                let dd = day_number(end@) - day_number(anchor@);
                let md = month_index(end@) - month_index(anchor@);
                match f {
                    Frequency::Weekly => if dd >= 0 {
                        lemma_steps_cover(dd, 7, k as int);
                    },
                    Frequency::Biweekly => if dd >= 0 {
                        lemma_steps_cover(dd, 14, k as int);
                    },
                    Frequency::Yearly => if md >= 0 {
                        lemma_steps_cover(md, 12, k as int);
                        assert(month_index(anchor@) + 12 * k <= month_index(end@) + 12);
                    },
                    Frequency::Monthly => {},
                }
            }
            let date = f.nth_occurrence(anchor, k);
            if end.is_before(&date) {
                proof {
                    assert forall|j: int, v: (int, int, int)|
                        j >= k && #[trigger] is_nth_occurrence(f, anchor@, j, v) implies ymd_lt(end@, v) by {
                        if j > k {
                            lemma_occurrence_order(f, anchor@, k as int, j, date@, v);
                            lemma_day_number_order(end@, date@);
                            lemma_day_number_order(date@, v);
                            lemma_day_number_order(end@, v);
                        } else {
                            lemma_occurrence_unique(f, anchor@, k as int, date@, v);
                        }
                    }
                }
                break;
            }
            proof {
                lemma_occurrence_bound(f, anchor@, end@, k as int, date@);
            }
            if !date.is_before(&start) {
                let ghost old_occ = occ@;
                proof {
                    assert forall|i: int| 0 <= i < old_occ.len() implies ymd_lt(old_occ[i]@, date@) by {
                        let j = choose|j: int| 0 <= j < k && #[trigger] is_nth_occurrence(f, anchor@, j, old_occ[i]@);
                        lemma_occurrence_order(f, anchor@, j, k as int, old_occ[i]@, date@);
                    }
                }
                occ.push(date);
                proof {
                    assert forall|i: int, j: int| 0 <= i < j < occ@.len() implies ymd_lt(occ@[i]@, occ@[j]@) by {
                        if j < old_occ.len() {
                            assert(occ@[i] == old_occ[i] && occ@[j] == old_occ[j]);
                        } else {
                            assert(occ@[i] == old_occ[i]);
                        }
                    }
                    assert forall|i: int| 0 <= i < occ@.len() implies ymd_le(start@, (#[trigger] occ@[i])@) && ymd_le(
                        occ@[i]@,
                        end@,
                    ) && exists|j: int| 0 <= j < k + 1 && #[trigger] is_nth_occurrence(f, anchor@, j, occ@[i]@) by {
                        if i < old_occ.len() {
                            assert(occ@[i] == old_occ[i]);
                            let j = choose|j: int| 0 <= j < k && #[trigger] is_nth_occurrence(f, anchor@, j, old_occ[i]@);
                            assert(is_nth_occurrence(f, anchor@, j, occ@[i]@));
                        } else {
                            assert(occ@[i] == date);
                            assert(is_nth_occurrence(f, anchor@, k as int, occ@[i]@));
                        }
                    }
                    assert forall|j: int, v: (int, int, int)|
                        0 <= j < k + 1 && #[trigger] is_nth_occurrence(f, anchor@, j, v) && ymd_le(start@, v) implies exists|
                            i: int,
                        | 0 <= i < occ@.len() && (#[trigger] occ@[i])@ == v by {
                        if j < k {
                            let i = choose|i: int| 0 <= i < old_occ.len() && (#[trigger] old_occ[i])@ == v;
                            assert(occ@[i] == old_occ[i]);
                        } else {
                            lemma_occurrence_unique(f, anchor@, k as int, date@, v);
                            assert(occ@[old_occ.len() as int] == date);
                        }
                    }
                }
            } else {
                proof {
                    assert forall|j: int, v: (int, int, int)|
                        0 <= j < k + 1 && #[trigger] is_nth_occurrence(f, anchor@, j, v) && ymd_le(start@, v) implies exists|
                            i: int,
                        | 0 <= i < occ@.len() && (#[trigger] occ@[i])@ == v by {
                        if j == k {
                            lemma_occurrence_unique(f, anchor@, k as int, date@, v);
                        }
                    }
                    assert forall|i: int| 0 <= i < occ@.len() implies exists|j: int|
                        0 <= j < k + 1 && #[trigger] is_nth_occurrence(f, anchor@, j, (#[trigger] occ@[i])@) by {
                        let j = choose|j: int| 0 <= j < k && #[trigger] is_nth_occurrence(f, anchor@, j, occ@[i]@);
                    }
                }
            }
            proof {
                assert forall|j: int, v: (int, int, int)|
                    0 <= j < k + 1 && #[trigger] is_nth_occurrence(f, anchor@, j, v) implies ymd_le(v, end@) by {
                    if j == k {
                        lemma_occurrence_unique(f, anchor@, k as int, date@, v);
                    }
                }
            }
            k += 1;
        }
        occ
    }
}

/// How many consecutive daily compounding steps one payoff point covers:
/// one day for a horizon of twelve months or less, a week beyond that.
pub fn payoff_step_days(months_ahead: u32) -> (r: i64)
    ensures
        r == if months_ahead <= 12 {
            1int
        } else {
            7int
        },
{
    if months_ahead <= 12 {
        1
    } else {
        7
    }
}

} // verus!
