//! Per-occurrence payment tracking of recurring items and transfers: the
//! schedule comes from the journal, whether an occurrence was paid from
//! rows of the local database. This module joins the two into one summary
//! per recurring item or transfer.
use vstd::prelude::*;
use crate::date::{Date, iso_text, chrono_ymd, parse_ymd, opt_date_view, ymd_lt, max_year, min_year, month_index,
    add_months_spec};
use crate::db::RecurringOccurrenceRow;
use crate::finances::models::{Frequency, RecurringItem, RecurringTransfer, anchor_of, is_nth_occurrence, ymd_le,
    occurrences_fit, lemma_early_dates_fit};
use crate::text::{chars_of, eq_chars, string_of};

verus! {

/// How many months back an occurrence without a tracking row can still
/// show as outstanding.
pub const LOOKBACK_MONTHS: u32 = 12;

// ---------------------------------------------------------------------------
// Occurrence lists
// ---------------------------------------------------------------------------

/// `ds` lists, in calendar order and each once, exactly the occurrences of
/// `f` anchored at `anchor` that fall within `[start, end]`.
pub open spec fn is_occurrence_list(
    ds: Seq<(int, int, int)>,
    f: Frequency,
    anchor: (int, int, int),
    start: (int, int, int),
    end: (int, int, int),
) -> bool {
    &&& forall|i: int, j: int| 0 <= i < j < ds.len() ==> ymd_lt(ds[i], ds[j])
    &&& forall|i: int|
        0 <= i < ds.len() ==> ymd_le(start, #[trigger] ds[i]) && ymd_le(ds[i], end) && exists|k: int|
            k >= 0 && #[trigger] is_nth_occurrence(f, anchor, k, ds[i])
    &&& forall|k: int, v: (int, int, int)|
        k >= 0 && #[trigger] is_nth_occurrence(f, anchor, k, v) && ymd_le(start, v) && ymd_le(v, end) ==> exists|
            i: int,
        | 0 <= i < ds.len() && ds[i] == v
}

/// The occurrences of `f` anchored at `anchor` within `[start, end]`, in
/// calendar order (there is one such list: `lemma_occurrence_list_unique`).
pub open spec fn occurrence_list(
    f: Frequency,
    anchor: (int, int, int),
    start: (int, int, int),
    end: (int, int, int),
) -> Seq<(int, int, int)> {
    choose|ds: Seq<(int, int, int)>| is_occurrence_list(ds, f, anchor, start, end)
}

/// The plain values of a list of dates.
pub open spec fn date_views(ds: Seq<Date>) -> Seq<(int, int, int)> {
    ds.map_values(|d: Date| d@)
}

/// `x` is a member of `s`.
pub open spec fn occurs_in(s: Seq<(int, int, int)>, x: (int, int, int)) -> bool {
    exists|j: int| 0 <= j < s.len() && s[j] == x
}

/// `s` is strictly ordered.
pub open spec fn strictly_ordered(s: Seq<(int, int, int)>) -> bool {
    forall|i: int, j: int| 0 <= i < j < s.len() ==> ymd_lt(s[i], s[j])
}

/// Two strictly ordered lists with the same members are the same list.
#[verifier::rlimit(30)]
proof fn lemma_sorted_same_members(a: Seq<(int, int, int)>, b: Seq<(int, int, int)>)
    requires
        strictly_ordered(a),
        strictly_ordered(b),
        forall|i: int| 0 <= i < a.len() ==> occurs_in(b, #[trigger] a[i]),
        forall|j: int| 0 <= j < b.len() ==> occurs_in(a, #[trigger] b[j]),
    ensures
        a == b,
    decreases a.len(),
{
    if a.len() == 0 {
        if b.len() > 0 {
            assert(occurs_in(a, b[0]));
        }
        assert(a =~= b);
    } else {
        assert(occurs_in(b, a[0]));
        assert(b.len() > 0);
        assert(occurs_in(a, b[0]));
        let j = choose|j: int| 0 <= j < b.len() && b[j] == a[0];
        let i = choose|i: int| 0 <= i < a.len() && a[i] == b[0];
        assert(a[0] == b[0]) by {
            if i > 0 {
                assert(ymd_lt(a[0], a[i]));
            }
            if j > 0 {
                assert(ymd_lt(b[0], b[j]));
            }
        }
        let a1 = a.drop_first();
        let b1 = b.drop_first();
        assert forall|x: int| 0 <= x < a1.len() implies occurs_in(b1, #[trigger] a1[x]) by {
            assert(a1[x] == a[x + 1]);
            assert(occurs_in(b, a[x + 1]));
            let y = choose|y: int| 0 <= y < b.len() && b[y] == a[x + 1];
            assert(ymd_lt(a[0], a[x + 1]));
            assert(y != 0);
            assert(b1[y - 1] == b[y]);
        }
        assert forall|y: int| 0 <= y < b1.len() implies occurs_in(a1, #[trigger] b1[y]) by {
            assert(b1[y] == b[y + 1]);
            assert(occurs_in(a, b[y + 1]));
            let x = choose|x: int| 0 <= x < a.len() && a[x] == b[y + 1];
            assert(ymd_lt(b[0], b[y + 1]));
            assert(x != 0);
            assert(a1[x - 1] == a[x]);
        }
        assert(strictly_ordered(a1)) by {
            assert forall|p: int, q: int| 0 <= p < q < a1.len() implies ymd_lt(a1[p], a1[q]) by {
                assert(a1[p] == a[p + 1] && a1[q] == a[q + 1]);
            }
        }
        assert(strictly_ordered(b1)) by {
            assert forall|p: int, q: int| 0 <= p < q < b1.len() implies ymd_lt(b1[p], b1[q]) by {
                assert(b1[p] == b[p + 1] && b1[q] == b[q + 1]);
            }
        }
        lemma_sorted_same_members(a1, b1);
        assert(a =~= b) by {
            assert forall|x: int| 0 <= x < a.len() implies a[x] == b[x] by {
                if x > 0 {
                    assert(a[x] == a1[x - 1] && b[x] == b1[x - 1]);
                }
            }
        }
    }
}

/// There is one occurrence list of a frequency, anchor and window.
pub proof fn lemma_occurrence_list_unique(
    a: Seq<(int, int, int)>,
    b: Seq<(int, int, int)>,
    f: Frequency,
    anchor: (int, int, int),
    start: (int, int, int),
    end: (int, int, int),
)
    requires
        is_occurrence_list(a, f, anchor, start, end),
        is_occurrence_list(b, f, anchor, start, end),
    ensures
        a == b,
{
    assert forall|i: int| 0 <= i < a.len() implies occurs_in(b, #[trigger] a[i]) by {
        let k = choose|k: int| k >= 0 && #[trigger] is_nth_occurrence(f, anchor, k, a[i]);
        assert(is_nth_occurrence(f, anchor, k, a[i]));
    }
    assert forall|j: int| 0 <= j < b.len() implies occurs_in(a, #[trigger] b[j]) by {
        let k = choose|k: int| k >= 0 && #[trigger] is_nth_occurrence(f, anchor, k, b[j]);
        assert(is_nth_occurrence(f, anchor, k, b[j]));
    }
    lemma_sorted_same_members(a, b);
}

/// What `Frequency::occurrences_between` promises of its result makes it
/// the occurrence list of its window.
pub proof fn lemma_occurrences_between_list(
    r: Seq<Date>,
    f: Frequency,
    reference_date: Option<Date>,
    start: Date,
    end: Date,
)
    requires
        forall|i: int, j: int| 0 <= i < j < r.len() ==> ymd_lt(r[i]@, r[j]@),
        forall|i: int|
            0 <= i < r.len() ==> ymd_le(start@, (#[trigger] r[i])@) && ymd_le(r[i]@, end@) && exists|k: int|
                k >= 0 && #[trigger] is_nth_occurrence(f, anchor_of(reference_date, start), k, r[i]@),
        forall|k: int, v: (int, int, int)|
            k >= 0 && #[trigger] is_nth_occurrence(f, anchor_of(reference_date, start), k, v) && ymd_le(
                start@,
                v,
            ) && ymd_le(v, end@) ==> exists|i: int| 0 <= i < r.len() && (#[trigger] r[i])@ == v,
    ensures
        is_occurrence_list(date_views(r), f, anchor_of(reference_date, start), start@, end@),
        occurrence_list(f, anchor_of(reference_date, start), start@, end@) == date_views(r),
{
    let ds = date_views(r);
    let anchor = anchor_of(reference_date, start);
    assert forall|i: int|
        0 <= i < ds.len() implies ymd_le(start@, #[trigger] ds[i]) && ymd_le(ds[i], end@) && exists|k: int|
            k >= 0 && #[trigger] is_nth_occurrence(f, anchor, k, ds[i]) by {
        assert(ds[i] == r[i]@);
    }
    assert forall|k: int, v: (int, int, int)|
        k >= 0 && #[trigger] is_nth_occurrence(f, anchor, k, v) && ymd_le(start@, v) && ymd_le(v, end@) implies exists|
            i: int,
        | 0 <= i < ds.len() && ds[i] == v by {
        let i = choose|i: int| 0 <= i < r.len() && (#[trigger] r[i])@ == v;
        assert(ds[i] == r[i]@);
    }
    assert(is_occurrence_list(ds, f, anchor, start@, end@));
    let c = occurrence_list(f, anchor, start@, end@);
    lemma_occurrence_list_unique(c, ds, f, anchor, start@, end@);
}

// ---------------------------------------------------------------------------
// Tracking rows
// ---------------------------------------------------------------------------

/// `r` tracks the occurrence starting `period` of the recurring thing `id`
/// of kind `kind`.
pub open spec fn row_tracks(r: RecurringOccurrenceRow, id: Seq<char>, kind: Seq<char>, period: Seq<char>) -> bool {
    r.recurring_id@ == id && r.kind@ == kind && r.period_start@ == period
}

/// The row tracking an occurrence: of several, the last.
pub open spec fn tracked_row(rows: Seq<RecurringOccurrenceRow>, id: Seq<char>, kind: Seq<char>, period: Seq<char>) -> Option<
    RecurringOccurrenceRow,
>
    decreases rows.len(),
{
    if rows.len() == 0 {
        None
    } else if row_tracks(rows.last(), id, kind, period) {
        Some(rows.last())
    } else {
        tracked_row(rows.drop_last(), id, kind, period)
    }
}

/// Tracking rows looked up by recurring id, kind and period start, a
/// later row for the same occurrence taking the place of an earlier one.
pub struct TrackedMap {
    rows: Vec<RecurringOccurrenceRow>,
}

impl TrackedMap {
    /// The rows, in the order they were given.
    pub closed spec fn rows(self) -> Seq<RecurringOccurrenceRow> {
        self.rows@
    }

    /// The row tracking one occurrence, if any.
    pub fn get(&self, id: &str, kind: &str, period: &str) -> (r: Option<&RecurringOccurrenceRow>)
        ensures
            r matches Some(x) ==> tracked_row(self.rows(), id@, kind@, period@) == Some(*x),
            r is None <==> tracked_row(self.rows(), id@, kind@, period@) is None,
    {
        let idv = chars_of(id);
        let kv = chars_of(kind);
        let pv = chars_of(period);
        let mut i = self.rows.len();
        assert(self.rows@.subrange(0, i as int) =~= self.rows@);
        while i > 0
            invariant
                i <= self.rows@.len(),
                idv@ == id@,
                kv@ == kind@,
                pv@ == period@,
                tracked_row(self.rows@, id@, kind@, period@) == tracked_row(
                    self.rows@.subrange(0, i as int),
                    id@,
                    kind@,
                    period@,
                ),
            decreases i,
        {
            let r = &self.rows[i - 1];
            let ghost pre = self.rows@.subrange(0, i as int);
            assert(pre.last() == self.rows@[i - 1]);
            assert(pre.drop_last() =~= self.rows@.subrange(0, i - 1));
            let a = chars_of(r.recurring_id.as_str());
            let b = chars_of(r.kind.as_str());
            let c = chars_of(r.period_start.as_str());
            if eq_chars(&a, &idv) && eq_chars(&b, &kv) && eq_chars(&c, &pv) {
                return Some(r);
            }
            i -= 1;
        }
        assert(self.rows@.subrange(0, 0) =~= Seq::<RecurringOccurrenceRow>::empty());
        None
    }
}

/// The tracking rows, as a lookup.
pub fn tracked_map(rows: Vec<RecurringOccurrenceRow>) -> (r: TrackedMap)
    ensures
        r.rows() == rows@,
{
    TrackedMap { rows }
}

// ---------------------------------------------------------------------------
// Statuses and summaries
// ---------------------------------------------------------------------------

/// The state of one occurrence.
#[derive(Debug, Clone, Copy)]
pub struct OccurrenceStatus {
    pub period_start: Date,
    pub paid: bool,
    /// A tracking row exists (paid or explicitly not): the occurrence is
    /// never overdue again.
    pub resolved: bool,
    pub overdue: bool,
    pub paid_date: Option<Date>,
}

/// The plain value of a status: period start, paid, resolved, overdue,
/// paid date.
pub type StatusView = ((int, int, int), bool, bool, bool, Option<(int, int, int)>);

impl View for OccurrenceStatus {
    type V = StatusView;

    open spec fn view(&self) -> StatusView {
        (self.period_start@, self.paid, self.resolved, self.overdue, opt_date_view(self.paid_date))
    }
}

/// The state of the occurrence starting `d` given its tracking row: paid
/// and its paid date as the row says (the date as chrono reads its
/// `YYYY-MM-DD` text), resolved when a row exists, overdue when none does
/// and `d` is before `as_of`.
pub open spec fn status_spec(d: (int, int, int), row: Option<RecurringOccurrenceRow>, as_of: (int, int, int)) -> StatusView {
    match row {
        Some(r) => (
            d,
            r.paid,
            true,
            false,
            match r.paid_date {
                Some(s) => chrono_ymd(s@),
                None => None,
            },
        ),
        None => (d, false, false, ymd_lt(d, as_of), None),
    }
}

/// The state of the occurrence starting `d` of `id` of kind `kind`.
pub open spec fn status_at(
    d: (int, int, int),
    id: Seq<char>,
    kind: Seq<char>,
    rows: Seq<RecurringOccurrenceRow>,
    as_of: (int, int, int),
) -> StatusView {
    status_spec(d, tracked_row(rows, id, kind, iso_text(d)), as_of)
}

/// The states of a list of occurrences.
pub open spec fn statuses_of(
    ds: Seq<(int, int, int)>,
    id: Seq<char>,
    kind: Seq<char>,
    rows: Seq<RecurringOccurrenceRow>,
    as_of: (int, int, int),
) -> Seq<StatusView> {
    ds.map_values(|d: (int, int, int)| status_at(d, id, kind, rows, as_of))
}

/// The unresolved states, in order.
pub open spec fn unresolved(ss: Seq<StatusView>) -> Seq<StatusView>
    decreases ss.len(),
{
    if ss.len() == 0 {
        ss
    } else if ss.last().2 {
        unresolved(ss.drop_last())
    } else {
        unresolved(ss.drop_last()).push(ss.last())
    }
}

/// The state of one occurrence of a recurring item or transfer.
pub fn occurrence_status(d: Date, id: &str, kind: &str, as_of: Date, tracking: &TrackedMap) -> (r: OccurrenceStatus)
    ensures
        r@ == status_at(d@, id@, kind@, tracking.rows(), as_of@),
{
    let key = d.to_iso();
    match tracking.get(id, kind, key.as_str()) {
        Some(row) => {
            let paid_date = match &row.paid_date {
                Some(s) => parse_ymd(s.as_str()),
                None => None,
            };
            OccurrenceStatus { period_start: d, paid: row.paid, resolved: true, overdue: false, paid_date }
        },
        None => OccurrenceStatus {
            period_start: d,
            paid: false,
            resolved: false,
            overdue: d.is_before(&as_of),
            paid_date: None,
        },
    }
}

/// A recurring item's or transfer's occurrences seen from one day: its
/// most recent occurrence, and the occurrences still unresolved.
#[derive(Debug, Clone)]
pub struct RecurringOccurrenceSummary {
    pub recurring_id: String,
    /// `"item"` or `"transfer"`.
    pub kind: String,
    pub name: String,
    /// The most recent occurrence in the window.
    pub current_period: OccurrenceStatus,
    /// Every unresolved occurrence in the window, oldest first.
    pub outstanding: Vec<OccurrenceStatus>,
}

/// The plain value of a summary.
pub type SummaryView = (Seq<char>, Seq<char>, Seq<char>, StatusView, Seq<StatusView>);

/// The plain value of a summary.
pub open spec fn summary_view(s: RecurringOccurrenceSummary) -> SummaryView {
    (s.recurring_id@, s.kind@, s.name@, s.current_period@, s.outstanding@.map_values(|x: OccurrenceStatus| x@))
}

/// The plain value of an optional summary.
pub open spec fn opt_summary_view(o: Option<RecurringOccurrenceSummary>) -> Option<SummaryView> {
    match o {
        Some(s) => Some(summary_view(s)),
        None => None,
    }
}

/// The summary of the occurrences `ds`: none when there are none;
/// otherwise the state of the last as the current period, and the
/// unresolved states.
pub open spec fn summary_spec(
    id: Seq<char>,
    kind: Seq<char>,
    name: Seq<char>,
    ds: Seq<(int, int, int)>,
    rows: Seq<RecurringOccurrenceRow>,
    as_of: (int, int, int),
) -> Option<SummaryView> {
    if ds.len() == 0 {
        None
    } else {
        let ss = statuses_of(ds, id, kind, rows, as_of);
        Some((id, kind, name, ss.last(), unresolved(ss)))
    }
}

/// The summary of the given occurrence dates of one recurring item or
/// transfer.
#[verifier::rlimit(30)]
pub fn summary_from_occurrences(
    id: &str,
    kind: &str,
    name: &str,
    dates: &Vec<Date>,
    as_of: Date,
    tracking: &TrackedMap,
) -> (r: Option<RecurringOccurrenceSummary>)
    ensures
        opt_summary_view(r) == summary_spec(id@, kind@, name@, date_views(dates@), tracking.rows(), as_of@),
{
    let ghost ds = date_views(dates@);
    let ghost rows = tracking.rows();
    if dates.len() == 0 {
        return None;
    }
    let mut outstanding: Vec<OccurrenceStatus> = Vec::new();
    let mut current = occurrence_status(dates[0], id, kind, as_of, tracking);
    let mut i: usize = 0;
    while i < dates.len()
        invariant
            0 <= i <= dates@.len(),
            dates@.len() > 0,
            ds == date_views(dates@),
            rows == tracking.rows(),
            outstanding@.map_values(|x: OccurrenceStatus| x@) == unresolved(
                statuses_of(ds, id@, kind@, rows, as_of@).subrange(0, i as int),
            ),
            i > 0 ==> current@ == statuses_of(ds, id@, kind@, rows, as_of@)[i - 1],
        decreases dates@.len() - i,
    {
        let s = occurrence_status(dates[i], id, kind, as_of, tracking);
        let ghost ss = statuses_of(ds, id@, kind@, rows, as_of@);
        assert(ss[i as int] == s@);
        assert(ss.subrange(0, i + 1).drop_last() =~= ss.subrange(0, i as int));
        assert(ss.subrange(0, i + 1).last() == s@);
        if !s.resolved {
            outstanding.push(s);
            assert(outstanding@.map_values(|x: OccurrenceStatus| x@) =~= unresolved(ss.subrange(0, i as int)).push(
                s@,
            ));
        }
        current = s;
        i += 1;
    }
    proof {
        let ss = statuses_of(ds, id@, kind@, rows, as_of@);
        assert(ss.subrange(0, dates@.len() as int) =~= ss);
    }
    Some(
        RecurringOccurrenceSummary {
            recurring_id: string_of(&chars_of(id)),
            kind: string_of(&chars_of(kind)),
            name: string_of(&chars_of(name)),
            current_period: current,
            outstanding,
        },
    )
}

/// The summary of a recurring item's or transfer's occurrences from
/// `start` to `as_of`: `None` when it has no occurrence in that window.
/// The walk to `as_of` must stay within the date range, as for
/// `Frequency::occurrences_between`.
pub fn build_summary(
    id: &str,
    kind: &str,
    name: &str,
    frequency: Frequency,
    reference_date: Option<Date>,
    start: Date,
    as_of: Date,
    tracking: &TrackedMap,
) -> (r: Option<RecurringOccurrenceSummary>)
    requires
        ymd_lt(as_of@, start@) || occurrences_fit(frequency, anchor_of(reference_date, start), as_of@),
    ensures
        opt_summary_view(r) == summary_spec(
            id@,
            kind@,
            name@,
            occurrence_list(frequency, anchor_of(reference_date, start), start@, as_of@),
            tracking.rows(),
            as_of@,
        ),
{
    let dates = frequency.occurrences_between(reference_date, start, as_of);
    proof {
        lemma_occurrences_between_list(dates@, frequency, reference_date, start, as_of);
    }
    summary_from_occurrences(id, kind, name, &dates, as_of, tracking)
}

// ---------------------------------------------------------------------------
// The window
// ---------------------------------------------------------------------------

/// The first day of the lookback window: `as_of` moved back
/// `lookback_months` months (the day clamped to the month), or `as_of`
/// itself when that date would be out of range.
pub open spec fn window_start_spec(as_of: (int, int, int), lookback_months: int) -> (int, int, int) {
    if lookback_months == 0 {
        as_of
    } else if lookback_months <= i32::MAX && min_year() <= (month_index(as_of) - lookback_months) / 12 {
        add_months_spec(as_of, -lookback_months)
    } else {
        as_of
    }
}

/// The first day of the lookback window ending at `as_of`.
pub fn window_start(as_of: Date, lookback_months: u32) -> (r: Date)
    ensures
        r@ == window_start_spec(as_of@, lookback_months as int),
{
    match as_of.checked_sub_months(lookback_months) {
        Some(d) => d,
        None => as_of,
    }
}

/// The plain values of a list of summaries.
pub open spec fn summary_views(v: Seq<RecurringOccurrenceSummary>) -> Seq<SummaryView> {
    v.map_values(|s: RecurringOccurrenceSummary| summary_view(s))
}

/// The summaries of some recurring things, `None`s dropped, in order.
pub open spec fn present(v: Seq<Option<SummaryView>>) -> Seq<SummaryView>
    decreases v.len(),
{
    if v.len() == 0 {
        Seq::empty()
    } else {
        match v.last() {
            Some(s) => present(v.drop_last()).push(s),
            None => present(v.drop_last()),
        }
    }
}

/// The summary of each recurring item, within the window from `start` to
/// `as_of`.
pub open spec fn item_summaries(
    items: Seq<RecurringItem>,
    rows: Seq<RecurringOccurrenceRow>,
    start: Date,
    as_of: (int, int, int),
) -> Seq<Option<SummaryView>> {
    items.map_values(
        |it: RecurringItem|
            summary_spec(
                it.id@,
                "item"@,
                it.name@,
                occurrence_list(it.frequency, anchor_of(it.reference_date, start), start@, as_of),
                rows,
                as_of,
            ),
    )
}

/// The summary of each recurring transfer, within the window from `start`
/// to `as_of`.
pub open spec fn transfer_summaries(
    transfers: Seq<RecurringTransfer>,
    rows: Seq<RecurringOccurrenceRow>,
    start: Date,
    as_of: (int, int, int),
) -> Seq<Option<SummaryView>> {
    transfers.map_values(
        |t: RecurringTransfer|
            summary_spec(
                t.id@,
                "transfer"@,
                t.name@,
                occurrence_list(t.frequency, anchor_of(t.reference_date, start), start@, as_of),
                rows,
                as_of,
            ),
    )
}

/// Every recurring item's, then every recurring transfer's, occurrence
/// summary as of `as_of`, over the window of the last `lookback_months`
/// months; those with no occurrence in the window are left out. `as_of`
/// and each reference date must lie before the last two years of the date
/// range.
#[verifier::rlimit(30)]
pub fn occurrence_summaries(
    items: &Vec<RecurringItem>,
    transfers: &Vec<RecurringTransfer>,
    tracking: &TrackedMap,
    as_of: Date,
    lookback_months: u32,
) -> (r: Vec<RecurringOccurrenceSummary>)
    requires
        as_of@.0 < max_year() - 1,
        forall|i: int|
            0 <= i < items@.len() ==> ((#[trigger] items@[i]).reference_date matches Some(d) ==> d@.0 < max_year() - 1),
        forall|i: int|
            0 <= i < transfers@.len() ==> ((#[trigger] transfers@[i]).reference_date matches Some(d) ==> d@.0 < max_year() - 1),
    ensures
        exists|start: Date|
            start@ == window_start_spec(as_of@, lookback_months as int) && summary_views(r@) == present(
                item_summaries(items@, tracking.rows(), start, as_of@),
            ) + present(transfer_summaries(transfers@, tracking.rows(), start, as_of@)),
{
    let _ = as_of.day();
    let start = window_start(as_of, lookback_months);
    assert(start@.0 <= as_of@.0);
    let ghost rows = tracking.rows();
    let mut out: Vec<RecurringOccurrenceSummary> = Vec::new();
    let mut i: usize = 0;
    while i < items.len()
        invariant
            0 <= i <= items@.len(),
            rows == tracking.rows(),
            as_of@.0 < max_year() - 1,
            start@.0 <= as_of@.0,
            forall|j: int|
                0 <= j < items@.len() ==> ((#[trigger] items@[j]).reference_date matches Some(d) ==> d@.0 < max_year() - 1),
            summary_views(out@) == present(item_summaries(items@, rows, start, as_of@).subrange(0, i as int)),
        decreases items@.len() - i,
    {
        let it = &items[i];
        let _ = as_of.day();
        let _ = match it.reference_date {
            Some(d) => d.day(),
            None => start.day(),
        };
        proof {
            lemma_early_dates_fit(it.frequency, anchor_of(it.reference_date, start), as_of@);
        }
        let s = build_summary(
            it.id.as_str(),
            "item",
            it.name.as_str(),
            it.frequency,
            it.reference_date,
            start,
            as_of,
            tracking,
        );
        let ghost all = item_summaries(items@, rows, start, as_of@);
        proof {
            reveal_strlit("item");
            assert(all.subrange(0, i + 1).drop_last() =~= all.subrange(0, i as int));
            assert(all.subrange(0, i + 1).last() == opt_summary_view(s));
        }
        match s {
            Some(x) => {
                let ghost before = out@;
                out.push(x);
                assert(summary_views(out@) =~= summary_views(before).push(summary_view(x)));
            },
            None => {},
        }
        i += 1;
    }
    let ghost mid = out@;
    proof {
        let all = item_summaries(items@, rows, start, as_of@);
        assert(all.subrange(0, items@.len() as int) =~= all);
    }
    let mut j: usize = 0;
    while j < transfers.len()
        invariant
            0 <= j <= transfers@.len(),
            rows == tracking.rows(),
            as_of@.0 < max_year() - 1,
            start@.0 <= as_of@.0,
            forall|k: int|
                0 <= k < transfers@.len() ==> ((#[trigger] transfers@[k]).reference_date matches Some(d) ==> d@.0 < max_year() - 1),
            summary_views(mid) == present(item_summaries(items@, rows, start, as_of@)),
            out@.len() >= mid.len(),
            out@.subrange(0, mid.len() as int) == mid,
            summary_views(out@.subrange(mid.len() as int, out@.len() as int)) == present(
                transfer_summaries(transfers@, rows, start, as_of@).subrange(0, j as int),
            ),
        decreases transfers@.len() - j,
    {
        let t = &transfers[j];
        let _ = as_of.day();
        let _ = match t.reference_date {
            Some(d) => d.day(),
            None => start.day(),
        };
        proof {
            lemma_early_dates_fit(t.frequency, anchor_of(t.reference_date, start), as_of@);
        }
        let s = build_summary(
            t.id.as_str(),
            "transfer",
            t.name.as_str(),
            t.frequency,
            t.reference_date,
            start,
            as_of,
            tracking,
        );
        let ghost all = transfer_summaries(transfers@, rows, start, as_of@);
        proof {
            reveal_strlit("transfer");
            assert(all.subrange(0, j + 1).drop_last() =~= all.subrange(0, j as int));
            assert(all.subrange(0, j + 1).last() == opt_summary_view(s));
        }
        let ghost before = out@;
        match s {
            Some(x) => {
                out.push(x);
                assert(out@.subrange(0, mid.len() as int) =~= before.subrange(0, mid.len() as int));
                assert(out@.subrange(mid.len() as int, out@.len() as int) =~= before.subrange(
                    mid.len() as int,
                    before.len() as int,
                ).push(x));
                assert(summary_views(out@.subrange(mid.len() as int, out@.len() as int)) =~= summary_views(
                    before.subrange(mid.len() as int, before.len() as int),
                ).push(summary_view(x)));
            },
            None => {},
        }
        j += 1;
    }
    proof {
        let all = transfer_summaries(transfers@, rows, start, as_of@);
        assert(all.subrange(0, transfers@.len() as int) =~= all);
        assert(out@ =~= mid + out@.subrange(mid.len() as int, out@.len() as int));
        assert(summary_views(out@) =~= summary_views(mid) + summary_views(
            out@.subrange(mid.len() as int, out@.len() as int),
        ));
    }
    out
}

} // verus!
