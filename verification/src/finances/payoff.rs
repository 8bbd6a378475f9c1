//! The schedule side of a debt payoff projection: which recurring items
//! and transfers post against an account, on which days, and the signed
//! amount scheduled on a day. Compounding interest on the balance is done
//! by the program in floating point.
use vstd::prelude::*;
use crate::date::{Date, max_year, valid_ymd, day_number, first_date, last_date, lemma_day_number_order};
use crate::finances::models::{
    Frequency, RecurringItem, RecurringTransfer, TxnKind, PreviewItem, anchor_of, lemma_early_dates_fit,
};
use crate::finances::forecast::new_uuid_text;
use crate::finances::occurrences::{date_views, occurrence_list, lemma_occurrences_between_list};
use crate::text::{chars_of, eq_chars, string_of, append_str, str_views};

verus! {

/// The signed amount an item posts against its account: income adds,
/// an expense takes away.
pub open spec fn item_signed(it: RecurringItem) -> int {
    match it.kind {
        TxnKind::Income => it.amount as int,
        TxnKind::Expense => -(it.amount as int),
    }
}

/// One schedule: the days something posts on, and the signed amount it
/// posts each time.
pub type Schedule = (Vec<Date>, i128);

/// The plain value of a schedule.
pub open spec fn schedule_view(s: Schedule) -> (Seq<(int, int, int)>, int) {
    (date_views(s.0@), s.1 as int)
}

/// The schedules of the items posting against `account`, in order: each
/// one's occurrences within `[start, end]` with its signed amount.
pub open spec fn item_schedules(
    items: Seq<RecurringItem>,
    account: Seq<char>,
    start: Date,
    end: (int, int, int),
) -> Seq<(Seq<(int, int, int)>, int)>
    decreases items.len(),
{
    if items.len() == 0 {
        Seq::empty()
    } else {
        let rest = item_schedules(items.drop_last(), account, start, end);
        let it = items.last();
        if it.account@ == account {
            rest.push(
                (occurrence_list(it.frequency, anchor_of(it.reference_date, start), start@, end), item_signed(it)),
            )
        } else {
            rest
        }
    }
}

/// The schedules of the transfers into or out of `account`, in order: into
/// it adds the amount, out of it takes it away (a transfer both into and
/// out of it has both schedules).
pub open spec fn transfer_schedules(
    transfers: Seq<RecurringTransfer>,
    account: Seq<char>,
    start: Date,
    end: (int, int, int),
) -> Seq<(Seq<(int, int, int)>, int)>
    decreases transfers.len(),
{
    if transfers.len() == 0 {
        Seq::empty()
    } else {
        let rest = transfer_schedules(transfers.drop_last(), account, start, end);
        let t = transfers.last();
        let days = occurrence_list(t.frequency, anchor_of(t.reference_date, start), start@, end);
        let with_in = if t.to_account@ == account {
            rest.push((days, t.amount as int))
        } else {
            rest
        };
        if t.from_account@ == account {
            with_in.push((days, -(t.amount as int)))
        } else {
            with_in
        }
    }
}

/// Whether every date a payoff schedule is computed from lies before the
/// last two years of the date range: the window's start and end and each
/// reference date.
pub open spec fn schedulable(
    items: Seq<RecurringItem>,
    transfers: Seq<RecurringTransfer>,
    start: (int, int, int),
    end: (int, int, int),
) -> bool {
    &&& start.0 < max_year() - 1
    &&& end.0 < max_year() - 1
    &&& forall|i: int|
        0 <= i < items.len() ==> ((#[trigger] items[i]).reference_date matches Some(d) ==> d@.0 < max_year() - 1)
    &&& forall|i: int|
        0 <= i < transfers.len() ==> ((#[trigger] transfers[i]).reference_date matches Some(d) ==> d@.0 < max_year() - 1)
}

/// Whether an optional date lies before the last two years of the range.
fn early_enough(d: Option<Date>) -> (r: bool)
    ensures
        r == (d matches Some(x) ==> x@.0 < max_year() - 1),
{
    match d {
        Some(x) => x.year() < 262141,
        None => true,
    }
}

/// Whether a payoff schedule can be computed for these items and
/// transfers from `start` through `end` (see `schedulable`).
pub fn can_schedule(items: &Vec<RecurringItem>, transfers: &Vec<RecurringTransfer>, start: Date, end: Date) -> (r:
    bool)
    ensures
        r == schedulable(items@, transfers@, start@, end@),
{
    if start.year() >= 262141 || end.year() >= 262141 {
        return false;
    }
    let mut i: usize = 0;
    while i < items.len()
        invariant
            i <= items@.len(),
            forall|k: int| 0 <= k < i ==> ((#[trigger] items@[k]).reference_date matches Some(d) ==> d@.0 < max_year() - 1),
        decreases items@.len() - i,
    {
        if !early_enough(items[i].reference_date) {
            return false;
        }
        i += 1;
    }
    let mut j: usize = 0;
    while j < transfers.len()
        invariant
            j <= transfers@.len(),
            forall|k: int|
                0 <= k < j ==> ((#[trigger] transfers@[k]).reference_date matches Some(d) ==> d@.0 < max_year() - 1),
        decreases transfers@.len() - j,
    {
        if !early_enough(transfers[j].reference_date) {
            return false;
        }
        j += 1;
    }
    true
}

/// The occurrences of a recurring thing within `[start, end]`, as its
/// occurrence list.
fn occurrences_in(f: Frequency, reference_date: Option<Date>, start: Date, end: Date) -> (r: Vec<Date>)
    requires
        end@.0 < max_year() - 1,
        anchor_of(reference_date, start).0 < max_year() - 1,
    ensures
        date_views(r@) == occurrence_list(f, anchor_of(reference_date, start), start@, end@),
{
    let _ = end.day();
    let _ = match reference_date {
        Some(d) => d.day(),
        None => start.day(),
    };
    proof {
        lemma_early_dates_fit(f, anchor_of(reference_date, start), end@);
    }
    let r = f.occurrences_between(reference_date, start, end);
    proof {
        lemma_occurrences_between_list(r@, f, reference_date, start, end);
    }
    r
}

/// The plain values of schedules.
pub open spec fn schedule_views(v: Seq<Schedule>) -> Seq<(Seq<(int, int, int)>, int)> {
    v.map_values(|s: Schedule| schedule_view(s))
}

/// The schedules of everything that posts against `account` from `start`
/// through `end`: the items' (see `item_schedules`), then the transfers'
/// (see `transfer_schedules`).
#[verifier::rlimit(30)]
pub fn payoff_schedules(
    items: &Vec<RecurringItem>,
    transfers: &Vec<RecurringTransfer>,
    account: &str,
    start: Date,
    end: Date,
) -> (r: Vec<Schedule>)
    requires
        schedulable(items@, transfers@, start@, end@),
    ensures
        schedule_views(r@) == item_schedules(items@, account@, start, end@) + transfer_schedules(
            transfers@,
            account@,
            start,
            end@,
        ),
{
    let acct = chars_of(account);
    let mut out: Vec<Schedule> = Vec::new();
    let mut i: usize = 0;
    while i < items.len()
        invariant
            i <= items@.len(),
            acct@ == account@,
            schedulable(items@, transfers@, start@, end@),
            schedule_views(out@) == item_schedules(items@.take(i as int), account@, start, end@),
        decreases items@.len() - i,
    {
        let it = &items[i];
        let ghost pre = items@.take(i + 1);
        assert(pre.drop_last() =~= items@.take(i as int));
        assert(pre.last() == items@[i as int]);
        assert(items@[i as int].reference_date matches Some(d) ==> d@.0 < max_year() - 1);
        if eq_chars(&chars_of(it.account.as_str()), &acct) {
            let days = occurrences_in(it.frequency, it.reference_date, start, end);
            let signed: i128 = match it.kind {
                TxnKind::Income => it.amount as i128,
                TxnKind::Expense => -(it.amount as i128),
            };
            let ghost before = out@;
            out.push((days, signed));
            assert(schedule_views(out@) =~= schedule_views(before).push(schedule_view((days, signed))));
        }
        i += 1;
    }
    assert(items@.take(items@.len() as int) =~= items@);
    let ghost mid = out@;
    let mut j: usize = 0;
    while j < transfers.len()
        invariant
            j <= transfers@.len(),
            acct@ == account@,
            schedulable(items@, transfers@, start@, end@),
            schedule_views(mid) == item_schedules(items@, account@, start, end@),
            out@.len() >= mid.len(),
            out@.subrange(0, mid.len() as int) == mid,
            schedule_views(out@.subrange(mid.len() as int, out@.len() as int)) == transfer_schedules(
                transfers@.take(j as int),
                account@,
                start,
                end@,
            ),
        decreases transfers@.len() - j,
    {
        let t = &transfers[j];
        let ghost pre = transfers@.take(j + 1);
        assert(pre.drop_last() =~= transfers@.take(j as int));
        assert(pre.last() == transfers@[j as int]);
        assert(transfers@[j as int].reference_date matches Some(d) ==> d@.0 < max_year() - 1);
        let ghost before = out@;
        let into = eq_chars(&chars_of(t.to_account.as_str()), &acct);
        let out_of = eq_chars(&chars_of(t.from_account.as_str()), &acct);
        if into || out_of {
            let days = occurrences_in(t.frequency, t.reference_date, start, end);
            if into {
                let ghost b1 = out@;
                let pos: i128 = t.amount as i128;
                let copy = days.clone();
                out.push((copy, pos));
                assert(out@.subrange(mid.len() as int, out@.len() as int) =~= b1.subrange(
                    mid.len() as int,
                    b1.len() as int,
                ).push((copy, pos)));
            }
            if out_of {
                let ghost b2 = out@;
                let neg: i128 = -(t.amount as i128);
                out.push((days, neg));
                assert(out@.subrange(mid.len() as int, out@.len() as int) =~= b2.subrange(
                    mid.len() as int,
                    b2.len() as int,
                ).push((days, neg)));
            }
        }
        assert(out@.subrange(0, mid.len() as int) =~= before.subrange(0, mid.len() as int));
        j += 1;
    }
    assert(transfers@.take(transfers@.len() as int) =~= transfers@);
    assert(out@ =~= mid + out@.subrange(mid.len() as int, out@.len() as int));
    out
}

/// The signed amount scheduled on a day: the sum of the amounts of the
/// schedules that list the day.
pub open spec fn net_on(ss: Seq<(Seq<(int, int, int)>, int)>, day: (int, int, int)) -> int
    decreases ss.len(),
{
    if ss.len() == 0 {
        0
    } else {
        net_on(ss.drop_last(), day) + if ss.last().0.contains(day) {
            ss.last().1
        } else {
            0
        }
    }
}

/// Whether a list of dates holds a day.
fn lists_day(days: &Vec<Date>, day: Date) -> (r: bool)
    ensures
        r == date_views(days@).contains(day@),
{
    let mut i: usize = 0;
    while i < days.len()
        invariant
            i <= days@.len(),
            forall|k: int| 0 <= k < i ==> date_views(days@)[k] != day@,
        decreases days@.len() - i,
    {
        let d = days[i];
        if !d.is_before(&day) && !day.is_before(&d) {
            assert(date_views(days@)[i as int] == day@);
            return true;
        }
        i += 1;
    }
    false
}

/// The signed amount the schedules post on `day`. Each schedule's amount
/// lies within `i64`, so the sum fits in `i128`.
pub fn scheduled_on(schedules: &Vec<Schedule>, day: Date) -> (r: i128)
    requires
        forall|k: int| 0 <= k < schedules@.len() ==> -0x8000_0000_0000_0000 <= (#[trigger] schedules@[k]).1 <= 0x8000_0000_0000_0000,
    ensures
        r == net_on(schedule_views(schedules@), day@),
{
    let mut total: i128 = 0;
    let mut i: usize = 0;
    let n = schedules.len();
    while i < n
        invariant
            n == schedules@.len(),
            i <= schedules@.len(),
            forall|k: int| 0 <= k < schedules@.len() ==> -0x8000_0000_0000_0000 <= (#[trigger] schedules@[k]).1 <= 0x8000_0000_0000_0000,
            total == net_on(schedule_views(schedules@.take(i as int)), day@),
            -(i as int) * 0x8000_0000_0000_0000 <= total <= (i as int) * 0x8000_0000_0000_0000,
        decreases schedules@.len() - i,
    {
        let ghost pre = schedules@.take(i + 1);
        assert(schedule_views(pre).drop_last() =~= schedule_views(schedules@.take(i as int)));
        assert(schedule_views(pre).last() == schedule_view(schedules@[i as int]));
        let hit = lists_day(&schedules[i].0, day);
        if hit {
            let a = schedules[i].1;
            assert(-0x8000_0000_0000_0000 <= a <= 0x8000_0000_0000_0000);
            assert((i as int) * 0x8000_0000_0000_0000 + 0x8000_0000_0000_0000 <= 0x7fff_ffff_ffff_ffff_ffff_ffff_ffff_ffff) by (nonlinear_arith)
                requires
                    i < usize::MAX,
                    usize::MAX <= 0xffff_ffff_ffff_ffff,
            ;
            total = total + a;
        }
        i += 1;
    }
    assert(schedules@.take(schedules@.len() as int) =~= schedules@);
    total
}


// ---------------------------------------------------------------------------
// Reporting periods
// ---------------------------------------------------------------------------

/// The `i`-th reporting period, as day numbers, of a projection over the
/// days `s` to `e - 1`, `step` days a period: it starts `i * step` days
/// after `s` and ends `step - 1` days later, or on the last day `e - 1`,
/// whichever is earlier.
pub open spec fn period_span(s: int, e: int, step: int, i: int) -> (int, int) {
    (s + i * step, if s + (i + 1) * step - 1 < e - 1 {
        s + (i + 1) * step - 1
    } else {
        e - 1
    })
}

/// How many periods of `step` days cover the days `s` to `e - 1`.
pub open spec fn period_count(s: int, e: int, step: int) -> int {
    if e <= s {
        0
    } else {
        (e - s + step - 1) / step
    }
}

proof fn lemma_period_count(n: int, step: int, k: int)
    requires
        0 < step,
        0 < n,
        0 < k,
        (k - 1) * step < n <= k * step,
    ensures
        k == (n + step - 1) / step,
{
    assert(k == (n + step - 1) / step) by (nonlinear_arith)
        requires
            0 < step,
            0 < n,
            0 < k,
            (k - 1) * step < n <= k * step,
    ;
}

/// The periods tile the horizon: the first starts on its first day, each
/// next one starts the day after the one before ends, and the last ends on
/// its last day.
pub proof fn lemma_periods_tile(s: int, e: int, step: int)
    requires
        s < e,
        1 <= step,
    ensures
        period_count(s, e, step) >= 1,
        period_span(s, e, step, 0).0 == s,
        period_span(s, e, step, period_count(s, e, step) - 1).1 == e - 1,
        forall|i: int|
            0 <= i < period_count(s, e, step) - 1 ==> #[trigger] period_span(s, e, step, i).1 + 1 == period_span(
                s,
                e,
                step,
                i + 1,
            ).0,
{
    let n = e - s;
    let q = (n + step - 1) / step;
    assert(q >= 1 && (q - 1) * step < n && n <= q * step) by (nonlinear_arith)
        requires
            n > 0,
            step >= 1,
            q == (n + step - 1) / step,
    ;
    assert(s + (q - 1 + 1) * step - 1 >= e - 1) by (nonlinear_arith)
        requires
            n <= q * step,
            n == e - s,
    ;
    assert forall|i: int| 0 <= i < q - 1 implies #[trigger] period_span(s, e, step, i).1 + 1 == period_span(
        s,
        e,
        step,
        i + 1,
    ).0 by {
        assert((i + 1) * step <= (q - 1) * step) by (nonlinear_arith)
            requires
                i + 1 <= q - 1,
                step >= 1,
        ;
    }
}

/// The date `n` days after `d`, known to be in range.
fn days_after(d: Date, n: i64) -> (r: Date)
    requires
        -366 <= n <= 366,
        day_number(first_date()) <= day_number(d@) + n <= day_number(last_date()),
    ensures
        day_number(r@) == day_number(d@) + n,
{
    match d.checked_add_days(n) {
        Some(x) => x,
        None => {
            assert(false);
            d
        },
    }
}

/// The reporting periods of a projection from `start` up to the day before
/// `end`, each `step_days` days but the last, which ends the day before
/// `end`; none when `end` is not after `start`.
#[verifier::rlimit(60)]
pub fn payoff_periods(start: Date, end: Date, step_days: i64) -> (r: Vec<(Date, Date)>)
    requires
        1 <= step_days <= 366,
    ensures
        r@.len() == period_count(day_number(start@), day_number(end@), step_days as int),
        forall|i: int|
            0 <= i < r@.len() ==> (day_number((#[trigger] r@[i]).0@), day_number(r@[i].1@)) == period_span(
                day_number(start@),
                day_number(end@),
                step_days as int,
                i,
            ),
{
    let ghost s = day_number(start@);
    let ghost e = day_number(end@);
    let ghost step = step_days as int;
    let _ = start.day();
    let _ = end.day();
    proof {
        lemma_day_number_order(start@, end@);
        lemma_day_number_order(first_date(), start@);
        lemma_day_number_order(end@, last_date());
    }
    let mut out: Vec<(Date, Date)> = Vec::new();
    let mut p = start;
    if !start.is_before(&end) {
        return out;
    }
    while p.is_before(&end)
        invariant
            s == day_number(start@),
            e == day_number(end@),
            step == step_days as int,
            1 <= step_days <= 366,
            s < e,
            valid_ymd(end@.0, end@.1, end@.2),
            day_number(first_date()) <= s,
            e <= day_number(last_date()),
            s + out@.len() * step < e ==> day_number(p@) == s + out@.len() * step,
            s + out@.len() * step >= e ==> day_number(p@) == e,
            out@.len() > 0 ==> s + (out@.len() - 1) * step < e,
            out@.len() == 0 ==> p@ == start@,
            forall|i: int|
                0 <= i < out@.len() ==> (day_number((#[trigger] out@[i]).0@), day_number(out@[i].1@))
                    == period_span(s, e, step, i),
        decreases e - day_number(p@),
    {
        let _ = p.day();
        proof {
            lemma_day_number_order(p@, end@);
        }
        let ghost len = out@.len() as int;
        assert(day_number(p@) == s + len * step);
        assert(s + (len + 1) * step == s + len * step + step) by (nonlinear_arith);
        let last = days_after(end, -1);
        let q = match p.checked_add_days(step_days - 1) {
            Some(c) => {
                let _ = c.day();
                proof {
                    lemma_day_number_order(c@, end@);
                }
                if c.is_before(&end) {
                    c
                } else {
                    last
                }
            },
            None => last,
        };
        let ghost old_out = out@;
        out.push((p, q));
        proof {
            assert forall|i: int|
                0 <= i < out@.len() implies (day_number((#[trigger] out@[i]).0@), day_number(out@[i].1@))
                == period_span(s, e, step, i) by {
                if i < len {
                    assert(out@[i] == old_out[i]);
                }
            }
        }
        p = days_after(q, 1);
    }
    let _ = p.day();
    proof {
        lemma_day_number_order(p@, end@);
        let n = out@.len() as int;
        assert(s + n * step >= e);
        if n > 0 {
            lemma_period_count(e - s, step, n);
        }
    }
    out
}

// ---------------------------------------------------------------------------
// What a projection schedules
// ---------------------------------------------------------------------------

/// The items of `items` whose id is not among `exclude`, in order.
pub open spec fn kept_items(items: Seq<RecurringItem>, exclude: Seq<Seq<char>>) -> Seq<RecurringItem>
    decreases items.len(),
{
    if items.len() == 0 {
        seq![]
    } else if exclude.contains(items.last().id@) {
        kept_items(items.drop_last(), exclude)
    } else {
        kept_items(items.drop_last(), exclude).push(items.last())
    }
}

/// A projection schedules no excluded item, and every item that is not
/// excluded: the items `kept_items` leaves are items of `items` whose id is
/// not among `exclude`, and each item of `items` whose id is not among
/// `exclude` is left.
pub proof fn lemma_kept_items(items: Seq<RecurringItem>, exclude: Seq<Seq<char>>)
    ensures
        forall|i: int|
            0 <= i < kept_items(items, exclude).len() ==> !exclude.contains(
                (#[trigger] kept_items(items, exclude)[i]).id@,
            ) && items.contains(kept_items(items, exclude)[i]),
        forall|j: int| 0 <= j < items.len() && !exclude.contains((#[trigger] items[j]).id@) ==> kept_items(items, exclude).contains(items[j]),
    decreases items.len(),
{
    if items.len() > 0 {
        let pre = items.drop_last();
        lemma_kept_items(pre, exclude);
        let k = kept_items(items, exclude);
        let kp = kept_items(pre, exclude);
        assert forall|i: int| 0 <= i < k.len() implies !exclude.contains((#[trigger] k[i]).id@) && items.contains(k[i]) by {
            if i < kp.len() {
                assert(k[i] == kp[i]);
                let w = choose|w: int| 0 <= w < pre.len() && pre[w] == kp[i];
                assert(items[w] == pre[w]);
            } else {
                assert(k[i] == items.last());
                assert(items[items.len() - 1] == items.last());
            }
        }
        assert forall|j: int| 0 <= j < items.len() && !exclude.contains((#[trigger] items[j]).id@) implies k.contains(items[j]) by {
            if j < items.len() - 1 {
                assert(pre[j] == items[j]);
                let w = choose|w: int| 0 <= w < kp.len() && kp[w] == pre[j];
                assert(k[w] == kp[w]);
            } else {
                assert(k[k.len() - 1] == items[j]);
            }
        }
    }
}

/// The transfers of `transfers` whose id is not among `exclude`, in order.
pub open spec fn kept_transfers(transfers: Seq<RecurringTransfer>, exclude: Seq<Seq<char>>) -> Seq<RecurringTransfer>
    decreases transfers.len(),
{
    if transfers.len() == 0 {
        seq![]
    } else if exclude.contains(transfers.last().id@) {
        kept_transfers(transfers.drop_last(), exclude)
    } else {
        kept_transfers(transfers.drop_last(), exclude).push(transfers.last())
    }
}

/// `r` is the recurring item a projection schedules for the hypothetical
/// item `p`: its fields, under the id `preview-{scratch}`, the label
/// `preview` and no category.
pub open spec fn previewed_as(p: PreviewItem, scratch: Seq<char>, r: RecurringItem) -> bool {
    &&& r.id@ == "preview-"@ + scratch
    &&& r.name@ == p.name@
    &&& r.amount == p.amount
    &&& r.kind == p.kind
    &&& r.label@ == "preview"@
    &&& r.frequency == p.frequency
    &&& r.reference_date == p.reference_date
    &&& r.account@ == p.account@
    &&& r.category is None
}

/// The items of `r` from index `n` on are the hypothetical items `extra`
/// in order, the `k`-th under the scratch id `scratch[k]`.
pub open spec fn previews(extra: Seq<PreviewItem>, scratch: Seq<Seq<char>>, r: Seq<RecurringItem>, n: int) -> bool {
    &&& scratch.len() == extra.len()
    &&& forall|k: int| 0 <= k < extra.len() ==> previewed_as(extra[k], scratch[k], #[trigger] r[n + k])
}

/// Whether `id` is one of `ids`.
fn listed_id(id: &str, ids: &Vec<String>) -> (r: bool)
    ensures
        r == str_views(ids@).contains(id@),
{
    let idv = chars_of(id);
    let mut j: usize = 0;
    while j < ids.len()
        invariant
            j <= ids@.len(),
            idv@ == id@,
            forall|k: int| 0 <= k < j ==> str_views(ids@)[k] != id@,
        decreases ids@.len() - j,
    {
        if eq_chars(&chars_of(ids[j].as_str()), &idv) {
            assert(str_views(ids@)[j as int] == id@);
            return true;
        }
        j += 1;
    }
    false
}

/// A projection schedules no excluded transfer, and every transfer that is
/// not excluded: the transfers `kept_transfers` leaves are transfers of
/// `transfers` whose id is not among `exclude`, and each transfer whose id
/// is not among `exclude` is left.
pub proof fn lemma_kept_transfers(transfers: Seq<RecurringTransfer>, exclude: Seq<Seq<char>>)
    ensures
        forall|i: int|
            0 <= i < kept_transfers(transfers, exclude).len() ==> !exclude.contains(
                (#[trigger] kept_transfers(transfers, exclude)[i]).id@,
            ) && transfers.contains(kept_transfers(transfers, exclude)[i]),
        forall|j: int| 0 <= j < transfers.len() && !exclude.contains((#[trigger] transfers[j]).id@) ==> kept_transfers(transfers, exclude).contains(transfers[j]),
    decreases transfers.len(),
{
    if transfers.len() > 0 {
        let pre = transfers.drop_last();
        lemma_kept_transfers(pre, exclude);
        let k = kept_transfers(transfers, exclude);
        let kp = kept_transfers(pre, exclude);
        assert forall|i: int| 0 <= i < k.len() implies !exclude.contains((#[trigger] k[i]).id@) && transfers.contains(k[i]) by {
            if i < kp.len() {
                assert(k[i] == kp[i]);
                let w = choose|w: int| 0 <= w < pre.len() && pre[w] == kp[i];
                assert(transfers[w] == pre[w]);
            } else {
                assert(k[i] == transfers.last());
                assert(transfers[transfers.len() - 1] == transfers.last());
            }
        }
        assert forall|j: int| 0 <= j < transfers.len() && !exclude.contains((#[trigger] transfers[j]).id@) implies k.contains(transfers[j]) by {
            if j < transfers.len() - 1 {
                assert(pre[j] == transfers[j]);
                let w = choose|w: int| 0 <= w < kp.len() && kp[w] == pre[j];
                assert(k[w] == kp[w]);
            } else {
                assert(k[k.len() - 1] == transfers[j]);
            }
        }
    }
}

/// The transfers a projection schedules: those not excluded by id.
pub fn scheduled_transfers(transfers: Vec<RecurringTransfer>, exclude_recurring_ids: &Vec<String>) -> (r: Vec<
    RecurringTransfer,
>)
    ensures
        r@ == kept_transfers(transfers@, str_views(exclude_recurring_ids@)),
{
    let ghost all = transfers@;
    let ghost ex = str_views(exclude_recurring_ids@);
    let total: usize = transfers.len();
    let mut rest = transfers;
    let mut out: Vec<RecurringTransfer> = Vec::new();
    let mut i: usize = 0;
    assert(all.skip(0) =~= all);
    while rest.len() > 0
        invariant
            i + rest@.len() == all.len(),
            all.len() == total,
            rest@ == all.skip(i as int),
            ex == str_views(exclude_recurring_ids@),
            out@ == kept_transfers(all.take(i as int), ex),
        decreases rest@.len(),
    {
        let t = rest.remove(0);
        assert(t == all[i as int]);
        assert(rest@ =~= all.skip(i + 1));
        assert(all.take(i + 1).drop_last() =~= all.take(i as int));
        assert(all.take(i + 1).last() == t);
        if !listed_id(t.id.as_str(), exclude_recurring_ids) {
            out.push(t);
        }
        i += 1;
    }
    assert(all.take(i as int) =~= all);
    out
}

/// The recurring items a projection schedules: those not excluded by id,
/// then one for each hypothetical item, the `i`-th under the id
/// `preview-{scratch_ids[i]}`.
pub fn scheduled_items(
    items: Vec<RecurringItem>,
    extra_items: &Vec<PreviewItem>,
    exclude_recurring_ids: &Vec<String>,
    scratch_ids: &Vec<String>,
) -> (r: Vec<RecurringItem>)
    requires
        scratch_ids@.len() == extra_items@.len(),
    ensures
        r@.len() == kept_items(items@, str_views(exclude_recurring_ids@)).len() + extra_items@.len(),
        r@.take(kept_items(items@, str_views(exclude_recurring_ids@)).len() as int) == kept_items(
            items@,
            str_views(exclude_recurring_ids@),
        ),
        previews(
            extra_items@,
            str_views(scratch_ids@),
            r@,
            kept_items(items@, str_views(exclude_recurring_ids@)).len() as int,
        ),
{
    let ghost all = items@;
    let ghost ex = str_views(exclude_recurring_ids@);
    let total: usize = items.len();
    let mut rest = items;
    let mut out: Vec<RecurringItem> = Vec::new();
    let mut i: usize = 0;
    assert(all.skip(0) =~= all);
    while rest.len() > 0
        invariant
            i + rest@.len() == all.len(),
            all.len() == total,
            rest@ == all.skip(i as int),
            ex == str_views(exclude_recurring_ids@),
            out@ == kept_items(all.take(i as int), ex),
        decreases rest@.len(),
    {
        let it = rest.remove(0);
        assert(it == all[i as int]);
        assert(rest@ =~= all.skip(i + 1));
        assert(all.take(i + 1).drop_last() =~= all.take(i as int));
        assert(all.take(i + 1).last() == it);
        if !listed_id(it.id.as_str(), exclude_recurring_ids) {
            out.push(it);
        }
        i += 1;
    }
    assert(all.take(i as int) =~= all);
    let ghost kept = out@;
    let ghost n = kept.len();
    let mut k: usize = 0;
    while k < extra_items.len()
        invariant
            k <= extra_items@.len(),
            scratch_ids@.len() == extra_items@.len(),
            out@.len() == n + k,
            out@.take(n as int) == kept,
            forall|j: int| 0 <= j < k ==> previewed_as(extra_items@[j], str_views(scratch_ids@)[j], #[trigger] out@[n + j]),
        decreases extra_items@.len() - k,
    {
        let p = &extra_items[k];
        let mut id = chars_of("preview-");
        append_str(&mut id, scratch_ids[k].as_str());
        let item = RecurringItem {
            id: string_of(&id),
            name: string_of(&chars_of(p.name.as_str())),
            amount: p.amount,
            kind: p.kind,
            label: string_of(&chars_of("preview")),
            frequency: p.frequency,
            reference_date: p.reference_date,
            account: string_of(&chars_of(p.account.as_str())),
            category: None,
        };
        let ghost before = out@;
        out.push(item);
        assert(out@.take(n as int) =~= before.take(n as int));
        assert forall|j: int| 0 <= j < k + 1 implies previewed_as(
            extra_items@[j],
            str_views(scratch_ids@)[j],
            #[trigger] out@[n + j],
        ) by {
            if j < k {
                assert(out@[n + j] == before[n + j]);
            }
        }
        k += 1;
    }
    out
}

/// The recurring items a projection schedules, each hypothetical item under
/// a fresh random id: `scheduled_items` with some scratch id per item.
pub fn fresh_scheduled_items(
    items: Vec<RecurringItem>,
    extra_items: &Vec<PreviewItem>,
    exclude_recurring_ids: &Vec<String>,
) -> (r: Vec<RecurringItem>)
    ensures
        r@.len() == kept_items(items@, str_views(exclude_recurring_ids@)).len() + extra_items@.len(),
        r@.take(kept_items(items@, str_views(exclude_recurring_ids@)).len() as int) == kept_items(
            items@,
            str_views(exclude_recurring_ids@),
        ),
        exists|scratch: Seq<Seq<char>>|
            #[trigger] previews(
                extra_items@,
                scratch,
                r@,
                kept_items(items@, str_views(exclude_recurring_ids@)).len() as int,
            ),
{
    let mut ids: Vec<String> = Vec::new();
    let mut i: usize = 0;
    while i < extra_items.len()
        invariant
            i <= extra_items@.len(),
            ids@.len() == i,
        decreases extra_items@.len() - i,
    {
        ids.push(new_uuid_text());
        i += 1;
    }
    assert(str_views(ids@).len() == extra_items@.len());
    scheduled_items(items, extra_items, exclude_recurring_ids, &ids)
}

} // verus!
