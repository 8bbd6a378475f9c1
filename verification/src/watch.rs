//! The decisions of the task print watcher, which polls the task server:
//! which tasks are pending, which go on the day's summary and when it is
//! due, and which tasks are printed in a round.
use vstd::prelude::*;
use crate::datatypes::{Task, Label, has_recurring_label};
use crate::date::{
    Date, opt_date_view, ymd_lt, parse_rfc3339_instant, local_time_of, now_instant, instant_after, is_after,
    rfc3339_instant, rfc3339_valid, near_utc_day,
};
use crate::text::{chars_of, string_of, eq_chars};

verus! {

// ---------------------------------------------------------------------------
// Pending tasks
// ---------------------------------------------------------------------------

/// The tasks not done, in order.
pub open spec fn pending_spec(ts: Seq<Task>) -> Seq<Task>
    decreases ts.len(),
{
    if ts.len() == 0 {
        seq![]
    } else if ts.last().done {
        pending_spec(ts.drop_last())
    } else {
        pending_spec(ts.drop_last()).push(ts.last())
    }
}

/// The tasks not done, in order.
pub fn pending_tasks(tasks: Vec<Task>) -> (r: Vec<Task>)
    ensures
        r@ == pending_spec(tasks@),
{
    let total: usize = tasks.len();
    let ghost all = tasks@;
    let mut rest = tasks;
    let mut out: Vec<Task> = Vec::new();
    let mut i: usize = 0;
    assert(all.skip(0) =~= all);
    while rest.len() > 0
        invariant
            i + rest@.len() == all.len(),
            all.len() == total,
            rest@ == all.skip(i as int),
            out@ == pending_spec(all.take(i as int)),
        decreases rest@.len(),
    {
        let t = rest.remove(0);
        assert(t == all[i as int]);
        assert(rest@ =~= all.skip(i + 1));
        assert(all.take(i + 1).drop_last() =~= all.take(i as int));
        assert(all.take(i + 1).last() == t);
        if !t.done {
            out.push(t);
        }
        i += 1;
    }
    assert(all.take(i as int) =~= all);
    out
}

// ---------------------------------------------------------------------------
// The day's summary
// ---------------------------------------------------------------------------

/// Whether one of the labels is titled `title`.
pub open spec fn has_label_titled(labels: Option<Vec<Label>>, title: Seq<char>) -> bool {
    match labels {
        Some(ls) => exists|i: int| 0 <= i < ls@.len() && #[trigger] ls@[i].title@ == title,
        None => false,
    }
}

/// Whether the task carries a label titled `title`.
pub fn has_label(task: &Task, title: &str) -> (r: bool)
    ensures
        r == has_label_titled(task.labels, title@),
{
    let tv = chars_of(title);
    match &task.labels {
        Some(labels) => {
            let mut i: usize = 0;
            while i < labels.len()
                invariant
                    i <= labels@.len(),
                    tv@ == title@,
                    task.labels == Some(*labels),
                    forall|k: int| 0 <= k < i ==> #[trigger] labels@[k].title@ != title@,
                decreases labels@.len() - i,
            {
                if eq_chars(&chars_of(labels[i].title.as_str()), &tv) {
                    let ghost ls = task.labels->0;
                    assert(ls@[i as int].title@ == title@);
                    assert(has_label_titled(task.labels, title@));
                    return true;
                }
                i += 1;
            }
            false
        },
        None => false,
    }
}

/// A task goes on the summary of `today` when it is due that day (in local
/// time) or carries the label `Today` or `Tomorrow`.
pub open spec fn on_summary(t: Task, today: (int, int, int), due_day: Option<(int, int, int)>) -> bool {
    due_day == Some(today) || has_label_titled(t.labels, "Today"@) || has_label_titled(t.labels, "Tomorrow"@)
}

/// The tasks on the summary of `today`, in order, the `i`-th due on the
/// local day `days[i]`.
pub open spec fn summary_spec(ts: Seq<Task>, today: (int, int, int), days: Seq<Option<(int, int, int)>>) -> Seq<Task>
    decreases ts.len(),
{
    if ts.len() == 0 {
        seq![]
    } else if on_summary(ts.last(), today, days[ts.len() - 1]) {
        summary_spec(ts.drop_last(), today, days).push(ts.last())
    } else {
        summary_spec(ts.drop_last(), today, days)
    }
}

/// The plain values of optional dates.
pub open spec fn opt_date_views(v: Seq<Option<Date>>) -> Seq<Option<(int, int, int)>> {
    v.map_values(|d: Option<Date>| opt_date_view(d))
}

/// The tasks on the summary of `today`, in order, the `i`-th due on the
/// local day `due_days[i]` (none when its due date does not parse).
pub fn summary_tasks(tasks: Vec<Task>, today: Date, due_days: &Vec<Option<Date>>) -> (r: Vec<Task>)
    requires
        due_days@.len() == tasks@.len(),
    ensures
        r@ == summary_spec(tasks@, today@, opt_date_views(due_days@)),
{
    let total: usize = tasks.len();
    let ghost all = tasks@;
    let ghost days = opt_date_views(due_days@);
    let mut rest = tasks;
    let mut out: Vec<Task> = Vec::new();
    let mut i: usize = 0;
    assert(all.skip(0) =~= all);
    while rest.len() > 0
        invariant
            i + rest@.len() == all.len(),
            all.len() == total,
            due_days@.len() == total,
            days == opt_date_views(due_days@),
            rest@ == all.skip(i as int),
            out@ == summary_spec(all.take(i as int), today@, days),
        decreases rest@.len(),
    {
        let t = rest.remove(0);
        assert(t == all[i as int]);
        assert(rest@ =~= all.skip(i + 1));
        assert(all.take(i + 1).drop_last() =~= all.take(i as int));
        assert(all.take(i + 1).last() == t);
        let due_today = match due_days[i] {
            Some(d) => !d.is_before(&today) && !today.is_before(&d),
            None => false,
        };
        assert(due_today == (days[i as int] == Some(today@)));
        if due_today || has_label(&t, "Today") || has_label(&t, "Tomorrow") {
            out.push(t);
        }
        i += 1;
    }
    assert(all.take(i as int) =~= all);
    out
}

/// The local day `day` of each due date of `tasks`: one exactly when the
/// due date parses as RFC 3339, within one day of its instant's UTC day.
pub open spec fn local_due_days(tasks: Seq<Task>, days: Seq<Option<(int, int, int)>>) -> bool {
    &&& days.len() == tasks.len()
    &&& forall|i: int|
        0 <= i < days.len() ==> (#[trigger] days[i] is Some <==> rfc3339_valid(tasks[i].due_date@)) && (
        days[i] matches Some(d) ==> near_utc_day(d, rfc3339_instant(tasks[i].due_date@)->0))
}

/// The tasks on the summary of `today`, in order, each task's due date read
/// as RFC 3339 and taken to the machine's local day.
pub fn daily_summary_tasks(tasks: Vec<Task>, today: Date) -> (r: Vec<Task>)
    ensures
        exists|days: Seq<Option<(int, int, int)>>|
            local_due_days(tasks@, days) && r@ == #[trigger] summary_spec(tasks@, today@, days),
{
    let mut days: Vec<Option<Date>> = Vec::new();
    let mut i: usize = 0;
    while i < tasks.len()
        invariant
            i <= tasks@.len(),
            days@.len() == i,
            forall|k: int| 0 <= k < i ==> (#[trigger] days@[k] is Some <==> rfc3339_valid(tasks@[k].due_date@)),
            forall|k: int| 0 <= k < i ==> (#[trigger] days@[k] matches Some(d) ==> near_utc_day(
                d@,
                rfc3339_instant(tasks@[k].due_date@)->0,
            )),
        decreases tasks@.len() - i,
    {
        let d = match parse_rfc3339_instant(tasks[i].due_date.as_str()) {
            Some(inst) => Some(local_time_of(inst).0),
            None => None,
        };
        days.push(d);
        i += 1;
    }
    let ghost dv = opt_date_views(days@);
    assert forall|k: int| 0 <= k < dv.len() implies (#[trigger] dv[k] is Some <==> rfc3339_valid(
        tasks@[k].due_date@,
    )) && (dv[k] matches Some(d) ==> near_utc_day(d, rfc3339_instant(tasks@[k].due_date@)->0)) by {
        assert(dv[k] == opt_date_view(days@[k]));
    }
    assert(local_due_days(tasks@, dv));
    summary_tasks(tasks, today, &days)
}

/// The day's summary is due on a later day than the last one printed.
pub fn summary_due(today: Date, last_printed: Date) -> (r: bool)
    ensures
        r == ymd_lt(last_printed@, today@),
{
    last_printed.is_before(&today)
}

// ---------------------------------------------------------------------------
// Printing tasks
// ---------------------------------------------------------------------------

/// A task needs printing when no print of it is recorded, or the recorded
/// `updated` stamp is not the task's own (it changed since).
pub open spec fn needs_printing_spec(printed: Option<Seq<char>>, updated: Seq<char>) -> bool {
    match printed {
        None => true,
        Some(u) => u != updated,
    }
}

/// The optional text as a plain value.
pub open spec fn opt_text(o: Option<&str>) -> Option<Seq<char>> {
    match o {
        Some(s) => Some(s@),
        None => None,
    }
}

/// Whether the task needs printing, given the `updated` stamp recorded
/// when it was last printed (none when it never was).
pub fn needs_printing(printed_updated: Option<&str>, task: &Task) -> (r: bool)
    ensures
        r == needs_printing_spec(opt_text(printed_updated), task.updated@),
{
    match printed_updated {
        None => true,
        Some(u) => !eq_chars(&chars_of(u), &chars_of(task.updated.as_str())),
    }
}

/// What is recorded once a task is printed: its id and its `updated`
/// stamp.
pub fn printed_record(task: &Task) -> (r: (i32, String))
    ensures
        r.0 == task.id,
        r.1@ == task.updated@,
{
    (task.id, string_of(&chars_of(task.updated.as_str())))
}

/// A printed task is not printed again until it changes: with the record
/// kept for it, it does not need printing; with a record of another
/// `updated` stamp, it does.
pub proof fn lemma_printed_once(task: Task, other_stamp: Seq<char>)
    ensures
        !needs_printing_spec(Some(task.updated@), task.updated@),
        other_stamp != task.updated@ ==> needs_printing_spec(Some(other_stamp), task.updated@),
        needs_printing_spec(None, task.updated@),
{
}

/// A print claim on the printed records (task id to the stamp last
/// printed): it wins exactly when the task needs printing against its
/// record, and a winning claim records its stamp; a losing one changes
/// nothing.
pub open spec fn claim(records: Map<int, Seq<char>>, id: int, stamp: Seq<char>) -> (bool, Map<int, Seq<char>>) {
    let recorded = if records.contains_key(id) {
        Some(records[id])
    } else {
        None
    };
    if needs_printing_spec(recorded, stamp) {
        (true, records.insert(id, stamp))
    } else {
        (false, records)
    }
}

/// A task is printed at most once per stamp: after a claim of a stamp,
/// another claim of the same stamp loses, whoever makes it, while a claim
/// of a different stamp wins; claims for other tasks are untouched.
pub proof fn lemma_claim_at_most_once(
    records: Map<int, Seq<char>>,
    id: int,
    stamp: Seq<char>,
    other: Seq<char>,
    other_id: int,
)
    ensures
        !claim(claim(records, id, stamp).1, id, stamp).0,
        other != stamp ==> claim(claim(records, id, stamp).1, id, other).0,
        other_id != id ==> claim(records, id, stamp).1.contains_key(other_id) == records.contains_key(other_id),
        other_id != id && records.contains_key(other_id) ==> claim(records, id, stamp).1[other_id]
            == records[other_id],
{
}

/// A task is printed in a round unless it is a recurring task due after
/// `now`, and only when it needs printing.
pub open spec fn prints_now_spec(t: Task, due: Option<(i64, u32)>, now: (i64, u32), printed: Option<Seq<char>>) -> bool {
    let future = match due {
        Some(d) => instant_after(d, now),
        None => false,
    };
    !(has_recurring_label(t.labels) && future) && needs_printing_spec(printed, t.updated@)
}

/// Whether the task is printed in a round at the instant `now`, its due
/// date read as the instant `due` and the print recorded for it being
/// `printed_updated`.
pub fn prints_now(task: &Task, due: Option<(i64, u32)>, now: (i64, u32), printed_updated: Option<&str>) -> (r: bool)
    ensures
        r == prints_now_spec(*task, due, now, opt_text(printed_updated)),
{
    if task.is_recurring() {
        match due {
            Some(d) => {
                if is_after(d, now) {
                    return false;
                }
            },
            None => {},
        }
    }
    needs_printing(printed_updated, task)
}

/// Whether the task is printed in a round, now: its due date read as RFC
/// 3339 and compared with the current time.
pub fn prints_now_at(task: &Task, printed_updated: Option<&str>) -> (r: bool)
    ensures
        exists|now: (i64, u32)|
            r == #[trigger] prints_now_spec(*task, rfc3339_instant(task.due_date@), now, opt_text(printed_updated)),
{
    let due = parse_rfc3339_instant(task.due_date.as_str());
    let now = now_instant();
    prints_now(task, due, now, printed_updated)
}

} // verus!
