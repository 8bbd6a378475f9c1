//! Start-up: recording each subsystem's start, and the report ticket
//! printed once every subsystem has been started.
use vstd::prelude::*;
use crate::status::{Status, SystemsStatus, SystemsIter, system_index};
use crate::printer::PrintJob;
use crate::lists::{ListStats, dashes, job_view};
use crate::text::{chars_of, string_of, append, append_str, u64_digits, decimal, str_views};

verus! {

impl SystemsStatus {
    /// Records how the start of the subsystem called `name` went: `Go` when
    /// it started, `Nogo` when it did not. Returns the updated value.
    pub fn record_init(&mut self, name: &str, started: bool) -> (r: Self)
        ensures
            *final(self) == (match system_index(name@) {
                Some(i) => old(self).with(
                    i,
                    if started {
                        Status::Go
                    } else {
                        Status::Nogo
                    },
                ),
                None => *old(self),
            }),
            r == *final(self),
    {
        if started {
            self.update(name, Status::Go)
        } else {
            self.update(name, Status::Nogo)
        }
    }
}

/// The debug name of a status (`Go`, `Nogo`, ...).
pub open spec fn status_name(s: Status) -> Seq<char> {
    match s {
        Status::Init => "Init"@,
        Status::Go => "Go"@,
        Status::Nogo => "Nogo"@,
        Status::Degraded => "Degraded"@,
        Status::Unknown => "Unknown"@,
    }
}

/// The debug name of a status.
pub fn status_text(s: Status) -> (r: &'static str)
    ensures
        r@ == status_name(s),
{
    match s {
        Status::Init => "Init",
        Status::Go => "Go",
        Status::Nogo => "Nogo",
        Status::Degraded => "Degraded",
        Status::Unknown => "Unknown",
    }
}

/// `s` padded with spaces on the right to `w` characters.
pub open spec fn pad_right(s: Seq<char>, w: nat) -> Seq<char> {
    if s.len() < w {
        s + Seq::new((w - s.len()) as nat, |i: int| ' ')
    } else {
        s
    }
}

/// A subsystem's line of the report: two spaces, `name:` padded to nine
/// characters, a space, the status.
pub open spec fn status_line(name: Seq<char>, s: Status) -> Seq<char> {
    "  "@ + pad_right(name + ":"@, 9) + " "@ + status_name(s)
}

/// The title of the report for the overall status.
pub open spec fn startup_title_text(gono: Status) -> Seq<char> {
    match gono {
        Status::Go => "SYSTEM INITIALIZED: GO"@,
        Status::Degraded => "SYSTEM INITIALIZED: DEGRADED"@,
        Status::Nogo => "SYSTEM INITIALIZED: NOGO"@,
        _ => "SYSTEM INITIALIZED: UNKNOWN"@,
    }
}

/// The title of the start-up report: the overall status (`Init` shows as
/// unknown).
pub fn startup_title(gono: Status) -> (r: String)
    ensures
        r@ == startup_title_text(gono),
{
    let t = match gono {
        Status::Go => "SYSTEM INITIALIZED: GO",
        Status::Degraded => "SYSTEM INITIALIZED: DEGRADED",
        Status::Nogo => "SYSTEM INITIALIZED: NOGO",
        _ => "SYSTEM INITIALIZED: UNKNOWN",
    };
    string_of(&chars_of(t))
}

/// Counts of pending todo items.
#[derive(Debug, Clone, Copy)]
pub struct TodoCounts {
    pub total_pending: u64,
    pub overdue: u64,
    pub due_today: u64,
}

/// The todo line of the report.
pub open spec fn todo_line(t: Option<TodoCounts>) -> Seq<char> {
    match t {
        Some(c) => "  Todo:      "@ + decimal(c.total_pending as nat) + " pending ("@ + decimal(c.overdue as nat)
            + " overdue, "@ + decimal(c.due_today as nat) + " today)"@,
        None => "  Todo:      unavailable"@,
    }
}

/// The lists line of the report.
pub open spec fn lists_line(s: Option<ListStats>) -> Seq<char> {
    match s {
        Some(c) => "  Lists:     "@ + decimal(c.lists as nat) + " lists across "@ + decimal(c.groups as nat)
            + " groups, "@ + decimal(c.items as nat) + " items ("@ + decimal(c.items_pending as nat) + " pending)"@,
        None => "  Lists:     unavailable"@,
    }
}

/// The recurring-todo line of the report.
pub open spec fn recurring_line(total: nat, today: nat) -> Seq<char> {
    "  Recurring: "@ + decimal(total) + " configured ("@ + decimal(today) + " due today)"@
}

/// The lines of the start-up report: one per subsystem, then a blank line,
/// a separator, the todo, lists and recurring counts, a blank line, a
/// separator, and the version with the time.
pub open spec fn startup_lines(
    systems: SystemsStatus,
    todo: Option<TodoCounts>,
    lists: Option<ListStats>,
    recurring_total: nat,
    recurring_today: nat,
    version: Seq<char>,
    now: Seq<char>,
    width: nat,
) -> Seq<Seq<char>> {
    systems.entries().map_values(|e: (Seq<char>, Status)| status_line(e.0, e.1)) + seq![
        Seq::<char>::empty(),
        dashes(width),
        todo_line(todo),
        lists_line(lists),
        recurring_line(recurring_total, recurring_today),
        Seq::<char>::empty(),
        dashes(width),
        "  v"@ + version + "  |  "@ + now,
    ]
}

/// A subsystem's line of the report.
fn status_line_exec(name: &str, s: Status) -> (r: String)
    ensures
        r@ == status_line(name@, s),
{
    let mut v = chars_of("  ");
    let mut label = chars_of(name);
    label.push(':');
    let ghost l = label@;
    while label.len() < 9
        invariant
            l.len() <= label@.len(),
            label@ == pad_right(l, label@.len() as nat),
            l.len() < 9 ==> label@.len() <= 9,
            l.len() >= 9 ==> label@ == l,
        decreases 9 - label@.len(),
    {
        label.push(' ');
        assert(label@ =~= pad_right(l, label@.len() as nat));
    }
    assert(label@ =~= pad_right(l, 9)) by {
        if l.len() >= 9 {
            assert(label@ =~= l);
        }
    }
    append(&mut v, &label);
    append_str(&mut v, " ");
    append_str(&mut v, status_text(s));
    proof {
        reveal_strlit(":");
    }
    string_of(&v)
}

/// The decimal text of a count.
fn count_text(n: u64) -> (r: Vec<char>)
    ensures
        r@ == decimal(n as nat),
{
    u64_digits(n)
}

/// `n` dashes, as a string.
fn dash_line(n: usize) -> (r: String)
    ensures
        r@ == dashes(n as nat),
{
    let mut v: Vec<char> = Vec::new();
    let mut i: usize = 0;
    while i < n
        invariant
            i <= n,
            v@ == dashes(i as nat),
        decreases n - i,
    {
        v.push('-');
        i += 1;
        assert(v@ =~= dashes(i as nat));
    }
    string_of(&v)
}

/// The start-up report: origin `App Initialization`, the overall status as
/// title, and the lines of `startup_lines`.
#[verifier::rlimit(30)]
pub fn startup_report(
    systems: SystemsStatus,
    gono: Status,
    todo: Option<TodoCounts>,
    lists: Option<ListStats>,
    recurring_total: u64,
    recurring_today: u64,
    version: &str,
    now: &str,
    width: usize,
) -> (r: PrintJob)
    ensures
        job_view(r) == (
            "App Initialization"@,
            startup_title_text(gono),
            startup_lines(
                systems,
                todo,
                lists,
                recurring_total as nat,
                recurring_today as nat,
                version@,
                now@,
                width as nat,
            ),
        ),
{
    let mut lines: Vec<String> = Vec::new();
    let mut it: SystemsIter = systems.iter();
    let ghost es = systems.entries();
    let ghost want = es.map_values(|e: (Seq<char>, Status)| status_line(e.0, e.1));
    let mut k: usize = 0;
    while k < 7
        invariant
            k <= 7,
            es == systems.entries(),
            es.len() == 7,
            want == es.map_values(|e: (Seq<char>, Status)| status_line(e.0, e.1)),
            it.remaining() == es.skip(k as int),
            str_views(lines@) == want.take(k as int),
        decreases 7 - k,
    {
        let ghost before = lines@;
        match it.next() {
            Some((name, st)) => {
                lines.push(status_line_exec(name, st));
                assert(es.skip(k as int)[0] == es[k as int]);
                assert(str_views(lines@) =~= str_views(before).push(want[k as int]));
                assert(want.take(k + 1) =~= want.take(k as int).push(want[k as int]));
            },
            None => {
                assert(false);
            },
        }
        assert(es.skip(k as int).drop_first() =~= es.skip(k + 1));
        k += 1;
    }
    assert(want.take(7) =~= want);
    let ghost head = lines@;
    lines.push(String::new());
    lines.push(dash_line(width));
    let todo_text = match todo {
        Some(c) => {
            let mut v = chars_of("  Todo:      ");
            append(&mut v, &count_text(c.total_pending));
            append_str(&mut v, " pending (");
            append(&mut v, &count_text(c.overdue));
            append_str(&mut v, " overdue, ");
            append(&mut v, &count_text(c.due_today));
            append_str(&mut v, " today)");
            v
        },
        None => chars_of("  Todo:      unavailable"),
    };
    assert(todo_text@ =~= todo_line(todo));
    lines.push(string_of(&todo_text));
    let lists_text = match lists {
        Some(c) => {
            let mut v = chars_of("  Lists:     ");
            append(&mut v, &count_text(c.lists as u64));
            append_str(&mut v, " lists across ");
            append(&mut v, &count_text(c.groups as u64));
            append_str(&mut v, " groups, ");
            append(&mut v, &count_text(c.items as u64));
            append_str(&mut v, " items (");
            append(&mut v, &count_text(c.items_pending as u64));
            append_str(&mut v, " pending)");
            v
        },
        None => chars_of("  Lists:     unavailable"),
    };
    assert(lists_text@ =~= lists_line(lists));
    lines.push(string_of(&lists_text));
    let mut rec = chars_of("  Recurring: ");
    append(&mut rec, &count_text(recurring_total));
    append_str(&mut rec, " configured (");
    append(&mut rec, &count_text(recurring_today));
    append_str(&mut rec, " due today)");
    assert(rec@ =~= recurring_line(recurring_total as nat, recurring_today as nat));
    lines.push(string_of(&rec));
    lines.push(String::new());
    lines.push(dash_line(width));
    let mut tail = chars_of("  v");
    append_str(&mut tail, version);
    append_str(&mut tail, "  |  ");
    append_str(&mut tail, now);
    lines.push(string_of(&tail));
    proof {
        let spec_lines = startup_lines(
            systems,
            todo,
            lists,
            recurring_total as nat,
            recurring_today as nat,
            version@,
            now@,
            width as nat,
        );
        assert(str_views(lines@) =~= spec_lines);
    }
    PrintJob::new(string_of(&chars_of("App Initialization")), startup_title(gono), lines)
}

} // verus!
