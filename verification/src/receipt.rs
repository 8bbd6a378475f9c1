//! Receipts printed for a task and for the daily summary: the ESC/POS
//! command sequences sent to the thermal printer.
use vstd::prelude::*;
use crate::datatypes::{Task, Label};
use crate::printer::{EscposCommand, Cmd, Justify, cmd_view, cmds_view};
use crate::date::{is_stamp_text, is_day_text, rfc3339_valid, rfc3339_instant, parse_rfc3339_instant, local_time_of, near_utc_day, minute_text_on};
use crate::text::{
    starts_with, int_decimal, chars_of, string_of, i64_digits, append, starts_with_exec, opt_str_view,
};

verus! {

/// Why a receipt could not be built.
#[derive(Debug, Clone, Copy, PartialEq, Eq, Structural)]
pub enum ReceiptError {
    /// The task description could not be rendered as text.
    DescriptionNotRendered,
}


/// `t` renders the instant `i` in some time zone at an offset of less than
/// a day: a `%Y-%m-%d %H:%M` text of a time on a day within one day of the
/// instant's UTC day.
pub open spec fn local_minute_of(t: Seq<char>, i: (i64, u32)) -> bool {
    exists|d: (int, int, int)| near_utc_day(d, i) && #[trigger] minute_text_on(t, d)
}

/// What a receipt shows of the due date `s` in local time: a rendering
/// exactly when `s` parses as RFC 3339, and then one of its instant.
pub open spec fn local_rendering(local: Option<Seq<char>>, s: Seq<char>) -> bool {
    &&& (local is Some <==> rfc3339_valid(s))
    &&& (local matches Some(t) ==> local_minute_of(t, rfc3339_instant(s)->0))
}

/// The time of an RFC 3339 text in the machine's local time zone as
/// `%Y-%m-%d %H:%M`: a text exactly when the text parses, on a day within
/// one day of the instant's UTC day; which day and time depend on the
/// machine's time zone.
fn local_minute_text(s: &str) -> (r: Option<String>)
    ensures
        local_rendering(opt_str_view(r), s@),
{
    match parse_rfc3339_instant(s) {
        Some(i) => {
            let (d, t) = local_time_of(i);
            assert(minute_text_on(t@, d@));
            Some(t)
        },
        None => None,
    }
}

/// `chrono::Local::now()` formatted as `%Y-%m-%d %H:%M:%S`: the text of
/// some valid date and time of day (chrono writes `%Y` as `year_text` does,
/// and the other fields as two zero-padded digits). Which date and time is
/// the clock's.
#[verifier::external_body]
fn now_stamp_text() -> (r: String)
    ensures
        is_stamp_text(r@),
{
    chrono::Local::now().format("%Y-%m-%d %H:%M:%S").to_string()
}

/// `chrono::Local::now()` formatted as `%a %d-%b-%Y`: the weekday and month
/// abbreviations, two-digit day and year of some valid date. Which date is
/// the clock's.
#[verifier::external_body]
fn now_day_text() -> (r: String)
    ensures
        is_day_text(r@),
{
    chrono::Local::now().format("%a %d-%b-%Y").to_string()
}

// ---------------------------------------------------------------------------
// The command sequences
// ---------------------------------------------------------------------------

/// A heading in double size, centered, with feeds around it.
pub open spec fn header_cmds(print_type: Seq<char>) -> Seq<Cmd> {
    seq![Cmd::Justify(Justify::Center), Cmd::Feeds(2), Cmd::Size(2, 2), Cmd::Write(print_type), Cmd::Feeds(3)]
}

/// The "Printed at:" block with the time of printing.
pub open spec fn printed_time_cmds(now: Seq<char>) -> Seq<Cmd> {
    seq![
        Cmd::Feed,
        Cmd::ResetSize,
        Cmd::Bold(true),
        Cmd::Write("Printed at:"@),
        Cmd::Bold(false),
        Cmd::Feed,
        Cmd::Justify(Justify::Center),
        Cmd::Write(now),
        Cmd::Feed,
        Cmd::Justify(Justify::Left),
    ]
}

/// A closing line in double size, the time of printing, and six feeds.
pub open spec fn footer_cmds(print_type: Seq<char>, now: Seq<char>) -> Seq<Cmd> {
    seq![Cmd::Justify(Justify::Center), Cmd::Feed, Cmd::Size(2, 2), Cmd::Write(print_type), Cmd::Feed]
        + printed_time_cmds(now) + seq![Cmd::Feeds(6)]
}

/// The address of a task on the task server.
pub open spec fn task_url(base_url: Seq<char>, id: i32) -> Seq<char> {
    base_url + "/tasks/"@ + int_decimal(id as int)
}

/// A centered QR code of the task's address.
pub open spec fn qrcode_cmds(url: Seq<char>) -> Seq<Cmd> {
    seq![Cmd::Justify(Justify::Center), Cmd::QrCode(url)]
}

/// The title in bold over a rule.
pub open spec fn title_cmds(title: Seq<char>) -> Seq<Cmd> {
    seq![
        Cmd::Bold(true),
        Cmd::Writeln(title),
        Cmd::Feed,
        Cmd::DrawLine,
        Cmd::Bold(false),
        Cmd::ResetSize,
        Cmd::Justify(Justify::Left),
    ]
}

/// The "Description:" block with the description text.
pub open spec fn description_cmds(text: Seq<char>) -> Seq<Cmd> {
    seq![
        Cmd::Feed,
        Cmd::Bold(true),
        Cmd::Writeln("Description:"@),
        Cmd::Bold(false),
        Cmd::Justify(Justify::Center),
        Cmd::Write(text),
        Cmd::Feed,
        Cmd::Justify(Justify::Left),
    ]
}

/// The due date as printed: "No due date" for the server's zero date
/// (`0001-01-01...`), else its local rendering when it parsed, else the
/// date as given.
pub open spec fn due_text(due: Seq<char>, local: Option<Seq<char>>) -> Seq<char> {
    if starts_with(due, "0001-01-01"@) {
        "No due date"@
    } else {
        match local {
            Some(t) => t,
            None => due,
        }
    }
}

/// The "Due Date:" block.
pub open spec fn due_cmds(text: Seq<char>) -> Seq<Cmd> {
    seq![
        Cmd::Feed,
        Cmd::Bold(true),
        Cmd::Write("Due Date:"@),
        Cmd::Bold(false),
        Cmd::Feed,
        Cmd::Justify(Justify::Center),
        Cmd::Write(text),
        Cmd::Feed,
        Cmd::Justify(Justify::Left),
    ]
}

/// One `- title` line per label.
pub open spec fn label_lines(ls: Seq<Label>) -> Seq<Cmd> {
    ls.map_values(|l: Label| Cmd::Writeln("- "@ + l.title@))
}

/// The "Labels:" block when there are labels, then a feed.
pub open spec fn labels_cmds(labels: Option<Vec<Label>>) -> Seq<Cmd> {
    let listed = match labels {
        Some(ls) => if ls@.len() > 0 {
            seq![Cmd::Bold(true), Cmd::Writeln("Labels:"@), Cmd::Bold(false), Cmd::Justify(Justify::Center)]
                + label_lines(ls@)
        } else {
            seq![]
        },
        None => seq![],
    };
    listed + seq![Cmd::Feed, Cmd::Justify(Justify::Left)]
}

/// The receipt of a task: its QR code, a header, the title, the
/// description text, the due date, the labels, a footer with the time of
/// printing, and a cut.
pub open spec fn task_cmds(
    task: Task,
    base_url: Seq<char>,
    description: Seq<char>,
    due_local: Option<Seq<char>>,
    now: Seq<char>,
) -> Seq<Cmd> {
    seq![Cmd::Init] + qrcode_cmds(task_url(base_url, task.id)) + header_cmds("--- Task ---"@) + title_cmds(
        task.title@,
    ) + description_cmds(description) + due_cmds(due_text(task.due_date@, due_local)) + labels_cmds(
        task.labels,
    ) + footer_cmds("--- End Task ---"@, now) + seq![Cmd::PrintCut]
}

/// One `- title` line and a feed per task.
pub open spec fn summary_lines(ts: Seq<Task>) -> Seq<Cmd>
    decreases ts.len(),
{
    if ts.len() == 0 {
        seq![]
    } else {
        summary_lines(ts.drop_last()) + seq![Cmd::Writeln("- "@ + ts.last().title@), Cmd::Feed]
    }
}

/// The task list of the daily summary, or "No tasks for today.".
pub open spec fn summary_task_cmds(ts: Seq<Task>) -> Seq<Cmd> {
    seq![Cmd::Justify(Justify::Center), Cmd::ResetSize] + if ts.len() == 0 {
        seq![Cmd::Writeln("No tasks for today."@)]
    } else {
        summary_lines(ts)
    }
}

/// The day of the summary, centered.
pub open spec fn summary_day_cmds(day: Seq<char>) -> Seq<Cmd> {
    seq![Cmd::Justify(Justify::Center), Cmd::Writeln(day), Cmd::Feed, Cmd::Justify(Justify::Left)]
}

/// The daily summary receipt: a header, the day, the tasks, a footer with
/// the time of printing, and a cut.
pub open spec fn summary_cmds(ts: Seq<Task>, day: Seq<char>, now: Seq<char>) -> Seq<Cmd> {
    seq![Cmd::Init] + header_cmds("--- Daily Summary ---"@) + summary_day_cmds(day) + summary_task_cmds(ts)
        + footer_cmds("--- End Summary ---"@, now) + seq![Cmd::PrintCut]
}

// ---------------------------------------------------------------------------
// Building them
// ---------------------------------------------------------------------------

/// Appends the commands of `more` to `r`.
fn extend_cmds(r: &mut Vec<EscposCommand>, more: Vec<EscposCommand>)
    ensures
        cmds_view(final(r)@) == cmds_view(old(r)@) + cmds_view(more@),
{
    let mut more = more;
    let ghost m = more@;
    r.append(&mut more);
    assert(cmds_view(r@) =~= cmds_view(old(r)@) + cmds_view(m));
}

/// A `String` holding the text of a `str`.
fn owned(s: &str) -> (r: String)
    ensures
        r@ == s@,
{
    s.to_owned()
}

/// A heading in double size, centered, with feeds around it.
pub fn print_header(print_type: &str) -> (r: Vec<EscposCommand>)
    ensures
        cmds_view(r@) == header_cmds(print_type@),
{
    let r = vec![
        EscposCommand::Justify(Justify::Center),
        EscposCommand::Feeds(2),
        EscposCommand::Size(2, 2),
        EscposCommand::Write(owned(print_type)),
        EscposCommand::Feeds(3),
    ];
    assert(cmds_view(r@) =~= header_cmds(print_type@));
    r
}

/// The "Printed at:" block with the time of printing `now`.
pub fn printed_time(now: &str) -> (r: Vec<EscposCommand>)
    ensures
        cmds_view(r@) == printed_time_cmds(now@),
{
    let r = vec![
        EscposCommand::Feed,
        EscposCommand::ResetSize,
        EscposCommand::Bold(true),
        EscposCommand::Write(owned("Printed at:")),
        EscposCommand::Bold(false),
        EscposCommand::Feed,
        EscposCommand::Justify(Justify::Center),
        EscposCommand::Write(owned(now)),
        EscposCommand::Feed,
        EscposCommand::Justify(Justify::Left),
    ];
    assert(cmds_view(r@) =~= printed_time_cmds(now@));
    r
}

/// A closing line in double size, the time of printing `now`, and six
/// feeds.
pub fn print_footer(print_type: &str, now: &str) -> (r: Vec<EscposCommand>)
    ensures
        cmds_view(r@) == footer_cmds(print_type@, now@),
{
    let mut r = vec![
        EscposCommand::Justify(Justify::Center),
        EscposCommand::Feed,
        EscposCommand::Size(2, 2),
        EscposCommand::Write(owned(print_type)),
        EscposCommand::Feed,
    ];
    let ghost head = cmds_view(r@);
    extend_cmds(&mut r, printed_time(now));
    let ghost mid = cmds_view(r@);
    extend_cmds(&mut r, vec![EscposCommand::Feeds(6)]);
    assert(cmds_view(r@) =~= footer_cmds(print_type@, now@));
    r
}

/// The address of a task on the task server.
fn task_url_exec(base_url: &str, id: i32) -> (r: String)
    ensures
        r@ == task_url(base_url@, id),
{
    let mut v = chars_of(base_url);
    let path = chars_of("/tasks/");
    append(&mut v, &path);
    let d = i64_digits(id as i64);
    append(&mut v, &d);
    string_of(&v)
}

/// A centered QR code of the task's address on the server at `base_url`.
pub fn print_task_qrcode(task: &Task, base_url: &str) -> (r: Vec<EscposCommand>)
    ensures
        cmds_view(r@) == qrcode_cmds(task_url(base_url@, task.id)),
{
    let r = vec![EscposCommand::Justify(Justify::Center), EscposCommand::QrCode(task_url_exec(base_url, task.id))];
    assert(cmds_view(r@) =~= qrcode_cmds(task_url(base_url@, task.id)));
    r
}

/// The task's title in bold over a rule.
pub fn print_task_title(task: &Task) -> (r: Vec<EscposCommand>)
    ensures
        cmds_view(r@) == title_cmds(task.title@),
{
    let r = vec![
        EscposCommand::Bold(true),
        EscposCommand::Writeln(task.title.clone()),
        EscposCommand::Feed,
        EscposCommand::DrawLine,
        EscposCommand::Bold(false),
        EscposCommand::ResetSize,
        EscposCommand::Justify(Justify::Left),
    ];
    assert(cmds_view(r@) =~= title_cmds(task.title@));
    r
}

/// The "Description:" block with the given description text.
pub fn description_block(text: &str) -> (r: Vec<EscposCommand>)
    ensures
        cmds_view(r@) == description_cmds(text@),
{
    let r = vec![
        EscposCommand::Feed,
        EscposCommand::Bold(true),
        EscposCommand::Writeln(owned("Description:")),
        EscposCommand::Bold(false),
        EscposCommand::Justify(Justify::Center),
        EscposCommand::Write(owned(text)),
        EscposCommand::Feed,
        EscposCommand::Justify(Justify::Left),
    ];
    assert(cmds_view(r@) =~= description_cmds(text@));
    r
}

/// The "Description:" block of a task: its HTML description rendered as
/// text at 42 columns; `Err` when that rendering fails.
pub fn print_task_description(task: &Task) -> (r: Result<Vec<EscposCommand>, ReceiptError>)
    ensures
        match r {
            Ok(cmds) => crate::datatypes::html_text(task.description@, 42) is Some && cmds_view(cmds@)
                == description_cmds(crate::datatypes::html_text(task.description@, 42)->Some_0),
            Err(e) => e == ReceiptError::DescriptionNotRendered && crate::datatypes::html_text(
                task.description@,
                42,
            ) is None,
        },
{
    match task.description_as_text(42) {
        Some(text) => Ok(description_block(text.as_str())),
        None => Err(ReceiptError::DescriptionNotRendered),
    }
}

/// The due date as printed (see `due_text`), from the date as given and
/// its local rendering, when it parsed.
pub fn due_date_text(due: &str, local: Option<String>) -> (r: String)
    ensures
        r@ == due_text(due@, opt_str_view(local)),
{
    let d = chars_of(due);
    let zero = chars_of("0001-01-01");
    if starts_with_exec(&d, &zero) {
        owned("No due date")
    } else {
        match local {
            Some(t) => t,
            None => owned(due),
        }
    }
}

/// The "Due Date:" block with the given text.
pub fn due_block(text: &str) -> (r: Vec<EscposCommand>)
    ensures
        cmds_view(r@) == due_cmds(text@),
{
    let r = vec![
        EscposCommand::Feed,
        EscposCommand::Bold(true),
        EscposCommand::Write(owned("Due Date:")),
        EscposCommand::Bold(false),
        EscposCommand::Feed,
        EscposCommand::Justify(Justify::Center),
        EscposCommand::Write(owned(text)),
        EscposCommand::Feed,
        EscposCommand::Justify(Justify::Left),
    ];
    assert(cmds_view(r@) =~= due_cmds(text@));
    r
}

/// The "Due Date:" block of a task: "No due date" for the zero date, else
/// the date in local time when it parses as RFC 3339, else as given.
pub fn print_task_due_date(task: &Task) -> (r: Vec<EscposCommand>)
    ensures
        exists|local: Option<Seq<char>>|
            local_rendering(local, task.due_date@) && cmds_view(r@) == due_cmds(
                #[trigger] due_text(task.due_date@, local),
            ),
{
    let local = local_minute_text(task.due_date.as_str());
    let ghost lv = opt_str_view(local);
    let text = due_date_text(task.due_date.as_str(), local);
    let r = due_block(text.as_str());
    assert(cmds_view(r@) == due_cmds(due_text(task.due_date@, lv)));
    r
}

/// The "Labels:" block of a task: one `- title` line per label when it has
/// any, then a feed.
pub fn print_task_labels(task: &Task) -> (r: Vec<EscposCommand>)
    ensures
        cmds_view(r@) == labels_cmds(task.labels),
{
    let mut r: Vec<EscposCommand> = Vec::new();
    match &task.labels {
        Some(labels) => {
            if labels.len() > 0 {
                r.push(EscposCommand::Bold(true));
                r.push(EscposCommand::Writeln(owned("Labels:")));
                r.push(EscposCommand::Bold(false));
                r.push(EscposCommand::Justify(Justify::Center));
                let ghost head = cmds_view(r@);
                assert(head =~= seq![
                    Cmd::Bold(true),
                    Cmd::Writeln("Labels:"@),
                    Cmd::Bold(false),
                    Cmd::Justify(Justify::Center),
                ]);
                let mut i: usize = 0;
                while i < labels.len()
                    invariant
                        i <= labels@.len(),
                        cmds_view(r@) == head + label_lines(labels@.take(i as int)),
                    decreases labels@.len() - i,
                {
                    let mut line = chars_of("- ");
                    let t = chars_of(labels[i].title.as_str());
                    append(&mut line, &t);
                    let ghost b = r@;
                    let cmd = EscposCommand::Writeln(string_of(&line));
                    r.push(cmd);
                    assert(cmds_view(r@) =~= cmds_view(b).push(cmd_view(cmd)));
                    i += 1;
                    assert(label_lines(labels@.take(i as int)) =~= label_lines(labels@.take(i - 1)).push(
                        Cmd::Writeln("- "@ + labels@[i - 1].title@),
                    ));
                    assert(cmds_view(r@) =~= head + label_lines(labels@.take(i as int)));
                }
                assert(labels@.take(labels@.len() as int) =~= labels@);
            }
        },
        None => {},
    }
    let ghost listed = cmds_view(r@);
    r.push(EscposCommand::Feed);
    r.push(EscposCommand::Justify(Justify::Left));
    assert(cmds_view(r@) =~= listed + seq![Cmd::Feed, Cmd::Justify(Justify::Left)]);
    r
}

/// The receipt of a task, from its description text, the local rendering
/// of its due date (when it parsed) and the time of printing.
#[verifier::rlimit(30)]
pub fn task_receipt(
    task: &Task,
    base_url: &str,
    description: &str,
    due_local: Option<String>,
    now: &str,
) -> (r: Vec<EscposCommand>)
    ensures
        cmds_view(r@) == task_cmds(*task, base_url@, description@, opt_str_view(due_local), now@),
{
    let ghost lv = opt_str_view(due_local);
    let mut r = vec![EscposCommand::Init];
    extend_cmds(&mut r, print_task_qrcode(task, base_url));
    extend_cmds(&mut r, print_header("--- Task ---"));
    extend_cmds(&mut r, print_task_title(task));
    extend_cmds(&mut r, description_block(description));
    let due = due_date_text(task.due_date.as_str(), due_local);
    extend_cmds(&mut r, due_block(due.as_str()));
    extend_cmds(&mut r, print_task_labels(task));
    extend_cmds(&mut r, print_footer("--- End Task ---", now));
    extend_cmds(&mut r, vec![EscposCommand::PrintCut]);
    assert(cmds_view(r@) =~= task_cmds(*task, base_url@, description@, lv, now@));
    r
}

/// The receipt of a task on the server at `base_url`, printed now: its
/// description rendered at 42 columns, its due date in local time.
/// `Err` when the description cannot be rendered.
pub fn print_task(task: &Task, base_url: &str) -> (r: Result<Vec<EscposCommand>, ReceiptError>)
    ensures
        match r {
            Ok(cmds) => crate::datatypes::html_text(task.description@, 42) is Some && exists|
                local: Option<Seq<char>>,
                now: Seq<char>,
            |
                local_rendering(local, task.due_date@) && is_stamp_text(now) && cmds_view(cmds@) == #[trigger] task_cmds(
                    *task,
                    base_url@,
                    crate::datatypes::html_text(task.description@, 42)->Some_0,
                    local,
                    now,
                ),
            Err(e) => e == ReceiptError::DescriptionNotRendered && crate::datatypes::html_text(
                task.description@,
                42,
            ) is None,
        },
{
    let text = match task.description_as_text(42) {
        Some(t) => t,
        None => return Err(ReceiptError::DescriptionNotRendered),
    };
    let local = local_minute_text(task.due_date.as_str());
    let ghost lv = opt_str_view(local);
    let now = now_stamp_text();
    let r = task_receipt(task, base_url, text.as_str(), local, now.as_str());
    assert(crate::datatypes::html_text(task.description@, 42)->Some_0 == text@);
    assert(cmds_view(r@) == task_cmds(
        *task,
        base_url@,
        crate::datatypes::html_text(task.description@, 42)->Some_0,
        lv,
        now@,
    ));
    Ok(r)
}

/// The day of the summary, centered.
pub fn print_summary_datetime(day: &str) -> (r: Vec<EscposCommand>)
    ensures
        cmds_view(r@) == summary_day_cmds(day@),
{
    let r = vec![
        EscposCommand::Justify(Justify::Center),
        EscposCommand::Writeln(owned(day)),
        EscposCommand::Feed,
        EscposCommand::Justify(Justify::Left),
    ];
    assert(cmds_view(r@) =~= summary_day_cmds(day@));
    r
}

/// The task list of the daily summary: one `- title` line and a feed per
/// task, or "No tasks for today.".
#[verifier::rlimit(30)]
pub fn print_summary_tasks(tasks: &[Task]) -> (r: Vec<EscposCommand>)
    ensures
        cmds_view(r@) == summary_task_cmds(tasks@),
{
    let mut r = vec![EscposCommand::Justify(Justify::Center), EscposCommand::ResetSize];
    let ghost head = cmds_view(r@);
    assert(head =~= seq![Cmd::Justify(Justify::Center), Cmd::ResetSize]);
    if tasks.len() == 0 {
        r.push(EscposCommand::Writeln(owned("No tasks for today.")));
        assert(cmds_view(r@) =~= head + seq![Cmd::Writeln("No tasks for today."@)]);
    } else {
        let mut i: usize = 0;
        assert(tasks@.take(0) =~= Seq::<Task>::empty());
        while i < tasks.len()
            invariant
                i <= tasks@.len(),
                cmds_view(r@) == head + summary_lines(tasks@.take(i as int)),
            decreases tasks@.len() - i,
        {
            let mut line = chars_of("- ");
            let t = chars_of(tasks[i].title.as_str());
            append(&mut line, &t);
            let ghost b = cmds_view(r@);
            r.push(EscposCommand::Writeln(string_of(&line)));
            r.push(EscposCommand::Feed);
            i += 1;
            let ghost post = tasks@.take(i as int);
            assert(post.drop_last() =~= tasks@.take(i - 1));
            assert(post.last() == tasks@[i - 1]);
            assert(cmds_view(r@) =~= b + seq![Cmd::Writeln("- "@ + tasks@[i - 1].title@), Cmd::Feed]);
        }
        assert(tasks@.take(tasks@.len() as int) =~= tasks@);
    }
    r
}

/// The daily summary receipt, from the day and the time of printing.
pub fn summary_receipt(tasks: &[Task], day: &str, now: &str) -> (r: Vec<EscposCommand>)
    ensures
        cmds_view(r@) == summary_cmds(tasks@, day@, now@),
{
    let mut r = vec![EscposCommand::Init];
    extend_cmds(&mut r, print_header("--- Daily Summary ---"));
    extend_cmds(&mut r, print_summary_datetime(day));
    extend_cmds(&mut r, print_summary_tasks(tasks));
    extend_cmds(&mut r, print_footer("--- End Summary ---", now));
    extend_cmds(&mut r, vec![EscposCommand::PrintCut]);
    assert(cmds_view(r@) =~= summary_cmds(tasks@, day@, now@));
    r
}

/// The daily summary receipt of `tasks`, printed today.
pub fn print_daily_summary(tasks: &[Task]) -> (r: Vec<EscposCommand>)
    ensures
        exists|day: Seq<char>, now: Seq<char>|
            is_day_text(day) && is_stamp_text(now) && cmds_view(r@) == #[trigger] summary_cmds(tasks@, day, now),
{
    let day = now_day_text();
    let now = now_stamp_text();
    let r = summary_receipt(tasks, day.as_str(), now.as_str());
    assert(cmds_view(r@) == summary_cmds(tasks@, day@, now@));
    r
}

} // verus!
