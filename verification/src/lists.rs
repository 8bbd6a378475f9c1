//! General lists (groups of named lists of items) and the printed ticket of
//! one list. The lists are kept in the database by the program; this module
//! holds their records and decides what a printed list looks like.
use vstd::prelude::*;
use crate::date::is_list_time_text;
use crate::printer::{PrintJob, PrinterLibError};
use crate::text::{chars_of, string_of, append_str, u64_digits, decimal, str_views};

verus! {

/// Errors of the lists subsystem.
#[derive(Debug)]
pub enum ListsLibError {
    CannotInitialize(String),
    GroupNotFound(i64),
    CategoryNotFound(i64),
    ItemNotFound(i64),
    /// A database error, by its message.
    Db(String),
    Print(PrinterLibError),
    Unknown,
}

/// A specialized `Result` type for lists operations.
pub type ListsLibResult<T = ()> = Result<T, ListsLibError>;

/// A top-level group of lists (such as "Shopping Lists").
#[derive(Debug, Clone)]
pub struct ListGroup {
    pub id: i64,
    pub name: String,
}

/// A named list within a group (such as "Groceries").
#[derive(Debug, Clone)]
pub struct ListCategory {
    pub id: i64,
    pub group_id: i64,
    pub name: String,
    pub has_checkboxes: bool,
    pub has_quick_add: bool,
}

/// A saved item template of a list, for adding it again quickly.
#[derive(Debug, Clone)]
pub struct CommonItem {
    pub id: i64,
    pub category_id: i64,
    pub name: String,
    pub quantity: Option<String>,
}

/// Counts over all lists.
#[derive(Debug, Clone, Copy)]
pub struct ListStats {
    pub groups: usize,
    pub lists: usize,
    pub items: usize,
    /// Items not yet checked off.
    pub items_pending: usize,
}

impl ListStats {
    /// All counts zero.
    pub fn default() -> (r: Self)
        ensures
            r.groups == 0 && r.lists == 0 && r.items == 0 && r.items_pending == 0,
    {
        ListStats { groups: 0, lists: 0, items: 0, items_pending: 0 }
    }
}

/// What a printed list shows of one item.
#[derive(Debug, Clone)]
pub struct ListEntry {
    /// The item's name, such as "Milk".
    pub name: String,
    /// Its quantity or unit, such as "2L".
    pub quantity: Option<String>,
    /// Whether it was ticked off.
    pub checked: bool,
}

/// The plain value of an entry.
pub open spec fn entry_view(e: ListEntry) -> (Seq<char>, Option<Seq<char>>, bool) {
    (
        e.name@,
        match e.quantity {
            Some(q) => Some(q@),
            None => None,
        },
        e.checked,
    )
}

/// The printed line of an item: `[x] name (quantity)`, with `[ ]` for an
/// item not ticked off and no brackets at the end when there is no
/// quantity.
pub open spec fn item_line(e: (Seq<char>, Option<Seq<char>>, bool)) -> Seq<char> {
    let marker = if e.2 {
        "[x]"@
    } else {
        "[ ]"@
    };
    match e.1 {
        Some(q) => marker + " "@ + e.0 + " ("@ + q + ")"@,
        None => marker + " "@ + e.0,
    }
}

/// The printed line of an item.
pub fn format_item(item: &ListEntry) -> (r: String)
    ensures
        r@ == item_line(entry_view(*item)),
{
    let mut v: Vec<char> = if item.checked {
        chars_of("[x]")
    } else {
        chars_of("[ ]")
    };
    append_str(&mut v, " ");
    append_str(&mut v, item.name.as_str());
    match &item.quantity {
        Some(q) => {
            append_str(&mut v, " (");
            append_str(&mut v, q.as_str());
            append_str(&mut v, ")");
        },
        None => {},
    }
    string_of(&v)
}

/// The lines of the entries that are (or are not) ticked off, in order.
pub open spec fn lines_where(es: Seq<(Seq<char>, Option<Seq<char>>, bool)>, checked: bool) -> Seq<Seq<char>>
    decreases es.len(),
{
    if es.len() == 0 {
        Seq::empty()
    } else if es.last().2 == checked {
        lines_where(es.drop_last(), checked).push(item_line(es.last()))
    } else {
        lines_where(es.drop_last(), checked)
    }
}

/// Every item of a list is printed once: the items still to get and those
/// ticked off together are all the items.
pub proof fn lemma_every_item_printed_once(es: Seq<(Seq<char>, Option<Seq<char>>, bool)>)
    ensures
        lines_where(es, false).len() + lines_where(es, true).len() == es.len(),
    decreases es.len(),
{
    if es.len() > 0 {
        lemma_every_item_printed_once(es.drop_last());
    }
}

/// `n` dashes.
pub open spec fn dashes(n: nat) -> Seq<char> {
    Seq::new(n, |i: int| '-')
}

/// The origin line of a printed list: `1 item remaining`, `3 items
/// remaining`.
pub open spec fn remaining_text(n: nat) -> Seq<char> {
    decimal(n) + " item"@ + (if n == 1 {
        ""@
    } else {
        "s"@
    }) + " remaining"@
}

/// The body of a printed list: the items not ticked off; then, when some
/// are ticked off, a blank line, a separator, `Already obtained:` and
/// those items; then a blank line, a separator and the print time.
pub open spec fn list_lines(es: Seq<(Seq<char>, Option<Seq<char>>, bool)>, width: nat, printed: Seq<char>) -> Seq<
    Seq<char>,
> {
    let pending = lines_where(es, false);
    let done = lines_where(es, true);
    let middle = if done.len() == 0 {
        Seq::<Seq<char>>::empty()
    } else {
        seq![Seq::<char>::empty(), dashes(width), "Already obtained:"@] + done
    };
    pending + middle + seq![Seq::<char>::empty(), dashes(width), "Printed: "@ + printed]
}

/// The plain values of the entries.
pub open spec fn entry_views(es: Seq<ListEntry>) -> Seq<(Seq<char>, Option<Seq<char>>, bool)> {
    es.map_values(|e: ListEntry| entry_view(e))
}

/// The plain value of a print job: origin, title, lines.
pub open spec fn job_view(j: PrintJob) -> (Seq<char>, Seq<char>, Seq<Seq<char>>) {
    (j.origin@, j.title@, str_views(j.lines@))
}

/// The ticket of a list: origin `N item(s) remaining` counting the items
/// not ticked off, title `title_prefix` followed by the list's name in
/// capitals, and the body of `list_lines`.
pub open spec fn list_job(
    title_prefix: Seq<char>,
    upper_name: Seq<char>,
    es: Seq<(Seq<char>, Option<Seq<char>>, bool)>,
    width: nat,
    printed: Seq<char>,
) -> (Seq<char>, Seq<char>, Seq<Seq<char>>) {
    (remaining_text(lines_where(es, false).len()), title_prefix + upper_name, list_lines(es, width, printed))
}

/// The text of `s` in capitals (`str::to_uppercase`).
pub uninterp spec fn uppercase(s: Seq<char>) -> Seq<char>;

/// The ASCII capital of a character; others are unchanged.
pub open spec fn ascii_upper(c: char) -> char {
    if 'a' <= c <= 'z' {
        ((c as u32) - 32) as char
    } else {
        c
    }
}

/// `str::to_uppercase`, whose result is named `uppercase`. Unicode's
/// upper case of an ASCII text is its ASCII upper case, and that much is
/// stated; of other texts nothing more is.
#[verifier::external_body]
fn to_uppercase(s: &str) -> (r: String)
    ensures
        r@ == uppercase(s@),
        (forall|i: int| 0 <= i < s@.len() ==> (s@[i] as u32) < 128) ==> r@ == s@.map_values(
            |c: char| ascii_upper(c),
        ),
{
    s.to_uppercase()
}

/// `n` dashes, as a string.
fn dash_line(n: usize) -> (r: String)
    ensures
        r@ == dashes(n as nat),
{
    let mut v: Vec<char> = Vec::new();
    let mut i: usize = 0;
    while i < n
        invariant
            i <= n,
            v@ == dashes(i as nat),
        decreases n - i,
    {
        v.push('-');
        i += 1;
        assert(v@ =~= dashes(i as nat));
    }
    string_of(&v)
}

/// The lines of the entries ticked off (or not), as strings.
fn lines_of(items: &Vec<ListEntry>, checked: bool) -> (r: Vec<String>)
    ensures
        str_views(r@) == lines_where(entry_views(items@), checked),
{
    let mut r: Vec<String> = Vec::new();
    let mut i: usize = 0;
    while i < items.len()
        invariant
            i <= items@.len(),
            str_views(r@) == lines_where(entry_views(items@.subrange(0, i as int)), checked),
        decreases items@.len() - i,
    {
        let ghost es = entry_views(items@.subrange(0, i + 1));
        assert(es.drop_last() =~= entry_views(items@.subrange(0, i as int)));
        assert(es.last() == entry_view(items@[i as int]));
        if items[i].checked == checked {
            let line = format_item(&items[i]);
            let ghost before = r@;
            r.push(line);
            assert(str_views(r@) =~= str_views(before).push(line@));
        }
        i += 1;
    }
    assert(items@.subrange(0, items@.len() as int) =~= items@);
    r
}

/// Appends `b`'s strings to `a`.
fn extend(a: &mut Vec<String>, b: Vec<String>)
    ensures
        str_views(final(a)@) == str_views(old(a)@) + str_views(b@),
{
    let ghost start = a@;
    let mut i: usize = 0;
    while i < b.len()
        invariant
            i <= b@.len(),
            str_views(a@) == str_views(start) + str_views(b@.subrange(0, i as int)),
        decreases b@.len() - i,
    {
        let ghost before = a@;
        a.push(b[i].clone());
        assert(str_views(a@) =~= str_views(before).push(b@[i as int]@));
        assert(str_views(b@.subrange(0, i + 1)) =~= str_views(b@.subrange(0, i as int)).push(b@[i as int]@));
        i += 1;
    }
    assert(b@.subrange(0, b@.len() as int) =~= b@);
}

/// The ticket of a list, printed at the time `printed`: see `list_job`.
pub fn list_print_job(title_prefix: &str, category_name: &str, items: &Vec<ListEntry>, width: usize, printed: &str) -> (r:
    PrintJob)
    ensures
        job_view(r) == list_job(title_prefix@, uppercase(category_name@), entry_views(items@), width as nat, printed@),
{
    let pending = lines_of(items, false);
    let done = lines_of(items, true);
    let n = pending.len();
    let mut origin = u64_digits(n as u64);
    append_str(&mut origin, " item");
    if n != 1 {
        append_str(&mut origin, "s");
    }
    append_str(&mut origin, " remaining");
    let ghost es = entry_views(items@);
    proof {
        reveal_strlit("");
        assert(n as nat == lines_where(es, false).len());
        assert(origin@ =~= remaining_text(n as nat));
    }
    let sep = dash_line(width);
    let mut lines: Vec<String> = Vec::new();
    extend(&mut lines, pending);
    if done.len() > 0 {
        let mut middle: Vec<String> = Vec::new();
        middle.push(String::new());
        middle.push(dash_line(width));
        middle.push(string_of(&chars_of("Already obtained:")));
        extend(&mut middle, done);
        extend(&mut lines, middle);
    }
    let mut tail: Vec<String> = Vec::new();
    tail.push(String::new());
    tail.push(sep);
    let mut stamp = chars_of("Printed: ");
    append_str(&mut stamp, printed);
    tail.push(string_of(&stamp));
    extend(&mut lines, tail);
    let mut title = chars_of(title_prefix);
    let upper = to_uppercase(category_name);
    append_str(&mut title, upper.as_str());
    proof {
        let spec_lines = list_lines(es, width as nat, printed@);
        assert(str_views(lines@) =~= spec_lines);
    }
    PrintJob::new(string_of(&origin), string_of(&title), lines)
}

/// The local time as a printed list shows it (`%a %d %b %Y  %H:%M`, such
/// as `Tue 03 Mar 2026  14:05`), from `chrono::Local::now`: the text of
/// some valid date and time of day. Which date and time is the clock's and
/// the time zone's.
#[verifier::external_body]
fn printed_now_text() -> (r: String)
    ensures
        is_list_time_text(r@),
{
    chrono::Local::now().format("%a %d %b %Y  %H:%M").to_string()
}

/// The ticket of a list, printed now: `list_job` at the current local
/// time.
pub fn print_job_now(title_prefix: &str, category_name: &str, items: &Vec<ListEntry>, width: usize) -> (r: PrintJob)
    ensures
        exists|printed: Seq<char>|
            is_list_time_text(printed) && job_view(r) == list_job(
                title_prefix@,
                uppercase(category_name@),
                entry_views(items@),
                width as nat,
                printed,
            ),
{
    let now = printed_now_text();
    list_print_job(title_prefix, category_name, items, width, now.as_str())
}

/// The ticket of a general list, titled `LIST: ` and the list's name in
/// capitals, printed now.
pub fn print_list(category_name: &str, items: &Vec<ListEntry>, width: usize) -> (r: PrintJob)
    ensures
        exists|printed: Seq<char>|
            is_list_time_text(printed) && job_view(r) == list_job("LIST: "@, uppercase(category_name@), entry_views(items@), width as nat, printed),
{
    print_job_now("LIST: ", category_name, items, width)
}

} // verus!
