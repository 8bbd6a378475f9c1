//! Reads recurring items, recurring transfers and accounts back out of the
//! journal's raw text. hledger has no command that lists raw periodic
//! rules, so the blocks this library writes are parsed here; only blocks in
//! the exact shape the writer produces are recognised.
use vstd::prelude::*;
use crate::date::opt_date_view;
use crate::finances::models::{RecurringItem, RecurringTransfer, Account, SpendingCategory, TxnKind, Frequency, AccountKind, category_of_tag, kind_of_prefix, period_of, parse_period_phrase};
use crate::finances::money::{hundredths_of, parse_hundredths};
use crate::text::{lines, blank, trim, trim_start, starts_with, strip_prefix, strip_suffix, split_once, rfind, find, split, split_ws, contains, views, chars_of, string_of, copy_of, lines_exec, is_blank, trim_exec, trim_start_exec, starts_with_exec, strip_prefix_exec, strip_suffix_exec, split_once_exec, rfind_exec, find_exec, split_exec, split_whitespace_exec, skip_from, subvec, lemma_views_push, lemma_rfind_bounds, lemma_find_bounds};

verus! {

// ---------------------------------------------------------------------------
// Pieces of a block
// ---------------------------------------------------------------------------

/// The lines of `ls` that are not blank, in order.
pub open spec fn non_blank(ls: Seq<Seq<char>>) -> Seq<Seq<char>>
    decreases ls.len(),
{
    if ls.len() == 0 {
        seq![]
    } else if blank(ls.last()) {
        non_blank(ls.drop_last())
    } else {
        non_blank(ls.drop_last()).push(ls.last())
    }
}

/// The first whitespace-separated word of a line.
pub open spec fn first_word(l: Seq<char>) -> Option<Seq<char>> {
    if split_ws(l).len() > 0 {
        Some(split_ws(l)[0])
    } else {
        None
    }
}

/// The amount of a posting line: the number after its first `$`.
pub open spec fn posting_amount(l: Seq<char>) -> Option<int> {
    match find(l, "$"@) {
        Some(i) => hundredths_of(trim(l.skip(i + 1))),
        None => None,
    }
}

/// The amount of the first of two posting lines that has one.
pub open spec fn either_amount(p1: Seq<char>, p2: Seq<char>) -> Option<int> {
    match posting_amount(p1) {
        Some(x) => Some(x),
        None => posting_amount(p2),
    }
}

/// The non-blank lines of a block.
fn non_blank_lines(block: &[char]) -> (r: Vec<Vec<char>>)
    ensures
        views(r@) == non_blank(lines(block@)),
{
    let ls = lines_exec(block);
    let ghost all = views(ls@);
    let mut r: Vec<Vec<char>> = Vec::new();
    let mut i: usize = 0;
    while i < ls.len()
        invariant
            i <= ls@.len(),
            all == views(ls@),
            views(r@) == non_blank(all.take(i as int)),
        decreases ls@.len() - i,
    {
        let ghost pre = all.take(i as int);
        let ghost post = all.take(i + 1);
        assert(post.drop_last() =~= pre);
        assert(post.last() == ls@[i as int]@);
        if !is_blank(&ls[i]) {
            let l = copy_of(&ls[i]);
            let ghost rb = r@;
            r.push(l);
            proof {
                lemma_views_push(rb, l);
            }
        }
        i += 1;
    }
    assert(all.take(ls@.len() as int) =~= all);
    r
}

/// The account of a posting line: its first word.
fn parse_account(l: &[char]) -> (r: Option<Vec<char>>)
    ensures
        match r {
            Some(w) => first_word(l@) == Some(w@),
            None => first_word(l@) is None,
        },
{
    let ws = split_whitespace_exec(l);
    if ws.len() > 0 {
        assert(views(ws@)[0] == ws@[0]@);
        Some(copy_of(&ws[0]))
    } else {
        None
    }
}

/// The amount of a posting line.
fn posting_amount_exec(l: &[char]) -> (r: Option<i64>)
    ensures
        match r {
            Some(x) => posting_amount(l@) == Some(x as int),
            None => posting_amount(l@) is None,
        },
{
    let dollar = chars_of("$");
    let n = l.len();
    match find_exec(l, &dollar) {
        Some(i) => {
            proof {
                reveal_strlit("$");
                lemma_find_bounds(l@, "$"@);
                assert(find(l@, "$"@) == Some(i as int));
                assert(i + 1 <= l@.len());
            }
            let rest = skip_from(l, i + 1);
            parse_hundredths(&trim_exec(&rest))
        },
        None => None,
    }
}

/// The amount of the first of two posting lines that has one.
fn either_amount_exec(p1: &[char], p2: &[char]) -> (r: Option<i64>)
    ensures
        match r {
            Some(x) => either_amount(p1@, p2@) == Some(x as int),
            None => either_amount(p1@, p2@) is None,
        },
{
    match posting_amount_exec(p1) {
        Some(x) => Some(x),
        None => posting_amount_exec(p2),
    }
}

/// The header of a periodic rule split into its period, read back, and
/// its comment without the leading `id:`: (frequency, reference date, the
/// text after `id:`).
pub open spec fn rule_header(line: Seq<char>) -> Option<(Frequency, Option<(int, int, int)>, Seq<char>)> {
    match strip_prefix(trim(line), "~ "@) {
        None => None,
        Some(h) => match split_once(h, "; "@) {
            None => None,
            Some((period, comment)) => match period_of(trim(period)) {
                None => None,
                Some((f, rd)) => match strip_prefix(trim(comment), "id:"@) {
                    None => None,
                    Some(c) => Some((f, rd, c)),
                },
            },
        },
    }
}

#[verifier::rlimit(30)]
fn rule_header_exec(line: &[char]) -> (r: Option<(Frequency, Option<crate::date::Date>, Vec<char>)>)
    ensures
        match r {
            Some((f, rd, c)) => rule_header(line@) == Some((f, opt_date_view(rd), c@)),
            None => rule_header(line@) is None,
        },
{
    let t = trim_exec(line);
    let h = match strip_prefix_exec(&t, &chars_of("~ ")) {
        Some(h) => h,
        None => return None,
    };
    let (period, comment) = match split_once_exec(&h, &chars_of("; ")) {
        Some(p) => p,
        None => return None,
    };
    let ps = string_of(&trim_exec(&period));
    let (f, rd) = match parse_period_phrase(ps.as_str()) {
        Some(p) => p,
        None => return None,
    };
    let ct = trim_exec(&comment);
    match strip_prefix_exec(&ct, &chars_of("id:")) {
        Some(c) => Some((f, rd, c)),
        None => None,
    }
}

// ---------------------------------------------------------------------------
// Recurring items
// ---------------------------------------------------------------------------

/// A recurring item as plain values.
pub struct ItemView {
    pub id: Seq<char>,
    pub name: Seq<char>,
    pub amount: int,
    pub kind: TxnKind,
    pub label: Seq<char>,
    pub frequency: Frequency,
    pub reference_date: Option<(int, int, int)>,
    pub account: Seq<char>,
    pub category: Option<SpendingCategory>,
}

pub open spec fn item_view(x: RecurringItem) -> ItemView {
    ItemView {
        id: x.id@,
        name: x.name@,
        amount: x.amount as int,
        kind: x.kind,
        label: x.label@,
        frequency: x.frequency,
        reference_date: opt_date_view(x.reference_date),
        account: x.account@,
        category: x.category,
    }
}

/// The name of an item and its category: a trailing ` category:{tag}`
/// (found from the right, so the name itself may contain the words) with a
/// known tag is the category, and the text before it the name.
pub open spec fn name_and_category(remaining: Seq<char>) -> (Seq<char>, Option<SpendingCategory>) {
    match rfind(remaining, " category:"@) {
        Some(idx) => match category_of_tag(trim(remaining.skip(idx + 10))) {
            Some(cat) => (trim(remaining.take(idx)), Some(cat)),
            None => (remaining, None),
        },
        None => (remaining, None),
    }
}

/// The recurring item a journal block holds, if it holds one in the shape
/// the writer produces: a header with the period, id, name and optional
/// category, then two posting lines of which one is `expenses:{label}`
/// (an expense) or the second is `income:{label}` (income); the other leg
/// is the account, and the amount is the first posting amount found.
pub open spec fn block_item(block: Seq<char>) -> Option<ItemView> {
    let ls = non_blank(lines(block));
    if ls.len() < 3 {
        None
    } else {
        match rule_header(ls[0]) {
            None => None,
            Some((f, rd, c)) => match split_once(c, " name:"@) {
                None => None,
                Some((idp, rest)) => {
                    let nc = name_and_category(trim(rest));
                    let p1 = trim(ls[1]);
                    let p2 = trim(ls[2]);
                    match (first_word(p1), first_word(p2), either_amount(p1, p2)) {
                        (Some(a1), Some(a2), Some(amount)) => if starts_with(a1, "expenses:"@) {
                            Some(
                                ItemView {
                                    id: trim(idp),
                                    name: nc.0,
                                    amount,
                                    kind: TxnKind::Expense,
                                    label: a1.skip(9),
                                    frequency: f,
                                    reference_date: rd,
                                    account: a2,
                                    category: nc.1,
                                },
                            )
                        } else if starts_with(a2, "income:"@) {
                            Some(
                                ItemView {
                                    id: trim(idp),
                                    name: nc.0,
                                    amount,
                                    kind: TxnKind::Income,
                                    label: a2.skip(7),
                                    frequency: f,
                                    reference_date: rd,
                                    account: a1,
                                    category: nc.1,
                                },
                            )
                        } else {
                            None
                        },
                        _ => None,
                    }
                },
            },
        }
    }
}

/// The recurring items of a journal's blocks: those that start (after
/// leading whitespace) with `~ ` and hold an item.
pub open spec fn items_of(bs: Seq<Seq<char>>) -> Seq<ItemView>
    decreases bs.len(),
{
    if bs.len() == 0 {
        seq![]
    } else {
        let rest = items_of(bs.drop_last());
        if starts_with(trim_start(bs.last()), "~ "@) {
            match block_item(bs.last()) {
                Some(x) => rest.push(x),
                None => rest,
            }
        } else {
            rest
        }
    }
}

fn name_and_category_exec(remaining: &[char]) -> (r: (Vec<char>, Option<SpendingCategory>))
    ensures
        (r.0@, r.1) == name_and_category(remaining@),
{
    let tag = chars_of(" category:");
    let n = remaining.len();
    proof {
        reveal_strlit(" category:");
    }
    match rfind_exec(remaining, &tag) {
        Some(idx) => {
            proof {
                lemma_rfind_bounds(remaining@, " category:"@);
                assert(rfind(remaining@, " category:"@) == Some(idx as int));
                assert(idx + 10 <= remaining@.len());
            }
            let after = skip_from(remaining, idx + 10);
            let t = string_of(&trim_exec(&after));
            match SpendingCategory::from_tag(t.as_str()) {
                Some(cat) => {
                    let before = subvec(remaining, 0, idx);
                    assert(before@ =~= remaining@.take(idx as int));
                    (trim_exec(&before), Some(cat))
                },
                None => (copy_of(remaining), None),
            }
        },
        None => (copy_of(remaining), None),
    }
}

/// Reads one journal block as a recurring item (see `block_item`).
#[verifier::rlimit(30)]
pub fn parse_block(block: &[char]) -> (r: Option<RecurringItem>)
    ensures
        match r {
            Some(x) => block_item(block@) == Some(item_view(x)),
            None => block_item(block@) is None,
        },
{
    let ls = non_blank_lines(block);
    if ls.len() < 3 {
        return None;
    }
    assert(views(ls@)[0] == ls@[0]@);
    assert(views(ls@)[1] == ls@[1]@);
    assert(views(ls@)[2] == ls@[2]@);
    let (frequency, reference_date, c) = match rule_header_exec(&ls[0]) {
        Some(h) => h,
        None => return None,
    };
    let (idp, rest) = match split_once_exec(&c, &chars_of(" name:")) {
        Some(p) => p,
        None => return None,
    };
    let (name, category) = name_and_category_exec(&trim_exec(&rest));
    let p1 = trim_exec(&ls[1]);
    let p2 = trim_exec(&ls[2]);
    let a1 = match parse_account(&p1) {
        Some(w) => w,
        None => return None,
    };
    let a2 = match parse_account(&p2) {
        Some(w) => w,
        None => return None,
    };
    let amount = match either_amount_exec(&p1, &p2) {
        Some(x) => x,
        None => return None,
    };
    proof {
        reveal_strlit("expenses:");
        reveal_strlit("income:");
    }
    let (kind, label, account) = if starts_with_exec(&a1, &chars_of("expenses:")) {
        (TxnKind::Expense, skip_from(&a1, 9), a2)
    } else if starts_with_exec(&a2, &chars_of("income:")) {
        (TxnKind::Income, skip_from(&a2, 7), a1)
    } else {
        return None;
    };
    Some(
        RecurringItem {
            id: string_of(&trim_exec(&idp)),
            name: string_of(&name),
            amount,
            kind,
            label: string_of(&label),
            frequency,
            reference_date,
            account: string_of(&account),
            category,
        },
    )
}

/// The blocks of a journal text.
fn blocks_of(content: &str) -> (r: Vec<Vec<char>>)
    ensures
        views(r@) == split(content@, "\n\n"@),
{
    let c = chars_of(content);
    let sep = vec!['\n', '\n'];
    proof {
        reveal_strlit("\n\n");
    }
    assert(sep@ =~= "\n\n"@);
    split_exec(&c, &sep)
}

/// Every recurring item of a journal text, in order: the blocks (between
/// blank lines) that start with `~ ` and read as an item.
#[verifier::rlimit(30)]
pub fn parse_recurring_items(content: &str) -> (r: Vec<RecurringItem>)
    ensures
        r@.map_values(|x: RecurringItem| item_view(x)) == items_of(split(content@, "\n\n"@)),
{
    let blocks = blocks_of(content);
    let ghost bs = views(blocks@);
    let mut r: Vec<RecurringItem> = Vec::new();
    let mut i: usize = 0;
    while i < blocks.len()
        invariant
            i <= blocks@.len(),
            bs == views(blocks@),
            r@.map_values(|x: RecurringItem| item_view(x)) == items_of(bs.take(i as int)),
        decreases blocks@.len() - i,
    {
        let ghost pre = bs.take(i as int);
        let ghost post = bs.take(i + 1);
        assert(post.drop_last() =~= pre);
        assert(post.last() == blocks@[i as int]@);
        let t = trim_start_exec(&blocks[i]);
        if starts_with_exec(&t, &chars_of("~ ")) {
            match parse_block(&blocks[i]) {
                Some(x) => {
                    let ghost rb = r@;
                    r.push(x);
                    assert(r@.map_values(|x: RecurringItem| item_view(x)) =~= rb.map_values(
                        |x: RecurringItem| item_view(x),
                    ).push(item_view(x)));
                },
                None => {},
            }
        }
        i += 1;
    }
    assert(bs.take(blocks@.len() as int) =~= bs);
    r
}

// ---------------------------------------------------------------------------
// Recurring transfers
// ---------------------------------------------------------------------------

/// A recurring transfer as plain values.
pub struct TransferView {
    pub id: Seq<char>,
    pub name: Seq<char>,
    pub amount: int,
    pub frequency: Frequency,
    pub reference_date: Option<(int, int, int)>,
    pub from_account: Seq<char>,
    pub to_account: Seq<char>,
}

pub open spec fn transfer_view(x: RecurringTransfer) -> TransferView {
    TransferView {
        id: x.id@,
        name: x.name@,
        amount: x.amount as int,
        frequency: x.frequency,
        reference_date: opt_date_view(x.reference_date),
        from_account: x.from_account@,
        to_account: x.to_account@,
    }
}

/// The recurring transfer a journal block holds: a header with the period,
/// id and a name followed by ` transfer:1`, then two postings; the one with
/// an explicit amount is the `to` account, the other the `from` account.
pub open spec fn block_transfer(block: Seq<char>) -> Option<TransferView> {
    let ls = non_blank(lines(block));
    if ls.len() < 3 {
        None
    } else {
        match rule_header(ls[0]) {
            None => None,
            Some((f, rd, c)) => match split_once(c, " name:"@) {
                None => None,
                Some((idp, rest)) => match strip_suffix(rest, " transfer:1"@) {
                    None => None,
                    Some(nm) => {
                        let p1 = trim(ls[1]);
                        let p2 = trim(ls[2]);
                        match (first_word(p1), first_word(p2), either_amount(p1, p2)) {
                            (Some(a1), Some(a2), Some(amount)) => {
                                let first_has = posting_amount(p1) is Some;
                                Some(
                                    TransferView {
                                        id: trim(idp),
                                        name: trim(nm),
                                        amount,
                                        frequency: f,
                                        reference_date: rd,
                                        from_account: if first_has {
                                            a2
                                        } else {
                                            a1
                                        },
                                        to_account: if first_has {
                                            a1
                                        } else {
                                            a2
                                        },
                                    },
                                )
                            },
                            _ => None,
                        }
                    },
                },
            },
        }
    }
}

/// The recurring transfers of a journal's blocks: those that start with
/// `~ `, contain `transfer:1` and read as a transfer.
pub open spec fn transfers_of(bs: Seq<Seq<char>>) -> Seq<TransferView>
    decreases bs.len(),
{
    if bs.len() == 0 {
        seq![]
    } else {
        let rest = transfers_of(bs.drop_last());
        if starts_with(trim_start(bs.last()), "~ "@) && contains(bs.last(), "transfer:1"@) {
            match block_transfer(bs.last()) {
                Some(x) => rest.push(x),
                None => rest,
            }
        } else {
            rest
        }
    }
}

/// Reads one journal block as a recurring transfer (see `block_transfer`).
#[verifier::rlimit(30)]
pub fn parse_recurring_transfer_block(block: &[char]) -> (r: Option<RecurringTransfer>)
    ensures
        match r {
            Some(x) => block_transfer(block@) == Some(transfer_view(x)),
            None => block_transfer(block@) is None,
        },
{
    let ls = non_blank_lines(block);
    if ls.len() < 3 {
        return None;
    }
    assert(views(ls@)[0] == ls@[0]@);
    assert(views(ls@)[1] == ls@[1]@);
    assert(views(ls@)[2] == ls@[2]@);
    let (frequency, reference_date, c) = match rule_header_exec(&ls[0]) {
        Some(h) => h,
        None => return None,
    };
    let (idp, rest) = match split_once_exec(&c, &chars_of(" name:")) {
        Some(p) => p,
        None => return None,
    };
    let nm = match strip_suffix_exec(&rest, &chars_of(" transfer:1")) {
        Some(n) => n,
        None => return None,
    };
    let p1 = trim_exec(&ls[1]);
    let p2 = trim_exec(&ls[2]);
    let a1 = match parse_account(&p1) {
        Some(w) => w,
        None => return None,
    };
    let a2 = match parse_account(&p2) {
        Some(w) => w,
        None => return None,
    };
    let amount = match either_amount_exec(&p1, &p2) {
        Some(x) => x,
        None => return None,
    };
    let first_has = posting_amount_exec(&p1).is_some();
    let (to_account, from_account) = if first_has {
        (a1, a2)
    } else {
        (a2, a1)
    };
    Some(
        RecurringTransfer {
            id: string_of(&trim_exec(&idp)),
            name: string_of(&trim_exec(&nm)),
            amount,
            frequency,
            reference_date,
            from_account: string_of(&from_account),
            to_account: string_of(&to_account),
        },
    )
}

/// Every recurring transfer of a journal text, in order.
#[verifier::rlimit(30)]
pub fn parse_recurring_transfers(content: &str) -> (r: Vec<RecurringTransfer>)
    ensures
        r@.map_values(|x: RecurringTransfer| transfer_view(x)) == transfers_of(split(content@, "\n\n"@)),
{
    let blocks = blocks_of(content);
    let ghost bs = views(blocks@);
    let mut r: Vec<RecurringTransfer> = Vec::new();
    let mut i: usize = 0;
    while i < blocks.len()
        invariant
            i <= blocks@.len(),
            bs == views(blocks@),
            r@.map_values(|x: RecurringTransfer| transfer_view(x)) == transfers_of(bs.take(i as int)),
        decreases blocks@.len() - i,
    {
        let ghost pre = bs.take(i as int);
        let ghost post = bs.take(i + 1);
        assert(post.drop_last() =~= pre);
        assert(post.last() == blocks@[i as int]@);
        let t = trim_start_exec(&blocks[i]);
        if starts_with_exec(&t, &chars_of("~ ")) && find_exec(&blocks[i], &chars_of("transfer:1")).is_some() {
            match parse_recurring_transfer_block(&blocks[i]) {
                Some(x) => {
                    let ghost rb = r@;
                    r.push(x);
                    assert(r@.map_values(|x: RecurringTransfer| transfer_view(x)) =~= rb.map_values(
                        |x: RecurringTransfer| transfer_view(x),
                    ).push(transfer_view(x)));
                },
                None => {},
            }
        }
        i += 1;
    }
    assert(bs.take(blocks@.len() as int) =~= bs);
    r
}

// ---------------------------------------------------------------------------
// Accounts
// ---------------------------------------------------------------------------

/// An account as plain values (its balance is never in the journal).
pub struct AccountView {
    pub id: Seq<char>,
    pub name: Seq<char>,
    pub kind: AccountKind,
    pub slug: Seq<char>,
    pub interest_rate: Option<int>,
    pub credit_limit: Option<int>,
}

pub open spec fn account_view(x: Account) -> AccountView {
    AccountView {
        id: x.id@,
        name: x.name@,
        kind: x.kind,
        slug: x.slug@,
        interest_rate: match x.interest_rate {
            Some(v) => Some(v as int),
            None => None,
        },
        credit_limit: match x.credit_limit {
            Some(v) => Some(v as int),
            None => None,
        },
    }
}

/// A trailing numeric tag (` limit:` or ` rate:`), found from the right:
/// the text before it and its value, or the text unchanged and `None` when
/// there is no such tag with a number after it.
pub open spec fn trailing_number(remaining: Seq<char>, tag: Seq<char>) -> (Seq<char>, Option<int>) {
    match rfind(remaining, tag) {
        Some(idx) => match hundredths_of(trim(remaining.skip(idx + tag.len()))) {
            Some(v) => (trim(remaining.take(idx)), Some(v)),
            None => (remaining, None),
        },
        None => (remaining, None),
    }
}

/// The account a journal block holds: its first non-blank line is an
/// `account kind:slug  ; id:{id} name:{name}` directive, with optional
/// trailing ` rate:` and ` limit:` tags (the limit last).
pub open spec fn block_account(block: Seq<char>) -> Option<AccountView> {
    let ls = non_blank(lines(block));
    if ls.len() == 0 {
        None
    } else {
        match strip_prefix(trim(ls[0]), "account "@) {
            None => None,
            Some(header) => match split_once(header, "; "@) {
                None => None,
                Some((path, comment)) => match split_once(trim(path), ":"@) {
                    None => None,
                    Some((kind_str, slug)) => match kind_of_prefix(kind_str) {
                        None => None,
                        Some(kind) => match strip_prefix(trim(comment), "id:"@) {
                            None => None,
                            Some(c) => match split_once(c, " name:"@) {
                                None => None,
                                Some((idp, rest)) => {
                                    let lim = trailing_number(trim(rest), " limit:"@);
                                    let rate = trailing_number(lim.0, " rate:"@);
                                    Some(
                                        AccountView {
                                            id: trim(idp),
                                            name: rate.0,
                                            kind,
                                            slug: trim(slug),
                                            interest_rate: rate.1,
                                            credit_limit: lim.1,
                                        },
                                    )
                                },
                            },
                        },
                    },
                },
            },
        }
    }
}

/// The accounts of a journal's blocks: those that start with `account `
/// and read as an account.
pub open spec fn accounts_of(bs: Seq<Seq<char>>) -> Seq<AccountView>
    decreases bs.len(),
{
    if bs.len() == 0 {
        seq![]
    } else {
        let rest = accounts_of(bs.drop_last());
        if starts_with(trim_start(bs.last()), "account "@) {
            match block_account(bs.last()) {
                Some(x) => rest.push(x),
                None => rest,
            }
        } else {
            rest
        }
    }
}

fn trailing_number_exec(remaining: &[char], tag: &[char]) -> (r: (Vec<char>, Option<i64>))
    ensures
        r.0@ == trailing_number(remaining@, tag@).0,
        match r.1 {
            Some(v) => trailing_number(remaining@, tag@).1 == Some(v as int),
            None => trailing_number(remaining@, tag@).1 is None,
        },
{
    let n = remaining.len();
    match rfind_exec(remaining, tag) {
        Some(idx) => {
            proof {
                lemma_rfind_bounds(remaining@, tag@);
                assert(rfind(remaining@, tag@) == Some(idx as int));
                assert(idx + tag@.len() <= remaining@.len());
            }
            let after = skip_from(remaining, idx + tag.len());
            match parse_hundredths(&trim_exec(&after)) {
                Some(v) => {
                    let before = subvec(remaining, 0, idx);
                    assert(before@ =~= remaining@.take(idx as int));
                    (trim_exec(&before), Some(v))
                },
                None => (copy_of(remaining), None),
            }
        },
        None => (copy_of(remaining), None),
    }
}

/// Reads one journal block as an account (see `block_account`).
#[verifier::rlimit(30)]
pub fn parse_account_block(block: &[char]) -> (r: Option<Account>)
    ensures
        match r {
            Some(x) => block_account(block@) == Some(account_view(x)) && x.balance == 0,
            None => block_account(block@) is None,
        },
{
    let ls = non_blank_lines(block);
    if ls.len() == 0 {
        return None;
    }
    assert(views(ls@)[0] == ls@[0]@);
    let line = trim_exec(&ls[0]);
    let header = match strip_prefix_exec(&line, &chars_of("account ")) {
        Some(h) => h,
        None => return None,
    };
    let (path, comment) = match split_once_exec(&header, &chars_of("; ")) {
        Some(p) => p,
        None => return None,
    };
    let (kind_str, slug) = match split_once_exec(&trim_exec(&path), &chars_of(":")) {
        Some(p) => p,
        None => return None,
    };
    let kind = match AccountKind::from_prefix(string_of(&kind_str).as_str()) {
        Some(k) => k,
        None => return None,
    };
    let c = match strip_prefix_exec(&trim_exec(&comment), &chars_of("id:")) {
        Some(c) => c,
        None => return None,
    };
    let (idp, rest) = match split_once_exec(&c, &chars_of(" name:")) {
        Some(p) => p,
        None => return None,
    };
    let (before_limit, credit_limit) = trailing_number_exec(&trim_exec(&rest), &chars_of(" limit:"));
    let (name, interest_rate) = trailing_number_exec(&before_limit, &chars_of(" rate:"));
    Some(
        Account {
            id: string_of(&trim_exec(&idp)),
            name: string_of(&name),
            kind,
            slug: string_of(&trim_exec(&slug)),
            balance: 0,
            interest_rate,
            credit_limit,
        },
    )
}

/// Every account of a journal text, in order.
pub fn parse_accounts(content: &str) -> (r: Vec<Account>)
    ensures
        r@.map_values(|x: Account| account_view(x)) == accounts_of(split(content@, "\n\n"@)),
        forall|i: int| 0 <= i < r@.len() ==> (#[trigger] r@[i]).balance == 0,
{
    let blocks = blocks_of(content);
    let ghost bs = views(blocks@);
    let mut r: Vec<Account> = Vec::new();
    let mut i: usize = 0;
    while i < blocks.len()
        invariant
            i <= blocks@.len(),
            bs == views(blocks@),
            r@.map_values(|x: Account| account_view(x)) == accounts_of(bs.take(i as int)),
            forall|k: int| 0 <= k < r@.len() ==> (#[trigger] r@[k]).balance == 0,
        decreases blocks@.len() - i,
    {
        let ghost pre = bs.take(i as int);
        let ghost post = bs.take(i + 1);
        assert(post.drop_last() =~= pre);
        assert(post.last() == blocks@[i as int]@);
        let t = trim_start_exec(&blocks[i]);
        if starts_with_exec(&t, &chars_of("account ")) {
            match parse_account_block(&blocks[i]) {
                Some(x) => {
                    let ghost rb = r@;
                    r.push(x);
                    assert(r@.map_values(|x: Account| account_view(x)) =~= rb.map_values(
                        |x: Account| account_view(x),
                    ).push(account_view(x)));
                },
                None => {},
            }
        }
        i += 1;
    }
    assert(bs.take(blocks@.len() as int) =~= bs);
    r
}

} // verus!
