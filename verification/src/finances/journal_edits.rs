//! Editing the journal's text: a new record appended under a fresh id, and
//! an existing one rewritten by removing its blocks and appending it anew
//! under the same id (hledger's format has no "update a block").
use vstd::prelude::*;
use crate::date::Date;
use crate::finances::models::{AccountKind, Frequency, SpendingCategory, TxnKind, Account, SpendingEntry,
    RecurringItem, TransferEntry, RecurringTransfer};
use crate::finances::journal_writer::{
    sanitized, sanitized_leaf, without_id, remove_blocks_with_id, spending_text, recurring_item_text, transfer_text,
    recurring_transfer_text, account_text, adjustment_text, opt_int, format_spending_entry, format_recurring_item,
    format_transfer_entry, format_recurring_transfer, format_account_directive, format_adjustment_transaction,
    sanitize_line, sanitize_account_leaf,
};
use crate::finances::forecast::{new_uuid_text, v4_uuid_text};
use crate::date::opt_date_view;
use crate::text::{chars_of, string_of, append_str};

verus! {

/// The journal after rewriting the record `id` as `text`: its blocks
/// removed and `text` appended; none when it has no block (the journal is
/// then left as it is).
pub open spec fn rewritten(content: Seq<char>, id: Seq<char>, text: Seq<char>) -> Option<Seq<char>> {
    if without_id(content, id).0 {
        Some(without_id(content, id).1 + text)
    } else {
        None
    }
}

/// The journal `content` with the record `id` rewritten as `text`, or
/// `None` when there is no record `id`.
pub fn rewrite_journal(content: &str, id: &str, text: &str) -> (r: Option<String>)
    ensures
        match r {
            Some(c) => rewritten(content@, id@, text@) == Some(c@),
            None => rewritten(content@, id@, text@) is None,
        },
{
    let (found, rest) = remove_blocks_with_id(content, id);
    if !found {
        return None;
    }
    let mut v = chars_of(rest.as_str());
    append_str(&mut v, text);
    Some(string_of(&v))
}

fn copy(s: &str) -> (r: String)
    ensures
        r@ == s@,
{
    string_of(&chars_of(s))
}

// ---------------------------------------------------------------------------
// Spending entries
// ---------------------------------------------------------------------------

/// `e` is the spending entry `id` written with these values: the
/// description flattened to one line.
pub open spec fn spending_entry_is(
    e: SpendingEntry,
    id: Seq<char>,
    date: Date,
    description: Seq<char>,
    category: SpendingCategory,
    amount: i64,
    account: Seq<char>,
) -> bool {
    &&& e.id@ == id
    &&& e.date == date
    &&& e.description@ == sanitized(description)
    &&& e.category == category
    &&& e.amount == amount
    &&& e.account@ == account
}

fn spending_entry_of(
    id: &str,
    date: Date,
    description: &str,
    category: SpendingCategory,
    amount: i64,
    account: &str,
) -> (e: SpendingEntry)
    ensures
        spending_entry_is(e, id@, date, description@, category, amount, account@),
{
    SpendingEntry {
        id: copy(id),
        date,
        description: sanitize_line(description),
        category,
        amount,
        account: copy(account),
    }
}

/// A new spending entry under a fresh random id: the text to append to the
/// journal, and the entry.
pub fn new_spending_entry(
    category: SpendingCategory,
    amount: i64,
    description: &str,
    date: Date,
    account: &str,
) -> (r: (String, SpendingEntry))
    ensures
        v4_uuid_text(r.1.id@),
        spending_entry_is(r.1, r.1.id@, date, description@, category, amount, account@),
        r.0@ == spending_text(r.1.id@, date@, description@, category, amount as int, account@),
{
    let id = new_uuid_text();
    let text = format_spending_entry(id.as_str(), date, description, category, amount, account);
    (text, spending_entry_of(id.as_str(), date, description, category, amount, account))
}

/// The journal with the spending entry `id` rewritten with these values,
/// and the entry; `None` when there is no record `id`.
pub fn rewrite_spending_entry(
    content: &str,
    id: &str,
    date: Date,
    description: &str,
    category: SpendingCategory,
    amount: i64,
    account: &str,
) -> (r: Option<(String, SpendingEntry)>)
    ensures
        r is Some <==> without_id(content@, id@).0,
        r matches Some(p) ==> p.0@ == without_id(content@, id@).1 + spending_text(
            id@,
            date@,
            description@,
            category,
            amount as int,
            account@,
        ) && spending_entry_is(p.1, id@, date, description@, category, amount, account@),
{
    let text = format_spending_entry(id, date, description, category, amount, account);
    match rewrite_journal(content, id, text.as_str()) {
        None => None,
        Some(c) => Some((c, spending_entry_of(id, date, description, category, amount, account))),
    }
}

// ---------------------------------------------------------------------------
// Transfers
// ---------------------------------------------------------------------------

/// `e` is the transfer `id` written with these values.
pub open spec fn transfer_entry_is(
    e: TransferEntry,
    id: Seq<char>,
    date: Date,
    description: Seq<char>,
    amount: i64,
    from_account: Seq<char>,
    to_account: Seq<char>,
) -> bool {
    &&& e.id@ == id
    &&& e.date == date
    &&& e.description@ == sanitized(description)
    &&& e.amount == amount
    &&& e.from_account@ == from_account
    &&& e.to_account@ == to_account
}

/// A new transfer under a fresh random id: the text to append to the
/// journal, and the transfer.
pub fn new_transfer_entry(
    description: &str,
    amount: i64,
    date: Date,
    from_account: &str,
    to_account: &str,
) -> (r: (String, TransferEntry))
    ensures
        v4_uuid_text(r.1.id@),
        transfer_entry_is(r.1, r.1.id@, date, description@, amount, from_account@, to_account@),
        r.0@ == transfer_text(r.1.id@, date@, description@, amount as int, from_account@, to_account@),
{
    let id = new_uuid_text();
    let text = format_transfer_entry(id.as_str(), date, description, amount, from_account, to_account);
    let e = TransferEntry {
        id: copy(id.as_str()),
        date,
        description: sanitize_line(description),
        amount,
        from_account: copy(from_account),
        to_account: copy(to_account),
    };
    (text, e)
}

// ---------------------------------------------------------------------------
// Recurring items
// ---------------------------------------------------------------------------

/// `it` is the recurring item `id` written with these values: the name
/// flattened to one line, the label made an account leaf.
pub open spec fn recurring_item_is(
    it: RecurringItem,
    id: Seq<char>,
    name: Seq<char>,
    amount: i64,
    kind: TxnKind,
    label: Seq<char>,
    frequency: Frequency,
    reference_date: Option<Date>,
    account: Seq<char>,
    category: Option<SpendingCategory>,
) -> bool {
    &&& it.id@ == id
    &&& it.name@ == sanitized(name)
    &&& it.amount == amount
    &&& it.kind == kind
    &&& it.label@ == sanitized_leaf(label)
    &&& it.frequency == frequency
    &&& it.reference_date == reference_date
    &&& it.account@ == account
    &&& it.category == category
}

fn recurring_item_of(
    id: &str,
    name: &str,
    amount: i64,
    kind: TxnKind,
    label: &str,
    frequency: Frequency,
    reference_date: Option<Date>,
    account: &str,
    category: Option<SpendingCategory>,
) -> (it: RecurringItem)
    ensures
        recurring_item_is(it, id@, name@, amount, kind, label@, frequency, reference_date, account@, category),
{
    RecurringItem {
        id: copy(id),
        name: sanitize_line(name),
        amount,
        kind,
        label: sanitize_account_leaf(label),
        frequency,
        reference_date,
        account: copy(account),
        category,
    }
}

/// A new recurring item under a fresh random id: the periodic rule to
/// append to the journal, and the item.
pub fn new_recurring_item(
    name: &str,
    amount: i64,
    kind: TxnKind,
    label: &str,
    frequency: Frequency,
    reference_date: Option<Date>,
    account: &str,
    category: Option<SpendingCategory>,
) -> (r: (String, RecurringItem))
    ensures
        v4_uuid_text(r.1.id@),
        recurring_item_is(r.1, r.1.id@, name@, amount, kind, label@, frequency, reference_date, account@, category),
        r.0@ == recurring_item_text(
            r.1.id@,
            name@,
            amount as int,
            kind,
            label@,
            frequency,
            opt_date_view(reference_date),
            account@,
            category,
        ),
{
    let id = new_uuid_text();
    let text = format_recurring_item(
        id.as_str(),
        name,
        amount,
        kind,
        label,
        frequency,
        reference_date,
        account,
        category,
    );
    (text, recurring_item_of(id.as_str(), name, amount, kind, label, frequency, reference_date, account, category))
}

/// The journal with the recurring item `id` rewritten with these values,
/// and the item; `None` when there is no record `id`.
pub fn rewrite_recurring_item(
    content: &str,
    id: &str,
    name: &str,
    amount: i64,
    kind: TxnKind,
    label: &str,
    frequency: Frequency,
    reference_date: Option<Date>,
    account: &str,
    category: Option<SpendingCategory>,
) -> (r: Option<(String, RecurringItem)>)
    ensures
        r is Some <==> without_id(content@, id@).0,
        r matches Some(p) ==> p.0@ == without_id(content@, id@).1 + recurring_item_text(
            id@,
            name@,
            amount as int,
            kind,
            label@,
            frequency,
            opt_date_view(reference_date),
            account@,
            category,
        ) && recurring_item_is(p.1, id@, name@, amount, kind, label@, frequency, reference_date, account@, category),
{
    let text = format_recurring_item(id, name, amount, kind, label, frequency, reference_date, account, category);
    match rewrite_journal(content, id, text.as_str()) {
        None => None,
        Some(c) => Some(
            (c, recurring_item_of(id, name, amount, kind, label, frequency, reference_date, account, category)),
        ),
    }
}

// ---------------------------------------------------------------------------
// Recurring transfers
// ---------------------------------------------------------------------------

/// `t` is the recurring transfer `id` written with these values.
pub open spec fn recurring_transfer_is(
    t: RecurringTransfer,
    id: Seq<char>,
    name: Seq<char>,
    amount: i64,
    frequency: Frequency,
    reference_date: Option<Date>,
    from_account: Seq<char>,
    to_account: Seq<char>,
) -> bool {
    &&& t.id@ == id
    &&& t.name@ == sanitized(name)
    &&& t.amount == amount
    &&& t.frequency == frequency
    &&& t.reference_date == reference_date
    &&& t.from_account@ == from_account
    &&& t.to_account@ == to_account
}

fn recurring_transfer_of(
    id: &str,
    name: &str,
    amount: i64,
    frequency: Frequency,
    reference_date: Option<Date>,
    from_account: &str,
    to_account: &str,
) -> (t: RecurringTransfer)
    ensures
        recurring_transfer_is(t, id@, name@, amount, frequency, reference_date, from_account@, to_account@),
{
    RecurringTransfer {
        id: copy(id),
        name: sanitize_line(name),
        amount,
        frequency,
        reference_date,
        from_account: copy(from_account),
        to_account: copy(to_account),
    }
}

/// A new recurring transfer under a fresh random id: the periodic rule to
/// append to the journal, and the transfer.
pub fn new_recurring_transfer(
    name: &str,
    amount: i64,
    frequency: Frequency,
    reference_date: Option<Date>,
    from_account: &str,
    to_account: &str,
) -> (r: (String, RecurringTransfer))
    ensures
        v4_uuid_text(r.1.id@),
        recurring_transfer_is(r.1, r.1.id@, name@, amount, frequency, reference_date, from_account@, to_account@),
        r.0@ == recurring_transfer_text(
            r.1.id@,
            name@,
            amount as int,
            frequency,
            opt_date_view(reference_date),
            from_account@,
            to_account@,
        ),
{
    let id = new_uuid_text();
    let text = format_recurring_transfer(id.as_str(), name, amount, frequency, reference_date, from_account, to_account);
    (text, recurring_transfer_of(id.as_str(), name, amount, frequency, reference_date, from_account, to_account))
}

/// The journal with the recurring transfer `id` rewritten with these
/// values, and the transfer; `None` when there is no record `id`.
pub fn rewrite_recurring_transfer(
    content: &str,
    id: &str,
    name: &str,
    amount: i64,
    frequency: Frequency,
    reference_date: Option<Date>,
    from_account: &str,
    to_account: &str,
) -> (r: Option<(String, RecurringTransfer)>)
    ensures
        r is Some <==> without_id(content@, id@).0,
        r matches Some(p) ==> p.0@ == without_id(content@, id@).1 + recurring_transfer_text(
            id@,
            name@,
            amount as int,
            frequency,
            opt_date_view(reference_date),
            from_account@,
            to_account@,
        ) && recurring_transfer_is(p.1, id@, name@, amount, frequency, reference_date, from_account@, to_account@),
{
    let text = format_recurring_transfer(id, name, amount, frequency, reference_date, from_account, to_account);
    match rewrite_journal(content, id, text.as_str()) {
        None => None,
        Some(c) => Some((c, recurring_transfer_of(id, name, amount, frequency, reference_date, from_account, to_account))),
    }
}

// ---------------------------------------------------------------------------
// Accounts
// ---------------------------------------------------------------------------

/// The text of `s` in lower case (`str::to_lowercase`).
pub uninterp spec fn lowercase(s: Seq<char>) -> Seq<char>;

/// The ASCII lower case of a character; others are unchanged.
pub open spec fn ascii_lower(c: char) -> char {
    if 'A' <= c <= 'Z' {
        ((c as u32) + 32) as char
    } else {
        c
    }
}

/// `str::to_lowercase`, whose result is named `lowercase`. Unicode's lower
/// case of an ASCII text is its ASCII lower case, and that much is stated;
/// of other texts nothing more is.
#[verifier::external_body]
fn to_lowercase(s: &str) -> (r: String)
    ensures
        r@ == lowercase(s@),
        (forall|i: int| 0 <= i < s@.len() ==> (s@[i] as u32) < 128) ==> r@ == s@.map_values(
            |c: char| ascii_lower(c),
        ),
{
    s.to_lowercase()
}

/// `a` is the account `id` written with these values, its balance zero:
/// the name flattened to one line.
pub open spec fn account_is(
    a: Account,
    id: Seq<char>,
    name: Seq<char>,
    kind: AccountKind,
    slug: Seq<char>,
    interest_rate: Option<i64>,
    credit_limit: Option<i64>,
) -> bool {
    &&& a.id@ == id
    &&& a.name@ == sanitized(name)
    &&& a.kind == kind
    &&& a.slug@ == slug
    &&& a.balance == 0
    &&& a.interest_rate == interest_rate
    &&& a.credit_limit == credit_limit
}

fn account_of(
    id: &str,
    name: &str,
    kind: AccountKind,
    slug: &str,
    interest_rate: Option<i64>,
    credit_limit: Option<i64>,
) -> (a: Account)
    ensures
        account_is(a, id@, name@, kind, slug@, interest_rate, credit_limit),
{
    Account {
        id: copy(id),
        name: sanitize_line(name),
        kind,
        slug: copy(slug),
        balance: 0,
        interest_rate,
        credit_limit,
    }
}

/// A new account under a fresh random id, its slug the lower case of its
/// name made an account leaf: the directive to append to the journal, and
/// the account (balance zero).
pub fn new_account(name: &str, kind: AccountKind, interest_rate: Option<i64>, credit_limit: Option<i64>) -> (r: (
    String,
    Account,
))
    ensures
        v4_uuid_text(r.1.id@),
        account_is(r.1, r.1.id@, name@, kind, lowercase(sanitized_leaf(name@)), interest_rate, credit_limit),
        r.0@ == account_text(
            r.1.id@,
            name@,
            kind,
            lowercase(sanitized_leaf(name@)),
            opt_int(interest_rate),
            opt_int(credit_limit),
        ),
{
    let id = new_uuid_text();
    let slug = to_lowercase(sanitize_account_leaf(name).as_str());
    let text = format_account_directive(id.as_str(), name, kind, slug.as_str(), interest_rate, credit_limit);
    (text, account_of(id.as_str(), name, kind, slug.as_str(), interest_rate, credit_limit))
}

/// The journal with the account `id` rewritten with these values, and the
/// account (balance zero); `None` when there is no record `id`.
pub fn rewrite_account(
    content: &str,
    id: &str,
    name: &str,
    kind: AccountKind,
    slug: &str,
    interest_rate: Option<i64>,
    credit_limit: Option<i64>,
) -> (r: Option<(String, Account)>)
    ensures
        r is Some <==> without_id(content@, id@).0,
        r matches Some(p) ==> p.0@ == without_id(content@, id@).1 + account_text(
            id@,
            name@,
            kind,
            slug@,
            opt_int(interest_rate),
            opt_int(credit_limit),
        ) && account_is(p.1, id@, name@, kind, slug@, interest_rate, credit_limit),
{
    let text = format_account_directive(id, name, kind, slug, interest_rate, credit_limit);
    match rewrite_journal(content, id, text.as_str()) {
        None => None,
        Some(c) => Some((c, account_of(id, name, kind, slug, interest_rate, credit_limit))),
    }
}

/// A balance adjustment of `diff` cents to `account` on `date`, under a
/// fresh random id: the transaction to append to the journal.
pub fn new_adjustment(account: &str, diff: i64, date: Date) -> (r: String)
    ensures
        exists|id: Seq<char>| v4_uuid_text(id) && r@ == #[trigger] adjustment_text(id, date@, account@, diff as int),
{
    let id = new_uuid_text();
    format_adjustment_transaction(id.as_str(), date, account, diff)
}

} // verus!
