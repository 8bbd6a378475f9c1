//! The journal text of spending entries, recurring items, accounts,
//! transfers and balance adjustments, and the removal of a block by its id.
use vstd::prelude::*;
use crate::date::{Date, iso_text, opt_date_view};
use crate::finances::models::{
    SpendingCategory, TxnKind, Frequency, AccountKind, category_account, category_tag, kind_prefix,
    period_text, build_period_phrase,
};
use crate::finances::money::{cents_text, hundredths_text, cents_string, hundredths_string};
use crate::text::{
    chars_of, string_of, append, append_str, replace_chars, replace_chars_exec, split, join, is_ws, matches_at,
    split_exec, join_exec, matches_at_exec, is_whitespace, views, lemma_views_push,
};

verus! {

/// Free text flattened to one line: every line feed and carriage return
/// becomes a space.
pub open spec fn sanitized(s: Seq<char>) -> Seq<char> {
    replace_chars(s, seq!['\n', '\r'], ' ')
}

/// An account leaf: flattened to one line, then every `:` (hledger's
/// account separator) becomes `-` and every space `_`.
pub open spec fn sanitized_leaf(s: Seq<char>) -> Seq<char> {
    replace_chars(replace_chars(sanitized(s), seq![':'], '-'), seq![' '], '_')
}

/// A journal line or comment cannot contain a line break without
/// corrupting the entry's structure; free text is flattened to one line.
pub fn sanitize_line(s: &str) -> (r: String)
    ensures
        r@ == sanitized(s@),
{
    let v = chars_of(s);
    let from = vec!['\n', '\r'];
    assert(from@ =~= seq!['\n', '\r']);
    string_of(&replace_chars_exec(&v, &from, ' '))
}

/// Account leaves must not contain whitespace or colons (colons are
/// hledger's own account-segment separator).
pub fn sanitize_account_leaf(s: &str) -> (r: String)
    ensures
        r@ == sanitized_leaf(s@),
{
    let v = chars_of(s);
    let from = vec!['\n', '\r'];
    assert(from@ =~= seq!['\n', '\r']);
    let a = replace_chars_exec(&v, &from, ' ');
    let colon = vec![':'];
    assert(colon@ =~= seq![':']);
    let b = replace_chars_exec(&a, &colon, '-');
    let space = vec![' '];
    assert(space@ =~= seq![' ']);
    string_of(&replace_chars_exec(&b, &space, '_'))
}

/// The text of a spending entry: the date, the description, its id, the
/// category account with the amount, and the account.
pub open spec fn spending_text(
    id: Seq<char>,
    date: (int, int, int),
    description: Seq<char>,
    category: SpendingCategory,
    amount: int,
    account: Seq<char>,
) -> Seq<char> {
    iso_text(date) + " "@ + sanitized(description) + "  ; id:"@ + id + "\n    "@ + category_account(category)
        + "    $"@ + cents_text(amount) + "\n    "@ + account + "\n\n"@
}

pub fn format_spending_entry(
    id: &str,
    date: Date,
    description: &str,
    category: SpendingCategory,
    amount: i64,
    account: &str,
) -> (r: String)
    ensures
        r@ == spending_text(id@, date@, description@, category, amount as int, account@),
{
    let mut v = chars_of(date.to_iso().as_str());
    append_str(&mut v, " ");
    append_str(&mut v, sanitize_line(description).as_str());
    append_str(&mut v, "  ; id:");
    append_str(&mut v, id);
    append_str(&mut v, "\n    ");
    append_str(&mut v, category.account());
    append_str(&mut v, "    $");
    append(&mut v, &cents_string(amount));
    append_str(&mut v, "\n    ");
    append_str(&mut v, account);
    append_str(&mut v, "\n\n");
    assert(v@ =~= spending_text(id@, date@, description@, category, amount as int, account@));
    string_of(&v)
}

/// The debit and credit accounts of a recurring item: the account and
/// `income:{label}` for income, `expenses:{label}` and the account for an
/// expense.
pub open spec fn item_legs(kind: TxnKind, label: Seq<char>, account: Seq<char>) -> (Seq<char>, Seq<char>) {
    match kind {
        TxnKind::Income => (account, "income:"@ + label),
        TxnKind::Expense => ("expenses:"@ + label, account),
    }
}

/// The ` category:{tag}` tag of an optional category.
pub open spec fn category_suffix(category: Option<SpendingCategory>) -> Seq<char> {
    match category {
        Some(c) => " category:"@ + category_tag(c),
        None => seq![],
    }
}

/// The text of a recurring item: a periodic-rule header with its period,
/// id, name and optional category tag (always last), then the debit leg
/// with the amount and the credit leg.
pub open spec fn recurring_item_text(
    id: Seq<char>,
    name: Seq<char>,
    amount: int,
    kind: TxnKind,
    label: Seq<char>,
    frequency: Frequency,
    reference_date: Option<(int, int, int)>,
    account: Seq<char>,
    category: Option<SpendingCategory>,
) -> Seq<char> {
    let legs = item_legs(kind, sanitized_leaf(label), account);
    "~ "@ + period_text(frequency, reference_date) + "  ; id:"@ + id + " name:"@ + sanitized(name)
        + category_suffix(category) + "\n    "@ + legs.0 + "    $"@ + cents_text(amount) + "\n    "@ + legs.1
        + "\n\n"@
}

/// Formats a recurring item as a periodic rule. A category, when given,
/// is appended last, after the name, as a ` category:{tag}` tag; it is
/// bookkeeping metadata only and does not change the accounts posted to.
#[verifier::rlimit(30)]
pub fn format_recurring_item(
    id: &str,
    name: &str,
    amount: i64,
    kind: TxnKind,
    label: &str,
    frequency: Frequency,
    reference_date: Option<Date>,
    account: &str,
    category: Option<SpendingCategory>,
) -> (r: String)
    ensures
        r@ == recurring_item_text(
            id@,
            name@,
            amount as int,
            kind,
            label@,
            frequency,
            opt_date_view(reference_date),
            account@,
            category,
        ),
{
    let leaf = sanitize_account_leaf(label);
    let mut debit: Vec<char> = Vec::new();
    let mut credit: Vec<char> = Vec::new();
    match kind {
        TxnKind::Income => {
            append_str(&mut debit, account);
            append_str(&mut credit, "income:");
            append_str(&mut credit, leaf.as_str());
        },
        TxnKind::Expense => {
            append_str(&mut debit, "expenses:");
            append_str(&mut debit, leaf.as_str());
            append_str(&mut credit, account);
        },
    }
    assert(debit@ =~= item_legs(kind, sanitized_leaf(label@), account@).0);
    assert(credit@ =~= item_legs(kind, sanitized_leaf(label@), account@).1);
    let mut v = chars_of("~ ");
    append_str(&mut v, build_period_phrase(frequency, reference_date).as_str());
    append_str(&mut v, "  ; id:");
    append_str(&mut v, id);
    append_str(&mut v, " name:");
    append_str(&mut v, sanitize_line(name).as_str());
    let ghost head = v@;
    match category {
        Some(c) => {
            append_str(&mut v, " category:");
            append_str(&mut v, c.tag());
        },
        None => {},
    }
    assert(v@ =~= head + category_suffix(category));
    append_str(&mut v, "\n    ");
    append(&mut v, &debit);
    append_str(&mut v, "    $");
    append(&mut v, &cents_string(amount));
    append_str(&mut v, "\n    ");
    append(&mut v, &credit);
    append_str(&mut v, "\n\n");
    assert(v@ =~= recurring_item_text(
        id@,
        name@,
        amount as int,
        kind,
        label@,
        frequency,
        opt_date_view(reference_date),
        account@,
        category,
    ));
    string_of(&v)
}

/// The ` rate:{rate}` and ` limit:{limit}` tags, in that order.
pub open spec fn rate_limit_suffix(interest_rate: Option<int>, credit_limit: Option<int>) -> Seq<char> {
    let r = match interest_rate {
        Some(x) => " rate:"@ + hundredths_text(x),
        None => seq![],
    };
    let l = match credit_limit {
        Some(x) => " limit:"@ + hundredths_text(x),
        None => seq![],
    };
    r + l
}

/// The plain value of an optional `i64`.
pub open spec fn opt_int(o: Option<i64>) -> Option<int> {
    match o {
        Some(x) => Some(x as int),
        None => None,
    }
}

/// The text of an account directive: the account path, its id and name,
/// then the optional rate and limit tags, always last.
pub open spec fn account_text(
    id: Seq<char>,
    name: Seq<char>,
    kind: AccountKind,
    slug: Seq<char>,
    interest_rate: Option<int>,
    credit_limit: Option<int>,
) -> Seq<char> {
    "account "@ + kind_prefix(kind) + ":"@ + slug + "  ; id:"@ + id + " name:"@ + sanitized(name)
        + rate_limit_suffix(interest_rate, credit_limit) + "\n\n"@
}

/// The `account` directive that registers a named account. The interest
/// rate (hundredths of a percent) and credit limit (cents) are written
/// after the name as ` rate:` and ` limit:` tags, in that fixed order and
/// last, in their shortest decimal form.
#[verifier::rlimit(30)]
pub fn format_account_directive(
    id: &str,
    name: &str,
    kind: AccountKind,
    slug: &str,
    interest_rate: Option<i64>,
    credit_limit: Option<i64>,
) -> (r: String)
    ensures
        r@ == account_text(id@, name@, kind, slug@, opt_int(interest_rate), opt_int(credit_limit)),
{
    let mut v = chars_of("account ");
    append_str(&mut v, kind.prefix());
    append_str(&mut v, ":");
    append_str(&mut v, slug);
    append_str(&mut v, "  ; id:");
    append_str(&mut v, id);
    append_str(&mut v, " name:");
    append_str(&mut v, sanitize_line(name).as_str());
    let ghost head = v@;
    match interest_rate {
        Some(rate) => {
            append_str(&mut v, " rate:");
            append(&mut v, &hundredths_string(rate));
        },
        None => {},
    }
    match credit_limit {
        Some(limit) => {
            append_str(&mut v, " limit:");
            append(&mut v, &hundredths_string(limit));
        },
        None => {},
    }
    assert(v@ =~= head + rate_limit_suffix(opt_int(interest_rate), opt_int(credit_limit)));
    append_str(&mut v, "\n\n");
    assert(v@ =~= account_text(id@, name@, kind, slug@, opt_int(interest_rate), opt_int(credit_limit)));
    string_of(&v)
}

/// The text of a one-off transfer: tagged `transfer:1` in a comma-separated
/// comment, the explicit amount on the `to` account, the `from` account
/// left for hledger to balance.
pub open spec fn transfer_text(
    id: Seq<char>,
    date: (int, int, int),
    description: Seq<char>,
    amount: int,
    from_account: Seq<char>,
    to_account: Seq<char>,
) -> Seq<char> {
    iso_text(date) + " "@ + sanitized(description) + "  ; id:"@ + id + ", transfer:1\n    "@ + to_account
        + "    $"@ + cents_text(amount) + "\n    "@ + from_account + "\n\n"@
}

pub fn format_transfer_entry(
    id: &str,
    date: Date,
    description: &str,
    amount: i64,
    from_account: &str,
    to_account: &str,
) -> (r: String)
    ensures
        r@ == transfer_text(id@, date@, description@, amount as int, from_account@, to_account@),
{
    let mut v = chars_of(date.to_iso().as_str());
    append_str(&mut v, " ");
    append_str(&mut v, sanitize_line(description).as_str());
    append_str(&mut v, "  ; id:");
    append_str(&mut v, id);
    append_str(&mut v, ", transfer:1\n    ");
    append_str(&mut v, to_account);
    append_str(&mut v, "    $");
    append(&mut v, &cents_string(amount));
    append_str(&mut v, "\n    ");
    append_str(&mut v, from_account);
    append_str(&mut v, "\n\n");
    assert(v@ =~= transfer_text(id@, date@, description@, amount as int, from_account@, to_account@));
    string_of(&v)
}

/// The text of a recurring transfer: a periodic-rule header with its
/// period, id, name and a trailing `transfer:1` tag, then the `to` leg with
/// the amount and the `from` leg.
pub open spec fn recurring_transfer_text(
    id: Seq<char>,
    name: Seq<char>,
    amount: int,
    frequency: Frequency,
    reference_date: Option<(int, int, int)>,
    from_account: Seq<char>,
    to_account: Seq<char>,
) -> Seq<char> {
    "~ "@ + period_text(frequency, reference_date) + "  ; id:"@ + id + " name:"@ + sanitized(name)
        + " transfer:1\n    "@ + to_account + "    $"@ + cents_text(amount) + "\n    "@ + from_account + "\n\n"@
}

pub fn format_recurring_transfer(
    id: &str,
    name: &str,
    amount: i64,
    frequency: Frequency,
    reference_date: Option<Date>,
    from_account: &str,
    to_account: &str,
) -> (r: String)
    ensures
        r@ == recurring_transfer_text(
            id@,
            name@,
            amount as int,
            frequency,
            opt_date_view(reference_date),
            from_account@,
            to_account@,
        ),
{
    let mut v = chars_of("~ ");
    append_str(&mut v, build_period_phrase(frequency, reference_date).as_str());
    append_str(&mut v, "  ; id:");
    append_str(&mut v, id);
    append_str(&mut v, " name:");
    append_str(&mut v, sanitize_line(name).as_str());
    append_str(&mut v, " transfer:1\n    ");
    append_str(&mut v, to_account);
    append_str(&mut v, "    $");
    append(&mut v, &cents_string(amount));
    append_str(&mut v, "\n    ");
    append_str(&mut v, from_account);
    append_str(&mut v, "\n\n");
    assert(v@ =~= recurring_transfer_text(
        id@,
        name@,
        amount as int,
        frequency,
        opt_date_view(reference_date),
        from_account@,
        to_account@,
    ));
    string_of(&v)
}

/// The text of a balance adjustment: the difference posted to the account,
/// offset against `equity:adjustments`.
pub open spec fn adjustment_text(id: Seq<char>, date: (int, int, int), account: Seq<char>, diff: int) -> Seq<char> {
    iso_text(date) + " Balance adjustment  ; id:"@ + id + "\n    "@ + account + "    $"@ + cents_text(diff)
        + "\n    equity:adjustments\n\n"@
}

/// A reconciliation transaction that brings an account's balance to an
/// actual balance by an offsetting posting to `equity:adjustments`.
pub fn format_adjustment_transaction(id: &str, date: Date, account: &str, diff: i64) -> (r: String)
    ensures
        r@ == adjustment_text(id@, date@, account@, diff as int),
{
    let mut v = chars_of(date.to_iso().as_str());
    append_str(&mut v, " Balance adjustment  ; id:");
    append_str(&mut v, id);
    append_str(&mut v, "\n    ");
    append_str(&mut v, account);
    append_str(&mut v, "    $");
    append(&mut v, &cents_string(diff));
    append_str(&mut v, "\n    equity:adjustments\n\n");
    assert(v@ =~= adjustment_text(id@, date@, account@, diff as int));
    string_of(&v)
}

// ---------------------------------------------------------------------------
// Removing a block
// ---------------------------------------------------------------------------

/// A character that may stand beside a tag in a comment: whitespace or a
/// comma.
pub open spec fn tag_edge(c: char) -> bool {
    is_ws(c) || c == ','
}

/// The tag `m` stands whole at position `k` of `b`: it begins the text or
/// follows whitespace, a comma or the comment's `;`, and it ends the text
/// or is followed by whitespace or a comma. So `id:rec-1` does not stand in
/// `id:rec-10`.
pub open spec fn tag_at(b: Seq<char>, m: Seq<char>, k: int) -> bool {
    &&& matches_at(b, m, k)
    &&& (k == 0 || tag_edge(b[k - 1]) || b[k - 1] == ';')
    &&& (k + m.len() == b.len() || tag_edge(b[k + m.len()]))
}

/// The tag `m` stands whole somewhere in `b`.
pub open spec fn has_tag(b: Seq<char>, m: Seq<char>) -> bool {
    exists|k: int| tag_at(b, m, k)
}

/// Whether the tag `m` stands whole at position `k` of `b`.
fn tag_at_exec(b: &[char], m: &[char], k: usize) -> (r: bool)
    requires
        k <= b@.len(),
    ensures
        r == tag_at(b@, m@, k as int),
{
    if !matches_at_exec(b, m, k) {
        return false;
    }
    let before = k == 0 || is_whitespace(b[k - 1]) || b[k - 1] == ',' || b[k - 1] == ';';
    let end = k + m.len();
    let after = end == b.len() || is_whitespace(b[end]) || b[end] == ',';
    before && after
}

/// Whether the tag `m` stands whole somewhere in `b`.
pub fn has_tag_exec(b: &[char], m: &[char]) -> (r: bool)
    ensures
        r == has_tag(b@, m@),
{
    let mut k: usize = 0;
    while k < b.len()
        invariant
            k <= b@.len(),
            forall|j: int| 0 <= j < k ==> !tag_at(b@, m@, j),
        decreases b@.len() - k,
    {
        if tag_at_exec(b, m, k) {
            return true;
        }
        k += 1;
    }
    let last = tag_at_exec(b, m, k);
    proof {
        if !last {
            assert forall|j: int| !tag_at(b@, m@, j) by {
                if 0 <= j < k {
                } else if j != k {
                    assert(!matches_at(b@, m@, j));
                }
            }
        }
    }
    last
}

/// The blocks of `bs` that do not carry the tag `marker`, in order.
pub open spec fn kept_blocks(bs: Seq<Seq<char>>, marker: Seq<char>) -> Seq<Seq<char>>
    decreases bs.len(),
{
    if bs.len() == 0 {
        seq![]
    } else if has_tag(bs.last(), marker) {
        kept_blocks(bs.drop_last(), marker)
    } else {
        kept_blocks(bs.drop_last(), marker).push(bs.last())
    }
}

/// Whether some block of `bs` carries the tag `marker`.
pub open spec fn any_block_has(bs: Seq<Seq<char>>, marker: Seq<char>) -> bool {
    exists|i: int| 0 <= i < bs.len() && has_tag(#[trigger] bs[i], marker)
}

/// The journal with every blank-line-delimited block that carries the
/// marker `id:{id}` removed, and whether there was such a block.
pub open spec fn without_id(content: Seq<char>, id: Seq<char>) -> (bool, Seq<char>) {
    let marker = "id:"@ + id;
    let bs = split(content, "\n\n"@);
    (any_block_has(bs, marker), join(kept_blocks(bs, marker), "\n\n"@))
}

/// Removes from the journal text the blank-line-delimited blocks carrying
/// the tag `id:{id}` with exactly that value (the journal file's blocks this
/// module writes are always blank-line terminated). Returns whether there was one, and the new
/// journal text; the caller rewrites the file only when there was.
#[verifier::rlimit(30)]
pub fn remove_blocks_with_id(content: &str, id: &str) -> (r: (bool, String))
    ensures
        (r.0, r.1@) == without_id(content@, id@),
{
    let c = chars_of(content);
    let mut marker = chars_of("id:");
    append_str(&mut marker, id);
    let sep = vec!['\n', '\n'];
    proof {
        reveal_strlit("\n\n");
    }
    assert(sep@ =~= "\n\n"@);
    let blocks = split_exec(&c, &sep);
    let ghost bs = views(blocks@);
    let mut kept: Vec<Vec<char>> = Vec::new();
    let mut found = false;
    let mut i: usize = 0;
    while i < blocks.len()
        invariant
            i <= blocks@.len(),
            bs == views(blocks@),
            views(kept@) == kept_blocks(bs.take(i as int), marker@),
            found == any_block_has(bs.take(i as int), marker@),
        decreases blocks@.len() - i,
    {
        let ghost pre = bs.take(i as int);
        let ghost post = bs.take(i + 1);
        assert(post.drop_last() =~= pre);
        assert(post.last() == blocks@[i as int]@);
        let hit = has_tag_exec(&blocks[i], &marker);
        if hit {
            found = true;
            assert(has_tag(post[i as int], marker@));
        } else {
            let b = crate::text::copy_of(&blocks[i]);
            let ghost kb = kept@;
            kept.push(b);
            proof {
                lemma_views_push(kb, b);
            }
        }
        proof {
            assert forall|k: int| 0 <= k < i implies #[trigger] post[k] == pre[k] by {}
            if found {
                if any_block_has(pre, marker@) {
                    let k = choose|k: int| 0 <= k < pre.len() && has_tag(#[trigger] pre[k], marker@);
                    assert(post[k] == pre[k]);
                } else {
                    assert(has_tag(post[i as int], marker@));
                }
            } else {
                assert forall|k: int| 0 <= k < post.len() implies !has_tag(#[trigger] post[k], marker@) by {
                    if k < i {
                        assert(post[k] == pre[k]);
                    }
                }
            }
        }
        i += 1;
    }
    assert(bs.take(blocks@.len() as int) =~= bs);
    let joined = join_exec(&kept, &sep);
    (found, string_of(&joined))
}

} // verus!
