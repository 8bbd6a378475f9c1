//! Reading hledger's reports: spending and transfer entries out of printed
//! transactions, per-category and per-account totals out of balance rows,
//! and the report bounds passed to hledger. Amounts are in cents; hledger's
//! own output is read into these records by the program.
use vstd::prelude::*;
use crate::date::{Date, chrono_ymd, parse_ymd, iso_text, day_number, last_date, valid_ymd};
use crate::finances::models::{SpendingCategory, SpendingEntry, TransferEntry, CategoryTotals, category_of_account, Account, account_path};
use crate::text::{chars_of, string_of, eq_str, starts_with, starts_with_exec};

verus! {

/// One posting of a printed transaction: its account and its amount in
/// cents.
#[derive(Debug, Clone)]
pub struct Posting {
    pub paccount: String,
    pub amount: i64,
}

/// A transaction as `hledger print -O json` reports it.
#[derive(Debug, Clone)]
pub struct HledgerTransaction {
    /// `YYYY-MM-DD`.
    pub tdate: String,
    pub tdescription: String,
    /// (name, value) pairs of the transaction's tags.
    pub ttags: Vec<(String, String)>,
    pub tpostings: Vec<Posting>,
}

/// The index of the first posting at or after `i` whose account is (or,
/// with `want` false, is not) a spending category's.
pub open spec fn first_categorized(ps: Seq<Posting>, i: int, want: bool) -> Option<int>
    decreases ps.len() - i,
{
    if i < 0 || i >= ps.len() {
        None
    } else if (category_of_account(ps[i].paccount@) is Some) == want {
        Some(i)
    } else {
        first_categorized(ps, i + 1, want)
    }
}

/// The index of the first posting at or after `i` with a positive (or,
/// with `positive` false, negative) amount.
pub open spec fn first_signed(ps: Seq<Posting>, i: int, positive: bool) -> Option<int>
    decreases ps.len() - i,
{
    if i < 0 || i >= ps.len() {
        None
    } else if (if positive {
        ps[i].amount > 0
    } else {
        ps[i].amount < 0
    }) {
        Some(i)
    } else {
        first_signed(ps, i + 1, positive)
    }
}

/// The value of the first tag called `id` at or after `i`, empty when there
/// is none.
pub open spec fn id_tag(tags: Seq<(String, String)>, i: int) -> Seq<char>
    decreases tags.len() - i,
{
    if i < 0 || i >= tags.len() {
        Seq::empty()
    } else if tags[i].0@ == "id"@ {
        tags[i].1@
    } else {
        id_tag(tags, i + 1)
    }
}

/// The plain value of a spending entry: id, date, description, category,
/// amount, account.
pub open spec fn spending_view(e: SpendingEntry) -> (Seq<char>, (int, int, int), Seq<char>, SpendingCategory, int, Seq<
    char,
>) {
    (e.id@, e.date@, e.description@, e.category, e.amount as int, e.account@)
}

/// The spending entry a printed transaction records: its first posting to
/// a category account gives the category and the amount, its first other
/// posting the account (empty when there is none), its `id` tag the id
/// (empty when there is none). A transaction with no category posting, or
/// whose date chrono does not read, records none.
pub open spec fn spending_entry_spec(t: HledgerTransaction) -> Option<
    (Seq<char>, (int, int, int), Seq<char>, SpendingCategory, int, Seq<char>),
> {
    let ps = t.tpostings@;
    match first_categorized(ps, 0, true) {
        None => None,
        Some(c) => match chrono_ymd(t.tdate@) {
            None => None,
            Some(date) => Some(
                (
                    id_tag(t.ttags@, 0),
                    date,
                    t.tdescription@,
                    category_of_account(ps[c].paccount@).unwrap(),
                    ps[c].amount as int,
                    match first_categorized(ps, 0, false) {
                        Some(a) => ps[a].paccount@,
                        None => Seq::empty(),
                    },
                ),
            ),
        },
    }
}

/// The index of the first posting from `i` on whose account is (or is not)
/// a category's.
fn find_categorized(ps: &Vec<Posting>, want: bool) -> (r: Option<usize>)
    ensures
        match r {
            Some(i) => first_categorized(ps@, 0, want) == Some(i as int) && i < ps@.len() && (category_of_account(
                ps@[i as int].paccount@,
            ) is Some) == want,
            None => first_categorized(ps@, 0, want) is None,
        },
{
    let mut i: usize = 0;
    while i < ps.len()
        invariant
            i <= ps@.len(),
            first_categorized(ps@, 0, want) == first_categorized(ps@, i as int, want),
        decreases ps@.len() - i,
    {
        let is_cat = SpendingCategory::from_account(ps[i].paccount.as_str()).is_some();
        if is_cat == want {
            return Some(i);
        }
        i += 1;
    }
    None
}

/// The index of the first posting with a positive (or negative) amount.
fn find_signed(ps: &Vec<Posting>, positive: bool) -> (r: Option<usize>)
    ensures
        match r {
            Some(i) => first_signed(ps@, 0, positive) == Some(i as int) && i < ps@.len() && (if positive {
                ps@[i as int].amount > 0
            } else {
                ps@[i as int].amount < 0
            }),
            None => first_signed(ps@, 0, positive) is None,
        },
{
    let mut i: usize = 0;
    while i < ps.len()
        invariant
            i <= ps@.len(),
            first_signed(ps@, 0, positive) == first_signed(ps@, i as int, positive),
        decreases ps@.len() - i,
    {
        let a = ps[i].amount;
        if (positive && a > 0) || (!positive && a < 0) {
            return Some(i);
        }
        i += 1;
    }
    None
}

/// The value of the first `id` tag, empty when there is none.
fn find_id(tags: &Vec<(String, String)>) -> (r: String)
    ensures
        r@ == id_tag(tags@, 0),
{
    let mut i: usize = 0;
    while i < tags.len()
        invariant
            i <= tags@.len(),
            id_tag(tags@, 0) == id_tag(tags@, i as int),
        decreases tags@.len() - i,
    {
        if eq_str(&chars_of(tags[i].0.as_str()), "id") {
            return string_of(&chars_of(tags[i].1.as_str()));
        }
        i += 1;
    }
    String::new()
}

/// The spending entry a printed transaction records, if any.
pub fn spending_entry_of(t: &HledgerTransaction) -> (r: Option<SpendingEntry>)
    ensures
        match r {
            Some(e) => spending_entry_spec(*t) == Some(spending_view(e)),
            None => spending_entry_spec(*t) is None,
        },
{
    let c = match find_categorized(&t.tpostings, true) {
        Some(c) => c,
        None => return None,
    };
    let category = match SpendingCategory::from_account(t.tpostings[c].paccount.as_str()) {
        Some(k) => k,
        None => return None,
    };
    let date = match parse_ymd(t.tdate.as_str()) {
        Some(d) => d,
        None => return None,
    };
    let account = match find_categorized(&t.tpostings, false) {
        Some(a) => string_of(&chars_of(t.tpostings[a].paccount.as_str())),
        None => String::new(),
    };
    Some(
        SpendingEntry {
            id: find_id(&t.ttags),
            date,
            description: string_of(&chars_of(t.tdescription.as_str())),
            category,
            amount: t.tpostings[c].amount,
            account,
        },
    )
}

/// The plain value of a transfer entry: id, date, description, amount,
/// from-account, to-account.
pub open spec fn transfer_view(e: TransferEntry) -> (Seq<char>, (int, int, int), Seq<char>, int, Seq<char>, Seq<char>) {
    (e.id@, e.date@, e.description@, e.amount as int, e.from_account@, e.to_account@)
}

/// The transfer a printed transaction records: its first posting with a
/// positive amount is the destination and gives the amount, its first one
/// with a negative amount the source; without both, or with a date chrono
/// does not read, none.
pub open spec fn transfer_entry_spec(t: HledgerTransaction) -> Option<
    (Seq<char>, (int, int, int), Seq<char>, int, Seq<char>, Seq<char>),
> {
    let ps = t.tpostings@;
    match (first_signed(ps, 0, true), first_signed(ps, 0, false)) {
        (Some(to), Some(from)) => match chrono_ymd(t.tdate@) {
            Some(date) => Some(
                (id_tag(t.ttags@, 0), date, t.tdescription@, ps[to].amount as int, ps[from].paccount@, ps[to].paccount@),
            ),
            None => None,
        },
        _ => None,
    }
}

/// The transfer a printed transaction records, if any.
pub fn transfer_entry_of(t: &HledgerTransaction) -> (r: Option<TransferEntry>)
    ensures
        match r {
            Some(e) => transfer_entry_spec(*t) == Some(transfer_view(e)),
            None => transfer_entry_spec(*t) is None,
        },
{
    let to = match find_signed(&t.tpostings, true) {
        Some(i) => i,
        None => return None,
    };
    let from = match find_signed(&t.tpostings, false) {
        Some(i) => i,
        None => return None,
    };
    let date = match parse_ymd(t.tdate.as_str()) {
        Some(d) => d,
        None => return None,
    };
    Some(
        TransferEntry {
            id: find_id(&t.ttags),
            date,
            description: string_of(&chars_of(t.tdescription.as_str())),
            amount: t.tpostings[to].amount,
            from_account: string_of(&chars_of(t.tpostings[from].paccount.as_str())),
            to_account: string_of(&chars_of(t.tpostings[to].paccount.as_str())),
        },
    )
}

/// The entries some printed transactions record, in order: each
/// transaction's spending entry (or transfer), those recording none left
/// out.
pub open spec fn present_entries<A>(v: Seq<Option<A>>) -> Seq<A>
    decreases v.len(),
{
    if v.len() == 0 {
        Seq::empty()
    } else {
        match v.last() {
            Some(x) => present_entries(v.drop_last()).push(x),
            None => present_entries(v.drop_last()),
        }
    }
}

/// The spending entries of printed transactions, in order.
pub fn spending_entries(txns: &Vec<HledgerTransaction>) -> (r: Vec<SpendingEntry>)
    ensures
        r@.map_values(|e: SpendingEntry| spending_view(e)) == present_entries(
            txns@.map_values(|t: HledgerTransaction| spending_entry_spec(t)),
        ),
{
    let mut out: Vec<SpendingEntry> = Vec::new();
    let ghost all = txns@.map_values(|t: HledgerTransaction| spending_entry_spec(t));
    let mut i: usize = 0;
    while i < txns.len()
        invariant
            i <= txns@.len(),
            all == txns@.map_values(|t: HledgerTransaction| spending_entry_spec(t)),
            out@.map_values(|e: SpendingEntry| spending_view(e)) == present_entries(all.take(i as int)),
        decreases txns@.len() - i,
    {
        let r = spending_entry_of(&txns[i]);
        assert(all.take(i + 1).drop_last() =~= all.take(i as int));
        assert(all.take(i + 1).last() == spending_entry_spec(txns@[i as int]));
        match r {
            Some(e) => {
                let ghost before = out@;
                out.push(e);
                assert(out@.map_values(|e: SpendingEntry| spending_view(e)) =~= before.map_values(
                    |e: SpendingEntry| spending_view(e),
                ).push(spending_view(e)));
            },
            None => {},
        }
        i += 1;
    }
    assert(all.take(txns@.len() as int) =~= all);
    out
}

/// The transfers of printed transactions, in order.
pub fn transfer_entries(txns: &Vec<HledgerTransaction>) -> (r: Vec<TransferEntry>)
    ensures
        r@.map_values(|e: TransferEntry| transfer_view(e)) == present_entries(
            txns@.map_values(|t: HledgerTransaction| transfer_entry_spec(t)),
        ),
{
    let mut out: Vec<TransferEntry> = Vec::new();
    let ghost all = txns@.map_values(|t: HledgerTransaction| transfer_entry_spec(t));
    let mut i: usize = 0;
    while i < txns.len()
        invariant
            i <= txns@.len(),
            all == txns@.map_values(|t: HledgerTransaction| transfer_entry_spec(t)),
            out@.map_values(|e: TransferEntry| transfer_view(e)) == present_entries(all.take(i as int)),
        decreases txns@.len() - i,
    {
        let r = transfer_entry_of(&txns[i]);
        assert(all.take(i + 1).drop_last() =~= all.take(i as int));
        assert(all.take(i + 1).last() == transfer_entry_spec(txns@[i as int]));
        match r {
            Some(e) => {
                let ghost before = out@;
                out.push(e);
                assert(out@.map_values(|e: TransferEntry| transfer_view(e)) =~= before.map_values(
                    |e: TransferEntry| transfer_view(e),
                ).push(transfer_view(e)));
            },
            None => {},
        }
        i += 1;
    }
    assert(all.take(txns@.len() as int) =~= all);
    out
}

// ---------------------------------------------------------------------------
// Balance rows
// ---------------------------------------------------------------------------

/// The sum of the amounts of the rows whose account starts with `prefix`.
pub open spec fn sum_under(rows: Seq<(String, i64)>, prefix: Seq<char>) -> int
    decreases rows.len(),
{
    if rows.len() == 0 {
        0
    } else {
        sum_under(rows.drop_last(), prefix) + if starts_with(rows.last().0@, prefix) {
            rows.last().1 as int
        } else {
            0
        }
    }
}

/// The sum of the amounts of the rows of exactly `account`.
pub open spec fn sum_of(rows: Seq<(String, i64)>, account: Seq<char>) -> int
    decreases rows.len(),
{
    if rows.len() == 0 {
        0
    } else {
        sum_of(rows.drop_last(), account) + if rows.last().0@ == account {
            rows.last().1 as int
        } else {
            0
        }
    }
}

/// The sum of the sizes of the amounts.
pub open spec fn size_sum(rows: Seq<(String, i64)>) -> int
    decreases rows.len(),
{
    if rows.len() == 0 {
        0
    } else {
        size_sum(rows.drop_last()) + if rows.last().1 < 0 {
            -(rows.last().1 as int)
        } else {
            rows.last().1 as int
        }
    }
}

/// A sum of some of the amounts is no larger than the sum of all their
/// sizes.
proof fn lemma_sums_bounded(rows: Seq<(String, i64)>, prefix: Seq<char>, account: Seq<char>)
    ensures
        -size_sum(rows) <= sum_under(rows, prefix) <= size_sum(rows),
        -size_sum(rows) <= sum_of(rows, account) <= size_sum(rows),
        0 <= size_sum(rows),
    decreases rows.len(),
{
    if rows.len() > 0 {
        lemma_sums_bounded(rows.drop_last(), prefix, account);
    }
}

/// The sizes of a prefix of the rows sum to no more than those of all.
proof fn lemma_size_prefix(rows: Seq<(String, i64)>, k: int)
    requires
        0 <= k <= rows.len(),
    ensures
        size_sum(rows.take(k)) <= size_sum(rows),
    decreases rows.len() - k,
{
    if k < rows.len() {
        lemma_size_prefix(rows, k + 1);
        assert(rows.take(k + 1).drop_last() =~= rows.take(k));
    } else {
        assert(rows.take(k) =~= rows);
    }
}

/// No account starts with both category prefixes.
proof fn lemma_prefixes_disjoint(a: Seq<char>)
    ensures
        !(starts_with(a, "expenses:stupid"@) && starts_with(a, "expenses:survival"@)),
{
    reveal_strlit("expenses:stupid");
    reveal_strlit("expenses:survival");
    if starts_with(a, "expenses:stupid"@) && starts_with(a, "expenses:survival"@) {
        assert(a[10] == "expenses:stupid"@[10]);
        assert(a[10] == "expenses:survival"@[10]);
    }
}

/// Whether the sizes of all the amounts together fit in `i64`, as the
/// totals below require.
pub fn size_sum_fits(rows: &Vec<(String, i64)>) -> (r: bool)
    ensures
        r == (size_sum(rows@) <= i64::MAX),
{
    let mut total: u64 = 0;
    let mut i: usize = 0;
    while i < rows.len()
        invariant
            i <= rows@.len(),
            total == size_sum(rows@.take(i as int)),
            total <= i64::MAX,
        decreases rows@.len() - i,
    {
        let ghost pre = rows@.take(i + 1);
        assert(pre.drop_last() =~= rows@.take(i as int));
        assert(pre.last() == rows@[i as int]);
        let a = rows[i].1;
        let size: u64 = if a < 0 {
            if a == i64::MIN {
                proof {
                    lemma_size_prefix(rows@, i + 1);
                    lemma_sums_bounded(rows@.take(i as int), seq![], seq![]);
                }
                return false;
            }
            (-a) as u64
        } else {
            a as u64
        };
        if size > (i64::MAX as u64) - total {
            proof {
                lemma_size_prefix(rows@, i + 1);
            }
            return false;
        }
        total = total + size;
        i += 1;
    }
    assert(rows@.take(rows@.len() as int) =~= rows@);
    true
}

/// Spending per category out of `hledger balance` rows (account, cents):
/// rows under `expenses:stupid` count as stupid, rows under
/// `expenses:survival` as survival, others not at all. The sizes of all
/// amounts together must fit in `i64`.
#[verifier::rlimit(30)]
pub fn spending_totals(rows: &Vec<(String, i64)>) -> (r: CategoryTotals)
    requires
        size_sum(rows@) <= i64::MAX,
    ensures
        r.stupid == sum_under(rows@, "expenses:stupid"@),
        r.survival == sum_under(rows@, "expenses:survival"@),
{
    let mut totals = CategoryTotals::default();
    let stupid = chars_of("expenses:stupid");
    let survival = chars_of("expenses:survival");
    let mut i: usize = 0;
    while i < rows.len()
        invariant
            i <= rows@.len(),
            stupid@ == "expenses:stupid"@,
            survival@ == "expenses:survival"@,
            size_sum(rows@) <= i64::MAX,
            totals.stupid == sum_under(rows@.take(i as int), "expenses:stupid"@),
            totals.survival == sum_under(rows@.take(i as int), "expenses:survival"@),
        decreases rows@.len() - i,
    {
        let ghost pre = rows@.take(i + 1);
        assert(pre.drop_last() =~= rows@.take(i as int));
        assert(pre.last() == rows@[i as int]);
        proof {
            lemma_sums_bounded(pre, "expenses:stupid"@, "expenses:stupid"@);
            lemma_sums_bounded(pre, "expenses:survival"@, "expenses:survival"@);
            lemma_sums_bounded(rows@.take(i as int), "expenses:stupid"@, "expenses:stupid"@);
            lemma_sums_bounded(rows@.take(i as int), "expenses:survival"@, "expenses:survival"@);
            lemma_size_prefix(rows@, i + 1);
            lemma_prefixes_disjoint(rows@[i as int].0@);
        }
        let account = chars_of(rows[i].0.as_str());
        let value = rows[i].1;
        if starts_with_exec(&account, &stupid) {
            totals.stupid = totals.stupid + value;
        } else if starts_with_exec(&account, &survival) {
            totals.survival = totals.survival + value;
        }
        i += 1;
    }
    assert(rows@.take(rows@.len() as int) =~= rows@);
    totals
}

/// The balance of an account out of `hledger balance` rows (account,
/// cents): the sum of the rows of exactly that account, zero when it has
/// none. The sizes of all amounts together must fit in `i64`.
pub fn account_balance(rows: &Vec<(String, i64)>, account: &str) -> (r: i64)
    requires
        size_sum(rows@) <= i64::MAX,
    ensures
        r == sum_of(rows@, account@),
{
    let target = chars_of(account);
    let mut total: i64 = 0;
    let mut i: usize = 0;
    while i < rows.len()
        invariant
            i <= rows@.len(),
            target@ == account@,
            size_sum(rows@) <= i64::MAX,
            total == sum_of(rows@.take(i as int), account@),
        decreases rows@.len() - i,
    {
        let ghost pre = rows@.take(i + 1);
        assert(pre.drop_last() =~= rows@.take(i as int));
        assert(pre.last() == rows@[i as int]);
        proof {
            lemma_sums_bounded(pre, account@, account@);
            lemma_sums_bounded(rows@.take(i as int), account@, account@);
            lemma_size_prefix(rows@, i + 1);
        }
        if crate::text::eq_chars(&chars_of(rows[i].0.as_str()), &target) {
            total = total + rows[i].1;
        }
        i += 1;
    }
    assert(rows@.take(rows@.len() as int) =~= rows@);
    total
}

/// The end bound hledger is given for a report through `to` inclusive:
/// hledger's `-e` is exclusive, so the ISO text of the day after `to`.
/// `to` must not be the last representable date.
pub fn end_exclusive(to: Date) -> (r: String)
    requires
        day_number(to@) < day_number(last_date()),
    ensures
        exists|next: (int, int, int)|
            valid_ymd(next.0, next.1, next.2) && day_number(next) == day_number(to@) + 1 && r@ == iso_text(next),
{
    let _ = to.day();
    proof {
        crate::date::lemma_day_number_order(crate::date::first_date(), to@);
    }
    match to.checked_add_days(1) {
        Some(d) => d.to_iso(),
        None => {
            assert(false);
            String::new()
        },
    }
}

/// The adjustment that brings an account from its `current` balance to a
/// `target` one: their difference in cents, or `None` when they are equal
/// and no adjustment is posted. The difference must fit in `i64`.
pub fn balance_adjustment(current: i64, target: i64) -> (r: Option<i64>)
    requires
        i64::MIN <= target - current <= i64::MAX,
    ensures
        r == (if target == current {
            None::<i64>
        } else {
            Some((target - current) as i64)
        }),
{
    if target == current {
        None
    } else {
        Some(target - current)
    }
}

/// Each account with its balance read from `hledger balance` rows: the
/// sum of the rows of its hledger account (zero when it has none); every
/// other field as it was. The sizes of all amounts together must fit in
/// `i64`.
#[verifier::rlimit(30)]
pub fn with_balances(accounts: Vec<Account>, rows: &Vec<(String, i64)>) -> (r: Vec<Account>)
    requires
        size_sum(rows@) <= i64::MAX,
    ensures
        r@.len() == accounts@.len(),
        forall|i: int|
            0 <= i < r@.len() ==> {
                let a = #[trigger] accounts@[i];
                let b = r@[i];
                &&& b.id@ == a.id@ && b.name@ == a.name@ && b.kind == a.kind && b.slug@ == a.slug@
                &&& b.interest_rate == a.interest_rate && b.credit_limit == a.credit_limit
                &&& b.balance == sum_of(rows@, account_path(a.kind, a.slug@))
            },
{
    let mut out: Vec<Account> = Vec::new();
    let mut rest = accounts;
    let ghost orig = rest@;
    let mut i: usize = 0;
    let n = rest.len();
    while i < n
        invariant
            n == orig.len(),
            i <= n,
            size_sum(rows@) <= i64::MAX,
            rest@ == orig,
            out@.len() == i,
            forall|j: int|
                0 <= j < i ==> {
                    let a = #[trigger] orig[j];
                    let b = out@[j];
                    &&& b.id@ == a.id@ && b.name@ == a.name@ && b.kind == a.kind && b.slug@ == a.slug@
                    &&& b.interest_rate == a.interest_rate && b.credit_limit == a.credit_limit
                    &&& b.balance == sum_of(rows@, account_path(a.kind, a.slug@))
                },
        decreases n - i,
    {
        let a = &rest[i];
        let path = a.hledger_account();
        let balance = account_balance(rows, path.as_str());
        let b = Account {
            id: string_of(&chars_of(a.id.as_str())),
            name: string_of(&chars_of(a.name.as_str())),
            kind: a.kind,
            slug: string_of(&chars_of(a.slug.as_str())),
            balance,
            interest_rate: a.interest_rate,
            credit_limit: a.credit_limit,
        };
        out.push(b);
        assert(out@[i as int] == b);
        i += 1;
    }
    out
}

} // verus!
