//! What the journal parser reads back from a whole journal after a record
//! is appended to it: the records it held, then the new one.
use vstd::prelude::*;
use crate::text::{split, find, matches_at, trim_start, starts_with, contains, join, lemma_find_from_first, lemma_find_bounds,
    lemma_join_cons};
use crate::finances::journal_writer::{without_id, kept_blocks, has_tag, tag_at};
use crate::finances::journal_parser::{items_of, transfers_of, accounts_of, ItemView, TransferView, AccountView,
    trailing_number};
use crate::finances::journal_writer::{sanitized, sanitized_leaf, recurring_item_text, recurring_transfer_text,
    account_text, rate_limit_suffix};
use crate::finances::models::{Frequency, TxnKind, SpendingCategory, AccountKind};
use crate::finances::journal_laws::{lemma_recurring_item_round_trip, lemma_recurring_transfer_round_trip,
    lemma_account_round_trip};
use crate::finances::journal_parser::name_and_category;
use crate::finances::journal_laws::lacks;
use crate::text::{one_word, trim};
use crate::date::valid_ymd;

verus! {

/// A journal text ends at a block boundary: its last piece between blank
/// lines is empty. An empty journal does, and so does one whose every
/// record was written by the journal writer (each ends in a blank line).
pub open spec fn at_boundary(c: Seq<char>) -> bool {
    split(c, "\n\n"@).last() == Seq::<char>::empty()
}

/// Text appended to a journal that ends at a block boundary splits into
/// the journal's blocks, then the appended text's blocks.
pub proof fn lemma_split_append(c: Seq<char>, t: Seq<char>)
    requires
        at_boundary(c),
    ensures
        split(c + t, "\n\n"@) == split(c, "\n\n"@).drop_last() + split(t, "\n\n"@),
    decreases c.len(),
{
    reveal_strlit("\n\n");
    let p = "\n\n"@;
    assert(p.len() == 2);
    lemma_find_bounds(c, p);
    match find(c, p) {
        None => {
            assert(split(c, p) == seq![c]);
            assert(c =~= Seq::<char>::empty());
            assert(c + t =~= t);
            assert(split(c, p).drop_last() + split(t, p) =~= split(t, p));
        },
        Some(i) => {
            let s = c + t;
            assert forall|k: int| 0 <= k < i implies !#[trigger] matches_at(s, p, k) by {
                if matches_at(s, p, k) {
                    assert(s.subrange(k, k + 2) =~= c.subrange(k, k + 2));
                    assert(matches_at(c, p, k));
                }
            }
            assert(s.subrange(i, i + 2) =~= c.subrange(i, i + 2));
            assert(matches_at(s, p, i));
            lemma_find_from_first(s, p, 0, i);
            let rest = c.skip(i + 2);
            assert(split(c, p) == seq![c.take(i)] + split(rest, p));
            assert(split(rest, p).len() >= 1);
            assert(split(c, p).last() == split(rest, p).last());
            lemma_split_append(rest, t);
            assert(s.take(i) =~= c.take(i));
            assert(s.skip(i + 2) =~= rest + t);
            assert(split(s, p) == seq![s.take(i)] + split(s.skip(i + 2), p));
            assert(split(c, p).drop_last() =~= seq![c.take(i)] + split(rest, p).drop_last());
            assert(split(s, p) =~= split(c, p).drop_last() + split(t, p));
        },
    }
}

/// The recurring items of two runs of blocks are those of the first run,
/// then those of the second.
pub proof fn lemma_items_of_concat(a: Seq<Seq<char>>, b: Seq<Seq<char>>)
    ensures
        items_of(a + b) == items_of(a) + items_of(b),
    decreases b.len(),
{
    if b.len() == 0 {
        assert(a + b =~= a);
        assert(items_of(a) + items_of(b) =~= items_of(a));
    } else {
        lemma_items_of_concat(a, b.drop_last());
        assert((a + b).drop_last() =~= a + b.drop_last());
        assert((a + b).last() == b.last());
        let x = b.last();
        if starts_with(trim_start(x), "~ "@) {
            match crate::finances::journal_parser::block_item(x) {
                Some(v) => {
                    assert(items_of(a) + items_of(b.drop_last()).push(v) =~= (items_of(a) + items_of(
                        b.drop_last(),
                    )).push(v));
                },
                None => {},
            }
        }
    }
}

/// The recurring transfers of two runs of blocks are those of the first
/// run, then those of the second.
pub proof fn lemma_transfers_of_concat(a: Seq<Seq<char>>, b: Seq<Seq<char>>)
    ensures
        transfers_of(a + b) == transfers_of(a) + transfers_of(b),
    decreases b.len(),
{
    if b.len() == 0 {
        assert(a + b =~= a);
        assert(transfers_of(a) + transfers_of(b) =~= transfers_of(a));
    } else {
        lemma_transfers_of_concat(a, b.drop_last());
        assert((a + b).drop_last() =~= a + b.drop_last());
        assert((a + b).last() == b.last());
        let x = b.last();
        if starts_with(trim_start(x), "~ "@) && crate::text::contains(x, "transfer:1"@) {
            match crate::finances::journal_parser::block_transfer(x) {
                Some(v) => {
                    assert(transfers_of(a) + transfers_of(b.drop_last()).push(v) =~= (transfers_of(a)
                        + transfers_of(b.drop_last())).push(v));
                },
                None => {},
            }
        }
    }
}

/// The accounts of two runs of blocks are those of the first run, then
/// those of the second.
pub proof fn lemma_accounts_of_concat(a: Seq<Seq<char>>, b: Seq<Seq<char>>)
    ensures
        accounts_of(a + b) == accounts_of(a) + accounts_of(b),
    decreases b.len(),
{
    if b.len() == 0 {
        assert(a + b =~= a);
        assert(accounts_of(a) + accounts_of(b) =~= accounts_of(a));
    } else {
        lemma_accounts_of_concat(a, b.drop_last());
        assert((a + b).drop_last() =~= a + b.drop_last());
        assert((a + b).last() == b.last());
        let x = b.last();
        if starts_with(trim_start(x), "account "@) {
            match crate::finances::journal_parser::block_account(x) {
                Some(v) => {
                    assert(accounts_of(a) + accounts_of(b.drop_last()).push(v) =~= (accounts_of(a)
                        + accounts_of(b.drop_last())).push(v));
                },
                None => {},
            }
        }
    }
}

/// An empty block holds no record.
proof fn lemma_empty_block()
    ensures
        items_of(seq![Seq::<char>::empty()]) == Seq::<ItemView>::empty(),
        transfers_of(seq![Seq::<char>::empty()]).len() == 0,
        accounts_of(seq![Seq::<char>::empty()]).len() == 0,
{
    reveal_strlit("~ ");
    reveal_strlit("account ");
    let e = Seq::<char>::empty();
    let none = Seq::<Seq<char>>::empty();
    let bs = seq![e];
    assert(bs.drop_last() =~= none);
    assert(items_of(none) == Seq::<ItemView>::empty());
    assert(transfers_of(none).len() == 0);
    assert(accounts_of(none).len() == 0);
    assert(bs.last() == e);
    assert(trim_start(e) == e);
    assert(!starts_with(e, "~ "@));
    assert(!starts_with(e, "account "@));
}

/// The records read from a journal that ends at a block boundary are those
/// of its blocks but the last (empty) one.
proof fn lemma_boundary_blocks(c: Seq<char>)
    requires
        at_boundary(c),
    ensures
        items_of(split(c, "\n\n"@).drop_last()) == items_of(split(c, "\n\n"@)),
        transfers_of(split(c, "\n\n"@).drop_last()) == transfers_of(split(c, "\n\n"@)),
        accounts_of(split(c, "\n\n"@).drop_last()) == accounts_of(split(c, "\n\n"@)),
{
    reveal_strlit("\n\n");
    let bs = split(c, "\n\n"@);
    assert(bs.len() >= 1);
    assert(bs =~= bs.drop_last() + seq![Seq::<char>::empty()]);
    lemma_items_of_concat(bs.drop_last(), seq![Seq::<char>::empty()]);
    lemma_transfers_of_concat(bs.drop_last(), seq![Seq::<char>::empty()]);
    lemma_accounts_of_concat(bs.drop_last(), seq![Seq::<char>::empty()]);
    lemma_empty_block();
    assert(items_of(bs.drop_last()) + Seq::<ItemView>::empty() =~= items_of(bs.drop_last()));
    assert(transfers_of(bs.drop_last()) + transfers_of(seq![Seq::<char>::empty()]) =~= transfers_of(
        bs.drop_last(),
    ));
    assert(accounts_of(bs.drop_last()) + accounts_of(seq![Seq::<char>::empty()]) =~= accounts_of(
        bs.drop_last(),
    ));
}

/// A recurring item appended to a journal that ends at a block boundary
/// reads back after the journal's own recurring items, under the
/// conditions of its round trip (see `lemma_recurring_item_round_trip`).
#[verifier::rlimit(30)]
pub proof fn lemma_item_appended(
    c: Seq<char>,
    id: Seq<char>,
    name: Seq<char>,
    amount: i64,
    kind: TxnKind,
    label: Seq<char>,
    frequency: Frequency,
    rd: Option<(int, int, int)>,
    account: Seq<char>,
    category: Option<SpendingCategory>,
)
    requires
        at_boundary(c),
        one_word(id),
        trim(sanitized(name)) == sanitized(name),
        category is Some ==> sanitized(name).len() > 0,
        category is None ==> name_and_category(sanitized(name)) == (sanitized(name), None::<SpendingCategory>),
        one_word(sanitized_leaf(label)),
        account.len() > 0,
        one_word(account),
        kind == TxnKind::Expense ==> lacks(sanitized_leaf(label), '$'),
        kind == TxnKind::Income ==> lacks(account, '$') && !starts_with(account, "expenses:"@),
        rd matches Some(d) ==> valid_ymd(d.0, d.1, d.2),
    ensures
        items_of(
            split(
                c + recurring_item_text(id, name, amount as int, kind, label, frequency, rd, account, category),
                "\n\n"@,
            ),
        ) == items_of(split(c, "\n\n"@)).push(
            ItemView {
                id,
                name: sanitized(name),
                amount: amount as int,
                kind,
                label: sanitized_leaf(label),
                frequency,
                reference_date: rd,
                account,
                category,
            },
        ),
{
    let t = recurring_item_text(id, name, amount as int, kind, label, frequency, rd, account, category);
    lemma_split_append(c, t);
    lemma_items_of_concat(split(c, "\n\n"@).drop_last(), split(t, "\n\n"@));
    lemma_recurring_item_round_trip(id, name, amount, kind, label, frequency, rd, account, category);
    lemma_boundary_blocks(c);
}

/// A recurring transfer appended to a journal that ends at a block
/// boundary reads back after the journal's own recurring transfers, under
/// the conditions of its round trip (see
/// `lemma_recurring_transfer_round_trip`).
#[verifier::rlimit(30)]
pub proof fn lemma_transfer_appended(
    c: Seq<char>,
    id: Seq<char>,
    name: Seq<char>,
    amount: i64,
    frequency: Frequency,
    rd: Option<(int, int, int)>,
    from_account: Seq<char>,
    to_account: Seq<char>,
)
    requires
        at_boundary(c),
        one_word(id),
        trim(sanitized(name)) == sanitized(name),
        from_account.len() > 0,
        one_word(from_account),
        to_account.len() > 0,
        one_word(to_account),
        lacks(to_account, '$'),
        rd matches Some(d) ==> valid_ymd(d.0, d.1, d.2),
    ensures
        transfers_of(
            split(c + recurring_transfer_text(id, name, amount as int, frequency, rd, from_account, to_account), "\n\n"@),
        ) == transfers_of(split(c, "\n\n"@)).push(
            TransferView {
                id,
                name: sanitized(name),
                amount: amount as int,
                frequency,
                reference_date: rd,
                from_account,
                to_account,
            },
        ),
{
    let t = recurring_transfer_text(id, name, amount as int, frequency, rd, from_account, to_account);
    lemma_split_append(c, t);
    lemma_transfers_of_concat(split(c, "\n\n"@).drop_last(), split(t, "\n\n"@));
    lemma_recurring_transfer_round_trip(id, name, amount, frequency, rd, from_account, to_account);
    lemma_boundary_blocks(c);
}

/// An account directive appended to a journal that ends at a block
/// boundary reads back after the journal's own accounts, under the
/// conditions of its round trip (see `lemma_account_round_trip`).
#[verifier::rlimit(30)]
pub proof fn lemma_account_appended(
    c: Seq<char>,
    id: Seq<char>,
    name: Seq<char>,
    kind: AccountKind,
    slug: Seq<char>,
    interest_rate: Option<i64>,
    credit_limit: Option<i64>,
)
    requires
        at_boundary(c),
        one_word(id),
        one_word(slug),
        lacks(slug, ';'),
        trim(sanitized(name)) == sanitized(name),
        (interest_rate is Some || credit_limit is Some) ==> sanitized(name).len() > 0,
        credit_limit is None ==> trailing_number(
            sanitized(name) + rate_limit_suffix(
                match interest_rate {
                    Some(x) => Some(x as int),
                    None => None,
                },
                None,
            ),
            " limit:"@,
        ).1 is None,
        interest_rate is None ==> trailing_number(sanitized(name), " rate:"@).1 is None,
    ensures
        ({
            let rate: Option<int> = match interest_rate {
                Some(x) => Some(x as int),
                None => None,
            };
            let limit: Option<int> = match credit_limit {
                Some(x) => Some(x as int),
                None => None,
            };
            accounts_of(split(c + account_text(id, name, kind, slug, rate, limit), "\n\n"@)) == accounts_of(
                split(c, "\n\n"@),
            ).push(AccountView { id, name: sanitized(name), kind, slug, interest_rate: rate, credit_limit: limit })
        }),
{
    let rate: Option<int> = match interest_rate {
        Some(x) => Some(x as int),
        None => None,
    };
    let limit: Option<int> = match credit_limit {
        Some(x) => Some(x as int),
        None => None,
    };
    let t = account_text(id, name, kind, slug, rate, limit);
    lemma_split_append(c, t);
    lemma_accounts_of_concat(split(c, "\n\n"@).drop_last(), split(t, "\n\n"@));
    lemma_account_round_trip(id, name, kind, slug, interest_rate, credit_limit);
    lemma_boundary_blocks(c);
}

// ---------------------------------------------------------------------------
// Rewriting a record
// ---------------------------------------------------------------------------

/// A block ending in a line feed.
pub open spec fn ends_nl(b: Seq<char>) -> bool {
    b.len() > 0 && b.last() == '\n'
}

/// Blocks as `split` on blank lines gives them: none holds a blank line,
/// and none but the last ends in a line feed.
pub open spec fn pieces_ok(bs: Seq<Seq<char>>) -> bool {
    &&& forall|i: int| 0 <= i < bs.len() ==> !contains(#[trigger] bs[i], "\n\n"@)
    &&& forall|i: int| 0 <= i < bs.len() - 1 ==> !ends_nl(#[trigger] bs[i])
}

/// Blocks none of which holds a blank line or ends in a line feed.
pub open spec fn all_clean(bs: Seq<Seq<char>>) -> bool {
    forall|i: int| 0 <= i < bs.len() ==> !contains(#[trigger] bs[i], "\n\n"@) && !ends_nl(bs[i])
}

/// The pieces of a text split on blank lines are blocks as `pieces_ok`
/// says, and there is at least one.
proof fn lemma_split_pieces(c: Seq<char>)
    ensures
        pieces_ok(split(c, "\n\n"@)),
        split(c, "\n\n"@).len() >= 1,
    decreases c.len(),
{
    reveal_strlit("\n\n");
    let p = "\n\n"@;
    assert(p.len() == 2);
    lemma_find_bounds(c, p);
    match find(c, p) {
        None => {
            assert(split(c, p) == seq![c]);
        },
        Some(i) => {
            let rest = c.skip(i + 2);
            let head = c.take(i);
            lemma_split_pieces(rest);
            lemma_find_bounds(head, p);
            if find(head, p) is Some {
                let j = find(head, p)->0;
                assert(head.subrange(j, j + 2) =~= c.subrange(j, j + 2));
                assert(matches_at(c, p, j));
                assert(false);
            }
            if ends_nl(head) {
                assert(c.subrange(i, i + 2) == p);
                assert(c[i] == c.subrange(i, i + 2)[0]);
                assert(c.subrange(i - 1, i + 1) =~= p);
                assert(matches_at(c, p, i - 1));
                assert(false);
            }
            let bs = split(c, p);
            let rs = split(rest, p);
            assert(bs == seq![head] + rs);
            assert forall|k: int| 0 <= k < bs.len() implies !contains(#[trigger] bs[k], p) by {
                if k > 0 {
                    assert(bs[k] == rs[k - 1]);
                }
            }
            assert forall|k: int| 0 <= k < bs.len() - 1 implies !ends_nl(#[trigger] bs[k]) by {
                if k > 0 {
                    assert(bs[k] == rs[k - 1]);
                }
            }
        },
    }
}

/// Blocks as `split` gives them split back from their join on blank lines.
proof fn lemma_split_join(bs: Seq<Seq<char>>)
    requires
        bs.len() >= 1,
        pieces_ok(bs),
    ensures
        split(join(bs, "\n\n"@), "\n\n"@) == bs,
    decreases bs.len(),
{
    reveal_strlit("\n\n");
    let p = "\n\n"@;
    assert(p.len() == 2);
    let b0 = bs[0];
    lemma_find_bounds(b0, p);
    assert(!contains(b0, p));
    if bs.len() == 1 {
        assert(join(bs, p) == b0);
        assert(split(b0, p) == seq![b0]);
        assert(seq![b0] =~= bs);
    } else {
        let tl = bs.drop_first();
        assert(bs =~= seq![b0] + tl);
        assert forall|k: int| 0 <= k < tl.len() implies !contains(#[trigger] tl[k], p) by {
            assert(tl[k] == bs[k + 1]);
        }
        assert forall|k: int| 0 <= k < tl.len() - 1 implies !ends_nl(#[trigger] tl[k]) by {
            assert(tl[k] == bs[k + 1]);
        }
        lemma_split_join(tl);
        lemma_join_cons(b0, tl, p);
        let j = join(tl, p);
        let s = b0 + p + j;
        assert(join(bs, p) == s);
        let n = b0.len() as int;
        assert(!ends_nl(b0));
        assert forall|k: int| 0 <= k < n implies !#[trigger] matches_at(s, p, k) by {
            if matches_at(s, p, k) {
                if k + 2 <= n {
                    assert(s.subrange(k, k + 2) =~= b0.subrange(k, k + 2));
                    assert(matches_at(b0, p, k));
                } else {
                    assert(s[k] == s.subrange(k, k + 2)[0]);
                    assert(s[k] == b0[k]);
                    assert(b0.last() == b0[k]);
                }
            }
        }
        assert(s.subrange(n, n + 2) =~= p);
        lemma_find_from_first(s, p, 0, n);
        assert(s.take(n) =~= b0);
        assert(s.skip(n + 2) =~= j);
        assert(split(s, p) == seq![s.take(n)] + split(s.skip(n + 2), p));
    }
}

/// Keeping some of a run of clean blocks leaves clean blocks.
proof fn lemma_kept_clean(bs: Seq<Seq<char>>, m: Seq<char>)
    requires
        all_clean(bs),
    ensures
        all_clean(kept_blocks(bs, m)),
    decreases bs.len(),
{
    if bs.len() > 0 {
        let pre = bs.drop_last();
        assert forall|i: int| 0 <= i < pre.len() implies !contains(#[trigger] pre[i], "\n\n"@) && !ends_nl(
            pre[i],
        ) by {
            assert(pre[i] == bs[i]);
        }
        lemma_kept_clean(pre, m);
        let k = kept_blocks(bs, m);
        let kp = kept_blocks(pre, m);
        if !has_tag(bs.last(), m) {
            assert forall|i: int| 0 <= i < k.len() implies !contains(#[trigger] k[i], "\n\n"@) && !ends_nl(
                k[i],
            ) by {
                if i < kp.len() {
                    assert(k[i] == kp[i]);
                } else {
                    assert(k[i] == bs[bs.len() - 1]);
                }
            }
        }
    }
}

/// Keeping the blocks of a split that do not carry a marker, when the last
/// block carries none, leaves blocks as `split` gives them, ending with the
/// last one.
proof fn lemma_kept_pieces(bs: Seq<Seq<char>>, m: Seq<char>)
    requires
        bs.len() >= 1,
        pieces_ok(bs),
        !has_tag(bs.last(), m),
    ensures
        kept_blocks(bs, m).len() >= 1,
        kept_blocks(bs, m).last() == bs.last(),
        pieces_ok(kept_blocks(bs, m)),
{
    let pre = bs.drop_last();
    assert forall|i: int| 0 <= i < pre.len() implies !contains(#[trigger] pre[i], "\n\n"@) && !ends_nl(pre[i]) by {
        assert(pre[i] == bs[i]);
    }
    lemma_kept_clean(pre, m);
    let kp = kept_blocks(pre, m);
    let k = kept_blocks(bs, m);
    assert(k == kp.push(bs.last()));
    assert(bs.last() == bs[bs.len() - 1]);
    assert forall|i: int| 0 <= i < k.len() implies !contains(#[trigger] k[i], "\n\n"@) by {
        if i < kp.len() {
            assert(k[i] == kp[i]);
        }
    }
    assert forall|i: int| 0 <= i < k.len() - 1 implies !ends_nl(#[trigger] k[i]) by {
        assert(k[i] == kp[i]);
    }
}

/// A recurring item rewritten in a journal that ends at a block boundary
/// (its blocks carrying `id:{id}` removed, the item's new text appended)
/// reads back as the recurring items of the journal's other blocks, then
/// the rewritten item, under the conditions of its round trip (see
/// `lemma_recurring_item_round_trip`).
#[verifier::rlimit(30)]
pub proof fn lemma_item_rewritten(
    c: Seq<char>,
    id: Seq<char>,
    name: Seq<char>,
    amount: i64,
    kind: TxnKind,
    label: Seq<char>,
    frequency: Frequency,
    rd: Option<(int, int, int)>,
    account: Seq<char>,
    category: Option<SpendingCategory>,
)
    requires
        at_boundary(c),
        one_word(id),
        trim(sanitized(name)) == sanitized(name),
        category is Some ==> sanitized(name).len() > 0,
        category is None ==> name_and_category(sanitized(name)) == (sanitized(name), None::<SpendingCategory>),
        one_word(sanitized_leaf(label)),
        account.len() > 0,
        one_word(account),
        kind == TxnKind::Expense ==> lacks(sanitized_leaf(label), '$'),
        kind == TxnKind::Income ==> lacks(account, '$') && !starts_with(account, "expenses:"@),
        rd matches Some(d) ==> valid_ymd(d.0, d.1, d.2),
    ensures
        items_of(
            split(
                without_id(c, id).1 + recurring_item_text(
                    id,
                    name,
                    amount as int,
                    kind,
                    label,
                    frequency,
                    rd,
                    account,
                    category,
                ),
                "\n\n"@,
            ),
        ) == items_of(kept_blocks(split(c, "\n\n"@), "id:"@ + id)).push(
            ItemView {
                id,
                name: sanitized(name),
                amount: amount as int,
                kind,
                label: sanitized_leaf(label),
                frequency,
                reference_date: rd,
                account,
                category,
            },
        ),
{
    reveal_strlit("id:");
    let m = "id:"@ + id;
    let bs = split(c, "\n\n"@);
    lemma_split_pieces(c);
    assert(bs.last() == Seq::<char>::empty());
    assert forall|k: int| !tag_at(bs.last(), m, k) by {}
    assert(!has_tag(bs.last(), m));
    lemma_kept_pieces(bs, m);
    let kb = kept_blocks(bs, m);
    lemma_split_join(kb);
    let rest = join(kb, "\n\n"@);
    assert(without_id(c, id).1 == rest);
    assert(at_boundary(rest));
    lemma_item_appended(rest, id, name, amount, kind, label, frequency, rd, account, category);
}

/// A recurring transfer rewritten in a journal that ends at a block
/// boundary reads back as the recurring transfers of the journal's other
/// blocks, then the rewritten transfer, under the conditions of its round
/// trip (see `lemma_recurring_transfer_round_trip`).
#[verifier::rlimit(30)]
pub proof fn lemma_transfer_rewritten(
    c: Seq<char>,
    id: Seq<char>,
    name: Seq<char>,
    amount: i64,
    frequency: Frequency,
    rd: Option<(int, int, int)>,
    from_account: Seq<char>,
    to_account: Seq<char>,
)
    requires
        at_boundary(c),
        one_word(id),
        trim(sanitized(name)) == sanitized(name),
        from_account.len() > 0,
        one_word(from_account),
        to_account.len() > 0,
        one_word(to_account),
        lacks(to_account, '$'),
        rd matches Some(d) ==> valid_ymd(d.0, d.1, d.2),
    ensures
        transfers_of(
            split(
                without_id(c, id).1 + recurring_transfer_text(
                    id,
                    name,
                    amount as int,
                    frequency,
                    rd,
                    from_account,
                    to_account,
                ),
                "\n\n"@,
            ),
        ) == transfers_of(kept_blocks(split(c, "\n\n"@), "id:"@ + id)).push(
            TransferView {
                id,
                name: sanitized(name),
                amount: amount as int,
                frequency,
                reference_date: rd,
                from_account,
                to_account,
            },
        ),
{
    reveal_strlit("id:");
    let m = "id:"@ + id;
    let bs = split(c, "\n\n"@);
    lemma_split_pieces(c);
    assert(bs.last() == Seq::<char>::empty());
    assert forall|k: int| !tag_at(bs.last(), m, k) by {}
    assert(!has_tag(bs.last(), m));
    lemma_kept_pieces(bs, m);
    let kb = kept_blocks(bs, m);
    lemma_split_join(kb);
    let rest = join(kb, "\n\n"@);
    assert(without_id(c, id).1 == rest);
    assert(at_boundary(rest));
    lemma_transfer_appended(rest, id, name, amount, frequency, rd, from_account, to_account);
}

/// An account rewritten in a journal that ends at a block boundary reads
/// back as the accounts of the journal's other blocks, then the rewritten
/// account, under the conditions of its round trip (see
/// `lemma_account_round_trip`).
#[verifier::rlimit(30)]
pub proof fn lemma_account_rewritten(
    c: Seq<char>,
    id: Seq<char>,
    name: Seq<char>,
    kind: AccountKind,
    slug: Seq<char>,
    interest_rate: Option<i64>,
    credit_limit: Option<i64>,
)
    requires
        at_boundary(c),
        one_word(id),
        one_word(slug),
        lacks(slug, ';'),
        trim(sanitized(name)) == sanitized(name),
        (interest_rate is Some || credit_limit is Some) ==> sanitized(name).len() > 0,
        credit_limit is None ==> trailing_number(
            sanitized(name) + rate_limit_suffix(
                match interest_rate {
                    Some(x) => Some(x as int),
                    None => None,
                },
                None,
            ),
            " limit:"@,
        ).1 is None,
        interest_rate is None ==> trailing_number(sanitized(name), " rate:"@).1 is None,
    ensures
        ({
            let rate: Option<int> = match interest_rate {
                Some(x) => Some(x as int),
                None => None,
            };
            let limit: Option<int> = match credit_limit {
                Some(x) => Some(x as int),
                None => None,
            };
            accounts_of(split(without_id(c, id).1 + account_text(id, name, kind, slug, rate, limit), "\n\n"@))
                == accounts_of(kept_blocks(split(c, "\n\n"@), "id:"@ + id)).push(
                AccountView { id, name: sanitized(name), kind, slug, interest_rate: rate, credit_limit: limit },
            )
        }),
{
    reveal_strlit("id:");
    let m = "id:"@ + id;
    let bs = split(c, "\n\n"@);
    lemma_split_pieces(c);
    assert(bs.last() == Seq::<char>::empty());
    assert forall|k: int| !tag_at(bs.last(), m, k) by {}
    assert(!has_tag(bs.last(), m));
    lemma_kept_pieces(bs, m);
    let kb = kept_blocks(bs, m);
    lemma_split_join(kb);
    let rest = join(kb, "\n\n"@);
    assert(without_id(c, id).1 == rest);
    assert(at_boundary(rest));
    lemma_account_appended(rest, id, name, kind, slug, interest_rate, credit_limit);
}

/// Removing the blocks that carry `id:{id}` from a journal leaves exactly
/// the recurring items, recurring transfers and accounts of its other
/// blocks for the parser to read.
#[verifier::rlimit(30)]
pub proof fn lemma_record_removed(c: Seq<char>, id: Seq<char>)
    ensures
        items_of(split(without_id(c, id).1, "\n\n"@)) == items_of(kept_blocks(split(c, "\n\n"@), "id:"@ + id)),
        transfers_of(split(without_id(c, id).1, "\n\n"@)) == transfers_of(
            kept_blocks(split(c, "\n\n"@), "id:"@ + id),
        ),
        accounts_of(split(without_id(c, id).1, "\n\n"@)) == accounts_of(
            kept_blocks(split(c, "\n\n"@), "id:"@ + id),
        ),
{
    reveal_strlit("\n\n");
    let m = "id:"@ + id;
    let bs = split(c, "\n\n"@);
    lemma_split_pieces(c);
    let kb = kept_blocks(bs, m);
    let rest = join(kb, "\n\n"@);
    assert(without_id(c, id).1 == rest);
    if has_tag(bs.last(), m) {
        let pre = bs.drop_last();
        assert forall|i: int| 0 <= i < pre.len() implies !contains(#[trigger] pre[i], "\n\n"@) && !ends_nl(
            pre[i],
        ) by {
            assert(pre[i] == bs[i]);
        }
        lemma_kept_clean(pre, m);
        assert(kb == kept_blocks(pre, m));
    } else {
        lemma_kept_pieces(bs, m);
    }
    if kb.len() == 0 {
        assert(rest == Seq::<char>::empty());
        lemma_find_bounds(rest, "\n\n"@);
        assert(split(rest, "\n\n"@) == seq![rest]);
        lemma_empty_block();
        assert(seq![rest] =~= seq![Seq::<char>::empty()]);
    } else {
        lemma_split_join(kb);
    }
}

} // verus!
