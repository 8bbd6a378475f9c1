//! Listing the daily log: the first day of the window, the order entries
//! are listed in (newest first), and the entries carrying a tag.
use vstd::prelude::*;
use crate::date::{Date, day_number, first_date, last_date, lemma_day_number_order};
use crate::notes::LogEntry;
use crate::text::{chars_of, eq_chars};

verus! {

broadcast use vstd::seq_lib::group_to_multiset_ensures;

// ---------------------------------------------------------------------------
// Text order
// ---------------------------------------------------------------------------

/// `a` comes strictly before `b` in the order of `str`: character by
/// character, by code point, a proper prefix first.
pub open spec fn text_lt(a: Seq<char>, b: Seq<char>) -> bool
    decreases a.len(),
{
    if a.len() == 0 {
        b.len() > 0
    } else if b.len() == 0 {
        false
    } else if a[0] != b[0] {
        a[0] < b[0]
    } else {
        text_lt(a.drop_first(), b.drop_first())
    }
}

/// The text order is irreflexive.
pub proof fn lemma_text_lt_irreflexive(a: Seq<char>)
    ensures
        !text_lt(a, a),
    decreases a.len(),
{
    if a.len() > 0 {
        lemma_text_lt_irreflexive(a.drop_first());
    }
}

/// The text order is transitive.
pub proof fn lemma_text_lt_transitive(a: Seq<char>, b: Seq<char>, c: Seq<char>)
    requires
        text_lt(a, b),
        text_lt(b, c),
    ensures
        text_lt(a, c),
    decreases a.len(),
{
    if a.len() > 0 && b.len() > 0 && c.len() > 0 && a[0] == b[0] && b[0] == c[0] {
        lemma_text_lt_transitive(a.drop_first(), b.drop_first(), c.drop_first());
    }
}

/// Of two different texts, one comes before the other.
pub proof fn lemma_text_lt_total(a: Seq<char>, b: Seq<char>)
    requires
        a != b,
    ensures
        text_lt(a, b) || text_lt(b, a),
    decreases a.len(),
{
    if a.len() > 0 && b.len() > 0 && a[0] == b[0] {
        if a.drop_first() == b.drop_first() {
            assert(a =~= seq![a[0]] + a.drop_first());
            assert(b =~= seq![b[0]] + b.drop_first());
        }
        lemma_text_lt_total(a.drop_first(), b.drop_first());
    } else if a.len() > 0 && b.len() > 0 {
        assert(a[0] != b[0]);
    } else if a.len() == 0 && b.len() == 0 {
        assert(a =~= b);
    }
}

/// Whether `a` comes strictly before `b` in the order of `str`.
pub fn text_lt_exec(a: &[char], b: &[char]) -> (r: bool)
    ensures
        r == text_lt(a@, b@),
{
    let mut i: usize = 0;
    assert(a@.skip(0) =~= a@ && b@.skip(0) =~= b@);
    while i < a.len() && i < b.len() && a[i] == b[i]
        invariant
            i <= a@.len(),
            i <= b@.len(),
            text_lt(a@, b@) == text_lt(a@.skip(i as int), b@.skip(i as int)),
        decreases a@.len() - i,
    {
        assert(a@.skip(i as int).drop_first() =~= a@.skip(i + 1));
        assert(b@.skip(i as int).drop_first() =~= b@.skip(i + 1));
        i += 1;
    }
    if i == a.len() {
        i < b.len()
    } else if i == b.len() {
        false
    } else {
        assert(a@.skip(i as int)[0] == a@[i as int]);
        assert(b@.skip(i as int)[0] == b@[i as int]);
        a[i] < b[i]
    }
}

// ---------------------------------------------------------------------------
// Newest first
// ---------------------------------------------------------------------------

/// `x` is older than `y`: an earlier date, or the same date and an earlier
/// time (as texts).
pub open spec fn older(x: LogEntry, y: LogEntry) -> bool {
    text_lt(x.date@, y.date@) || (x.date@ == y.date@ && text_lt(x.time@, y.time@))
}

/// Entries listed newest first: none is older than one after it.
pub open spec fn newest_first(s: Seq<LogEntry>) -> bool {
    forall|i: int, j: int| 0 <= i < j < s.len() ==> !older(s[i], s[j])
}

/// Being older is transitive, and an entry no older than one that is older
/// than a third is older than the third too.
proof fn lemma_older_order(x: LogEntry, y: LogEntry, z: LogEntry)
    ensures
        !older(x, x),
        older(x, y) && older(y, z) ==> older(x, z),
        older(x, y) ==> !older(y, x),
        !older(y, x) && older(y, z) ==> older(x, z),
{
    lemma_text_lt_irreflexive(x.date@);
    lemma_text_lt_irreflexive(x.time@);
    lemma_text_lt_irreflexive(y.date@);
    lemma_text_lt_irreflexive(y.time@);
    if text_lt(x.date@, y.date@) && text_lt(y.date@, z.date@) {
        lemma_text_lt_transitive(x.date@, y.date@, z.date@);
    }
    if text_lt(x.time@, y.time@) && text_lt(y.time@, z.time@) {
        lemma_text_lt_transitive(x.time@, y.time@, z.time@);
    }
    if text_lt(x.date@, y.date@) && text_lt(y.date@, x.date@) {
        lemma_text_lt_transitive(x.date@, y.date@, x.date@);
    }
    if text_lt(x.time@, y.time@) && text_lt(y.time@, x.time@) {
        lemma_text_lt_transitive(x.time@, y.time@, x.time@);
    }
    if x.date@ != y.date@ {
        lemma_text_lt_total(x.date@, y.date@);
    }
    if x.time@ != y.time@ {
        lemma_text_lt_total(x.time@, y.time@);
    }
    if text_lt(y.date@, x.date@) && text_lt(x.date@, z.date@) {
        lemma_text_lt_transitive(y.date@, x.date@, z.date@);
    }
    if text_lt(x.date@, y.date@) && text_lt(y.date@, z.date@) {
        lemma_text_lt_transitive(x.date@, y.date@, z.date@);
    }
    if text_lt(y.time@, x.time@) && text_lt(x.time@, z.time@) {
        lemma_text_lt_transitive(y.time@, x.time@, z.time@);
    }
    if text_lt(x.time@, y.time@) && text_lt(y.time@, z.time@) {
        lemma_text_lt_transitive(x.time@, y.time@, z.time@);
    }
    if !older(y, x) && older(y, z) {
        if text_lt(y.date@, z.date@) {
            if x.date@ != y.date@ {
                assert(text_lt(x.date@, y.date@));
            }
        } else {
            if x.date@ == y.date@ && x.time@ != y.time@ {
                assert(text_lt(x.time@, y.time@));
            }
        }
    }
}

/// Whether `x` is older than `y`.
fn older_exec(x: &LogEntry, y: &LogEntry) -> (r: bool)
    ensures
        r == older(*x, *y),
{
    let xd = chars_of(x.date.as_str());
    let yd = chars_of(y.date.as_str());
    if text_lt_exec(&xd, &yd) {
        return true;
    }
    if !eq_chars(&xd, &yd) {
        return false;
    }
    text_lt_exec(&chars_of(x.time.as_str()), &chars_of(y.time.as_str()))
}

/// The place `x` takes among `s` from index `k` on: before the first entry
/// older than it, at the end when there is none.
pub open spec fn place_from(s: Seq<LogEntry>, x: LogEntry, k: int) -> int
    decreases s.len() - k,
{
    if k < 0 || k >= s.len() {
        s.len() as int
    } else if older(s[k], x) {
        k
    } else {
        place_from(s, x, k + 1)
    }
}

/// `s` with `x` put in its place.
pub open spec fn placed(s: Seq<LogEntry>, x: LogEntry) -> Seq<LogEntry> {
    let p = place_from(s, x, 0);
    s.take(p) + seq![x] + s.skip(p)
}

/// The entries put in place one after the other, in their given order: of
/// entries of the same date and time, the one given first stays first.
pub open spec fn stably_newest_first(s: Seq<LogEntry>) -> Seq<LogEntry>
    decreases s.len(),
{
    if s.len() == 0 {
        s
    } else {
        placed(stably_newest_first(s.drop_last()), s.last())
    }
}

/// Puts `x` into newest-first `s`, after every entry no older than it.
#[verifier::rlimit(30)]
fn insert_entry(s: &mut Vec<LogEntry>, x: LogEntry)
    requires
        newest_first(old(s)@),
    ensures
        newest_first(final(s)@),
        final(s)@.to_multiset() == old(s)@.to_multiset().insert(x),
        final(s)@ == placed(old(s)@, x),
{
    let mut p: usize = 0;
    assert(place_from(s@, x, 0) == place_from(s@, x, 0));
    while p < s.len() && !older_exec(&s[p], &x)
        invariant
            p <= s@.len(),
            s@ == old(s)@,
            forall|k: int| 0 <= k < p ==> !older(#[trigger] s@[k], x),
            place_from(s@, x, 0) == place_from(s@, x, p as int),
        decreases s@.len() - p,
    {
        p += 1;
    }
    let ghost before = s@;
    s.insert(p, x);
    proof {
        let t = s@;
        assert forall|i: int, j: int| 0 <= i < j < t.len() implies !older(t[i], t[j]) by {
            if j < p {
                assert(t[i] == before[i] && t[j] == before[j]);
            } else if j == p {
                assert(t[i] == before[i]);
            } else if i == p {
                assert(t[j] == before[j - 1]);
                assert(older(before[p as int], x));
                if j - 1 > p {
                    assert(!older(before[p as int], before[j - 1]));
                }
                lemma_older_order(before[j - 1], before[p as int], x);
                lemma_older_order(before[j - 1], x, before[j - 1]);
            } else if i < p {
                assert(t[i] == before[i] && t[j] == before[j - 1]);
            } else {
                assert(t[i] == before[i - 1] && t[j] == before[j - 1]);
            }
        }
        assert(t[p as int] == x);
        assert(t =~= placed(before, x));
        assert(t.remove(p as int) =~= before);
        assert(t.to_multiset() =~= before.to_multiset().insert(x)) by {
            assert(t.remove(p as int).to_multiset() =~= t.to_multiset().remove(t[p as int]));
            assert(t.contains(x));
            assert(t.to_multiset().count(x) > 0);
        }
    }
}

/// The entries, newest first: ordered by date, then time, latest first;
/// entries of the same date and time keep their given order.
#[verifier::rlimit(30)]
pub fn newest_entries_first(entries: Vec<LogEntry>) -> (r: Vec<LogEntry>)
    ensures
        newest_first(r@),
        r@.to_multiset() == entries@.to_multiset(),
        r@ == stably_newest_first(entries@),
{
    let mut out: Vec<LogEntry> = Vec::new();
    let mut rest = entries;
    let ghost all = rest@;
    let n = rest.len();
    let mut i: usize = 0;
    assert(all.skip(0) =~= all);
    while rest.len() > 0
        invariant
            n == all.len(),
            i + rest@.len() == all.len(),
            rest@ == all.skip(i as int),
            newest_first(out@),
            all.to_multiset() == out@.to_multiset().add(rest@.to_multiset()),
            out@ == stably_newest_first(all.take(i as int)),
        decreases rest@.len(),
    {
        let ghost before_rest = rest@;
        let x = rest.remove(0);
        proof {
            assert(before_rest.remove(0).to_multiset() =~= before_rest.to_multiset().remove(before_rest[0]));
            assert(before_rest.contains(x));
        }
        let ghost before_out = out@;
        assert(rest@ =~= all.skip(i + 1));
        assert(x == all[i as int]);
        assert(all.take(i + 1).drop_last() =~= all.take(i as int));
        assert(all.take(i + 1).last() == x);
        insert_entry(&mut out, x);
        proof {
            assert(all.to_multiset() =~= out@.to_multiset().add(rest@.to_multiset()));
        }
        i += 1;
    }
    proof {
        assert(all.take(all.len() as int) =~= all);
        assert(rest@.to_multiset() =~= vstd::multiset::Multiset::<LogEntry>::empty());
        assert(all.to_multiset() =~= out@.to_multiset());
    }
    out
}

// ---------------------------------------------------------------------------
// Tags and the window
// ---------------------------------------------------------------------------

/// Whether an entry carries `tag`.
pub open spec fn carries(e: LogEntry, tag: Seq<char>) -> bool {
    exists|k: int| 0 <= k < e.tags@.len() && e.tags@[k]@ == tag
}

/// The entries carrying `tag`, in order.
pub open spec fn tagged(s: Seq<LogEntry>, tag: Seq<char>) -> Seq<LogEntry>
    decreases s.len(),
{
    if s.len() == 0 {
        s
    } else if carries(s.last(), tag) {
        tagged(s.drop_last(), tag).push(s.last())
    } else {
        tagged(s.drop_last(), tag)
    }
}

/// Whether an entry carries `tag`.
fn carries_exec(e: &LogEntry, tag: &[char]) -> (r: bool)
    ensures
        r == carries(*e, tag@),
{
    let mut k: usize = 0;
    while k < e.tags.len()
        invariant
            k <= e.tags@.len(),
            forall|j: int| 0 <= j < k ==> e.tags@[j]@ != tag@,
        decreases e.tags@.len() - k,
    {
        if eq_chars(&chars_of(e.tags[k].as_str()), tag) {
            return true;
        }
        k += 1;
    }
    false
}

/// The entries that carry `tag`, in order.
pub fn entries_tagged(entries: Vec<LogEntry>, tag: &str) -> (r: Vec<LogEntry>)
    ensures
        r@ == tagged(entries@, tag@),
{
    let t = chars_of(tag);
    let mut out: Vec<LogEntry> = Vec::new();
    let mut rest = entries;
    let ghost all = rest@;
    let n = rest.len();
    let mut i: usize = 0;
    assert(all.skip(0) =~= all);
    while rest.len() > 0
        invariant
            n == all.len(),
            t@ == tag@,
            i + rest@.len() == all.len(),
            rest@ == all.skip(i as int),
            out@ == tagged(all.take(i as int), tag@),
        decreases rest@.len(),
    {
        let ghost before = rest@;
        let x = rest.remove(0);
        assert(rest@ =~= all.skip(i + 1));
        assert(x == all[i as int]);
        assert(all.take(i + 1).drop_last() =~= all.take(i as int));
        assert(all.take(i + 1).last() == x);
        if carries_exec(&x, &t) {
            out.push(x);
        }
        i += 1;
    }
    assert(all.take(all.len() as int) =~= all);
    out
}

/// The first day of a listing of the last `days` days ending today (a
/// listing of one day or fewer is today's): `days - 1` days before
/// `today`, or `None` when that day is before the first representable one.
pub fn log_cutoff(today: Date, days: i64) -> (r: Option<Date>)
    ensures
        ({
            let back = if days < 1 {
                0
            } else {
                days - 1
            };
            &&& r is None <==> day_number(today@) - back < day_number(first_date())
            &&& r matches Some(d) ==> day_number(d@) == day_number(today@) - back
        }),
{
    let _ = today.day();
    proof {
        lemma_day_number_order(first_date(), today@);
        lemma_day_number_order(today@, last_date());
        assert(day_number(last_date()) - day_number(first_date()) < 0x7fff_ffff);
    }
    let back: i64 = if days < 1 {
        0
    } else {
        days - 1
    };
    if back > 0x7fff_ffff {
        return None;
    }
    today.checked_add_days(-back)
}

} // verus!
