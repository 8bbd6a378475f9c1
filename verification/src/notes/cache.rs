//! The local cache of notes: when a note is read again, which cached notes
//! are gone, and the tags across the cached notes.
use vstd::prelude::*;
use crate::notes::daily::{text_lt, lemma_text_lt_transitive, lemma_text_lt_total, text_lt_exec};
use crate::notes::requests::excluded_from_all;
use crate::text::{chars_of, string_of, eq_chars, str_views};

verus! {

/// Whether a note's file must be read again: unless its modification time
/// (whole seconds) is known both now and at the last sync, and unchanged.
pub fn needs_refresh(current_mtime: Option<i64>, cached_mtime: Option<i64>) -> (r: bool)
    ensures
        r == !(current_mtime is Some && cached_mtime is Some && current_mtime == cached_mtime),
{
    match (current_mtime, cached_mtime) {
        (Some(cur), Some(cached)) => cur != cached,
        _ => true,
    }
}

/// The cached notes of a notebook (by id) that its listing no longer has,
/// in cache order.
pub open spec fn gone(cached: Seq<u64>, seen: Seq<u64>) -> Seq<u64>
    decreases cached.len(),
{
    if cached.len() == 0 {
        cached
    } else if seen.contains(cached.last()) {
        gone(cached.drop_last(), seen)
    } else {
        gone(cached.drop_last(), seen).push(cached.last())
    }
}

/// The ids of cached notes that the live listing no longer has: notes
/// deleted outside the application.
pub fn stale_ids(cached: &Vec<u64>, seen: &Vec<u64>) -> (r: Vec<u64>)
    ensures
        r@ == gone(cached@, seen@),
{
    let mut out: Vec<u64> = Vec::new();
    let mut i: usize = 0;
    while i < cached.len()
        invariant
            i <= cached@.len(),
            out@ == gone(cached@.take(i as int), seen@),
        decreases cached@.len() - i,
    {
        let id = cached[i];
        let mut found = false;
        let mut j: usize = 0;
        while j < seen.len()
            invariant
                j <= seen@.len(),
                found == exists|k: int| 0 <= k < j && seen@[k] == id,
            decreases seen@.len() - j,
        {
            if seen[j] == id {
                found = true;
            }
            j += 1;
        }
        assert(cached@.take(i + 1).drop_last() =~= cached@.take(i as int));
        assert(cached@.take(i + 1).last() == id);
        assert(found == seen@.contains(id));
        if !found {
            out.push(id);
        }
        i += 1;
    }
    assert(cached@.take(cached@.len() as int) =~= cached@);
    out
}

/// `s` lists texts in strictly increasing order (so each once).
pub open spec fn ascending(s: Seq<Seq<char>>) -> bool {
    forall|i: int, j: int| 0 <= i < j < s.len() ==> text_lt(s[i], s[j])
}

/// The tags of the cached notes (notebook, tags) that a listing of all
/// notebooks shows.
pub open spec fn listed_tag(rows: Seq<(String, Vec<String>)>, t: Seq<char>) -> bool {
    exists|i: int, k: int|
        0 <= i < rows.len() && !excluded_from_all(rows[i].0@) && 0 <= k < rows[i].1@.len() && rows[i].1@[k]@ == t
}

/// Puts `t` into the ascending texts `s`, unless it is there already.
#[verifier::rlimit(30)]
fn insert_unique(s: &mut Vec<String>, t: String)
    requires
        ascending(str_views(old(s)@)),
    ensures
        ascending(str_views(final(s)@)),
        forall|x: Seq<char>| str_views(final(s)@).contains(x) <==> (str_views(old(s)@).contains(x) || x == t@),
{
    let tv = chars_of(t.as_str());
    let mut p: usize = 0;
    let ghost v = str_views(s@);
    while p < s.len() && text_lt_exec(&chars_of(s[p].as_str()), &tv)
        invariant
            p <= s@.len(),
            tv@ == t@,
            v == str_views(s@),
            s@ == old(s)@,
            forall|k: int| 0 <= k < p ==> text_lt(#[trigger] v[k], t@),
        decreases s@.len() - p,
    {
        p += 1;
    }
    if p < s.len() && eq_chars(&chars_of(s[p].as_str()), &tv) {
        assert(v[p as int] == t@);
        return;
    }
    let ghost before = s@;
    s.insert(p, t);
    proof {
        let w = str_views(s@);
        assert(w =~= v.take(p as int) + seq![t@] + v.skip(p as int));
        if p < v.len() {
            assert(v[p as int] != t@);
            assert(!text_lt(v[p as int], t@));
            lemma_text_lt_total(v[p as int], t@);
        }
        assert forall|i: int, j: int| 0 <= i < j < w.len() implies text_lt(w[i], w[j]) by {
            if j < p {
                assert(w[i] == v[i] && w[j] == v[j]);
            } else if j == p {
                assert(w[i] == v[i]);
            } else if i == p {
                assert(w[j] == v[j - 1]);
                if j - 1 > p {
                    assert(text_lt(v[p as int], v[j - 1]));
                    lemma_text_lt_transitive(t@, v[p as int], v[j - 1]);
                }
            } else if i < p {
                assert(w[i] == v[i] && w[j] == v[j - 1]);
            } else {
                assert(w[i] == v[i - 1] && w[j] == v[j - 1]);
            }
        }
        assert forall|x: Seq<char>| w.contains(x) <==> (v.contains(x) || x == t@) by {
            if w.contains(x) {
                let k = choose|k: int| 0 <= k < w.len() && w[k] == x;
                if k < p {
                    assert(v[k] == x);
                } else if k > p {
                    assert(v[k - 1] == x);
                }
            }
            if v.contains(x) {
                let k = choose|k: int| 0 <= k < v.len() && v[k] == x;
                if k < p {
                    assert(w[k] == x);
                } else {
                    assert(w[k + 1] == x);
                }
            }
            if x == t@ {
                assert(w[p as int] == x);
            }
        }
    }
}

/// The distinct tags of the cached notes, given as (notebook, tags), that
/// a listing of all notebooks shows, in ascending order.
#[verifier::rlimit(30)]
pub fn distinct_tags(rows: &Vec<(String, Vec<String>)>) -> (r: Vec<String>)
    ensures
        ascending(str_views(r@)),
        forall|t: Seq<char>| str_views(r@).contains(t) <==> listed_tag(rows@, t),
{
    let mut out: Vec<String> = Vec::new();
    let mut i: usize = 0;
    while i < rows.len()
        invariant
            i <= rows@.len(),
            ascending(str_views(out@)),
            forall|t: Seq<char>| str_views(out@).contains(t) <==> listed_tag(rows@.take(i as int), t),
        decreases rows@.len() - i,
    {
        let ghost pre = rows@.take(i as int);
        let ghost post = rows@.take(i + 1);
        let nb = chars_of(rows[i].0.as_str());
        let hidden = eq_chars(&nb, &chars_of("log")) || eq_chars(&nb, &chars_of("todo")) || eq_chars(
            &nb,
            &chars_of("archive"),
        );
        if !hidden {
            let tags = &rows[i].1;
            let mut k: usize = 0;
            while k < tags.len()
                invariant
                    k <= tags@.len(),
                    i < rows@.len(),
                    tags == rows@[i as int].1,
                    pre == rows@.take(i as int),
                    ascending(str_views(out@)),
                    forall|t: Seq<char>|
                        str_views(out@).contains(t) <==> (listed_tag(pre, t) || exists|m: int|
                            0 <= m < k && tags@[m]@ == t),
                decreases tags@.len() - k,
            {
                let ghost before = str_views(out@);
                assert(forall|t: Seq<char>|
                    #[trigger] before.contains(t) <==> (listed_tag(pre, t) || exists|m: int|
                        0 <= m < k && tags@[m]@ == t));
                let tag_k = string_of(&chars_of(tags[k].as_str()));
                let ghost tk = tag_k@;
                assert(tk == tags@[k as int]@);
                insert_unique(&mut out, tag_k);
                assert forall|t: Seq<char>|
                    str_views(out@).contains(t) <==> (listed_tag(pre, t) || exists|m: int|
                        0 <= m < k + 1 && tags@[m]@ == t) by {
                    assert(str_views(out@).contains(t) <==> (before.contains(t) || t == tk));
                    if t == tags@[k as int]@ {
                        assert(exists|m: int| 0 <= m < k + 1 && tags@[m]@ == t);
                    }
                    if exists|m: int| 0 <= m < k + 1 && tags@[m]@ == t {
                        let m = choose|m: int| 0 <= m < k + 1 && tags@[m]@ == t;
                        if m < k {
                            assert(exists|m2: int| 0 <= m2 < k && tags@[m2]@ == t);
                        }
                    }
                }
                k += 1;
            }
            proof {
                assert forall|t: Seq<char>| listed_tag(post, t) <==> (listed_tag(pre, t) || exists|m: int|
                    0 <= m < tags@.len() && tags@[m]@ == t) by {
                    if listed_tag(post, t) {
                        let (a, b) = choose|a: int, b: int|
                            0 <= a < post.len() && !excluded_from_all(post[a].0@) && 0 <= b < post[a].1@.len()
                                && post[a].1@[b]@ == t;
                        if a < i {
                            assert(pre[a] == post[a]);
                        } else {
                            assert(exists|m: int| 0 <= m < tags@.len() && tags@[m]@ == t);
                        }
                    }
                    if listed_tag(pre, t) {
                        let (a, b) = choose|a: int, b: int|
                            0 <= a < pre.len() && !excluded_from_all(pre[a].0@) && 0 <= b < pre[a].1@.len()
                                && pre[a].1@[b]@ == t;
                        assert(post[a] == pre[a]);
                    }
                    if exists|m: int| 0 <= m < tags@.len() && tags@[m]@ == t {
                        let m = choose|m: int| 0 <= m < tags@.len() && tags@[m]@ == t;
                        assert(post[i as int] == rows@[i as int]);
                        assert(!excluded_from_all(post[i as int].0@));
                    }
                }
            }
        } else {
            proof {
                assert forall|t: Seq<char>| listed_tag(post, t) <==> listed_tag(pre, t) by {
                    if listed_tag(post, t) {
                        let (a, b) = choose|a: int, b: int|
                            0 <= a < post.len() && !excluded_from_all(post[a].0@) && 0 <= b < post[a].1@.len()
                                && post[a].1@[b]@ == t;
                        assert(a != i);
                        assert(pre[a] == post[a]);
                    }
                    if listed_tag(pre, t) {
                        let (a, b) = choose|a: int, b: int|
                            0 <= a < pre.len() && !excluded_from_all(pre[a].0@) && 0 <= b < pre[a].1@.len()
                                && pre[a].1@[b]@ == t;
                        assert(post[a] == pre[a]);
                    }
                }
            }
        }
        i += 1;
    }
    assert(rows@.take(rows@.len() as int) =~= rows@);
    out
}

} // verus!
