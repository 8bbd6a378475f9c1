//! Text primitives over sequences of characters.
//!
//! Every parser and formatter of the library works on `Vec<char>` values
//! whose meaning is the `Seq<char>` they hold; the spec functions here give
//! the meaning of the standard string operations the parsers rely on
//! (`trim`, `find`, `split_once`, `lines`, `split_whitespace`, ...).
use vstd::prelude::*;

verus! {

// ---------------------------------------------------------------------------
// Specifications
// ---------------------------------------------------------------------------

/// Unicode `White_Space`, the property `char::is_whitespace` reports.
pub open spec fn is_ws(c: char) -> bool {
    ||| ('\u{9}' <= c && c <= '\u{d}')
    ||| c == ' '
    ||| c == '\u{85}'
    ||| c == '\u{a0}'
    ||| c == '\u{1680}'
    ||| ('\u{2000}' <= c && c <= '\u{200a}')
    ||| c == '\u{2028}'
    ||| c == '\u{2029}'
    ||| c == '\u{202f}'
    ||| c == '\u{205f}'
    ||| c == '\u{3000}'
}

/// `s` without its leading whitespace.
pub open spec fn trim_start(s: Seq<char>) -> Seq<char>
    decreases s.len(),
{
    if s.len() > 0 && is_ws(s[0]) {
        trim_start(s.drop_first())
    } else {
        s
    }
}

/// `s` without its trailing whitespace.
pub open spec fn trim_end(s: Seq<char>) -> Seq<char>
    decreases s.len(),
{
    if s.len() > 0 && is_ws(s.last()) {
        trim_end(s.drop_last())
    } else {
        s
    }
}

/// A line holding nothing but whitespace.
pub open spec fn blank(l: Seq<char>) -> bool {
    trim(l).len() == 0
}

/// A single word: no whitespace in it.
pub open spec fn one_word(t: Seq<char>) -> bool {
    forall|i: int| 0 <= i < t.len() ==> !is_ws(#[trigger] t[i])
}

/// `s` without leading and trailing whitespace.
pub open spec fn trim(s: Seq<char>) -> Seq<char> {
    trim_end(trim_start(s))
}

pub open spec fn starts_with(s: Seq<char>, p: Seq<char>) -> bool {
    p.len() <= s.len() && s.take(p.len() as int) == p
}

pub open spec fn ends_with(s: Seq<char>, p: Seq<char>) -> bool {
    p.len() <= s.len() && s.skip(s.len() - p.len()) == p
}

pub open spec fn strip_prefix(s: Seq<char>, p: Seq<char>) -> Option<Seq<char>> {
    if starts_with(s, p) {
        Some(s.skip(p.len() as int))
    } else {
        None
    }
}

pub open spec fn strip_suffix(s: Seq<char>, p: Seq<char>) -> Option<Seq<char>> {
    if ends_with(s, p) {
        Some(s.take(s.len() - p.len()))
    } else {
        None
    }
}

/// `p` occurs in `s` starting at position `i`.
pub open spec fn matches_at(s: Seq<char>, p: Seq<char>, i: int) -> bool {
    0 <= i && i + p.len() <= s.len() && s.subrange(i, i + p.len()) == p
}

/// The first position `>= i` at which `p` occurs in `s`.
pub open spec fn find_from(s: Seq<char>, p: Seq<char>, i: int) -> Option<int>
    decreases s.len() + 1 - i,
{
    if i + p.len() > s.len() {
        None
    } else if matches_at(s, p, i) {
        Some(i)
    } else {
        find_from(s, p, i + 1)
    }
}

/// The first position at which `p` occurs in `s` (`str::find`).
pub open spec fn find(s: Seq<char>, p: Seq<char>) -> Option<int> {
    find_from(s, p, 0)
}

/// The last position `<= i` at which `p` occurs in `s`.
pub open spec fn rfind_upto(s: Seq<char>, p: Seq<char>, i: int) -> Option<int>
    decreases i + 1,
{
    if i < 0 {
        None
    } else if matches_at(s, p, i) {
        Some(i)
    } else {
        rfind_upto(s, p, i - 1)
    }
}

/// The last position at which `p` occurs in `s` (`str::rfind`).
pub open spec fn rfind(s: Seq<char>, p: Seq<char>) -> Option<int> {
    rfind_upto(s, p, s.len() - p.len())
}

pub open spec fn contains(s: Seq<char>, p: Seq<char>) -> bool {
    find(s, p) is Some
}

/// `str::split_once`: the parts before and after the first occurrence of `p`.
pub open spec fn split_once(s: Seq<char>, p: Seq<char>) -> Option<(Seq<char>, Seq<char>)> {
    match find(s, p) {
        Some(i) => Some((s.take(i), s.skip(i + p.len()))),
        None => None,
    }
}

/// `str::rsplit_once`: the parts before and after the last occurrence of `p`.
pub open spec fn rsplit_once(s: Seq<char>, p: Seq<char>) -> Option<(Seq<char>, Seq<char>)> {
    match rfind(s, p) {
        Some(i) => Some((s.take(i), s.skip(i + p.len()))),
        None => None,
    }
}

/// `str::split` on a non-empty pattern: every piece between occurrences.
pub open spec fn split(s: Seq<char>, p: Seq<char>) -> Seq<Seq<char>>
    decreases s.len(),
{
    if p.len() == 0 {
        seq![s]
    } else {
        match find(s, p) {
            Some(i) => {
                proof {
                    lemma_find_bounds(s, p);
                }
                seq![s.take(i)] + split(s.skip(i + p.len()), p)
            },
            None => seq![s],
        }
    }
}

/// A line with one trailing carriage return removed, as `str::lines` does.
pub open spec fn strip_cr(t: Seq<char>) -> Seq<char> {
    if t.len() > 0 && t.last() == '\r' {
        t.drop_last()
    } else {
        t
    }
}

/// `str::lines`: pieces between `\n`, a trailing `\r` dropped from each, and
/// no empty last line after a final `\n`.
pub open spec fn lines(s: Seq<char>) -> Seq<Seq<char>>
    decreases s.len(),
{
    if s.len() == 0 {
        seq![]
    } else {
        match find(s, seq!['\n']) {
            Some(i) => {
                proof {
                    lemma_find_bounds(s, seq!['\n']);
                }
                seq![strip_cr(s.take(i))] + lines(s.skip(i + 1))
            },
            None => seq![strip_cr(s)],
        }
    }
}

/// Length of the leading run of non-whitespace characters of `t`.
pub open spec fn word_len(t: Seq<char>) -> int
    decreases t.len(),
{
    if t.len() == 0 || is_ws(t[0]) {
        0
    } else {
        1 + word_len(t.drop_first())
    }
}

/// `str::split_whitespace`: the maximal runs of non-whitespace characters.
pub open spec fn split_ws(s: Seq<char>) -> Seq<Seq<char>>
    decreases s.len(),
{
    let t = trim_start(s);
    if t.len() == 0 {
        seq![]
    } else {
        proof {
            lemma_trim_start_len(s);
            lemma_word_len(t);
        }
        seq![t.take(word_len(t))] + split_ws(t.skip(word_len(t)))
    }
}

/// Every character of `s` that is in `from` replaced by `to`.
pub open spec fn replace_chars(s: Seq<char>, from: Seq<char>, to: char) -> Seq<char> {
    s.map_values(|c: char| if from.contains(c) { to } else { c })
}

/// The elements of `s` joined with `sep` between consecutive ones.
pub open spec fn join(s: Seq<Seq<char>>, sep: Seq<char>) -> Seq<char>
    decreases s.len(),
{
    if s.len() == 0 {
        seq![]
    } else if s.len() == 1 {
        s[0]
    } else {
        join(s.drop_last(), sep) + sep + s.last()
    }
}

// ---------------------------------------------------------------------------
// Lemmas
// ---------------------------------------------------------------------------

pub proof fn lemma_find_from_bounds(s: Seq<char>, p: Seq<char>, i: int)
    ensures
        find_from(s, p, i) matches Some(j) ==> i <= j && matches_at(s, p, j),
        find_from(s, p, i) matches Some(j) ==> forall|k: int|
            i <= k < j ==> !#[trigger] matches_at(s, p, k),
        find_from(s, p, i) is None ==> forall|k: int| i <= k ==> !#[trigger] matches_at(s, p, k),
    decreases s.len() + 1 - i,
{
    if i + p.len() > s.len() {
    } else if matches_at(s, p, i) {
    } else {
        lemma_find_from_bounds(s, p, i + 1);
    }
}

pub proof fn lemma_find_bounds(s: Seq<char>, p: Seq<char>)
    ensures
        find(s, p) matches Some(j) ==> 0 <= j && j + p.len() <= s.len() && matches_at(s, p, j),
        find(s, p) matches Some(j) ==> forall|k: int| 0 <= k < j ==> !#[trigger] matches_at(s, p, k),
        find(s, p) is None ==> forall|k: int| 0 <= k ==> !#[trigger] matches_at(s, p, k),
{
    lemma_find_from_bounds(s, p, 0);
}

pub proof fn lemma_rfind_upto_bounds(s: Seq<char>, p: Seq<char>, i: int)
    ensures
        rfind_upto(s, p, i) matches Some(j) ==> j <= i && matches_at(s, p, j),
        rfind_upto(s, p, i) matches Some(j) ==> forall|k: int|
            j < k <= i ==> !#[trigger] matches_at(s, p, k),
        rfind_upto(s, p, i) is None ==> forall|k: int| k <= i ==> !#[trigger] matches_at(s, p, k),
    decreases i + 1,
{
    if i < 0 {
    } else if matches_at(s, p, i) {
    } else {
        lemma_rfind_upto_bounds(s, p, i - 1);
    }
}

pub proof fn lemma_rfind_bounds(s: Seq<char>, p: Seq<char>)
    ensures
        rfind(s, p) matches Some(j) ==> 0 <= j && j + p.len() <= s.len() && matches_at(s, p, j),
        rfind(s, p) matches Some(j) ==> forall|k: int| j < k ==> !#[trigger] matches_at(s, p, k),
        rfind(s, p) is None ==> forall|k: int| !#[trigger] matches_at(s, p, k),
{
    lemma_rfind_upto_bounds(s, p, s.len() - p.len());
}

pub proof fn lemma_trim_start_len(s: Seq<char>)
    ensures
        trim_start(s).len() <= s.len(),
        trim_start(s) == s.skip(s.len() - trim_start(s).len()),
        trim_start(s).len() > 0 ==> !is_ws(trim_start(s)[0]),
        forall|k: int| 0 <= k < s.len() - trim_start(s).len() ==> is_ws(#[trigger] s[k]),
    decreases s.len(),
{
    if s.len() > 0 && is_ws(s[0]) {
        lemma_trim_start_len(s.drop_first());
        assert(s.drop_first().skip(s.drop_first().len() - trim_start(s).len()) =~= s.skip(
            s.len() - trim_start(s).len(),
        ));
        assert forall|k: int| 0 <= k < s.len() - trim_start(s).len() implies is_ws(#[trigger] s[k]) by {
            if k > 0 {
                assert(s[k] == s.drop_first()[k - 1]);
            }
        }
    } else {
        assert(s.skip(0) =~= s);
    }
}

pub proof fn lemma_trim_end_len(s: Seq<char>)
    ensures
        trim_end(s).len() <= s.len(),
        trim_end(s) == s.take(trim_end(s).len() as int),
        trim_end(s).len() > 0 ==> !is_ws(trim_end(s).last()),
        forall|k: int| trim_end(s).len() <= k < s.len() ==> is_ws(#[trigger] s[k]),
    decreases s.len(),
{
    if s.len() > 0 && is_ws(s.last()) {
        lemma_trim_end_len(s.drop_last());
        assert(s.drop_last().take(trim_end(s).len() as int) =~= s.take(trim_end(s).len() as int));
        assert forall|k: int| trim_end(s).len() <= k < s.len() implies is_ws(#[trigger] s[k]) by {
            if k < s.len() - 1 {
                assert(s[k] == s.drop_last()[k]);
            }
        }
    } else {
        assert(s.take(s.len() as int) =~= s);
    }
}

pub proof fn lemma_word_len(t: Seq<char>)
    ensures
        0 <= word_len(t) <= t.len(),
        t.len() > 0 && !is_ws(t[0]) ==> word_len(t) >= 1,
        forall|k: int| 0 <= k < word_len(t) ==> !is_ws(#[trigger] t[k]),
        word_len(t) < t.len() ==> is_ws(t[word_len(t)]),
    decreases t.len(),
{
    if t.len() == 0 || is_ws(t[0]) {
    } else {
        lemma_word_len(t.drop_first());
        assert forall|k: int| 0 <= k < word_len(t) implies !is_ws(#[trigger] t[k]) by {
            if k > 0 {
                assert(t[k] == t.drop_first()[k - 1]);
            }
        }
    }
}

pub proof fn lemma_matches_at_shift(s: Seq<char>, p: Seq<char>, pos: int, k: int)
    requires
        0 <= pos <= s.len(),
        0 <= k,
    ensures
        matches_at(s.skip(pos), p, k) == matches_at(s, p, pos + k),
{
    if k + p.len() <= s.len() - pos {
        assert(s.skip(pos).subrange(k, k + p.len()) =~= s.subrange(pos + k, pos + k + p.len()));
    }
}

pub proof fn lemma_find_from_shift(s: Seq<char>, p: Seq<char>, pos: int, k: int)
    requires
        0 <= pos <= s.len(),
        0 <= k,
    ensures
        find_from(s.skip(pos), p, k) == (match find_from(s, p, pos + k) {
            Some(j) => Some(j - pos),
            None => None,
        }),
    decreases s.len() - pos + 1 - k,
{
    lemma_matches_at_shift(s, p, pos, k);
    if k + p.len() > s.len() - pos {
    } else if matches_at(s, p, pos + k) {
    } else {
        lemma_find_from_shift(s, p, pos, k + 1);
    }
}

/// `trim_start` drops exactly a leading whitespace run.
pub proof fn lemma_trim_start_exact(x: Seq<char>, m: int)
    requires
        0 <= m <= x.len(),
        forall|k: int| 0 <= k < m ==> is_ws(#[trigger] x[k]),
        m == x.len() || !is_ws(x[m]),
    ensures
        trim_start(x) == x.skip(m),
    decreases m,
{
    if m == 0 {
        assert(x.skip(0) =~= x);
    } else {
        assert forall|k: int| 0 <= k < m - 1 implies is_ws(#[trigger] x.drop_first()[k]) by {
            assert(x.drop_first()[k] == x[k + 1]);
        }
        if m - 1 < x.drop_first().len() {
            assert(x.drop_first()[m - 1] == x[m]);
        }
        lemma_trim_start_exact(x.drop_first(), m - 1);
        assert(x.drop_first().skip(m - 1) =~= x.skip(m));
    }
}

/// `word_len` is exactly the length of a leading non-whitespace run.
pub proof fn lemma_word_len_exact(x: Seq<char>, m: int)
    requires
        0 <= m <= x.len(),
        forall|k: int| 0 <= k < m ==> !is_ws(#[trigger] x[k]),
        m == x.len() || is_ws(x[m]),
    ensures
        word_len(x) == m,
    decreases m,
{
    if m == 0 {
    } else {
        assert forall|k: int| 0 <= k < m - 1 implies !is_ws(#[trigger] x.drop_first()[k]) by {
            assert(x.drop_first()[k] == x[k + 1]);
        }
        if m - 1 < x.drop_first().len() {
            assert(x.drop_first()[m - 1] == x[m]);
        }
        lemma_word_len_exact(x.drop_first(), m - 1);
    }
}

/// `trim_end` drops exactly a trailing whitespace run.
pub proof fn lemma_trim_end_exact(x: Seq<char>, m: int)
    requires
        0 <= m <= x.len(),
        forall|k: int| m <= k < x.len() ==> is_ws(#[trigger] x[k]),
        m == 0 || !is_ws(x[m - 1]),
    ensures
        trim_end(x) == x.take(m),
    decreases x.len() - m,
{
    if m == x.len() {
        assert(x.take(m) =~= x);
    } else {
        assert forall|k: int| m <= k < x.drop_last().len() implies is_ws(#[trigger] x.drop_last()[k]) by {
            assert(x.drop_last()[k] == x[k]);
        }
        if m > 0 {
            assert(x.drop_last()[m - 1] == x[m - 1]);
        }
        lemma_trim_end_exact(x.drop_last(), m);
        assert(x.drop_last().take(m) =~= x.take(m));
    }
}

/// No carriage return in `x` is directly followed by a line feed.
pub open spec fn no_crlf(x: Seq<char>) -> bool {
    forall|i: int| 0 <= i < x.len() - 1 ==> !(#[trigger] x[i] == '\r' && x[i + 1] == '\n')
}

/// `find_from` finds the first match at or after `i`.
pub proof fn lemma_find_from_first(s: Seq<char>, p: Seq<char>, i: int, j: int)
    requires
        i <= j,
        matches_at(s, p, j),
        forall|k: int| i <= k < j ==> !#[trigger] matches_at(s, p, k),
    ensures
        find_from(s, p, i) == Some(j),
    decreases j - i,
{
    if i < j {
        lemma_find_from_first(s, p, i + 1, j);
    }
}

/// Joining with one more element in front.
pub proof fn lemma_join_cons(a: Seq<char>, l: Seq<Seq<char>>, sep: Seq<char>)
    requires
        l.len() > 0,
    ensures
        join(seq![a] + l, sep) == a + sep + join(l, sep),
    decreases l.len(),
{
    let s = seq![a] + l;
    if l.len() == 1 {
        assert(s.drop_last() =~= seq![a]);
        assert(join(seq![a], sep) == a);
        assert(s.last() == l[0]);
        assert(join(l, sep) == l[0]);
        assert(join(s, sep) == join(s.drop_last(), sep) + sep + s.last());
    } else {
        lemma_join_cons(a, l.drop_last(), sep);
        assert(s.drop_last() =~= seq![a] + l.drop_last());
        assert(s.last() == l.last());
        assert(join(s, sep) == join(s.drop_last(), sep) + sep + s.last());
        assert(join(l, sep) == join(l.drop_last(), sep) + sep + l.last());
        assert(a + sep + join(l, sep) =~= (a + sep + join(l.drop_last(), sep)) + sep + l.last());
    }
}

/// A character found in no element and not in the separator is not in
/// the joined text.
pub proof fn lemma_join_avoids(l: Seq<Seq<char>>, sep: Seq<char>, c: char)
    requires
        forall|i: int, k: int| 0 <= i < l.len() && 0 <= k < l[i].len() ==> #[trigger] l[i][k] != c,
        forall|k: int| 0 <= k < sep.len() ==> #[trigger] sep[k] != c,
    ensures
        forall|k: int| 0 <= k < join(l, sep).len() ==> #[trigger] join(l, sep)[k] != c,
    decreases l.len(),
{
    if l.len() == 0 {
    } else if l.len() == 1 {
        assert forall|k: int| 0 <= k < join(l, sep).len() implies #[trigger] join(l, sep)[k] != c by {
            assert(join(l, sep)[k] == l[0][k]);
        }
    } else {
        let p = l.drop_last();
        assert forall|i: int, k: int| 0 <= i < p.len() && 0 <= k < p[i].len() implies #[trigger] p[i][k]
            != c by {
            assert(p[i] == l[i]);
        }
        lemma_join_avoids(p, sep, c);
        let j = join(p, sep);
        let t = l.last();
        assert forall|k: int| 0 <= k < join(l, sep).len() implies #[trigger] join(l, sep)[k] != c by {
            assert(join(l, sep) == j + sep + t);
            if k < j.len() {
                assert(join(l, sep)[k] == j[k]);
            } else if k < j.len() + sep.len() {
                assert(join(l, sep)[k] == sep[k - j.len()]);
            } else {
                assert(join(l, sep)[k] == t[k - j.len() - sep.len()]);
                assert(t == l[l.len() - 1]);
            }
        }
    }
}

/// A line without line breaks, then a line feed, then the rest: `lines`
/// gives the line, then the lines of the rest.
pub proof fn lemma_lines_cons(a: Seq<char>, b: Seq<char>)
    requires
        forall|i: int| 0 <= i < a.len() ==> #[trigger] a[i] != '\n',
        a.len() == 0 || a.last() != '\r',
    ensures
        lines(a + seq!['\n'] + b) == seq![a] + lines(b),
{
    let s = a + seq!['\n'] + b;
    let nl = seq!['\n'];
    assert(s.subrange(a.len() as int, a.len() + 1 as int) =~= nl);
    assert forall|k: int| 0 <= k < a.len() implies !#[trigger] matches_at(s, nl, k) by {
        assert(s.subrange(k, k + 1)[0] == a[k]);
    }
    lemma_find_from_first(s, nl, 0, a.len() as int);
    assert(s.take(a.len() as int) =~= a);
    assert(s.skip(a.len() + 1 as int) =~= b);
}

/// The lines of two texts joined by a line feed are the lines of the first
/// then those of the second, when the first is not empty and does not end
/// in a line feed.
pub proof fn lemma_lines_join(x: Seq<char>, y: Seq<char>)
    requires
        x.len() > 0,
        x.last() != '\n',
    ensures
        lines(x + seq!['\n'] + y) == lines(x) + lines(y),
    decreases x.len(),
{
    let nl = seq!['\n'];
    let s = x + nl + y;
    lemma_find_bounds(x, nl);
    match find(x, nl) {
        None => {
            assert(s.subrange(x.len() as int, x.len() + 1int) =~= nl);
            assert forall|k: int| 0 <= k < x.len() implies !#[trigger] matches_at(s, nl, k) by {
                if matches_at(s, nl, k) {
                    assert(s.subrange(k, k + 1)[0] == s[k]);
                    assert(x[k] == s[k]);
                    assert(x.subrange(k, k + 1) =~= nl);
                    assert(matches_at(x, nl, k));
                }
            }
            lemma_find_from_first(s, nl, 0, x.len() as int);
            assert(s.take(x.len() as int) =~= x);
            assert(s.skip(x.len() + 1int) =~= y);
            assert(lines(x) == seq![strip_cr(x)]);
        },
        Some(i) => {
            assert(i < x.len() - 1) by {
                assert(x.subrange(i, i + 1)[0] == x[i]);
            }
            assert(s.subrange(i, i + 1) =~= x.subrange(i, i + 1));
            assert forall|k: int| 0 <= k < i implies !#[trigger] matches_at(s, nl, k) by {
                if matches_at(s, nl, k) {
                    assert(s.subrange(k, k + 1)[0] == s[k]);
                    assert(x[k] == s[k]);
                    assert(x.subrange(k, k + 1) =~= nl);
                    assert(matches_at(x, nl, k));
                }
            }
            lemma_find_from_first(s, nl, 0, i);
            let xr = x.skip(i + 1);
            assert(xr.last() == x.last());
            lemma_lines_join(xr, y);
            assert(s.take(i) =~= x.take(i));
            assert(s.skip(i + 1) =~= xr + nl + y);
            assert(lines(x) == seq![strip_cr(x.take(i))] + lines(xr));
            assert(lines(s) == seq![strip_cr(x.take(i))] + lines(xr + nl + y));
            assert(lines(s) =~= lines(x) + lines(y));
        },
    }
}

/// Joining the lines of `x` with line feeds gives `x` back, when `x` has no
/// CRLF pair and does not end in whitespace.
pub proof fn lemma_join_lines(x: Seq<char>)
    requires
        no_crlf(x),
        x.len() == 0 || !is_ws(x.last()),
    ensures
        join(lines(x), seq!['\n']) == x,
        x.len() > 0 ==> lines(x).len() > 0,
    decreases x.len(),
{
    let nl = seq!['\n'];
    if x.len() == 0 {
    } else {
        lemma_find_bounds(x, nl);
        match find(x, nl) {
            Some(i) => {
                assert(x.subrange(i, i + 1)[0] == x[i]);
                assert(x[i] == '\n');
                assert(i < x.len() - 1);
                let head = x.take(i);
                let rest = x.skip(i + 1);
                if i > 0 {
                    assert(x[i - 1] != '\r');
                }
                assert(strip_cr(head) == head);
                assert forall|k: int| 0 <= k < rest.len() - 1 implies !(#[trigger] rest[k] == '\r'
                    && rest[k + 1] == '\n') by {
                    assert(rest[k] == x[i + 1 + k]);
                    assert(rest[k + 1] == x[i + 2 + k]);
                }
                assert(rest.last() == x.last());
                lemma_join_lines(rest);
                lemma_join_cons(head, lines(rest), nl);
                assert(lines(x) == seq![head] + lines(rest));
                assert(head + nl + rest =~= x);
            },
            None => {
                assert(strip_cr(x) == x);
                assert(lines(x) == seq![x]);
            },
        }
    }
}

/// A leading space does not change the words of a text.
pub proof fn lemma_split_ws_space(y: Seq<char>)
    ensures
        split_ws(seq![' '] + y) == split_ws(y),
{
    let s = seq![' '] + y;
    assert(s.drop_first() =~= y);
    assert(trim_start(s) == trim_start(y));
}

/// The words of words joined by spaces are those words.
pub proof fn lemma_split_ws_join(ws: Seq<Seq<char>>)
    requires
        forall|i: int| 0 <= i < ws.len() ==> (#[trigger] ws[i]).len() > 0,
        forall|i: int, k: int| 0 <= i < ws.len() && 0 <= k < ws[i].len() ==> !is_ws(#[trigger] ws[i][k]),
    ensures
        split_ws(join(ws, seq![' '])) == ws,
    decreases ws.len(),
{
    if ws.len() == 0 {
        assert(trim_start(Seq::<char>::empty()) == Seq::<char>::empty());
    } else {
        let w = ws[0];
        let rest = ws.drop_first();
        assert(ws =~= seq![w] + rest);
        let j = if rest.len() > 0 {
            lemma_join_cons(w, rest, seq![' ']);
            seq![' '] + join(rest, seq![' '])
        } else {
            Seq::<char>::empty()
        };
        assert(join(ws, seq![' ']) == w + j);
        let s = w + j;
        assert(s[0] == w[0]);
        assert(!is_ws(w[0]));
        lemma_trim_start_exact(s, 0);
        assert(s.skip(0) =~= s);
        assert forall|k: int| 0 <= k < w.len() implies !is_ws(#[trigger] s[k]) by {
            assert(s[k] == w[k]);
            assert(!is_ws(ws[0][k]));
        }
        if rest.len() > 0 {
            assert(s[w.len() as int] == ' ');
        }
        lemma_word_len_exact(s, w.len() as int);
        assert(s.take(w.len() as int) =~= w);
        assert(s.skip(w.len() as int) =~= j);
        assert forall|i: int| 0 <= i < rest.len() implies (#[trigger] rest[i]).len() > 0 by {
            assert(rest[i] == ws[i + 1]);
        }
        assert forall|i: int, k: int| 0 <= i < rest.len() && 0 <= k < rest[i].len() implies !is_ws(
            #[trigger] rest[i][k],
        ) by {
            assert(rest[i] == ws[i + 1]);
        }
        lemma_split_ws_join(rest);
        if rest.len() > 0 {
            lemma_split_ws_space(join(rest, seq![' ']));
        } else {
            assert(trim_start(Seq::<char>::empty()) == Seq::<char>::empty());
        }
        assert(split_ws(s) == seq![w] + split_ws(j));
    }
}

/// A line that starts with a non-whitespace character is not blank after
/// trimming.
pub proof fn lemma_trim_nonempty(l: Seq<char>)
    requires
        l.len() > 0,
        !is_ws(l[0]),
    ensures
        trim(l).len() > 0,
{
    lemma_trim_start_exact(l, 0);
    assert(l.skip(0) =~= l);
    lemma_trim_end_len(l);
    if trim_end(l).len() == 0 {
        assert(is_ws(l[0]));
    }
}

/// Trimming a trimmed text changes nothing at its end, and it starts with a
/// non-whitespace character.
pub proof fn lemma_trim_shape(x: Seq<char>)
    ensures
        trim(x).len() > 0 ==> !is_ws(trim(x)[0]) && !is_ws(trim(x).last()),
        trim_end(trim(x)) == trim(x),
{
    let t = trim_start(x);
    lemma_trim_start_len(x);
    lemma_trim_end_len(t);
    let tx = trim(x);
    if tx.len() > 0 {
        assert(tx[0] == t[0]);
        lemma_trim_end_exact(tx, tx.len() as int);
        assert(tx.take(tx.len() as int) =~= tx);
    }
}

// ---------------------------------------------------------------------------
// Executable operations
// ---------------------------------------------------------------------------

/// The views of a sequence of character vectors.
pub open spec fn views(v: Seq<Vec<char>>) -> Seq<Seq<char>> {
    v.map_values(|x: Vec<char>| x@)
}

/// The views after a push are the views before, and the pushed view.
pub proof fn lemma_views_push(v: Seq<Vec<char>>, x: Vec<char>)
    ensures
        views(v.push(x)) == views(v).push(x@),
{
    assert(views(v.push(x)) =~= views(v).push(x@));
}

/// The characters of `s`, in order.
pub fn chars_of(s: &str) -> (v: Vec<char>)
    ensures
        v@ == s@,
{
    let mut v: Vec<char> = Vec::new();
    for c in it: s.chars()
        invariant
            v@ == it.seq().take(it.index()),
            it.seq() == s@,
    {
        v.push(c);
    }
    v
}

/// `String::push`: appends one character.
#[verifier::external_body]
fn push_char(s: &mut String, c: char)
    ensures
        final(s)@ == old(s)@.push(c),
{
    s.push(c);
}

/// A `String` holding exactly the characters of `v`.
pub fn string_of(v: &[char]) -> (s: String)
    ensures
        s@ == v@,
{
    let mut s = String::new();
    let mut i: usize = 0;
    while i < v.len()
        invariant
            i <= v@.len(),
            s@ == v@.take(i as int),
        decreases v@.len() - i,
    {
        push_char(&mut s, v[i]);
        i += 1;
        assert(v@.take(i as int) == v@.take((i - 1) as int).push(v@[i - 1]));
    }
    assert(v@.take(v@.len() as int) == v@);
    s
}

/// Whether `c` has the Unicode `White_Space` property (what
/// `char::is_whitespace` reports).
pub fn is_whitespace(c: char) -> (b: bool)
    ensures
        b == is_ws(c),
{
    ('\u{9}' <= c && c <= '\u{d}') || c == ' ' || c == '\u{85}' || c == '\u{a0}' || c == '\u{1680}'
        || ('\u{2000}' <= c && c <= '\u{200a}') || c == '\u{2028}' || c == '\u{2029}' || c == '\u{202f}'
        || c == '\u{205f}' || c == '\u{3000}'
}

/// The contents of each `String` of `v`.
pub open spec fn str_views(v: Seq<String>) -> Seq<Seq<char>> {
    v.map_values(|x: String| x@)
}

/// The contents of an optional `String`.
pub open spec fn opt_str_view(o: Option<String>) -> Option<Seq<char>> {
    match o {
        Some(v) => Some(v@),
        None => None,
    }
}

/// A copy of `s`.
pub fn copy_of(s: &[char]) -> (r: Vec<char>)
    ensures
        r@ == s@,
{
    let r = subvec(s, 0, s.len());
    assert(s@.subrange(0, s@.len() as int) =~= s@);
    r
}

/// Each character sequence of `v` as a `String`.
pub fn strings_of(v: &Vec<Vec<char>>) -> (r: Vec<String>)
    ensures
        str_views(r@) == views(v@),
{
    let mut r: Vec<String> = Vec::new();
    let mut i: usize = 0;
    while i < v.len()
        invariant
            i <= v@.len(),
            r@.len() == i,
            str_views(r@) == views(v@.take(i as int)),
        decreases v@.len() - i,
    {
        let ghost prev = r@;
        let s = string_of(&v[i]);
        r.push(s);
        i += 1;
        proof {
            assert forall|j: int| 0 <= j < i implies #[trigger] str_views(r@)[j] == views(v@.take(i as int))[j] by {
                if j < i - 1 {
                    assert(str_views(prev)[j] == views(v@.take(i - 1))[j]);
                    assert(r@[j] == prev[j]);
                } else {
                    assert(r@[j] == s);
                }
            }
            assert(str_views(r@) =~= views(v@.take(i as int)));
        }
    }
    assert(v@.take(v@.len() as int) =~= v@);
    r
}

/// The characters of each `String` of `v`.
pub fn char_lines(v: &Vec<String>) -> (r: Vec<Vec<char>>)
    ensures
        views(r@) == str_views(v@),
{
    let mut r: Vec<Vec<char>> = Vec::new();
    let mut i: usize = 0;
    while i < v.len()
        invariant
            i <= v@.len(),
            r@.len() == i,
            views(r@) == str_views(v@.take(i as int)),
        decreases v@.len() - i,
    {
        let ghost prev = r@;
        let c = chars_of(v[i].as_str());
        r.push(c);
        i += 1;
        assert forall|j: int| 0 <= j < i implies #[trigger] views(r@)[j] == str_views(v@.take(i as int))[j] by {
            if j < i - 1 {
                assert(views(prev)[j] == str_views(v@.take(i - 1))[j]);
                assert(r@[j] == prev[j]);
            } else {
                assert(r@[j] == c);
            }
        }
        assert(views(r@) =~= str_views(v@.take(i as int)));
    }
    assert(v@.take(v@.len() as int) =~= v@);
    r
}

/// Copies of the elements of `v` from index `k` on.
pub fn tail_of(v: &Vec<Vec<char>>, k: usize) -> (r: Vec<Vec<char>>)
    requires
        k <= v@.len(),
    ensures
        views(r@) == views(v@).skip(k as int),
{
    let r = slice_of(v, k, v.len());
    assert(views(v@).subrange(k as int, v@.len() as int) =~= views(v@).skip(k as int));
    r
}

/// Copies of the elements of `v` from index `k` up to `e`.
pub fn slice_of(v: &Vec<Vec<char>>, k: usize, e: usize) -> (r: Vec<Vec<char>>)
    requires
        k <= e <= v@.len(),
    ensures
        views(r@) == views(v@).subrange(k as int, e as int),
{
    let mut r: Vec<Vec<char>> = Vec::new();
    let mut i: usize = k;
    while i < e
        invariant
            k <= i <= e,
            e <= v@.len(),
            r@.len() == i - k,
            views(r@) == views(v@).subrange(k as int, i as int),
        decreases e - i,
    {
        let ghost prev = r@;
        let c = copy_of(&v[i]);
        r.push(c);
        i += 1;
        assert forall|j: int| 0 <= j < i - k implies #[trigger] views(r@)[j] == views(v@).subrange(k as int, i as int)[j] by {
            if j < i - k - 1 {
                assert(views(prev)[j] == views(v@).subrange(k as int, i - 1)[j]);
                assert(r@[j] == prev[j]);
            } else {
                assert(r@[j] == c);
            }
        }
        assert(views(r@) =~= views(v@).subrange(k as int, i as int));
    }
    r
}

/// A copy of `s[a..b]`.
pub fn subvec(s: &[char], a: usize, b: usize) -> (r: Vec<char>)
    requires
        a <= b <= s@.len(),
    ensures
        r@ == s@.subrange(a as int, b as int),
{
    let mut r: Vec<char> = Vec::new();
    let mut i = a;
    while i < b
        invariant
            a <= i <= b <= s@.len(),
            r@ == s@.subrange(a as int, i as int),
        decreases b - i,
    {
        r.push(s[i]);
        i += 1;
        assert(r@ =~= s@.subrange(a as int, i as int));
    }
    r
}

/// A copy of `s[a..]`.
pub fn skip_from(s: &[char], a: usize) -> (r: Vec<char>)
    requires
        a <= s@.len(),
    ensures
        r@ == s@.skip(a as int),
{
    let r = subvec(s, a, s.len());
    assert(s@.subrange(a as int, s@.len() as int) =~= s@.skip(a as int));
    r
}

/// Appends all of `t` to `r`.
pub fn append(r: &mut Vec<char>, t: &[char])
    ensures
        final(r)@ == old(r)@ + t@,
{
    let mut i: usize = 0;
    assert(r@ =~= old(r)@ + t@.take(0));
    while i < t.len()
        invariant
            i <= t@.len(),
            r@ == old(r)@ + t@.take(i as int),
        decreases t@.len() - i,
    {
        r.push(t[i]);
        i += 1;
        assert(r@ =~= old(r)@ + t@.take(i as int));
    }
    assert(t@.take(t@.len() as int) =~= t@);
}

/// Appends the characters of `t` to `r`.
pub fn append_str(r: &mut Vec<char>, t: &str)
    ensures
        final(r)@ == old(r)@ + t@,
{
    let v = chars_of(t);
    append(r, &v);
}

/// Whether `a` and `b` hold the same characters.
pub fn eq_chars(a: &[char], b: &[char]) -> (r: bool)
    ensures
        r == (a@ == b@),
{
    if a.len() != b.len() {
        return false;
    }
    let mut i: usize = 0;
    while i < a.len()
        invariant
            a@.len() == b@.len(),
            i <= a@.len(),
            forall|k: int| 0 <= k < i ==> a@[k] == b@[k],
        decreases a@.len() - i,
    {
        if a[i] != b[i] {
            return false;
        }
        i += 1;
    }
    assert(a@ =~= b@);
    true
}

/// Whether `a` holds exactly the characters of `b`.
pub fn eq_str(a: &[char], b: &str) -> (r: bool)
    ensures
        r == (a@ == b@),
{
    let v = chars_of(b);
    eq_chars(a, &v)
}

/// Whether `p` occurs in `s` at position `i`.
pub fn matches_at_exec(s: &[char], p: &[char], i: usize) -> (r: bool)
    ensures
        r == matches_at(s@, p@, i as int),
{
    if i > s.len() || p.len() > s.len() - i {
        return false;
    }
    let mut k: usize = 0;
    while k < p.len()
        invariant
            i + p@.len() <= s@.len(),
            k <= p@.len(),
            forall|j: int| 0 <= j < k ==> s@[i + j] == p@[j],
        decreases p@.len() - k,
    {
        let n = s.len();
        assert(i + k < n);
        if s[i + k] != p[k] {
            assert(s@.subrange(i as int, i + p@.len())[k as int] != p@[k as int]);
            return false;
        }
        k += 1;
    }
    assert(s@.subrange(i as int, i + p@.len()) =~= p@);
    true
}

/// The first position `>= start` at which `p` occurs in `s`.
pub fn find_from_exec(s: &[char], p: &[char], start: usize) -> (r: Option<usize>)
    ensures
        match r {
            Some(j) => find_from(s@, p@, start as int) == Some(j as int),
            None => find_from(s@, p@, start as int) is None,
        },
{
    let mut i = start;
    while i <= s.len() && p.len() <= s.len() - i
        invariant
            start <= i,
            find_from(s@, p@, start as int) == find_from(s@, p@, i as int),
        decreases s@.len() + 1 - i,
    {
        if matches_at_exec(s, p, i) {
            return Some(i);
        }
        if i == s.len() {
            assert(find_from(s@, p@, i + 1) is None);
            return None;
        }
        i += 1;
    }
    None
}

/// The first position at which `p` occurs in `s` (`str::find`).
pub fn find_exec(s: &[char], p: &[char]) -> (r: Option<usize>)
    ensures
        match r {
            Some(j) => find(s@, p@) == Some(j as int),
            None => find(s@, p@) is None,
        },
{
    find_from_exec(s, p, 0)
}

/// The last position at which `p` occurs in `s` (`str::rfind`).
pub fn rfind_exec(s: &[char], p: &[char]) -> (r: Option<usize>)
    ensures
        match r {
            Some(j) => rfind(s@, p@) == Some(j as int),
            None => rfind(s@, p@) is None,
        },
{
    if p.len() > s.len() {
        return None;
    }
    let mut i = s.len() - p.len();
    loop
        invariant
            i + p@.len() <= s@.len(),
            rfind(s@, p@) == rfind_upto(s@, p@, i as int),
        decreases i,
    {
        if matches_at_exec(s, p, i) {
            return Some(i);
        }
        if i == 0 {
            assert(rfind_upto(s@, p@, -1) is None);
            return None;
        }
        i -= 1;
    }
}

/// Whether `s` starts with `p`.
pub fn starts_with_exec(s: &[char], p: &[char]) -> (r: bool)
    ensures
        r == starts_with(s@, p@),
{
    let r = matches_at_exec(s, p, 0);
    proof {
        if p@.len() <= s@.len() {
            assert(s@.subrange(0, p@.len() as int) =~= s@.take(p@.len() as int));
        }
    }
    r
}

/// Whether `s` ends with `p`.
pub fn ends_with_exec(s: &[char], p: &[char]) -> (r: bool)
    ensures
        r == ends_with(s@, p@),
{
    if p.len() > s.len() {
        return false;
    }
    let r = matches_at_exec(s, p, s.len() - p.len());
    assert(s@.subrange(s@.len() - p@.len(), s@.len() as int) =~= s@.skip(s@.len() - p@.len()));
    r
}

/// `str::strip_prefix`.
pub fn strip_prefix_exec(s: &[char], p: &[char]) -> (r: Option<Vec<char>>)
    ensures
        match r {
            Some(v) => strip_prefix(s@, p@) == Some(v@),
            None => strip_prefix(s@, p@) is None,
        },
{
    if starts_with_exec(s, p) {
        Some(skip_from(s, p.len()))
    } else {
        None
    }
}

/// `str::strip_suffix`.
pub fn strip_suffix_exec(s: &[char], p: &[char]) -> (r: Option<Vec<char>>)
    ensures
        match r {
            Some(v) => strip_suffix(s@, p@) == Some(v@),
            None => strip_suffix(s@, p@) is None,
        },
{
    if ends_with_exec(s, p) {
        let v = subvec(s, 0, s.len() - p.len());
        assert(v@ =~= s@.take(s@.len() - p@.len()));
        Some(v)
    } else {
        None
    }
}

/// `str::split_once`.
pub fn split_once_exec(s: &[char], p: &[char]) -> (r: Option<(Vec<char>, Vec<char>)>)
    ensures
        match r {
            Some((a, b)) => split_once(s@, p@) == Some((a@, b@)),
            None => split_once(s@, p@) is None,
        },
{
    proof {
        lemma_find_bounds(s@, p@);
    }
    match find_exec(s, p) {
        Some(i) => {
            let n = s.len();
            assert(i + p@.len() <= n);
            let a = subvec(s, 0, i);
            let b = skip_from(s, i + p.len());
            assert(a@ =~= s@.take(i as int));
            Some((a, b))
        },
        None => None,
    }
}

/// `str::rsplit_once`.
pub fn rsplit_once_exec(s: &[char], p: &[char]) -> (r: Option<(Vec<char>, Vec<char>)>)
    ensures
        match r {
            Some((a, b)) => rsplit_once(s@, p@) == Some((a@, b@)),
            None => rsplit_once(s@, p@) is None,
        },
{
    proof {
        lemma_rfind_bounds(s@, p@);
    }
    match rfind_exec(s, p) {
        Some(i) => {
            let n = s.len();
            assert(i + p@.len() <= n);
            let a = subvec(s, 0, i);
            let b = skip_from(s, i + p.len());
            assert(a@ =~= s@.take(i as int));
            Some((a, b))
        },
        None => None,
    }
}

/// `str::trim_start`.
pub fn trim_start_exec(s: &[char]) -> (r: Vec<char>)
    ensures
        r@ == trim_start(s@),
{
    let mut i: usize = 0;
    while i < s.len() && is_whitespace(s[i])
        invariant
            i <= s@.len(),
            forall|k: int| 0 <= k < i ==> is_ws(#[trigger] s@[k]),
        decreases s@.len() - i,
    {
        i += 1;
    }
    proof {
        lemma_trim_start_exact(s@, i as int);
    }
    skip_from(s, i)
}

/// `str::trim_end`.
pub fn trim_end_exec(s: &[char]) -> (r: Vec<char>)
    ensures
        r@ == trim_end(s@),
{
    let mut i: usize = s.len();
    while i > 0 && is_whitespace(s[i - 1])
        invariant
            i <= s@.len(),
            forall|k: int| i <= k < s@.len() ==> is_ws(#[trigger] s@[k]),
        decreases i,
    {
        i -= 1;
    }
    proof {
        lemma_trim_end_exact(s@, i as int);
    }
    let r = subvec(s, 0, i);
    assert(r@ =~= s@.take(i as int));
    r
}

/// `str::trim`.
pub fn trim_exec(s: &[char]) -> (r: Vec<char>)
    ensures
        r@ == trim(s@),
{
    let t = trim_start_exec(s);
    trim_end_exec(&t)
}

/// Whether `s` is empty or whitespace only (`s.trim().is_empty()`).
pub fn is_blank(s: &[char]) -> (r: bool)
    ensures
        r == (trim(s@).len() == 0),
{
    let t = trim_exec(s);
    t.len() == 0
}

/// `str::split` on a non-empty pattern.
pub fn split_exec(s: &[char], p: &[char]) -> (r: Vec<Vec<char>>)
    requires
        p@.len() > 0,
    ensures
        views(r@) == split(s@, p@),
{
    let mut out: Vec<Vec<char>> = Vec::new();
    let mut pos: usize = 0;
    assert(s@.skip(0) =~= s@);
    loop
        invariant
            p@.len() > 0,
            pos <= s@.len(),
            split(s@, p@) == views(out@) + split(s@.skip(pos as int), p@),
        decreases s@.len() - pos,
    {
        proof {
            lemma_find_from_shift(s@, p@, pos as int, 0);
            lemma_find_from_bounds(s@, p@, pos as int);
        }
        let ghost prev = out@;
        match find_from_exec(s, p, pos) {
            Some(j) => {
                let n = s.len();
                assert(j + p@.len() <= n);
                let piece = subvec(s, pos, j);
                let ghost rest = s@.skip(pos as int);
                assert(piece@ =~= rest.take(j - pos));
                assert(rest.skip(j - pos + p@.len()) =~= s@.skip(j + p@.len()));
                out.push(piece);
                assert(views(out@) =~= views(prev) + seq![piece@]);
                pos = j + p.len();
            },
            None => {
                let piece = skip_from(s, pos);
                out.push(piece);
                assert(views(out@) =~= views(prev) + seq![piece@]);
                return out;
            },
        }
    }
}

/// `str::lines`.
pub fn lines_exec(s: &[char]) -> (r: Vec<Vec<char>>)
    ensures
        views(r@) == lines(s@),
{
    let mut out: Vec<Vec<char>> = Vec::new();
    let mut pos: usize = 0;
    let nl: Vec<char> = vec!['\n'];
    assert(s@.skip(0) =~= s@);
    while pos < s.len()
        invariant
            nl@ == seq!['\n'],
            pos <= s@.len(),
            lines(s@) == views(out@) + lines(s@.skip(pos as int)),
        decreases s@.len() - pos,
    {
        proof {
            lemma_find_from_shift(s@, nl@, pos as int, 0);
            lemma_find_from_bounds(s@, nl@, pos as int);
        }
        let ghost prev = out@;
        let ghost rest = s@.skip(pos as int);
        let (end, next) = match find_from_exec(s, &nl, pos) {
            Some(j) => (j, j + 1),
            None => (s.len(), s.len()),
        };
        let mut piece = subvec(s, pos, end);
        assert(piece@ =~= rest.take(end - pos));
        if piece.len() > 0 && piece[piece.len() - 1] == '\r' {
            piece.pop();
        }
        if end < s.len() {
            assert(rest.skip(end - pos + 1) =~= s@.skip(next as int));
        } else {
            assert(rest.take(end - pos) =~= rest);
            assert(s@.skip(next as int).len() == 0);
        }
        out.push(piece);
        assert(views(out@) =~= views(prev) + seq![piece@]);
        pos = next;
    }
    assert(lines(s@.skip(pos as int)) =~= seq![]);
    assert(views(out@) + seq![] =~= views(out@));
    out
}

/// `str::split_whitespace`.
pub fn split_whitespace_exec(s: &[char]) -> (r: Vec<Vec<char>>)
    ensures
        views(r@) == split_ws(s@),
{
    let mut out: Vec<Vec<char>> = Vec::new();
    let mut pos: usize = 0;
    assert(s@.skip(0) =~= s@);
    loop
        invariant
            pos <= s@.len(),
            split_ws(s@) == views(out@) + split_ws(s@.skip(pos as int)),
        decreases s@.len() - pos,
    {
        let ghost prev = out@;
        let ghost rest = s@.skip(pos as int);
        let mut q = pos;
        while q < s.len() && is_whitespace(s[q])
            invariant
                pos <= q <= s@.len(),
                forall|k: int| pos <= k < q ==> is_ws(#[trigger] s@[k]),
            decreases s@.len() - q,
        {
            q += 1;
        }
        proof {
            assert forall|k: int| 0 <= k < q - pos implies is_ws(#[trigger] rest[k]) by {
                assert(rest[k] == s@[pos + k]);
            }
            lemma_trim_start_exact(rest, q - pos);
            assert(rest.skip(q - pos) =~= s@.skip(q as int));
        }
        if q == s.len() {
            assert(views(out@) + seq![] =~= views(out@));
            return out;
        }
        let mut e = q;
        while e < s.len() && !is_whitespace(s[e])
            invariant
                q <= e <= s@.len(),
                forall|k: int| q <= k < e ==> !is_ws(#[trigger] s@[k]),
            decreases s@.len() - e,
        {
            e += 1;
        }
        let ghost t = s@.skip(q as int);
        proof {
            assert forall|k: int| 0 <= k < e - q implies !is_ws(#[trigger] t[k]) by {
                assert(t[k] == s@[q + k]);
            }
            if e < s@.len() {
                assert(t[e - q] == s@[e as int]);
            }
            lemma_word_len_exact(t, e - q);
            assert(t.skip(e - q) =~= s@.skip(e as int));
        }
        let word = subvec(s, q, e);
        assert(word@ =~= t.take(e - q));
        out.push(word);
        assert(views(out@) =~= views(prev) + seq![word@]);
        pos = e;
    }
}

/// Each character of `s` that occurs in `from` replaced by `to`.
pub fn replace_chars_exec(s: &[char], from: &[char], to: char) -> (r: Vec<char>)
    ensures
        r@ == replace_chars(s@, from@, to),
{
    let mut r: Vec<char> = Vec::new();
    let mut i: usize = 0;
    while i < s.len()
        invariant
            i <= s@.len(),
            r@ == replace_chars(s@.take(i as int), from@, to),
        decreases s@.len() - i,
    {
        let c = s[i];
        let mut found = false;
        let mut k: usize = 0;
        while k < from.len()
            invariant
                k <= from@.len(),
                found == (exists|j: int| 0 <= j < k && from@[j] == c),
            decreases from@.len() - k,
        {
            if from[k] == c {
                found = true;
            }
            k += 1;
        }
        proof {
            if found {
                let j = choose|j: int| 0 <= j < from@.len() && from@[j] == c;
                assert(from@.contains(c));
            } else {
                assert(!from@.contains(c));
            }
        }
        r.push(if found { to } else { c });
        i += 1;
        assert(replace_chars(s@.take(i as int), from@, to) =~= replace_chars(
            s@.take(i - 1),
            from@,
            to,
        ).push(if found { to } else { c }));
    }
    assert(s@.take(s@.len() as int) =~= s@);
    r
}

/// The elements of `parts` joined with `sep` between consecutive ones.
pub fn join_exec(parts: &Vec<Vec<char>>, sep: &[char]) -> (r: Vec<char>)
    ensures
        r@ == join(views(parts@), sep@),
{
    let mut r: Vec<char> = Vec::new();
    let mut i: usize = 0;
    while i < parts.len()
        invariant
            i <= parts@.len(),
            r@ == join(views(parts@.take(i as int)), sep@),
        decreases parts@.len() - i,
    {
        let ghost before = views(parts@.take(i as int));
        if i > 0 {
            append(&mut r, sep);
        }
        append(&mut r, &parts[i]);
        i += 1;
        proof {
            let now = views(parts@.take(i as int));
            assert(now.drop_last() =~= before);
            assert(now.last() == parts@[i - 1]@);
            if i == 1 {
                assert(now =~= seq![parts@[0]@]);
            }
        }
    }
    assert(parts@.take(parts@.len() as int) =~= parts@);
    r
}

// ---------------------------------------------------------------------------
// Numbers in decimal
// ---------------------------------------------------------------------------

pub open spec fn is_digit(c: char) -> bool {
    '0' <= c && c <= '9'
}

pub open spec fn digit_char(d: int) -> char {
    ((d + ('0' as int)) as u32) as char
}

pub open spec fn digit_value(c: char) -> int {
    (c as int) - ('0' as int)
}

/// The decimal digits of `n`, most significant first, without leading zeros.
pub open spec fn decimal(n: nat) -> Seq<char>
    decreases n,
{
    if n < 10 {
        seq![digit_char(n as int)]
    } else {
        decimal(n / 10).push(digit_char((n % 10) as int))
    }
}

pub open spec fn all_digits(s: Seq<char>) -> bool {
    forall|i: int| 0 <= i < s.len() ==> is_digit(#[trigger] s[i])
}

/// The number a sequence of decimal digits denotes.
pub open spec fn digits_value(s: Seq<char>) -> nat
    decreases s.len(),
{
    if s.len() == 0 {
        0
    } else {
        (digits_value(s.drop_last()) * 10 + digit_value(s.last())) as nat
    }
}

/// `u64::from_str`: an optional `+`, then one or more ASCII digits denoting
/// a value that fits in a `u64`.
/// The digits part of a `u64` literal: `s` without one leading `+`.
pub open spec fn unsigned_body(s: Seq<char>) -> Seq<char> {
    if s.len() > 0 && s[0] == '+' {
        s.drop_first()
    } else {
        s
    }
}

pub open spec fn parse_u64(s: Seq<char>) -> Option<u64> {
    let body = unsigned_body(s);
    if body.len() > 0 && all_digits(body) && digits_value(body) <= u64::MAX {
        Some(digits_value(body) as u64)
    } else {
        None
    }
}

pub proof fn lemma_digit_char(d: int)
    requires
        0 <= d < 10,
    ensures
        is_digit(digit_char(d)),
        digit_value(digit_char(d)) == d,
        d != 0 ==> digit_char(d) != '0',
{
    assert((((d + ('0' as int)) as u32) as char) as int == d + ('0' as int));
}

pub proof fn lemma_decimal_digits(n: nat)
    ensures
        all_digits(decimal(n)),
        decimal(n).len() >= 1,
        digits_value(decimal(n)) == n,
        decimal(n).len() > 1 ==> decimal(n)[0] != '0',
    decreases n,
{
    lemma_digit_char((n % 10) as int);
    if n >= 10 {
        lemma_decimal_digits(n / 10);
        if n / 10 < 10 {
            lemma_digit_char((n / 10) as int);
        }
        let d = decimal(n / 10);
        let e = decimal(n);
        assert(e == d.push(digit_char((n % 10) as int)));
        assert(e.len() > 0);
        assert(e.last() == digit_char((n % 10) as int));
        assert(e.drop_last() =~= d);
        assert(digits_value(e) == digits_value(e.drop_last()) * 10 + digit_value(e.last()));
        if n / 10 < 10 {
            assert(d == seq![digit_char((n / 10) as int)]);
        }
        assert(e[0] == d[0]);
        if n / 10 >= 10 {
            assert(d == decimal(n / 10 / 10).push(digit_char((n / 10 % 10) as int)));
            assert(d.len() > 1);
            assert(d[0] != '0');
        } else {
            assert(d[0] == digit_char((n / 10) as int));
            assert(d[0] != '0');
        }
        assert(decimal(n).drop_last() =~= d);
        assert(decimal(n)[0] == d[0]);
        assert forall|i: int| 0 <= i < decimal(n).len() implies is_digit(#[trigger] decimal(n)[i]) by {
            if i < d.len() {
                assert(decimal(n)[i] == d[i]);
            }
        }
    } else {
        lemma_digit_char(n as int);
        assert(decimal(n).drop_last() =~= Seq::<char>::empty());
        assert(digits_value(decimal(n)) == digits_value(decimal(n).drop_last()) * 10 + digit_value(decimal(n).last()));
    }
}

/// The decimal rendering of `n` (`u64`'s `Display`).
pub fn u64_digits(n: u64) -> (r: Vec<char>)
    ensures
        r@ == decimal(n as nat),
    decreases n,
{
    if n < 10 {
        let c = ((n as u8) + ('0' as u8)) as char;
        vec![c]
    } else {
        let mut r = u64_digits(n / 10);
        let c = (((n % 10) as u8) + ('0' as u8)) as char;
        r.push(c);
        r
    }
}

/// The decimal rendering of an integer, with a leading `-` when negative.
pub open spec fn int_decimal(n: int) -> Seq<char> {
    if n < 0 {
        seq!['-'] + decimal((-n) as nat)
    } else {
        decimal(n as nat)
    }
}

/// The decimal rendering of `n` (`i64`'s `Display`).
pub fn i64_digits(n: i64) -> (r: Vec<char>)
    ensures
        r@ == int_decimal(n as int),
{
    if n < 0 {
        let m: u64 = if n == i64::MIN {
            9223372036854775808u64
        } else {
            (-n) as u64
        };
        let d = u64_digits(m);
        let mut r = vec!['-'];
        append(&mut r, &d);
        assert(r@ =~= int_decimal(n as int));
        r
    } else {
        u64_digits(n as u64)
    }
}

/// Parses a `u64` the way `str::parse::<u64>` does.
pub fn parse_u64_exec(s: &[char]) -> (r: Option<u64>)
    ensures
        r == parse_u64(s@),
{
    let mut start: usize = 0;
    if s.len() > 0 && s[0] == '+' {
        start = 1;
    }
    let ghost body = unsigned_body(s@);
    assert(body =~= s@.skip(start as int));
    if start >= s.len() {
        return None;
    }
    let mut v: u64 = 0;
    let mut i = start;
    while i < s.len()
        invariant
            start <= i <= s@.len(),
            body == s@.skip(start as int),
            body == unsigned_body(s@),
            all_digits(s@.subrange(start as int, i as int)),
            v as nat == digits_value(s@.subrange(start as int, i as int)),
        decreases s@.len() - i,
    {
        let c = s[i];
        let ghost pre = s@.subrange(start as int, i as int);
        let ghost post = s@.subrange(start as int, i + 1);
        assert(post.drop_last() =~= pre);
        assert(post.last() == c);
        if !('0' <= c && c <= '9') {
            assert(body[i - start] == c);
            assert(!is_digit(body[i - start]));
            assert(!all_digits(body));
            assert(!all_digits(unsigned_body(s@)));
            assert(parse_u64(s@) == None::<u64>);
            return None;
        }
        let d = ((c as u32) - ('0' as u32)) as u64;
        if v > (u64::MAX - d) / 10 {
            proof {
                assert(body.take(i + 1 - start) =~= post);
                if all_digits(body) {
                    lemma_digits_value_prefix_bound(body, i + 1 - start);
                }
                assert(parse_u64(s@) == None::<u64>);
            }
            return None;
        }
        v = v * 10 + d;
        i += 1;
    }
    assert(s@.subrange(start as int, s@.len() as int) =~= body);
    Some(v)
}

/// Extending a digit sequence never makes its value smaller.
pub proof fn lemma_digits_value_prefix_bound(s: Seq<char>, k: int)
    requires
        0 <= k <= s.len(),
        all_digits(s),
    ensures
        digits_value(s.take(k)) <= digits_value(s),
    decreases s.len() - k,
{
    if k < s.len() {
        lemma_digits_value_prefix_bound(s, k + 1);
        assert(s.take(k + 1).drop_last() =~= s.take(k));
        assert(is_digit(s[k]));
    } else {
        assert(s.take(k) =~= s);
    }
}

/// ASCII case-insensitive equality (`str::eq_ignore_ascii_case`).
pub open spec fn eq_ignore_ascii_case(a: Seq<char>, b: Seq<char>) -> bool {
    a.len() == b.len() && forall|i: int| 0 <= i < a.len() ==> ascii_fold(#[trigger] a[i]) == ascii_fold(b[i])
}

/// `char::to_ascii_lowercase`.
pub open spec fn ascii_fold(c: char) -> char {
    if 'A' <= c && c <= 'Z' {
        ((c as u32) + 32) as char
    } else {
        c
    }
}

pub fn ascii_fold_exec(c: char) -> (r: char)
    ensures
        r == ascii_fold(c),
{
    if 'A' <= c && c <= 'Z' {
        ((c as u8) + 32) as char
    } else {
        c
    }
}

pub fn eq_ignore_ascii_case_exec(a: &[char], bv: &[char]) -> (r: bool)
    ensures
        r == eq_ignore_ascii_case(a@, bv@),
{
    if a.len() != bv.len() {
        return false;
    }
    let mut i: usize = 0;
    while i < a.len()
        invariant
            a@.len() == bv@.len(),
            i <= a@.len(),
            forall|k: int| 0 <= k < i ==> ascii_fold(#[trigger] a@[k]) == ascii_fold(bv@[k]),
        decreases a@.len() - i,
    {
        if ascii_fold_exec(a[i]) != ascii_fold_exec(bv[i]) {
            assert(ascii_fold(a@[i as int]) != ascii_fold(bv@[i as int]));
            assert(!eq_ignore_ascii_case(a@, bv@));
            return false;
        }
        i += 1;
    }
    true
}

} // verus!
