//! What `nb` references read back as: a reference written as notebook,
//! folder and id, in a bracket or at the head of a listing line, parses
//! into exactly those parts.
use vstd::prelude::*;
use crate::text::{
    trim, strip_prefix, starts_with, split_once, rsplit_once, rfind, find, matches_at, decimal,
    parse_u64, unsigned_body, is_digit, is_ws, lemma_rfind_bounds, lemma_find_from_first,
    lemma_decimal_digits, lemma_trim_start_exact, lemma_trim_end_exact,
};
use crate::notes::{bracket_folder_id, list_line, after_last, ref_notebook};

verus! {

/// How `nb` refers to item `n` of `folder` within its notebook: the id
/// alone at the root, `folder/n` inside a folder.
pub open spec fn ref_text(folder: Seq<char>, n: nat) -> Seq<char> {
    if folder.len() == 0 {
        decimal(n)
    } else {
        folder + seq!['/'] + decimal(n)
    }
}

/// `s` holds no `c`.
pub open spec fn lacks_char(s: Seq<char>, c: char) -> bool {
    forall|k: int| 0 <= k < s.len() ==> #[trigger] s[k] != c
}

/// Split at the last `c`, a text whose tail after it holds no `c` gives its
/// head and tail.
proof fn lemma_rsplit_at(a: Seq<char>, c: char, b: Seq<char>)
    requires
        lacks_char(b, c),
    ensures
        rsplit_once(a + seq![c] + b, seq![c]) == Some((a, b)),
{
    let s = a + seq![c] + b;
    let p = seq![c];
    let j = a.len() as int;
    assert(s.subrange(j, j + 1) =~= p);
    assert(matches_at(s, p, j));
    lemma_rfind_bounds(s, p);
    let jj = rfind(s, p)->0;
    if jj > j {
        assert(s.subrange(jj, jj + 1)[0] == s[jj]);
        assert(s[jj] == b[jj - j - 1]);
    }
    assert(s.take(j) =~= a);
    assert(s.skip(j + 1) =~= b);
}

/// A text without `c` has no last `c` to split at.
proof fn lemma_rsplit_none(b: Seq<char>, c: char)
    requires
        lacks_char(b, c),
    ensures
        rsplit_once(b, seq![c]) is None,
{
    lemma_rfind_bounds(b, seq![c]);
    if rfind(b, seq![c]) is Some {
        let jj = rfind(b, seq![c])->0;
        assert(b.subrange(jj, jj + 1)[0] == b[jj]);
    }
}

/// Split at the first `p`, a text whose head holds no first character of
/// `p` gives its head and tail.
proof fn lemma_split_at(a: Seq<char>, p: Seq<char>, b: Seq<char>)
    requires
        p.len() > 0,
        lacks_char(a, p[0]),
    ensures
        split_once(a + p + b, p) == Some((a, b)),
{
    let s = a + p + b;
    let j = a.len() as int;
    assert(s.subrange(j, j + p.len()) =~= p);
    assert forall|k: int| 0 <= k < j implies !#[trigger] matches_at(s, p, k) by {
        if matches_at(s, p, k) {
            assert(s.subrange(k, k + p.len())[0] == s[k]);
            assert(s[k] == a[k]);
        }
    }
    lemma_find_from_first(s, p, 0, j);
    assert(s.take(j) =~= a);
    assert(s.skip(j + p.len()) =~= b);
}

/// A number's decimal text holds digits only and reads back as the number.
proof fn lemma_decimal_reads(n: u64)
    ensures
        parse_u64(trim(decimal(n as nat))) == Some(n),
        lacks_char(decimal(n as nat), '/'),
        lacks_char(decimal(n as nat), ':'),
        lacks_char(decimal(n as nat), ']'),
{
    let d = decimal(n as nat);
    lemma_decimal_digits(n as nat);
    assert(is_digit(d[0]) && is_digit(d[d.len() - 1]));
    lemma_trim_start_exact(d, 0);
    assert(d.skip(0) =~= d);
    lemma_trim_end_exact(d, d.len() as int);
    assert(d.take(d.len() as int) =~= d);
    assert(trim(d) == d);
    assert(unsigned_body(d) == d);
    assert forall|k: int| 0 <= k < d.len() implies #[trigger] d[k] != '/' && d[k] != ':' && d[k] != ']' by {
        assert(is_digit(d[k]));
    }
}

/// The id part of a reference reads back as its folder and id.
proof fn lemma_ref_text_reads(folder: Seq<char>, n: u64)
    ensures
        match rsplit_once(ref_text(folder, n as nat), seq!['/']) {
            Some((f, id)) => f == folder && folder.len() > 0 && parse_u64(trim(id)) == Some(n),
            None => folder.len() == 0 && parse_u64(trim(ref_text(folder, n as nat))) == Some(n),
        },
{
    lemma_decimal_reads(n);
    if folder.len() == 0 {
        lemma_rsplit_none(decimal(n as nat), '/');
    } else {
        lemma_rsplit_at(folder, '/', decimal(n as nat));
    }
}

/// A bracket reference `notebook:folder/n` (`notebook:n` at the root), as
/// `nb` reports an added or moved item, reads back as that folder and id,
/// whatever the notebook, when the folder holds no `:`.
pub proof fn lemma_bracket_reads_back(nb: Seq<char>, folder: Seq<char>, n: u64)
    requires
        lacks_char(folder, ':'),
    ensures
        bracket_folder_id(nb + seq![':'] + ref_text(folder, n as nat)) == Some((folder, n)),
{
    let r = ref_text(folder, n as nat);
    lemma_decimal_reads(n);
    assert(lacks_char(r, ':')) by {
        if folder.len() > 0 {
            assert forall|k: int| 0 <= k < r.len() implies #[trigger] r[k] != ':' by {
                if k < folder.len() {
                    assert(r[k] == folder[k]);
                } else if k > folder.len() {
                    assert(r[k] == decimal(n as nat)[k - folder.len() - 1]);
                }
            }
        }
    }
    lemma_rsplit_at(nb, ':', r);
    assert(after_last(nb + seq![':'] + r, seq![':']) == r);
    lemma_ref_text_reads(folder, n);
}

/// A listing line `[notebook:folder/n] title` (`[notebook:n] title` at
/// the root) reads back as its id, notebook, folder and title; without a
/// notebook, `[folder/n] title` reads back under the notebook of the
/// listing. The notebook holds no `:` or `]`, the folder no `:` or `]`,
/// and the title ends in a character other than whitespace.
pub proof fn lemma_list_line_reads_back(
    nb: Option<Seq<char>>,
    folder: Seq<char>,
    n: u64,
    title: Seq<char>,
    ctx: Seq<char>,
)
    requires
        nb matches Some(x) ==> lacks_char(x, ':') && lacks_char(x, ']'),
        lacks_char(folder, ':'),
        lacks_char(folder, ']'),
        title.len() > 0,
        !is_ws(title.last()),
    ensures
        ({
            let head = match nb {
                Some(x) => x + seq![':'] + ref_text(folder, n as nat),
                None => ref_text(folder, n as nat),
            };
            let notebook = match nb {
                Some(x) => x,
                None => ctx,
            };
            list_line(seq!['['] + head + seq![']', ' '] + title, ctx) == Some((n, notebook, folder, title))
        }),
{
    let r = ref_text(folder, n as nat);
    lemma_decimal_reads(n);
    assert(lacks_char(r, ':') && lacks_char(r, ']')) by {
        if folder.len() > 0 {
            assert forall|k: int| 0 <= k < r.len() implies #[trigger] r[k] != ':' && r[k] != ']' by {
                if k < folder.len() {
                    assert(r[k] == folder[k]);
                } else if k > folder.len() {
                    assert(r[k] == decimal(n as nat)[k - folder.len() - 1]);
                }
            }
        }
    }
    let head = match nb {
        Some(x) => x + seq![':'] + r,
        None => r,
    };
    let line = seq!['['] + head + seq![']', ' '] + title;
    assert(!is_ws(line[0]));
    lemma_trim_start_exact(line, 0);
    assert(line.skip(0) =~= line);
    assert(line[line.len() - 1] == title.last());
    lemma_trim_end_exact(line, line.len() as int);
    assert(line.take(line.len() as int) =~= line);
    assert(trim(line) == line);
    let rest = head + seq![']', ' '] + title;
    assert(line.skip(1) =~= rest);
    assert(line.subrange(0, 1) =~= seq!['[']);
    assert(starts_with(line, seq!['[']));
    assert(strip_prefix(trim(line), seq!['[']) == Some(rest));
    assert(lacks_char(head, ']')) by {
        if let Some(x) = nb {
            assert forall|k: int| 0 <= k < head.len() implies #[trigger] head[k] != ']' by {
                if k < x.len() {
                    assert(head[k] == x[k]);
                } else if k > x.len() {
                    assert(head[k] == r[k - x.len() - 1]);
                }
            }
        }
    }
    lemma_split_at(head, seq![']', ' '], title);
    match nb {
        Some(x) => {
            lemma_split_at(x, seq![':'], r);
            assert(ref_notebook(head, ctx) == (x, r));
        },
        None => {
            lemma_rsplit_none(r, ':');
            lemma_find_bounds_none(r);
            assert(ref_notebook(head, ctx) == (ctx, r));
        },
    }
    lemma_ref_text_reads(folder, n);
}

/// A text without `:` has no first `:` to split at.
proof fn lemma_find_bounds_none(r: Seq<char>)
    requires
        lacks_char(r, ':'),
    ensures
        split_once(r, seq![':']) is None,
{
    crate::text::lemma_find_bounds(r, seq![':']);
    if find(r, seq![':']) is Some {
        let j = find(r, seq![':'])->0;
        assert(r.subrange(j, j + 1)[0] == r[j]);
    }
}

} // verus!
