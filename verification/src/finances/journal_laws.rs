//! What the journal parser reads back from what the journal writer wrote.
use vstd::prelude::*;
use crate::text::{lines, split, split_ws, find, matches_at, is_ws, one_word, trim, trim_start, strip_cr, rfind_upto, lemma_find_from_first, lemma_lines_cons, lemma_find_bounds, lemma_trim_start_exact, lemma_trim_end_exact, lemma_word_len_exact};
use crate::finances::journal_parser::{first_word, non_blank, posting_amount, either_amount, rule_header, name_and_category, block_item, items_of, ItemView, block_transfer, transfers_of, TransferView, block_account, accounts_of, AccountView, trailing_number};
use crate::finances::journal_writer::{sanitized, sanitized_leaf, item_legs, category_suffix, recurring_item_text, recurring_transfer_text, account_text, rate_limit_suffix};
use crate::finances::models::{Frequency, TxnKind, SpendingCategory, period_text, phrase_of, category_tag, lemma_period_round_trip, lemma_trim_solid, lemma_category_tag_round_trip};
use crate::finances::money::{cents_text, hundredths_text, two_digits, lemma_cents_round_trip, lemma_two_digits, lemma_hundredths_round_trip};
use crate::finances::models::{AccountKind, kind_prefix, kind_of_prefix, lemma_prefix_round_trip};
use crate::date::{valid_ymd, iso_text, lemma_iso_shape};
use crate::text::{blank, starts_with, strip_prefix, strip_suffix, split_once, decimal, is_digit, lemma_decimal_digits};

verus! {

/// No line feed in `s` is directly followed by another.
pub open spec fn no_blank_line_break(s: Seq<char>) -> bool {
    forall|k: int| 0 <= k < s.len() - 1 ==> !(#[trigger] s[k] == '\n' && s[k + 1] == '\n')
}

/// A block without a blank line in it, followed by a blank line, splits
/// into the block and an empty rest.
#[verifier::rlimit(30)]
pub proof fn lemma_split_one_block(b: Seq<char>)
    requires
        no_blank_line_break(b),
        b.len() == 0 || b.last() != '\n',
    ensures
        split(b + "\n\n"@, "\n\n"@) == seq![b, Seq::<char>::empty()],
{
    reveal_strlit("\n\n");
    let p = "\n\n"@;
    let s = b + p;
    assert(s.subrange(b.len() as int, b.len() + 2int) =~= p);
    assert forall|k: int| 0 <= k < b.len() implies !#[trigger] matches_at(s, p, k) by {
        if matches_at(s, p, k) {
            assert(s.subrange(k, k + 2)[0] == s[k]);
            assert(s.subrange(k, k + 2)[1] == s[k + 1]);
            assert(s[k] == b[k]);
            if k + 1 < b.len() {
                assert(s[k + 1] == b[k + 1]);
            } else {
                assert(b.last() == b[k]);
            }
        }
    }
    lemma_find_from_first(s, p, 0, b.len() as int);
    assert(s.take(b.len() as int) =~= b);
    let e = s.skip(b.len() + 2int);
    assert(e =~= Seq::<char>::empty());
    lemma_find_bounds(e, p);
    assert(split(e, p) == seq![e]);
}

/// Three lines without line feeds, joined by line feeds, are the lines of
/// the text.
#[verifier::rlimit(30)]
pub proof fn lemma_three_lines(l0: Seq<char>, l1: Seq<char>, l2: Seq<char>)
    requires
        forall|i: int| 0 <= i < l0.len() ==> #[trigger] l0[i] != '\n',
        forall|i: int| 0 <= i < l1.len() ==> #[trigger] l1[i] != '\n',
        forall|i: int| 0 <= i < l2.len() ==> #[trigger] l2[i] != '\n',
        l0.len() == 0 || l0.last() != '\r',
        l1.len() == 0 || l1.last() != '\r',
        l2.len() > 0,
        l2.last() != '\r',
    ensures
        lines(l0 + seq!['\n'] + l1 + seq!['\n'] + l2) == seq![l0, l1, l2],
{
    lemma_lines_cons(l1, l2);
    lemma_lines_cons(l0, l1 + seq!['\n'] + l2);
    assert(l0 + seq!['\n'] + l1 + seq!['\n'] + l2 =~= l0 + seq!['\n'] + (l1 + seq!['\n'] + l2));
    lemma_find_bounds(l2, seq!['\n']);
    if find(l2, seq!['\n']) is Some {
        let i = find(l2, seq!['\n'])->Some_0;
        assert(l2.subrange(i, i + 1)[0] == l2[i]);
    }
    assert(strip_cr(l2) == l2);
    assert(lines(l2) == seq![l2]);
}

/// A word followed by whitespace (or nothing) has that word first.
#[verifier::rlimit(30)]
pub proof fn lemma_first_word(w: Seq<char>, s: Seq<char>)
    requires
        w.len() > 0,
        one_word(w),
        s.len() == 0 || is_ws(s[0]),
    ensures
        first_word(w + s) == Some(w),
{
    let t = w + s;
    assert(t[0] == w[0]);
    lemma_trim_start_exact(t, 0);
    assert(t.skip(0) =~= t);
    assert forall|k: int| 0 <= k < w.len() implies !is_ws(#[trigger] t[k]) by {
        assert(t[k] == w[k]);
    }
    if s.len() > 0 {
        assert(t[w.len() as int] == s[0]);
    }
    lemma_word_len_exact(t, w.len() as int);
    assert(t.take(w.len() as int) =~= w);
    assert(split_ws(t)[0] == w);
}

/// A text that starts and ends with non-whitespace, followed by spaces,
/// trims to the text.
#[verifier::rlimit(30)]
pub proof fn lemma_trim_trailing_spaces(x: Seq<char>, n: nat)
    requires
        x.len() > 0,
        !is_ws(x[0]),
        !is_ws(x.last()),
    ensures
        trim(x + Seq::new(n, |i: int| ' ')) == x,
{
    let t = x + Seq::new(n, |i: int| ' ');
    assert(t[0] == x[0]);
    lemma_trim_start_exact(t, 0);
    assert(t.skip(0) =~= t);
    assert(t[x.len() - 1] == x.last());
    lemma_trim_end_exact(t, x.len() as int);
    assert(t.take(x.len() as int) =~= x);
}

/// `rfind_upto` finds the last match at or before `i`.
#[verifier::rlimit(30)]
pub proof fn lemma_rfind_upto_last(s: Seq<char>, p: Seq<char>, i: int, j: int)
    requires
        j <= i,
        matches_at(s, p, j),
        forall|k: int| j < k <= i ==> !#[trigger] matches_at(s, p, k),
    ensures
        rfind_upto(s, p, i) == Some(j),
    decreases i - j,
{
    if j < i {
        lemma_rfind_upto_last(s, p, i - 1, j);
    }
}

/// `s` has no character `c`.
pub open spec fn lacks(s: Seq<char>, c: char) -> bool {
    forall|i: int| 0 <= i < s.len() ==> #[trigger] s[i] != c
}

/// A text lacks a character when each of its parts does.
#[verifier::rlimit(30)]
proof fn lemma_lacks_cat(a: Seq<char>, b: Seq<char>, c: char)
    requires
        lacks(a, c),
        lacks(b, c),
    ensures
        lacks(a + b, c),
{
    assert forall|i: int| 0 <= i < (a + b).len() implies #[trigger] (a + b)[i] != c by {
        if i < a.len() {
            assert((a + b)[i] == a[i]);
        } else {
            assert((a + b)[i] == b[i - a.len()]);
        }
    }
}

/// A single word lacks every whitespace character.
#[verifier::rlimit(30)]
proof fn lemma_word_lacks(w: Seq<char>)
    requires
        one_word(w),
    ensures
        lacks(w, '\n'),
        lacks(w, '\r'),
        lacks(w, ' '),
{
    assert forall|i: int| 0 <= i < w.len() implies #[trigger] w[i] != '\n' && w[i] != '\r' && w[i] != ' ' by {
        assert(!is_ws(w[i]));
    }
}

/// Free text flattened to one line has no line feed or carriage return.
#[verifier::rlimit(30)]
proof fn lemma_sanitized_lacks(s: Seq<char>)
    ensures
        lacks(sanitized(s), '\n'),
        lacks(sanitized(s), '\r'),
        sanitized(s).len() == s.len(),
{
    let t = sanitized(s);
    assert forall|i: int| 0 <= i < t.len() implies #[trigger] t[i] != '\n' && t[i] != '\r' by {
        assert(t[i] == (if seq!['\n', '\r'].contains(s[i]) {
            ' '
        } else {
            s[i]
        }));
        if s[i] == '\n' {
            assert(seq!['\n', '\r'][0] == '\n');
        }
        if s[i] == '\r' {
            assert(seq!['\n', '\r'][1] == '\r');
        }
    }
}

/// The shape of an amount's text: non-whitespace at both ends, no line
/// break, no `$`, no `;`.
#[verifier::rlimit(30)]
proof fn lemma_cents_shape(c: i64)
    ensures
        cents_text(c as int).len() > 0,
        !is_ws(cents_text(c as int)[0]),
        !is_ws(cents_text(c as int).last()),
        lacks(cents_text(c as int), '\n'),
        lacks(cents_text(c as int), '\r'),
        lacks(cents_text(c as int), '$'),
        lacks(cents_text(c as int), ';'),
        lacks(cents_text(c as int), ' '),
{
    let a: int = if c < 0 {
        -c
    } else {
        c as int
    };
    let q = (a / 100) as nat;
    let r = (a % 100) as nat;
    lemma_decimal_digits(q);
    lemma_two_digits(r);
    let sign = if c < 0 {
        seq!['-']
    } else {
        seq![]
    };
    let t = cents_text(c as int);
    assert(t =~= sign + decimal(q) + seq!['.'] + two_digits(r));
    assert forall|i: int| 0 <= i < t.len() implies #[trigger] t[i] == '-' || t[i] == '.' || is_digit(t[i]) by {
        if i < sign.len() {
        } else if i < sign.len() + decimal(q).len() {
            assert(t[i] == decimal(q)[i - sign.len()]);
        } else if i == sign.len() + decimal(q).len() {
        } else {
            assert(t[i] == two_digits(r)[i - sign.len() - decimal(q).len() - 1]);
        }
    }
    assert(t[0] == '-' || t[0] == '.' || is_digit(t[0]));
    assert(t.last() == t[t.len() - 1]);
    assert(t[t.len() - 1] == two_digits(r)[1]);
}

/// The shape of a period expression: non-whitespace at both ends, no line
/// break and no `;`.
#[verifier::rlimit(30)]
proof fn lemma_period_shape(f: Frequency, rd: Option<(int, int, int)>)
    requires
        rd matches Some(d) ==> valid_ymd(d.0, d.1, d.2),
    ensures
        period_text(f, rd).len() > 0,
        !is_ws(period_text(f, rd)[0]),
        !is_ws(period_text(f, rd).last()),
        lacks(period_text(f, rd), '\n'),
        lacks(period_text(f, rd), '\r'),
        lacks(period_text(f, rd), ';'),
{
    reveal_strlit("weekly");
    reveal_strlit("every 2 weeks");
    reveal_strlit("monthly");
    reveal_strlit("yearly");
    reveal_strlit(" from ");
    let ph = phrase_of(f);
    assert(lacks(ph, '\n') && lacks(ph, '\r') && lacks(ph, ';'));
    match rd {
        None => {},
        Some(d) => {
            lemma_iso_shape(d);
            let iso = iso_text(d);
            assert forall|i: int| 0 <= i < iso.len() implies #[trigger] iso[i] != '\n' && iso[i] != '\r' && iso[i]
                != ';' by {
                assert(is_digit(iso[i]) || iso[i] == '-' || iso[i] == '+');
            }
            assert(lacks(iso, '\n') && lacks(iso, '\r') && lacks(iso, ';'));
            lemma_lacks_cat(ph, " from "@, '\n');
            lemma_lacks_cat(ph, " from "@, '\r');
            lemma_lacks_cat(ph, " from "@, ';');
            lemma_lacks_cat(ph + " from "@, iso, '\n');
            lemma_lacks_cat(ph + " from "@, iso, '\r');
            lemma_lacks_cat(ph + " from "@, iso, ';');
            let t = ph + " from "@ + iso;
            assert(t[0] == ph[0]);
            assert(t.last() == iso.last());
        },
    }
}

/// An indented text trims to the text.
#[verifier::rlimit(30)]
proof fn lemma_indented(x: Seq<char>)
    requires
        x.len() > 0,
        !is_ws(x[0]),
        !is_ws(x.last()),
    ensures
        trim(seq![' ', ' ', ' ', ' '] + x) == x,
        !blank(seq![' ', ' ', ' ', ' '] + x),
{
    let t = seq![' ', ' ', ' ', ' '] + x;
    lemma_trim_start_exact(t, 4);
    assert(t.skip(4) =~= x);
    lemma_trim_solid(x);
    lemma_trim_start_exact(x, 0);
    assert(x.skip(0) =~= x);
}

/// The first `p` in `s` is at `j` when `s` has it there and no earlier
/// position holds its first character.
#[verifier::rlimit(30)]
proof fn lemma_first_at(s: Seq<char>, p: Seq<char>, j: int)
    requires
        p.len() > 0,
        0 <= j,
        matches_at(s, p, j),
        forall|k: int| 0 <= k < j ==> #[trigger] s[k] != p[0],
    ensures
        find(s, p) == Some(j),
{
    assert forall|k: int| 0 <= k < j implies !#[trigger] matches_at(s, p, k) by {
        if matches_at(s, p, k) {
            assert(s.subrange(k, k + p.len())[0] == s[k]);
        }
    }
    lemma_find_from_first(s, p, 0, j);
}

/// The header line of a periodic rule as the writer writes it.
pub open spec fn rule_line(per: Seq<char>, id: Seq<char>, rest: Seq<char>) -> Seq<char> {
    "~ "@ + per + "  ; id:"@ + id + " name:"@ + rest
}

/// A header line written by the writer reads back as its period, and the
/// comment after `id:` splits into the id and the rest.
#[verifier::rlimit(50)]
#[verifier::spinoff_prover]
proof fn lemma_rule_line(f: Frequency, rd: Option<(int, int, int)>, id: Seq<char>, rest: Seq<char>)
    requires
        rd matches Some(d) ==> valid_ymd(d.0, d.1, d.2),
        one_word(id),
        rest.len() > 0 ==> !is_ws(rest.last()),
        lacks(rest, '\n'),
    ensures
        rule_header(rule_line(period_text(f, rd), id, rest)) == Some((f, rd, id + " name:"@ + rest)),
        split_once(id + " name:"@ + rest, " name:"@) == Some((id, rest)),
        trim(id) == id,
        lacks(rule_line(period_text(f, rd), id, rest), '\n'),
        rule_line(period_text(f, rd), id, rest)[0] == '~',
        !is_ws(rule_line(period_text(f, rd), id, rest).last()),
{
    reveal_strlit("~ ");
    reveal_strlit("  ; id:");
    reveal_strlit(" name:");
    reveal_strlit("; ");
    reveal_strlit("id:");
    let per = period_text(f, rd);
    lemma_period_shape(f, rd);
    lemma_word_lacks(id);
    let l0 = rule_line(per, id, rest);
    assert(l0.last() != ' ' && !is_ws(l0.last())) by {
        if rest.len() > 0 {
            assert(l0.last() == rest.last());
        } else {
            assert(l0.last() == ':');
        }
    }
    assert(lacks(l0, '\n')) by {
        lemma_lacks_cat("~ "@, per, '\n');
        lemma_lacks_cat("~ "@ + per, "  ; id:"@, '\n');
        lemma_lacks_cat("~ "@ + per + "  ; id:"@, id, '\n');
        lemma_lacks_cat("~ "@ + per + "  ; id:"@ + id, " name:"@, '\n');
        lemma_lacks_cat("~ "@ + per + "  ; id:"@ + id + " name:"@, rest, '\n');
    }
    assert(l0[0] == '~');
    lemma_trim_solid(l0);
    let h = per + "  ; id:"@ + id + " name:"@ + rest;
    assert(l0.take(2) =~= "~ "@);
    assert(l0.skip(2) =~= h);
    let semi = "; "@;
    assert(h.subrange(per.len() + 2int, per.len() + 4int) =~= semi);
    assert forall|k: int| 0 <= k < per.len() + 2 implies #[trigger] h[k] != semi[0] by {
        if k < per.len() {
            assert(h[k] == per[k]);
        }
    }
    lemma_first_at(h, semi, per.len() + 2int);
    assert(h.take(per.len() + 2int) =~= per + Seq::new(2, |i: int| ' '));
    lemma_trim_trailing_spaces(per, 2);
    lemma_period_round_trip(f, rd);
    let cm = "id:"@ + id + " name:"@ + rest;
    assert(h.skip(per.len() + 4int) =~= cm);
    assert(cm.last() == l0.last());
    lemma_trim_solid(cm);
    let cc = id + " name:"@ + rest;
    assert(cm.take(3) =~= "id:"@);
    assert(cm.skip(3) =~= cc);
    let nmtag = " name:"@;
    assert(cc.subrange(id.len() as int, id.len() + 6int) =~= nmtag);
    assert forall|k: int| 0 <= k < id.len() implies #[trigger] cc[k] != nmtag[0] by {
        assert(cc[k] == id[k]);
    }
    lemma_first_at(cc, nmtag, id.len() as int);
    assert(cc.take(id.len() as int) =~= id);
    assert(cc.skip(id.len() + 6int) =~= rest);
    if id.len() > 0 {
        lemma_trim_solid(id);
    }
}

/// The name and category a writer's name part reads back as.
#[verifier::rlimit(30)]
proof fn lemma_name_part(nm: Seq<char>, category: Option<SpendingCategory>)
    requires
        trim(nm) == nm,
        lacks(nm, '\n'),
        category is Some ==> nm.len() > 0,
        category is None ==> name_and_category(nm) == (nm, None::<SpendingCategory>),
    ensures
        name_and_category(trim(nm + category_suffix(category))) == (nm, category),
        trim(nm + category_suffix(category)) == nm + category_suffix(category),
        nm + category_suffix(category) == Seq::<char>::empty() || !is_ws((nm + category_suffix(category)).last()),
        lacks(nm + category_suffix(category), '\n'),
{
    reveal_strlit(" category:");
    reveal_strlit("stupid");
    reveal_strlit("survival");
    let cs = category_suffix(category);
    let rest = nm + cs;
    if nm.len() > 0 {
        crate::text::lemma_trim_shape(nm);
    }
    match category {
        None => {
            assert(rest =~= nm);
        },
        Some(cat) => {
            let tag = category_tag(cat);
            let p = " category:"@;
            assert(cs =~= p + tag);
            assert(rest.last() == tag.last());
            assert(rest[0] == nm[0]);
            lemma_trim_solid(rest);
            assert(lacks(cs, '\n'));
            lemma_lacks_cat(nm, cs, '\n');
            assert(rest.subrange(nm.len() as int, nm.len() + 10int) =~= p);
            assert forall|k: int| nm.len() < k <= rest.len() - p.len() implies !#[trigger] matches_at(
                rest,
                p,
                k,
            ) by {
                if matches_at(rest, p, k) {
                    assert(rest.subrange(k, k + 10)[0] == rest[k]);
                    assert(rest[k] == cs[k - nm.len()]);
                    if k - nm.len() < 10 {
                        assert(cs[k - nm.len()] == p[k - nm.len()]);
                    } else {
                        assert(cs[k - nm.len()] == tag[k - nm.len() - 10]);
                    }
                }
            }
            lemma_rfind_upto_last(rest, p, rest.len() - p.len(), nm.len() as int);
            assert(rest.skip(nm.len() + 10int) =~= tag);
            lemma_trim_solid(tag);
            lemma_category_tag_round_trip(cat, tag);
            assert(rest.take(nm.len() as int) =~= nm);
        },
    }
}

/// Two posting lines as the writer writes them read back as their
/// accounts and the amount of the first.
#[verifier::rlimit(30)]
proof fn lemma_postings(d: Seq<char>, c: Seq<char>, amount: i64)
    requires
        d.len() > 0,
        one_word(d),
        lacks(d, '$'),
        c.len() > 0,
        one_word(c),
    ensures
        first_word(d + "    $"@ + cents_text(amount as int)) == Some(d),
        first_word(c) == Some(c),
        posting_amount(d + "    $"@ + cents_text(amount as int)) == Some(amount as int),
        either_amount(d + "    $"@ + cents_text(amount as int), c) == Some(amount as int),
{
    reveal_strlit("    $");
    reveal_strlit("$");
    let a = cents_text(amount as int);
    lemma_cents_shape(amount);
    let p1 = d + "    $"@ + a;
    assert(p1 =~= d + ("    $"@ + a));
    lemma_first_word(d, "    $"@ + a);
    lemma_first_word(c, Seq::<char>::empty());
    assert(c + Seq::<char>::empty() =~= c);
    let dollar = "$"@;
    assert(p1.subrange(d.len() + 4int, d.len() + 5int) =~= dollar);
    assert forall|k: int| 0 <= k < d.len() + 4 implies #[trigger] p1[k] != dollar[0] by {
        if k < d.len() {
            assert(p1[k] == d[k]);
        }
    }
    lemma_first_at(p1, dollar, d.len() + 4int);
    assert(p1.skip(d.len() + 5int) =~= a);
    lemma_trim_solid(a);
    lemma_cents_round_trip(amount);
}

/// Three non-blank lines stay when the blank ones are dropped.
#[verifier::rlimit(30)]
proof fn lemma_non_blank3(l0: Seq<char>, l1: Seq<char>, l2: Seq<char>)
    requires
        !blank(l0),
        !blank(l1),
        !blank(l2),
    ensures
        non_blank(seq![l0, l1, l2]) == seq![l0, l1, l2],
{
    let ls = seq![l0, l1, l2];
    assert(ls.drop_last() =~= seq![l0, l1]);
    assert(seq![l0, l1].drop_last() =~= seq![l0]);
    assert(seq![l0].drop_last() =~= Seq::<Seq<char>>::empty());
    assert(non_blank(Seq::<Seq<char>>::empty()) == Seq::<Seq<char>>::empty());
    assert(non_blank(seq![l0]) =~= seq![l0]);
    assert(non_blank(seq![l0, l1]) =~= seq![l0, l1]);
}

/// Three lines without a blank one among them, followed by a blank line,
/// are one block.
#[verifier::rlimit(30)]
proof fn lemma_three_line_block(l0: Seq<char>, l1: Seq<char>, l2: Seq<char>)
    requires
        l0.len() > 0,
        lacks(l0, '\n'),
        l1.len() > 0,
        l1[0] != '\n',
        lacks(l1, '\n'),
        l2.len() > 0,
        l2[0] != '\n',
        l2.last() != '\n',
        lacks(l2, '\n'),
    ensures
        split(l0 + seq!['\n'] + l1 + seq!['\n'] + l2 + "\n\n"@, "\n\n"@) == seq![
            l0 + seq!['\n'] + l1 + seq!['\n'] + l2,
            Seq::<char>::empty(),
        ],
{
    let b = l0 + seq!['\n'] + l1 + seq!['\n'] + l2;
    assert(no_blank_line_break(b)) by {
        assert forall|k: int| 0 <= k < b.len() - 1 implies !(#[trigger] b[k] == '\n' && b[k + 1] == '\n') by {
            let n0 = l0.len() as int;
            let n1 = l1.len() as int;
            if k < n0 {
                assert(b[k] == l0[k]);
            } else if k == n0 {
                assert(b[k + 1] == l1[0]);
            } else if k < n0 + 1 + n1 {
                assert(b[k] == l1[k - n0 - 1]);
            } else if k == n0 + 1 + n1 {
                assert(b[k + 1] == l2[0]);
            } else {
                assert(b[k] == l2[k - n0 - n1 - 2]);
            }
        }
    }
    assert(b.last() == l2.last());
    lemma_split_one_block(b);
}

/// A block of a header line and two indented postings, followed by a blank
/// line, is one block of those three lines.
#[verifier::rlimit(30)]
proof fn lemma_rule_block(l0: Seq<char>, x1: Seq<char>, x2: Seq<char>)
    requires
        l0.len() > 0,
        !is_ws(l0[0]),
        !is_ws(l0.last()),
        lacks(l0, '\n'),
        x1.len() > 0,
        !is_ws(x1[0]),
        !is_ws(x1.last()),
        lacks(x1, '\n'),
        x2.len() > 0,
        !is_ws(x2[0]),
        !is_ws(x2.last()),
        lacks(x2, '\n'),
    ensures
        ({
            let l1 = seq![' ', ' ', ' ', ' '] + x1;
            let l2 = seq![' ', ' ', ' ', ' '] + x2;
            let b = l0 + seq!['\n'] + l1 + seq!['\n'] + l2;
            &&& split(b + "\n\n"@, "\n\n"@) == seq![b, Seq::<char>::empty()]
            &&& non_blank(lines(b)) == seq![l0, l1, l2]
            &&& trim_start(b) == b
            &&& trim(l1) == x1
            &&& trim(l2) == x2
        }),
{
    let sp4 = seq![' ', ' ', ' ', ' '];
    let l1 = sp4 + x1;
    let l2 = sp4 + x2;
    let b = l0 + seq!['\n'] + l1 + seq!['\n'] + l2;
    lemma_lacks_cat(sp4, x1, '\n');
    lemma_lacks_cat(sp4, x2, '\n');
    assert(l1.last() == x1.last());
    assert(l2.last() == x2.last());
    lemma_three_lines(l0, l1, l2);
    lemma_three_line_block(l0, l1, l2);
    assert(b[0] == l0[0]);
    lemma_trim_start_exact(b, 0);
    assert(b.skip(0) =~= b);
    crate::text::lemma_trim_nonempty(l0);
    lemma_indented(x1);
    lemma_indented(x2);
    lemma_non_blank3(l0, l1, l2);
}

/// The facts the item law needs of the accounts written on each leg.
#[verifier::rlimit(30)]
proof fn lemma_item_legs(kind: TxnKind, lb: Seq<char>, account: Seq<char>)
    requires
        one_word(lb),
        account.len() > 0,
        one_word(account),
        kind == TxnKind::Expense ==> lacks(lb, '$'),
        kind == TxnKind::Income ==> lacks(account, '$'),
    ensures
        item_legs(kind, lb, account).0.len() > 0,
        one_word(item_legs(kind, lb, account).0),
        lacks(item_legs(kind, lb, account).0, '$'),
        item_legs(kind, lb, account).1.len() > 0,
        one_word(item_legs(kind, lb, account).1),
{
    reveal_strlit("expenses:");
    reveal_strlit("income:");
    let d = item_legs(kind, lb, account).0;
    let c = item_legs(kind, lb, account).1;
    match kind {
        TxnKind::Expense => {
            assert(d =~= "expenses:"@ + lb);
            assert forall|i: int| 0 <= i < d.len() implies !is_ws(#[trigger] d[i]) && d[i] != '$' by {
                if i >= 9 {
                    assert(d[i] == lb[i - 9]);
                }
            }
        },
        TxnKind::Income => {
            assert(c =~= "income:"@ + lb);
            assert forall|i: int| 0 <= i < c.len() implies !is_ws(#[trigger] c[i]) by {
                if i >= 7 {
                    assert(c[i] == lb[i - 7]);
                }
            }
        },
    }
}

/// What `block_item` reads from a block whose parts read as given.
#[verifier::rlimit(30)]
proof fn lemma_block_item_parts(
    b: Seq<char>,
    l0: Seq<char>,
    l1: Seq<char>,
    l2: Seq<char>,
    x: ItemView,
    cc: Seq<char>,
    rest: Seq<char>,
    d: Seq<char>,
    c: Seq<char>,
)
    requires
        non_blank(lines(b)) == seq![l0, l1, l2],
        rule_header(l0) == Some((x.frequency, x.reference_date, cc)),
        split_once(cc, " name:"@) == Some((x.id, rest)),
        trim(x.id) == x.id,
        name_and_category(trim(rest)) == (x.name, x.category),
        first_word(trim(l1)) == Some(d),
        first_word(trim(l2)) == Some(c),
        either_amount(trim(l1), trim(l2)) == Some(x.amount),
        x.kind == TxnKind::Expense ==> starts_with(d, "expenses:"@) && d.skip(9) == x.label && c == x.account,
        x.kind == TxnKind::Income ==> !starts_with(d, "expenses:"@) && starts_with(c, "income:"@) && c.skip(7)
            == x.label && d == x.account,
    ensures
        block_item(b) == Some(x),
{
}

/// The items of a single block followed by an empty rest.
#[verifier::rlimit(30)]
proof fn lemma_items_of_one(b: Seq<char>, x: ItemView)
    requires
        starts_with(trim_start(b), "~ "@),
        block_item(b) == Some(x),
    ensures
        items_of(seq![b, Seq::<char>::empty()]) == seq![x],
{
    reveal_strlit("~ ");
    let bs = seq![b, Seq::<char>::empty()];
    assert(bs.drop_last() =~= seq![b]);
    assert(seq![b].drop_last() =~= Seq::<Seq<char>>::empty());
    assert(trim_start(Seq::<char>::empty()) == Seq::<char>::empty());
    assert(!starts_with(Seq::<char>::empty(), "~ "@));
    assert(items_of(Seq::<Seq<char>>::empty()) == Seq::<ItemView>::empty());
    assert(seq![b].last() == b);
    assert(items_of(seq![b]) == Seq::<ItemView>::empty().push(x));
    assert(items_of(seq![b]) =~= seq![x]);
    assert(bs.last() == Seq::<char>::empty());
}

/// The text of a recurring item is its header line and two indented
/// posting lines, then a blank line.
#[verifier::rlimit(30)]
proof fn lemma_item_text_shape(
    id: Seq<char>,
    name: Seq<char>,
    amount: int,
    kind: TxnKind,
    label: Seq<char>,
    frequency: Frequency,
    rd: Option<(int, int, int)>,
    account: Seq<char>,
    category: Option<SpendingCategory>,
)
    ensures
        ({
            let legs = item_legs(kind, sanitized_leaf(label), account);
            let sp4 = seq![' ', ' ', ' ', ' '];
            let l0 = rule_line(period_text(frequency, rd), id, sanitized(name) + category_suffix(category));
            recurring_item_text(id, name, amount, kind, label, frequency, rd, account, category) == l0 + seq![
                '\n',
            ] + (sp4 + (legs.0 + "    $"@ + cents_text(amount))) + seq!['\n'] + (sp4 + legs.1) + "\n\n"@
        }),
{
    reveal_strlit("\n    ");
    let legs = item_legs(kind, sanitized_leaf(label), account);
    let sp4 = seq![' ', ' ', ' ', ' '];
    let l0 = rule_line(period_text(frequency, rd), id, sanitized(name) + category_suffix(category));
    assert(recurring_item_text(id, name, amount, kind, label, frequency, rd, account, category) =~= l0 + seq![
        '\n',
    ] + (sp4 + (legs.0 + "    $"@ + cents_text(amount))) + seq!['\n'] + (sp4 + legs.1) + "\n\n"@);
}

/// A recurring item written by `format_recurring_item` reads back through
/// `parse_recurring_items` as the one item written (with its name and label
/// as the writer sanitized them), when: the id is one word; the sanitized
/// name has no whitespace at its ends, is not empty when there is a
/// category, and without a category does not itself end in a category tag;
/// the sanitized label is one word; the account is a non-empty word; the
/// leg written first has no `$`; and an income account does not start with
/// `expenses:`.
#[verifier::rlimit(100)]
#[verifier::spinoff_prover]
pub proof fn lemma_recurring_item_round_trip(
    id: Seq<char>,
    name: Seq<char>,
    amount: i64,
    kind: TxnKind,
    label: Seq<char>,
    frequency: Frequency,
    rd: Option<(int, int, int)>,
    account: Seq<char>,
    category: Option<SpendingCategory>,
)
    requires
        one_word(id),
        trim(sanitized(name)) == sanitized(name),
        category is Some ==> sanitized(name).len() > 0,
        category is None ==> name_and_category(sanitized(name)) == (sanitized(name), None::<SpendingCategory>),
        one_word(sanitized_leaf(label)),
        account.len() > 0,
        one_word(account),
        kind == TxnKind::Expense ==> lacks(sanitized_leaf(label), '$'),
        kind == TxnKind::Income ==> lacks(account, '$') && !starts_with(account, "expenses:"@),
        rd matches Some(d) ==> valid_ymd(d.0, d.1, d.2),
    ensures
        items_of(
            split(
                recurring_item_text(id, name, amount as int, kind, label, frequency, rd, account, category),
                "\n\n"@,
            ),
        ) == seq![
            ItemView {
                id,
                name: sanitized(name),
                amount: amount as int,
                kind,
                label: sanitized_leaf(label),
                frequency,
                reference_date: rd,
                account,
                category,
            },
        ],
{
    reveal_strlit("expenses:");
    reveal_strlit("income:");
    reveal_strlit("~ ");
    reveal_strlit("    $");
    let nm = sanitized(name);
    let lb = sanitized_leaf(label);
    let per = period_text(frequency, rd);
    let cs = category_suffix(category);
    let rest = nm + cs;
    let legs = item_legs(kind, lb, account);
    let d = legs.0;
    let c = legs.1;
    let a = cents_text(amount as int);
    let x1 = d + "    $"@ + a;
    lemma_sanitized_lacks(name);
    lemma_name_part(nm, category);
    lemma_rule_line(frequency, rd, id, rest);
    let l0 = rule_line(per, id, rest);
    lemma_item_legs(kind, lb, account);
    lemma_postings(d, c, amount);
    lemma_cents_shape(amount);
    lemma_word_lacks(d);
    lemma_word_lacks(c);
    assert(x1[0] == d[0]);
    assert(x1.last() == a.last());
    assert(lacks(x1, '\n')) by {
        lemma_lacks_cat(d, "    $"@, '\n');
        reveal_strlit("    $");
        lemma_lacks_cat(d + "    $"@, a, '\n');
    }
    lemma_rule_block(l0, x1, c);
    let sp4 = seq![' ', ' ', ' ', ' '];
    let b = l0 + seq!['\n'] + (sp4 + x1) + seq!['\n'] + (sp4 + c);
    lemma_item_text_shape(id, name, amount as int, kind, label, frequency, rd, account, category);
    assert(b.take(2) =~= "~ "@);
    let x = ItemView {
        id,
        name: nm,
        amount: amount as int,
        kind,
        label: lb,
        frequency,
        reference_date: rd,
        account,
        category,
    };
    match kind {
        TxnKind::Expense => {
            assert(d.take(9) =~= "expenses:"@);
            assert(d.skip(9) =~= lb);
        },
        TxnKind::Income => {
            assert(c.take(7) =~= "income:"@);
            assert(c.skip(7) =~= lb);
        },
    }
    lemma_block_item_parts(b, l0, sp4 + x1, sp4 + c, x, id + " name:"@ + rest, rest, d, c);
    lemma_items_of_one(b, x);
}

/// The text of a recurring transfer is its header line and two indented
/// posting lines, then a blank line.
#[verifier::rlimit(30)]
proof fn lemma_transfer_text_shape(
    id: Seq<char>,
    name: Seq<char>,
    amount: int,
    frequency: Frequency,
    rd: Option<(int, int, int)>,
    from_account: Seq<char>,
    to_account: Seq<char>,
)
    ensures
        ({
            let sp4 = seq![' ', ' ', ' ', ' '];
            let l0 = rule_line(period_text(frequency, rd), id, sanitized(name) + " transfer:1"@);
            recurring_transfer_text(id, name, amount, frequency, rd, from_account, to_account) == l0 + seq![
                '\n',
            ] + (sp4 + (to_account + "    $"@ + cents_text(amount))) + seq!['\n'] + (sp4 + from_account)
                + "\n\n"@
        }),
{
    reveal_strlit(" transfer:1\n    ");
    reveal_strlit(" transfer:1");
    reveal_strlit("\n    ");
    let sp4 = seq![' ', ' ', ' ', ' '];
    let l0 = rule_line(period_text(frequency, rd), id, sanitized(name) + " transfer:1"@);
    assert(recurring_transfer_text(id, name, amount, frequency, rd, from_account, to_account) =~= l0 + seq![
        '\n',
    ] + (sp4 + (to_account + "    $"@ + cents_text(amount))) + seq!['\n'] + (sp4 + from_account) + "\n\n"@);
}

/// What `block_transfer` reads from a block whose parts read as given.
#[verifier::rlimit(30)]
proof fn lemma_block_transfer_parts(
    b: Seq<char>,
    l0: Seq<char>,
    l1: Seq<char>,
    l2: Seq<char>,
    x: TransferView,
    cc: Seq<char>,
    rest: Seq<char>,
    nm: Seq<char>,
)
    requires
        non_blank(lines(b)) == seq![l0, l1, l2],
        rule_header(l0) == Some((x.frequency, x.reference_date, cc)),
        split_once(cc, " name:"@) == Some((x.id, rest)),
        trim(x.id) == x.id,
        strip_suffix(rest, " transfer:1"@) == Some(nm),
        trim(nm) == x.name,
        first_word(trim(l1)) == Some(x.to_account),
        first_word(trim(l2)) == Some(x.from_account),
        posting_amount(trim(l1)) == Some(x.amount),
    ensures
        block_transfer(b) == Some(x),
{
}

/// The transfers of a single block followed by an empty rest.
#[verifier::rlimit(30)]
proof fn lemma_transfers_of_one(b: Seq<char>, x: TransferView)
    requires
        starts_with(trim_start(b), "~ "@),
        crate::text::contains(b, "transfer:1"@),
        block_transfer(b) == Some(x),
    ensures
        transfers_of(seq![b, Seq::<char>::empty()]) == seq![x],
{
    reveal_strlit("~ ");
    reveal_strlit("transfer:1");
    let bs = seq![b, Seq::<char>::empty()];
    assert(bs.drop_last() =~= seq![b]);
    assert(seq![b].drop_last() =~= Seq::<Seq<char>>::empty());
    assert(trim_start(Seq::<char>::empty()) == Seq::<char>::empty());
    assert(!starts_with(Seq::<char>::empty(), "~ "@));
    assert(transfers_of(Seq::<Seq<char>>::empty()) == Seq::<TransferView>::empty());
    assert(seq![b].last() == b);
    assert(transfers_of(seq![b]) =~= seq![x]);
    assert(bs.last() == Seq::<char>::empty());
}

/// A recurring transfer written by `format_recurring_transfer` reads back
/// through `parse_recurring_transfers` as the one transfer written (with
/// its name as the writer sanitized it), when the id is one word, the
/// sanitized name has no whitespace at its ends, both accounts are
/// non-empty words, and the `to` account has no `$`.
#[verifier::rlimit(100)]
#[verifier::spinoff_prover]
pub proof fn lemma_recurring_transfer_round_trip(
    id: Seq<char>,
    name: Seq<char>,
    amount: i64,
    frequency: Frequency,
    rd: Option<(int, int, int)>,
    from_account: Seq<char>,
    to_account: Seq<char>,
)
    requires
        one_word(id),
        trim(sanitized(name)) == sanitized(name),
        from_account.len() > 0,
        one_word(from_account),
        to_account.len() > 0,
        one_word(to_account),
        lacks(to_account, '$'),
        rd matches Some(d) ==> valid_ymd(d.0, d.1, d.2),
    ensures
        transfers_of(
            split(
                recurring_transfer_text(id, name, amount as int, frequency, rd, from_account, to_account),
                "\n\n"@,
            ),
        ) == seq![
            TransferView {
                id,
                name: sanitized(name),
                amount: amount as int,
                frequency,
                reference_date: rd,
                from_account,
                to_account,
            },
        ],
{
    reveal_strlit("~ ");
    reveal_strlit("    $");
    reveal_strlit(" transfer:1");
    reveal_strlit("transfer:1");
    let nm = sanitized(name);
    let per = period_text(frequency, rd);
    let suffix = " transfer:1"@;
    let rest = nm + suffix;
    let a = cents_text(amount as int);
    let x1 = to_account + "    $"@ + a;
    lemma_sanitized_lacks(name);
    assert(lacks(suffix, '\n'));
    lemma_lacks_cat(nm, suffix, '\n');
    assert(rest.last() == '1');
    lemma_rule_line(frequency, rd, id, rest);
    let l0 = rule_line(per, id, rest);
    lemma_postings(to_account, from_account, amount);
    lemma_cents_shape(amount);
    lemma_word_lacks(to_account);
    lemma_word_lacks(from_account);
    assert(x1[0] == to_account[0]);
    assert(x1.last() == a.last());
    assert(lacks(x1, '\n')) by {
        lemma_lacks_cat(to_account, "    $"@, '\n');
        lemma_lacks_cat(to_account + "    $"@, a, '\n');
    }
    lemma_rule_block(l0, x1, from_account);
    let sp4 = seq![' ', ' ', ' ', ' '];
    let b = l0 + seq!['\n'] + (sp4 + x1) + seq!['\n'] + (sp4 + from_account);
    lemma_transfer_text_shape(id, name, amount as int, frequency, rd, from_account, to_account);
    assert(b.take(2) =~= "~ "@);
    assert(rest.skip(rest.len() - suffix.len()) =~= suffix);
    assert(rest.take(rest.len() - suffix.len()) =~= nm);
    let x = TransferView {
        id,
        name: nm,
        amount: amount as int,
        frequency,
        reference_date: rd,
        from_account,
        to_account,
    };
    lemma_block_transfer_parts(b, l0, sp4 + x1, sp4 + from_account, x, id + " name:"@ + rest, rest, nm);
    let p = "transfer:1"@;
    let at = (l0.len() - p.len()) as int;
    assert(b.subrange(at, at + p.len()) =~= p) by {
        assert(l0.subrange(at, at + p.len()) =~= p);
        assert forall|k: int| 0 <= k < p.len() implies #[trigger] b.subrange(at, at + p.len())[k]
            == l0.subrange(at, at + p.len())[k] by {
            assert(b[at + k] == l0[at + k]);
        }
    }
    lemma_find_bounds(b, p);
    assert(matches_at(b, p, at));
    lemma_transfers_of_one(b, x);
}

/// The directive line of an account as the writer writes it.
pub open spec fn account_line(prefix: Seq<char>, slug: Seq<char>, id: Seq<char>, rest: Seq<char>) -> Seq<char> {
    "account "@ + prefix + ":"@ + slug + "  ; id:"@ + id + " name:"@ + rest
}

/// A directive line written by the writer reads back as its kind, slug,
/// id and the rest of its comment.
#[verifier::rlimit(100)]
#[verifier::spinoff_prover]
proof fn lemma_account_line(kind: AccountKind, slug: Seq<char>, id: Seq<char>, rest: Seq<char>)
    requires
        one_word(slug),
        lacks(slug, ';'),
        one_word(id),
        rest.len() > 0 ==> !is_ws(rest.last()),
        lacks(rest, '\n'),
    ensures
        ({
            let prefix = kind_prefix(kind);
            let l0 = account_line(prefix, slug, id, rest);
            let header = prefix + ":"@ + slug + "  ; id:"@ + id + " name:"@ + rest;
            let path = prefix + ":"@ + slug + Seq::new(2, |i: int| ' ');
            let cm = "id:"@ + id + " name:"@ + rest;
            let cc = id + " name:"@ + rest;
            &&& l0.len() > 0
            &&& !is_ws(l0[0])
            &&& !is_ws(l0.last())
            &&& lacks(l0, '\n')
            &&& trim(l0) == l0
            &&& strip_prefix(l0, "account "@) == Some(header)
            &&& split_once(header, "; "@) == Some((path, cm))
            &&& trim(path) == prefix + ":"@ + slug
            &&& split_once(prefix + ":"@ + slug, ":"@) == Some((prefix, slug))
            &&& kind_of_prefix(prefix) == Some(kind)
            &&& trim(slug) == slug
            &&& trim(cm) == cm
            &&& strip_prefix(cm, "id:"@) == Some(cc)
            &&& split_once(cc, " name:"@) == Some((id, rest))
            &&& trim(id) == id
        }),
{
    reveal_strlit("account ");
    reveal_strlit("  ; id:");
    reveal_strlit(" name:");
    reveal_strlit("; ");
    reveal_strlit("id:");
    reveal_strlit(":");
    reveal_strlit("assets");
    reveal_strlit("liabilities");
    let prefix = kind_prefix(kind);
    lemma_prefix_round_trip(kind, prefix);
    lemma_word_lacks(id);
    lemma_word_lacks(slug);
    let l0 = account_line(prefix, slug, id, rest);
    assert(l0.last() != ' ' && !is_ws(l0.last())) by {
        if rest.len() > 0 {
            assert(l0.last() == rest.last());
        } else {
            assert(l0.last() == ':');
        }
    }
    assert(lacks(l0, '\n')) by {
        assert(lacks(prefix, '\n'));
        lemma_lacks_cat("account "@, prefix, '\n');
        lemma_lacks_cat("account "@ + prefix, ":"@, '\n');
        lemma_lacks_cat("account "@ + prefix + ":"@, slug, '\n');
        lemma_lacks_cat("account "@ + prefix + ":"@ + slug, "  ; id:"@, '\n');
        lemma_lacks_cat("account "@ + prefix + ":"@ + slug + "  ; id:"@, id, '\n');
        lemma_lacks_cat("account "@ + prefix + ":"@ + slug + "  ; id:"@ + id, " name:"@, '\n');
        lemma_lacks_cat("account "@ + prefix + ":"@ + slug + "  ; id:"@ + id + " name:"@, rest, '\n');
    }
    assert(l0[0] == 'a');
    lemma_trim_solid(l0);
    let header = prefix + ":"@ + slug + "  ; id:"@ + id + " name:"@ + rest;
    assert(l0.take(8) =~= "account "@);
    assert(l0.skip(8) =~= header);
    let semi = "; "@;
    let at: int = (prefix.len() + 1 + slug.len() + 2) as int;
    assert(header.subrange(at, at + 2) =~= semi);
    assert forall|k: int| 0 <= k < at implies #[trigger] header[k] != semi[0] by {
        if k < prefix.len() {
            assert(header[k] == prefix[k]);
        } else if k == prefix.len() {
        } else if k < prefix.len() + 1 + slug.len() {
            assert(header[k] == slug[k - prefix.len() - 1]);
        } else {
        }
    }
    lemma_first_at(header, semi, at);
    let ps = prefix + ":"@ + slug;
    assert(header.take(at) =~= ps + Seq::new(2, |i: int| ' '));
    assert(ps[0] == prefix[0]);
    assert(!is_ws(ps.last())) by {
        if slug.len() > 0 {
            assert(ps.last() == slug.last());
        } else {
            assert(ps.last() == ':');
        }
    }
    lemma_trim_trailing_spaces(ps, 2);
    let cm = "id:"@ + id + " name:"@ + rest;
    assert(header.skip(at + 2) =~= cm);
    let colon = ":"@;
    assert(ps.subrange(prefix.len() as int, prefix.len() + 1int) =~= colon);
    assert forall|k: int| 0 <= k < prefix.len() implies #[trigger] ps[k] != colon[0] by {
        assert(ps[k] == prefix[k]);
    }
    lemma_first_at(ps, colon, prefix.len() as int);
    assert(ps.take(prefix.len() as int) =~= prefix);
    assert(ps.skip(prefix.len() + 1int) =~= slug);
    if slug.len() > 0 {
        lemma_trim_solid(slug);
    } else {
        assert(trim(slug) == slug);
    }
    assert(cm.last() == l0.last());
    lemma_trim_solid(cm);
    let cc = id + " name:"@ + rest;
    assert(cm.take(3) =~= "id:"@);
    assert(cm.skip(3) =~= cc);
    let nmtag = " name:"@;
    assert(cc.subrange(id.len() as int, id.len() + 6int) =~= nmtag);
    assert forall|k: int| 0 <= k < id.len() implies #[trigger] cc[k] != nmtag[0] by {
        assert(cc[k] == id[k]);
    }
    lemma_first_at(cc, nmtag, id.len() as int);
    assert(cc.take(id.len() as int) =~= id);
    assert(cc.skip(id.len() + 6int) =~= rest);
    if id.len() > 0 {
        lemma_trim_solid(id);
    }
}

/// The shape of a number's shortest text: non-whitespace at both ends, no
/// space and no line break.
#[verifier::rlimit(30)]
proof fn lemma_hundredths_shape(h: i64)
    ensures
        hundredths_text(h as int).len() > 0,
        !is_ws(hundredths_text(h as int)[0]),
        !is_ws(hundredths_text(h as int).last()),
        lacks(hundredths_text(h as int), ' '),
        lacks(hundredths_text(h as int), '\n'),
{
    let a: int = if h < 0 {
        -h
    } else {
        h as int
    };
    let q = (a / 100) as nat;
    let f = a % 100;
    lemma_decimal_digits(q);
    let sign = if h < 0 {
        seq!['-']
    } else {
        seq![]
    };
    let frac = if f == 0 {
        seq![]
    } else if f % 10 == 0 {
        seq!['.', crate::text::digit_char(f / 10)]
    } else {
        seq!['.'] + two_digits(f as nat)
    };
    if f != 0 && f % 10 == 0 {
        crate::text::lemma_digit_char(f / 10);
    }
    if f % 10 != 0 {
        lemma_two_digits(f as nat);
    }
    let t = hundredths_text(h as int);
    assert(t =~= sign + decimal(q) + frac);
    assert forall|i: int| 0 <= i < t.len() implies #[trigger] t[i] == '-' || t[i] == '.' || is_digit(t[i]) by {
        if i < sign.len() {
        } else if i < sign.len() + decimal(q).len() {
            assert(t[i] == decimal(q)[i - sign.len()]);
        } else {
            assert(t[i] == frac[i - sign.len() - decimal(q).len()]);
        }
    }
    assert(t[0] == '-' || t[0] == '.' || is_digit(t[0]));
    assert(t.last() == t[t.len() - 1]);
    assert(is_digit(t[t.len() - 1])) by {
        if frac.len() == 0 {
            assert(t[t.len() - 1] == decimal(q)[decimal(q).len() - 1]);
        } else {
            assert(t[t.len() - 1] == frac[frac.len() - 1]);
        }
    }
}

/// A trailing ` tag:{number}` after a name reads back as the number, with
/// the name before it.
#[verifier::rlimit(30)]
proof fn lemma_trailing_tag(before: Seq<char>, tag: Seq<char>, h: i64)
    requires
        tag.len() > 1,
        tag[0] == ' ',
        lacks(tag.drop_first(), ' '),
        trim(before) == before,
    ensures
        trailing_number(before + tag + hundredths_text(h as int), tag) == (before, Some(h as int)),
{
    let t = hundredths_text(h as int);
    lemma_hundredths_shape(h);
    let s = before + tag + t;
    assert(s.subrange(before.len() as int, (before.len() + tag.len()) as int) =~= tag);
    assert forall|k: int| before.len() < k <= s.len() - tag.len() implies !#[trigger] matches_at(s, tag, k) by {
        if matches_at(s, tag, k) {
            assert(s.subrange(k, k + tag.len())[0] == s[k]);
            if k < before.len() + tag.len() {
                assert(s[k] == tag[k - before.len()]);
                assert(tag[k - before.len()] == tag.drop_first()[k - before.len() - 1]);
            } else {
                assert(s[k] == t[k - before.len() - tag.len()]);
            }
        }
    }
    lemma_rfind_upto_last(s, tag, s.len() - tag.len(), before.len() as int);
    assert(s.skip((before.len() + tag.len()) as int) =~= t);
    lemma_trim_solid(t);
    lemma_hundredths_round_trip(h);
    assert(s.take(before.len() as int) =~= before);
}

/// An account written by `format_account_directive` reads back through
/// `parse_accounts` as the one account written (with its name as the writer
/// sanitized it), when: the id is one word; the slug is one word without
/// `;`; the sanitized name has no whitespace at its ends and is not empty
/// when a rate or a limit follows it; without a limit, what precedes it
/// does not itself end in a limit tag, and without a rate the name does not
/// end in a rate tag.
#[verifier::rlimit(100)]
#[verifier::spinoff_prover]
pub proof fn lemma_account_round_trip(
    id: Seq<char>,
    name: Seq<char>,
    kind: AccountKind,
    slug: Seq<char>,
    interest_rate: Option<i64>,
    credit_limit: Option<i64>,
)
    requires
        one_word(id),
        one_word(slug),
        lacks(slug, ';'),
        trim(sanitized(name)) == sanitized(name),
        (interest_rate is Some || credit_limit is Some) ==> sanitized(name).len() > 0,
        credit_limit is None ==> trailing_number(
            sanitized(name) + rate_limit_suffix(
                match interest_rate {
                    Some(x) => Some(x as int),
                    None => None,
                },
                None,
            ),
            " limit:"@,
        ).1 is None,
        interest_rate is None ==> trailing_number(sanitized(name), " rate:"@).1 is None,
    ensures
        ({
            let rate: Option<int> = match interest_rate {
                Some(x) => Some(x as int),
                None => None,
            };
            let limit: Option<int> = match credit_limit {
                Some(x) => Some(x as int),
                None => None,
            };
            accounts_of(split(account_text(id, name, kind, slug, rate, limit), "\n\n"@)) == seq![
                AccountView { id, name: sanitized(name), kind, slug, interest_rate: rate, credit_limit: limit },
            ]
        }),
{
    reveal_strlit(" rate:");
    reveal_strlit(" limit:");
    reveal_strlit("account ");
    let rate: Option<int> = match interest_rate {
        Some(x) => Some(x as int),
        None => None,
    };
    let limit: Option<int> = match credit_limit {
        Some(x) => Some(x as int),
        None => None,
    };
    let nm = sanitized(name);
    lemma_sanitized_lacks(name);
    let rpart = rate_limit_suffix(rate, None);
    let lpart = rate_limit_suffix(None, limit);
    let rl = rate_limit_suffix(rate, limit);
    assert(rl =~= rpart + lpart);
    let rest = nm + rl;
    // The rate and limit tags.
    let before_limit = nm + rpart;
    assert(trim(before_limit) == before_limit && lacks(before_limit, '\n') && (before_limit.len() > 0
        ==> !is_ws(before_limit.last()))) by {
        match interest_rate {
            Some(x) => {
                lemma_hundredths_shape(x);
                let t = hundredths_text(x as int);
                assert(rpart =~= " rate:"@ + t);
                assert(before_limit.last() == t.last());
                crate::text::lemma_trim_shape(nm);
                assert(before_limit[0] == nm[0]);
                lemma_trim_solid(before_limit);
                lemma_lacks_cat(" rate:"@, t, '\n');
                lemma_lacks_cat(nm, rpart, '\n');
            },
            None => {
                assert(before_limit =~= nm);
                if nm.len() > 0 {
                    crate::text::lemma_trim_shape(nm);
                }
            },
        }
    }
    let lim = trailing_number(trim(rest), " limit:"@);
    assert(trim(rest) == rest && lim == (before_limit, limit) && lacks(rest, '\n') && (rest.len() > 0
        ==> !is_ws(rest.last()))) by {
        match credit_limit {
            Some(x) => {
                lemma_hundredths_shape(x);
                let t = hundredths_text(x as int);
                assert(lpart =~= " limit:"@ + t);
                assert(rest =~= before_limit + " limit:"@ + t);
                lemma_trailing_tag(before_limit, " limit:"@, x);
                assert(rest.last() == t.last());
                assert(rest[0] == nm[0]);
                crate::text::lemma_trim_shape(nm);
                lemma_trim_solid(rest);
                lemma_lacks_cat(" limit:"@, t, '\n');
                lemma_lacks_cat(before_limit, lpart, '\n');
            },
            None => {
                assert(rest =~= before_limit);
            },
        }
    }
    let rt = trailing_number(lim.0, " rate:"@);
    assert(rt == (nm, rate)) by {
        match interest_rate {
            Some(x) => {
                assert(before_limit =~= nm + " rate:"@ + hundredths_text(x as int));
                lemma_trailing_tag(nm, " rate:"@, x);
            },
            None => {
                assert(before_limit =~= nm);
            },
        }
    }
    // The directive line.
    lemma_account_line(kind, slug, id, rest);
    let prefix = kind_prefix(kind);
    let l0 = account_line(prefix, slug, id, rest);
    assert(account_text(id, name, kind, slug, rate, limit) =~= l0 + "\n\n"@);
    assert(no_blank_line_break(l0)) by {
        assert forall|k: int| 0 <= k < l0.len() - 1 implies !(#[trigger] l0[k] == '\n' && l0[k + 1] == '\n') by {}
    }
    lemma_split_one_block(l0);
    crate::text::lemma_find_bounds(l0, seq!['\n']);
    if find(l0, seq!['\n']) is Some {
        let i = find(l0, seq!['\n'])->Some_0;
        assert(l0.subrange(i, i + 1)[0] == l0[i]);
    }
    assert(strip_cr(l0) == l0);
    assert(lines(l0) == seq![l0]);
    crate::text::lemma_trim_nonempty(l0);
    assert(!blank(l0));
    assert(seq![l0].drop_last() =~= Seq::<Seq<char>>::empty());
    assert(seq![l0].last() == l0);
    assert(non_blank(Seq::<Seq<char>>::empty()) == Seq::<Seq<char>>::empty());
    assert(non_blank(seq![l0]) =~= seq![l0]);
    let x = AccountView { id, name: nm, kind, slug, interest_rate: rate, credit_limit: limit };
    assert(block_account(l0) == Some(x));
    lemma_trim_start_exact(l0, 0);
    assert(l0.skip(0) =~= l0);
    assert(l0.take(8) =~= "account "@);
    let bs = seq![l0, Seq::<char>::empty()];
    assert(bs.drop_last() =~= seq![l0]);
    assert(seq![l0].drop_last() =~= Seq::<Seq<char>>::empty());
    assert(trim_start(Seq::<char>::empty()) == Seq::<char>::empty());
    assert(!starts_with(Seq::<char>::empty(), "account "@));
    assert(accounts_of(Seq::<Seq<char>>::empty()) == Seq::<AccountView>::empty());
    assert(seq![l0].last() == l0);
    assert(accounts_of(seq![l0]) =~= seq![x]);
    assert(bs.last() == Seq::<char>::empty());
}

/// `block_item` reads nothing from a block whose two postings are neither
/// an `expenses:` first leg nor an `income:` second leg.
#[verifier::rlimit(30)]
proof fn lemma_block_item_none_parts(
    b: Seq<char>,
    l0: Seq<char>,
    l1: Seq<char>,
    l2: Seq<char>,
    f: Frequency,
    rd: Option<(int, int, int)>,
    cc: Seq<char>,
    idp: Seq<char>,
    rest: Seq<char>,
    d: Seq<char>,
    c: Seq<char>,
    amount: int,
)
    requires
        non_blank(lines(b)) == seq![l0, l1, l2],
        rule_header(l0) == Some((f, rd, cc)),
        split_once(cc, " name:"@) == Some((idp, rest)),
        first_word(trim(l1)) == Some(d),
        first_word(trim(l2)) == Some(c),
        either_amount(trim(l1), trim(l2)) == Some(amount),
        !starts_with(d, "expenses:"@),
        !starts_with(c, "income:"@),
    ensures
        block_item(b) is None,
{
}

/// A recurring transfer's block is never read as a recurring item when
/// both its legs are real accounts, that is, the `to` account does not
/// start with `expenses:` and the `from` account not with `income:` (under
/// the conditions of the transfer round trip).
#[verifier::rlimit(100)]
#[verifier::spinoff_prover]
pub proof fn lemma_transfer_not_item(
    id: Seq<char>,
    name: Seq<char>,
    amount: i64,
    frequency: Frequency,
    rd: Option<(int, int, int)>,
    from_account: Seq<char>,
    to_account: Seq<char>,
)
    requires
        one_word(id),
        trim(sanitized(name)) == sanitized(name),
        from_account.len() > 0,
        one_word(from_account),
        to_account.len() > 0,
        one_word(to_account),
        lacks(to_account, '$'),
        rd matches Some(d) ==> valid_ymd(d.0, d.1, d.2),
        !starts_with(to_account, "expenses:"@),
        !starts_with(from_account, "income:"@),
    ensures
        items_of(
            split(
                recurring_transfer_text(id, name, amount as int, frequency, rd, from_account, to_account),
                "\n\n"@,
            ),
        ) == Seq::<ItemView>::empty(),
{
    reveal_strlit("~ ");
    reveal_strlit("    $");
    reveal_strlit(" transfer:1");
    let nm = sanitized(name);
    let per = period_text(frequency, rd);
    let suffix = " transfer:1"@;
    let rest = nm + suffix;
    let a = cents_text(amount as int);
    let x1 = to_account + "    $"@ + a;
    lemma_sanitized_lacks(name);
    assert(lacks(suffix, '\n'));
    lemma_lacks_cat(nm, suffix, '\n');
    assert(rest.last() == '1');
    lemma_rule_line(frequency, rd, id, rest);
    let l0 = rule_line(per, id, rest);
    lemma_postings(to_account, from_account, amount);
    lemma_cents_shape(amount);
    lemma_word_lacks(to_account);
    lemma_word_lacks(from_account);
    assert(x1[0] == to_account[0]);
    assert(x1.last() == a.last());
    assert(lacks(x1, '\n')) by {
        lemma_lacks_cat(to_account, "    $"@, '\n');
        lemma_lacks_cat(to_account + "    $"@, a, '\n');
    }
    lemma_rule_block(l0, x1, from_account);
    let sp4 = seq![' ', ' ', ' ', ' '];
    let b = l0 + seq!['\n'] + (sp4 + x1) + seq!['\n'] + (sp4 + from_account);
    lemma_transfer_text_shape(id, name, amount as int, frequency, rd, from_account, to_account);
    lemma_block_item_none_parts(
        b,
        l0,
        sp4 + x1,
        sp4 + from_account,
        frequency,
        rd,
        id + " name:"@ + rest,
        id,
        rest,
        to_account,
        from_account,
        amount as int,
    );
    let bs = seq![b, Seq::<char>::empty()];
    assert(bs.drop_last() =~= seq![b]);
    assert(seq![b].drop_last() =~= Seq::<Seq<char>>::empty());
    assert(trim_start(Seq::<char>::empty()) == Seq::<char>::empty());
    assert(!starts_with(Seq::<char>::empty(), "~ "@));
    assert(items_of(Seq::<Seq<char>>::empty()) == Seq::<ItemView>::empty());
    assert(seq![b].last() == b);
    assert(items_of(seq![b]) =~= Seq::<ItemView>::empty());
    assert(bs.last() == Seq::<char>::empty());
}

} // verus!
