//! Notes kept by the `nb` command-line notebook: the layout of a note's
//! body, of a bookmark and of a daily log file, and the shapes of the lines
//! `nb` prints when it lists, adds or moves items.
pub mod requests;
pub mod ticket;
pub mod daily;
pub mod cache;
pub mod listing;
pub mod commands;
pub mod reference_laws;

use vstd::prelude::*;
use crate::text::{
    trim, trim_end, starts_with, strip_prefix, strip_suffix, split_ws, join, views, lines,
    eq_ignore_ascii_case, str_views, chars_of, string_of, copy_of, strings_of, char_lines, tail_of,
    is_blank, strip_prefix_exec, strip_suffix_exec, split_whitespace_exec, starts_with_exec,
    join_exec, trim_end_exec, trim_exec, lines_exec, eq_ignore_ascii_case_exec, append,
    slice_of, split_once, rsplit_once, split, ends_with, decimal, parse_u64, split_once_exec,
    rsplit_once_exec, split_exec, ends_with_exec, parse_u64_exec, u64_digits, eq_chars, is_ws,
    no_crlf, lemma_lines_cons, lemma_join_lines, lemma_split_ws_join, lemma_trim_nonempty,
    lemma_trim_shape, strip_cr, find, lemma_join_avoids, opt_str_view, blank, one_word, lemma_lines_join,
};

verus! {

// ---------------------------------------------------------------------------
// The note body layout
// ---------------------------------------------------------------------------

/// `ls` without its leading blank lines.
pub open spec fn skip_blank(ls: Seq<Seq<char>>) -> Seq<Seq<char>>
    decreases ls.len(),
{
    if ls.len() > 0 && blank(ls[0]) {
        skip_blank(ls.drop_first())
    } else {
        ls
    }
}

/// The title a note's first non-blank line gives: the line without its
/// `# ` heading marker, or the whole line when it has none.
pub open spec fn note_title(l: Seq<char>) -> Seq<char> {
    match strip_prefix(l, seq!['#', ' ']) {
        Some(t) => t,
        None => l,
    }
}

/// A line of tags: at least one word, and every word starts with `#`.
pub open spec fn is_tag_line(l: Seq<char>) -> bool {
    let ws = split_ws(l);
    ws.len() > 0 && forall|i: int| 0 <= i < ws.len() ==> starts_with(#[trigger] ws[i], seq!['#'])
}

/// The tags of a tag line: each word without its leading `#`.
pub open spec fn tag_names(l: Seq<char>) -> Seq<Seq<char>> {
    split_ws(l).map_values(|t: Seq<char>| t.drop_first())
}

/// A note body read from its lines: the title (first non-blank line), the
/// tags (the next non-blank line, when it is a tag line) and the content
/// (the remaining lines from the first non-blank one, joined by newlines,
/// with trailing whitespace removed).
pub open spec fn note_body(ls: Seq<Seq<char>>) -> (Seq<char>, Seq<Seq<char>>, Seq<char>) {
    let a = skip_blank(ls);
    if a.len() == 0 {
        (seq![], seq![], seq![])
    } else {
        let b = skip_blank(a.drop_first());
        let tagged = b.len() > 0 && is_tag_line(b[0]);
        let tags = if tagged {
            tag_names(b[0])
        } else {
            seq![]
        };
        let c = if tagged {
            skip_blank(b.drop_first())
        } else {
            b
        };
        (note_title(a[0]), tags, trim_end(join(c, seq!['\n'])))
    }
}

/// The index of the first non-blank line of `ls` at or after `i`.
fn skip_blank_from(ls: &Vec<Vec<char>>, i: usize) -> (j: usize)
    requires
        i <= ls@.len(),
    ensures
        i <= j <= ls@.len(),
        views(ls@).skip(j as int) == skip_blank(views(ls@).skip(i as int)),
{
    let mut j = i;
    while j < ls.len() && is_blank(&ls[j])
        invariant
            i <= j <= ls@.len(),
            skip_blank(views(ls@).skip(j as int)) == skip_blank(views(ls@).skip(i as int)),
        decreases ls@.len() - j,
    {
        assert(views(ls@).skip(j as int).drop_first() =~= views(ls@).skip(j + 1));
        assert(views(ls@).skip(j as int)[0] == ls@[j as int]@);
        j += 1;
    }
    if j < ls.len() {
        assert(views(ls@).skip(j as int)[0] == ls@[j as int]@);
    } else {
        assert(views(ls@).skip(j as int).len() == 0);
    }
    j
}

/// Whether every word of `ws` starts with `#`.
fn all_hashed(ws: &Vec<Vec<char>>) -> (r: bool)
    ensures
        r == forall|i: int| 0 <= i < ws@.len() ==> starts_with(#[trigger] views(ws@)[i], seq!['#']),
{
    let hash = vec!['#'];
    let mut i: usize = 0;
    while i < ws.len()
        invariant
            i <= ws@.len(),
            hash@ == seq!['#'],
            forall|k: int| 0 <= k < i ==> starts_with(#[trigger] views(ws@)[k], seq!['#']),
        decreases ws@.len() - i,
    {
        if !starts_with_exec(&ws[i], &hash) {
            assert(!starts_with(views(ws@)[i as int], seq!['#']));
            return false;
        }
        i += 1;
    }
    true
}

/// Each word of `ws` without its first character.
fn drop_first_each(ws: &Vec<Vec<char>>) -> (r: Vec<Vec<char>>)
    requires
        forall|i: int| 0 <= i < ws@.len() ==> (#[trigger] ws@[i])@.len() > 0,
    ensures
        views(r@) == views(ws@).map_values(|t: Seq<char>| t.drop_first()),
{
    let mut r: Vec<Vec<char>> = Vec::new();
    let mut i: usize = 0;
    while i < ws.len()
        invariant
            i <= ws@.len(),
            r@.len() == i,
            forall|i: int| 0 <= i < ws@.len() ==> (#[trigger] ws@[i])@.len() > 0,
            forall|k: int| 0 <= k < i ==> (#[trigger] r@[k])@ == ws@[k]@.drop_first(),
        decreases ws@.len() - i,
    {
        let w = crate::text::skip_from(&ws[i], 1);
        r.push(w);
        i += 1;
    }
    assert(views(r@) =~= views(ws@).map_values(|t: Seq<char>| t.drop_first()));
    r
}

/// Reads a note body from its lines (see `note_body`).
fn note_body_of(ls: &Vec<Vec<char>>) -> (r: (Vec<char>, Vec<Vec<char>>, Vec<char>))
    ensures
        r.0@ == note_body(views(ls@)).0,
        views(r.1@) == note_body(views(ls@)).1,
        r.2@ == note_body(views(ls@)).2,
{
    let n = ls.len();
    let i = skip_blank_from(ls, 0);
    assert(views(ls@).skip(0) =~= views(ls@));
    let ghost a = skip_blank(views(ls@));
    if i == n {
        assert(a.len() == 0);
        return (Vec::new(), Vec::new(), Vec::new());
    }
    assert(a[0] == ls@[i as int]@);
    let marker = vec!['#', ' '];
    let title = match strip_prefix_exec(&ls[i], &marker) {
        Some(t) => t,
        None => copy_of(&ls[i]),
    };
    let j = skip_blank_from(ls, i + 1);
    assert(views(ls@).skip(i + 1) =~= a.drop_first());
    let ghost b = skip_blank(a.drop_first());
    let mut tags: Vec<Vec<char>> = Vec::new();
    let mut k = j;
    if j < n {
        assert(b[0] == ls@[j as int]@);
        let ws = split_whitespace_exec(&ls[j]);
        if ws.len() > 0 && all_hashed(&ws) {
            proof {
                assert forall|t: int| 0 <= t < ws@.len() implies (#[trigger] ws@[t])@.len() > 0 by {
                    assert(starts_with(views(ws@)[t], seq!['#']));
                }
            }
            tags = drop_first_each(&ws);
            k = skip_blank_from(ls, j + 1);
            assert(views(ls@).skip(j + 1) =~= b.drop_first());
        }
    } else {
        assert(b.len() == 0);
    }
    let rest = tail_of(ls, k);
    let nl = vec!['\n'];
    let joined = join_exec(&rest, &nl);
    let content = trim_end_exec(&joined);
    proof {
        let tagged = b.len() > 0 && is_tag_line(b[0]);
        let c = if tagged {
            skip_blank(b.drop_first())
        } else {
            b
        };
        assert(views(rest@) == c);
        assert(nl@ =~= seq!['\n']);
        assert(joined@ == join(c, seq!['\n']));
        assert(content@ == trim_end(join(c, seq!['\n'])));
        let want_tags: Seq<Seq<char>> = if tagged {
            tag_names(b[0])
        } else {
            seq![]
        };
        assert(views(tags@) =~= want_tags);
        assert(title@ == note_title(a[0]));
    }
    (title, tags, content)
}

/// Parses the default note body layout: a `# Title` line, an optional
/// `#tag1 #tag2` line, a blank line, then the content. Shared by whole-file
/// notes and by the entries of a daily log file.
#[verifier::rlimit(30)]
pub fn parse_body(lines: &Vec<String>) -> (r: (String, Vec<String>, String))
    ensures
        r.0@ == note_body(str_views(lines@)).0,
        str_views(r.1@) == note_body(str_views(lines@)).1,
        r.2@ == note_body(str_views(lines@)).2,
{
    let ls = char_lines(lines);
    let (title, tags, content) = note_body_of(&ls);
    (string_of(&title), strings_of(&tags), string_of(&content))
}

// ---------------------------------------------------------------------------
// The bookmark layout
// ---------------------------------------------------------------------------

/// The contents of an optional character vector.
pub open spec fn opt_view(o: Option<Vec<char>>) -> Option<Seq<char>> {
    match o {
        Some(v) => Some(v@),
        None => None,
    }
}

/// The URL of a `<url>` line, if the line is one.
pub open spec fn angle_url(l: Seq<char>) -> Option<Seq<char>> {
    match strip_prefix(trim(l), seq!['<']) {
        Some(r) => strip_suffix(r, seq!['>']),
        None => None,
    }
}

/// The section name a `## Name` heading line opens.
pub open spec fn heading_name(l: Seq<char>) -> Option<Seq<char>> {
    match strip_prefix(trim(l), seq!['#', '#', ' ']) {
        Some(name) => Some(trim(name)),
        None => None,
    }
}

/// Whether a section name is `Tags`, in any ASCII case.
pub open spec fn is_tags_name(name: Seq<char>) -> bool {
    eq_ignore_ascii_case(name, seq!['t', 'a', 'g', 's'])
}

/// The words of `ws` that start with `#`, without it.
pub open spec fn hashed_words(ws: Seq<Seq<char>>) -> Seq<Seq<char>>
    decreases ws.len(),
{
    if ws.len() == 0 {
        seq![]
    } else {
        let rest = hashed_words(ws.drop_last());
        match strip_prefix(ws.last(), seq!['#']) {
            Some(t) => rest.push(t),
            None => rest,
        }
    }
}

/// The tags a `## Tags` section body lists.
pub open spec fn section_tags(body: Seq<Seq<char>>) -> Seq<Seq<char>> {
    hashed_words(split_ws(join(body, seq![' '])))
}

/// `content` with a section appended as a `## Name` block (a blank line
/// before it when `content` is not empty, the heading, a blank line, then
/// the trimmed body), or unchanged when the trimmed body is empty.
pub open spec fn flushed(name: Seq<char>, body: Seq<Seq<char>>, content: Seq<Seq<char>>) -> Seq<Seq<char>> {
    let text = trim(join(body, seq!['\n']));
    if text.len() == 0 {
        content
    } else {
        let c = if content.len() > 0 {
            content.push(seq![])
        } else {
            content
        };
        c.push(seq!['#', '#', ' '] + name).push(seq![]).push(text)
    }
}

/// Where a scan of a bookmark's sections stands: the tags found so far,
/// the content lines so far, the section being read, and its body so far.
pub struct SectionScan {
    pub tags: Seq<Seq<char>>,
    pub content: Seq<Seq<char>>,
    pub section: Option<Seq<char>>,
    pub body: Seq<Seq<char>>,
}

/// The scan with its current section closed: a `Tags` section sets the
/// tags, any other is appended to the content.
pub open spec fn close_section(st: SectionScan) -> SectionScan {
    match st.section {
        None => st,
        Some(name) => if is_tags_name(name) {
            SectionScan { tags: section_tags(st.body), content: st.content, section: st.section, body: st.body }
        } else {
            SectionScan { tags: st.tags, content: flushed(name, st.body, st.content), section: st.section, body: st.body }
        },
    }
}

/// One line of the scan: a heading closes the current section and opens a
/// new one; any other line joins the current body.
pub open spec fn scan_step(st: SectionScan, l: Seq<char>) -> SectionScan {
    match heading_name(l) {
        Some(name) => {
            let c = close_section(st);
            SectionScan { tags: c.tags, content: c.content, section: Some(name), body: seq![] }
        },
        None => SectionScan { tags: st.tags, content: st.content, section: st.section, body: st.body.push(l) },
    }
}

/// The scan after reading `ls`.
pub open spec fn scan_sections(ls: Seq<Seq<char>>) -> SectionScan
    decreases ls.len(),
{
    if ls.len() == 0 {
        SectionScan { tags: seq![], content: seq![], section: None, body: seq![] }
    } else {
        scan_step(scan_sections(ls.drop_last()), ls.last())
    }
}

/// A bookmark read from its raw text: the title (first non-blank line,
/// without a `# ` marker, trimmed), the URL of the next non-blank line when
/// it is a `<url>` line, the tags of its `## Tags` section, and its other
/// sections as content.
pub open spec fn bookmark_body(raw: Seq<char>) -> (Seq<char>, Option<Seq<char>>, Seq<Seq<char>>, Seq<char>) {
    let a = skip_blank(lines(raw));
    let title = if a.len() == 0 {
        seq![]
    } else {
        trim(note_title(a[0]))
    };
    let b = if a.len() == 0 {
        seq![]
    } else {
        skip_blank(a.drop_first())
    };
    let url = if b.len() > 0 {
        angle_url(b[0])
    } else {
        None
    };
    let c = if url is Some {
        b.drop_first()
    } else {
        b
    };
    let fin = close_section(scan_sections(c));
    (title, url, fin.tags, trim_end(join(fin.content, seq!['\n'])))
}

/// Appends a section's body to `content` as a `## Name` block (see
/// `flushed`).
fn flush_section(name: &[char], body: &Vec<Vec<char>>, content: &mut Vec<Vec<char>>)
    ensures
        views(final(content)@) == flushed(name@, views(body@), views(old(content)@)),
{
    let nl = vec!['\n'];
    let joined = join_exec(body, &nl);
    let text = trim_exec(&joined);
    assert(nl@ =~= seq!['\n']);
    if text.len() == 0 {
        return;
    }
    let ghost c0 = views(content@);
    if content.len() > 0 {
        content.push(Vec::new());
        assert(views(content@) =~= c0.push(seq![]));
    }
    let ghost c1 = views(content@);
    let mut heading = vec!['#', '#', ' '];
    append(&mut heading, name);
    content.push(heading);
    content.push(Vec::new());
    content.push(text);
    assert(views(content@) =~= c1.push(seq!['#', '#', ' '] + name@).push(seq![]).push(text@));
}

/// Appends a named section's collected body (if non-empty) to
/// `content_lines` as a `## Heading` block, mirroring nb's own bookmark body
/// layout, so that sections the parser does not single out still end up in
/// the note's content.
pub fn flush_bookmark_section(name: &str, body: &Vec<String>, content_lines: &mut Vec<String>)
    ensures
        str_views(final(content_lines)@) == flushed(name@, str_views(body@), str_views(old(content_lines)@)),
{
    let n = chars_of(name);
    let b = char_lines(body);
    let mut c = char_lines(content_lines);
    flush_section(&n, &b, &mut c);
    *content_lines = strings_of(&c);
}

/// The words of `ws` that start with `#`, without it.
fn hashed_words_of(ws: &Vec<Vec<char>>) -> (r: Vec<Vec<char>>)
    ensures
        views(r@) == hashed_words(views(ws@)),
{
    let hash = vec!['#'];
    let mut r: Vec<Vec<char>> = Vec::new();
    let mut i: usize = 0;
    while i < ws.len()
        invariant
            i <= ws@.len(),
            hash@ == seq!['#'],
            views(r@) == hashed_words(views(ws@).take(i as int)),
        decreases ws@.len() - i,
    {
        let ghost pre = views(ws@).take(i as int);
        let ghost post = views(ws@).take(i + 1);
        assert(post.drop_last() =~= pre);
        assert(post.last() == ws@[i as int]@);
        match strip_prefix_exec(&ws[i], &hash) {
            Some(t) => {
                let ghost prev = views(r@);
                r.push(t);
                assert(views(r@) =~= prev.push(t@));
            },
            None => {},
        }
        i += 1;
    }
    assert(views(ws@).take(ws@.len() as int) =~= views(ws@));
    r
}

/// The tags a `## Tags` section body lists.
fn section_tags_of(body: &Vec<Vec<char>>) -> (r: Vec<Vec<char>>)
    ensures
        views(r@) == section_tags(views(body@)),
{
    let sp = vec![' '];
    let joined = join_exec(body, &sp);
    assert(sp@ =~= seq![' ']);
    let ws = split_whitespace_exec(&joined);
    hashed_words_of(&ws)
}

/// The exec state of a section scan.
pub open spec fn scan_of(
    tags: Seq<Vec<char>>,
    content: Seq<Vec<char>>,
    section: Option<Vec<char>>,
    body: Seq<Vec<char>>,
) -> SectionScan {
    SectionScan { tags: views(tags), content: views(content), section: opt_view(section), body: views(body) }
}

/// Closes the current section of a scan (see `close_section`).
fn close_section_of(
    tags: &mut Vec<Vec<char>>,
    content: &mut Vec<Vec<char>>,
    section: &Option<Vec<char>>,
    body: &Vec<Vec<char>>,
)
    ensures
        scan_of(final(tags)@, final(content)@, *section, body@) == close_section(
            scan_of(old(tags)@, old(content)@, *section, body@),
        ),
{
    match section {
        None => {},
        Some(name) => {
            let tags_name = vec!['t', 'a', 'g', 's'];
            assert(tags_name@ =~= seq!['t', 'a', 'g', 's']);
            if eq_ignore_ascii_case_exec(name, &tags_name) {
                *tags = section_tags_of(body);
            } else {
                flush_section(name, body, content);
            }
        },
    }
}

/// Reads a bookmark from its raw text (see `bookmark_body`).
#[verifier::rlimit(30)]
fn bookmark_body_of(raw: &[char]) -> (r: (Vec<char>, Option<Vec<char>>, Vec<Vec<char>>, Vec<char>))
    ensures
        r.0@ == bookmark_body(raw@).0,
        opt_view(r.1) == bookmark_body(raw@).1,
        views(r.2@) == bookmark_body(raw@).2,
        r.3@ == bookmark_body(raw@).3,
{
    let ls = lines_exec(raw);
    let n = ls.len();
    let i = skip_blank_from(&ls, 0);
    assert(views(ls@).skip(0) =~= views(ls@));
    let ghost a = skip_blank(lines(raw@));
    let mut title: Vec<char> = Vec::new();
    let mut j = n;
    if i < n {
        assert(a[0] == ls@[i as int]@);
        let marker = vec!['#', ' '];
        let t = match strip_prefix_exec(&ls[i], &marker) {
            Some(t) => t,
            None => copy_of(&ls[i]),
        };
        title = trim_exec(&t);
        j = skip_blank_from(&ls, i + 1);
        assert(views(ls@).skip(i + 1) =~= a.drop_first());
    } else {
        assert(views(ls@).skip(j as int).len() == 0);
    }
    let ghost b = views(ls@).skip(j as int);
    let mut url: Option<Vec<char>> = None;
    let mut k = j;
    if j < n {
        assert(b[0] == ls@[j as int]@);
        let t = trim_exec(&ls[j]);
        let lt = vec!['<'];
        let gt = vec!['>'];
        assert(lt@ =~= seq!['<']);
        assert(gt@ =~= seq!['>']);
        match strip_prefix_exec(&t, &lt) {
            Some(rest) => {
                url = strip_suffix_exec(&rest, &gt);
            },
            None => {},
        }
        assert(opt_view(url) == angle_url(b[0]));
        if url.is_some() {
            k = j + 1;
            assert(views(ls@).skip(k as int) =~= b.drop_first());
        }
    }
    let ghost c = views(ls@).skip(k as int);
    proof {
        let bb = if a.len() == 0 {
            Seq::<Seq<char>>::empty()
        } else {
            skip_blank(a.drop_first())
        };
        assert(b =~= bb);
        let want_url = if b.len() > 0 {
            angle_url(b[0])
        } else {
            None
        };
        assert(opt_view(url) == want_url);
    }
    let mut tags: Vec<Vec<char>> = Vec::new();
    let mut content: Vec<Vec<char>> = Vec::new();
    let mut section: Option<Vec<char>> = None;
    let mut body: Vec<Vec<char>> = Vec::new();
    let mut idx = k;
    assert(c.take(0) =~= Seq::<Seq<char>>::empty());
    assert(views(tags@) =~= Seq::<Seq<char>>::empty());
    assert(views(content@) =~= Seq::<Seq<char>>::empty());
    assert(views(body@) =~= Seq::<Seq<char>>::empty());
    while idx < n
        invariant
            k <= idx <= n,
            n == ls@.len(),
            c == views(ls@).skip(k as int),
            scan_of(tags@, content@, section, body@) == scan_sections(c.take(idx - k)),
        decreases n - idx,
    {
        let ghost pre = c.take(idx - k);
        let ghost post = c.take(idx - k + 1);
        assert(post.drop_last() =~= pre);
        assert(post.last() == ls@[idx as int]@);
        let t = trim_exec(&ls[idx]);
        let hm = vec!['#', '#', ' '];
        match strip_prefix_exec(&t, &hm) {
            Some(name) => {
                close_section_of(&mut tags, &mut content, &section, &body);
                section = Some(trim_exec(&name));
                body = Vec::new();
                assert(views(body@) =~= Seq::<Seq<char>>::empty());
            },
            None => {
                let ghost prev = views(body@);
                body.push(copy_of(&ls[idx]));
                assert(views(body@) =~= prev.push(ls@[idx as int]@));
            },
        }
        idx += 1;
    }
    assert(c.take(n - k) =~= c);
    close_section_of(&mut tags, &mut content, &section, &body);
    let nl = vec!['\n'];
    assert(nl@ =~= seq!['\n']);
    let joined = join_exec(&content, &nl);
    let text = trim_end_exec(&joined);
    (title, url, tags, text)
}

/// Parses nb's bookmark layout: a `# Title` line, a `<url>` line, then
/// `## Quote`, `## Comment`, `## Tags`, ... sections. The `## Tags` body
/// (`#tag1 #tag2 ...`) becomes the tags; every other section is kept,
/// heading included, in the content.
pub fn parse_bookmark_body(raw: &str) -> (r: (String, Option<String>, Vec<String>, String))
    ensures
        r.0@ == bookmark_body(raw@).0,
        opt_str_view(r.1) == bookmark_body(raw@).1,
        str_views(r.2@) == bookmark_body(raw@).2,
        r.3@ == bookmark_body(raw@).3,
{
    let v = chars_of(raw);
    let (title, url, tags, content) = bookmark_body_of(&v);
    let url_s = match url {
        Some(u) => Some(string_of(&u)),
        None => None,
    };
    (string_of(&title), url_s, strings_of(&tags), string_of(&content))
}

// ---------------------------------------------------------------------------
// Daily log files
// ---------------------------------------------------------------------------

/// One entry of a daily log file.
#[derive(Debug, Clone)]
pub struct LogEntry {
    pub date: String,
    pub time: String,
    pub title: String,
    pub content: String,
    pub tags: Vec<String>,
}

/// An entry as plain values: date, time, title, tags, content.
pub open spec fn entry_view(e: LogEntry) -> (Seq<char>, Seq<char>, Seq<char>, Seq<Seq<char>>, Seq<char>) {
    (e.date@, e.time@, e.title@, str_views(e.tags@), e.content@)
}

/// Whether a line is an entry heading (`## HH:MM:SS`).
pub open spec fn is_entry_heading(l: Seq<char>) -> bool {
    starts_with(l, seq!['#', '#', ' '])
}

/// The number of leading lines of `ls` that are not entry headings.
pub open spec fn entry_len(ls: Seq<Seq<char>>) -> nat
    decreases ls.len(),
{
    if ls.len() == 0 || is_entry_heading(ls[0]) {
        0
    } else {
        1 + entry_len(ls.drop_first())
    }
}

pub proof fn lemma_entry_len(ls: Seq<Seq<char>>)
    ensures
        entry_len(ls) <= ls.len(),
    decreases ls.len(),
{
    if ls.len() > 0 && !is_entry_heading(ls[0]) {
        lemma_entry_len(ls.drop_first());
    }
}

/// The entries of a daily log file's lines: each `## time` heading starts
/// an entry whose body runs up to the next heading; lines before the first
/// heading belong to no entry.
pub open spec fn daily_entries(ls: Seq<Seq<char>>, date: Seq<char>) -> Seq<
    (Seq<char>, Seq<char>, Seq<char>, Seq<Seq<char>>, Seq<char>),
>
    decreases ls.len(),
{
    if ls.len() == 0 {
        seq![]
    } else {
        match strip_prefix(ls[0], seq!['#', '#', ' ']) {
            None => daily_entries(ls.drop_first(), date),
            Some(t) => {
                proof {
                    lemma_entry_len(ls.drop_first());
                }
                let m = entry_len(ls.drop_first()) as int;
                let nb = note_body(ls.subrange(1, 1 + m));
                seq![(date, trim(t), nb.0, nb.1, nb.2)] + daily_entries(ls.skip(1 + m), date)
            },
        }
    }
}

/// Splits a daily log file's raw text into its entries. Each entry begins
/// with the `## HH:MM:SS` heading nb's `daily` plugin inserts, followed by
/// the title/tags/content layout of a note body.
#[verifier::rlimit(30)]
pub fn parse_daily_entries(raw: &str, date: &str) -> (r: Vec<LogEntry>)
    ensures
        r@.map_values(|e: LogEntry| entry_view(e)) == daily_entries(lines(raw@), date@),
{
    let rv = chars_of(raw);
    let ls = lines_exec(&rv);
    let ghost all = views(ls@);
    let n = ls.len();
    let hm = vec!['#', '#', ' '];
    assert(hm@ =~= seq!['#', '#', ' ']);
    let mut out: Vec<LogEntry> = Vec::new();
    let mut idx: usize = 0;
    assert(all.skip(0) =~= all);
    while idx < n
        invariant
            idx <= n,
            n == ls@.len(),
            all == views(ls@),
            hm@ == seq!['#', '#', ' '],
            out@.map_values(|e: LogEntry| entry_view(e)) + daily_entries(all.skip(idx as int), date@)
                == daily_entries(all, date@),
        decreases n - idx,
    {
        let ghost rest = all.skip(idx as int);
        assert(rest[0] == ls@[idx as int]@);
        match strip_prefix_exec(&ls[idx], &hm) {
            None => {
                assert(rest.drop_first() =~= all.skip(idx + 1));
                idx += 1;
            },
            Some(t) => {
                let mut e = idx + 1;
                assert(rest.drop_first() =~= all.skip(idx + 1));
                while e < n && !starts_with_exec(&ls[e], &hm)
                    invariant
                        idx + 1 <= e <= n,
                        n == ls@.len(),
                        all == views(ls@),
                        hm@ == seq!['#', '#', ' '],
                        entry_len(all.skip(idx + 1)) == (e - idx - 1) + entry_len(all.skip(e as int)),
                    decreases n - e,
                {
                    assert(all.skip(e as int)[0] == ls@[e as int]@);
                    assert(all.skip(e as int).drop_first() =~= all.skip(e + 1));
                    e += 1;
                }
                if e < n {
                    assert(all.skip(e as int)[0] == ls@[e as int]@);
                }
                let body = slice_of(&ls, idx + 1, e);
                assert(views(ls@).subrange(idx + 1, e as int) =~= rest.subrange(1, 1 + (e - idx - 1)));
                let (title, tags, content) = note_body_of(&body);
                let time = trim_exec(&t);
                let entry = LogEntry {
                    date: string_of(&chars_of(date)),
                    time: string_of(&time),
                    title: string_of(&title),
                    content: string_of(&content),
                    tags: strings_of(&tags),
                };
                let ghost prev = out@;
                out.push(entry);
                assert(rest.skip(1 + (e - idx - 1)) =~= all.skip(e as int));
                assert(out@.map_values(|e: LogEntry| entry_view(e)) =~= prev.map_values(
                    |e: LogEntry| entry_view(e),
                ).push(entry_view(entry)));
                idx = e;
            },
        }
    }
    assert(all.skip(n as int) =~= Seq::<Seq<char>>::empty());
    out
}

// ---------------------------------------------------------------------------
// Writing a note body
// ---------------------------------------------------------------------------

/// The text of a note body: `# {title}`, a blank line and a `#tag1 #tag2`
/// line when there are tags, a blank line, then the trimmed content.
pub open spec fn note_text(title: Seq<char>, tags: Seq<Seq<char>>, content: Seq<char>) -> Seq<char> {
    let head = seq!['#', ' '] + title + seq!['\n'];
    let tag_part = if tags.len() > 0 {
        seq!['\n'] + join(tags.map_values(|t: Seq<char>| seq!['#'] + t), seq![' ']) + seq!['\n']
    } else {
        seq![]
    };
    head + tag_part + seq!['\n'] + trim(content)
}

/// Formats a note body in nb's default layout (see `note_text`).
pub fn format_note_body(title: &str, tags: &Vec<String>, content: &str) -> (r: String)
    ensures
        r@ == note_text(title@, str_views(tags@), content@),
{
    let mut out = vec!['#', ' '];
    let tv = chars_of(title);
    append(&mut out, &tv);
    out.push('\n');
    assert(out@ =~= seq!['#', ' '] + title@ + seq!['\n']);
    let ghost head = out@;
    let ghost tagv = str_views(tags@);
    if tags.len() > 0 {
        let mut hashed: Vec<Vec<char>> = Vec::new();
        let mut i: usize = 0;
        while i < tags.len()
            invariant
                i <= tags@.len(),
                tagv == str_views(tags@),
                hashed@.len() == i,
                views(hashed@) == tagv.take(i as int).map_values(|t: Seq<char>| seq!['#'] + t),
            decreases tags@.len() - i,
        {
            let mut h = vec!['#'];
            let tc = chars_of(tags[i].as_str());
            append(&mut h, &tc);
            let ghost prev = hashed@;
            hashed.push(h);
            i += 1;
            proof {
                let want = tagv.take(i as int).map_values(|t: Seq<char>| seq!['#'] + t);
                assert forall|k: int| 0 <= k < i implies #[trigger] views(hashed@)[k] == want[k] by {
                    if k < i - 1 {
                        assert(views(prev)[k] == tagv.take(i - 1).map_values(|t: Seq<char>| seq!['#'] + t)[k]);
                        assert(hashed@[k] == prev[k]);
                    } else {
                        assert(hashed@[k] == h);
                        assert(tagv[k] == tags@[k]@);
                    }
                }
                assert(views(hashed@) =~= want);
            }
        }
        assert(tagv.take(tags@.len() as int) =~= tagv);
        let sp = vec![' '];
        assert(sp@ =~= seq![' ']);
        let line = join_exec(&hashed, &sp);
        out.push('\n');
        append(&mut out, &line);
        out.push('\n');
        assert(out@ =~= head + (seq!['\n'] + join(tagv.map_values(|t: Seq<char>| seq!['#'] + t), seq![' ']) + seq!['\n']));
    } else {
        assert(out@ =~= head + Seq::<char>::empty());
    }
    let ghost mid = out@;
    out.push('\n');
    let cv = chars_of(content);
    let ct = trim_exec(&cv);
    append(&mut out, &ct);
    assert(out@ =~= mid + seq!['\n'] + trim(content@));
    string_of(&out)
}

/// A title that stays one line: no line feed, and no trailing carriage
/// return.
pub open spec fn one_line(t: Seq<char>) -> bool {
    &&& forall|i: int| 0 <= i < t.len() ==> #[trigger] t[i] != '\n'
    &&& (t.len() == 0 || t.last() != '\r')
}

/// A line beginning with a non-whitespace character is not blank.
proof fn lemma_starts_solid(l: Seq<char>)
    requires
        l.len() > 0,
        !is_ws(l[0]),
    ensures
        !blank(l),
{
    lemma_trim_nonempty(l);
}

/// A line with at least one word is not blank.
proof fn lemma_words_not_blank(l: Seq<char>)
    requires
        split_ws(l).len() > 0,
    ensures
        !blank(l),
{
    let t = crate::text::trim_start(l);
    crate::text::lemma_trim_start_len(l);
    assert(t.len() > 0);
    lemma_trim_nonempty(t);
    crate::text::lemma_trim_start_exact(t, 0);
    assert(t.skip(0) =~= t);
}

/// The lines of a text that starts with a non-whitespace character begin
/// with a non-blank line.
proof fn lemma_first_line_solid(x: Seq<char>)
    requires
        x.len() > 0,
        !is_ws(x[0]),
    ensures
        lines(x).len() > 0,
        !blank(lines(x)[0]),
        skip_blank(lines(x)) == lines(x),
{
    let nl = seq!['\n'];
    crate::text::lemma_find_bounds(x, nl);
    let l = lines(x)[0];
    match find(x, nl) {
        Some(i) => {
            if i == 0 {
                assert(x.subrange(0, 1)[0] == x[0]);
            }
            assert(l == strip_cr(x.take(i)));
            assert(l[0] == x[0]);
        },
        None => {
            assert(l == strip_cr(x));
            assert(l[0] == x[0]);
        },
    }
    lemma_starts_solid(l);
}

/// A note body written by `format_note_body` reads back, through
/// `parse_body` of its lines, as the title, tags and trimmed content it was
/// written with, when the title is one line, each tag one word, the trimmed
/// content has no CRLF pair, and (with no tags) the content does not begin
/// with a line that reads as tags.
#[verifier::rlimit(30)]
pub proof fn lemma_note_body_round_trip(title: Seq<char>, tags: Seq<Seq<char>>, content: Seq<char>)
    requires
        one_line(title),
        forall|i: int| 0 <= i < tags.len() ==> one_word(#[trigger] tags[i]),
        no_crlf(trim(content)),
        tags.len() == 0 && trim(content).len() > 0 ==> !is_tag_line(lines(trim(content))[0]),
    ensures
        note_body(lines(note_text(title, tags, content))) == (title, tags, trim(content)),
{
    let tc = trim(content);
    let head = seq!['#', ' '] + title;
    let hashed = tags.map_values(|t: Seq<char>| seq!['#'] + t);
    let tag_line = join(hashed, seq![' ']);
    lemma_trim_shape(content);
    lemma_join_lines(tc);
    let lc = lines(tc);
    if tc.len() > 0 {
        lemma_first_line_solid(tc);
    }
    assert(skip_blank(lc) == lc);
    assert forall|i: int| 0 <= i < head.len() implies #[trigger] head[i] != '\n' by {
        if i >= 2 {
            assert(head[i] == title[i - 2]);
        }
    }
    assert(head.last() != '\r') by {
        if title.len() > 0 {
            assert(head.last() == title.last());
        }
    }
    assert(note_title(head) == title) by {
        assert(head.take(2) =~= seq!['#', ' ']);
        assert(head.skip(2) =~= title);
    }
    lemma_starts_solid(head);
    assert(blank(Seq::<char>::empty())) by {
        assert(crate::text::trim_start(Seq::<char>::empty()) == Seq::<char>::empty());
    }
    let e = Seq::<char>::empty();
    if tags.len() > 0 {
        let text = head + seq!['\n'] + (e + seq!['\n'] + (tag_line + seq!['\n'] + (e + seq!['\n'] + tc)));
        assert(note_text(title, tags, content) =~= text);
        assert forall|i: int| 0 <= i < hashed.len() implies (#[trigger] hashed[i]).len() > 0 by {
        }
        assert forall|i: int, k: int| 0 <= i < hashed.len() && 0 <= k < hashed[i].len() implies !is_ws(
            #[trigger] hashed[i][k],
        ) by {
            if k > 0 {
                assert(hashed[i][k] == tags[i][k - 1]);
                assert(one_word(tags[i]));
            }
        }
        lemma_split_ws_join(hashed);
        assert forall|i: int, k: int| 0 <= i < hashed.len() && 0 <= k < hashed[i].len() implies #[trigger] hashed[i][k]
            != '\n' by {
            assert(!is_ws(hashed[i][k]));
        }
        lemma_join_avoids(hashed, seq![' '], '\n');
        lemma_lines_cons(e, tc);
        lemma_lines_cons(tag_line, e + seq!['\n'] + tc);
        lemma_lines_cons(e, tag_line + seq!['\n'] + (e + seq!['\n'] + tc));
        lemma_lines_cons(head, e + seq!['\n'] + (tag_line + seq!['\n'] + (e + seq!['\n'] + tc)));
        let all = seq![head] + (seq![e] + (seq![tag_line] + (seq![e] + lc)));
        assert(lines(text) == all);
        assert(skip_blank(all) == all);
        assert(all.drop_first() =~= seq![e] + (seq![tag_line] + (seq![e] + lc)));
        let b = skip_blank(all.drop_first());
        let x = seq![e] + (seq![tag_line] + (seq![e] + lc));
        let y = seq![tag_line] + (seq![e] + lc);
        assert(x.drop_first() =~= y);
        assert(x[0] == e);
        assert(skip_blank(x) == skip_blank(y));
        lemma_words_not_blank(tag_line);
        assert(y[0] == tag_line);
        assert(skip_blank(y) == y);
        assert(b == y);
        assert(b[0] == tag_line);
        assert forall|i: int| 0 <= i < tags.len() implies #[trigger] tag_names(tag_line)[i] == tags[i] by {
            assert(tag_names(tag_line)[i] == hashed[i].drop_first());
            assert(hashed[i].drop_first() =~= tags[i]);
        }
        assert(tag_names(tag_line) =~= tags);
        assert(b.drop_first() =~= seq![e] + lc);
        assert((seq![e] + lc).drop_first() =~= lc);
        assert((seq![e] + lc)[0] == e);
        assert(skip_blank(seq![e] + lc) == skip_blank(lc));
        assert forall|i: int| 0 <= i < split_ws(tag_line).len() implies starts_with(
            #[trigger] split_ws(tag_line)[i],
            seq!['#'],
        ) by {
            assert(split_ws(tag_line)[i] == hashed[i]);
            assert(hashed[i].take(1) =~= seq!['#']);
        }
        assert(is_tag_line(tag_line));
        let nb = note_body(all);
        assert(nb.0 == title);
        assert(nb.1 == tags);
        assert(nb.2 == trim_end(join(lc, seq!['\n'])));
        assert(nb.2 == tc);
    } else {
        let text = head + seq!['\n'] + (e + seq!['\n'] + tc);
        assert(note_text(title, tags, content) =~= text);
        lemma_lines_cons(e, tc);
        lemma_lines_cons(head, e + seq!['\n'] + tc);
        let all = seq![head] + (seq![e] + lc);
        assert(lines(text) == all);
        assert(all.drop_first() =~= seq![e] + lc);
        assert((seq![e] + lc).drop_first() =~= lc);
        assert((seq![e] + lc)[0] == e);
        assert(skip_blank(seq![e] + lc) == skip_blank(lc));
        assert(skip_blank(all) == all);
        let nb = note_body(all);
        assert(nb.0 == title);
        assert(nb.1 =~= tags);
        assert(nb.2 == tc);
    }
}

// ---------------------------------------------------------------------------
// Lines printed by `nb`
// ---------------------------------------------------------------------------

/// A listing reference `[notebook:folder/id]`'s notebook part, with the
/// notebook of the listing as the default.
pub open spec fn ref_notebook(r: Seq<char>, ctx: Seq<char>) -> (Seq<char>, Seq<char>) {
    match split_once(r, seq![':']) {
        Some((a, b)) => (a, b),
        None => (ctx, r),
    }
}

/// A listing line `[n] Title`, `[notebook:n] Title` or
/// `[notebook:folder/n] Title` as (id, notebook, folder, title).
pub open spec fn list_line(line: Seq<char>, ctx: Seq<char>) -> Option<(u64, Seq<char>, Seq<char>, Seq<char>)> {
    match strip_prefix(trim(line), seq!['[']) {
        None => None,
        Some(rest) => match split_once(rest, seq![']', ' ']) {
            None => None,
            Some((r, title)) => {
                let (nb, id_str) = ref_notebook(r, ctx);
                match rsplit_once(id_str, seq!['/']) {
                    Some((folder, id)) => match parse_u64(trim(id)) {
                        Some(n) => Some((n, nb, folder, title)),
                        None => None,
                    },
                    None => match parse_u64(trim(id_str)) {
                        Some(n) => Some((n, nb, seq![], title)),
                        None => None,
                    },
                }
            },
        },
    }
}

/// The part of `s` after the last `sep`, or all of `s` when there is none.
pub open spec fn after_last(s: Seq<char>, sep: Seq<char>) -> Seq<char> {
    match rsplit_once(s, sep) {
        Some((_, b)) => b,
        None => s,
    }
}

/// A `--paths` listing line `[n] path` or `[notebook:n] path` (possibly
/// with an icon before the path) as (id, notebook, path). The id is the
/// last `/`-separated segment of the reference; the path is everything
/// after the `]`, trimmed, and must not be empty.
pub open spec fn list_path_line(line: Seq<char>, ctx: Seq<char>) -> Option<(u64, Seq<char>, Seq<char>)> {
    match strip_prefix(trim(line), seq!['[']) {
        None => None,
        Some(rest) => match split_once(rest, seq![']']) {
            None => None,
            Some((r, remainder)) => {
                let (nb, id_str) = ref_notebook(r, ctx);
                match parse_u64(trim(after_last(id_str, seq!['/']))) {
                    None => None,
                    Some(n) => if trim(remainder).len() == 0 {
                        None
                    } else {
                        Some((n, nb, trim(remainder)))
                    },
                }
            },
        },
    }
}

/// The bracket content of an "Added:"/"Moved to:" line (`notebook:3` or
/// `notebook:Folder/3`) as (folder, id).
pub open spec fn bracket_folder_id(b: Seq<char>) -> Option<(Seq<char>, u64)> {
    let after = after_last(b, seq![':']);
    match rsplit_once(after, seq!['/']) {
        Some((folder, id)) => match parse_u64(trim(id)) {
            Some(n) => Some((folder, n)),
            None => None,
        },
        None => match parse_u64(trim(after)) {
            Some(n) => Some((seq![], n)),
            None => None,
        },
    }
}

/// The notebook name, `home` when it is empty.
pub open spec fn notebook_or_home(nb: Seq<char>) -> Seq<char> {
    if nb.len() == 0 {
        seq!['h', 'o', 'm', 'e']
    } else {
        nb
    }
}

/// The `nb` reference of an item: `notebook:id`, or `notebook:folder/id`
/// inside a folder.
pub open spec fn item_ref(nb: Seq<char>, folder: Seq<char>, id: u64) -> Seq<char> {
    let f = if folder.len() == 0 {
        seq![]
    } else {
        folder + seq!['/']
    };
    notebook_or_home(nb) + seq![':'] + f + decimal(id as nat)
}

/// The last component of a `/`-separated path, skipping empty and `.`
/// components.
pub open spec fn last_component(ps: Seq<Seq<char>>) -> Option<Seq<char>>
    decreases ps.len(),
{
    if ps.len() == 0 {
        None
    } else if ps.last().len() == 0 || ps.last() == seq!['.'] {
        last_component(ps.drop_last())
    } else {
        Some(ps.last())
    }
}

/// `Path::file_name`: the final component of the path, unless the path
/// ends in `..` or has no normal component.
pub open spec fn file_name(p: Seq<char>) -> Option<Seq<char>> {
    match last_component(split(p, seq!['/'])) {
        Some(c) => if c == seq!['.', '.'] {
            None
        } else {
            Some(c)
        },
        None => None,
    }
}

/// The suffix nb gives bookmark files.
pub open spec fn bookmark_suffix() -> Seq<char> {
    seq!['.', 'b', 'o', 'o', 'k', 'm', 'a', 'r', 'k', '.', 'm', 'd']
}

/// The value of an optional pair of a parsed id and a character vector.
fn parse_id(s: &[char]) -> (r: Option<u64>)
    ensures
        r == parse_u64(trim(s@)),
{
    let t = trim_exec(s);
    parse_u64_exec(&t)
}

/// Splits a listing reference into (notebook, id part).
fn split_ref(r: &[char], ctx: &[char]) -> (out: (Vec<char>, Vec<char>))
    ensures
        (out.0@, out.1@) == ref_notebook(r@, ctx@),
{
    let colon = vec![':'];
    assert(colon@ =~= seq![':']);
    match split_once_exec(r, &colon) {
        Some((a, b)) => (a, b),
        None => (copy_of(ctx), copy_of(r)),
    }
}

/// The part of `s` after the last `sep`, or all of `s` when there is none.
fn after_last_exec(s: &[char], sep: &[char]) -> (r: Vec<char>)
    ensures
        r@ == after_last(s@, sep@),
{
    match rsplit_once_exec(s, sep) {
        Some((_, b)) => b,
        None => copy_of(s),
    }
}

/// Parses `[n] Title`, `[notebook:n] Title` or `[notebook:folder/n] Title`
/// listing lines (such as `nb search` results) into (id, notebook, folder,
/// title).
pub fn parse_list_line(line: &str, ctx_notebook: &str) -> (r: Option<(u64, String, String, String)>)
    ensures
        match r {
            Some((id, nb, folder, title)) => list_line(line@, ctx_notebook@) == Some(
                (id, nb@, folder@, title@),
            ),
            None => list_line(line@, ctx_notebook@) is None,
        },
{
    let lv = chars_of(line);
    let ctx = chars_of(ctx_notebook);
    let l = trim_exec(&lv);
    let open = vec!['['];
    let close = vec![']', ' '];
    let slash = vec!['/'];
    assert(open@ =~= seq!['[']);
    assert(close@ =~= seq![']', ' ']);
    assert(slash@ =~= seq!['/']);
    let rest = match strip_prefix_exec(&l, &open) {
        Some(x) => x,
        None => return None,
    };
    let (r, title) = match split_once_exec(&rest, &close) {
        Some(p) => p,
        None => return None,
    };
    let (nb, id_str) = split_ref(&r, &ctx);
    match rsplit_once_exec(&id_str, &slash) {
        Some((folder, id)) => match parse_id(&id) {
            Some(n) => Some((n, string_of(&nb), string_of(&folder), string_of(&title))),
            None => None,
        },
        None => match parse_id(&id_str) {
            Some(n) => Some((n, string_of(&nb), String::new(), string_of(&title))),
            None => None,
        },
    }
}

/// Parses a `--paths` listing line, `[n] path` or `[notebook:n] path`,
/// possibly with an icon in between, into (id, notebook, path). Inside a
/// folder listing the reference is folder-scoped (`ProjA/3`); only its last
/// segment is the id. The whole trimmed remainder is the path, spaces
/// included.
pub fn parse_list_path_line(line: &str, ctx_notebook: &str) -> (r: Option<(u64, String, String)>)
    ensures
        match r {
            Some((id, nb, path)) => list_path_line(line@, ctx_notebook@) == Some((id, nb@, path@)),
            None => list_path_line(line@, ctx_notebook@) is None,
        },
{
    let lv = chars_of(line);
    let ctx = chars_of(ctx_notebook);
    let l = trim_exec(&lv);
    let open = vec!['['];
    let close = vec![']'];
    let slash = vec!['/'];
    assert(open@ =~= seq!['[']);
    assert(close@ =~= seq![']']);
    assert(slash@ =~= seq!['/']);
    let rest = match strip_prefix_exec(&l, &open) {
        Some(x) => x,
        None => return None,
    };
    let (r, remainder) = match split_once_exec(&rest, &close) {
        Some(p) => p,
        None => return None,
    };
    let (nb, id_str) = split_ref(&r, &ctx);
    let last = after_last_exec(&id_str, &slash);
    let n = match parse_id(&last) {
        Some(n) => n,
        None => return None,
    };
    let path = trim_exec(&remainder);
    if path.len() == 0 {
        return None;
    }
    Some((n, string_of(&nb), string_of(&path)))
}

/// Splits the bracket content of an `nb` "Added:"/"Moved to:" line, such as
/// `notebook:ProjA/3` or `notebook:3`, into (folder, id).
pub fn parse_bracket_folder_id(bracket_content: &str) -> (r: Option<(String, u64)>)
    ensures
        match r {
            Some((folder, id)) => bracket_folder_id(bracket_content@) == Some((folder@, id)),
            None => bracket_folder_id(bracket_content@) is None,
        },
{
    let b = chars_of(bracket_content);
    let colon = vec![':'];
    let slash = vec!['/'];
    assert(colon@ =~= seq![':']);
    assert(slash@ =~= seq!['/']);
    let after = after_last_exec(&b, &colon);
    match rsplit_once_exec(&after, &slash) {
        Some((folder, id)) => match parse_id(&id) {
            Some(n) => Some((string_of(&folder), n)),
            None => None,
        },
        None => match parse_id(&after) {
            Some(n) => Some((String::new(), n)),
            None => None,
        },
    }
}

/// The first of the lines that holds `Added:`, if any.
pub open spec fn added_line(ls: Seq<Seq<char>>) -> Option<Seq<char>>
    decreases ls.len(),
{
    if ls.len() == 0 {
        None
    } else if find(ls[0], "Added:"@) is Some {
        Some(ls[0])
    } else {
        added_line(ls.drop_first())
    }
}

/// What stands between the first `[` of a line and the first `]` after it.
pub open spec fn bracket_content(l: Seq<char>) -> Option<Seq<char>> {
    match split_once(l, seq!['[']) {
        Some((_, rest)) => match split_once(rest, seq![']']) {
            Some((b, _)) => Some(b),
            None => None,
        },
        None => None,
    }
}

/// The id `nb add` reports: on its first line holding `Added:`, the bracket
/// content's part after the last `:`, as a number.
pub open spec fn added_id_spec(out: Seq<char>) -> Option<u64> {
    match added_line(lines(out)) {
        Some(l) => match bracket_content(l) {
            Some(b) => parse_u64(trim(after_last(b, seq![':']))),
            None => None,
        },
        None => None,
    }
}

/// The id of the item `nb add` reports having added
/// (`Added: [n] file "Title"` or `Added: [notebook:n] ...`); `None` when
/// the output holds no such line or no number there.
pub fn added_id(out: &str) -> (r: Option<u64>)
    ensures
        r == added_id_spec(out@),
{
    let ls = lines_exec(&chars_of(out));
    let marker = chars_of("Added:");
    let mut i: usize = 0;
    assert(views(ls@).skip(0) =~= views(ls@));
    while i < ls.len()
        invariant
            i <= ls@.len(),
            marker@ == "Added:"@,
            views(ls@) == lines(out@),
            added_line(views(ls@)) == added_line(views(ls@).skip(i as int)),
        decreases ls@.len() - i,
    {
        proof {
            let vs = views(ls@);
            assert(vs.skip(i as int)[0] == vs[i as int]);
            assert(vs.skip(i as int).drop_first() =~= vs.skip(i + 1));
        }
        if crate::text::find_exec(&ls[i], &marker).is_some() {
            let open = vec!['['];
            let close = vec![']'];
            let colon = vec![':'];
            assert(open@ =~= seq!['[']);
            assert(close@ =~= seq![']']);
            assert(colon@ =~= seq![':']);
            return match split_once_exec(&ls[i], &open) {
                Some((_, rest)) => match split_once_exec(&rest, &close) {
                    Some((b, _)) => {
                        let id = after_last_exec(&b, &colon);
                        parse_u64_exec(&trim_exec(&id))
                    },
                    None => None,
                },
                None => None,
            };
        }
        i += 1;
    }
    proof {
        assert(views(ls@).skip(ls@.len() as int) =~= Seq::<Seq<char>>::empty());
    }
    None
}

/// The notebook name, `home` when it is empty.
fn notebook_or_home_exec(notebook: &str) -> (r: Vec<char>)
    ensures
        r@ == notebook_or_home(notebook@),
{
    let v = chars_of(notebook);
    if v.len() == 0 {
        let h = vec!['h', 'o', 'm', 'e'];
        assert(h@ =~= seq!['h', 'o', 'm', 'e']);
        h
    } else {
        v
    }
}

/// The `nb` reference of an item, always prefixed with its notebook
/// (`home` when none is given): `notebook:id`, or `notebook:folder/id` for
/// an item inside a folder, since `nb` numbers items per folder.
pub fn nb_ref(notebook: &str, folder: &str, nb_id: u64) -> (r: String)
    ensures
        r@ == item_ref(notebook@, folder@, nb_id),
{
    let mut out = notebook_or_home_exec(notebook);
    out.push(':');
    let f = chars_of(folder);
    let ghost head = out@;
    if f.len() > 0 {
        append(&mut out, &f);
        out.push('/');
        assert(out@ =~= head + (folder@ + seq!['/']));
    } else {
        assert(out@ =~= head + Seq::<char>::empty());
    }
    let ghost mid = out@;
    let d = u64_digits(nb_id);
    append(&mut out, &d);
    assert(out@ =~= mid + decimal(nb_id as nat));
    string_of(&out)
}

/// An `nb` subcommand prefixed with its notebook (`home` when none is
/// given): `notebook:subcmd`.
pub fn nb_cmd(notebook: &str, subcmd: &str) -> (r: String)
    ensures
        r@ == notebook_or_home(notebook@) + seq![':'] + subcmd@,
{
    let mut out = notebook_or_home_exec(notebook);
    out.push(':');
    let s = chars_of(subcmd);
    append(&mut out, &s);
    string_of(&out)
}

/// The last component of `ps`, skipping empty and `.` components.
fn last_component_of(ps: &Vec<Vec<char>>) -> (r: Option<Vec<char>>)
    ensures
        opt_view(r) == last_component(views(ps@)),
{
    let dot = vec!['.'];
    assert(dot@ =~= seq!['.']);
    let mut i = ps.len();
    assert(views(ps@).take(i as int) =~= views(ps@));
    while i > 0
        invariant
            i <= ps@.len(),
            dot@ == seq!['.'],
            last_component(views(ps@).take(i as int)) == last_component(views(ps@)),
        decreases i,
    {
        let ghost pre = views(ps@).take(i as int);
        assert(pre.last() == ps@[i - 1]@);
        assert(pre.drop_last() =~= views(ps@).take(i - 1));
        if ps[i - 1].len() > 0 && !eq_chars(&ps[i - 1], &dot) {
            return Some(copy_of(&ps[i - 1]));
        }
        i -= 1;
    }
    None
}

/// Whether a file path names an nb bookmark: its file name ends with
/// `.bookmark.md` (plain notes are just `.md`).
pub fn is_bookmark_path(path: &str) -> (r: bool)
    ensures
        r == match file_name(path@) {
            Some(n) => ends_with(n, bookmark_suffix()),
            None => false,
        },
{
    let p = chars_of(path);
    let slash = vec!['/'];
    assert(slash@ =~= seq!['/']);
    let parts = split_exec(&p, &slash);
    match last_component_of(&parts) {
        None => false,
        Some(c) => {
            let dd = vec!['.', '.'];
            assert(dd@ =~= seq!['.', '.']);
            if eq_chars(&c, &dd) {
                return false;
            }
            let suffix = vec!['.', 'b', 'o', 'o', 'k', 'm', 'a', 'r', 'k', '.', 'm', 'd'];
            assert(suffix@ =~= bookmark_suffix());
            ends_with_exec(&c, &suffix)
        },
    }
}

/// The note-body round trip under plain conditions: a title with no line
/// feed or carriage return, tags with no whitespace, content with no
/// carriage return, and (with no tags) content whose first line does not
/// read as tags.
pub proof fn lemma_note_body_round_trip_plain(title: Seq<char>, tags: Seq<Seq<char>>, content: Seq<char>)
    requires
        forall|i: int| 0 <= i < title.len() ==> #[trigger] title[i] != '\n' && title[i] != '\r',
        forall|j: int, k: int| 0 <= j < tags.len() && 0 <= k < tags[j].len() ==> !is_ws(#[trigger] tags[j][k]),
        forall|i: int| 0 <= i < content.len() ==> #[trigger] content[i] != '\r',
        tags.len() == 0 && trim(content).len() > 0 ==> !is_tag_line(lines(trim(content))[0]),
    ensures
        note_body(lines(note_text(title, tags, content))) == (title, tags, trim(content)),
{
    assert(one_line(title)) by {
        if title.len() > 0 {
            assert(title[title.len() - 1] != '\r');
        }
    }
    assert forall|j: int| 0 <= j < tags.len() implies one_word(#[trigger] tags[j]) by {
        assert forall|k: int| 0 <= k < tags[j].len() implies !is_ws(#[trigger] tags[j][k]) by {}
    }
    let t = crate::text::trim_start(content);
    crate::text::lemma_trim_start_len(content);
    crate::text::lemma_trim_end_len(t);
    let tc = trim(content);
    assert forall|i: int| 0 <= i < tc.len() implies #[trigger] tc[i] != '\r' by {
        assert(tc[i] == t[i]);
        assert(t[i] == content[content.len() - t.len() + i]);
    }
    assert(no_crlf(tc));
    lemma_note_body_round_trip(title, tags, content);
}

/// No line of `ls` is an entry heading.
pub open spec fn no_headings(ls: Seq<Seq<char>>) -> bool {
    forall|i: int| 0 <= i < ls.len() ==> !is_entry_heading(#[trigger] ls[i])
}

/// With no heading among them, every line belongs to the entry.
proof fn lemma_entry_len_all(ls: Seq<Seq<char>>)
    requires
        no_headings(ls),
    ensures
        entry_len(ls) == ls.len(),
    decreases ls.len(),
{
    if ls.len() > 0 {
        let t = ls.drop_first();
        assert forall|i: int| 0 <= i < t.len() implies !is_entry_heading(#[trigger] t[i]) by {
            assert(t[i] == ls[i + 1]);
        }
        assert(!is_entry_heading(ls[0]));
        lemma_entry_len_all(t);
    }
}

/// A daily log entry as nb's daily plugin writes it, a `## time` heading
/// line and then a note body as `format_note_body` writes it, reads back as
/// the one entry of that date, time, title, tags and trimmed content: when
/// the time is one trimmed line, the body meets the conditions of
/// `lemma_note_body_round_trip`, and no line of the body is itself a
/// heading.
#[verifier::rlimit(30)]
pub proof fn lemma_daily_entry_round_trip(
    date: Seq<char>,
    time: Seq<char>,
    title: Seq<char>,
    tags: Seq<Seq<char>>,
    content: Seq<char>,
)
    requires
        forall|i: int| 0 <= i < time.len() ==> #[trigger] time[i] != '\n',
        trim(time) == time,
        one_line(title),
        forall|i: int| 0 <= i < tags.len() ==> one_word(#[trigger] tags[i]),
        no_crlf(trim(content)),
        tags.len() == 0 && trim(content).len() > 0 ==> !is_tag_line(lines(trim(content))[0]),
        no_headings(lines(note_text(title, tags, content))),
    ensures
        daily_entries(lines(seq!['#', '#', ' '] + time + seq!['\n'] + note_text(title, tags, content)), date)
            == seq![(date, time, title, tags, trim(content))],
{
    let h = seq!['#', '#', ' '] + time;
    let nt = note_text(title, tags, content);
    assert forall|i: int| 0 <= i < h.len() implies #[trigger] h[i] != '\n' by {
        if i >= 3 {
            assert(h[i] == time[i - 3]);
        }
    }
    assert(h.last() != '\r') by {
        if time.len() > 0 {
            assert(h.last() == time.last());
            assert(!is_ws(time.last())) by {
                crate::text::lemma_trim_shape(time);
            }
        }
    }
    lemma_lines_cons(h, nt);
    let ls = lines(h + seq!['\n'] + nt);
    let body = lines(nt);
    assert(ls == seq![h] + body);
    assert(h.take(3) =~= seq!['#', '#', ' ']);
    assert(h.skip(3) =~= time);
    assert(strip_prefix(ls[0], seq!['#', '#', ' ']) == Some(time));
    assert(ls.drop_first() =~= body);
    lemma_entry_len_all(body);
    let m = body.len() as int;
    assert(ls.subrange(1, 1 + m) =~= body);
    assert(ls.skip(1 + m) =~= Seq::<Seq<char>>::empty());
    assert(daily_entries(ls.skip(1 + m), date) == Seq::<(Seq<char>, Seq<char>, Seq<char>, Seq<Seq<char>>, Seq<char>)>::empty());
    lemma_note_body_round_trip(title, tags, content);
}

/// A daily log entry to be written: its time, title, tags and content.
pub type EntryParts = (Seq<char>, Seq<char>, Seq<Seq<char>>, Seq<char>);

/// An entry as nb's daily plugin writes it: a `## time` heading line, then
/// the note body.
pub open spec fn entry_text(e: EntryParts) -> Seq<char> {
    seq!['#', '#', ' '] + e.0 + seq!['\n'] + note_text(e.1, e.2, e.3)
}

/// A day's log: its entries' texts one after another, each starting on a
/// line of its own.
pub open spec fn log_text(es: Seq<EntryParts>) -> Seq<char>
    decreases es.len(),
{
    if es.len() == 0 {
        seq![]
    } else if es.len() == 1 {
        entry_text(es[0])
    } else {
        entry_text(es[0]) + seq!['\n'] + log_text(es.drop_first())
    }
}

/// An entry that reads back as written: a one-line trimmed time, a one-line
/// title, one-word tags, non-empty trimmed content with no CRLF pair (whose
/// first line does not read as tags when there are none), and no line of
/// the body that is itself an entry heading.
pub open spec fn writable_entry(e: EntryParts) -> bool {
    &&& forall|i: int| 0 <= i < e.0.len() ==> #[trigger] e.0[i] != '\n'
    &&& trim(e.0) == e.0
    &&& one_line(e.1)
    &&& forall|i: int| 0 <= i < e.2.len() ==> one_word(#[trigger] e.2[i])
    &&& no_crlf(trim(e.3))
    &&& trim(e.3).len() > 0
    &&& e.2.len() == 0 ==> !is_tag_line(lines(trim(e.3))[0])
    &&& no_headings(lines(note_text(e.1, e.2, e.3)))
}

/// The lines of a day's log: each entry's heading, then its body's lines.
pub open spec fn log_lines(es: Seq<EntryParts>) -> Seq<Seq<char>>
    decreases es.len(),
{
    if es.len() == 0 {
        seq![]
    } else {
        seq![seq!['#', '#', ' '] + es[0].0] + lines(note_text(es[0].1, es[0].2, es[0].3)) + log_lines(
            es.drop_first(),
        )
    }
}

/// An entry's text is non-empty, does not end in a line feed, and its lines
/// are its heading and then its body's lines.
proof fn lemma_entry_text_lines(e: EntryParts)
    requires
        writable_entry(e),
    ensures
        entry_text(e).len() > 0,
        entry_text(e).last() != '\n',
        lines(entry_text(e)) == seq![seq!['#', '#', ' '] + e.0] + lines(note_text(e.1, e.2, e.3)),
{
    let h = seq!['#', '#', ' '] + e.0;
    let nt = note_text(e.1, e.2, e.3);
    assert forall|i: int| 0 <= i < h.len() implies #[trigger] h[i] != '\n' by {
        if i >= 3 {
            assert(h[i] == e.0[i - 3]);
        }
    }
    assert(h.last() != '\r') by {
        if e.0.len() > 0 {
            assert(h.last() == e.0.last());
            lemma_trim_shape(e.0);
        }
    }
    lemma_lines_cons(h, nt);
    lemma_trim_shape(e.3);
    assert(nt.last() == trim(e.3).last());
    assert(entry_text(e).last() == nt.last());
}

/// The lines of a day's log, written entry after entry, are each entry's
/// heading followed by its body's lines.
proof fn lemma_log_lines(es: Seq<EntryParts>)
    requires
        forall|i: int| 0 <= i < es.len() ==> writable_entry(#[trigger] es[i]),
    ensures
        lines(log_text(es)) == log_lines(es),
        es.len() > 0 ==> log_text(es).len() > 0 && log_text(es).last() != '\n',
    decreases es.len(),
{
    if es.len() > 0 {
        let rest = es.drop_first();
        assert(writable_entry(es[0]));
        lemma_entry_text_lines(es[0]);
        assert(forall|i: int| 0 <= i < rest.len() ==> rest[i] == es[i + 1]);
        lemma_log_lines(rest);
        if es.len() == 1 {
            assert(rest.len() == 0);
            assert(log_lines(rest) == Seq::<Seq<char>>::empty());
            assert(lines(log_text(es)) =~= log_lines(es));
        } else {
            lemma_lines_join(entry_text(es[0]), log_text(rest));
            assert(lines(log_text(es)) =~= log_lines(es));
            assert(log_text(es).last() == log_text(rest).last());
        }
    }
}

/// The entry's body runs exactly over lines without a heading, up to the
/// next heading or the end.
proof fn lemma_entry_len_prefix(b: Seq<Seq<char>>, r: Seq<Seq<char>>)
    requires
        no_headings(b),
        r.len() == 0 || is_entry_heading(r[0]),
    ensures
        entry_len(b + r) == b.len(),
    decreases b.len(),
{
    if b.len() == 0 {
        assert(b + r =~= r);
    } else {
        let t = b.drop_first();
        assert forall|i: int| 0 <= i < t.len() implies !is_entry_heading(#[trigger] t[i]) by {
            assert(t[i] == b[i + 1]);
        }
        assert(!is_entry_heading(b[0]));
        assert((b + r)[0] == b[0]);
        assert((b + r).drop_first() =~= t + r);
        lemma_entry_len_prefix(t, r);
    }
}

/// The entries a day's log reads back as: each with the day's date, its
/// time, title and tags, and its trimmed content.
pub open spec fn entries_read(es: Seq<EntryParts>, date: Seq<char>) -> Seq<
    (Seq<char>, Seq<char>, Seq<char>, Seq<Seq<char>>, Seq<char>),
> {
    es.map_values(|e: EntryParts| (date, e.0, e.1, e.2, trim(e.3)))
}

/// Reading the lines of a day's log entry by entry.
#[verifier::rlimit(40)]
proof fn lemma_daily_log_lines(es: Seq<EntryParts>, date: Seq<char>)
    requires
        forall|i: int| 0 <= i < es.len() ==> writable_entry(#[trigger] es[i]),
    ensures
        daily_entries(log_lines(es), date) == entries_read(es, date),
    decreases es.len(),
{
    if es.len() == 0 {
        assert(entries_read(es, date) =~= Seq::<(Seq<char>, Seq<char>, Seq<char>, Seq<Seq<char>>, Seq<char>)>::empty());
    } else {
        let e = es[0];
        assert(writable_entry(e));
        let rest = es.drop_first();
        assert(forall|i: int| 0 <= i < rest.len() ==> rest[i] == es[i + 1]);
        lemma_daily_log_lines(rest, date);
        let h = seq!['#', '#', ' '] + e.0;
        let b = lines(note_text(e.1, e.2, e.3));
        let f = log_lines(rest);
        let ls = log_lines(es);
        assert(ls == seq![h] + b + f);
        if f.len() > 0 {
            let h1 = seq!['#', '#', ' '] + rest[0].0;
            assert(f[0] == h1);
            assert(h1.take(3) =~= seq!['#', '#', ' ']);
        }
        lemma_entry_len_prefix(b, f);
        assert(ls.drop_first() =~= b + f);
        let m = b.len() as int;
        assert(ls[0] == h);
        assert(h.take(3) =~= seq!['#', '#', ' ']);
        assert(h.skip(3) =~= e.0);
        assert(strip_prefix(ls[0], seq!['#', '#', ' ']) == Some(e.0));
        assert(ls.subrange(1, 1 + m) =~= b);
        assert(ls.skip(1 + m) =~= f);
        lemma_note_body_round_trip(e.1, e.2, e.3);
        assert(daily_entries(ls, date) == seq![(date, trim(e.0), note_body(b).0, note_body(b).1, note_body(b).2)]
            + daily_entries(f, date));
        assert(entries_read(es, date) =~= seq![(date, e.0, e.1, e.2, trim(e.3))] + entries_read(rest, date));
    }
}

/// A day's log of several entries, each written as a `## time` heading and
/// a note body (see `writable_entry`), reads back as exactly those entries
/// in order: each with the day's date, its own time, title and tags, and
/// its own trimmed content, so no entry takes in a line of the next one.
pub proof fn lemma_daily_log_round_trip(es: Seq<EntryParts>, date: Seq<char>)
    requires
        forall|i: int| 0 <= i < es.len() ==> writable_entry(#[trigger] es[i]),
    ensures
        daily_entries(lines(log_text(es)), date) == entries_read(es, date),
{
    lemma_log_lines(es);
    lemma_daily_log_lines(es, date);
}

} // verus!
