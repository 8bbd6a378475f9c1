//! Walking a notebook's folder tree from `nb list <folder>/ --paths`
//! listings, and reading a note file's text by its layout.
use vstd::prelude::*;
use crate::notes::{
    list_path_line, file_name, parse_list_path_line, last_component_of, is_bookmark_path, bookmark_suffix,
    note_body, bookmark_body, parse_body, parse_bookmark_body, note_text, format_note_body,
};
use crate::notes::requests::UpdateNoteRequest;
use crate::notes::daily::{text_lt, text_lt_exec, lemma_text_lt_irreflexive, lemma_text_lt_transitive};
use crate::date::{Date, chrono_date, opt_date_view, ymd_lt, parse_compact_ymd};
use crate::text::{
    chars_of, string_of, contains, lines, lines_exec, views, str_views, strings_of, char_lines, find_exec, split_exec,
    eq_chars, copy_of, append, ends_with, opt_str_view, rfind, rfind_exec, subvec, lemma_rfind_bounds, trim, trim_exec,
};

verus! {

broadcast use vstd::seq_lib::group_to_multiset_ensures;

/// The icon `nb` puts on the listing line of a folder.
pub open spec fn folder_icon() -> char {
    '\u{1F4C2}'
}

/// The path of the sub-folder `name` of `folder`, relative to the notebook
/// root.
pub open spec fn sub_folder(folder: Seq<char>, name: Seq<char>) -> Seq<char> {
    if folder.len() == 0 {
        name
    } else {
        folder + seq!['/'] + name
    }
}

/// What the lines of one listing of `folder` name, in order: the notes, as
/// (id, folder, path), and the sub-folders. A line that reads as a listing
/// line and carries the folder icon names a sub-folder by the file name of
/// its path; any other such line names a note of `folder`; lines that do
/// not read, and folders whose path has no file name, are skipped.
pub open spec fn listed(ls: Seq<Seq<char>>, notebook: Seq<char>, folder: Seq<char>) -> (
    Seq<(u64, Seq<char>, Seq<char>)>,
    Seq<Seq<char>>,
)
    decreases ls.len(),
{
    if ls.len() == 0 {
        (seq![], seq![])
    } else {
        let prev = listed(ls.drop_last(), notebook, folder);
        let l = ls.last();
        match list_path_line(l, notebook) {
            None => prev,
            Some((id, _nb, path)) => if contains(l, seq![folder_icon()]) {
                match file_name(path) {
                    Some(name) => (prev.0, prev.1.push(sub_folder(folder, name))),
                    None => prev,
                }
            } else {
                (prev.0.push((id, folder, path)), prev.1)
            },
        }
    }
}

/// A listed note as plain values.
pub open spec fn note_ref_view(n: (u64, String, String)) -> (u64, Seq<char>, Seq<char>) {
    (n.0, n.1@, n.2@)
}

/// `Path::file_name` of the path `p`.
fn file_name_exec(p: &[char]) -> (r: Option<String>)
    ensures
        opt_str_view(r) == file_name(p@),
{
    let slash = vec!['/'];
    assert(slash@ =~= seq!['/']);
    let parts = split_exec(p, &slash);
    match last_component_of(&parts) {
        None => None,
        Some(c) => {
            let dd = vec!['.', '.'];
            assert(dd@ =~= seq!['.', '.']);
            if eq_chars(&c, &dd) {
                None
            } else {
                Some(string_of(&c))
            }
        },
    }
}

/// The notes (id, folder, path) and the sub-folders named by the output of
/// `nb list <folder>/ --paths` in `notebook`, in the order listed.
#[verifier::rlimit(30)]
pub fn listing_entries(out: &str, notebook: &str, folder: &str) -> (r: (Vec<(u64, String, String)>, Vec<String>))
    ensures
        r.0@.map_values(|n: (u64, String, String)| note_ref_view(n)) == listed(lines(out@), notebook@, folder@).0,
        str_views(r.1@) == listed(lines(out@), notebook@, folder@).1,
{
    let ls = lines_exec(&chars_of(out));
    let ghost lv = views(ls@);
    let icon = vec!['\u{1F4C2}'];
    assert(icon@ =~= seq![folder_icon()]);
    let mut notes: Vec<(u64, String, String)> = Vec::new();
    let mut folders: Vec<String> = Vec::new();
    let mut i: usize = 0;
    while i < ls.len()
        invariant
            i <= ls@.len(),
            lv == views(ls@),
            icon@ == seq![folder_icon()],
            notes@.map_values(|n: (u64, String, String)| note_ref_view(n)) == listed(
                lv.take(i as int),
                notebook@,
                folder@,
            ).0,
            str_views(folders@) == listed(lv.take(i as int), notebook@, folder@).1,
        decreases ls@.len() - i,
    {
        let ghost pre = lv.take(i as int);
        let ghost post = lv.take(i + 1);
        assert(post.drop_last() =~= pre);
        assert(post.last() == ls@[i as int]@);
        let line = string_of(&ls[i]);
        let ghost old_notes = notes@;
        let ghost old_folders = folders@;
        match parse_list_path_line(line.as_str(), notebook) {
            None => {},
            Some((id, _nb, path)) => {
                if find_exec(&ls[i], &icon).is_some() {
                    match file_name_exec(&chars_of(path.as_str())) {
                        Some(name) => {
                            let mut s = chars_of(folder);
                            let sub = if s.len() == 0 {
                                name
                            } else {
                                s.push('/');
                                append(&mut s, &chars_of(name.as_str()));
                                assert(s@ =~= folder@ + seq!['/'] + name@);
                                string_of(&s)
                            };
                            assert(sub@ == sub_folder(folder@, name@));
                            folders.push(sub);
                            assert(str_views(folders@) =~= str_views(old_folders).push(sub@));
                        },
                        None => {},
                    }
                } else {
                    let f = string_of(&chars_of(folder));
                    notes.push((id, f, path));
                    assert(notes@.map_values(|n: (u64, String, String)| note_ref_view(n)) =~= old_notes.map_values(
                        |n: (u64, String, String)| note_ref_view(n),
                    ).push((id, folder@, path@)));
                }
            },
        }
        i += 1;
    }
    assert(lv.take(ls@.len() as int) =~= lv);
    (notes, folders)
}

/// The names listed one per line: each line trimmed, blank lines left out.
pub open spec fn names_of(ls: Seq<Seq<char>>) -> Seq<Seq<char>>
    decreases ls.len(),
{
    if ls.len() == 0 {
        seq![]
    } else if trim(ls.last()).len() == 0 {
        names_of(ls.drop_last())
    } else {
        names_of(ls.drop_last()).push(trim(ls.last()))
    }
}

/// The notebook names in the output of `nb notebooks`.
pub fn notebook_names(out: &str) -> (r: Vec<String>)
    ensures
        str_views(r@) == names_of(lines(out@)),
{
    let ls = lines_exec(&chars_of(out));
    let ghost lv = views(ls@);
    let mut names: Vec<String> = Vec::new();
    let mut i: usize = 0;
    while i < ls.len()
        invariant
            i <= ls@.len(),
            lv == views(ls@),
            str_views(names@) == names_of(lv.take(i as int)),
        decreases ls@.len() - i,
    {
        let ghost pre = lv.take(i as int);
        let ghost post = lv.take(i + 1);
        assert(post.drop_last() =~= pre);
        assert(post.last() == ls@[i as int]@);
        let t = trim_exec(&ls[i]);
        if t.len() > 0 {
            let ghost old_names = names@;
            let n = string_of(&t);
            names.push(n);
            assert(str_views(names@) =~= str_views(old_names).push(t@));
        }
        i += 1;
    }
    assert(lv.take(ls@.len() as int) =~= lv);
    names
}

// ---------------------------------------------------------------------------
// Folder names in order
// ---------------------------------------------------------------------------

/// Texts in ascending order, equal texts side by side.
pub open spec fn sorted_texts(s: Seq<Seq<char>>) -> bool {
    forall|i: int, j: int| 0 <= i < j < s.len() ==> !text_lt(#[trigger] s[j], #[trigger] s[i])
}

/// Puts `x` into the sorted texts `s`, after every text not after it.
#[verifier::rlimit(30)]
fn insert_text(s: &mut Vec<Vec<char>>, x: Vec<char>)
    requires
        sorted_texts(views(old(s)@)),
    ensures
        sorted_texts(views(final(s)@)),
        views(final(s)@).to_multiset() == views(old(s)@).to_multiset().insert(x@),
{
    let ghost v = views(s@);
    let mut p: usize = 0;
    while p < s.len() && !text_lt_exec(&x, &s[p])
        invariant
            p <= s@.len(),
            s@ == old(s)@,
            v == views(s@),
            forall|k: int| 0 <= k < p ==> !text_lt(x@, #[trigger] v[k]),
        decreases s@.len() - p,
    {
        p += 1;
    }
    let ghost xv = x@;
    s.insert(p, x);
    proof {
        let w = views(s@);
        assert(w =~= v.insert(p as int, xv));
        assert forall|i: int, j: int| 0 <= i < j < w.len() implies !text_lt(#[trigger] w[j], #[trigger] w[i]) by {
            if j < p {
                assert(w[i] == v[i] && w[j] == v[j]);
            } else if j == p {
                assert(w[i] == v[i]);
            } else if i == p {
                assert(w[j] == v[j - 1]);
                assert(text_lt(xv, v[p as int]));
                if text_lt(v[j - 1], xv) {
                    lemma_text_lt_transitive(v[j - 1], xv, v[p as int]);
                    if j - 1 == p {
                        lemma_text_lt_irreflexive(v[p as int]);
                    }
                }
            } else if i < p {
                assert(w[i] == v[i] && w[j] == v[j - 1]);
            } else {
                assert(w[i] == v[i - 1] && w[j] == v[j - 1]);
            }
        }
        assert(w.remove(p as int) =~= v);
        assert(w.to_multiset() =~= v.to_multiset().insert(xv)) by {
            assert(w.remove(p as int).to_multiset() =~= w.to_multiset().remove(w[p as int]));
            assert(w[p as int] == xv);
            assert(w.contains(xv));
            assert(w.to_multiset().count(xv) > 0);
        }
    }
}

/// The texts in ascending order (by code point, a proper prefix first),
/// as `sort` on strings puts them.
#[verifier::rlimit(30)]
pub fn sort_texts(texts: &Vec<String>) -> (r: Vec<String>)
    ensures
        sorted_texts(str_views(r@)),
        str_views(r@).to_multiset() == str_views(texts@).to_multiset(),
{
    let src = char_lines(texts);
    let ghost all = views(src@);
    let mut out: Vec<Vec<char>> = Vec::new();
    let mut i: usize = 0;
    while i < src.len()
        invariant
            i <= src@.len(),
            all == views(src@),
            sorted_texts(views(out@)),
            views(out@).to_multiset() == all.take(i as int).to_multiset(),
        decreases src@.len() - i,
    {
        let x = copy_of(&src[i]);
        assert(all.take(i + 1) =~= all.take(i as int).push(all[i as int]));
        insert_text(&mut out, x);
        i += 1;
    }
    assert(all.take(src@.len() as int) =~= all);
    strings_of(&out)
}

// ---------------------------------------------------------------------------
// Reading a note file
// ---------------------------------------------------------------------------

/// A note file's text read by its layout, as (title, url, tags, content):
/// a bookmark's when the file name ends with `.bookmark.md`, otherwise the
/// default note layout of its lines, with no url.
pub open spec fn note_file_parts(path: Seq<char>, raw: Seq<char>) -> (
    Seq<char>,
    Option<Seq<char>>,
    Seq<Seq<char>>,
    Seq<char>,
) {
    let bookmark = match file_name(path) {
        Some(n) => ends_with(n, bookmark_suffix()),
        None => false,
    };
    if bookmark {
        bookmark_body(raw)
    } else {
        let b = note_body(lines(raw));
        (b.0, None, b.1, b.2)
    }
}

/// Reads the text `raw` of the note file at `path` by its layout, as
/// (title, url, tags, content).
pub fn note_file_parts_of(path: &str, raw: &str) -> (r: (String, Option<String>, Vec<String>, String))
    ensures
        (r.0@, opt_str_view(r.1), str_views(r.2@), r.3@) == note_file_parts(path@, raw@),
{
    if is_bookmark_path(path) {
        parse_bookmark_body(raw)
    } else {
        let ls = strings_of(&lines_exec(&chars_of(raw)));
        let (title, tags, content) = parse_body(&ls);
        (title, None, tags, content)
    }
}

/// The tags of an optional list, as plain values.
pub open spec fn opt_tags_view(o: Option<Vec<String>>) -> Option<Seq<Seq<char>>> {
    match o {
        Some(v) => Some(str_views(v@)),
        None => None,
    }
}

/// The text a note file is rewritten with by an update, in the default
/// layout: the title, tags and content the request gives, each of them
/// the file's own (read by its layout) where the request gives none.
pub open spec fn updated_text(
    title: Option<Seq<char>>,
    tags: Option<Seq<Seq<char>>>,
    content: Option<Seq<char>>,
    path: Seq<char>,
    raw: Seq<char>,
) -> Seq<char> {
    let cur = note_file_parts(path, raw);
    note_text(
        match title {
            Some(t) => t,
            None => cur.0,
        },
        match tags {
            Some(t) => t,
            None => cur.2,
        },
        match content {
            Some(c) => c,
            None => cur.3,
        },
    )
}

/// The new text of the note file at `path`, whose text is `raw`, after the
/// update `req`.
pub fn updated_note_body(req: &UpdateNoteRequest, path: &str, raw: &str) -> (r: String)
    ensures
        r@ == updated_text(opt_str_view(req.title), opt_tags_view(req.tags), opt_str_view(req.content), path@, raw@),
{
    let (title, _url, tags, content) = note_file_parts_of(path, raw);
    let t = match &req.title {
        Some(x) => x.as_str(),
        None => title.as_str(),
    };
    let g = match &req.tags {
        Some(x) => x,
        None => &tags,
    };
    let c = match &req.content {
        Some(x) => x.as_str(),
        None => content.as_str(),
    };
    format_note_body(t, g, c)
}

// ---------------------------------------------------------------------------
// Daily log files
// ---------------------------------------------------------------------------

/// `Path::file_stem`: the file name without its last extension; the whole
/// file name when it has no `.` other than a leading one.
pub open spec fn file_stem(p: Seq<char>) -> Option<Seq<char>> {
    match file_name(p) {
        None => None,
        Some(n) => match rfind(n, seq!['.']) {
            Some(i) => if i > 0 {
                Some(n.take(i))
            } else {
                Some(n)
            },
            None => Some(n),
        },
    }
}

/// The daily log file a line of `nb list --paths` names, with its day: a
/// listed file whose stem chrono reads as a `%Y%m%d` date, no earlier than
/// `cutoff` when there is one.
pub open spec fn log_file_of(line: Seq<char>, notebook: Seq<char>, cutoff: Option<(int, int, int)>) -> Option<
    (Seq<char>, (int, int, int)),
> {
    match list_path_line(line, notebook) {
        None => None,
        Some((_id, _nb, path)) => match file_stem(path) {
            None => None,
            Some(stem) => dated(path, chrono_date(stem, "%Y%m%d"@), cutoff),
        },
    }
}

/// A log file with the day read from its name: none when no day was read
/// or the day is before `cutoff`.
pub open spec fn dated(path: Seq<char>, day: Option<(int, int, int)>, cutoff: Option<(int, int, int)>) -> Option<
    (Seq<char>, (int, int, int)),
> {
    match day {
        None => None,
        Some(d) => match cutoff {
            Some(c) => if ymd_lt(d, c) {
                None
            } else {
                Some((path, d))
            },
            None => Some((path, d)),
        },
    }
}

/// The log file at `path` with the day read from its name, unless no day
/// was read or the day is before `cutoff`.
pub fn dated_log_file(path: String, day: Option<Date>, cutoff: Option<Date>) -> (r: Option<(String, Date)>)
    ensures
        match r {
            Some(f) => dated(path@, opt_date_view(day), opt_date_view(cutoff)) == Some(log_file_view(f)),
            None => dated(path@, opt_date_view(day), opt_date_view(cutoff)) is None,
        },
{
    match day {
        None => None,
        Some(d) => {
            let early = match cutoff {
                Some(c) => d.is_before(&c),
                None => false,
            };
            if early {
                None
            } else {
                Some((path, d))
            }
        },
    }
}

/// The daily log files, with their days, named by the lines `ls`, in order.
pub open spec fn log_files(ls: Seq<Seq<char>>, notebook: Seq<char>, cutoff: Option<(int, int, int)>) -> Seq<
    (Seq<char>, (int, int, int)),
>
    decreases ls.len(),
{
    if ls.len() == 0 {
        seq![]
    } else {
        let prev = log_files(ls.drop_last(), notebook, cutoff);
        match log_file_of(ls.last(), notebook, cutoff) {
            Some(f) => prev.push(f),
            None => prev,
        }
    }
}

/// A log file and its day as plain values.
pub open spec fn log_file_view(f: (String, Date)) -> (Seq<char>, (int, int, int)) {
    (f.0@, f.1@)
}

/// `Path::file_stem` of the path `p`.
fn file_stem_exec(p: &[char]) -> (r: Option<String>)
    ensures
        opt_str_view(r) == file_stem(p@),
{
    match file_name_exec(p) {
        None => None,
        Some(n) => {
            let nv = chars_of(n.as_str());
            let dot = vec!['.'];
            assert(dot@ =~= seq!['.']);
            proof {
                lemma_rfind_bounds(nv@, dot@);
            }
            match rfind_exec(&nv, &dot) {
                Some(i) => if i > 0 {
                    let t = subvec(&nv, 0, i);
                    assert(t@ =~= nv@.take(i as int));
                    Some(string_of(&t))
                } else {
                    Some(n)
                },
                None => Some(n),
            }
        },
    }
}

/// The daily log files that the output of `nb list --paths` in `notebook`
/// names, in order, with the day each is named after, leaving out those of
/// days before `cutoff`.
#[verifier::rlimit(30)]
pub fn daily_log_files(out: &str, notebook: &str, cutoff: Option<Date>) -> (r: Vec<(String, Date)>)
    ensures
        r@.map_values(|f: (String, Date)| log_file_view(f)) == log_files(lines(out@), notebook@, opt_date_view(cutoff)),
{
    let ls = lines_exec(&chars_of(out));
    let ghost lv = views(ls@);
    let ghost c = opt_date_view(cutoff);
    let mut files: Vec<(String, Date)> = Vec::new();
    let mut i: usize = 0;
    while i < ls.len()
        invariant
            i <= ls@.len(),
            lv == views(ls@),
            c == opt_date_view(cutoff),
            files@.map_values(|f: (String, Date)| log_file_view(f)) == log_files(lv.take(i as int), notebook@, c),
        decreases ls@.len() - i,
    {
        let ghost pre = lv.take(i as int);
        let ghost post = lv.take(i + 1);
        assert(post.drop_last() =~= pre);
        assert(post.last() == ls@[i as int]@);
        let line = string_of(&ls[i]);
        let ghost old_files = files@;
        match parse_list_path_line(line.as_str(), notebook) {
            None => {},
            Some((_id, _nb, path)) => match file_stem_exec(&chars_of(path.as_str())) {
                None => {},
                Some(stem) => match dated_log_file(path, parse_compact_ymd(stem.as_str()), cutoff) {
                    None => {},
                    Some(f) => {
                        let ghost fv = log_file_view(f);
                        files.push(f);
                        assert(files@.map_values(|f: (String, Date)| log_file_view(f)) =~= old_files.map_values(
                            |f: (String, Date)| log_file_view(f),
                        ).push(fv));
                    },
                },
            },
        }
        i += 1;
    }
    assert(lv.take(ls@.len() as int) =~= lv);
    files
}

} // verus!
