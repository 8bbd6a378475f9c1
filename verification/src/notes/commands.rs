//! The `nb` commands that bookmark, move, restore and search notes: their
//! arguments, and what is read from their output.
use vstd::prelude::*;
use crate::notes::{list_line, bracket_content, parse_list_line};
use crate::notes::listing::folder_icon;
use crate::notes::reference_laws::ref_text;
use crate::text::{
    chars_of, string_of, append, append_str, contains, find, lines, lines_exec, views, str_views, trim, trim_exec,
    join, join_exec, char_lines, strip_prefix, split_once, rsplit_once, strip_prefix_exec, split_once_exec,
    rsplit_once_exec, find_exec, opt_str_view, decimal, u64_digits,
};

verus! {

// ---------------------------------------------------------------------------
// The line that reports an item
// ---------------------------------------------------------------------------

/// The first of the lines that holds `marker`, if any.
pub open spec fn marked_line(ls: Seq<Seq<char>>, marker: Seq<char>) -> Option<Seq<char>>
    decreases ls.len(),
{
    if ls.len() == 0 {
        None
    } else if find(ls[0], marker) is Some {
        Some(ls[0])
    } else {
        marked_line(ls.drop_first(), marker)
    }
}

/// What stands in brackets on the first line of `out` that holds `marker`
/// (`Added:` for a bookmark, `Moved to:` for a move), such as
/// `notebook:folder/3`.
pub open spec fn marked_bracket(out: Seq<char>, marker: Seq<char>) -> Option<Seq<char>> {
    match marked_line(lines(out), marker) {
        Some(l) => bracket_content(l),
        None => None,
    }
}

/// The bracket content on the first line of `out` holding `marker`; `None`
/// when there is no such line, or no brackets on it.
pub fn reported_bracket(out: &str, marker: &str) -> (r: Option<String>)
    ensures
        opt_str_view(r) == marked_bracket(out@, marker@),
{
    let ls = lines_exec(&chars_of(out));
    let m = chars_of(marker);
    let mut i: usize = 0;
    assert(views(ls@).skip(0) =~= views(ls@));
    while i < ls.len()
        invariant
            i <= ls@.len(),
            m@ == marker@,
            views(ls@) == lines(out@),
            marked_line(views(ls@), marker@) == marked_line(views(ls@).skip(i as int), marker@),
        decreases ls@.len() - i,
    {
        proof {
            let vs = views(ls@);
            assert(vs.skip(i as int)[0] == vs[i as int]);
            assert(vs.skip(i as int).drop_first() =~= vs.skip(i + 1));
        }
        if find_exec(&ls[i], &m).is_some() {
            let open = vec!['['];
            let close = vec![']'];
            assert(open@ =~= seq!['[']);
            assert(close@ =~= seq![']']);
            return match split_once_exec(&ls[i], &open) {
                Some((_, rest)) => match split_once_exec(&rest, &close) {
                    Some((b, _)) => Some(string_of(&b)),
                    None => None,
                },
                None => None,
            };
        }
        i += 1;
    }
    assert(views(ls@).skip(ls@.len() as int) =~= Seq::<Seq<char>>::empty());
    None
}

// ---------------------------------------------------------------------------
// Bookmarks
// ---------------------------------------------------------------------------

/// An optional text given to `nb`: the flag and the trimmed text, when the
/// text is given and not blank.
pub open spec fn optional_flag(flag: Seq<char>, o: Option<Seq<char>>) -> Seq<Seq<char>> {
    match o {
        Some(t) => if trim(t).len() > 0 {
            seq![flag, trim(t)]
        } else {
            seq![]
        },
        None => seq![],
    }
}

/// The arguments of `nb bookmark`: the target (`notebook:` or
/// `notebook:folder/`), the url, `--no-request` (the page is never
/// fetched), then the title, the tags joined by commas, and the comment,
/// each only when given and not blank.
pub open spec fn bookmark_args_spec(
    notebook: Seq<char>,
    folder: Seq<char>,
    url: Seq<char>,
    title: Option<Seq<char>>,
    tags: Seq<Seq<char>>,
    comment: Option<Seq<char>>,
) -> Seq<Seq<char>> {
    let target = if folder.len() == 0 {
        notebook + seq![':']
    } else {
        notebook + seq![':'] + folder + seq!['/']
    };
    let tag_args = if tags.len() > 0 {
        seq!["--tags"@, join(tags, seq![','])]
    } else {
        seq![]
    };
    seq!["bookmark"@, target, url, "--no-request"@] + optional_flag("--title"@, title) + tag_args + optional_flag(
        "--comment"@,
        comment,
    )
}

fn push_flag(args: &mut Vec<String>, flag: &str, o: Option<&str>)
    ensures
        str_views(final(args)@) == str_views(old(args)@) + optional_flag(
            flag@,
            match o {
                Some(t) => Some(t@),
                None => None,
            },
        ),
{
    let ghost before = str_views(args@);
    match o {
        Some(t) => {
            let tt = trim_exec(&chars_of(t));
            if tt.len() > 0 {
                args.push(string_of(&chars_of(flag)));
                args.push(string_of(&tt));
                assert(str_views(args@) =~= before + seq![flag@, tt@]);
            } else {
                assert(str_views(args@) =~= before + Seq::<Seq<char>>::empty());
            }
        },
        None => {
            assert(str_views(args@) =~= before + Seq::<Seq<char>>::empty());
        },
    }
}

/// The arguments of the `nb bookmark` command that bookmarks `url` in
/// `folder` of `notebook`.
pub fn bookmark_args(
    notebook: &str,
    folder: &str,
    url: &str,
    title: Option<&str>,
    tags: &Vec<String>,
    comment: Option<&str>,
) -> (r: Vec<String>)
    ensures
        str_views(r@) == bookmark_args_spec(
            notebook@,
            folder@,
            url@,
            match title {
                Some(t) => Some(t@),
                None => None,
            },
            str_views(tags@),
            match comment {
                Some(c) => Some(c@),
                None => None,
            },
        ),
{
    let f = chars_of(folder);
    let mut target = chars_of(notebook);
    target.push(':');
    if f.len() > 0 {
        append(&mut target, &f);
        target.push('/');
        assert(target@ =~= notebook@ + seq![':'] + folder@ + seq!['/']);
    } else {
        assert(target@ =~= notebook@ + seq![':']);
    }
    let mut args: Vec<String> = Vec::new();
    args.push(string_of(&chars_of("bookmark")));
    args.push(string_of(&target));
    args.push(string_of(&chars_of(url)));
    args.push(string_of(&chars_of("--no-request")));
    let ghost head = str_views(args@);
    assert(head =~= seq!["bookmark"@, target@, url@, "--no-request"@]);
    push_flag(&mut args, "--title", title);
    let ghost with_title = str_views(args@);
    if tags.len() > 0 {
        let comma = vec![','];
        assert(comma@ =~= seq![',']);
        let joined = join_exec(&char_lines(tags), &comma);
        args.push(string_of(&chars_of("--tags")));
        args.push(string_of(&joined));
        assert(str_views(args@) =~= with_title + seq!["--tags"@, joined@]);
    } else {
        assert(str_views(args@) =~= with_title + Seq::<Seq<char>>::empty());
    }
    let ghost with_tags = str_views(args@);
    push_flag(&mut args, "--comment", comment);
    let ghost tflag = optional_flag(
        "--title"@,
        match title {
            Some(t) => Some(t@),
            None => None,
        },
    );
    let ghost cflag = optional_flag(
        "--comment"@,
        match comment {
            Some(c) => Some(c@),
            None => None,
        },
    );
    let ghost tag_args = if tags@.len() > 0 {
        seq!["--tags"@, join(str_views(tags@), seq![','])]
    } else {
        Seq::<Seq<char>>::empty()
    };
    assert(with_title == head + tflag);
    assert(with_tags == with_title + tag_args);
    assert(str_views(args@) == with_tags + cflag);
    assert(str_views(args@) =~= seq!["bookmark"@, target@, url@, "--no-request"@] + tflag + tag_args + cflag);
    assert(str_views(args@) =~= bookmark_args_spec(
        notebook@,
        folder@,
        url@,
        match title {
            Some(t) => Some(t@),
            None => None,
        },
        str_views(tags@),
        match comment {
            Some(c) => Some(c@),
            None => None,
        },
    ));
    args
}

// ---------------------------------------------------------------------------
// Moving and restoring
// ---------------------------------------------------------------------------

/// How `nb` refers to item `id` of `folder` within its notebook: the id
/// alone at the root, `folder/id` inside a folder.
pub fn folder_ref(folder: &str, id: u64) -> (r: String)
    ensures
        r@ == ref_text(folder@, id as nat),
{
    let mut v = chars_of(folder);
    if v.len() > 0 {
        v.push('/');
    }
    append(&mut v, &u64_digits(id));
    string_of(&v)
}

/// The move a listing line of a folder being restored asks for, as (the
/// item's path within its notebook, destination): a note line
/// `[ref] Title` moves `ref` (its part after the last `:`) to
/// `dest:Title`; folder lines and other lines ask for none.
pub open spec fn restore_move(line: Seq<char>, dest: Seq<char>) -> Option<(Seq<char>, Seq<char>)> {
    if contains(line, seq![folder_icon()]) {
        None
    } else {
        match strip_prefix(trim(line), seq!['[']) {
            None => None,
            Some(rest) => match split_once(rest, seq![']', ' ']) {
                None => None,
                Some((r, title)) => {
                    let path = match rsplit_once(r, seq![':']) {
                        Some((_, p)) => p,
                        None => r,
                    };
                    Some((path, dest + seq![':'] + trim(title)))
                },
            },
        }
    }
}

/// The moves the lines `ls` ask for, in order.
pub open spec fn restore_moves_spec(ls: Seq<Seq<char>>, dest: Seq<char>) -> Seq<(Seq<char>, Seq<char>)>
    decreases ls.len(),
{
    if ls.len() == 0 {
        seq![]
    } else {
        match restore_move(ls.last(), dest) {
            Some(m) => restore_moves_spec(ls.drop_last(), dest).push(m),
            None => restore_moves_spec(ls.drop_last(), dest),
        }
    }
}

/// A move as plain values.
pub open spec fn move_view(m: (String, String)) -> (Seq<char>, Seq<char>) {
    (m.0@, m.1@)
}

/// The moves that restore the notes of a folder to the notebook `dest`,
/// read from the folder's `nb list` output: each note, by its path, to the
/// root of `dest` under its title.
#[verifier::rlimit(30)]
pub fn restore_moves(out: &str, dest_notebook: &str) -> (r: Vec<(String, String)>)
    ensures
        r@.map_values(|m: (String, String)| move_view(m)) == restore_moves_spec(lines(out@), dest_notebook@),
{
    let ls = lines_exec(&chars_of(out));
    let ghost lv = views(ls@);
    let icon = vec!['\u{1F4C2}'];
    let open = vec!['['];
    let close = vec![']', ' '];
    let colon = vec![':'];
    assert(icon@ =~= seq![folder_icon()]);
    assert(open@ =~= seq!['[']);
    assert(close@ =~= seq![']', ' ']);
    assert(colon@ =~= seq![':']);
    let mut moves: Vec<(String, String)> = Vec::new();
    let mut i: usize = 0;
    while i < ls.len()
        invariant
            i <= ls@.len(),
            lv == views(ls@),
            icon@ == seq![folder_icon()],
            open@ == seq!['['],
            close@ == seq![']', ' '],
            colon@ == seq![':'],
            moves@.map_values(|m: (String, String)| move_view(m)) == restore_moves_spec(
                lv.take(i as int),
                dest_notebook@,
            ),
        decreases ls@.len() - i,
    {
        let ghost pre = lv.take(i as int);
        let ghost post = lv.take(i + 1);
        assert(post.drop_last() =~= pre);
        assert(post.last() == ls@[i as int]@);
        let ghost old_moves = moves@;
        if find_exec(&ls[i], &icon).is_none() {
            match strip_prefix_exec(&trim_exec(&ls[i]), &open) {
                None => {},
                Some(rest) => match split_once_exec(&rest, &close) {
                    None => {},
                    Some((r, title)) => {
                        let path = match rsplit_once_exec(&r, &colon) {
                            Some((_, p)) => p,
                            None => r,
                        };
                        let mut dest = chars_of(dest_notebook);
                        dest.push(':');
                        append(&mut dest, &trim_exec(&title));
                        assert(dest@ =~= dest_notebook@ + seq![':'] + trim(title@));
                        let m = (string_of(&path), string_of(&dest));
                        assert(restore_move(ls@[i as int]@, dest_notebook@) == Some(move_view(m)));
                        moves.push(m);
                        assert(moves@.map_values(|m: (String, String)| move_view(m)) =~= old_moves.map_values(
                            |m: (String, String)| move_view(m),
                        ).push(move_view(m)));
                    },
                },
            }
        }
        i += 1;
    }
    assert(lv.take(ls@.len() as int) =~= lv);
    moves
}

// ---------------------------------------------------------------------------
// Search
// ---------------------------------------------------------------------------

/// The notes the lines `ls` of `nb search --all` name, as (id, notebook,
/// folder), each once, in the order they first appear; the notebook of a
/// line without one is `home`.
pub open spec fn search_hits_spec(ls: Seq<Seq<char>>) -> Seq<(u64, Seq<char>, Seq<char>)>
    decreases ls.len(),
{
    if ls.len() == 0 {
        seq![]
    } else {
        let prev = search_hits_spec(ls.drop_last());
        match list_line(ls.last(), "home"@) {
            Some((id, nb, folder, _)) => if prev.contains((id, nb, folder)) {
                prev
            } else {
                prev.push((id, nb, folder))
            },
            None => prev,
        }
    }
}

/// A search hit as plain values.
pub open spec fn hit_view(h: (u64, String, String)) -> (u64, Seq<char>, Seq<char>) {
    (h.0, h.1@, h.2@)
}

/// Whether `hits` already holds the note (id, notebook, folder).
fn has_hit(hits: &Vec<(u64, String, String)>, id: u64, nb: &str, folder: &str) -> (r: bool)
    ensures
        r == hits@.map_values(|h: (u64, String, String)| hit_view(h)).contains((id, nb@, folder@)),
{
    let ghost hv = hits@.map_values(|h: (u64, String, String)| hit_view(h));
    let nbv = chars_of(nb);
    let fv = chars_of(folder);
    let mut j: usize = 0;
    while j < hits.len()
        invariant
            j <= hits@.len(),
            hv == hits@.map_values(|h: (u64, String, String)| hit_view(h)),
            nbv@ == nb@,
            fv@ == folder@,
            forall|k: int| 0 <= k < j ==> hv[k] != (id, nb@, folder@),
        decreases hits@.len() - j,
    {
        let h = &hits[j];
        if h.0 == id && crate::text::eq_chars(&chars_of(h.1.as_str()), &nbv) && crate::text::eq_chars(
            &chars_of(h.2.as_str()),
            &fv,
        ) {
            assert(hv[j as int] == (id, nb@, folder@));
            return true;
        }
        j += 1;
    }
    false
}

/// The notes the output of `nb search --all` names, as (id, notebook,
/// folder), each once, in the order they first appear.
#[verifier::rlimit(30)]
pub fn search_hits(out: &str) -> (r: Vec<(u64, String, String)>)
    ensures
        r@.map_values(|h: (u64, String, String)| hit_view(h)) == search_hits_spec(lines(out@)),
{
    let ls = lines_exec(&chars_of(out));
    let ghost lv = views(ls@);
    let mut hits: Vec<(u64, String, String)> = Vec::new();
    let mut i: usize = 0;
    while i < ls.len()
        invariant
            i <= ls@.len(),
            lv == views(ls@),
            hits@.map_values(|h: (u64, String, String)| hit_view(h)) == search_hits_spec(lv.take(i as int)),
        decreases ls@.len() - i,
    {
        let ghost pre = lv.take(i as int);
        let ghost post = lv.take(i + 1);
        assert(post.drop_last() =~= pre);
        assert(post.last() == ls@[i as int]@);
        let line = string_of(&ls[i]);
        match parse_list_line(line.as_str(), "home") {
            None => {},
            Some((id, nb, folder, _title)) => {
                if !has_hit(&hits, id, nb.as_str(), folder.as_str()) {
                    let ghost old_hits = hits@;
                    let h = (id, nb, folder);
                    let ghost hv = hit_view(h);
                    hits.push(h);
                    assert(hits@.map_values(|h: (u64, String, String)| hit_view(h)) =~= old_hits.map_values(
                        |h: (u64, String, String)| hit_view(h),
                    ).push(hv));
                }
            },
        }
        i += 1;
    }
    assert(lv.take(ls@.len() as int) =~= lv);
    hits
}

} // verus!
