//! Project naming: the slug, tag and folder a project's name gives it.
use vstd::prelude::*;
use crate::text::{chars_of, string_of, trim_exec, trim, append, strip_prefix, strip_prefix_exec, eq_ignore_ascii_case, eq_ignore_ascii_case_exec, eq_chars, opt_str_view};
use crate::lists::ListsLibError;
use crate::notes::requests::NotesLibError;
use crate::db::TodoLibError;

verus! {

pub open spec fn is_ascii_alnum(c: char) -> bool {
    ('0' <= c && c <= '9') || ('a' <= c && c <= 'z') || ('A' <= c && c <= 'Z')
}

/// `char::to_ascii_lowercase`.
pub open spec fn ascii_lower(c: char) -> char {
    if 'A' <= c && c <= 'Z' {
        ((c as u32) + 32) as char
    } else {
        c
    }
}

/// The name with every ASCII letter or digit lowercased and every run of
/// other characters replaced by one `_`; the flag says whether it ends in
/// such a `_`.
pub open spec fn collapse(s: Seq<char>) -> (Seq<char>, bool)
    decreases s.len(),
{
    if s.len() == 0 {
        (seq![], false)
    } else {
        let (acc, dash) = collapse(s.drop_last());
        let c = s.last();
        if is_ascii_alnum(c) {
            (acc.push(ascii_lower(c)), false)
        } else if !dash {
            (acc.push('_'), true)
        } else {
            (acc, dash)
        }
    }
}

/// `s` without leading `_`.
pub open spec fn trim_start_underscores(s: Seq<char>) -> Seq<char>
    decreases s.len(),
{
    if s.len() > 0 && s[0] == '_' {
        trim_start_underscores(s.drop_first())
    } else {
        s
    }
}

/// `s` without trailing `_`.
pub open spec fn trim_end_underscores(s: Seq<char>) -> Seq<char>
    decreases s.len(),
{
    if s.len() > 0 && s.last() == '_' {
        trim_end_underscores(s.drop_last())
    } else {
        s
    }
}

/// The slug of a project name: lowercased, each run of characters other
/// than ASCII letters and digits collapsed into a single `_`, and leading
/// and trailing `_` removed.
pub open spec fn slug_of(name: Seq<char>) -> Seq<char> {
    trim_end_underscores(trim_start_underscores(collapse(name).0))
}

/// A slug alphabet character: lowercase ASCII letter, digit or `_`.
pub open spec fn is_slug_char(c: char) -> bool {
    ('0' <= c && c <= '9') || ('a' <= c && c <= 'z') || c == '_'
}

/// Lowercases, collapses runs of non-alphanumeric characters into a single
/// `_`, and trims leading/trailing `_`. Used to derive a project's `slug`
/// (also its nb todo-folder name and filesystem directory name) from its
/// display name.
#[verifier::rlimit(30)]
pub fn slugify(name: &str) -> (r: String)
    ensures
        r@ == slug_of(name@),
{
    let s = chars_of(name);
    let mut slug: Vec<char> = Vec::new();
    let mut last_was_dash = false;
    let mut i: usize = 0;
    while i < s.len()
        invariant
            i <= s@.len(),
            s@ == name@,
            (slug@, last_was_dash) == collapse(s@.take(i as int)),
        decreases s@.len() - i,
    {
        let c = s[i];
        proof {
            assert(s@.take(i + 1).drop_last() =~= s@.take(i as int));
            assert(s@.take(i + 1).last() == c);
        }
        if ('0' <= c && c <= '9') || ('a' <= c && c <= 'z') || ('A' <= c && c <= 'Z') {
            let lower = if 'A' <= c && c <= 'Z' {
                ((c as u8) + 32) as char
            } else {
                c
            };
            slug.push(lower);
            last_was_dash = false;
        } else if !last_was_dash {
            slug.push('_');
            last_was_dash = true;
        }
        i += 1;
    }
    assert(s@.take(s@.len() as int) =~= s@);
    // trim leading and trailing `_`
    let mut a: usize = 0;
    assert(slug@.skip(0) =~= slug@);
    while a < slug.len() && slug[a] == '_'
        invariant
            a <= slug@.len(),
            trim_start_underscores(slug@) == trim_start_underscores(slug@.skip(a as int)),
        decreases slug@.len() - a,
    {
        assert(slug@.skip(a as int).drop_first() =~= slug@.skip(a + 1));
        a += 1;
    }
    let ghost head = slug@.skip(a as int);
    assert(trim_start_underscores(head) == head);
    let mut b: usize = slug.len();
    while b > a && slug[b - 1] == '_'
        invariant
            a <= b <= slug@.len(),
            trim_end_underscores(head) == trim_end_underscores(slug@.subrange(a as int, b as int)),
            head == slug@.skip(a as int),
        decreases b,
    {
        assert(slug@.subrange(a as int, b as int).drop_last() =~= slug@.subrange(
            a as int,
            b - 1,
        ));
        b -= 1;
    }
    proof {
        if b == slug@.len() {
            assert(slug@.subrange(a as int, b as int) =~= head);
        }
    }
    let mut out: Vec<char> = Vec::new();
    let mut k = a;
    while k < b
        invariant
            a <= k <= b <= slug@.len(),
            out@ == slug@.subrange(a as int, k as int),
        decreases b - k,
    {
        out.push(slug[k]);
        k += 1;
        assert(out@ =~= slug@.subrange(a as int, k as int));
    }
    string_of(&out)
}

// ---------------------------------------------------------------------------
// Laws
// ---------------------------------------------------------------------------

proof fn lemma_collapse_chars(s: Seq<char>)
    ensures
        forall|k: int| 0 <= k < collapse(s).0.len() ==> is_slug_char(#[trigger] collapse(s).0[k]),
        collapse(s).1 <==> (collapse(s).0.len() > 0 && collapse(s).0.last() == '_'),
        forall|k: int|
            0 <= k < collapse(s).0.len() - 1 ==> !(#[trigger] collapse(s).0[k] == '_' && collapse(
                s,
            ).0[k + 1] == '_'),
    decreases s.len(),
{
    if s.len() > 0 {
        lemma_collapse_chars(s.drop_last());
        let (acc, dash) = collapse(s.drop_last());
        let c = s.last();
        if is_ascii_alnum(c) {
            let l = ascii_lower(c);
            assert(is_slug_char(l)) by {
                if 'A' <= c && c <= 'Z' {
                    assert((c as u32) + 32 >= 'a' as u32);
                }
            }
            assert forall|k: int| 0 <= k < acc.push(l).len() implies is_slug_char(#[trigger] acc.push(l)[k]) by {
                if k < acc.len() {
                    assert(acc.push(l)[k] == acc[k]);
                }
            }
        }
    }
}

proof fn lemma_trim_start_underscores(s: Seq<char>)
    ensures
        exists|m: int| 0 <= m <= s.len() && trim_start_underscores(s) == #[trigger] s.skip(m),
        trim_start_underscores(s).len() > 0 ==> trim_start_underscores(s)[0] != '_',
    decreases s.len(),
{
    if s.len() > 0 && s[0] == '_' {
        lemma_trim_start_underscores(s.drop_first());
        let m = choose|m: int| 0 <= m <= s.drop_first().len() && trim_start_underscores(s.drop_first()) == #[trigger] s.drop_first().skip(m);
        assert(s.drop_first().skip(m) =~= s.skip(m + 1));
    } else {
        assert(s.skip(0) =~= s);
    }
}

proof fn lemma_trim_end_underscores(s: Seq<char>)
    ensures
        exists|m: int| 0 <= m <= s.len() && trim_end_underscores(s) == #[trigger] s.take(m),
        trim_end_underscores(s).len() > 0 ==> trim_end_underscores(s).last() != '_',
    decreases s.len(),
{
    if s.len() > 0 && s.last() == '_' {
        lemma_trim_end_underscores(s.drop_last());
        let m = choose|m: int| 0 <= m <= s.drop_last().len() && trim_end_underscores(s.drop_last()) == #[trigger] s.drop_last().take(m);
        assert(s.drop_last().take(m) =~= s.take(m));
    } else {
        assert(s.take(s.len() as int) =~= s);
    }
}

/// A slug holds only lowercase ASCII letters, digits and `_`, never starts
/// or ends with `_`, and never holds two `_` in a row.
pub proof fn lemma_slug_shape(name: Seq<char>)
    ensures
        forall|k: int| 0 <= k < slug_of(name).len() ==> is_slug_char(#[trigger] slug_of(name)[k]),
        slug_of(name).len() > 0 ==> slug_of(name)[0] != '_' && slug_of(name).last() != '_',
        forall|k: int|
            0 <= k < slug_of(name).len() - 1 ==> !(#[trigger] slug_of(name)[k] == '_' && slug_of(
                name,
            )[k + 1] == '_'),
{
    let c = collapse(name).0;
    lemma_collapse_chars(name);
    lemma_trim_start_underscores(c);
    let t = trim_start_underscores(c);
    let m = choose|m: int| 0 <= m <= c.len() && t == #[trigger] c.skip(m);
    lemma_trim_end_underscores(t);
    let u = trim_end_underscores(t);
    let n = choose|n: int| 0 <= n <= t.len() && u == #[trigger] t.take(n);
    assert forall|k: int| 0 <= k < u.len() implies u[k] == c[m + k] by {
        assert(u[k] == t[k]);
    }
    assert forall|k: int| 0 <= k < u.len() implies is_slug_char(#[trigger] u[k]) by {
        assert(u[k] == c[m + k]);
    }
    assert forall|k: int| 0 <= k < u.len() - 1 implies !(#[trigger] u[k] == '_' && u[k + 1] == '_') by {
        assert(u[k] == c[m + k]);
        assert(u[k + 1] == c[m + k + 1]);
    }
    if u.len() > 0 {
        assert(u[0] == t[0]);
    }
}

/// Collapsing a text already in slug form changes nothing.
proof fn lemma_collapse_of_slug(s: Seq<char>)
    requires
        forall|k: int| 0 <= k < s.len() ==> is_slug_char(#[trigger] s[k]),
        forall|k: int| 0 <= k < s.len() - 1 ==> !(#[trigger] s[k] == '_' && s[k + 1] == '_'),
    ensures
        collapse(s).0 == s,
        collapse(s).1 == (s.len() > 0 && s.last() == '_'),
    decreases s.len(),
{
    if s.len() > 0 {
        let t = s.drop_last();
        assert forall|k: int| 0 <= k < t.len() implies is_slug_char(#[trigger] t[k]) by {
            assert(t[k] == s[k]);
        }
        assert forall|k: int| 0 <= k < t.len() - 1 implies !(#[trigger] t[k] == '_' && t[k + 1] == '_') by {
            assert(t[k] == s[k] && t[k + 1] == s[k + 1]);
        }
        lemma_collapse_of_slug(t);
        let c = s.last();
        assert(is_slug_char(s[s.len() - 1]));
        if t.len() > 0 && c == '_' {
            assert(!(s[s.len() - 2] == '_' && s[s.len() - 1] == '_'));
        }
        assert(t.push(c) =~= s);
    }
}

/// A slug is its own slug: slugifying twice gives what slugifying once
/// gives.
pub proof fn lemma_slug_idempotent(name: Seq<char>)
    ensures
        slug_of(slug_of(name)) == slug_of(name),
{
    let s = slug_of(name);
    lemma_slug_shape(name);
    lemma_collapse_of_slug(s);
    assert(trim_start_underscores(s) == s);
    assert(trim_end_underscores(s) == s);
}

/// The ASCII letters and digits of `s`, lowercased, in order.
pub open spec fn alnum_lower(s: Seq<char>) -> Seq<char>
    decreases s.len(),
{
    if s.len() == 0 {
        seq![]
    } else if is_ascii_alnum(s.last()) {
        alnum_lower(s.drop_last()).push(ascii_lower(s.last()))
    } else {
        alnum_lower(s.drop_last())
    }
}

/// `s` without its `_`.
pub open spec fn without_underscores(s: Seq<char>) -> Seq<char>
    decreases s.len(),
{
    if s.len() == 0 {
        seq![]
    } else if s.last() != '_' {
        without_underscores(s.drop_last()).push(s.last())
    } else {
        without_underscores(s.drop_last())
    }
}

/// Collapsing keeps the letters and digits, lowercased, and adds only `_`.
proof fn lemma_collapse_keeps(s: Seq<char>)
    ensures
        without_underscores(collapse(s).0) == alnum_lower(s),
    decreases s.len(),
{
    if s.len() > 0 {
        lemma_collapse_keeps(s.drop_last());
        let (acc, dash) = collapse(s.drop_last());
        let c = s.last();
        if is_ascii_alnum(c) {
            let l = ascii_lower(c);
            assert(l != '_') by {
                if 'A' <= c && c <= 'Z' {
                    assert((c as u32) + 32 >= 'a' as u32);
                }
            }
            assert(acc.push(l).drop_last() =~= acc);
        } else if !dash {
            assert(acc.push('_').drop_last() =~= acc);
        }
    }
}

/// A leading `_` adds nothing once the `_` are dropped.
proof fn lemma_without_leading_underscore(s: Seq<char>)
    requires
        s.len() > 0,
        s[0] == '_',
    ensures
        without_underscores(s) == without_underscores(s.drop_first()),
    decreases s.len(),
{
    if s.len() == 1 {
        assert(s.drop_last() =~= Seq::<char>::empty());
        assert(s.drop_first() =~= Seq::<char>::empty());
    } else {
        let p = s.drop_last();
        lemma_without_leading_underscore(p);
        assert(p.drop_first() =~= s.drop_first().drop_last());
        assert(s.drop_first().last() == s.last());
    }
}

/// Trimming `_` from either end keeps the text without its `_`.
proof fn lemma_trims_keep(s: Seq<char>)
    ensures
        without_underscores(trim_start_underscores(s)) == without_underscores(s),
        without_underscores(trim_end_underscores(s)) == without_underscores(s),
    decreases s.len(),
{
    if s.len() > 0 {
        if s[0] == '_' {
            lemma_trims_keep(s.drop_first());
            lemma_without_leading_underscore(s);
        }
        lemma_trims_keep(s.drop_last());
    }
}

/// A text with a character other than `_` keeps one once the `_` are
/// dropped.
proof fn lemma_without_underscores_nonempty(s: Seq<char>, k: int)
    requires
        0 <= k < s.len(),
        s[k] != '_',
    ensures
        without_underscores(s).len() > 0,
    decreases s.len(),
{
    if s.last() == '_' {
        lemma_without_underscores_nonempty(s.drop_last(), k);
    }
}

/// The slug keeps exactly the name's ASCII letters and digits, lowercased
/// and in order, adding only `_` between them; it is empty exactly when the
/// name has no ASCII letter or digit.
pub proof fn lemma_slug_keeps_alnum(name: Seq<char>)
    ensures
        without_underscores(slug_of(name)) == alnum_lower(name),
        slug_of(name).len() == 0 <==> alnum_lower(name).len() == 0,
{
    let c = collapse(name).0;
    lemma_collapse_keeps(name);
    lemma_trims_keep(c);
    lemma_trims_keep(trim_start_underscores(c));
    lemma_slug_shape(name);
    if slug_of(name).len() > 0 {
        lemma_without_underscores_nonempty(slug_of(name), 0);
    }
}

// ---------------------------------------------------------------------------
// Creating a project
// ---------------------------------------------------------------------------

/// Errors of the project subsystem.
#[derive(Debug)]
pub enum ProjectLibError {
    CannotInitialize(String),
    NotFound(i64),
    /// A project of that name (or slug) exists already.
    DuplicateName(String),
    /// A request was refused; the message says why.
    InvalidInput(String),
    ArchiveFailed(String),
    /// A database error, by its message.
    Db(String),
    Lists(ListsLibError),
    Notes(NotesLibError),
    Todo(TodoLibError),
    Io(std::io::Error),
    Unknown,
}

/// A specialized `Result` type for project operations.
pub type ProjectLibResult<T = ()> = Result<T, ProjectLibError>;

/// The names a new project is created under.
pub struct NewProject {
    /// The trimmed display name.
    pub name: String,
    pub slug: String,
    /// `project-<slug>`: the tag of the project's notes and log entries.
    pub tag: String,
}

/// The tag of a project's notes and log entries.
pub open spec fn project_tag(slug: Seq<char>) -> Seq<char> {
    "project-"@ + slug
}

/// An existing project, by name and slug, clashes with a new one of that
/// trimmed name and slug: the names are equal ignoring ASCII case, or the
/// slugs are equal.
pub open spec fn clashes(existing: (Seq<char>, Seq<char>), name: Seq<char>, slug: Seq<char>) -> bool {
    eq_ignore_ascii_case(existing.0, name) || existing.1 == slug
}

/// The plain values of (name, slug) pairs.
pub open spec fn pair_views(v: Seq<(String, String)>) -> Seq<(Seq<char>, Seq<char>)> {
    v.map_values(|p: (String, String)| (p.0@, p.1@))
}

/// The refusal of a request, by its message.
pub open spec fn invalid(e: ProjectLibError, message: Seq<char>) -> bool {
    e matches ProjectLibError::InvalidInput(m) && m@ == message
}

/// Checks a new project's name against the existing projects' names and
/// slugs, and derives its slug and tag. The name is trimmed; a blank name
/// is refused (`name is required`), as is one with no ASCII letter or digit
/// (`name must contain at least one alphanumeric character`), and one that
/// clashes with an existing project (`DuplicateName`, with the trimmed
/// name).
#[verifier::rlimit(30)]
pub fn plan_project(name: &str, existing: &Vec<(String, String)>) -> (r: ProjectLibResult<NewProject>)
    ensures
        ({
            let n = trim(name@);
            let slug = slug_of(n);
            let dup = exists|i: int| 0 <= i < existing@.len() && clashes(pair_views(existing@)[i], n, slug);
            &&& r is Ok <==> (n.len() > 0 && slug.len() > 0 && !dup)
            &&& n.len() == 0 ==> (r matches Err(e) && invalid(e, "name is required"@))
            &&& (n.len() > 0 && slug.len() == 0) ==> (r matches Err(e) && invalid(
                e,
                "name must contain at least one alphanumeric character"@,
            ))
            &&& (n.len() > 0 && slug.len() > 0 && dup) ==> (r matches Err(ProjectLibError::DuplicateName(m)) && m@
                == n)
            &&& r matches Ok(p) ==> p.name@ == n && p.slug@ == slug && p.tag@ == project_tag(slug)
        }),
{
    let n = trim_exec(&chars_of(name));
    if n.len() == 0 {
        return Err(ProjectLibError::InvalidInput(string_of(&chars_of("name is required"))));
    }
    let name_text = string_of(&n);
    let slug_text = slugify(name_text.as_str());
    let slug = chars_of(slug_text.as_str());
    if slug.len() == 0 {
        return Err(
            ProjectLibError::InvalidInput(
                string_of(&chars_of("name must contain at least one alphanumeric character")),
            ),
        );
    }
    let mut i: usize = 0;
    while i < existing.len()
        invariant
            i <= existing@.len(),
            n@ == trim(name@),
            slug@ == slug_of(n@),
            n@.len() > 0,
            slug@.len() > 0,
            name_text@ == n@,
            slug_text@ == slug@,
            forall|j: int| 0 <= j < i ==> !clashes(#[trigger] pair_views(existing@)[j], n@, slug@),
        decreases existing@.len() - i,
    {
        let other_name = chars_of(existing[i].0.as_str());
        let other_slug = chars_of(existing[i].1.as_str());
        assert(pair_views(existing@)[i as int] == (existing@[i as int].0@, existing@[i as int].1@));
        if eq_ignore_ascii_case_exec(&other_name, &n) || eq_chars(&other_slug, &slug) {
            assert(clashes(pair_views(existing@)[i as int], n@, slug@));
            return Err(ProjectLibError::DuplicateName(string_of(&n)));
        }
        i += 1;
    }
    let mut tag = chars_of("project-");
    append(&mut tag, &slug);
    Ok(NewProject { name: name_text, slug: slug_text, tag: string_of(&tag) })
}

/// `s` without its trailing `c`s.
pub open spec fn trim_end_char(s: Seq<char>, c: char) -> Seq<char>
    decreases s.len(),
{
    if s.len() > 0 && s.last() == c {
        trim_end_char(s.drop_last(), c)
    } else {
        s
    }
}

/// A path with a leading `~/` resolved against the home directory `home`
/// (its trailing `/`s dropped); any other path, or one when the home
/// directory is unknown, as it is.
pub open spec fn expanded(path: Seq<char>, home: Option<Seq<char>>) -> Seq<char> {
    match (strip_prefix(path, "~/"@), home) {
        (Some(rest), Some(h)) => trim_end_char(h, '/') + "/"@ + rest,
        _ => path,
    }
}

/// `s` without its trailing `c`s.
fn trim_end_char_exec(s: &[char], c: char) -> (r: Vec<char>)
    ensures
        r@ == trim_end_char(s@, c),
{
    let mut n = s.len();
    assert(s@.take(n as int) =~= s@);
    while n > 0 && s[n - 1] == c
        invariant
            n <= s@.len(),
            trim_end_char(s@, c) == trim_end_char(s@.take(n as int), c),
        decreases n,
    {
        assert(s@.take(n as int).drop_last() =~= s@.take(n - 1));
        n -= 1;
    }
    let r = crate::text::subvec(s, 0, n);
    assert(r@ =~= s@.take(n as int));
    r
}

/// Expands a leading `~/` to the home directory `home`; other paths, and
/// any path when the home directory is unknown, are left as they are.
pub fn expand_home(path: &str, home: Option<&str>) -> (r: String)
    ensures
        r@ == expanded(path@, match home {
            Some(h) => Some(h@),
            None => None,
        }),
{
    let p = chars_of(path);
    let pre = chars_of("~/");
    match (strip_prefix_exec(&p, &pre), home) {
        (Some(rest), Some(h)) => {
            let mut v = trim_end_char_exec(&chars_of(h), '/');
            v.push('/');
            append(&mut v, &rest);
            proof {
                reveal_strlit("/");
            }
            string_of(&v)
        },
        _ => string_of(&p),
    }
}

/// The folder of a project: the expanded base directory, its trailing
/// `/`s dropped, then `/` and the slug.
pub open spec fn project_path(base_dir: Seq<char>, home: Option<Seq<char>>, slug: Seq<char>) -> Seq<char> {
    trim_end_char(expanded(base_dir, home), '/') + "/"@ + slug
}

/// The folder a project of slug `slug` gets under the base directory.
pub fn project_dir(base_dir: &str, home: Option<&str>, slug: &str) -> (r: String)
    ensures
        r@ == project_path(base_dir@, match home {
            Some(h) => Some(h@),
            None => None,
        }, slug@),
{
    let base = expand_home(base_dir, home);
    let mut v = trim_end_char_exec(&chars_of(base.as_str()), '/');
    v.push('/');
    append(&mut v, &chars_of(slug));
    proof {
        reveal_strlit("/");
    }
    string_of(&v)
}

/// Where archived projects are kept: `.archive` under the expanded base
/// directory (its trailing `/`s dropped).
pub open spec fn archive_path(base_dir: Seq<char>, home: Option<Seq<char>>) -> Seq<char> {
    trim_end_char(expanded(base_dir, home), '/') + "/.archive"@
}

/// The folder archived projects are kept in.
pub fn archive_dir(base_dir: &str, home: Option<&str>) -> (r: String)
    ensures
        r@ == archive_path(base_dir@, match home {
            Some(h) => Some(h@),
            None => None,
        }),
{
    let base = expand_home(base_dir, home);
    let mut v = trim_end_char_exec(&chars_of(base.as_str()), '/');
    append(&mut v, &chars_of("/.archive"));
    string_of(&v)
}

/// Where an archived project's note goes in the archive notebook:
/// `<slug>/<title>`.
pub fn archived_note_path(slug: &str, title: &str) -> (r: String)
    ensures
        r@ == slug@ + "/"@ + title@,
{
    let mut v = chars_of(slug);
    append(&mut v, &chars_of("/"));
    append(&mut v, &chars_of(title));
    string_of(&v)
}

/// The name of an archived project's zip file: `<slug>.zip`.
pub fn archive_zip_name(slug: &str) -> (r: String)
    ensures
        r@ == slug@ + ".zip"@,
{
    let mut v = chars_of(slug);
    append(&mut v, &chars_of(".zip"));
    string_of(&v)
}

// ---------------------------------------------------------------------------
// Lifecycle
// ---------------------------------------------------------------------------

/// A project's archive stamp after archiving it at `now`: a project archived
/// already keeps its stamp; an active one is stamped `now`.
pub open spec fn archived_after(archived_at: Option<Seq<char>>, now: Seq<char>) -> Option<Seq<char>> {
    match archived_at {
        Some(t) => Some(t),
        None => Some(now),
    }
}

/// Archiving a project at `now`: whether the archive work (moving its notes
/// and todos, zipping its folder) runs, which it does only for an active
/// project, and the project's archive stamp afterwards.
pub fn archive_step(archived_at: Option<String>, now: String) -> (r: (bool, Option<String>))
    ensures
        r.0 == (archived_at is None),
        opt_str_view(r.1) == archived_after(opt_str_view(archived_at), now@),
{
    match archived_at {
        Some(t) => (false, Some(t)),
        None => (true, Some(now)),
    }
}

/// Whether a project with this archive stamp may be deleted: only an
/// archived one; an active one is refused (`project must be archived before
/// it can be permanently deleted`).
pub fn check_deletable(archived_at: &Option<String>) -> (r: ProjectLibResult<()>)
    ensures
        r is Ok <==> archived_at is Some,
        r matches Err(e) ==> invalid(e, "project must be archived before it can be permanently deleted"@),
{
    match archived_at {
        Some(_) => Ok(()),
        None => Err(
            ProjectLibError::InvalidInput(
                string_of(&chars_of("project must be archived before it can be permanently deleted")),
            ),
        ),
    }
}

/// Archiving twice is archiving once: the second archive keeps the first
/// stamp and does no work.
pub proof fn lemma_archive_idempotent(archived_at: Option<Seq<char>>, first: Seq<char>, second: Seq<char>)
    ensures
        archived_after(archived_after(archived_at, first), second) == archived_after(archived_at, first),
        archived_after(archived_at, first) is Some,
{
}

} // verus!
