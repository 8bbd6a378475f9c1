//! What callers ask of the notes subsystem, the checks each request passes
//! before `nb` is run, and which notes a listing shows.
use vstd::prelude::*;
use crate::printer::PrinterLibError;
use crate::text::{chars_of, string_of, trim, trim_exec, str_views};

verus! {

/// The I/O error type of std.
#[verifier::external_type_specification]
#[verifier::external_body]
pub struct ExIoError(std::io::Error);

/// Errors of the notes subsystem.
#[derive(Debug)]
pub enum NotesLibError {
    /// `nb` is not installed or not on the `PATH`.
    NbNotInstalled,
    /// An `nb` command failed; the message says how.
    Nb(String),
    /// A request was refused; the message says why.
    InvalidInput(String),
    NotFound(String),
    CannotInitialize(String),
    Io(std::io::Error),
    Print(PrinterLibError),
    /// A database error, by its message.
    Db(String),
}

/// A specialized `Result` type for notes operations.
pub type NotesLibResult<T = ()> = Result<T, NotesLibError>;

/// A request to create a note.
pub struct CreateNoteRequest {
    pub title: Option<String>,
    pub content: String,
    pub tags: Option<Vec<String>>,
    pub notebook: Option<String>,
}

/// A request to add an entry to the daily log.
pub struct CreateLogRequest {
    pub title: String,
    pub content: String,
    pub tags: Option<Vec<String>>,
}

/// A request to change a note: each field given is replaced.
pub struct UpdateNoteRequest {
    pub title: Option<String>,
    pub content: Option<String>,
    pub tags: Option<Vec<String>>,
    pub notebook: Option<String>,
}

/// A request to move a note to another folder of its notebook.
pub struct MoveNoteRequest {
    /// The destination folder path, empty for the notebook's root.
    pub dest_folder: String,
}

/// A request to create a folder.
pub struct CreateFolderRequest {
    pub notebook: String,
    /// The full folder path, such as `Projects/Sub`.
    pub path: String,
}

/// A note as it is handed to `nb`: notebook, title, content and tags.
pub struct NoteDraft {
    pub notebook: String,
    pub title: String,
    pub content: String,
    pub tags: Vec<String>,
}

/// The message of a refusal for a missing title.
pub open spec fn title_required() -> Seq<char> {
    "title is required"@
}

/// The message of a refusal for a missing log description.
pub open spec fn description_required() -> Seq<char> {
    "description is required"@
}

/// A refusal, by its message.
pub open spec fn refused(r: NotesLibError, message: Seq<char>) -> bool {
    r matches NotesLibError::InvalidInput(m) && m@ == message
}

/// The plain value of optional tags: none given is no tags.
pub open spec fn tags_or_none(tags: Option<Vec<String>>) -> Seq<Seq<char>> {
    match tags {
        Some(t) => str_views(t@),
        None => Seq::empty(),
    }
}

/// The text of a literal, as an owned string.
fn owned(s: &str) -> (r: String)
    ensures
        r@ == s@,
{
    string_of(&chars_of(s))
}

/// The tags given, or none.
fn tags_given(tags: Option<Vec<String>>) -> (r: Vec<String>)
    ensures
        str_views(r@) == tags_or_none(tags),
{
    match tags {
        Some(t) => t,
        None => {
            let v: Vec<String> = Vec::new();
            assert(str_views(v@) =~= Seq::<Seq<char>>::empty());
            v
        },
    }
}

/// The note a create request asks for: its title trimmed (a missing or
/// blank title is refused with `title is required`), in the notebook named
/// (`home` when none is), with the tags given (none when none are).
pub fn prepare_create(req: CreateNoteRequest) -> (r: NotesLibResult<NoteDraft>)
    ensures
        ({
            let title = match req.title {
                Some(t) => trim(t@),
                None => Seq::empty(),
            };
            &&& r is Err <==> title.len() == 0
            &&& r matches Err(e) ==> refused(e, title_required())
            &&& r matches Ok(d) ==> {
                &&& d.title@ == title
                &&& d.notebook@ == match req.notebook {
                    Some(n) => n@,
                    None => "home"@,
                }
                &&& d.content@ == req.content@
                &&& str_views(d.tags@) == tags_or_none(req.tags)
            }
        }),
{
    let title = match &req.title {
        Some(t) => trim_exec(&chars_of(t.as_str())),
        None => Vec::new(),
    };
    if title.len() == 0 {
        return Err(NotesLibError::InvalidInput(owned("title is required")));
    }
    let notebook = match req.notebook {
        Some(n) => n,
        None => owned("home"),
    };
    let tags = tags_given(req.tags);
    Ok(NoteDraft { notebook, title: string_of(&title), content: req.content, tags })
}

/// The daily log entry a log request asks for: its title and content
/// trimmed, with the tags given. A blank title is refused with `title is
/// required`; then a blank content with `description is required`.
pub fn prepare_log(req: CreateLogRequest) -> (r: NotesLibResult<(String, String, Vec<String>)>)
    ensures
        r is Err <==> trim(req.title@).len() == 0 || trim(req.content@).len() == 0,
        r matches Err(e) ==> (if trim(req.title@).len() == 0 {
            refused(e, title_required())
        } else {
            refused(e, description_required())
        }),
        r matches Ok(x) ==> x.0@ == trim(req.title@) && x.1@ == trim(req.content@) && str_views(x.2@)
            == tags_or_none(req.tags),
{
    let title = trim_exec(&chars_of(req.title.as_str()));
    if title.len() == 0 {
        return Err(NotesLibError::InvalidInput(owned("title is required")));
    }
    let content = trim_exec(&chars_of(req.content.as_str()));
    if content.len() == 0 {
        return Err(NotesLibError::InvalidInput(owned("description is required")));
    }
    let tags = tags_given(req.tags);
    Ok((string_of(&title), string_of(&content), tags))
}

/// Checks an update request: a title, when one is given, must not be blank
/// (refused with `title is required`).
pub fn check_update(req: &UpdateNoteRequest) -> (r: NotesLibResult)
    ensures
        r is Err <==> (req.title matches Some(t) && trim(t@).len() == 0),
        r matches Err(e) ==> refused(e, title_required()),
{
    match &req.title {
        Some(t) => {
            let tt = trim_exec(&chars_of(t.as_str()));
            if tt.len() == 0 {
                return Err(NotesLibError::InvalidInput(owned("title is required")));
            }
            Ok(())
        },
        None => Ok(()),
    }
}

/// The notebooks left out of a listing of all notebooks: the daily log,
/// the todo items and the archive.
pub open spec fn excluded_from_all(notebook: Seq<char>) -> bool {
    notebook == "log"@ || notebook == "todo"@ || notebook == "archive"@
}

/// The notebooks the note cache never mirrors: the daily log and the todo
/// items.
pub open spec fn excluded_from_cache(notebook: Seq<char>) -> bool {
    notebook == "log"@ || notebook == "todo"@
}

/// `s` is one of `v`'s strings.
pub open spec fn among(v: Seq<Seq<char>>, s: Seq<char>) -> bool {
    exists|i: int| 0 <= i < v.len() && v[i] == s
}

/// Whether a text equals a literal.
fn is_text(a: &str, b: &str) -> (r: bool)
    ensures
        r == (a@ == b@),
{
    crate::text::eq_str(&chars_of(a), b)
}

/// Whether a listing shows a note of `notebook` with `tags`: a listing of
/// one notebook shows all of its notes, a listing of all notebooks none of
/// the excluded ones; with a tag asked for, only notes carrying it.
pub fn shown_in_listing(notebook: &str, tags: &Vec<String>, scoped: bool, tag: Option<&str>) -> (r: bool)
    ensures
        r == ((scoped || !excluded_from_all(notebook@)) && match tag {
            Some(t) => among(str_views(tags@), t@),
            None => true,
        }),
{
    if !scoped && (is_text(notebook, "log") || is_text(notebook, "todo") || is_text(notebook, "archive")) {
        return false;
    }
    match tag {
        None => true,
        Some(t) => {
            let mut i: usize = 0;
            while i < tags.len()
                invariant
                    i <= tags@.len(),
                    scoped || !excluded_from_all(notebook@),
                    tag == Some(t),
                    forall|j: int| 0 <= j < i ==> str_views(tags@)[j] != t@,
                decreases tags@.len() - i,
            {
                if is_text(tags[i].as_str(), t) {
                    assert(str_views(tags@)[i as int] == t@);
                    return true;
                }
                i += 1;
            }
            false
        },
    }
}

/// Whether the note cache mirrors a notebook.
pub fn is_cached_notebook(notebook: &str) -> (r: bool)
    ensures
        r == !excluded_from_cache(notebook@),
{
    !(is_text(notebook, "log") || is_text(notebook, "todo"))
}

/// The preview the note cache keeps of a note's content: its first 300
/// characters.
pub fn content_preview(content: &str) -> (r: String)
    ensures
        r@ == content@.take(if content@.len() < 300 { content@.len() as int } else { 300 }),
{
    let v = chars_of(content);
    let n: usize = if v.len() < 300 {
        v.len()
    } else {
        300
    };
    let p = crate::text::subvec(&v, 0, n);
    string_of(&p)
}

} // verus!
