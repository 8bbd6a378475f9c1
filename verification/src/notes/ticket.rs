//! The printed ticket of a note.
use vstd::prelude::*;
use crate::printer::PrintJob;
use crate::lists::job_view;
use crate::text::{chars_of, string_of, append, append_str, join, join_exec, lines, lines_exec, views, str_views, strings_of};

verus! {

/// `n` box-drawing rules (`─`).
pub open spec fn rules(n: nat) -> Seq<char> {
    Seq::new(n, |i: int| '\u{2500}')
}

/// The metadata line of a note's ticket, if it has any: `notebook: <name>`
/// when the notebook is named, `tags: a, b` when it has tags, joined by
/// `  •  `.
pub open spec fn meta_line(notebook: Seq<char>, tags: Seq<Seq<char>>) -> Option<Seq<char>> {
    let a = if notebook.len() > 0 {
        seq!["notebook: "@ + notebook]
    } else {
        Seq::<Seq<char>>::empty()
    };
    let b = if tags.len() > 0 {
        seq!["tags: "@ + join(tags, ", "@)]
    } else {
        Seq::<Seq<char>>::empty()
    };
    let parts = a + b;
    if parts.len() == 0 {
        None
    } else {
        Some(join(parts, "  \u{2022}  "@))
    }
}

/// The ticket of a note: origin `NOTE [<notebook>]`; its title, or
/// `Untitled Note`; the metadata line if any, a rule, a blank line, the
/// content's lines, a blank line, a rule, and the creation and update
/// dates.
pub open spec fn note_job(
    notebook: Seq<char>,
    title: Seq<char>,
    tags: Seq<Seq<char>>,
    content: Seq<char>,
    created: Seq<char>,
    updated: Seq<char>,
    width: nat,
) -> (Seq<char>, Seq<char>, Seq<Seq<char>>) {
    let head = match meta_line(notebook, tags) {
        Some(m) => seq![m],
        None => Seq::<Seq<char>>::empty(),
    };
    (
        "NOTE ["@ + notebook + "]"@,
        if title.len() == 0 {
            "Untitled Note"@
        } else {
            title
        },
        head + seq![rules(width), Seq::<char>::empty()] + lines(content) + seq![
            Seq::<char>::empty(),
            rules(width),
            "Created: "@ + created + "  |  Updated: "@ + updated,
        ],
    )
}

/// `n` rules, as a string.
fn rule_line(n: usize) -> (r: String)
    ensures
        r@ == rules(n as nat),
{
    let mut v: Vec<char> = Vec::new();
    let mut i: usize = 0;
    while i < n
        invariant
            i <= n,
            v@ == rules(i as nat),
        decreases n - i,
    {
        v.push('\u{2500}');
        i += 1;
        assert(v@ =~= rules(i as nat));
    }
    string_of(&v)
}

/// The ticket of a note, given its dates as they are to be printed.
#[verifier::rlimit(30)]
pub fn note_print_job(
    notebook: &str,
    title: &str,
    tags: &Vec<String>,
    content: &str,
    created: &str,
    updated: &str,
    width: usize,
) -> (r: PrintJob)
    ensures
        job_view(r) == note_job(notebook@, title@, str_views(tags@), content@, created@, updated@, width as nat),
{
    let nb = chars_of(notebook);
    let mut parts: Vec<Vec<char>> = Vec::new();
    if nb.len() > 0 {
        let mut p = chars_of("notebook: ");
        append(&mut p, &nb);
        parts.push(p);
    }
    if tags.len() > 0 {
        let mut tv: Vec<Vec<char>> = Vec::new();
        let mut i: usize = 0;
        while i < tags.len()
            invariant
                i <= tags@.len(),
                views(tv@) == str_views(tags@).take(i as int),
            decreases tags@.len() - i,
        {
            let ghost before = tv@;
            tv.push(chars_of(tags[i].as_str()));
            assert(views(tv@) =~= views(before).push(tags@[i as int]@));
            assert(str_views(tags@).take(i + 1) =~= str_views(tags@).take(i as int).push(tags@[i as int]@));
            i += 1;
        }
        assert(str_views(tags@).take(tags@.len() as int) =~= str_views(tags@));
        let mut p = chars_of("tags: ");
        append(&mut p, &join_exec(&tv, &chars_of(", ")));
        parts.push(p);
    }
    let mut out: Vec<String> = Vec::new();
    let ghost spec_parts = (if nb@.len() > 0 {
        seq!["notebook: "@ + nb@]
    } else {
        Seq::<Seq<char>>::empty()
    }) + (if tags@.len() > 0 {
        seq!["tags: "@ + join(str_views(tags@), ", "@)]
    } else {
        Seq::<Seq<char>>::empty()
    });
    assert(views(parts@) =~= spec_parts);
    if parts.len() > 0 {
        out.push(string_of(&join_exec(&parts, &chars_of("  \u{2022}  "))));
    }
    let ghost head = str_views(out@);
    assert(head == match meta_line(notebook@, str_views(tags@)) {
        Some(m) => seq![m],
        None => Seq::<Seq<char>>::empty(),
    });
    out.push(rule_line(width));
    out.push(String::new());
    let body = strings_of(&lines_exec(&chars_of(content)));
    let ghost mid = str_views(out@);
    assert(str_views(body@) == lines(content@));
    assert(mid =~= head + seq![rules(width as nat), Seq::<char>::empty()]);
    let mut j: usize = 0;
    while j < body.len()
        invariant
            j <= body@.len(),
            str_views(out@) == mid + str_views(body@).take(j as int),
        decreases body@.len() - j,
    {
        let ghost before = out@;
        out.push(string_of(&chars_of(body[j].as_str())));
        assert(str_views(out@) =~= str_views(before).push(body@[j as int]@));
        assert(str_views(body@).take(j + 1) =~= str_views(body@).take(j as int).push(body@[j as int]@));
        j += 1;
    }
    assert(str_views(body@).take(body@.len() as int) =~= str_views(body@));
    out.push(String::new());
    out.push(rule_line(width));
    let mut stamp = chars_of("Created: ");
    append_str(&mut stamp, created);
    append_str(&mut stamp, "  |  Updated: ");
    append_str(&mut stamp, updated);
    out.push(string_of(&stamp));
    let mut origin = chars_of("NOTE [");
    append(&mut origin, &nb);
    append_str(&mut origin, "]");
    let t = chars_of(title);
    let shown_title = if t.len() == 0 {
        string_of(&chars_of("Untitled Note"))
    } else {
        string_of(&t)
    };
    proof {
        let spec = note_job(notebook@, title@, str_views(tags@), content@, created@, updated@, width as nat);
        assert(str_views(out@) =~= spec.2);
    }
    PrintJob::new(string_of(&origin), shown_title, out)
}

/// The text of the QR code printed with a note: `manage-dan://notes/`
/// followed by the note's `notebook:id` reference.
pub fn note_qr_data(notebook: &str, nb_id: u64) -> (r: String)
    ensures
        r@ == "manage-dan://notes/"@ + notebook@ + ":"@ + crate::text::decimal(nb_id as nat),
{
    let mut v = chars_of("manage-dan://notes/");
    append_str(&mut v, notebook);
    append_str(&mut v, ":");
    append(&mut v, &crate::text::u64_digits(nb_id));
    string_of(&v)
}

} // verus!
