use manage_dan::date::Date;
use manage_dan::notes::listing::{
    daily_log_files, dated_log_file, listing_entries, note_file_parts_of, notebook_names, sort_texts, updated_note_body,
};
use manage_dan::notes::requests::UpdateNoteRequest;

const ROOT_LISTING: &str = "[1] /home/u/.nb/home/todo.md\n\
[2] \u{1F4C2} /home/u/.nb/home/Projects\n\
not a listing line\n\
[home:3] /home/u/.nb/home/link.bookmark.md\r\n";

#[test]
fn listing_root_splits_notes_and_folders() {
    let (notes, folders) = listing_entries(ROOT_LISTING, "home", "");
    assert_eq!(
        notes,
        vec![
            (1, String::new(), "/home/u/.nb/home/todo.md".to_string()),
            (3, String::new(), "/home/u/.nb/home/link.bookmark.md".to_string()),
        ]
    );
    assert_eq!(folders, vec!["Projects".to_string()]);
}

#[test]
fn listing_sub_folder_prefixes_its_path() {
    let out = "[Projects/1] /n/Projects/a.md\n[Projects/2] \u{1F4C2} /n/Projects/Sub/\n";
    let (notes, folders) = listing_entries(out, "home", "Projects");
    assert_eq!(notes, vec![(1, "Projects".to_string(), "/n/Projects/a.md".to_string())]);
    assert_eq!(folders, vec!["Projects/Sub".to_string()]);
}

#[test]
fn listing_empty_output_names_nothing() {
    let (notes, folders) = listing_entries("", "home", "");
    assert!(notes.is_empty());
    assert!(folders.is_empty());
}

#[test]
fn folder_names_sorted_like_str() {
    let v: Vec<String> = ["b", "a/c", "B", "a", "b"].iter().map(|s| s.to_string()).collect();
    let mut expected = v.clone();
    expected.sort();
    assert_eq!(sort_texts(&v), expected);
    assert_eq!(sort_texts(&v), vec!["B", "a", "a/c", "b", "b"]);
}

#[test]
fn note_file_read_by_its_layout() {
    let note = note_file_parts_of("/n/home/todo.md", "# Todo\n#work #home\n\nbuy milk\n");
    assert_eq!(note.0, "Todo");
    assert_eq!(note.1, None);
    assert_eq!(note.2, vec!["work".to_string(), "home".to_string()]);
    assert_eq!(note.3, "buy milk");
    let bookmark = note_file_parts_of(
        "/n/home/ex.bookmark.md",
        "# Example Domain (example.com)\n\n<https://example.com>\n",
    );
    assert_eq!(bookmark.0, "Example Domain (example.com)");
    assert_eq!(bookmark.1, Some("https://example.com".to_string()));
}

fn d(y: i32, m: u32, day: u32) -> Date {
    Date::from_ymd_opt(y, m, day).unwrap()
}

const LOG_LISTING: &str = "[1] /n/log/20260301.md\n\
[2] /n/log/20260228.md\n\
[3] /n/log/notes.md\n\
[4] /n/log/20261301.md\n\
[5] /n/log/20260305.backup.md\n";

#[test]
fn daily_log_files_keep_dated_files_in_the_window() {
    let files = daily_log_files(LOG_LISTING, "log", Some(d(2026, 3, 1)));
    assert_eq!(files, vec![("/n/log/20260301.md".to_string(), d(2026, 3, 1))]);
}

#[test]
fn daily_log_files_without_cutoff_keep_every_dated_file() {
    let files = daily_log_files(LOG_LISTING, "log", None);
    assert_eq!(
        files,
        vec![("/n/log/20260301.md".to_string(), d(2026, 3, 1)), ("/n/log/20260228.md".to_string(), d(2026, 2, 28))]
    );
}

#[test]
fn dated_log_file_applies_the_cutoff() {
    let p = "/n/log/x.md".to_string();
    assert_eq!(dated_log_file(p.clone(), None, None), None);
    assert_eq!(dated_log_file(p.clone(), Some(d(2026, 2, 28)), Some(d(2026, 3, 1))), None);
    assert_eq!(dated_log_file(p.clone(), Some(d(2026, 3, 1)), Some(d(2026, 3, 1))), Some((p.clone(), d(2026, 3, 1))));
    assert_eq!(dated_log_file(p.clone(), Some(d(2026, 3, 2)), None), Some((p, d(2026, 3, 2))));
}

#[test]
fn notebook_names_trimmed_without_blanks() {
    assert_eq!(notebook_names("home\n  log  \n\r\n\ntodo\n"), vec!["home", "log", "todo"]);
    assert!(notebook_names("").is_empty());
}

#[test]
fn update_keeps_what_the_request_leaves_out() {
    let raw = "# Todo\n#work\n\nbuy milk\n";
    let req = UpdateNoteRequest { title: None, content: Some("buy bread".to_string()), tags: None, notebook: None };
    assert_eq!(updated_note_body(&req, "/n/todo.md", raw), "# Todo\n\n#work\n\nbuy bread");
    let req = UpdateNoteRequest {
        title: Some("Shopping".to_string()),
        content: None,
        tags: Some(vec![]),
        notebook: None,
    };
    assert_eq!(updated_note_body(&req, "/n/todo.md", raw), "# Shopping\n\nbuy milk");
}
