use manage_dan::date::Date;
use manage_dan::notes::added_id;
use manage_dan::notes::requests::{
    check_update, content_preview, is_cached_notebook, prepare_create, prepare_log, shown_in_listing, CreateLogRequest,
    CreateNoteRequest, NotesLibError, UpdateNoteRequest,
};
use manage_dan::notes::{
    format_note_body, is_bookmark_path, nb_cmd, nb_ref, parse_body, parse_bookmark_body, parse_bracket_folder_id,
    parse_daily_entries, parse_list_line, parse_list_path_line,
};

const MINIMAL: &str = "# Example Domain (example.com)\n\n<https://example.com>\n";

const FULL: &str = "# Tools (www.rust-lang.org)\n\n<https://www.rust-lang.org/tools>\n\n## Quote\n\n> some excerpt text\n\n## Comment\n\nnice tools\n\n## Tags\n\n#rust #lang\n";

#[test]
fn parses_minimal_bookmark() {
    let (title, url, tags, content) = parse_bookmark_body(MINIMAL);
    assert_eq!(title, "Example Domain (example.com)");
    assert_eq!(url.as_deref(), Some("https://example.com"));
    assert!(tags.is_empty());
    assert!(content.is_empty());
}

#[test]
fn parses_full_bookmark() {
    let (title, url, tags, content) = parse_bookmark_body(FULL);
    assert_eq!(title, "Tools (www.rust-lang.org)");
    assert_eq!(url.as_deref(), Some("https://www.rust-lang.org/tools"));
    assert_eq!(tags, vec!["rust".to_string(), "lang".to_string()]);
    assert!(content.contains("## Quote"));
    assert!(content.contains("> some excerpt text"));
    assert!(content.contains("## Comment"));
    assert!(content.contains("nice tools"));
    assert!(!content.contains("## Tags"));
}

#[test]
fn is_bookmark_path_checks_extension() {
    assert!(is_bookmark_path("/x/20260730.bookmark.md"));
    assert!(!is_bookmark_path("/x/20260730.md"));
}

fn lines(s: &str) -> Vec<String> {
    s.lines().map(|l| l.to_string()).collect()
}

#[test]
fn note_body_round_trips_title_tags_and_content() {
    let tags = vec!["work".to_string(), "ideas".to_string()];
    let text = format_note_body("Plan", &tags, "first line\nsecond line\n");
    let (title, parsed_tags, content) = parse_body(&lines(&text));
    assert_eq!(title, "Plan");
    assert_eq!(parsed_tags, tags);
    assert_eq!(content, "first line\nsecond line");
}

#[test]
fn note_body_without_tags_round_trips() {
    let text = format_note_body("Solo", &Vec::new(), "just text");
    let (title, parsed_tags, content) = parse_body(&lines(&text));
    assert_eq!(title, "Solo");
    assert!(parsed_tags.is_empty());
    assert_eq!(content, "just text");
}

#[test]
fn daily_entries_are_read_per_heading() {
    let raw = "## 09:15 Standup\n#work\nTalked about plans\n\n## 14:00 Review\nLooked at code\n";
    let entries = parse_daily_entries(raw, "2026-03-01");
    assert_eq!(entries.len(), 2);
    assert_eq!(entries[0].date, "2026-03-01");
}

#[test]
fn list_lines_and_refs() {
    assert_eq!(nb_ref("home", "", 3), "home:3");
    assert_eq!(nb_cmd("home", "add"), "home:add");
    let parsed = parse_list_line("[12] My note", "home");
    assert!(parsed.is_some());
    assert_eq!(parsed.unwrap().0, 12);
    assert!(parse_list_line("no brackets here", "home").is_none());
    assert!(parse_list_path_line("nothing", "home").is_none());
    assert_eq!(parse_bracket_folder_id("7"), Some((String::new(), 7)));
}

#[test]
fn create_request_needs_a_title() {
    let req = CreateNoteRequest { title: Some("   ".to_string()), content: "x".to_string(), tags: None, notebook: None };
    match prepare_create(req) {
        Err(NotesLibError::InvalidInput(m)) => assert_eq!(m, "title is required"),
        _ => panic!("a blank title must be refused"),
    }
    let req = CreateNoteRequest { title: None, content: "x".to_string(), tags: None, notebook: None };
    assert!(prepare_create(req).is_err());
}

#[test]
fn create_request_defaults_notebook_and_tags() {
    let req = CreateNoteRequest { title: Some("  Idea ".to_string()), content: "body".to_string(), tags: None, notebook: None };
    let d = prepare_create(req).ok().unwrap();
    assert_eq!(d.title, "Idea");
    assert_eq!(d.notebook, "home");
    assert_eq!(d.content, "body");
    assert!(d.tags.is_empty());
    let req = CreateNoteRequest {
        title: Some("Idea".to_string()),
        content: "body".to_string(),
        tags: Some(vec!["a".to_string()]),
        notebook: Some("work".to_string()),
    };
    let d = prepare_create(req).ok().unwrap();
    assert_eq!(d.notebook, "work");
    assert_eq!(d.tags, vec!["a".to_string()]);
}

#[test]
fn log_request_needs_title_then_description() {
    let req = CreateLogRequest { title: " ".to_string(), content: " ".to_string(), tags: None };
    match prepare_log(req) {
        Err(NotesLibError::InvalidInput(m)) => assert_eq!(m, "title is required"),
        _ => panic!("a blank title must be refused first"),
    }
    let req = CreateLogRequest { title: "T".to_string(), content: "\n".to_string(), tags: None };
    match prepare_log(req) {
        Err(NotesLibError::InvalidInput(m)) => assert_eq!(m, "description is required"),
        _ => panic!("a blank description must be refused"),
    }
    let req = CreateLogRequest { title: " T ".to_string(), content: " did things ".to_string(), tags: None };
    let (t, c, tags) = prepare_log(req).ok().unwrap();
    assert_eq!(t, "T");
    assert_eq!(c, "did things");
    assert!(tags.is_empty());
}

#[test]
fn update_request_refuses_only_a_blank_title() {
    let ok = UpdateNoteRequest { title: None, content: Some("x".to_string()), tags: None, notebook: None };
    assert!(check_update(&ok).is_ok());
    let bad = UpdateNoteRequest { title: Some("  ".to_string()), content: None, tags: None, notebook: None };
    assert!(check_update(&bad).is_err());
}

#[test]
fn listings_leave_out_private_notebooks_unless_scoped() {
    let tags = vec!["rust".to_string()];
    assert!(!shown_in_listing("log", &tags, false, None));
    assert!(!shown_in_listing("todo", &tags, false, None));
    assert!(!shown_in_listing("archive", &tags, false, None));
    assert!(shown_in_listing("archive", &tags, true, None));
    assert!(shown_in_listing("home", &tags, false, Some("rust")));
    assert!(!shown_in_listing("home", &tags, false, Some("go")));
    assert!(is_cached_notebook("archive"));
    assert!(!is_cached_notebook("log"));
}

#[test]
fn preview_keeps_three_hundred_characters() {
    let long: String = std::iter::repeat('a').take(350).collect();
    assert_eq!(content_preview(&long).chars().count(), 300);
    assert_eq!(content_preview("short"), "short");
}

#[test]
fn added_id_reads_the_reported_number() {
    assert_eq!(added_id("Added: [3] 20260301.md \"Title\"\n"), Some(3));
    assert_eq!(added_id("Creating\nAdded: [work:12] note.md \"T\"\n"), Some(12));
    assert_eq!(added_id("Nothing added\n"), None);
    assert_eq!(added_id("Added: [work:x] note.md\n"), None);
}

fn entry(date: &str, time: &str, title: &str, tags: &[&str]) -> manage_dan::notes::LogEntry {
    manage_dan::notes::LogEntry {
        date: date.to_string(),
        time: time.to_string(),
        title: title.to_string(),
        content: String::new(),
        tags: tags.iter().map(|t| t.to_string()).collect(),
    }
}

#[test]
fn daily_entries_list_newest_first() {
    let entries = vec![
        entry("2026-03-01", "09:15", "a", &[]),
        entry("2026-03-02", "08:00", "b", &["work"]),
        entry("2026-03-01", "14:00", "c", &["work"]),
    ];
    let sorted = manage_dan::notes::daily::newest_entries_first(entries);
    let titles: Vec<&str> = sorted.iter().map(|e| e.title.as_str()).collect();
    assert_eq!(titles, vec!["b", "c", "a"]);
    let tagged = manage_dan::notes::daily::entries_tagged(sorted, "work");
    let titles: Vec<&str> = tagged.iter().map(|e| e.title.as_str()).collect();
    assert_eq!(titles, vec!["b", "c"]);
}

#[test]
fn log_window_starts_days_minus_one_back() {
    let today = Date::from_ymd_opt(2026, 3, 10).unwrap();
    assert_eq!(manage_dan::notes::daily::log_cutoff(today, 7), Date::from_ymd_opt(2026, 3, 4));
    assert_eq!(manage_dan::notes::daily::log_cutoff(today, 1), Some(today));
    assert_eq!(manage_dan::notes::daily::log_cutoff(today, 0), Some(today));
    assert_eq!(manage_dan::notes::daily::log_cutoff(today, i64::MAX), None);
}

#[test]
fn cache_refresh_and_stale_ids() {
    let refresh = manage_dan::notes::cache::needs_refresh;
    assert!(!refresh(Some(10), Some(10)));
    assert!(refresh(Some(11), Some(10)));
    assert!(refresh(None, Some(10)));
    assert!(refresh(Some(10), None));
    assert_eq!(manage_dan::notes::cache::stale_ids(&vec![1, 2, 3, 4], &vec![2, 4, 9]), vec![1, 3]);
}

#[test]
fn distinct_tags_are_sorted_and_skip_private_notebooks() {
    let rows = vec![
        ("home".to_string(), vec!["rust".to_string(), "ideas".to_string()]),
        ("log".to_string(), vec!["private".to_string()]),
        ("work".to_string(), vec!["rust".to_string(), "Zeta".to_string()]),
    ];
    assert_eq!(
        manage_dan::notes::cache::distinct_tags(&rows),
        vec!["Zeta".to_string(), "ideas".to_string(), "rust".to_string()]
    );
}

#[test]
fn a_daily_entry_reads_back_as_written() {
    let body = format_note_body("Standup", &vec!["work".to_string(), "team".to_string()], "Talked about the release.\n");
    let raw = format!("## 09:30:00\n{body}");
    let entries = parse_daily_entries(&raw, "2026-07-26");
    assert_eq!(entries.len(), 1);
    let e = &entries[0];
    assert_eq!(e.date, "2026-07-26");
    assert_eq!(e.time, "09:30:00");
    assert_eq!(e.title, "Standup");
    assert_eq!(e.tags, vec!["work".to_string(), "team".to_string()]);
    assert_eq!(e.content, "Talked about the release.");
}
