use manage_dan::notes::commands::{bookmark_args, folder_ref, reported_bracket, restore_moves, search_hits};
use manage_dan::notes::parse_bracket_folder_id;

fn strings(v: &[&str]) -> Vec<String> {
    v.iter().map(|s| s.to_string()).collect()
}

#[test]
fn bookmark_args_with_everything() {
    let args = bookmark_args(
        "home",
        "Bookmarks",
        "https://example.com",
        Some("  Example  "),
        &strings(&["web", "ref"]),
        Some("nice"),
    );
    assert_eq!(
        args,
        strings(&[
            "bookmark",
            "home:Bookmarks/",
            "https://example.com",
            "--no-request",
            "--title",
            "Example",
            "--tags",
            "web,ref",
            "--comment",
            "nice",
        ])
    );
}

#[test]
fn bookmark_args_leave_out_blank_options() {
    let args = bookmark_args("home", "", "https://example.com", Some("   "), &vec![], None);
    assert_eq!(args, strings(&["bookmark", "home:", "https://example.com", "--no-request"]));
}

#[test]
fn reported_bracket_of_bookmark_and_move() {
    let out = "Creating...\nAdded: [home:Bookmarks/4] \u{1F516} example.bookmark.md \"Example\"\n";
    let b = reported_bracket(out, "Added:").unwrap();
    assert_eq!(b, "home:Bookmarks/4");
    assert_eq!(parse_bracket_folder_id(&b), Some(("Bookmarks".to_string(), 4)));
    let moved = "Moved to: [archive:ProjA/2] note.md\n";
    assert_eq!(reported_bracket(moved, "Moved to:"), Some("archive:ProjA/2".to_string()));
    assert_eq!(reported_bracket("nothing here", "Added:"), None);
    assert_eq!(reported_bracket("Added: no brackets", "Added:"), None);
}

#[test]
fn folder_ref_forms() {
    assert_eq!(folder_ref("", 7), "7");
    assert_eq!(folder_ref("ProjA/Sub", 12), "ProjA/Sub/12");
}

#[test]
fn restore_moves_skip_folders() {
    let out = "[archive:ProjA/1] Plan  \n[archive:ProjA/2] \u{1F4C2} Sub\n[3] Notes\nnoise\n";
    let moves = restore_moves(out, "proja");
    assert_eq!(
        moves,
        vec![
            ("ProjA/1".to_string(), "proja:Plan".to_string()),
            ("3".to_string(), "proja:Notes".to_string()),
        ]
    );
}

#[test]
fn search_hits_once_each_in_order() {
    let out = "[home:2] Groceries\n[work:Proj/5] Plan\n[home:2] Groceries again\n[7] Loose\nno match\n";
    let hits = search_hits(out);
    assert_eq!(
        hits,
        vec![
            (2, "home".to_string(), String::new()),
            (5, "work".to_string(), "Proj".to_string()),
            (7, "home".to_string(), String::new()),
        ]
    );
}

#[test]
fn references_read_back_as_their_parts() {
    assert_eq!(
        parse_bracket_folder_id(&format!("work:{}", folder_ref("ProjA/Sub", 12))),
        Some(("ProjA/Sub".to_string(), 12))
    );
    assert_eq!(parse_bracket_folder_id(&format!("work:{}", folder_ref("", 5))), Some((String::new(), 5)));
    assert_eq!(
        manage_dan::notes::parse_list_line("[home:ProjA/3] Buy milk", "ctx"),
        Some((3, "home".to_string(), "ProjA".to_string(), "Buy milk".to_string()))
    );
    assert_eq!(
        manage_dan::notes::parse_list_line("[ProjA/3] Buy milk", "ctx"),
        Some((3, "ctx".to_string(), "ProjA".to_string(), "Buy milk".to_string()))
    );
}
