use manage_dan::project::{archive_step, check_deletable, expand_home, plan_project, project_dir, slugify, ProjectLibError};

#[test]
fn slugify_basic() {
    assert_eq!(slugify("Test Project"), "test_project");
    assert_eq!(slugify("Q1 Planning / Ops"), "q1_planning_ops");
    assert_eq!(slugify("  --weird__name!! "), "weird_name");
}

#[test]
fn slugs_are_lowercase_alphanumeric_and_underscores() {
    let s = slugify("__Héllo, World 2026__");
    assert!(s.chars().all(|c| c.is_ascii_lowercase() || c.is_ascii_digit() || c == '_'));
    assert!(!s.starts_with('_') && !s.ends_with('_'));
    assert!(!s.contains("__"));
}

#[test]
fn plan_project_derives_slug_and_tag() {
    let p = plan_project("  My Project ", &Vec::new()).ok().unwrap();
    assert_eq!(p.name, "My Project");
    assert_eq!(p.slug, "my_project");
    assert_eq!(p.tag, "project-my_project");
}

#[test]
fn plan_project_refuses_blank_and_symbol_only_names() {
    match plan_project("   ", &Vec::new()) {
        Err(ProjectLibError::InvalidInput(m)) => assert_eq!(m, "name is required"),
        _ => panic!("blank name must be refused"),
    }
    match plan_project("!!!", &Vec::new()) {
        Err(ProjectLibError::InvalidInput(m)) => {
            assert_eq!(m, "name must contain at least one alphanumeric character")
        }
        _ => panic!("a name without letters or digits must be refused"),
    }
}

#[test]
fn plan_project_refuses_duplicates_by_name_or_slug() {
    let existing = vec![("My Project".to_string(), "my_project".to_string())];
    match plan_project("my project", &existing) {
        Err(ProjectLibError::DuplicateName(n)) => assert_eq!(n, "my project"),
        _ => panic!("same name ignoring case must be refused"),
    }
    assert!(matches!(plan_project("My-Project", &existing), Err(ProjectLibError::DuplicateName(_))));
    assert!(plan_project("Other", &existing).is_ok());
}

#[test]
fn expand_home_resolves_a_leading_tilde() {
    assert_eq!(expand_home("~/projects", Some("/home/dan/")), "/home/dan/projects");
    assert_eq!(expand_home("~/projects", None), "~/projects");
    assert_eq!(expand_home("/srv/projects", Some("/home/dan")), "/srv/projects");
}

#[test]
fn project_dir_joins_base_and_slug() {
    assert_eq!(project_dir("~/projects/", Some("/home/dan"), "my_project"), "/home/dan/projects/my_project");
    assert_eq!(project_dir("./projects", None, "x"), "./projects/x");
}

#[test]
fn archive_locations() {
    assert_eq!(manage_dan::project::archive_dir("~/projects/", Some("/home/dan")), "/home/dan/projects/.archive");
    assert_eq!(manage_dan::project::archived_note_path("my_project", "Plan"), "my_project/Plan");
    assert_eq!(manage_dan::project::archive_zip_name("my_project"), "my_project.zip");
}

#[test]
fn slugifying_a_slug_changes_nothing() {
    for name in ["Test Project", "  --weird__name!! ", "Q1 Planning / Ops", "ÄÖÜ 42", ""] {
        let once = slugify(name);
        assert_eq!(slugify(&once), once);
    }
}

#[test]
fn a_slug_keeps_the_letters_and_digits_and_is_empty_without_them() {
    for name in ["Héllo, World 2026", "A-b_C d", "x"] {
        let kept: String = name.chars().filter(|c| c.is_ascii_alphanumeric()).map(|c| c.to_ascii_lowercase()).collect();
        assert_eq!(slugify(name).replace('_', ""), kept);
    }
    assert_eq!(slugify("!!! ___ ..."), "");
    assert_eq!(slugify(""), "");
}

#[test]
fn archiving_is_idempotent_and_deleting_needs_an_archive() {
    let (works, stamp) = archive_step(None, "2026-07-26T10:00:00Z".to_string());
    assert!(works);
    assert_eq!(stamp.as_deref(), Some("2026-07-26T10:00:00Z"));
    let (works, again) = archive_step(stamp.clone(), "2026-08-01T09:00:00Z".to_string());
    assert!(!works);
    assert_eq!(again, stamp);
    assert!(check_deletable(&again).is_ok());
    match check_deletable(&None) {
        Err(ProjectLibError::InvalidInput(m)) => {
            assert_eq!(m, "project must be archived before it can be permanently deleted")
        }
        other => panic!("unexpected {:?}", other),
    }
}
