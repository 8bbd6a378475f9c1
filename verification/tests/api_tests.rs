use manage_dan::api::{DailyLogQuery, LogQuery, NoteIdQuery, NoteSearchQuery};

#[test]
fn query_defaults() {
    assert_eq!(DailyLogQuery { days: None }.log_days(), 7);
    assert_eq!(DailyLogQuery { days: None }.project_log_days(), 30);
    assert_eq!(DailyLogQuery { days: Some(3) }.log_days(), 3);
    assert_eq!(LogQuery { limit: None }.limit_or_default(), 20);
    assert_eq!(LogQuery { limit: Some(5) }.limit_or_default(), 5);
    assert_eq!(NoteIdQuery { notebook: None }.notebook_or_home(), "home");
    assert_eq!(NoteIdQuery { notebook: Some("work".to_string()) }.notebook_or_home(), "work");
    assert_eq!(NoteSearchQuery { q: None }.query_text(), "");
    assert_eq!(NoteSearchQuery { q: Some("rust".to_string()) }.query_text(), "rust");
}
