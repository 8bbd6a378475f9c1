use manage_dan::datatypes::{Label, Task};
use manage_dan::date::Date;
use manage_dan::watch::{
    daily_summary_tasks, has_label, needs_printing, pending_tasks, printed_record, prints_now, prints_now_at,
    summary_due, summary_tasks,
};

fn create_test_task(id: i32, updated: &str) -> Task {
    Task {
        id,
        title: "Test Task".to_string(),
        description: "Test Description".to_string(),
        updated: updated.to_string(),
        done: false,
        labels: Some(vec![Label { title: "Test".to_string() }]),
        project_id: 1,
        due_date: "2025-01-02T12:00:00Z".to_string(),
        reminders: None,
    }
}

fn labelled(id: i32, labels: &[&str], due: &str, done: bool) -> Task {
    Task {
        id,
        title: format!("t{id}"),
        description: String::new(),
        updated: "2026-01-01T00:00:00Z".to_string(),
        done,
        labels: Some(labels.iter().map(|t| Label { title: t.to_string() }).collect()),
        project_id: 1,
        due_date: due.to_string(),
        reminders: None,
    }
}

fn d(y: i32, m: u32, day: u32) -> Date {
    Date::from_ymd_opt(y, m, day).unwrap()
}

// The printed-tasks table of one task is the `updated` stamp recorded for
// it, if any.
#[test]
fn test_database_logic() {
    let mut recorded: Option<String> = None;

    // 1. New task should need printing
    let task_v1 = create_test_task(1, "2025-01-01T12:00:00Z");
    assert!(needs_printing(recorded.as_deref(), &task_v1));

    // 2. Mark as printed
    let (id, stamp) = printed_record(&task_v1);
    assert_eq!(id, 1);
    recorded = Some(stamp);

    // 3. Same task should not need printing again
    assert!(!needs_printing(recorded.as_deref(), &task_v1));

    // 4. An updated task should need printing
    let task_v2 = create_test_task(1, "2025-01-01T13:00:00Z");
    assert!(needs_printing(recorded.as_deref(), &task_v2));

    // 5. Mark updated task as printed
    recorded = Some(printed_record(&task_v2).1);
    assert!(!needs_printing(recorded.as_deref(), &task_v2));
}

#[test]
fn pending_keeps_undone_in_order() {
    let ts = vec![labelled(1, &[], "", false), labelled(2, &[], "", true), labelled(3, &[], "", false)];
    let ids: Vec<i32> = pending_tasks(ts).iter().map(|t| t.id).collect();
    assert_eq!(ids, vec![1, 3]);
}

#[test]
fn summary_takes_due_today_and_today_tomorrow_labels() {
    let ts = vec![
        labelled(1, &["Today"], "", false),
        labelled(2, &[], "", false),
        labelled(3, &["Tomorrow"], "", false),
        labelled(4, &["Work"], "", false),
        labelled(5, &[], "", false),
    ];
    let days = vec![None, Some(d(2026, 3, 1)), None, Some(d(2026, 3, 2)), None];
    let ids: Vec<i32> = summary_tasks(ts, d(2026, 3, 1), &days).iter().map(|t| t.id).collect();
    assert_eq!(ids, vec![1, 2, 3]);
}

#[test]
fn daily_summary_reads_due_dates() {
    let ts = vec![labelled(1, &["Tomorrow"], "not a date", false), labelled(2, &[], "also not", false)];
    let ids: Vec<i32> = daily_summary_tasks(ts, d(2026, 3, 1)).iter().map(|t| t.id).collect();
    assert_eq!(ids, vec![1]);
}

#[test]
fn summary_due_on_a_later_day() {
    assert!(summary_due(d(2026, 3, 2), d(2026, 3, 1)));
    assert!(!summary_due(d(2026, 3, 1), d(2026, 3, 1)));
    assert!(!summary_due(d(2026, 2, 28), d(2026, 3, 1)));
}

#[test]
fn labels_are_matched_by_title() {
    let t = labelled(1, &["Today", "Weekly"], "", false);
    assert!(has_label(&t, "Weekly"));
    assert!(!has_label(&t, "weekly"));
    assert!(!has_label(&create_test_task(2, "x"), "Today"));
}

#[test]
fn recurring_tasks_due_later_wait() {
    let weekly = labelled(1, &["Weekly"], "", false);
    let plain = labelled(2, &[], "", false);
    let now = (1_000, 0);
    assert!(!prints_now(&weekly, Some((2_000, 0)), now, None));
    assert!(prints_now(&weekly, Some((500, 0)), now, None));
    assert!(prints_now(&weekly, None, now, None));
    assert!(prints_now(&plain, Some((2_000, 0)), now, None));
    assert!(!prints_now(&plain, Some((500, 0)), now, Some("2026-01-01T00:00:00Z")));
    let far = labelled(3, &["Daily"], "9999-01-01T00:00:00Z", false);
    assert!(!prints_now_at(&far, None));
    let past = labelled(4, &["Daily"], "2000-01-01T00:00:00Z", false);
    assert!(prints_now_at(&past, None));
}
