use manage_dan::lists::ListStats;
use manage_dan::startup::{startup_report, startup_title, status_text, TodoCounts};
use manage_dan::status::{Status, SystemsStatus};

#[test]
fn record_init_sets_go_or_nogo() {
    let mut s = SystemsStatus::new();
    s.record_init("db", true);
    s.record_init("printer", false);
    s.record_init("nonsense", true);
    assert_eq!(s.db, Status::Go);
    assert_eq!(s.printer, Status::Nogo);
    assert_eq!(s.log, Status::Init);
}

#[test]
fn report_titles_follow_the_overall_status() {
    assert_eq!(startup_title(Status::Go), "SYSTEM INITIALIZED: GO");
    assert_eq!(startup_title(Status::Degraded), "SYSTEM INITIALIZED: DEGRADED");
    assert_eq!(startup_title(Status::Nogo), "SYSTEM INITIALIZED: NOGO");
    assert_eq!(startup_title(Status::Init), "SYSTEM INITIALIZED: UNKNOWN");
    assert_eq!(status_text(Status::Degraded), "Degraded");
}

#[test]
fn report_lists_subsystems_and_counts() {
    let mut s = SystemsStatus::new();
    s.record_init("db", true);
    let stats = ListStats { groups: 2, lists: 5, items: 30, items_pending: 12 };
    let todo = TodoCounts { total_pending: 7, overdue: 1, due_today: 2 };
    let job = startup_report(s, Status::Degraded, Some(todo), Some(stats), 3, 1, "0.1.0", "Mon 02 Mar 2026  08:00", 4);
    assert_eq!(job.origin, "App Initialization");
    assert_eq!(job.title, "SYSTEM INITIALIZED: DEGRADED");
    assert_eq!(job.lines[0], "  db:       Go");
    assert_eq!(job.lines[6], "  shopping: Init");
    assert_eq!(job.lines[7], "");
    assert_eq!(job.lines[8], "----");
    assert_eq!(job.lines[9], "  Todo:      7 pending (1 overdue, 2 today)");
    assert_eq!(job.lines[10], "  Lists:     5 lists across 2 groups, 30 items (12 pending)");
    assert_eq!(job.lines[11], "  Recurring: 3 configured (1 due today)");
    assert_eq!(job.lines[14], "  v0.1.0  |  Mon 02 Mar 2026  08:00");
    assert_eq!(job.lines.len(), 15);
    let job = startup_report(s, Status::Go, None, None, 0, 0, "1", "now", 2);
    assert_eq!(job.lines[9], "  Todo:      unavailable");
    assert_eq!(job.lines[10], "  Lists:     unavailable");
}
