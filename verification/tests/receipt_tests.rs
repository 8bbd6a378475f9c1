use manage_dan::datatypes::{Label, Task};
use manage_dan::notes::ticket::{note_print_job, note_qr_data};
use manage_dan::printer::EscposCommand;
use manage_dan::receipt::{
    due_date_text, print_daily_summary, print_summary_tasks, print_task, print_task_description, print_task_labels,
    print_task_qrcode, summary_receipt, task_receipt,
};

fn task(title: &str, labels: Option<Vec<&str>>, due: &str) -> Task {
    Task {
        id: 16,
        title: title.to_string(),
        description: "<p>Buy <b>milk</b></p>".to_string(),
        updated: "2026-03-01T10:00:00Z".to_string(),
        done: false,
        labels: labels.map(|ls| ls.into_iter().map(|t| Label { title: t.to_string() }).collect()),
        project_id: 1,
        due_date: due.to_string(),
        reminders: None,
    }
}

fn text_of(c: &EscposCommand) -> Option<&str> {
    match c {
        EscposCommand::Write(s) | EscposCommand::Writeln(s) | EscposCommand::QrCode(s) => Some(s.as_str()),
        _ => None,
    }
}

#[test]
fn qr_code_points_at_the_task() {
    let cmds = print_task_qrcode(&task("T", None, ""), "http://example.com");
    assert_eq!(cmds.len(), 2);
    assert_eq!(text_of(&cmds[1]), Some("http://example.com/tasks/16"));
}

#[test]
fn due_dates_print_no_due_date_for_the_zero_date() {
    assert_eq!(due_date_text("0001-01-01T00:00:00Z", Some("x".to_string())), "No due date");
    assert_eq!(due_date_text("2026-03-02T10:00:00Z", Some("2026-03-02 11:00".to_string())), "2026-03-02 11:00");
    assert_eq!(due_date_text("garbage", None), "garbage");
}

#[test]
fn labels_block_lists_each_label() {
    let cmds = print_task_labels(&task("T", Some(vec!["Daily", "Home"]), ""));
    let texts: Vec<&str> = cmds.iter().filter_map(text_of).collect();
    assert_eq!(texts, vec!["Labels:", "- Daily", "- Home"]);
    let cmds = print_task_labels(&task("T", None, ""));
    assert_eq!(cmds.len(), 2);
}

#[test]
fn task_receipt_has_every_block_in_order() {
    let t = task("Groceries", Some(vec!["Weekly"]), "0001-01-01T00:00:00Z");
    let cmds = task_receipt(&t, "http://example.com", "Buy milk", None, "2026-03-01 09:00:00");
    let texts: Vec<&str> = cmds.iter().filter_map(text_of).collect();
    assert_eq!(
        texts,
        vec![
            "http://example.com/tasks/16",
            "--- Task ---",
            "Groceries",
            "Description:",
            "Buy milk",
            "Due Date:",
            "No due date",
            "Labels:",
            "- Weekly",
            "--- End Task ---",
            "Printed at:",
            "2026-03-01 09:00:00",
        ]
    );
    assert!(matches!(cmds[0], EscposCommand::Init));
    assert!(matches!(cmds.last(), Some(EscposCommand::PrintCut)));
}

#[test]
fn printing_a_task_renders_its_description() {
    let t = task("Groceries", None, "0001-01-01T00:00:00Z");
    let cmds = print_task(&t, "http://example.com").ok().unwrap();
    let texts: Vec<&str> = cmds.iter().filter_map(text_of).collect();
    assert!(texts.iter().any(|s| s.contains("milk")));
    assert!(!texts.iter().any(|s| s.contains("<b>")));
    assert!(print_task_description(&t).is_ok());
    let txt = t.description_as_text(42).unwrap();
    assert!(txt.contains("Buy") && txt.contains("milk") && !txt.contains('<'));
}

#[test]
fn recurring_tasks_carry_a_recurring_label() {
    assert!(task("T", Some(vec!["Home", "Monthly"]), "").is_recurring());
    assert!(!task("T", Some(vec!["Home"]), "").is_recurring());
    assert!(!task("T", None, "").is_recurring());
}

#[test]
fn daily_summary_lists_tasks_or_says_there_are_none() {
    let texts = |cmds: &Vec<EscposCommand>| cmds.iter().filter_map(text_of).map(|s| s.to_string()).collect::<Vec<_>>();
    let tasks = vec![task("A", None, ""), task("Another Test Task", None, "")];
    let cmds = print_summary_tasks(&tasks);
    assert_eq!(texts(&cmds), vec!["- A", "- Another Test Task"]);
    let cmds = print_summary_tasks(&[]);
    assert_eq!(texts(&cmds), vec!["No tasks for today."]);
    let cmds = summary_receipt(&tasks, "Mon 02-Mar-2026", "2026-03-02 08:00:00");
    assert_eq!(
        texts(&cmds),
        vec![
            "--- Daily Summary ---",
            "Mon 02-Mar-2026",
            "- A",
            "- Another Test Task",
            "--- End Summary ---",
            "Printed at:",
            "2026-03-02 08:00:00",
        ]
    );
    let cmds = print_daily_summary(&tasks);
    assert_eq!(texts(&cmds)[0], "--- Daily Summary ---");
}

#[test]
fn note_ticket_shows_meta_content_and_dates() {
    let tags = vec!["rust".to_string(), "ideas".to_string()];
    let job = note_print_job("work", "", &tags, "line one\nline two", "01 Mar 2026", "02 Mar 2026", 3);
    assert_eq!(job.origin, "NOTE [work]");
    assert_eq!(job.title, "Untitled Note");
    assert_eq!(
        job.lines,
        vec![
            "notebook: work  \u{2022}  tags: rust, ideas".to_string(),
            "\u{2500}\u{2500}\u{2500}".to_string(),
            String::new(),
            "line one".to_string(),
            "line two".to_string(),
            String::new(),
            "\u{2500}\u{2500}\u{2500}".to_string(),
            "Created: 01 Mar 2026  |  Updated: 02 Mar 2026".to_string(),
        ]
    );
    let job = note_print_job("", "Plan", &Vec::new(), "", "a", "b", 1);
    assert_eq!(job.title, "Plan");
    assert_eq!(job.lines[0], "\u{2500}");
    assert_eq!(note_qr_data("work", 7), "manage-dan://notes/work:7");
}

fn shaped(text: &str, pattern: &str) -> bool {
    // `9` stands for a digit, `A` for a letter; anything else must match itself.
    text.chars().count() == pattern.chars().count()
        && text.chars().zip(pattern.chars()).all(|(c, p)| match p {
            '9' => c.is_ascii_digit(),
            'A' => c.is_ascii_alphabetic(),
            _ => c == p,
        })
}

#[test]
fn the_summary_shows_the_day_and_the_print_time_in_their_formats() {
    let cmds = print_daily_summary(&[]);
    let t: Vec<&str> = cmds.iter().filter_map(text_of).collect();
    assert!(shaped(t[1], "AAA 99-AAA-9999"), "{}", t[1]);
    assert!(["Mon", "Tue", "Wed", "Thu", "Fri", "Sat", "Sun"].contains(&&t[1][..3]));
    assert!(shaped(t.last().unwrap(), "9999-99-99 99:99:99"), "{}", t.last().unwrap());
}
