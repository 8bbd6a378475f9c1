use manage_dan::lists::{format_item, list_print_job, print_list, ListEntry};
use manage_dan::shopping;

fn entry(name: &str, qty: Option<&str>, checked: bool) -> ListEntry {
    ListEntry { name: name.to_string(), quantity: qty.map(|q| q.to_string()), checked }
}

#[test]
fn item_lines_show_mark_name_and_quantity() {
    assert_eq!(format_item(&entry("Milk", Some("2L"), false)), "[ ] Milk (2L)");
    assert_eq!(format_item(&entry("Bread", None, true)), "[x] Bread");
}

#[test]
fn list_ticket_puts_pending_items_before_obtained_ones() {
    let items = vec![entry("Milk", Some("2L"), true), entry("Eggs", None, false), entry("Tea", None, false)];
    let job = list_print_job("LIST: ", "Groceries", &items, 5, "Mon 02 Mar 2026  10:00");
    assert_eq!(job.origin, "2 items remaining");
    assert_eq!(job.title, "LIST: GROCERIES");
    assert_eq!(
        job.lines,
        vec![
            "[ ] Eggs".to_string(),
            "[ ] Tea".to_string(),
            String::new(),
            "-----".to_string(),
            "Already obtained:".to_string(),
            "[x] Milk (2L)".to_string(),
            String::new(),
            "-----".to_string(),
            "Printed: Mon 02 Mar 2026  10:00".to_string(),
        ]
    );
}

#[test]
fn list_ticket_without_obtained_items_has_no_obtained_section() {
    let items = vec![entry("Eggs", None, false)];
    let job = list_print_job("LIST: ", "x", &items, 3, "now");
    assert_eq!(job.origin, "1 item remaining");
    assert_eq!(job.lines, vec!["[ ] Eggs".to_string(), String::new(), "---".to_string(), "Printed: now".to_string()]);
}

#[test]
fn printing_now_titles_lists_and_shopping_lists() {
    let items = vec![entry("Soap", None, false)];
    let job = print_list("chores", &items, 4);
    assert_eq!(job.title, "LIST: CHORES");
    assert!(job.lines.last().unwrap().starts_with("Printed: "));
    let job = shopping::print_list("toiletries", &items, 4);
    assert_eq!(job.title, "SHOPPING: TOILETRIES");
    assert_eq!(job.origin, "1 item remaining");
}

#[test]
fn every_item_is_printed_once() {
    let items = vec![entry("a", None, true), entry("b", None, false), entry("c", Some("1"), true), entry("d", None, false)];
    let job = list_print_job("LIST: ", "x", &items, 2, "t");
    let printed = job.lines.iter().filter(|l| l.starts_with("[x] ") || l.starts_with("[ ] ")).count();
    assert_eq!(printed, items.len());
}

#[test]
fn a_printed_list_shows_when_in_its_format() {
    let job = print_list("chores", &vec![entry("Soap", None, false)], 4);
    let last = job.lines.last().unwrap();
    let when: Vec<char> = last.strip_prefix("Printed: ").unwrap().chars().collect();
    let pattern: Vec<char> = "AAA 99 AAA 9999  99:99".chars().collect();
    assert_eq!(when.len(), pattern.len());
    for (c, p) in when.iter().zip(pattern.iter()) {
        match p {
            '9' => assert!(c.is_ascii_digit()),
            'A' => assert!(c.is_ascii_alphabetic()),
            _ => assert_eq!(c, p),
        }
    }
}
