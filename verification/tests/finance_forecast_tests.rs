use manage_dan::date::Date;
use manage_dan::finances::forecast::{forecast_args, fresh_preview_journal, preview_journal};
use manage_dan::finances::models::{Frequency, PreviewItem, TxnKind};

fn d(y: i32, m: u32, day: u32) -> Date {
    Date::from_ymd_opt(y, m, day).unwrap()
}

fn strings(v: &[&str]) -> Vec<String> {
    v.iter().map(|s| s.to_string()).collect()
}

#[test]
fn forecast_args_daily_up_to_a_year_from_today() {
    let args = forecast_args(&strings(&["assets", "liabilities"]), 1, d(2026, 1, 31));
    assert_eq!(
        args,
        strings(&[
            "balance", "assets", "liabilities", "-D", "--historical", "--forecast", "-b", "2026-01-31", "-e",
            "2026-02-28", "-O", "json",
        ])
    );
}

#[test]
fn forecast_args_twelve_months_still_daily() {
    let args = forecast_args(&strings(&["assets:checking"]), 12, d(2026, 3, 15));
    assert_eq!(args[2], "-D");
    assert_eq!(args[8], "2027-03-15");
}

#[test]
fn forecast_args_weekly_beyond_a_year() {
    let args = forecast_args(&strings(&["assets"]), 18, d(2026, 1, 31));
    assert_eq!(
        args,
        strings(&[
            "balance", "assets", "-W", "--historical", "--forecast", "-b", "2026-01-31", "-e", "2027-07-31", "-O",
            "json",
        ])
    );
}

#[test]
fn forecast_args_zero_months_ends_today() {
    let args = forecast_args(&strings(&["assets"]), 0, d(2026, 5, 4));
    assert_eq!(args[6], "2026-05-04");
    assert_eq!(args[8], "2026-05-04");
}

#[test]
fn forecast_args_out_of_range_end_falls_back_to_today() {
    let args = forecast_args(&strings(&["assets"]), u32::MAX, d(2026, 5, 4));
    assert_eq!(args[2], "-W");
    assert_eq!(args[8], "2026-05-04");
}

const JOURNAL: &str = "2026-01-01 Coffee  ; id:keep\n    expenses:coffee    $4.00\n    assets:checking\n\n\
~ monthly  ; id:drop name:Gym\n    expenses:gym    $30.00\n    assets:checking\n\n";

fn gym_like(name: &str) -> PreviewItem {
    PreviewItem {
        name: name.to_string(),
        amount: 1250,
        kind: TxnKind::Expense,
        frequency: Frequency::Monthly,
        reference_date: None,
        account: "assets:checking".to_string(),
    }
}

#[test]
fn preview_journal_nothing_to_preview() {
    assert_eq!(preview_journal(JOURNAL, &vec![], &vec![], &vec![]), None);
}

#[test]
fn preview_journal_drops_excluded_blocks() {
    let r = preview_journal(JOURNAL, &vec![], &strings(&["drop"]), &vec![]).unwrap();
    assert_eq!(r, "2026-01-01 Coffee  ; id:keep\n    expenses:coffee    $4.00\n    assets:checking\n\n");
}

#[test]
fn preview_journal_unknown_exclusion_keeps_everything() {
    let r = preview_journal(JOURNAL, &vec![], &strings(&["other"]), &vec![]).unwrap();
    assert_eq!(r, JOURNAL);
}

#[test]
fn preview_journal_appends_rules_under_scratch_ids() {
    let items = vec![gym_like("  Climbing  "), gym_like("   ")];
    let r = preview_journal(JOURNAL, &items, &vec![], &strings(&["s1", "s2"])).unwrap();
    let expected = format!(
        "{}\n~ monthly  ; id:preview-s1 name:Climbing\n    expenses:preview    $12.50\n    assets:checking\n\n\
\n~ monthly  ; id:preview-s2 name:Preview\n    expenses:preview    $12.50\n    assets:checking\n\n",
        JOURNAL
    );
    assert_eq!(r, expected);
}

#[test]
fn fresh_preview_journal_uses_distinct_ids() {
    let items = vec![gym_like("A"), gym_like("B")];
    let r = fresh_preview_journal(JOURNAL, &items, &strings(&["drop"])).unwrap();
    assert!(!r.contains("id:drop"));
    assert_eq!(r.matches("id:preview-").count(), 2);
    assert!(fresh_preview_journal(JOURNAL, &vec![], &vec![]).is_none());
}
