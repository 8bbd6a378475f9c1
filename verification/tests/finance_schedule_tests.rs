use manage_dan::date::{add_months_clamped, Date};
use manage_dan::db::RecurringOccurrenceRow;
use manage_dan::finances::models::{
    build_period_phrase, parse_period_phrase, payoff_step_days, AccountKind, Frequency, RecurringItem,
    RecurringTransfer, SpendingCategory, TxnKind,
};
use manage_dan::finances::occurrences::{
    build_summary, occurrence_summaries, tracked_map, window_start, LOOKBACK_MONTHS,
};

fn d(y: i32, m: u32, day: u32) -> Date {
    Date::from_ymd_opt(y, m, day).unwrap()
}

fn naive(x: Date) -> chrono::NaiveDate {
    chrono::NaiveDate::from_ymd_opt(x.year(), x.month(), x.day()).unwrap()
}

#[test]
fn add_months_clamped_normal_case() {
    assert_eq!(add_months_clamped(d(2026, 1, 15), 1), d(2026, 2, 15));
    assert_eq!(add_months_clamped(d(2026, 1, 15), 12), d(2027, 1, 15));
}

#[test]
fn add_months_clamped_clamps_month_end() {
    assert_eq!(add_months_clamped(d(2026, 1, 31), 1), d(2026, 2, 28));
    assert_eq!(add_months_clamped(d(2028, 1, 31), 1), d(2028, 2, 29));
    assert_eq!(add_months_clamped(d(2026, 1, 31), 2), d(2026, 3, 31));
}

#[test]
fn occurrences_between_weekly_no_reference_date() {
    let occ = Frequency::Weekly.occurrences_between(None, d(2026, 1, 1), d(2026, 1, 31));
    assert_eq!(occ, vec![d(2026, 1, 1), d(2026, 1, 8), d(2026, 1, 15), d(2026, 1, 22), d(2026, 1, 29)]);
}

#[test]
fn occurrences_between_biweekly_with_old_reference_date() {
    let anchor = d(2020, 1, 6);
    let occ = Frequency::Biweekly.occurrences_between(Some(anchor), d(2026, 1, 1), d(2026, 1, 31));
    for date in &occ {
        let days_since_anchor = (naive(*date) - naive(anchor)).num_days();
        assert_eq!(days_since_anchor % 14, 0, "{:?} not on the biweekly cadence from {:?}", date, anchor);
    }
    assert!(!occ.is_empty());
}

#[test]
fn occurrences_between_monthly_clamps_across_the_window() {
    let occ = Frequency::Monthly.occurrences_between(Some(d(2026, 1, 31)), d(2026, 1, 1), d(2026, 6, 30));
    assert_eq!(
        occ,
        vec![d(2026, 1, 31), d(2026, 2, 28), d(2026, 3, 31), d(2026, 4, 30), d(2026, 5, 31), d(2026, 6, 30)]
    );
}

#[test]
fn occurrences_between_yearly() {
    let occ = Frequency::Yearly.occurrences_between(Some(d(2024, 2, 29)), d(2024, 1, 1), d(2027, 12, 31));
    assert_eq!(occ, vec![d(2024, 2, 29), d(2025, 2, 28), d(2026, 2, 28), d(2027, 2, 28)]);
}

#[test]
fn occurrences_between_empty_when_start_after_end() {
    assert_eq!(Frequency::Monthly.occurrences_between(None, d(2026, 2, 1), d(2026, 1, 1)), Vec::new());
}

#[test]
fn occurrences_between_reference_date_after_window_is_empty() {
    let occ = Frequency::Monthly.occurrences_between(Some(d(2027, 1, 1)), d(2026, 1, 1), d(2026, 12, 31));
    assert!(occ.is_empty());
}

#[test]
fn period_phrases_round_trip() {
    for f in [Frequency::Weekly, Frequency::Biweekly, Frequency::Monthly, Frequency::Yearly] {
        let p = build_period_phrase(f, None);
        assert_eq!(parse_period_phrase(&p), Some((f, None)));
        let p = build_period_phrase(f, Some(d(2026, 3, 9)));
        assert_eq!(parse_period_phrase(&p), Some((f, Some(d(2026, 3, 9)))));
    }
    assert_eq!(build_period_phrase(Frequency::Biweekly, Some(d(2026, 1, 6))), "every 2 weeks from 2026-01-06");
    assert_eq!(parse_period_phrase("fortnightly"), None);
}

#[test]
fn category_and_kind_names_round_trip() {
    for c in [SpendingCategory::Stupid, SpendingCategory::Survival] {
        assert_eq!(SpendingCategory::from_account(c.account()), Some(c));
        assert_eq!(SpendingCategory::from_tag(c.tag()), Some(c));
    }
    assert_eq!(SpendingCategory::Stupid.account(), "expenses:stupid");
    for k in [AccountKind::Asset, AccountKind::Liability] {
        assert_eq!(AccountKind::from_prefix(k.prefix()), Some(k));
    }
    assert_eq!(AccountKind::from_prefix("equity"), None);
    assert_eq!(Frequency::from_period_phrase(Frequency::Yearly.period_phrase()), Some(Frequency::Yearly));
}

#[test]
fn payoff_steps_are_daily_then_weekly() {
    assert_eq!(payoff_step_days(12), 1);
    assert_eq!(payoff_step_days(13), 7);
}

fn row(id: &str, kind: &str, period: &str, paid: bool, paid_date: Option<&str>) -> RecurringOccurrenceRow {
    RecurringOccurrenceRow {
        recurring_id: id.to_string(),
        kind: kind.to_string(),
        period_start: period.to_string(),
        paid,
        paid_date: paid_date.map(|s| s.to_string()),
        updated_at: "2026-03-01T00:00:00Z".to_string(),
    }
}

#[test]
fn window_start_goes_back_by_months_clamping_the_day() {
    assert_eq!(window_start(d(2026, 3, 31), 1), d(2026, 2, 28));
    assert_eq!(window_start(d(2026, 3, 15), LOOKBACK_MONTHS), d(2025, 3, 15));
    assert_eq!(window_start(d(2026, 3, 15), 0), d(2026, 3, 15));
}

#[test]
fn summary_marks_unresolved_past_occurrences_overdue() {
    let tracking = tracked_map(vec![row("rec-1", "item", "2026-01-10", true, Some("2026-01-11"))]);
    let s = build_summary("rec-1", "item", "Rent", Frequency::Monthly, Some(d(2026, 1, 10)), d(2026, 1, 1), d(2026, 3, 10), &tracking)
        .unwrap();
    assert_eq!(s.recurring_id, "rec-1");
    assert_eq!(s.kind, "item");
    assert_eq!(s.name, "Rent");
    // the current period is the last occurrence, on the day itself: not overdue
    assert_eq!(s.current_period.period_start, d(2026, 3, 10));
    assert!(!s.current_period.resolved);
    assert!(!s.current_period.overdue);
    // January is paid; February and March are outstanding, February overdue
    assert_eq!(s.outstanding.len(), 2);
    assert_eq!(s.outstanding[0].period_start, d(2026, 2, 10));
    assert!(s.outstanding[0].overdue);
    assert_eq!(s.outstanding[1].period_start, d(2026, 3, 10));
}

#[test]
fn summary_reads_the_paid_row() {
    let tracking = tracked_map(vec![
        row("rec-1", "item", "2026-03-10", false, None),
        row("rec-1", "item", "2026-03-10", true, Some("2026-03-09")),
        row("rec-1", "transfer", "2026-03-10", false, None),
    ]);
    let s = build_summary("rec-1", "item", "Rent", Frequency::Monthly, Some(d(2026, 1, 10)), d(2026, 3, 1), d(2026, 3, 10), &tracking)
        .unwrap();
    // the later row for the same occurrence wins
    assert!(s.current_period.paid);
    assert!(s.current_period.resolved);
    assert_eq!(s.current_period.paid_date, Some(d(2026, 3, 9)));
    assert!(s.outstanding.is_empty());
}

#[test]
fn summary_is_none_without_occurrences() {
    let tracking = tracked_map(Vec::new());
    assert!(build_summary("x", "item", "X", Frequency::Yearly, Some(d(2026, 6, 1)), d(2026, 1, 1), d(2026, 3, 1), &tracking)
        .is_none());
}

#[test]
fn summaries_cover_items_then_transfers() {
    let item = RecurringItem {
        id: "rec-1".to_string(),
        name: "Rent".to_string(),
        amount: 120000,
        kind: TxnKind::Expense,
        label: "rent".to_string(),
        frequency: Frequency::Monthly,
        reference_date: Some(d(2026, 1, 10)),
        account: "assets:checking".to_string(),
        category: None,
    };
    let late = RecurringItem { id: "rec-2".to_string(), reference_date: Some(d(2027, 1, 1)), ..item.clone() };
    let transfer = RecurringTransfer {
        id: "rtr-1".to_string(),
        name: "Save".to_string(),
        amount: 1000,
        frequency: Frequency::Weekly,
        reference_date: None,
        from_account: "assets:checking".to_string(),
        to_account: "assets:savings".to_string(),
    };
    let out = occurrence_summaries(&vec![item, late], &vec![transfer], &tracked_map(Vec::new()), d(2026, 3, 10), 1);
    assert_eq!(out.len(), 2);
    assert_eq!(out[0].recurring_id, "rec-1");
    assert_eq!(out[0].kind, "item");
    assert_eq!(out[1].recurring_id, "rtr-1");
    assert_eq!(out[1].kind, "transfer");
    // weekly from the window start 2026-02-10: five occurrences up to 2026-03-10
    assert_eq!(out[1].current_period.period_start, d(2026, 3, 10));
    assert_eq!(out[1].outstanding.len(), 5);
}

#[test]
fn occurrences_reach_the_end_of_the_date_range() {
    let occ = Frequency::Weekly.occurrences_between(None, d(262142, 12, 1), d(262142, 12, 20));
    assert_eq!(occ, vec![d(262142, 12, 1), d(262142, 12, 8), d(262142, 12, 15)]);
    let occ = Frequency::Monthly.occurrences_between(Some(d(262142, 1, 31)), d(262142, 9, 1), d(262142, 10, 15));
    assert_eq!(occ, vec![d(262142, 9, 30)]);
}
