use manage_dan::date::Date;
use manage_dan::finances::models::{Frequency, PreviewItem, RecurringItem, RecurringTransfer, TxnKind};
use manage_dan::finances::payoff::{
    can_schedule, fresh_scheduled_items, payoff_periods, payoff_schedules, scheduled_items, scheduled_on,
    scheduled_transfers,
};

fn d(y: i32, m: u32, day: u32) -> Date {
    Date::from_ymd_opt(y, m, day).unwrap()
}

fn item(id: &str, kind: TxnKind, amount: i64, account: &str, f: Frequency, rd: Option<Date>) -> RecurringItem {
    RecurringItem {
        id: id.to_string(),
        name: id.to_string(),
        amount,
        kind,
        label: "x".to_string(),
        frequency: f,
        reference_date: rd,
        account: account.to_string(),
        category: None,
    }
}

fn transfer(from: &str, to: &str, amount: i64, rd: Option<Date>) -> RecurringTransfer {
    RecurringTransfer {
        id: "t".to_string(),
        name: "t".to_string(),
        amount,
        frequency: Frequency::Weekly,
        reference_date: rd,
        from_account: from.to_string(),
        to_account: to.to_string(),
    }
}

#[test]
fn schedules_cover_items_and_transfers_of_the_account() {
    let items = vec![
        item("pay", TxnKind::Income, 10000, "liabilities:visa", Frequency::Monthly, Some(d(2026, 1, 5))),
        item("other", TxnKind::Expense, 500, "assets:checking", Frequency::Monthly, None),
        item("fee", TxnKind::Expense, 300, "liabilities:visa", Frequency::Monthly, Some(d(2026, 1, 20))),
    ];
    let transfers = vec![transfer("assets:checking", "liabilities:visa", 2500, Some(d(2026, 3, 2)))];
    let (start, end) = (d(2026, 3, 1), d(2026, 3, 31));
    assert!(can_schedule(&items, &transfers, start, end));
    let s = payoff_schedules(&items, &transfers, "liabilities:visa", start, end);
    assert_eq!(s.len(), 3);
    assert_eq!(s[0].0, vec![d(2026, 3, 5)]);
    assert_eq!(s[0].1, 10000);
    assert_eq!(s[1].0, vec![d(2026, 3, 20)]);
    assert_eq!(s[1].1, -300);
    assert_eq!(s[2].0, vec![d(2026, 3, 2), d(2026, 3, 9), d(2026, 3, 16), d(2026, 3, 23), d(2026, 3, 30)]);
    assert_eq!(s[2].1, 2500);
    assert_eq!(scheduled_on(&s, d(2026, 3, 5)), 10000);
    assert_eq!(scheduled_on(&s, d(2026, 3, 9)), 2500);
    assert_eq!(scheduled_on(&s, d(2026, 3, 10)), 0);
}

#[test]
fn a_transfer_within_one_account_cancels_out() {
    let transfers = vec![transfer("assets:checking", "assets:checking", 700, Some(d(2026, 3, 2)))];
    let s = payoff_schedules(&Vec::new(), &transfers, "assets:checking", d(2026, 3, 1), d(2026, 3, 7));
    assert_eq!(s.len(), 2);
    assert_eq!(scheduled_on(&s, d(2026, 3, 2)), 0);
}

#[test]
fn far_future_dates_cannot_be_scheduled() {
    let items = vec![item("x", TxnKind::Income, 1, "a", Frequency::Weekly, Some(d(262142, 1, 1)))];
    assert!(!can_schedule(&items, &Vec::new(), d(2026, 1, 1), d(2026, 2, 1)));
    assert!(!can_schedule(&Vec::new(), &Vec::new(), d(2026, 1, 1), d(262141, 2, 1)));
    assert!(can_schedule(&Vec::new(), &Vec::new(), d(2026, 1, 1), d(2026, 2, 1)));
}

fn preview(name: &str, amount: i64) -> PreviewItem {
    PreviewItem {
        name: name.to_string(),
        amount,
        kind: TxnKind::Expense,
        frequency: Frequency::Weekly,
        reference_date: Some(d(2026, 1, 5)),
        account: "liabilities:visa".to_string(),
    }
}

#[test]
fn scheduled_items_drop_excluded_and_add_previews() {
    let items = vec![
        item("a", TxnKind::Expense, 100, "liabilities:visa", Frequency::Monthly, None),
        item("b", TxnKind::Income, 200, "liabilities:visa", Frequency::Monthly, None),
        item("c", TxnKind::Expense, 300, "assets:checking", Frequency::Monthly, None),
    ];
    let exclude = vec!["b".to_string(), "zz".to_string()];
    let r = scheduled_items(items, &vec![preview("Gym", 3000)], &exclude, &vec!["s1".to_string()]);
    let ids: Vec<&str> = r.iter().map(|i| i.id.as_str()).collect();
    assert_eq!(ids, vec!["a", "c", "preview-s1"]);
    let p = &r[2];
    assert_eq!(p.name, "Gym");
    assert_eq!(p.amount, 3000);
    assert_eq!(p.label, "preview");
    assert_eq!(p.frequency, Frequency::Weekly);
    assert_eq!(p.reference_date, Some(d(2026, 1, 5)));
    assert_eq!(p.account, "liabilities:visa");
    assert_eq!(p.category, None);
}

#[test]
fn scheduled_transfers_drop_excluded() {
    let mut t1 = transfer("assets:checking", "liabilities:visa", 500, None);
    t1.id = "t1".to_string();
    let mut t2 = transfer("assets:checking", "liabilities:visa", 700, None);
    t2.id = "t2".to_string();
    let r = scheduled_transfers(vec![t1, t2], &vec!["t1".to_string()]);
    assert_eq!(r.len(), 1);
    assert_eq!(r[0].id, "t2");
}

#[test]
fn fresh_scheduled_items_give_each_preview_its_own_id() {
    let r = fresh_scheduled_items(vec![], &vec![preview("A", 1), preview("B", 2)], &vec![]);
    assert_eq!(r.len(), 2);
    assert!(r[0].id.starts_with("preview-") && r[1].id.starts_with("preview-"));
    assert_ne!(r[0].id, r[1].id);
}

#[test]
fn payoff_periods_cover_the_horizon_in_steps() {
    let p = payoff_periods(d(2026, 1, 1), d(2026, 1, 18), 7);
    assert_eq!(
        p,
        vec![
            (d(2026, 1, 1), d(2026, 1, 7)),
            (d(2026, 1, 8), d(2026, 1, 14)),
            (d(2026, 1, 15), d(2026, 1, 17)),
        ]
    );
    let daily = payoff_periods(d(2026, 2, 27), d(2026, 3, 2), 1);
    assert_eq!(
        daily,
        vec![(d(2026, 2, 27), d(2026, 2, 27)), (d(2026, 2, 28), d(2026, 2, 28)), (d(2026, 3, 1), d(2026, 3, 1))]
    );
    assert!(payoff_periods(d(2026, 1, 1), d(2026, 1, 1), 7).is_empty());
}
