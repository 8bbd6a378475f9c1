use manage_dan::finances::reports::size_sum_fits;
use manage_dan::date::Date;
use manage_dan::finances::models::{Account, AccountKind, SpendingCategory};
use manage_dan::finances::reports::{
    account_balance, balance_adjustment, end_exclusive, spending_entries, spending_entry_of, spending_totals,
    transfer_entries, transfer_entry_of, with_balances, HledgerTransaction, Posting,
};

fn d(y: i32, m: u32, day: u32) -> Date {
    Date::from_ymd_opt(y, m, day).unwrap()
}

fn posting(account: &str, amount: i64) -> Posting {
    Posting { paccount: account.to_string(), amount }
}

fn txn(date: &str, desc: &str, id: Option<&str>, postings: Vec<Posting>) -> HledgerTransaction {
    HledgerTransaction {
        tdate: date.to_string(),
        tdescription: desc.to_string(),
        ttags: id.map(|v| vec![("transfer".to_string(), "1".to_string()), ("id".to_string(), v.to_string())]).unwrap_or_default(),
        tpostings: postings,
    }
}

#[test]
fn spending_entry_reads_category_amount_account_and_id() {
    let t = txn("2026-07-26", "Junk food", Some("abc"), vec![posting("expenses:stupid", 1250), posting("assets:checking", -1250)]);
    let e = spending_entry_of(&t).unwrap();
    assert_eq!(e.id, "abc");
    assert_eq!(e.date, d(2026, 7, 26));
    assert_eq!(e.description, "Junk food");
    assert_eq!(e.category, SpendingCategory::Stupid);
    assert_eq!(e.amount, 1250);
    assert_eq!(e.account, "assets:checking");
}

#[test]
fn spending_entry_needs_a_category_posting_and_a_date() {
    let t = txn("2026-07-26", "Rent", None, vec![posting("expenses:rent", 100), posting("assets:checking", -100)]);
    assert!(spending_entry_of(&t).is_none());
    let t = txn("26th July", "x", None, vec![posting("expenses:survival", 100)]);
    assert!(spending_entry_of(&t).is_none());
    let t = txn("2026-07-26", "x", None, vec![posting("expenses:survival", 100)]);
    let e = spending_entry_of(&t).unwrap();
    assert_eq!(e.id, "");
    assert_eq!(e.account, "");
}

#[test]
fn transfers_take_the_positive_posting_as_destination() {
    let t = txn("2026-07-26", "Save", Some("tr-1"), vec![posting("assets:savings", 30000), posting("assets:checking", -30000)]);
    let e = transfer_entry_of(&t).unwrap();
    assert_eq!(e.id, "tr-1");
    assert_eq!(e.amount, 30000);
    assert_eq!(e.from_account, "assets:checking");
    assert_eq!(e.to_account, "assets:savings");
    let one_sided = txn("2026-07-26", "x", None, vec![posting("assets:savings", 5)]);
    assert!(transfer_entry_of(&one_sided).is_none());
}

#[test]
fn entry_lists_skip_transactions_recording_none() {
    let txns = vec![
        txn("2026-07-01", "a", None, vec![posting("expenses:stupid", 1)]),
        txn("2026-07-02", "b", None, vec![posting("income:salary", -1)]),
        txn("2026-07-03", "c", None, vec![posting("expenses:survival", 2), posting("assets:checking", -2)]),
    ];
    let s = spending_entries(&txns);
    assert_eq!(s.len(), 2);
    assert_eq!(s[1].description, "c");
    let t = transfer_entries(&txns);
    assert_eq!(t.len(), 1);
    assert_eq!(t[0].description, "c");
}

#[test]
fn totals_split_rows_by_category_prefix() {
    let rows = vec![
        ("expenses:stupid".to_string(), 1250),
        ("expenses:survival".to_string(), 4000),
        ("expenses:stupid:snacks".to_string(), 250),
        ("assets:checking".to_string(), -5500),
    ];
    let t = spending_totals(&rows);
    assert_eq!(t.stupid, 1500);
    assert_eq!(t.survival, 4000);
}

#[test]
fn balances_sum_the_rows_of_exactly_the_account() {
    let rows = vec![
        ("assets:checking".to_string(), 10000),
        ("assets:checking:sub".to_string(), 5),
        ("assets:checking".to_string(), -2500),
    ];
    assert_eq!(account_balance(&rows, "assets:checking"), 7500);
    assert_eq!(account_balance(&rows, "liabilities:visa"), 0);
    let accounts = vec![Account {
        id: "acc-1".to_string(),
        name: "Checking".to_string(),
        kind: AccountKind::Asset,
        slug: "checking".to_string(),
        balance: 0,
        interest_rate: None,
        credit_limit: None,
    }];
    let out = with_balances(accounts, &rows);
    assert_eq!(out[0].balance, 7500);
    assert_eq!(out[0].id, "acc-1");
}

#[test]
fn report_end_is_the_day_after() {
    assert_eq!(end_exclusive(d(2026, 7, 28)), "2026-07-29");
    assert_eq!(end_exclusive(d(2026, 12, 31)), "2027-01-01");
}

#[test]
fn adjustments_post_only_a_difference() {
    assert_eq!(balance_adjustment(-10000, -10000), None);
    assert_eq!(balance_adjustment(-10000, -7500), Some(2500));
    assert_eq!(balance_adjustment(500, 0), Some(-500));
}

#[test]
fn totals_need_amounts_that_add_up_within_range() {
    assert!(size_sum_fits(&vec![("a".to_string(), 5), ("b".to_string(), -7)]));
    assert!(!size_sum_fits(&vec![("a".to_string(), i64::MAX), ("b".to_string(), -1)]));
    assert!(!size_sum_fits(&vec![("a".to_string(), i64::MIN)]));
    assert!(size_sum_fits(&Vec::new()));
}
