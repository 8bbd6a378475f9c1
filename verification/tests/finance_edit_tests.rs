use manage_dan::date::Date;
use manage_dan::finances::journal_edits::{
    new_account, new_adjustment, new_recurring_item, new_recurring_transfer, new_spending_entry, new_transfer_entry,
    rewrite_account, rewrite_journal, rewrite_recurring_item, rewrite_recurring_transfer, rewrite_spending_entry,
};
use manage_dan::finances::journal_parser::{parse_accounts, parse_recurring_items, parse_recurring_transfers};
use manage_dan::finances::journal_writer::{
    format_account_directive, format_recurring_item, format_recurring_transfer, format_spending_entry,
    remove_blocks_with_id,
};
use manage_dan::finances::models::{AccountKind, Frequency, SpendingCategory, TxnKind};

fn d(y: i32, m: u32, day: u32) -> Date {
    Date::from_ymd_opt(y, m, day).unwrap()
}

#[test]
fn rewrite_spending_entry_replaces_existing_block_same_id() {
    let content =
        format_spending_entry("sp-1", d(2026, 7, 26), "Junk food", SpendingCategory::Stupid, 1250, "assets:checking");
    let result = rewrite_spending_entry(
        &content,
        "sp-1",
        d(2026, 7, 27),
        "Groceries",
        SpendingCategory::Survival,
        6000,
        "assets:checking",
    );
    assert!(result.is_some());
    let (content, entry) = result.unwrap();
    assert_eq!(content.matches("id:sp-1").count(), 1);
    assert!(content.contains("Groceries"));
    assert!(content.contains("expenses:survival"));
    assert!(content.contains("$60.00"));
    assert_eq!(entry.id, "sp-1");
    assert_eq!(entry.date, d(2026, 7, 27));
    assert_eq!(entry.amount, 6000);
}

#[test]
fn rewrite_spending_entry_returns_none_when_missing() {
    let result = rewrite_spending_entry("", "missing", d(2026, 7, 26), "X", SpendingCategory::Stupid, 100, "assets:checking");
    assert!(result.is_none());
}

#[test]
fn rewrite_account_replaces_existing_block_same_id() {
    let content = format_account_directive("acc-1", "Visa", AccountKind::Liability, "visa", None, None);
    let result =
        rewrite_account(&content, "acc-1", "Visa Signature", AccountKind::Liability, "visa", Some(1999), Some(150000));
    assert!(result.is_some());
    let (content, account) = result.unwrap();
    assert_eq!(content.matches("id:acc-1").count(), 1);
    assert!(content.contains("Visa Signature"));
    assert!(content.contains("rate:19.99"));
    assert!(content.contains("limit:1500"));
    assert_eq!(account.balance, 0);
    let accounts = parse_accounts(&content);
    assert_eq!(accounts.len(), 1);
    assert_eq!(accounts[0].name, "Visa Signature");
}

#[test]
fn rewrite_account_returns_none_when_missing() {
    assert!(rewrite_account("", "missing", "X", AccountKind::Asset, "x", None, None).is_none());
}

#[test]
fn rewrite_recurring_item_replaces_existing_block_same_id() {
    let content = format_recurring_item(
        "rec-1",
        "Netflix",
        1500,
        TxnKind::Expense,
        "netflix",
        Frequency::Monthly,
        None,
        "assets:checking",
        None,
    );
    let result = rewrite_recurring_item(
        &content,
        "rec-1",
        "Netflix Premium",
        2299,
        TxnKind::Expense,
        "netflix",
        Frequency::Monthly,
        None,
        "assets:checking",
        Some(SpendingCategory::Stupid),
    );
    assert!(result.is_some());
    let (content, item) = result.unwrap();
    assert_eq!(content.matches("id:rec-1").count(), 1);
    assert!(content.contains("Netflix Premium"));
    assert!(content.contains("$22.99"));
    assert!(content.contains("category:stupid"));
    assert_eq!(item.category, Some(SpendingCategory::Stupid));
    let items = parse_recurring_items(&content);
    assert_eq!(items.len(), 1);
    assert_eq!(items[0].id, "rec-1");
    assert_eq!(items[0].amount, 2299);
}

#[test]
fn rewrite_recurring_item_returns_false_when_missing() {
    let result = rewrite_recurring_item(
        "",
        "missing",
        "X",
        100,
        TxnKind::Expense,
        "x",
        Frequency::Monthly,
        None,
        "assets:checking",
        None,
    );
    assert!(result.is_none());
}

#[test]
fn rewrite_recurring_transfer_replaces_existing_block_same_id() {
    let content = format_recurring_transfer(
        "rtr-1",
        "Auto-save",
        10000,
        Frequency::Monthly,
        None,
        "assets:checking",
        "assets:savings",
    );
    let result = rewrite_recurring_transfer(
        &content,
        "rtr-1",
        "Auto-save Plus",
        15000,
        Frequency::Monthly,
        None,
        "assets:checking",
        "assets:savings",
    );
    assert!(result.is_some());
    let (content, transfer) = result.unwrap();
    assert_eq!(content.matches("id:rtr-1").count(), 1);
    assert!(content.contains("Auto-save Plus"));
    assert!(content.contains("$150.00"));
    assert_eq!(transfer.name, "Auto-save Plus");
    assert_eq!(parse_recurring_transfers(&content).len(), 1);
}

#[test]
fn rewrite_keeps_other_records() {
    let a = format_spending_entry("a", d(2026, 1, 1), "A", SpendingCategory::Stupid, 100, "assets:checking");
    let b = format_spending_entry("b", d(2026, 1, 2), "B", SpendingCategory::Stupid, 200, "assets:checking");
    let content = format!("{a}{b}");
    let new_text = "NEW\n\n";
    let r = rewrite_journal(&content, "a", new_text).unwrap();
    assert!(r.contains("id:b"));
    assert!(!r.contains("id:a"));
    assert!(r.ends_with(new_text));
    assert!(rewrite_journal(&content, "zzz", new_text).is_none());
}

#[test]
fn new_records_carry_their_fresh_id() {
    let (text, entry) =
        new_spending_entry(SpendingCategory::Survival, 4200, "Line\nbreak", d(2026, 3, 3), "assets:checking");
    assert!(text.contains(&format!("id:{}", entry.id)));
    assert_eq!(entry.description, "Line break");
    let (text, t) = new_transfer_entry("Save", 500, d(2026, 3, 3), "assets:checking", "assets:savings");
    assert!(text.contains(&format!("id:{}, transfer:1", t.id)));
    let (text, item) = new_recurring_item(
        "Gym",
        3000,
        TxnKind::Expense,
        "gym club",
        Frequency::Monthly,
        None,
        "assets:checking",
        None,
    );
    assert_eq!(item.label, "gym_club");
    assert_eq!(parse_recurring_items(&text)[0].id, item.id);
    let (text, rt) = new_recurring_transfer("Auto", 100, Frequency::Weekly, None, "assets:checking", "assets:savings");
    assert_eq!(parse_recurring_transfers(&text)[0].id, rt.id);
    let (text, account) = new_account("My Visa: Gold", AccountKind::Liability, Some(2499), None);
    assert_eq!(account.slug, "my_visa-_gold");
    assert!(text.starts_with("account liabilities:my_visa-_gold  ; id:"));
    let adj = new_adjustment("assets:checking", -4250, d(2026, 7, 26));
    assert!(adj.starts_with("2026-07-26 Balance adjustment  ; id:"));
    assert!(adj.ends_with("\n    assets:checking    $-42.50\n    equity:adjustments\n\n"));
}

#[test]
fn appended_records_read_back_after_existing_ones() {
    let a = format_recurring_item("a", "Rent", 100000, TxnKind::Expense, "rent", Frequency::Monthly, None, "assets:checking", None);
    let b = format_recurring_item("b", "Gym", 3000, TxnKind::Expense, "gym", Frequency::Weekly, None, "assets:checking", None);
    let journal = format!("{a}2026-01-01 Coffee  ; id:x\n    expenses:coffee    $4.00\n    assets:checking\n\n");
    let before: Vec<String> = parse_recurring_items(&journal).into_iter().map(|i| i.id).collect();
    assert_eq!(before, vec!["a"]);
    let after: Vec<String> = parse_recurring_items(&format!("{journal}{b}")).into_iter().map(|i| i.id).collect();
    assert_eq!(after, vec!["a", "b"]);
}

#[test]
fn rewritten_record_reads_back_last_among_the_others() {
    let a = format_recurring_item("a", "Rent", 100000, TxnKind::Expense, "rent", Frequency::Monthly, None, "assets:checking", None);
    let b = format_recurring_item("b", "Gym", 3000, TxnKind::Expense, "gym", Frequency::Weekly, None, "assets:checking", None);
    let journal = format!("{a}{b}");
    let (content, _) = rewrite_recurring_item(
        &journal,
        "a",
        "Rent",
        120000,
        TxnKind::Expense,
        "rent",
        Frequency::Monthly,
        None,
        "assets:checking",
        None,
    )
    .unwrap();
    let items = parse_recurring_items(&content);
    let ids: Vec<&str> = items.iter().map(|i| i.id.as_str()).collect();
    assert_eq!(ids, vec!["b", "a"]);
    assert_eq!(items[1].amount, 120000);
}

#[test]
fn removed_record_no_longer_reads_back() {
    let a = format_recurring_item("a", "Rent", 100000, TxnKind::Expense, "rent", Frequency::Monthly, None, "assets:checking", None);
    let t = format_recurring_transfer("t", "Save", 500, Frequency::Monthly, None, "assets:checking", "assets:savings");
    let (found, rest) = remove_blocks_with_id(&format!("{a}{t}"), "a");
    assert!(found);
    assert!(parse_recurring_items(&rest).is_empty());
    assert_eq!(parse_recurring_transfers(&rest).len(), 1);
}

#[test]
fn fresh_ids_have_the_shape_of_a_version_4_uuid() {
    let (_, e) = new_spending_entry(SpendingCategory::Stupid, 100, "Snack", d(2026, 3, 3), "assets:checking");
    let id: Vec<char> = e.id.chars().collect();
    assert_eq!(id.len(), 36);
    for (i, c) in id.iter().enumerate() {
        if [8, 13, 18, 23].contains(&i) {
            assert_eq!(*c, '-');
        } else {
            assert!(c.is_ascii_digit() || ('a'..='f').contains(c));
        }
    }
    assert_eq!(id[14], '4');
    assert!(['8', '9', 'a', 'b'].contains(&id[19]));
}
