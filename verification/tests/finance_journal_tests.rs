use manage_dan::date::Date;
use manage_dan::finances::journal_parser::{parse_accounts, parse_recurring_items, parse_recurring_transfers};
use manage_dan::finances::journal_writer::{
    format_account_directive, format_adjustment_transaction, format_recurring_item, format_recurring_transfer,
    format_spending_entry, format_transfer_entry, remove_blocks_with_id, sanitize_account_leaf, sanitize_line,
};
use manage_dan::finances::models::{AccountKind, Frequency, SpendingCategory, TxnKind};

fn d(y: i32, m: u32, day: u32) -> Date {
    Date::from_ymd_opt(y, m, day).unwrap()
}

#[test]
fn round_trips_expense_item() {
    let text = format_recurring_item(
        "rec-1",
        "Netflix",
        1500,
        TxnKind::Expense,
        "netflix",
        Frequency::Monthly,
        None,
        "assets:checking",
        None,
    );
    let items = parse_recurring_items(&text);
    assert_eq!(items.len(), 1);
    let item = &items[0];
    assert_eq!(item.id, "rec-1");
    assert_eq!(item.name, "Netflix");
    assert_eq!(item.amount, 1500);
    assert_eq!(item.kind, TxnKind::Expense);
    assert_eq!(item.label, "netflix");
    assert_eq!(item.frequency, Frequency::Monthly);
    assert_eq!(item.reference_date, None);
    assert_eq!(item.account, "assets:checking");
    assert_eq!(item.category, None);
}

#[test]
fn round_trips_expense_item_with_category() {
    let text = format_recurring_item(
        "rec-1b",
        "Netflix",
        1500,
        TxnKind::Expense,
        "netflix",
        Frequency::Monthly,
        None,
        "assets:checking",
        Some(SpendingCategory::Stupid),
    );
    let items = parse_recurring_items(&text);
    assert_eq!(items.len(), 1);
    assert_eq!(items[0].category, Some(SpendingCategory::Stupid));
    assert_eq!(items[0].label, "netflix");
}

#[test]
fn round_trips_income_item() {
    let text = format_recurring_item(
        "rec-2",
        "Salary",
        200000,
        TxnKind::Income,
        "salary",
        Frequency::Biweekly,
        None,
        "assets:checking",
        None,
    );
    let items = parse_recurring_items(&text);
    assert_eq!(items.len(), 1);
    let item = &items[0];
    assert_eq!(item.kind, TxnKind::Income);
    assert_eq!(item.label, "salary");
    assert_eq!(item.frequency, Frequency::Biweekly);
    assert_eq!(item.amount, 200000);
}

#[test]
fn round_trips_reference_date() {
    let reference_date = d(2026, 1, 6);
    let text = format_recurring_item(
        "rec-3",
        "Rent",
        120000,
        TxnKind::Expense,
        "rent",
        Frequency::Biweekly,
        Some(reference_date),
        "assets:checking",
        None,
    );
    let items = parse_recurring_items(&text);
    assert_eq!(items.len(), 1);
    assert_eq!(items[0].reference_date, Some(reference_date));
}

#[test]
fn round_trips_liability_account() {
    let text = format_recurring_item(
        "rec-4",
        "Visa payment",
        5000,
        TxnKind::Expense,
        "visa-payment",
        Frequency::Monthly,
        None,
        "liabilities:visa",
        None,
    );
    let items = parse_recurring_items(&text);
    assert_eq!(items.len(), 1);
    assert_eq!(items[0].account, "liabilities:visa");
}

#[test]
fn ignores_plain_transactions() {
    let content = "2026-07-05 Junk food  ; id:abc\n    expenses:stupid    $12.50\n    assets:checking\n\n";
    assert_eq!(parse_recurring_items(content).len(), 0);
}

#[test]
fn parses_multiple_blocks_mixed_with_transactions() {
    let mut content = String::new();
    content.push_str("2026-07-01 Salary  ; id:t1\n    assets:checking    $2000.00\n    income:salary\n\n");
    content.push_str(&format_recurring_item(
        "rec-1",
        "Netflix",
        1500,
        TxnKind::Expense,
        "netflix",
        Frequency::Monthly,
        None,
        "assets:checking",
        None,
    ));
    content.push_str(&format_recurring_item(
        "rec-2",
        "Taxes",
        50000,
        TxnKind::Expense,
        "taxes",
        Frequency::Yearly,
        None,
        "assets:checking",
        None,
    ));
    let items = parse_recurring_items(&content);
    assert_eq!(items.len(), 2);
    assert_eq!(items[0].id, "rec-1");
    assert_eq!(items[1].id, "rec-2");
}

#[test]
fn round_trips_recurring_transfer() {
    let text =
        format_recurring_transfer("rtr-1", "Auto-save", 10000, Frequency::Monthly, None, "assets:checking", "assets:savings");
    let transfers = parse_recurring_transfers(&text);
    assert_eq!(transfers.len(), 1);
    let t = &transfers[0];
    assert_eq!(t.id, "rtr-1");
    assert_eq!(t.name, "Auto-save");
    assert_eq!(t.amount, 10000);
    assert_eq!(t.frequency, Frequency::Monthly);
    assert_eq!(t.from_account, "assets:checking");
    assert_eq!(t.to_account, "assets:savings");
}

#[test]
fn recurring_transfer_not_parsed_as_regular_recurring_item() {
    let text =
        format_recurring_transfer("rtr-2", "Auto-save", 10000, Frequency::Monthly, None, "assets:checking", "assets:savings");
    assert_eq!(parse_recurring_items(&text).len(), 0);
}

#[test]
fn regular_recurring_item_not_parsed_as_transfer() {
    let text = format_recurring_item(
        "rec-x",
        "Netflix",
        1500,
        TxnKind::Expense,
        "netflix",
        Frequency::Monthly,
        None,
        "assets:checking",
        None,
    );
    assert_eq!(parse_recurring_transfers(&text).len(), 0);
}

#[test]
fn round_trips_account_directive() {
    let text = format_account_directive("acc-1", "Checking", AccountKind::Asset, "checking", None, None);
    let accounts = parse_accounts(&text);
    assert_eq!(accounts.len(), 1);
    assert_eq!(accounts[0].id, "acc-1");
    assert_eq!(accounts[0].name, "Checking");
    assert_eq!(accounts[0].kind, AccountKind::Asset);
    assert_eq!(accounts[0].slug, "checking");
}

#[test]
fn round_trips_liability_account_directive() {
    let text = format_account_directive("acc-2", "Visa", AccountKind::Liability, "visa", None, None);
    let accounts = parse_accounts(&text);
    assert_eq!(accounts.len(), 1);
    assert_eq!(accounts[0].kind, AccountKind::Liability);
}

#[test]
fn round_trips_account_directive_with_rate() {
    let text = format_account_directive("acc-3", "Visa", AccountKind::Liability, "visa", Some(2499), None);
    let accounts = parse_accounts(&text);
    assert_eq!(accounts.len(), 1);
    assert_eq!(accounts[0].name, "Visa");
    assert_eq!(accounts[0].interest_rate, Some(2499));
    assert_eq!(accounts[0].credit_limit, None);
}

#[test]
fn round_trips_account_directive_with_rate_and_limit() {
    let text = format_account_directive("acc-3b", "Visa", AccountKind::Liability, "visa", Some(2499), Some(200000));
    let accounts = parse_accounts(&text);
    assert_eq!(accounts.len(), 1);
    assert_eq!(accounts[0].name, "Visa");
    assert_eq!(accounts[0].interest_rate, Some(2499));
    assert_eq!(accounts[0].credit_limit, Some(200000));
}

#[test]
fn round_trips_account_directive_with_limit_only() {
    let text = format_account_directive("acc-3c", "Visa", AccountKind::Liability, "visa", None, Some(50000));
    let accounts = parse_accounts(&text);
    assert_eq!(accounts.len(), 1);
    assert_eq!(accounts[0].interest_rate, None);
    assert_eq!(accounts[0].credit_limit, Some(50000));
}

#[test]
fn account_directive_without_rate_parses_as_none() {
    let text = format_account_directive("acc-4", "Checking", AccountKind::Asset, "checking", None, None);
    let accounts = parse_accounts(&text);
    assert_eq!(accounts[0].interest_rate, None);
    assert_eq!(accounts[0].credit_limit, None);
}

#[test]
fn parses_account_name_containing_literal_rate_substring() {
    let content = "account liabilities:visa  ; id:acc-5 name:My rate: card is high\n\n";
    let accounts = parse_accounts(content);
    assert_eq!(accounts.len(), 1);
    assert_eq!(accounts[0].name, "My rate: card is high");
    assert_eq!(accounts[0].interest_rate, None);

    let content_with_rate = "account liabilities:visa  ; id:acc-6 name:My rate: card is high rate:9.99\n\n";
    let accounts = parse_accounts(content_with_rate);
    assert_eq!(accounts.len(), 1);
    assert_eq!(accounts[0].name, "My rate: card is high");
    assert_eq!(accounts[0].interest_rate, Some(999));
}

#[test]
fn parses_account_name_containing_literal_limit_substring() {
    let content = "account liabilities:visa  ; id:acc-7 name:My limit: is high\n\n";
    let accounts = parse_accounts(content);
    assert_eq!(accounts.len(), 1);
    assert_eq!(accounts[0].name, "My limit: is high");
    assert_eq!(accounts[0].credit_limit, None);

    let content_with_both =
        "account liabilities:visa  ; id:acc-8 name:My rate: and limit: are both high rate:9.99 limit:5000\n\n";
    let accounts = parse_accounts(content_with_both);
    assert_eq!(accounts.len(), 1);
    assert_eq!(accounts[0].name, "My rate: and limit: are both high");
    assert_eq!(accounts[0].interest_rate, Some(999));
    assert_eq!(accounts[0].credit_limit, Some(500000));
}

#[test]
fn ignores_non_account_blocks_when_parsing_accounts() {
    let content = "2026-07-05 Junk food  ; id:abc\n    expenses:stupid    $12.50\n    assets:checking\n\n";
    assert_eq!(parse_accounts(content).len(), 0);
}

#[test]
fn spending_entry_format_is_exact() {
    let text = format_spending_entry("abc-123", d(2026, 7, 26), "Junk food", SpendingCategory::Stupid, 1250, "assets:checking");
    assert_eq!(text, "2026-07-26 Junk food  ; id:abc-123\n    expenses:stupid    $12.50\n    assets:checking\n\n");
}

#[test]
fn recurring_expense_format_is_exact() {
    let text = format_recurring_item(
        "rec-1",
        "Netflix",
        1500,
        TxnKind::Expense,
        "netflix",
        Frequency::Monthly,
        None,
        "assets:checking",
        None,
    );
    assert_eq!(text, "~ monthly  ; id:rec-1 name:Netflix\n    expenses:netflix    $15.00\n    assets:checking\n\n");
}

#[test]
fn recurring_expense_with_category_format_is_exact() {
    let text = format_recurring_item(
        "rec-1b",
        "Netflix",
        1500,
        TxnKind::Expense,
        "netflix",
        Frequency::Monthly,
        None,
        "assets:checking",
        Some(SpendingCategory::Stupid),
    );
    assert_eq!(
        text,
        "~ monthly  ; id:rec-1b name:Netflix category:stupid\n    expenses:netflix    $15.00\n    assets:checking\n\n"
    );
}

#[test]
fn recurring_income_format_is_exact() {
    let text = format_recurring_item(
        "rec-2",
        "Salary",
        200000,
        TxnKind::Income,
        "salary",
        Frequency::Biweekly,
        None,
        "assets:checking",
        None,
    );
    assert_eq!(text, "~ every 2 weeks  ; id:rec-2 name:Salary\n    assets:checking    $2000.00\n    income:salary\n\n");
}

#[test]
fn recurring_item_with_reference_date_embeds_from_clause() {
    let text = format_recurring_item(
        "rec-3",
        "Rent",
        120000,
        TxnKind::Expense,
        "rent",
        Frequency::Biweekly,
        Some(d(2026, 1, 6)),
        "assets:checking",
        None,
    );
    assert_eq!(
        text,
        "~ every 2 weeks from 2026-01-06  ; id:rec-3 name:Rent\n    expenses:rent    $1200.00\n    assets:checking\n\n"
    );
}

#[test]
fn recurring_item_uses_selected_account() {
    let text = format_recurring_item(
        "rec-4",
        "Visa payment",
        5000,
        TxnKind::Expense,
        "visa-payment",
        Frequency::Monthly,
        None,
        "liabilities:visa",
        None,
    );
    assert_eq!(
        text,
        "~ monthly  ; id:rec-4 name:Visa payment\n    expenses:visa-payment    $50.00\n    liabilities:visa\n\n"
    );
}

#[test]
fn sanitizes_newlines_in_description() {
    let text = format_spending_entry("x", d(2026, 1, 1), "line1\nline2", SpendingCategory::Survival, 100, "assets:checking");
    assert!(!text.contains("line1\nline2"));
    assert!(text.starts_with("2026-01-01 line1 line2"));
}

#[test]
fn account_directive_format_is_exact() {
    let text = format_account_directive("acc-1", "Checking", AccountKind::Asset, "checking", None, None);
    assert_eq!(text, "account assets:checking  ; id:acc-1 name:Checking\n\n");
}

#[test]
fn liability_account_directive_format_is_exact() {
    let text = format_account_directive("acc-2", "Visa", AccountKind::Liability, "visa", None, None);
    assert_eq!(text, "account liabilities:visa  ; id:acc-2 name:Visa\n\n");
}

#[test]
fn account_directive_with_rate_format_is_exact() {
    let text = format_account_directive("acc-3", "Visa", AccountKind::Liability, "visa", Some(2499), None);
    assert_eq!(text, "account liabilities:visa  ; id:acc-3 name:Visa rate:24.99\n\n");
}

#[test]
fn account_directive_with_rate_and_limit_format_is_exact() {
    let text = format_account_directive("acc-4", "Visa", AccountKind::Liability, "visa", Some(2499), Some(100000));
    assert_eq!(text, "account liabilities:visa  ; id:acc-4 name:Visa rate:24.99 limit:1000\n\n");
}

#[test]
fn account_directive_with_limit_only_format_is_exact() {
    let text = format_account_directive("acc-5", "Visa", AccountKind::Liability, "visa", None, Some(50000));
    assert_eq!(text, "account liabilities:visa  ; id:acc-5 name:Visa limit:500\n\n");
}

#[test]
fn transfer_entry_format_is_exact() {
    let text = format_transfer_entry("tr-1", d(2026, 7, 26), "Move to savings", 30000, "assets:checking", "assets:savings");
    assert_eq!(
        text,
        "2026-07-26 Move to savings  ; id:tr-1, transfer:1\n    assets:savings    $300.00\n    assets:checking\n\n"
    );
}

#[test]
fn recurring_transfer_format_is_exact() {
    let text =
        format_recurring_transfer("rtr-1", "Auto-save", 10000, Frequency::Monthly, None, "assets:checking", "assets:savings");
    assert_eq!(
        text,
        "~ monthly  ; id:rtr-1 name:Auto-save transfer:1\n    assets:savings    $100.00\n    assets:checking\n\n"
    );
}

#[test]
fn adjustment_transaction_format_is_exact() {
    let text = format_adjustment_transaction("adj-1", d(2026, 7, 26), "assets:checking", -4250);
    assert_eq!(
        text,
        "2026-07-26 Balance adjustment  ; id:adj-1\n    assets:checking    $-42.50\n    equity:adjustments\n\n"
    );
}

#[test]
fn removing_a_block_by_id_keeps_the_others() {
    let mut content = String::new();
    content.push_str(&format_account_directive("acc-1", "Checking", AccountKind::Asset, "checking", None, None));
    content.push_str(&format_account_directive("acc-2", "Visa", AccountKind::Liability, "visa", None, None));
    let (found, rest) = remove_blocks_with_id(&content, "acc-1");
    assert!(found);
    assert!(!rest.contains("id:acc-1"));
    assert!(rest.contains("id:acc-2"));
    let (found, _) = remove_blocks_with_id(&content, "missing");
    assert!(!found);
}

#[test]
fn sanitizers_flatten_lines_and_account_leaves() {
    assert_eq!(sanitize_line("a\r\nb"), "a  b");
    assert_eq!(sanitize_account_leaf("a:b c"), "a-b_c");
}

#[test]
fn remove_matches_the_whole_id_value_only() {
    let one = format_recurring_item(
        "rec-1", "Gym", 2000, TxnKind::Expense, "gym", Frequency::Monthly, None, "assets:checking", None,
    );
    let ten = format_recurring_item(
        "rec-10", "Rent", 150000, TxnKind::Expense, "rent", Frequency::Monthly, None, "assets:checking", None,
    );
    let content = format!("{one}{ten}");
    let (found, rest) = remove_blocks_with_id(&content, "rec-1");
    assert!(found);
    assert_eq!(rest, ten);
    let (found, rest) = remove_blocks_with_id(&ten, "rec-1");
    assert!(!found);
    assert_eq!(rest, ten);
}

#[test]
fn remove_with_an_empty_id_keeps_every_record() {
    let content = format_spending_entry("sp-1", d(2026, 7, 26), "Junk food", SpendingCategory::Stupid, 1250, "assets:checking");
    let (found, rest) = remove_blocks_with_id(&content, "");
    assert!(!found);
    assert_eq!(rest, content);
}

#[test]
fn reference_dates_with_signed_years_round_trip() {
    for rd in [d(12026, 3, 9), d(-44, 3, 15), d(7, 1, 1)] {
        let text = format_recurring_item(
            "rec-9", "Far off", 100, TxnKind::Expense, "far", Frequency::Yearly, Some(rd), "assets:checking", None,
        );
        let items = parse_recurring_items(&text);
        assert_eq!(items.len(), 1);
        assert_eq!(items[0].reference_date, Some(rd));
    }
}

#[test]
fn amounts_rates_and_limits_with_more_decimals_round_to_hundredths() {
    let content = "account liabilities:visa  ; id:acc-9 name:Visa rate:9.995 limit:5000.124\n\n";
    let accounts = parse_accounts(content);
    assert_eq!(accounts.len(), 1);
    assert_eq!(accounts[0].name, "Visa");
    assert_eq!(accounts[0].interest_rate, Some(1000));
    assert_eq!(accounts[0].credit_limit, Some(500012));
    let text = format_recurring_item(
        "rec-7", "Gym", 1500, TxnKind::Expense, "gym", Frequency::Monthly, None, "assets:checking", None,
    )
    .replace("$15.00", "$15.005");
    let items = parse_recurring_items(&text);
    assert_eq!(items.len(), 1);
    assert_eq!(items[0].amount, 1501);
    let text = text.replace("$15.005", "$15.0049");
    assert_eq!(parse_recurring_items(&text)[0].amount, 1500);
}
