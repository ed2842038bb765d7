use accrue::filter::TransactionFilter;
use accrue::ledger::Ledger;
use accrue::model::{Date, TxType};

fn day(year: u32, month: u32, d: u32) -> Date {
    Date { year, month, day: d }
}

fn now() -> String {
    "2024-01-01 00:00:00".to_string()
}

fn account(l: &mut Ledger, name: &str, kind: &str, opening: i64) -> i64 {
    l.create_account(name.to_string(), kind, None, opening, None, None, None, now())
        .unwrap()
        .id
}

fn tx(
    l: &mut Ledger,
    account: i64,
    category: Option<i64>,
    kind: &str,
    amount: i64,
    date: Date,
    notes: Option<&str>,
) -> i64 {
    l.create_transaction(
        account,
        category,
        kind,
        amount,
        date,
        notes.map(|s| s.to_string()),
        false,
        None,
        None,
        now(),
    )
    .unwrap()
    .id
}

#[test]
fn listing_is_newest_first_with_id_tiebreak() {
    let mut l = Ledger::new();
    let a = account(&mut l, "W", "cash", 0);
    let t1 = tx(&mut l, a, None, "income", 1, day(2024, 3, 10), None);
    let t2 = tx(&mut l, a, None, "income", 2, day(2024, 3, 12), None);
    let t3 = tx(&mut l, a, None, "income", 3, day(2024, 3, 10), None);
    let rows = l.list_transactions(&TransactionFilter::any());
    let ids: Vec<i64> = rows.iter().map(|t| t.id).collect();
    // newest date first; same date ordered by id descending
    assert_eq!(ids, vec![t2, t3, t1]);
}

#[test]
fn filters_are_and_combined() {
    let mut l = Ledger::new();
    let a = account(&mut l, "Wallet", "cash", 0);
    let b = account(&mut l, "Bank", "debit", 0);
    let food = l
        .create_category("Food".to_string(), "expense", None, now())
        .unwrap()
        .id;
    tx(&mut l, a, Some(food), "expense", 10, day(2024, 3, 1), None);
    tx(&mut l, a, None, "income", 20, day(2024, 3, 2), None);
    tx(&mut l, b, Some(food), "expense", 30, day(2024, 4, 2), None);
    let f = TransactionFilter {
        account_id: Some(a),
        category_id: Some(food),
        tx_type: Some(TxType::Expense),
        date_from: None,
        date_to: None,
        search: None,
    };
    let rows = l.list_transactions(&f);
    assert_eq!(rows.len(), 1);
    assert_eq!(rows[0].amount, 10);
}

#[test]
fn date_range_filter_is_inclusive() {
    let mut l = Ledger::new();
    let a = account(&mut l, "W", "cash", 0);
    tx(&mut l, a, None, "income", 1, day(2024, 3, 1), None);
    tx(&mut l, a, None, "income", 2, day(2024, 3, 15), None);
    tx(&mut l, a, None, "income", 3, day(2024, 4, 1), None);
    let f = TransactionFilter {
        account_id: None,
        category_id: None,
        tx_type: None,
        date_from: Some(day(2024, 3, 15)),
        date_to: Some(day(2024, 4, 1)),
        search: None,
    };
    let rows = l.list_transactions(&f);
    assert_eq!(rows.len(), 2);
}

#[test]
fn search_is_case_insensitive_and_covers_names() {
    let mut l = Ledger::new();
    let a = account(&mut l, "Main Wallet", "cash", 0);
    let food = l
        .create_category("Dining".to_string(), "expense", None, now())
        .unwrap()
        .id;
    tx(
        &mut l,
        a,
        None,
        "expense",
        1,
        day(2024, 3, 1),
        Some("Lunch at cafe"),
    );
    tx(&mut l, a, Some(food), "expense", 2, day(2024, 3, 2), None);
    tx(&mut l, a, None, "income", 3, day(2024, 3, 3), None);
    let search = |s: &str| TransactionFilter {
        account_id: None,
        category_id: None,
        tx_type: None,
        date_from: None,
        date_to: None,
        search: Some(s.to_string()),
    };
    // notes, case-insensitively
    assert_eq!(l.list_transactions(&search("LUNCH")).len(), 1);
    // category name
    assert_eq!(l.list_transactions(&search("dining")).len(), 1);
    // account name matches every row of that account
    assert_eq!(l.list_transactions(&search("wallet")).len(), 3);
    // no hit
    assert_eq!(l.list_transactions(&search("taxi")).len(), 0);
}

#[test]
fn monthly_trends_are_ascending_and_clamped() {
    let mut l = Ledger::new();
    let a = account(&mut l, "W", "cash", 0);
    tx(&mut l, a, None, "income", 100, day(2024, 1, 5), None);
    tx(&mut l, a, None, "expense", 30, day(2024, 1, 20), None);
    tx(&mut l, a, None, "income", 200, day(2024, 2, 5), None);
    tx(&mut l, a, None, "income", 50, day(2024, 4, 5), None);
    // only the two most recent periods with activity
    let two = l.get_monthly_trends(2);
    assert_eq!(two.len(), 2);
    assert_eq!((two[0].year, two[0].month), (2024, 2));
    assert_eq!((two[1].year, two[1].month), (2024, 4));
    assert_eq!(two[0].income, 200);
    assert_eq!(two[0].expenses, 0);
    assert_eq!(two[1].net, 50);
    assert_eq!(two[1].label, "2024-04");
    // a large request returns every period, oldest first
    let all = l.get_monthly_trends(24);
    assert_eq!(all.len(), 3);
    assert_eq!(all[0].label, "2024-01");
    assert_eq!(all[0].income, 100);
    assert_eq!(all[0].expenses, 30);
    assert_eq!(all[0].net, 70);
    // a request below one still returns one period
    assert_eq!(l.get_monthly_trends(0).len(), 1);
    assert_eq!(l.get_monthly_trends(-3).len(), 1);
}

#[test]
fn spending_breakdown_groups_and_orders_by_amount() {
    let mut l = Ledger::new();
    let a = account(&mut l, "W", "cash", 0);
    let food = l
        .create_category("Food".to_string(), "expense", None, now())
        .unwrap()
        .id;
    let rent = l
        .create_category("Rent".to_string(), "expense", None, now())
        .unwrap()
        .id;
    tx(&mut l, a, Some(food), "expense", 40, day(2024, 3, 1), None);
    tx(&mut l, a, Some(food), "expense", 35, day(2024, 3, 9), None);
    tx(&mut l, a, Some(rent), "expense", 500, day(2024, 3, 2), None);
    tx(&mut l, a, None, "expense", 5, day(2024, 3, 3), None);
    tx(&mut l, a, None, "income", 900, day(2024, 3, 4), None);
    // another month does not leak in
    tx(&mut l, a, Some(food), "expense", 999, day(2024, 4, 1), None);
    let b = l.get_spending_breakdown(2024, 3);
    assert_eq!(b.year, 2024);
    assert_eq!(b.month, 3);
    assert_eq!(b.total_income, 900);
    assert_eq!(b.total_expenses, 580);
    assert_eq!(b.categories.len(), 3);
    assert_eq!(b.categories[0].category_name, "Rent");
    assert_eq!(b.categories[0].amount, 500);
    assert_eq!(b.categories[1].category_name, "Food");
    assert_eq!(b.categories[1].amount, 75);
    assert_eq!(b.categories[2].category_name, "Uncategorized");
    assert_eq!(b.categories[2].category_id, None);
    assert_eq!(b.categories[2].amount, 5);
}

#[test]
fn dashboard_collects_all_derived_values() {
    let mut l = Ledger::new();
    let cash = account(&mut l, "Wallet", "cash", 1000);
    let card = l
        .create_account("Card".to_string(), "credit", None, 0, None, None, None, now())
        .unwrap()
        .id;
    let hidden = account(&mut l, "Old", "savings", 700);
    l.archive_account(hidden, now()).unwrap();
    tx(&mut l, cash, None, "income", 200, day(2024, 3, 5), None);
    tx(&mut l, card, None, "expense", 150, day(2024, 3, 6), None);
    let d = l.get_dashboard(2024, 3);
    // net worth: 1200 (wallet) - 150 (owed) ; the archived account is out
    assert_eq!(d.net_worth, 1050);
    assert_eq!(d.monthly_income, 200);
    assert_eq!(d.monthly_expenses, 150);
    assert_eq!(d.accounts.len(), 2);
    assert_eq!(d.recent_transactions.len(), 2);
    assert_eq!(d.recent_transactions[0].amount, 150);
    assert_eq!(d.spending_by_category.len(), 1);
    assert_eq!(d.spending_by_category[0].amount, 150);
}

#[test]
fn dashboard_recent_keeps_only_ten() {
    let mut l = Ledger::new();
    let a = account(&mut l, "W", "cash", 0);
    for i in 1..=12 {
        tx(&mut l, a, None, "income", i, day(2024, 3, i as u32), None);
    }
    let d = l.get_dashboard(2024, 3);
    assert_eq!(d.recent_transactions.len(), 10);
    // newest first: days 12 down to 3
    assert_eq!(d.recent_transactions[0].amount, 12);
    assert_eq!(d.recent_transactions[9].amount, 3);
}

#[test]
fn csv_export_has_header_quoting_and_order() {
    let mut l = Ledger::new();
    let a = account(&mut l, "Wallet", "cash", 0);
    tx(
        &mut l,
        a,
        None,
        "income",
        500,
        day(2024, 3, 10),
        Some("lunch, tasty"),
    );
    tx(&mut l, a, None, "expense", 200, day(2024, 3, 11), None);
    let out = l.export_transactions_csv();
    let expected = "id,account,category,type,amount,date,notes,is_recurring\n\
                    2,Wallet,,expense,2.00,2024-03-11,,0\n\
                    1,Wallet,,income,5.00,2024-03-10,\"lunch, tasty\",0";
    assert_eq!(out, expected);
}

#[test]
fn csv_doubles_embedded_quotes() {
    let mut l = Ledger::new();
    let a = account(&mut l, "W", "cash", 0);
    tx(
        &mut l,
        a,
        None,
        "expense",
        7,
        day(2024, 1, 2),
        Some("say \"hi\""),
    );
    let out = l.export_transactions_csv();
    let expected = "id,account,category,type,amount,date,notes,is_recurring\n\
                    1,W,,expense,0.07,2024-01-02,\"say \"\"hi\"\"\",0";
    assert_eq!(out, expected);
}

#[test]
fn listing_is_capped_at_five_hundred_rows() {
    let mut l = Ledger::new();
    let a = account(&mut l, "W", "cash", 0);
    for i in 0..502u32 {
        tx(
            &mut l,
            a,
            None,
            "income",
            1,
            day(2024 + (i / 28) / 12, 1 + (i / 28) % 12, 1 + i % 28),
            None,
        );
    }
    assert_eq!(l.list_transactions(&TransactionFilter::any()).len(), 500);
}

#[test]
fn net_worth_subtracts_credit_balances() {
    let mut l = Ledger::new();
    let cash = account(&mut l, "Cash", "cash", 300);
    let card = l
        .create_account("Card".to_string(), "credit", None, 0, None, None, None, now())
        .unwrap()
        .id;
    tx(&mut l, cash, None, "income", 100, day(2024, 1, 1), None);
    tx(&mut l, card, None, "expense", 250, day(2024, 1, 2), None);
    assert_eq!(l.net_worth(), 150);
}

#[test]
fn dashboard_accounts_are_active_and_sorted_by_name() {
    let mut l = Ledger::new();
    account(&mut l, "Wallet", "cash", 0);
    account(&mut l, "Bank", "debit", 0);
    let hidden = account(&mut l, "Attic", "savings", 0);
    l.archive_account(hidden, now()).unwrap();
    let d = l.get_dashboard(2024, 1);
    let names: Vec<String> = d.accounts.into_iter().map(|a| a.name).collect();
    assert_eq!(names, vec!["Bank", "Wallet"]);
}
