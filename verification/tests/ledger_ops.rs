use accrue::error::LedgerError;
use accrue::filter::TransactionFilter;
use accrue::ledger::Ledger;
use accrue::model::{AccountType, Date, Direction, Frequency, TransferType, TxType};
use accrue::summary::{AccountSummary, CategorySummary};

fn day(year: u32, month: u32, d: u32) -> Date {
    Date { year, month, day: d }
}

fn now() -> String {
    "2024-01-01 00:00:00".to_string()
}

#[test]
fn account_type_labels_round_trip() {
    for label in ["cash", "debit", "credit", "savings", "investment"] {
        let t = AccountType::parse(label).unwrap();
        assert_eq!(t.label(), label);
    }
    assert_eq!(AccountType::parse("wallet"), Err(LedgerError::Validation));
    assert_eq!(AccountType::parse(""), Err(LedgerError::Validation));
}

#[test]
fn other_enum_labels_round_trip() {
    assert_eq!(TxType::parse("income").unwrap(), TxType::Income);
    assert_eq!(TxType::parse("expense").unwrap(), TxType::Expense);
    assert_eq!(TxType::parse("transfer"), Err(LedgerError::Validation));
    assert_eq!(Direction::parse("both").unwrap(), Direction::Both);
    assert_eq!(Direction::parse("out"), Err(LedgerError::Validation));
    assert_eq!(Frequency::parse("weekly").unwrap(), Frequency::Weekly);
    assert_eq!(Frequency::parse("hourly"), Err(LedgerError::Validation));
    assert_eq!(
        TransferType::parse("credit_payment").unwrap(),
        TransferType::CreditPayment
    );
    assert_eq!(TransferType::parse("wire"), Err(LedgerError::Validation));
}

#[test]
fn create_account_rejects_credit_fields_on_cash_accounts() {
    let mut l = Ledger::new();
    let r = l.create_account(
        "Wallet".to_string(),
        "cash",
        None,
        0,
        Some(1000),
        None,
        None,
        now(),
    );
    assert_eq!(r.unwrap_err(), LedgerError::Validation);
    let r = l.create_account(
        "Card".to_string(),
        "credit",
        None,
        0,
        None,
        Some(42),
        None,
        now(),
    );
    assert_eq!(r.unwrap_err(), LedgerError::Validation);
}

#[test]
fn create_account_fills_defaults() {
    let mut l = Ledger::new();
    let w = l
        .create_account(
            "Wallet".to_string(),
            "cash",
            Some("daily".to_string()),
            500,
            None,
            None,
            None,
            now(),
        )
        .unwrap();
    assert_eq!(w.id, 1);
    assert_eq!(w.currency, "PHP");
    assert!(w.is_active);
    assert_eq!(w.balance, 500);
    assert_eq!(w.account_type, AccountType::Cash);
}

#[test]
fn update_account_cannot_change_the_type() {
    let mut l = Ledger::new();
    let id = l
        .create_account("W".to_string(), "cash", None, 0, None, None, None, now())
        .unwrap()
        .id;
    let r = l.update_account(
        id,
        "W".to_string(),
        "credit",
        None,
        0,
        None,
        None,
        None,
        now(),
    );
    assert_eq!(r.unwrap_err(), LedgerError::Validation);
    let w = l
        .update_account(
            id,
            "Wallet".to_string(),
            "cash",
            None,
            750,
            None,
            None,
            None,
            now(),
        )
        .unwrap();
    assert_eq!(w.name, "Wallet");
    assert_eq!(w.opening_balance, 750);
}

#[test]
fn archive_and_restore_account_only_flip_the_flag() {
    let mut l = Ledger::new();
    let id = l
        .create_account("W".to_string(), "cash", None, 100, None, None, None, now())
        .unwrap()
        .id;
    l.create_transaction(
        id,
        None,
        "income",
        40,
        day(2024, 2, 2),
        None,
        false,
        None,
        None,
        now(),
    )
    .unwrap();
    l.archive_account(id, now()).unwrap();
    let w = l.get_account(id).unwrap();
    assert!(!w.is_active);
    // the referencing transaction is untouched and the balance unchanged
    assert_eq!(w.balance, 140);
    assert_eq!(l.list_transactions(&TransactionFilter::any()).len(), 1);
    l.restore_account(id, now()).unwrap();
    assert!(l.get_account(id).unwrap().is_active);
    assert_eq!(
        l.archive_account(99, now()),
        Err(LedgerError::NotFound)
    );
}

#[test]
fn archive_and_restore_category_keep_history() {
    let mut l = Ledger::new();
    let aid = l
        .create_account("W".to_string(), "cash", None, 0, None, None, None, now())
        .unwrap()
        .id;
    let c = l
        .create_category("Food".to_string(), "expense", None, now())
        .unwrap();
    l.create_transaction(
        aid,
        Some(c.id),
        "expense",
        60,
        day(2024, 2, 2),
        None,
        false,
        None,
        None,
        now(),
    )
    .unwrap();
    l.archive_category(c.id).unwrap();
    let cats = l.list_categories();
    assert!(cats[0].is_archived);
    assert_eq!(l.list_transactions(&TransactionFilter::any()).len(), 1);
    l.restore_category(c.id).unwrap();
    assert!(!l.list_categories()[0].is_archived);
}

#[test]
fn create_transaction_validates_its_fields() {
    let mut l = Ledger::new();
    let aid = l
        .create_account("W".to_string(), "cash", None, 0, None, None, None, now())
        .unwrap()
        .id;
    let bad_type = l.create_transaction(
        aid,
        None,
        "gift",
        10,
        day(2024, 2, 2),
        None,
        false,
        None,
        None,
        now(),
    );
    assert_eq!(bad_type.unwrap_err(), LedgerError::Validation);
    let bad_amount = l.create_transaction(
        aid,
        None,
        "income",
        -5,
        day(2024, 2, 2),
        None,
        false,
        None,
        None,
        now(),
    );
    assert_eq!(bad_amount.unwrap_err(), LedgerError::Validation);
    let bad_date = l.create_transaction(
        aid,
        None,
        "income",
        5,
        day(2024, 13, 2),
        None,
        false,
        None,
        None,
        now(),
    );
    assert_eq!(bad_date.unwrap_err(), LedgerError::Validation);
    let bad_freq = l.create_transaction(
        aid,
        None,
        "income",
        5,
        day(2024, 2, 2),
        None,
        true,
        Some("hourly"),
        None,
        now(),
    );
    assert_eq!(bad_freq.unwrap_err(), LedgerError::Validation);
    let no_account = l.create_transaction(
        99,
        None,
        "income",
        5,
        day(2024, 2, 2),
        None,
        false,
        None,
        None,
        now(),
    );
    assert_eq!(no_account.unwrap_err(), LedgerError::NotFound);
    let no_category = l.create_transaction(
        aid,
        Some(42),
        "income",
        5,
        day(2024, 2, 2),
        None,
        false,
        None,
        None,
        now(),
    );
    assert_eq!(no_category.unwrap_err(), LedgerError::NotFound);
}

#[test]
fn update_transaction_rejects_transfer_legs() {
    let mut l = Ledger::new();
    let x = l
        .create_account("A".to_string(), "cash", None, 0, None, None, None, now())
        .unwrap()
        .id;
    let y = l
        .create_account("B".to_string(), "cash", None, 0, None, None, None, now())
        .unwrap()
        .id;
    let tr = l
        .create_transfer(x, y, 50, day(2024, 3, 3), None, None, now())
        .unwrap();
    let leg_id = l
        .list_transactions(&TransactionFilter::any())
        .into_iter()
        .find(|t| t.transfer_id == Some(tr.id))
        .unwrap()
        .id;
    let r = l.update_transaction(
        leg_id,
        x,
        None,
        "expense",
        10,
        day(2024, 3, 3),
        None,
        false,
        None,
        None,
        now(),
    );
    assert_eq!(r.unwrap_err(), LedgerError::Validation);
}

#[test]
fn update_and_delete_ordinary_transaction() {
    let mut l = Ledger::new();
    let aid = l
        .create_account("W".to_string(), "cash", None, 0, None, None, None, now())
        .unwrap()
        .id;
    let t = l
        .create_transaction(
            aid,
            None,
            "income",
            100,
            day(2024, 2, 2),
            None,
            false,
            None,
            None,
            now(),
        )
        .unwrap();
    let updated = l
        .update_transaction(
            t.id,
            aid,
            None,
            "expense",
            30,
            day(2024, 2, 3),
            Some("groceries".to_string()),
            false,
            None,
            None,
            now(),
        )
        .unwrap();
    assert_eq!(updated.tx_type, TxType::Expense);
    assert_eq!(updated.amount, 30);
    assert_eq!(l.get_account(aid).unwrap().balance, -30);
    l.delete_transaction(t.id).unwrap();
    assert_eq!(l.get_account(aid).unwrap().balance, 0);
    assert_eq!(l.delete_transaction(t.id), Err(LedgerError::NotFound));
}

#[test]
fn id_space_exhaustion_is_a_storage_error() {
    let mut l = Ledger::new();
    l.next_account_id = i64::MAX;
    let r = l.create_account("W".to_string(), "cash", None, 0, None, None, None, now());
    assert_eq!(r.unwrap_err(), LedgerError::Storage);
}

#[test]
fn seeding_installs_thirteen_defaults_once() {
    let mut l = Ledger::new();
    l.seed_categories("2024-01-01").unwrap();
    let cats = l.list_categories();
    assert_eq!(cats.len(), 13);
    // listing order: direction (both, expense, income), then name
    assert_eq!(cats[0].name, "Education");
    assert_eq!(cats[0].direction, Direction::Expense);
    assert_eq!(cats[2].name, "Food & Dining");
    assert_eq!(cats[8].name, "Utilities");
    assert_eq!(cats[9].name, "Freelance");
    assert_eq!(cats[9].direction, Direction::Income);
    assert_eq!(cats[12].name, "Salary");
    // a ledger that already has categories is left untouched
    l.seed_categories("2024-02-02").unwrap();
    assert_eq!(l.list_categories().len(), 13);
}

#[test]
fn reset_clears_everything_and_reseeds() {
    let mut l = Ledger::new();
    let aid = l
        .create_account("W".to_string(), "cash", None, 0, None, None, None, now())
        .unwrap()
        .id;
    l.create_transaction(
        aid,
        None,
        "income",
        10,
        day(2024, 2, 2),
        None,
        false,
        None,
        None,
        now(),
    )
    .unwrap();
    l.reset_all_data("2024-03-03").unwrap();
    assert_eq!(l.list_accounts().len(), 0);
    assert_eq!(l.list_transactions(&TransactionFilter::any()).len(), 0);
    assert_eq!(l.list_categories().len(), 13);
}

#[test]
fn summary_rows_project_the_stored_fields() {
    let mut l = Ledger::new();
    l.create_account("W".to_string(), "savings", None, 0, None, None, None, now())
        .unwrap();
    let c = l
        .create_category("Food".to_string(), "expense", None, now())
        .unwrap();
    let accounts = l.list_accounts();
    let a = accrue::model::Account {
        id: accounts[0].id,
        name: accounts[0].name.clone(),
        account_type: accounts[0].account_type,
        subtype: None,
        currency: accounts[0].currency.clone(),
        opening_balance: accounts[0].opening_balance,
        credit_limit: None,
        billing_cycle_day: None,
        payment_due_day: None,
        is_active: accounts[0].is_active,
        created_at: accounts[0].created_at.clone(),
        updated_at: accounts[0].updated_at.clone(),
    };
    let s = AccountSummary::of_account(&a);
    assert_eq!(s.account_type, "savings");
    assert_eq!(s.name, "W");
    let cs = CategorySummary::of_category(&c);
    assert_eq!(cs.category_type, "expense");
    assert_eq!(cs.name, "Food");
}

#[test]
fn accounts_are_listed_ascending_by_name() {
    let mut l = Ledger::new();
    l.create_account("Wallet".to_string(), "cash", None, 0, None, None, None, now())
        .unwrap();
    l.create_account("Bank".to_string(), "debit", None, 0, None, None, None, now())
        .unwrap();
    l.create_account("Card".to_string(), "credit", None, 0, None, None, None, now())
        .unwrap();
    let names: Vec<String> = l.list_accounts().into_iter().map(|a| a.name).collect();
    assert_eq!(names, vec!["Bank", "Card", "Wallet"]);
}

#[test]
fn categories_are_listed_by_direction_then_name() {
    let mut l = Ledger::new();
    l.create_category("Zeta".to_string(), "income", None, now())
        .unwrap();
    l.create_category("Alpha".to_string(), "expense", None, now())
        .unwrap();
    l.create_category("Mixed".to_string(), "both", None, now())
        .unwrap();
    l.create_category("Beta".to_string(), "expense", None, now())
        .unwrap();
    let listed: Vec<(String, Direction)> = l
        .list_categories()
        .into_iter()
        .map(|c| (c.name, c.direction))
        .collect();
    assert_eq!(
        listed,
        vec![
            ("Mixed".to_string(), Direction::Both),
            ("Alpha".to_string(), Direction::Expense),
            ("Beta".to_string(), Direction::Expense),
            ("Zeta".to_string(), Direction::Income),
        ]
    );
}

#[test]
fn update_errors_distinguish_missing_from_invalid() {
    let mut l = Ledger::new();
    // a missing account id is NotFound, never Validation
    let r = l.update_account(
        7,
        "X".to_string(),
        "bogus",
        None,
        0,
        None,
        None,
        None,
        now(),
    );
    assert_eq!(r.unwrap_err(), LedgerError::NotFound);
    // a missing transaction id is NotFound even with invalid fields
    let r = l.update_transaction(
        7,
        1,
        None,
        "bogus",
        -1,
        day(2024, 1, 1),
        None,
        false,
        None,
        None,
        now(),
    );
    assert_eq!(r.unwrap_err(), LedgerError::NotFound);
}
