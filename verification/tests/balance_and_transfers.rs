use accrue::balance::compute_balance;
use accrue::error::LedgerError;
use accrue::ledger::Ledger;
use accrue::model::{Account, AccountType, Date, Transaction, TxType};

fn day(year: u32, month: u32, d: u32) -> Date {
    Date { year, month, day: d }
}

fn fresh_ledger() -> Ledger {
    Ledger::new()
}

fn make_account(l: &mut Ledger, name: &str, kind: &str, opening: i64) -> i64 {
    let w = l
        .create_account(
            name.to_string(),
            kind,
            None,
            opening,
            None,
            None,
            None,
            "2024-01-01 00:00:00".to_string(),
        )
        .unwrap();
    w.id
}

fn add_tx(l: &mut Ledger, account: i64, kind: &str, amount: i64, date: Date) -> i64 {
    let t = l
        .create_transaction(
            account,
            None,
            kind,
            amount,
            date,
            None,
            false,
            None,
            None,
            "2024-01-01 00:00:00".to_string(),
        )
        .unwrap();
    t.id
}

#[test]
fn wallet_income_then_expense_balance() {
    // cash account with opening balance 1000: +500 income, then -200 expense
    let mut l = fresh_ledger();
    let wallet = make_account(&mut l, "Wallet", "cash", 1000);
    add_tx(&mut l, wallet, "income", 500, day(2024, 3, 10));
    add_tx(&mut l, wallet, "expense", 200, day(2024, 3, 11));
    let w = l.get_account(wallet).unwrap();
    assert_eq!(w.balance, 1300);
}

#[test]
fn credit_card_balance_is_amount_owed() {
    // credit account: expense 300, then a 100 payment recorded as income
    let mut l = fresh_ledger();
    let card = l
        .create_account(
            "Card".to_string(),
            "credit",
            None,
            0,
            Some(5000),
            None,
            None,
            "2024-01-01 00:00:00".to_string(),
        )
        .unwrap()
        .id;
    add_tx(&mut l, card, "expense", 300, day(2024, 4, 1));
    add_tx(&mut l, card, "income", 100, day(2024, 4, 5));
    let w = l.get_account(card).unwrap();
    assert_eq!(w.balance, 200);
}

#[test]
fn credit_balance_ignores_opening_balance() {
    let mut txs: Vec<Transaction> = Vec::new();
    txs.push(Transaction {
        id: 1,
        account_id: 7,
        category_id: None,
        transfer_id: None,
        tx_type: TxType::Expense,
        amount: 900,
        date: day(2024, 1, 2),
        notes: None,
        is_recurring: false,
        recurrence_frequency: None,
        next_due_date: None,
        created_at: String::new(),
        updated_at: String::new(),
    });
    let base = Account {
        id: 7,
        name: "Card".to_string(),
        account_type: AccountType::Credit,
        subtype: None,
        currency: "PHP".to_string(),
        opening_balance: 0,
        credit_limit: None,
        billing_cycle_day: None,
        payment_due_day: None,
        is_active: true,
        created_at: String::new(),
        updated_at: String::new(),
    };
    let mut shifted = base.clone();
    shifted.opening_balance = 123456;
    assert_eq!(compute_balance(&base, &txs), 900);
    assert_eq!(compute_balance(&shifted, &txs), 900);
}

#[test]
fn empty_history_gives_opening_balance() {
    let txs: Vec<Transaction> = Vec::new();
    let a = Account {
        id: 1,
        name: "Savings".to_string(),
        account_type: AccountType::Savings,
        subtype: None,
        currency: "PHP".to_string(),
        opening_balance: -250,
        credit_limit: None,
        billing_cycle_day: None,
        payment_due_day: None,
        is_active: true,
        created_at: String::new(),
        updated_at: String::new(),
    };
    assert_eq!(compute_balance(&a, &txs), -250);
}

#[test]
fn transfer_creates_exactly_two_linked_legs() {
    let mut l = fresh_ledger();
    let x = make_account(&mut l, "Checking", "debit", 1000);
    let y = make_account(&mut l, "Savings", "savings", 500);
    let tr = l
        .create_transfer(x, y, 250, day(2024, 5, 2), None, None, "now".to_string())
        .unwrap();
    let legs: Vec<_> = l
        .list_transactions(&accrue::filter::TransactionFilter::any())
        .into_iter()
        .filter(|t| t.transfer_id == Some(tr.id))
        .collect();
    assert_eq!(legs.len(), 2);
    let expense = legs.iter().find(|t| t.tx_type == TxType::Expense).unwrap();
    let income = legs.iter().find(|t| t.tx_type == TxType::Income).unwrap();
    assert_eq!(expense.account_id, x);
    assert_eq!(income.account_id, y);
    assert_eq!(expense.amount, 250);
    assert_eq!(income.amount, 250);
    assert!(expense.category_id.is_none());
    assert!(income.category_id.is_none());
}

#[test]
fn transfer_shifts_both_balances() {
    let mut l = fresh_ledger();
    let x = make_account(&mut l, "Checking", "debit", 1000);
    let y = make_account(&mut l, "Savings", "savings", 500);
    l.create_transfer(x, y, 250, day(2024, 5, 2), None, None, "now".to_string())
        .unwrap();
    assert_eq!(l.get_account(x).unwrap().balance, 750);
    assert_eq!(l.get_account(y).unwrap().balance, 750);
}

#[test]
fn delete_transfer_restores_balances_and_leaves_no_rows() {
    let mut l = fresh_ledger();
    let x = make_account(&mut l, "Checking", "debit", 1000);
    let y = make_account(&mut l, "Savings", "savings", 500);
    let tr = l
        .create_transfer(x, y, 250, day(2024, 5, 2), None, None, "now".to_string())
        .unwrap();
    l.delete_transfer(tr.id).unwrap();
    assert_eq!(l.get_account(x).unwrap().balance, 1000);
    assert_eq!(l.get_account(y).unwrap().balance, 500);
    let remaining = l.list_transactions(&accrue::filter::TransactionFilter::any());
    assert!(remaining.iter().all(|t| t.transfer_id != Some(tr.id)));
    assert_eq!(remaining.len(), 0);
}

#[test]
fn deleting_one_leg_removes_both_and_the_transfer() {
    let mut l = fresh_ledger();
    let x = make_account(&mut l, "Checking", "debit", 1000);
    let y = make_account(&mut l, "Savings", "savings", 500);
    add_tx(&mut l, x, "income", 40, day(2024, 5, 1));
    let tr = l
        .create_transfer(x, y, 250, day(2024, 5, 2), None, None, "now".to_string())
        .unwrap();
    let legs: Vec<_> = l
        .list_transactions(&accrue::filter::TransactionFilter::any())
        .into_iter()
        .filter(|t| t.transfer_id == Some(tr.id))
        .collect();
    // delete the income leg; the cascade removes everything of the transfer
    let income_leg = legs.iter().find(|t| t.tx_type == TxType::Income).unwrap();
    l.delete_transaction(income_leg.id).unwrap();
    let remaining = l.list_transactions(&accrue::filter::TransactionFilter::any());
    assert_eq!(remaining.len(), 1);
    assert!(remaining.iter().all(|t| t.transfer_id.is_none()));
    assert_eq!(l.get_account(x).unwrap().balance, 1040);
    assert_eq!(l.get_account(y).unwrap().balance, 500);
    // the transfer row itself is gone
    assert_eq!(l.delete_transfer(tr.id), Err(LedgerError::NotFound));
}

#[test]
fn self_transfer_is_rejected() {
    let mut l = fresh_ledger();
    let x = make_account(&mut l, "Checking", "debit", 1000);
    let r = l.create_transfer(x, x, 100, day(2024, 5, 2), None, None, "now".to_string());
    assert_eq!(r.unwrap_err(), LedgerError::Validation);
}

#[test]
fn transfer_amount_must_be_positive() {
    let mut l = fresh_ledger();
    let x = make_account(&mut l, "Checking", "debit", 1000);
    let y = make_account(&mut l, "Savings", "savings", 500);
    let r = l.create_transfer(x, y, 0, day(2024, 5, 2), None, None, "now".to_string());
    assert_eq!(r.unwrap_err(), LedgerError::Validation);
}

#[test]
fn transfer_to_missing_account_is_not_found() {
    let mut l = fresh_ledger();
    let x = make_account(&mut l, "Checking", "debit", 1000);
    let r = l.create_transfer(x, 99, 100, day(2024, 5, 2), None, None, "now".to_string());
    assert_eq!(r.unwrap_err(), LedgerError::NotFound);
}

#[test]
fn credit_payment_transfer_type_is_kept() {
    let mut l = fresh_ledger();
    let x = make_account(&mut l, "Checking", "debit", 1000);
    let card = l
        .create_account(
            "Card".to_string(),
            "credit",
            None,
            0,
            None,
            None,
            None,
            "now".to_string(),
        )
        .unwrap()
        .id;
    let tr = l
        .create_transfer(
            x,
            card,
            300,
            day(2024, 6, 1),
            None,
            Some("credit_payment"),
            "now".to_string(),
        )
        .unwrap();
    assert_eq!(
        tr.transfer_type,
        accrue::model::TransferType::CreditPayment
    );
    // paying the card lowers the amount owed below zero here
    assert_eq!(l.get_account(card).unwrap().balance, -300);
    assert_eq!(l.get_account(x).unwrap().balance, 700);
}
