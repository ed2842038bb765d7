use vstd::prelude::*;
use crate::error::LedgerError;
use crate::text::str_eq;

verus! {

/// Upper bound, in minor currency units, on any single amount the ledger
/// accepts: one quadrillion minor units. Keeping every stored amount within
/// this bound lets every aggregate in the crate be computed in `i128`
/// without overflow.
pub const MAX_AMOUNT: i64 = 1_000_000_000_000_000;

// ---------------------------------------------------------------------------
// Enumerated fields
// ---------------------------------------------------------------------------

/// The kind of an account. Fixed at creation; determines the balance formula.
#[derive(Clone, Copy, Debug, PartialEq, Eq, Structural)]
pub enum AccountType {
    Cash,
    Debit,
    Credit,
    Savings,
    Investment,
}

pub open spec fn account_type_label(t: AccountType) -> Seq<char> {
    match t {
        AccountType::Cash => "cash"@,
        AccountType::Debit => "debit"@,
        AccountType::Credit => "credit"@,
        AccountType::Savings => "savings"@,
        AccountType::Investment => "investment"@,
    }
}

/// The account type a valid label denotes (arbitrary on other strings).
pub open spec fn account_type_of_label(s: Seq<char>) -> AccountType {
    if s == "cash"@ {
        AccountType::Cash
    } else if s == "debit"@ {
        AccountType::Debit
    } else if s == "credit"@ {
        AccountType::Credit
    } else if s == "savings"@ {
        AccountType::Savings
    } else {
        AccountType::Investment
    }
}

pub open spec fn is_account_type_label(s: Seq<char>) -> bool {
    ||| s == "cash"@
    ||| s == "debit"@
    ||| s == "credit"@
    ||| s == "savings"@
    ||| s == "investment"@
}

impl AccountType {
    /// The storage label of this account type.
    pub fn label(&self) -> (r: &'static str)
        ensures
            r@ == account_type_label(*self),
    {
        match self {
            AccountType::Cash => "cash",
            AccountType::Debit => "debit",
            AccountType::Credit => "credit",
            AccountType::Savings => "savings",
            AccountType::Investment => "investment",
        }
    }

    /// Parses a storage label; any string outside the enumerated set is a
    /// validation error.
    pub fn parse(s: &str) -> (r: Result<AccountType, LedgerError>)
        ensures
            r is Ok <==> is_account_type_label(s@),
            r matches Ok(t) ==> account_type_label(t) == s@ && t == account_type_of_label(s@),
            r matches Err(e) ==> e == LedgerError::Validation,
    {
        if str_eq(s, "cash") {
            Ok(AccountType::Cash)
        } else if str_eq(s, "debit") {
            Ok(AccountType::Debit)
        } else if str_eq(s, "credit") {
            Ok(AccountType::Credit)
        } else if str_eq(s, "savings") {
            Ok(AccountType::Savings)
        } else if str_eq(s, "investment") {
            Ok(AccountType::Investment)
        } else {
            Err(LedgerError::Validation)
        }
    }
}

/// The direction of a transaction: whether it adds money to its account or
/// takes money out of it.
#[derive(Clone, Copy, Debug, PartialEq, Eq, Structural)]
pub enum TxType {
    Income,
    Expense,
}

pub open spec fn tx_type_label(t: TxType) -> Seq<char> {
    match t {
        TxType::Income => "income"@,
        TxType::Expense => "expense"@,
    }
}

/// The transaction type a valid label denotes (arbitrary on other strings).
pub open spec fn tx_type_of_label(s: Seq<char>) -> TxType {
    if s == "income"@ {
        TxType::Income
    } else {
        TxType::Expense
    }
}

pub open spec fn is_tx_type_label(s: Seq<char>) -> bool {
    s == "income"@ || s == "expense"@
}

impl TxType {
    /// The storage label of this transaction type.
    pub fn label(&self) -> (r: &'static str)
        ensures
            r@ == tx_type_label(*self),
    {
        match self {
            TxType::Income => "income",
            TxType::Expense => "expense",
        }
    }

    /// Parses a storage label; any string outside the enumerated set is a
    /// validation error.
    pub fn parse(s: &str) -> (r: Result<TxType, LedgerError>)
        ensures
            r is Ok <==> is_tx_type_label(s@),
            r matches Ok(t) ==> tx_type_label(t) == s@ && t == tx_type_of_label(s@),
            r matches Err(e) ==> e == LedgerError::Validation,
    {
        if str_eq(s, "income") {
            Ok(TxType::Income)
        } else if str_eq(s, "expense") {
            Ok(TxType::Expense)
        } else {
            Err(LedgerError::Validation)
        }
    }
}

/// Whether a category applies to income, to expenses, or to both.
#[derive(Clone, Copy, Debug, PartialEq, Eq, Structural)]
pub enum Direction {
    Income,
    Expense,
    Both,
}

pub open spec fn direction_label(d: Direction) -> Seq<char> {
    match d {
        Direction::Income => "income"@,
        Direction::Expense => "expense"@,
        Direction::Both => "both"@,
    }
}

/// The direction a valid label denotes (arbitrary on other strings).
pub open spec fn direction_of_label(s: Seq<char>) -> Direction {
    if s == "income"@ {
        Direction::Income
    } else if s == "expense"@ {
        Direction::Expense
    } else {
        Direction::Both
    }
}

pub open spec fn is_direction_label(s: Seq<char>) -> bool {
    s == "income"@ || s == "expense"@ || s == "both"@
}

/// Where a direction sorts in a category listing: the store collates the
/// label text, so the alphabetical label order `both`, `expense`, `income`
/// is the listing order.
pub open spec fn direction_rank(d: Direction) -> int {
    match d {
        Direction::Both => 0,
        Direction::Expense => 1,
        Direction::Income => 2,
    }
}

impl Direction {
    /// The storage label of this direction.
    pub fn label(&self) -> (r: &'static str)
        ensures
            r@ == direction_label(*self),
    {
        match self {
            Direction::Income => "income",
            Direction::Expense => "expense",
            Direction::Both => "both",
        }
    }

    /// Parses a storage label; any string outside the enumerated set is a
    /// validation error.
    pub fn parse(s: &str) -> (r: Result<Direction, LedgerError>)
        ensures
            r is Ok <==> is_direction_label(s@),
            r matches Ok(d) ==> direction_label(d) == s@ && d == direction_of_label(s@),
            r matches Err(e) ==> e == LedgerError::Validation,
    {
        if str_eq(s, "income") {
            Ok(Direction::Income)
        } else if str_eq(s, "expense") {
            Ok(Direction::Expense)
        } else if str_eq(s, "both") {
            Ok(Direction::Both)
        } else {
            Err(LedgerError::Validation)
        }
    }
}

/// How often a recurring transaction repeats.
#[derive(Clone, Copy, Debug, PartialEq, Eq, Structural)]
pub enum Frequency {
    Daily,
    Weekly,
    Monthly,
    Yearly,
}

pub open spec fn frequency_label(f: Frequency) -> Seq<char> {
    match f {
        Frequency::Daily => "daily"@,
        Frequency::Weekly => "weekly"@,
        Frequency::Monthly => "monthly"@,
        Frequency::Yearly => "yearly"@,
    }
}

/// The frequency a valid label denotes (arbitrary on other strings).
pub open spec fn frequency_of_label(s: Seq<char>) -> Frequency {
    if s == "daily"@ {
        Frequency::Daily
    } else if s == "weekly"@ {
        Frequency::Weekly
    } else if s == "monthly"@ {
        Frequency::Monthly
    } else {
        Frequency::Yearly
    }
}

pub open spec fn is_frequency_label(s: Seq<char>) -> bool {
    s == "daily"@ || s == "weekly"@ || s == "monthly"@ || s == "yearly"@
}

impl Frequency {
    /// The storage label of this frequency.
    pub fn label(&self) -> (r: &'static str)
        ensures
            r@ == frequency_label(*self),
    {
        match self {
            Frequency::Daily => "daily",
            Frequency::Weekly => "weekly",
            Frequency::Monthly => "monthly",
            Frequency::Yearly => "yearly",
        }
    }

    /// Parses a storage label; any string outside the enumerated set is a
    /// validation error.
    pub fn parse(s: &str) -> (r: Result<Frequency, LedgerError>)
        ensures
            r is Ok <==> is_frequency_label(s@),
            r matches Ok(f) ==> frequency_label(f) == s@ && f == frequency_of_label(s@),
            r matches Err(e) ==> e == LedgerError::Validation,
    {
        if str_eq(s, "daily") {
            Ok(Frequency::Daily)
        } else if str_eq(s, "weekly") {
            Ok(Frequency::Weekly)
        } else if str_eq(s, "monthly") {
            Ok(Frequency::Monthly)
        } else if str_eq(s, "yearly") {
            Ok(Frequency::Yearly)
        } else {
            Err(LedgerError::Validation)
        }
    }
}

/// Whether a transfer is an ordinary move of money or a credit-card payment.
#[derive(Clone, Copy, Debug, PartialEq, Eq, Structural)]
pub enum TransferType {
    Regular,
    CreditPayment,
}

pub open spec fn transfer_type_label(t: TransferType) -> Seq<char> {
    match t {
        TransferType::Regular => "regular"@,
        TransferType::CreditPayment => "credit_payment"@,
    }
}

/// The transfer type a valid label denotes (arbitrary on other strings).
pub open spec fn transfer_type_of_label(s: Seq<char>) -> TransferType {
    if s == "regular"@ {
        TransferType::Regular
    } else {
        TransferType::CreditPayment
    }
}

pub open spec fn is_transfer_type_label(s: Seq<char>) -> bool {
    s == "regular"@ || s == "credit_payment"@
}

impl TransferType {
    /// The storage label of this transfer type.
    pub fn label(&self) -> (r: &'static str)
        ensures
            r@ == transfer_type_label(*self),
    {
        match self {
            TransferType::Regular => "regular",
            TransferType::CreditPayment => "credit_payment",
        }
    }

    /// Parses a storage label; any string outside the enumerated set is a
    /// validation error.
    pub fn parse(s: &str) -> (r: Result<TransferType, LedgerError>)
        ensures
            r is Ok <==> is_transfer_type_label(s@),
            r matches Ok(t) ==> transfer_type_label(t) == s@ && t == transfer_type_of_label(s@),
            r matches Err(e) ==> e == LedgerError::Validation,
    {
        if str_eq(s, "regular") {
            Ok(TransferType::Regular)
        } else if str_eq(s, "credit_payment") {
            Ok(TransferType::CreditPayment)
        } else {
            Err(LedgerError::Validation)
        }
    }
}

// ---------------------------------------------------------------------------
// Calendar values
// ---------------------------------------------------------------------------

/// A calendar date, held as plain year, month and day numbers. Dates are
/// compared through [`Date::key`], which orders them chronologically.
#[derive(Clone, Copy, Debug, PartialEq, Eq, Structural)]
pub struct Date {
    pub year: u32,
    pub month: u32,
    pub day: u32,
}

/// A date the ledger accepts: a four-digit year and plausible month and day
/// numbers. Day validity is not checked against the month's true length.
pub open spec fn valid_date(d: Date) -> bool {
    &&& 1 <= d.year <= 9999
    &&& 1 <= d.month <= 12
    &&& 1 <= d.day <= 31
}

/// The chronological sort key of a date.
pub open spec fn date_key(d: Date) -> int {
    d.year * 10000 + d.month * 100 + d.day
}

impl Date {
    /// True when the ledger accepts this date.
    pub fn is_valid(&self) -> (r: bool)
        ensures
            r == valid_date(*self),
    {
        1 <= self.year && self.year <= 9999 && 1 <= self.month && self.month <= 12 && 1 <= self.day
            && self.day <= 31
    }
}

// ---------------------------------------------------------------------------
// Entities
// ---------------------------------------------------------------------------

/// An account. Its balance is never stored: it is derived from the
/// transaction history by the balance engine.
#[derive(Clone, Debug)]
pub struct Account {
    pub id: i64,
    pub name: String,
    pub account_type: AccountType,
    pub subtype: Option<String>,
    pub currency: String,
    /// Starting balance in minor units; ignored for credit accounts.
    pub opening_balance: i64,
    /// Credit accounts only.
    pub credit_limit: Option<i64>,
    /// Credit accounts only; a day of month, 1 to 31.
    pub billing_cycle_day: Option<i64>,
    /// Credit accounts only; a day of month, 1 to 31.
    pub payment_due_day: Option<i64>,
    pub is_active: bool,
    pub created_at: String,
    pub updated_at: String,
}

/// The field constraints every stored account satisfies.
pub open spec fn valid_account(a: Account) -> bool {
    &&& -MAX_AMOUNT <= a.opening_balance <= MAX_AMOUNT
    &&& (a.credit_limit matches Some(l) ==> 0 <= l <= MAX_AMOUNT && a.account_type
        == AccountType::Credit)
    &&& (a.billing_cycle_day matches Some(d) ==> 1 <= d <= 31 && a.account_type
        == AccountType::Credit)
    &&& (a.payment_due_day matches Some(d) ==> 1 <= d <= 31 && a.account_type
        == AccountType::Credit)
}

/// An account together with its derived balance, as handed to callers.
#[derive(Clone, Debug)]
pub struct AccountWithBalance {
    pub id: i64,
    pub name: String,
    pub account_type: AccountType,
    pub subtype: Option<String>,
    pub currency: String,
    pub opening_balance: i64,
    pub credit_limit: Option<i64>,
    pub billing_cycle_day: Option<i64>,
    pub payment_due_day: Option<i64>,
    pub is_active: bool,
    pub created_at: String,
    pub updated_at: String,
    /// Derived balance in minor units.
    pub balance: i128,
}

/// How an account looks when paired with a given balance.
pub open spec fn account_with_balance(a: Account, balance: int) -> AccountWithBalance {
    AccountWithBalance {
        id: a.id,
        name: a.name,
        account_type: a.account_type,
        subtype: a.subtype,
        currency: a.currency,
        opening_balance: a.opening_balance,
        credit_limit: a.credit_limit,
        billing_cycle_day: a.billing_cycle_day,
        payment_due_day: a.payment_due_day,
        is_active: a.is_active,
        created_at: a.created_at,
        updated_at: a.updated_at,
        balance: balance as i128,
    }
}

/// A spending or income category.
#[derive(Clone, Debug)]
pub struct Category {
    pub id: i64,
    pub name: String,
    pub direction: Direction,
    /// Display glyph.
    pub icon: Option<String>,
    /// Archived categories stay referenceable by old transactions but are
    /// excluded from active pickers.
    pub is_archived: bool,
    pub created_at: String,
}

/// A single ledger entry. `amount` is never negative: the sign of its
/// contribution to a balance comes from `tx_type`.
#[derive(Clone, Debug)]
pub struct Transaction {
    pub id: i64,
    pub account_id: i64,
    /// Absent for uncategorized transactions and for transfer legs.
    pub category_id: Option<i64>,
    /// Set exactly when this row is one leg of a transfer.
    pub transfer_id: Option<i64>,
    pub tx_type: TxType,
    /// Amount in minor units, non-negative.
    pub amount: i64,
    pub date: Date,
    pub notes: Option<String>,
    pub is_recurring: bool,
    pub recurrence_frequency: Option<Frequency>,
    pub next_due_date: Option<Date>,
    pub created_at: String,
    pub updated_at: String,
}

/// The field constraints every stored transaction satisfies.
pub open spec fn valid_transaction(t: Transaction) -> bool {
    &&& 0 <= t.amount <= MAX_AMOUNT
    &&& valid_date(t.date)
    &&& (t.next_due_date matches Some(d) ==> valid_date(d))
}

/// A transfer between two accounts. It owns the pairing of its two
/// transaction legs, which reference it through their `transfer_id`.
#[derive(Clone, Debug)]
pub struct Transfer {
    pub id: i64,
    pub from_account_id: i64,
    pub to_account_id: i64,
    /// Amount in minor units, positive.
    pub amount: i64,
    pub date: Date,
    pub notes: Option<String>,
    pub transfer_type: TransferType,
    pub created_at: String,
}

/// The field constraints every stored transfer satisfies.
pub open spec fn valid_transfer(t: Transfer) -> bool {
    &&& 0 < t.amount <= MAX_AMOUNT
    &&& valid_date(t.date)
    &&& t.from_account_id != t.to_account_id
}

// ---------------------------------------------------------------------------
// Report values
// ---------------------------------------------------------------------------

/// One category's summed expenses inside a reporting period.
#[derive(Clone, Debug)]
pub struct CategorySpend {
    /// Absent for the uncategorized bucket.
    pub category_id: Option<i64>,
    pub category_name: String,
    /// Summed expense amount in minor units.
    pub amount: i128,
}

/// Income, expense and per-category totals for one calendar month.
#[derive(Clone, Debug)]
pub struct SpendingBreakdown {
    pub year: u32,
    pub month: u32,
    pub total_income: i128,
    pub total_expenses: i128,
    pub categories: Vec<CategorySpend>,
}

/// One calendar month's totals inside a trend report.
#[derive(Clone, Debug)]
pub struct MonthSummary {
    pub year: u32,
    pub month: u32,
    /// The period formatted as `YYYY-MM`.
    pub label: String,
    pub income: i128,
    pub expenses: i128,
    /// `income - expenses`.
    pub net: i128,
}

/// Everything the dashboard shows, derived in one read.
#[derive(Clone, Debug)]
pub struct DashboardData {
    pub net_worth: i128,
    pub monthly_income: i128,
    pub monthly_expenses: i128,
    pub accounts: Vec<AccountWithBalance>,
    pub recent_transactions: Vec<Transaction>,
    pub spending_by_category: Vec<CategorySpend>,
}

} // verus!
