use vstd::prelude::*;
use crate::model::{account_type_label, direction_label, Account, Category};

verus! {

// Compact row views for read-only listings: each carries the handful of
// columns a listing endpoint hands to its caller, with enumerated fields
// already rendered as their storage labels.

/// An account row reduced to what an overview list shows.
#[derive(Clone, Debug)]
pub struct AccountSummary {
    pub id: i64,
    pub name: String,
    /// The account type's storage label.
    pub account_type: String,
    pub created_at: String,
}

impl AccountSummary {
    /// The summary row of a stored account.
    pub fn of_account(a: &Account) -> (r: AccountSummary)
        ensures
            r.id == a.id,
            r.name@ == a.name@,
            r.account_type@ == account_type_label(a.account_type),
            r.created_at@ == a.created_at@,
    {
        AccountSummary {
            id: a.id,
            name: a.name.clone(),
            account_type: a.account_type.label().to_owned(),
            created_at: a.created_at.clone(),
        }
    }
}

/// A transaction row reduced to what a plain listing shows; the amount is
/// in minor units and the payee is free text.
#[derive(Clone, Debug)]
pub struct TransactionSummary {
    pub id: i64,
    pub account_id: i64,
    pub category_id: Option<i64>,
    pub amount: i64,
    pub payee: Option<String>,
    pub notes: Option<String>,
    pub occurred_at: String,
    pub created_at: String,
}

/// A category row reduced to what a picker shows.
#[derive(Clone, Debug)]
pub struct CategorySummary {
    pub id: i64,
    pub name: String,
    /// The direction's storage label.
    pub category_type: String,
}

impl CategorySummary {
    /// The summary row of a stored category.
    pub fn of_category(c: &Category) -> (r: CategorySummary)
        ensures
            r.id == c.id,
            r.name@ == c.name@,
            r.category_type@ == direction_label(c.direction),
    {
        CategorySummary {
            id: c.id,
            name: c.name.clone(),
            category_type: c.direction.label().to_owned(),
        }
    }
}

/// A monthly budget row: a per-category target in minor units.
#[derive(Clone, Debug)]
pub struct BudgetSummary {
    pub id: i64,
    pub category_id: i64,
    /// The period the target applies to, as `YYYY-MM`.
    pub month: String,
    pub target: i64,
    pub created_at: String,
}

/// A transfer row as the pair of transaction ids it links.
#[derive(Clone, Debug)]
pub struct TransferSummary {
    pub id: i64,
    pub from_transaction_id: i64,
    pub to_transaction_id: i64,
    pub created_at: String,
}

} // verus!
