//! A personal-finance ledger: accounts, categories, transactions and
//! transfers, with balances and reports derived from the transaction history.
//!
//! Amounts are integers in minor currency units. An account's balance is
//! never stored; it is recomputed from the ledger on every read. A transfer
//! is materialised as a linked pair of transaction legs that are created and
//! deleted together.

pub mod balance;
pub mod csv;
pub mod error;
pub mod filter;
pub mod ledger;
pub mod model;
pub mod order;
pub mod report;
pub mod summary;
pub mod text;
