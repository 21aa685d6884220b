//! A transaction engine: an append-only ledger of deposits, withdrawals and
//! disputes, replayed per client into account balances of fixed-point money.
pub mod engine;
pub mod events;
pub mod ids;
pub mod input;
pub mod ledger;
pub mod models;
pub mod money;
pub mod services;
pub mod snapshot;
pub mod snapshots;
pub mod text;
pub mod transaction;

pub use ledger::Ledger;
pub use money::Money;
pub use snapshot::{AccountReport, AccountSnapshot};
pub use snapshots::AccountSnapshots;
pub use transaction::{Transaction, TransactionType};
