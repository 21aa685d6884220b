//! A ledger entry: a requested change to one client's account.
use vstd::prelude::*;

use crate::ids::{ClientId, TransactionId};
use crate::money::Money;

verus! {

#[derive(Debug, Clone, Copy, PartialEq, Eq, Structural)]
pub struct Transaction {
    pub id: TransactionId,
    pub client_id: ClientId,
    pub tx_type: TransactionType,
    /// Set by the ledger when the entry failed to apply; it is never replayed again.
    pub invalid: bool,
}

/// Dispute, resolve and charge back carry no amount: they name an earlier
/// deposit by sharing its transaction id.
#[derive(Debug, Clone, Copy, PartialEq, Eq, Structural)]
pub enum TransactionType {
    Deposit { amount: Money },
    Withdrawal { amount: Money },
    Dispute,
    Resolve,
    ChargeBack,
}

} // verus!
