//! Typed transaction events: each kind carries exactly the data it needs.
use vstd::prelude::*;

use crate::ids::{ClientId, TransactionId};
use crate::money::Money;

verus! {

#[derive(Debug, Clone, Copy, PartialEq, Eq)]
pub struct DepositEvent {
    pub client_id: ClientId,
    pub transaction_id: TransactionId,
    pub amount: Money,
}

#[derive(Debug, Clone, Copy, PartialEq, Eq)]
pub struct WithdrawalEvent {
    pub client_id: ClientId,
    pub transaction_id: TransactionId,
    pub amount: Money,
}

#[derive(Debug, Clone, Copy, PartialEq, Eq)]
pub struct DisputeEvent {
    pub client_id: ClientId,
    pub transaction_id: TransactionId,
}

#[derive(Debug, Clone, Copy, PartialEq, Eq)]
pub struct ResolveEvent {
    pub client_id: ClientId,
    pub transaction_id: TransactionId,
}

#[derive(Debug, Clone, Copy, PartialEq, Eq)]
pub struct ChargeBackEvent {
    pub client_id: ClientId,
    pub transaction_id: TransactionId,
}

#[derive(Debug, Clone, Copy, PartialEq, Eq)]
pub enum TransactionEvent {
    Deposit(DepositEvent),
    Withdrawal(WithdrawalEvent),
    Dispute(DisputeEvent),
    Resolve(ResolveEvent),
    ChargeBack(ChargeBackEvent),
}

} // verus!
