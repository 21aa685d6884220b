//! An input record as read, and its conversion into a ledger entry.
use vstd::prelude::*;

use crate::ids::{ClientId, TransactionId};
use crate::money::{parse_value, Money, MoneyError};
use crate::transaction::{Transaction, TransactionType};

verus! {

/// One record of input: deposits and withdrawals carry an amount, the others do not.
#[derive(Debug, Clone, PartialEq, Eq)]
pub struct InputEvent {
    pub typ: InputEventType,
    pub client: u16,
    pub tx: u32,
    pub amount: Option<String>,
}

#[derive(Debug, Clone, Copy, PartialEq, Eq, Structural)]
pub enum InputEventType {
    Deposit,
    Withdrawal,
    Dispute,
    Resolve,
    Chargeback,
}

#[derive(Debug, Clone, PartialEq, Eq)]
pub enum InputParseError {
    NoDepositAmount(InputEvent),
    NoWithdrawalAmount(InputEvent),
    NegativeAmount(InputEvent),
    /// The amount is not a money amount.
    Amount(MoneyError),
}

/// The ledger entry of a record whose amount, if any, is `amount`.
pub open spec fn entry_of(e: InputEvent, tx_type: TransactionType) -> Transaction {
    Transaction {
        id: TransactionId(e.tx),
        client_id: ClientId(e.client),
        tx_type,
        invalid: false,
    }
}

/// What a deposit or withdrawal record converts to: the entry, or why not.
pub open spec fn amount_outcome(e: InputEvent, deposit: bool) -> Result<Transaction, InputParseError> {
    match e.amount {
        None => if deposit {
            Err(InputParseError::NoDepositAmount(e))
        } else {
            Err(InputParseError::NoWithdrawalAmount(e))
        },
        Some(text) => match parse_value(text@) {
            Err(f) => Err(InputParseError::Amount(MoneyError::Parse(f, text))),
            Ok(v) => if v < 0 {
                Err(InputParseError::NegativeAmount(e))
            } else if deposit {
                Ok(entry_of(e, TransactionType::Deposit { amount: Money(v as i64) }))
            } else {
                Ok(entry_of(e, TransactionType::Withdrawal { amount: Money(v as i64) }))
            },
        },
    }
}

/// The ledger entry that a record converts to, or why it converts to none.
pub open spec fn transaction_of(e: InputEvent) -> Result<Transaction, InputParseError> {
    match e.typ {
        InputEventType::Deposit => amount_outcome(e, true),
        InputEventType::Withdrawal => amount_outcome(e, false),
        InputEventType::Dispute => Ok(entry_of(e, TransactionType::Dispute)),
        InputEventType::Resolve => Ok(entry_of(e, TransactionType::Resolve)),
        InputEventType::Chargeback => Ok(entry_of(e, TransactionType::ChargeBack)),
    }
}

impl InputEvent {
    /// The ledger entry for this record. Deposits and withdrawals need a
    /// non-negative amount; the other kinds ignore the amount.
    pub fn parse_transaction(self) -> (r: Result<Transaction, InputParseError>)
        ensures
            r == transaction_of(self),
    {
        let id = TransactionId(self.tx);
        let client_id = ClientId(self.client);
        match self.typ {
            InputEventType::Deposit | InputEventType::Withdrawal => {
                let deposit = self.typ == InputEventType::Deposit;
                let text = match &self.amount {
                    Some(text) => text.clone(),
                    None => String::new(),
                };
                if self.amount.is_none() {
                    if deposit {
                        return Err(InputParseError::NoDepositAmount(self));
                    } else {
                        return Err(InputParseError::NoWithdrawalAmount(self));
                    }
                }
                let amount = match Money::parse(text) {
                    Ok(amount) => amount,
                    Err(e) => return Err(InputParseError::Amount(e)),
                };
                if amount.0 < 0 {
                    return Err(InputParseError::NegativeAmount(self));
                }
                let tx_type = if deposit {
                    TransactionType::Deposit { amount }
                } else {
                    TransactionType::Withdrawal { amount }
                };
                Ok(Transaction { id, client_id, tx_type, invalid: false })
            },
            InputEventType::Dispute => Ok(
                Transaction { id, client_id, tx_type: TransactionType::Dispute, invalid: false },
            ),
            InputEventType::Resolve => Ok(
                Transaction { id, client_id, tx_type: TransactionType::Resolve, invalid: false },
            ),
            InputEventType::Chargeback => Ok(
                Transaction { id, client_id, tx_type: TransactionType::ChargeBack, invalid: false },
            ),
        }
    }
}

} // verus!
