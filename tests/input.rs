use tpe::ids::{ClientId, TransactionId};
use tpe::input::{InputEvent, InputEventType, InputParseError};
use tpe::money::{MoneyError, ParseFailure};
use tpe::{Money, Transaction, TransactionType};

fn event(typ: InputEventType, amount: Option<&str>) -> InputEvent {
    InputEvent {
        typ,
        client: 7,
        tx: 70,
        amount: amount.map(|a| a.to_string()),
    }
}

#[test]
fn deposit_record_becomes_a_deposit() {
    assert_eq!(
        event(InputEventType::Deposit, Some("1.5")).parse_transaction(),
        Ok(Transaction {
            id: TransactionId(70),
            client_id: ClientId(7),
            tx_type: TransactionType::Deposit { amount: Money(15000) },
            invalid: false,
        })
    );
}

#[test]
fn withdrawal_record_becomes_a_withdrawal() {
    assert_eq!(
        event(InputEventType::Withdrawal, Some("2")).parse_transaction().unwrap().tx_type,
        TransactionType::Withdrawal { amount: Money(20000) }
    );
}

#[test]
fn records_without_amount_kinds() {
    assert_eq!(
        event(InputEventType::Dispute, None).parse_transaction().unwrap().tx_type,
        TransactionType::Dispute
    );
    assert_eq!(
        event(InputEventType::Resolve, Some("3")).parse_transaction().unwrap().tx_type,
        TransactionType::Resolve
    );
    assert_eq!(
        event(InputEventType::Chargeback, None).parse_transaction().unwrap().tx_type,
        TransactionType::ChargeBack
    );
}

#[test]
fn record_errors() {
    let e = event(InputEventType::Deposit, None);
    assert_eq!(e.clone().parse_transaction(), Err(InputParseError::NoDepositAmount(e)));
    let e = event(InputEventType::Withdrawal, None);
    assert_eq!(e.clone().parse_transaction(), Err(InputParseError::NoWithdrawalAmount(e)));
    let e = event(InputEventType::Deposit, Some("-1.0"));
    assert_eq!(e.clone().parse_transaction(), Err(InputParseError::NegativeAmount(e)));
    assert_eq!(
        event(InputEventType::Withdrawal, Some("abc")).parse_transaction(),
        Err(InputParseError::Amount(MoneyError::Parse(
            ParseFailure::InvalidInteger,
            "abc".to_string()
        )))
    );
}
