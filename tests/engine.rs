use tpe::engine::{process_event, ProcessError};
use tpe::input::{InputEvent, InputEventType, InputParseError};
use tpe::snapshot::AccountTransactionError;
use tpe::ids::{ClientId, TransactionId};
use tpe::{AccountSnapshots, Ledger, Money};

fn record(typ: InputEventType, client: u16, tx: u32, amount: Option<&str>) -> InputEvent {
    InputEvent { typ, client, tx, amount: amount.map(|a| a.to_string()) }
}

#[test]
fn records_flow_through_the_engine() {
    let mut ledger = Ledger::new();
    let mut snapshots = AccountSnapshots::new();

    let bad = record(InputEventType::Deposit, 1, 1, None);
    assert_eq!(
        process_event(&mut ledger, &mut snapshots, bad.clone()),
        Err(ProcessError::Parse(InputParseError::NoDepositAmount(bad)))
    );
    assert!(ledger.is_empty());

    assert!(process_event(&mut ledger, &mut snapshots, record(InputEventType::Deposit, 1, 1, Some("5.0"))).is_ok());
    assert_eq!(
        process_event(&mut ledger, &mut snapshots, record(InputEventType::Withdrawal, 1, 2, Some("9.0"))),
        Err(ProcessError::Replay(AccountTransactionError::InvalidWithdrawal(TransactionId(2))))
    );
    assert!(ledger.history()[1].invalid);
    assert!(process_event(&mut ledger, &mut snapshots, record(InputEventType::Dispute, 1, 1, None)).is_ok());

    let snapshot = *snapshots.find_mut_or_create(ClientId(1));
    assert_eq!(snapshot.available, Money(0));
    assert_eq!(snapshot.held, Money(50000));
    assert_eq!(ledger.len(), 3);
}
