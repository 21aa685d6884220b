use tpe::ids::TransactionId;
use tpe::models::{new_transaction, Transaction, TransactionState, TransactionType, Transactions};
use tpe::Money;

const SOME_TRANSACTION_ID: TransactionId = TransactionId(123);
const OTHER_TRANSACTION_ID: TransactionId = TransactionId(456);

const SOME_TRANSACTION_TYPE: TransactionType = TransactionType::Deposit;
const OTHER_TRANSACTION_TYPE: TransactionType = TransactionType::Withdrawal;

const SOME_AMOUNT: Money = Money(1234);
const OTHER_AMOUNT: Money = Money(5678);

fn build_some_transaction() -> Transaction {
    Transaction::Valid(new_transaction(SOME_TRANSACTION_ID, SOME_TRANSACTION_TYPE, SOME_AMOUNT))
}

fn build_other_transaction() -> Transaction {
    Transaction::Valid(new_transaction(OTHER_TRANSACTION_ID, OTHER_TRANSACTION_TYPE, OTHER_AMOUNT))
}

#[test]
fn mod_new_is_empty() {
    let transactions = Transactions::new();
    assert_eq!(transactions.len() == 0, true);
    assert_eq!(transactions.chron().is_empty(), true);
}

#[test]
fn mod_push() {
    let mut transactions = Transactions::new();

    let transaction1 = build_some_transaction();
    let data1 = *transaction1.data();

    let transaction2 = build_other_transaction();
    let data2 = *transaction2.data();

    transactions.push(transaction1);

    assert_eq!(transactions.chron().len(), 1);
    assert_eq!(transactions.chron()[0], data1.id);
    assert_eq!(transactions.len(), 1);

    {
        let values = transactions.get_entry(&data1.id);
        assert_eq!(values.is_some(), true);

        let values = values.unwrap();
        assert_eq!(values.0, 0);
        assert_eq!(values.1, transaction1);
    }

    transactions.push(transaction2);

    assert_eq!(transactions.chron().len(), 2);
    assert_eq!(transactions.chron()[0], data1.id);
    assert_eq!(transactions.chron()[1], data2.id);
    assert_eq!(transactions.len(), 2);

    {
        let values = transactions.get_entry(&data1.id);
        assert_eq!(values.is_some(), true);

        let values = values.unwrap();
        assert_eq!(values.0, 0);
        assert_eq!(values.1, transaction1);
    }

    {
        let values = transactions.get_entry(&data2.id);
        assert_eq!(values.is_some(), true);

        let values = values.unwrap();
        assert_eq!(values.0, 1);
        assert_eq!(values.1, transaction2);
    }
}

#[test]
fn mod_get_all() {
    let mut transactions = Transactions::new();

    let transaction1 = build_some_transaction();
    let transaction2 = build_other_transaction();

    transactions.push(transaction1);

    let all = transactions.get_all();
    assert_eq!(all, vec![&transaction1]);

    transactions.push(transaction2);

    let all = transactions.get_all();
    assert_eq!(all, vec![&transaction1, &transaction2]);
}

#[test]
fn mod_get_since() {
    let mut transactions = Transactions::new();

    let transaction1 = build_some_transaction();
    let transaction2 = build_other_transaction();

    transactions.push(transaction1);

    {
        let since = transactions.get_since(&SOME_TRANSACTION_ID);
        assert_eq!(since.is_some(), true);
        assert_eq!(since.unwrap().is_empty(), true);
    }

    {
        let since = transactions.get_since(&OTHER_TRANSACTION_ID);
        assert_eq!(since.is_some(), false);
    }

    transactions.push(transaction2);

    {
        let since = transactions.get_since(&SOME_TRANSACTION_ID);
        assert_eq!(since.is_some(), true);
        assert_eq!(since.unwrap(), vec![&transaction2]);
    }

    {
        let since = transactions.get_since(&OTHER_TRANSACTION_ID);
        assert_eq!(since.is_some(), true);
        assert_eq!(since.unwrap().is_empty(), true);
    }
}

#[test]
fn mod_replace() {
    let mut transactions = Transactions::new();

    let transaction1 = build_some_transaction();
    let transaction2 = build_other_transaction();

    let res = transactions.replace(SOME_TRANSACTION_ID, |x| Ok::<Transaction, String>(x));

    assert_eq!(res.is_ok(), true);
    assert_eq!(res.unwrap().is_none(), true);

    transactions.push(transaction1);
    transactions.push(transaction2);

    let res = transactions.replace(SOME_TRANSACTION_ID, |x| match x {
        Transaction::Valid(x) => Ok::<Transaction, String>(Transaction::Disputed(x.dispute())),
        _ => panic!("Invalid: {x:?}"),
    });

    assert_eq!(res.is_ok(), true);

    let expected = match transaction1 {
        Transaction::Valid(x) => Transaction::Disputed(x.dispute()),
        _ => panic!("Invalid: {transaction1:?}"),
    };

    let res = res.unwrap();
    assert_eq!(res.is_some(), true);
    assert_eq!(res.unwrap(), expected);
}

#[test]
fn transactions_new_is_empty() {
    let transactions = Transactions::new();
    assert_eq!(transactions.len() == 0, true);
    assert_eq!(transactions.chron().is_empty(), true);
}

#[test]
fn transactions_push() {
    let mut transactions = Transactions::new();

    let transaction1 = build_some_transaction();
    let data1 = *transaction1.data();

    let transaction2 = build_other_transaction();
    let data2 = *transaction2.data();

    transactions.push(transaction1);

    assert_eq!(transactions.chron().len(), 1);
    assert_eq!(transactions.chron()[0], data1.id);
    assert_eq!(transactions.len(), 1);

    {
        let values = transactions.get_entry(&data1.id);
        assert_eq!(values.is_some(), true);

        let values = values.unwrap();
        assert_eq!(values.0, 0);
        assert_eq!(values.1, transaction1);
    }

    transactions.push(transaction2);

    assert_eq!(transactions.chron().len(), 2);
    assert_eq!(transactions.chron()[0], data1.id);
    assert_eq!(transactions.chron()[1], data2.id);
    assert_eq!(transactions.len(), 2);

    {
        let values = transactions.get_entry(&data1.id);
        assert_eq!(values.is_some(), true);

        let values = values.unwrap();
        assert_eq!(values.0, 0);
        assert_eq!(values.1, transaction1);
    }

    {
        let values = transactions.get_entry(&data2.id);
        assert_eq!(values.is_some(), true);

        let values = values.unwrap();
        assert_eq!(values.0, 1);
        assert_eq!(values.1, transaction2);
    }
}

#[test]
fn transactions_get_all() {
    let mut transactions = Transactions::new();

    let transaction1 = build_some_transaction();
    let transaction2 = build_other_transaction();

    transactions.push(transaction1);

    let all = transactions.get_all();
    assert_eq!(all, vec![&transaction1]);

    transactions.push(transaction2);

    let all = transactions.get_all();
    assert_eq!(all, vec![&transaction1, &transaction2]);
}

#[test]
fn transactions_get_since() {
    let mut transactions = Transactions::new();

    let transaction1 = build_some_transaction();
    let transaction2 = build_other_transaction();

    transactions.push(transaction1);

    {
        let since = transactions.get_since(&SOME_TRANSACTION_ID);
        assert_eq!(since.is_some(), true);
        assert_eq!(since.unwrap().is_empty(), true);
    }

    {
        let since = transactions.get_since(&OTHER_TRANSACTION_ID);
        assert_eq!(since.is_some(), false);
    }

    transactions.push(transaction2);

    {
        let since = transactions.get_since(&SOME_TRANSACTION_ID);
        assert_eq!(since.is_some(), true);
        assert_eq!(since.unwrap(), vec![&transaction2]);
    }

    {
        let since = transactions.get_since(&OTHER_TRANSACTION_ID);
        assert_eq!(since.is_some(), true);
        assert_eq!(since.unwrap().is_empty(), true);
    }
}

#[test]
fn transactions_replace() {
    let mut transactions = Transactions::new();

    let transaction1 = build_some_transaction();
    let transaction2 = build_other_transaction();

    let res = transactions.replace(SOME_TRANSACTION_ID, |x| Ok::<Transaction, String>(x));

    assert_eq!(res.is_ok(), true);
    assert_eq!(res.unwrap().is_none(), true);

    transactions.push(transaction1);
    transactions.push(transaction2);

    let res = transactions.replace(SOME_TRANSACTION_ID, |x| match x {
        Transaction::Valid(x) => Ok::<Transaction, String>(Transaction::Disputed(x.dispute())),
        _ => panic!("Invalid: {x:?}"),
    });

    assert_eq!(res.is_ok(), true);

    let expected = match transaction1 {
        Transaction::Valid(x) => Transaction::Disputed(x.dispute()),
        _ => panic!("Invalid: {transaction1:?}"),
    };

    let res = res.unwrap();
    assert_eq!(res.is_some(), true);
    assert_eq!(res.unwrap(), expected);
}

#[test]
fn failed_replace_keeps_the_transaction() {
    let mut transactions = Transactions::new();
    let transaction1 = build_some_transaction();
    transactions.push(transaction1);
    let res = transactions.replace(SOME_TRANSACTION_ID, |_| Err::<Transaction, String>("no".to_string()));
    assert_eq!(res, Err("no".to_string()));
    assert_eq!(transactions.get_by_id(&SOME_TRANSACTION_ID), Some(&transaction1));
    assert_eq!(transactions.get_all(), vec![&transaction1]);
}

#[test]
fn transaction_states() {
    let valid = new_transaction(SOME_TRANSACTION_ID, SOME_TRANSACTION_TYPE, SOME_AMOUNT);
    let disputed = valid.dispute();
    assert_eq!(Transaction::Disputed(disputed).state(), TransactionState::Disputed);
    assert_eq!(disputed.data().amount, SOME_AMOUNT);
    let charged_back = disputed.charge_back();
    assert_eq!(Transaction::ChargedBack(charged_back).state(), TransactionState::ChargedBack);
    assert_eq!(Transaction::Valid(disputed.resolve()).state(), TransactionState::Valid);
    assert_eq!(Transaction::Valid(disputed.resolve()), Transaction::Valid(valid));
}
