//! Per-account records: each transaction is a small state machine
//! (valid, disputed, charged back), kept with the account it belongs to.
use std::collections::HashMap;

use vstd::prelude::*;

use crate::ids::{ClientId, TransactionId};
use crate::money::Money;

verus! {

broadcast use vstd::std_specs::hash::group_hash_axioms;

#[derive(Debug, Clone, Copy, PartialEq, Eq, Structural)]
pub enum TransactionType {
    Deposit,
    Withdrawal,
}

#[derive(Debug, Clone, Copy, PartialEq, Eq, Structural)]
pub struct TransactionData {
    pub id: TransactionId,
    pub transaction_type: TransactionType,
    pub amount: Money,
}

#[derive(Debug, Clone, Copy, PartialEq, Eq, Structural)]
pub enum TransactionState {
    Valid,
    Disputed,
    ChargedBack,
}

/// A transaction in good standing; it may be disputed.
#[derive(Debug, Clone, Copy, PartialEq, Eq)]
pub struct ValidTransaction(TransactionData);

/// A transaction under dispute; it is either resolved or charged back.
#[derive(Debug, Clone, Copy, PartialEq, Eq)]
pub struct DisputedTransaction(TransactionData);

/// A charged back transaction: final.
#[derive(Debug, Clone, Copy, PartialEq, Eq)]
pub struct ChargedBackTransaction(TransactionData);

/// A transaction together with its state:
/// valid -> disputed (dispute); disputed -> valid (resolve) or charged back.
#[derive(Debug, Clone, Copy, PartialEq, Eq)]
pub enum Transaction {
    Valid(ValidTransaction),
    Disputed(DisputedTransaction),
    ChargedBack(ChargedBackTransaction),
}

impl View for ValidTransaction {
    type V = TransactionData;

    closed spec fn view(&self) -> TransactionData {
        self.0
    }
}

impl View for DisputedTransaction {
    type V = TransactionData;

    closed spec fn view(&self) -> TransactionData {
        self.0
    }
}

impl View for ChargedBackTransaction {
    type V = TransactionData;

    closed spec fn view(&self) -> TransactionData {
        self.0
    }
}

/// The data of a transaction, whatever its state.
pub open spec fn data_of(t: Transaction) -> TransactionData {
    match t {
        Transaction::Valid(v) => v@,
        Transaction::Disputed(d) => d@,
        Transaction::ChargedBack(c) => c@,
    }
}

pub open spec fn state_of(t: Transaction) -> TransactionState {
    match t {
        Transaction::Valid(_) => TransactionState::Valid,
        Transaction::Disputed(_) => TransactionState::Disputed,
        Transaction::ChargedBack(_) => TransactionState::ChargedBack,
    }
}

/// Creates a transaction in the valid state.
pub fn new_transaction(id: TransactionId, transaction_type: TransactionType, amount: Money) -> (r:
    ValidTransaction)
    ensures
        r@ == (TransactionData { id, transaction_type, amount }),
{
    ValidTransaction(TransactionData { id, transaction_type, amount })
}

/// A transaction in a given state is determined by its data.
pub proof fn lemma_data_determines(a: Transaction, b: Transaction)
    ensures
        state_of(a) == state_of(b) && data_of(a) == data_of(b) ==> a == b,
{
}

impl ValidTransaction {
    pub fn dispute(self) -> (r: DisputedTransaction)
        ensures
            r@ == self@,
    {
        DisputedTransaction(self.0)
    }

    pub fn data(&self) -> (r: &TransactionData)
        ensures
            *r == self@,
    {
        &self.0
    }
}

impl DisputedTransaction {
    pub fn resolve(self) -> (r: ValidTransaction)
        ensures
            r@ == self@,
    {
        ValidTransaction(self.0)
    }

    pub fn charge_back(self) -> (r: ChargedBackTransaction)
        ensures
            r@ == self@,
    {
        ChargedBackTransaction(self.0)
    }

    pub fn data(&self) -> (r: &TransactionData)
        ensures
            *r == self@,
    {
        &self.0
    }
}

impl ChargedBackTransaction {
    pub fn data(&self) -> (r: &TransactionData)
        ensures
            *r == self@,
    {
        &self.0
    }
}

impl Transaction {
    pub fn data(&self) -> (r: &TransactionData)
        ensures
            *r == data_of(*self),
    {
        match self {
            Transaction::Valid(t) => t.data(),
            Transaction::Disputed(t) => t.data(),
            Transaction::ChargedBack(t) => t.data(),
        }
    }

    pub fn state(&self) -> (r: TransactionState)
        ensures
            r == state_of(*self),
    {
        match self {
            Transaction::Valid(_) => TransactionState::Valid,
            Transaction::Disputed(_) => TransactionState::Disputed,
            Transaction::ChargedBack(_) => TransactionState::ChargedBack,
        }
    }
}

/// The transactions of one account: found by id in constant time, and listed
/// in the order they were pushed.
#[derive(Debug)]
pub struct Transactions {
    /// By id: the position in `chron` where the id was last pushed, and the transaction.
    map: HashMap<u32, (usize, Transaction)>,
    /// The ids in the order they were pushed.
    chron: Vec<TransactionId>,
}

/// What `get_since(id)` lists, over the first `n` pushed ids: `None` while `id`
/// has not been seen, then the transactions pushed after it (skipping `id` itself).
pub open spec fn since(
    order: Seq<TransactionId>,
    entries: Map<u32, (usize, Transaction)>,
    id: TransactionId,
    n: int,
) -> Option<Seq<Transaction>>
    decreases n,
{
    if n <= 0 {
        None
    } else {
        let prev = since(order, entries, id, n - 1);
        if order[n - 1] == id {
            match prev {
                None => Some(Seq::empty()),
                Some(s) => Some(s),
            }
        } else {
            match prev {
                None => None,
                Some(s) => Some(s.push(entries[order[n - 1].0].1)),
            }
        }
    }
}

impl Transactions {
    pub closed spec fn entries(&self) -> Map<u32, (usize, Transaction)> {
        self.map@
    }

    pub closed spec fn order(&self) -> Seq<TransactionId> {
        self.chron@
    }

    /// Every pushed id can be found.
    pub open spec fn wf(&self) -> bool {
        forall|i: int|
            0 <= i < self.order().len() ==> self.entries().contains_key(#[trigger] self.order()[i].0)
    }

    pub fn new() -> (r: Transactions)
        ensures
            r.wf(),
            r.entries() == Map::<u32, (usize, Transaction)>::empty(),
            r.order() == Seq::<TransactionId>::empty(),
    {
        Transactions { map: HashMap::new(), chron: Vec::new() }
    }

    pub fn get_by_id(&self, id: &TransactionId) -> (r: Option<&Transaction>)
        ensures
            match r {
                Some(t) => self.entries().contains_key(id.0) && *t == self.entries()[id.0].1,
                None => !self.entries().contains_key(id.0),
            },
    {
        match self.map.get(&id.0) {
            Some(entry) => Some(&entry.1),
            None => None,
        }
    }

    /// The position where `id` was last pushed, and its transaction.
    pub fn get_entry(&self, id: &TransactionId) -> (r: Option<(usize, Transaction)>)
        ensures
            match r {
                Some(e) => self.entries().contains_key(id.0) && e == self.entries()[id.0],
                None => !self.entries().contains_key(id.0),
            },
    {
        match self.map.get(&id.0) {
            Some(entry) => Some(*entry),
            None => None,
        }
    }

    /// How many distinct ids are held.
    pub fn len(&self) -> (r: usize)
        ensures
            r == self.entries().len(),
    {
        self.map.len()
    }

    /// The ids in the order they were pushed.
    pub fn chron(&self) -> (r: &Vec<TransactionId>)
        ensures
            r@ == self.order(),
    {
        &self.chron
    }

    /// The transaction of every pushed id, in push order.
    pub fn get_all(&self) -> (r: Vec<&Transaction>)
        requires
            self.wf(),
        ensures
            r@.len() == self.order().len(),
            forall|i: int|
                0 <= i < r@.len() ==> *#[trigger] r@[i] == self.entries()[self.order()[i].0].1,
    {
        let mut transactions: Vec<&Transaction> = Vec::new();
        let n = self.chron.len();
        let mut i: usize = 0;
        while i < n
            invariant
                self.wf(),
                i <= n == self.order().len(),
                transactions@.len() == i,
                forall|j: int|
                    0 <= j < i ==> *#[trigger] transactions@[j] == self.entries()[self.order()[
                        j
                    ].0].1,
            decreases n - i,
        {
            let tx_id = self.chron[i];
            assert(self.entries().contains_key(self.order()[i as int].0));
            match self.map.get(&tx_id.0) {
                Some(entry) => transactions.push(&entry.1),
                None => {},
            }
            i = i + 1;
        }
        transactions
    }

    /// The transactions pushed after `id` (other than `id` itself), in push
    /// order; `None` when `id` was never pushed.
    pub fn get_since(&self, id: &TransactionId) -> (r: Option<Vec<&Transaction>>)
        requires
            self.wf(),
        ensures
            match since(self.order(), self.entries(), *id, self.order().len() as int) {
                None => r is None,
                Some(s) => match r {
                    Some(v) => v@.map_values(|t: &Transaction| *t) == s,
                    None => false,
                },
            },
    {
        let mut transactions: Vec<&Transaction> = Vec::new();
        let mut found = false;
        let n = self.chron.len();
        let mut i: usize = 0;
        while i < n
            invariant
                self.wf(),
                i <= n == self.order().len(),
                found == since(self.order(), self.entries(), *id, i as int) is Some,
                found ==> transactions@.map_values(|t: &Transaction| *t) == since(
                    self.order(),
                    self.entries(),
                    *id,
                    i as int,
                )->Some_0,
            decreases n - i,
        {
            let tx_id = self.chron[i];
            let ghost before = transactions@;
            if tx_id == *id {
                if !found {
                    transactions = Vec::new();
                    assert(transactions@.map_values(|t: &Transaction| *t) =~= Seq::<
                        Transaction,
                    >::empty());
                }
                found = true;
            } else if found {
                assert(self.entries().contains_key(self.order()[i as int].0));
                match self.map.get(&tx_id.0) {
                    Some(entry) => {
                        transactions.push(&entry.1);
                        assert(transactions@.map_values(|t: &Transaction| *t) =~= before.map_values(
                            |t: &Transaction| *t,
                        ).push(entry.1));
                    },
                    None => {},
                }
            }
            i = i + 1;
        }
        if !found {
            return None;
        }
        Some(transactions)
    }

    /// Adds `transaction` under its id (replacing any held one) and records the
    /// id in push order.
    pub fn push(&mut self, transaction: Transaction)
        ensures
            old(self).wf() ==> final(self).wf(),
            final(self).entries() == old(self).entries().insert(
                data_of(transaction).id.0,
                (old(self).order().len() as usize, transaction),
            ),
            final(self).order() == old(self).order().push(data_of(transaction).id),
    {
        let id = transaction.data().id;
        let position = self.chron.len();
        self.map.insert(id.0, (position, transaction));
        self.chron.push(id);
        proof {
            if old(self).wf()
            {
            assert forall|i: int| 0 <= i < self.order().len() implies self.entries().contains_key(
                #[trigger] self.order()[i].0,
            ) by {
                if i < old(self).order().len() {
                    assert(self.order()[i] == old(self).order()[i]);
                    assert(old(self).entries().contains_key(old(self).order()[i].0));
                }
            }
            }
        }
    }

    /// Replaces the transaction held under `id` by `map_fn` of it. `Ok(None)`
    /// when `id` is not held; when `map_fn` fails its error is returned and the
    /// held transaction is kept.
    pub fn replace<F, E>(&mut self, id: TransactionId, map_fn: F) -> (r: Result<
        Option<Transaction>,
        E,
    >) where F: FnOnce(Transaction) -> Result<Transaction, E>
        requires
            forall|t: Transaction| #[trigger] map_fn.requires((t,)),
        ensures
            old(self).wf() ==> final(self).wf(),
            final(self).order() == old(self).order(),
            !old(self).entries().contains_key(id.0) ==> r is Ok && r->Ok_0 is None
                && final(self).entries() == old(self).entries(),
            old(self).entries().contains_key(id.0) ==> ({
                let (position, t) = old(self).entries()[id.0];
                match r {
                    Ok(Some(t2)) => map_fn.ensures((t,), Ok::<Transaction, E>(t2))
                        && final(self).entries() == old(self).entries().insert(
                        id.0,
                        (position, t2),
                    ),
                    Ok(None) => false,
                    Err(e) => map_fn.ensures((t,), Err::<Transaction, E>(e))
                        && final(self).entries() == old(self).entries(),
                }
            }),
    {
        let (position, transaction) = match self.map.remove(&id.0) {
            Some(entry) => entry,
            None => {
                assert(self.map@ =~= old(self).entries());
                assert(self.order() == old(self).order());
                return Ok(None);
            },
        };
        let mapped = map_fn(transaction);
        match mapped {
            Ok(t2) => {
                self.map.insert(id.0, (position, t2));
                assert(self.map@ =~= old(self).entries().insert(id.0, (position, t2)));
                proof {
                    assert(self.order() == old(self).order());
                    if old(self).wf() {
                        assert forall|i: int| 0 <= i < self.order().len() implies self.entries().contains_key(
                            #[trigger] self.order()[i].0,
                        ) by {
                            assert(self.order()[i] == old(self).order()[i]);
                            assert(old(self).entries().contains_key(old(self).order()[i].0));
                            assert(old(self).wf());
                        }
                        assert(self.wf());
                    }
                }
                Ok(Some(t2))
            },
            Err(e) => {
                self.map.insert(id.0, (position, transaction));
                assert(self.map@ =~= old(self).entries());
                assert(self.order() == old(self).order());
                Err(e)
            },
        }
    }
}

/// The balances of an account, and the last transaction that changed them.
#[derive(Debug, Clone, Copy, PartialEq, Eq)]
pub struct Snapshot {
    pub from: Option<TransactionId>,
    pub available: Money,
    pub held: Money,
    pub locked: bool,
}

pub open spec fn empty_snapshot() -> Snapshot {
    Snapshot { from: None, available: Money(0), held: Money(0), locked: false }
}

impl Snapshot {
    pub fn new() -> (r: Snapshot)
        ensures
            r == empty_snapshot(),
    {
        Snapshot { from: None, available: Money(0), held: Money(0), locked: false }
    }
}

#[derive(Debug)]
pub struct Account {
    pub client_id: ClientId,
    pub transactions: Transactions,
    pub snapshot: Snapshot,
}

impl Account {
    pub fn new(client_id: ClientId) -> (r: Account)
        ensures
            r.client_id == client_id,
            r.transactions.wf(),
            r.transactions.entries() == Map::<u32, (usize, Transaction)>::empty(),
            r.transactions.order() == Seq::<TransactionId>::empty(),
            r.snapshot == empty_snapshot(),
    {
        Account { client_id, transactions: Transactions::new(), snapshot: Snapshot::new() }
    }
}

/// The overview of one account, as values.
#[derive(Debug, Clone, Copy, PartialEq, Eq)]
pub struct AccountReport {
    pub client: ClientId,
    pub available: Money,
    pub held: Money,
    pub total: Money,
    pub locked: bool,
}

} // verus!
