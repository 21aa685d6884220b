//! Services over per-account records: the account service applies transactions
//! to balances; the transaction service turns events into state changes of the
//! transactions they name.
use vstd::prelude::*;

use crate::events::TransactionEvent;
use crate::ids::{ClientId, TransactionId};
use crate::models::{
    data_of, empty_snapshot, new_transaction, state_of, Account, ChargedBackTransaction,
    DisputedTransaction, Snapshot, Transaction, TransactionData, TransactionState, TransactionType,
    ValidTransaction,
};
use crate::money::{add_spec, money_text, sub_spec, Money, MoneyError};
use crate::snapshot::AccountReport;
use crate::text::digits_of;

verus! {

#[derive(Debug, Clone, PartialEq, Eq)]
pub enum AccountServiceError {
    AccountNotFound(ClientId),
    AccountLocked(ClientId),
    /// More than the available amount was asked for.
    InvalidWithdrawal(ClientId),
    /// A balance would leave the range of `Money`.
    Money(MoneyError),
}

/// Why an event does not apply to the transaction it names.
#[derive(Debug, Clone, Copy, PartialEq, Eq, Structural)]
pub enum EventRejection {
    UnknownClient,
    UnknownTransaction,
    /// Only a valid transaction can be disputed.
    NotValid,
    /// Only a disputed transaction can be resolved or charged back.
    NotDisputed,
}

#[derive(Debug, Clone, PartialEq, Eq)]
pub enum TransactionServiceError {
    /// The reason, the client and the transaction of the event.
    InvalidEvent(EventRejection, ClientId, TransactionId),
    /// The account refused the change.
    Account(AccountServiceError),
}

/// The accounts, one per client, in order of creation.
pub struct AccountService {
    repository: Vec<Account>,
}

/// Every account's transactions are well formed.
pub open spec fn accounts_wf(s: Seq<Account>) -> bool {
    forall|i: int| 0 <= i < s.len() ==> #[trigger] s[i].transactions.wf()
}

/// The first position of `s` that holds `client`'s account.
pub open spec fn find_account(s: Seq<Account>, client: ClientId) -> Option<int>
    decreases s.len(),
{
    if s.len() == 0 {
        None
    } else {
        match find_account(s.drop_last(), client) {
            Some(i) => Some(i),
            None => if s.last().client_id == client {
                Some(s.len() - 1)
            } else {
                None
            },
        }
    }
}

pub open spec fn with_money(s: Snapshot, available: Money, held: Money) -> Snapshot {
    Snapshot { available, held, ..s }
}

/// A new deposit or withdrawal on an account of `client` with snapshot `s`.
pub open spec fn valid_effect(s: Snapshot, client: ClientId, t: TransactionData) -> Result<
    Snapshot,
    AccountServiceError,
> {
    if s.locked {
        Err(AccountServiceError::AccountLocked(client))
    } else {
        match t.transaction_type {
            TransactionType::Deposit => match add_spec(s.available, t.amount) {
                Err(e) => Err(AccountServiceError::Money(e)),
                Ok(a) => Ok(Snapshot { available: a, from: Some(t.id), ..s }),
            },
            TransactionType::Withdrawal => if s.available.0 < t.amount.0 {
                Err(AccountServiceError::InvalidWithdrawal(client))
            } else {
                match sub_spec(s.available, t.amount) {
                    Err(e) => Err(AccountServiceError::Money(e)),
                    Ok(a) => Ok(Snapshot { available: a, from: Some(t.id), ..s }),
                }
            },
        }
    }
}

/// Disputing `t`: a deposit's amount moves from available to held; a
/// withdrawal's amount is held.
pub open spec fn dispute_effect(s: Snapshot, client: ClientId, t: TransactionData) -> Result<
    Snapshot,
    AccountServiceError,
> {
    if s.locked {
        Err(AccountServiceError::AccountLocked(client))
    } else {
        match t.transaction_type {
            TransactionType::Deposit => match sub_spec(s.available, t.amount) {
                Err(e) => Err(AccountServiceError::Money(e)),
                Ok(a) => match add_spec(s.held, t.amount) {
                    Err(e) => Err(AccountServiceError::Money(e)),
                    Ok(h) => Ok(with_money(s, a, h)),
                },
            },
            TransactionType::Withdrawal => match add_spec(s.held, t.amount) {
                Err(e) => Err(AccountServiceError::Money(e)),
                Ok(h) => Ok(with_money(s, s.available, h)),
            },
        }
    }
}

/// Resolving `t`: what its dispute held is released.
pub open spec fn resolve_effect(s: Snapshot, client: ClientId, t: TransactionData) -> Result<
    Snapshot,
    AccountServiceError,
> {
    if s.locked {
        Err(AccountServiceError::AccountLocked(client))
    } else {
        match sub_spec(s.held, t.amount) {
            Err(e) => Err(AccountServiceError::Money(e)),
            Ok(h) => match t.transaction_type {
                TransactionType::Deposit => match add_spec(s.available, t.amount) {
                    Err(e) => Err(AccountServiceError::Money(e)),
                    Ok(a) => Ok(with_money(s, a, h)),
                },
                TransactionType::Withdrawal => Ok(with_money(s, s.available, h)),
            },
        }
    }
}

/// Charging `t` back: what its dispute held leaves (a withdrawal's amount is
/// returned to available), and the account is locked.
pub open spec fn charge_back_effect(s: Snapshot, client: ClientId, t: TransactionData) -> Result<
    Snapshot,
    AccountServiceError,
> {
    if s.locked {
        Err(AccountServiceError::AccountLocked(client))
    } else {
        match sub_spec(s.held, t.amount) {
            Err(e) => Err(AccountServiceError::Money(e)),
            Ok(h) => match t.transaction_type {
                TransactionType::Deposit => Ok(Snapshot { held: h, locked: true, ..s }),
                TransactionType::Withdrawal => match add_spec(s.available, t.amount) {
                    Err(e) => Err(AccountServiceError::Money(e)),
                    Ok(a) => Ok(Snapshot { available: a, held: h, locked: true, ..s }),
                },
            },
        }
    }
}

/// `after` is `before` with only the snapshot of the account at `i` changed, to `s`.
pub open spec fn only_snapshot_changed(
    before: Seq<Account>,
    after: Seq<Account>,
    i: int,
    s: Snapshot,
) -> bool {
    &&& after.len() == before.len()
    &&& forall|j: int| 0 <= j < before.len() && j != i ==> #[trigger] after[j] == before[j]
    &&& after[i].client_id == before[i].client_id
    &&& after[i].transactions == before[i].transactions
    &&& after[i].snapshot == s
}

/// The report lines of a snapshot, as `build_report` writes them.
pub open spec fn is_account_report_of(report: AccountReport, a: Account) -> bool {
    &&& add_spec(a.snapshot.available, a.snapshot.held) is Ok
    &&& report.client@ == digits_of(a.client_id.0 as nat)
    &&& report.available@ == money_text(a.snapshot.available.0 as int)
    &&& report.held@ == money_text(a.snapshot.held.0 as int)
    &&& report.total@ == money_text(
        add_spec(a.snapshot.available, a.snapshot.held)->Ok_0.0 as int,
    )
    &&& report.locked == a.snapshot.locked
}

proof fn lemma_find_account_prefix(s: Seq<Account>, client: ClientId, i: int)
    requires
        0 <= i < s.len(),
        find_account(s.subrange(0, i), client) is None,
        s[i].client_id == client,
    ensures
        find_account(s, client) == Some(i),
    decreases s.len(),
{
    if s.len() > i + 1 {
        assert(s.drop_last().subrange(0, i) =~= s.subrange(0, i));
        lemma_find_account_prefix(s.drop_last(), client, i);
    } else {
        assert(s.drop_last() =~= s.subrange(0, i));
    }
}

proof fn lemma_find_account_bound(s: Seq<Account>, client: ClientId)
    ensures
        match find_account(s, client) {
            Some(i) => 0 <= i < s.len() && s[i].client_id == client,
            None => forall|j: int| 0 <= j < s.len() ==> #[trigger] s[j].client_id != client,
        },
    decreases s.len(),
{
    if s.len() > 0 {
        lemma_find_account_bound(s.drop_last(), client);
        if find_account(s.drop_last(), client) is None {
            assert forall|j: int| 0 <= j < s.len() - 1 implies #[trigger] s[j].client_id != client by {
                assert(s[j] == s.drop_last()[j]);
            }
        }
    }
}

/// The arithmetic of `valid_effect`.
fn apply_valid(s: Snapshot, client: ClientId, t: &TransactionData) -> (r: Result<
    Snapshot,
    AccountServiceError,
>)
    ensures
        r == valid_effect(s, client, *t),
{
    if s.locked {
        return Err(AccountServiceError::AccountLocked(client));
    }
    let mut s2 = s;
    match t.transaction_type {
        TransactionType::Deposit => {
            if let Err(e) = s2.available.add(&t.amount) {
                return Err(AccountServiceError::Money(e));
            }
        },
        TransactionType::Withdrawal => {
            if s.available.0 < t.amount.0 {
                return Err(AccountServiceError::InvalidWithdrawal(client));
            }
            if let Err(e) = s2.available.sub(&t.amount) {
                return Err(AccountServiceError::Money(e));
            }
        },
    }
    s2.from = Some(t.id);
    Ok(s2)
}

/// The arithmetic of `dispute_effect`.
fn apply_dispute(s: Snapshot, client: ClientId, t: &TransactionData) -> (r: Result<
    Snapshot,
    AccountServiceError,
>)
    ensures
        r == dispute_effect(s, client, *t),
{
    if s.locked {
        return Err(AccountServiceError::AccountLocked(client));
    }
    let mut s2 = s;
    if t.transaction_type == TransactionType::Deposit {
        if let Err(e) = s2.available.sub(&t.amount) {
            return Err(AccountServiceError::Money(e));
        }
    }
    if let Err(e) = s2.held.add(&t.amount) {
        return Err(AccountServiceError::Money(e));
    }
    Ok(s2)
}

/// The arithmetic of `resolve_effect`.
fn apply_resolve(s: Snapshot, client: ClientId, t: &TransactionData) -> (r: Result<
    Snapshot,
    AccountServiceError,
>)
    ensures
        r == resolve_effect(s, client, *t),
{
    if s.locked {
        return Err(AccountServiceError::AccountLocked(client));
    }
    let mut s2 = s;
    if let Err(e) = s2.held.sub(&t.amount) {
        return Err(AccountServiceError::Money(e));
    }
    if t.transaction_type == TransactionType::Deposit {
        if let Err(e) = s2.available.add(&t.amount) {
            return Err(AccountServiceError::Money(e));
        }
    }
    Ok(s2)
}

/// The arithmetic of `charge_back_effect`.
fn apply_charge_back(s: Snapshot, client: ClientId, t: &TransactionData) -> (r: Result<
    Snapshot,
    AccountServiceError,
>)
    ensures
        r == charge_back_effect(s, client, *t),
{
    if s.locked {
        return Err(AccountServiceError::AccountLocked(client));
    }
    let mut s2 = s;
    if let Err(e) = s2.held.sub(&t.amount) {
        return Err(AccountServiceError::Money(e));
    }
    if t.transaction_type == TransactionType::Withdrawal {
        if let Err(e) = s2.available.add(&t.amount) {
            return Err(AccountServiceError::Money(e));
        }
    }
    s2.locked = true;
    Ok(s2)
}

impl View for AccountService {
    type V = Seq<Account>;

    closed spec fn view(&self) -> Seq<Account> {
        self.repository@
    }
}

impl AccountService {
    pub fn new() -> (r: AccountService)
        ensures
            r@ == Seq::<Account>::empty(),
            accounts_wf(r@),
    {
        AccountService { repository: Vec::new() }
    }

    /// How many accounts there are.
    pub fn len(&self) -> (r: usize)
        ensures
            r == self@.len(),
    {
        self.repository.len()
    }

    /// The position of the client's account.
    fn position(&self, client_id: &ClientId) -> (r: Option<usize>)
        ensures
            match r {
                Some(i) => i < self@.len() && find_account(self@, *client_id) == Some(i as int),
                None => find_account(self@, *client_id) is None,
            },
    {
        proof {
            lemma_find_account_bound(self@, *client_id);
        }
        let n = self.repository.len();
        let mut i: usize = 0;
        while i < n
            invariant
                i <= n == self@.len(),
                find_account(self@.subrange(0, i as int), *client_id) is None,
            decreases n - i,
        {
            assert(self@.subrange(0, i + 1).drop_last() =~= self@.subrange(0, i as int));
            if self.repository[i].client_id == *client_id {
                proof {
                    lemma_find_account_prefix(self@, *client_id, i as int);
                }
                return Some(i);
            }
            i = i + 1;
        }
        assert(self@.subrange(0, n as int) =~= self@);
        None
    }

    /// The client's account.
    pub fn find(&self, client_id: &ClientId) -> (r: Option<&Account>)
        ensures
            match find_account(self@, *client_id) {
                Some(i) => r is Some && *r->Some_0 == self@[i],
                None => r is None,
            },
    {
        match self.position(client_id) {
            Some(i) => Some(&self.repository[i]),
            None => None,
        }
    }

    /// The client's account, to change in place.
    pub fn find_mut(&mut self, client_id: &ClientId) -> (r: Option<&mut Account>)
        ensures
            match find_account(old(self)@, *client_id) {
                None => r is None && final(self)@ == old(self)@,
                Some(i) => r is Some && *r->Some_0 == old(self)@[i] && final(self)@ == old(self)@.update(
                    i,
                    *final(r->Some_0),
                ),
            },
    {
        match self.position(client_id) {
            Some(i) => Some(&mut self.repository[i]),
            None => None,
        }
    }

    /// The report of every account, in order of creation; fails on the first
    /// account whose total leaves the range of `Money`.
    pub fn build_report(&self) -> (r: Result<Vec<AccountReport>, AccountServiceError>)
        ensures
            match r {
                Ok(reports) => reports@.len() == self@.len() && forall|i: int|
                    0 <= i < self@.len() ==> #[trigger] is_account_report_of(
                        reports@[i],
                        self@[i],
                    ),
                Err(e) => exists|i: int|
                    0 <= i < self@.len() && #[trigger] add_spec(
                        self@[i].snapshot.available,
                        self@[i].snapshot.held,
                    ) == Err::<Money, MoneyError>(e->Money_0) && e is Money,
            },
            (forall|i: int|
                0 <= i < self@.len() ==> #[trigger] add_spec(
                    self@[i].snapshot.available,
                    self@[i].snapshot.held,
                ) is Ok) ==> r is Ok,
    {
        let mut report: Vec<AccountReport> = Vec::new();
        let n = self.repository.len();
        let mut i: usize = 0;
        while i < n
            invariant
                i <= n == self@.len(),
                report@.len() == i,
                forall|j: int| 0 <= j < i ==> #[trigger] is_account_report_of(report@[j], self@[j]),
            decreases n - i,
        {
            let account = &self.repository[i];
            let mut total = account.snapshot.available;
            if let Err(e) = total.add(&account.snapshot.held) {
                assert(add_spec(self@[i as int].snapshot.available, self@[i as int].snapshot.held)
                    == Err::<Money, MoneyError>(e));
                return Err(AccountServiceError::Money(e));
            }
            report.push(
                AccountReport {
                    client: account.client_id.to_string(),
                    available: account.snapshot.available.to_string(),
                    held: account.snapshot.held.to_string(),
                    total: total.to_string(),
                    locked: account.snapshot.locked,
                },
            );
            i = i + 1;
        }
        Ok(report)
    }

    /// Applies a new deposit or withdrawal to the client's account (created when
    /// missing) and records it; nothing but the creation happens on failure.
    pub fn process_valid_transaction(&mut self, client_id: ClientId, transaction: ValidTransaction) -> (r:
        Result<(), AccountServiceError>)
        ensures
            ({
                let found = find_account(old(self)@, client_id);
                let i = match found {
                    Some(i) => i,
                    None => old(self)@.len() as int,
                };
                let before = match found {
                    Some(i) => old(self)@[i].snapshot,
                    None => empty_snapshot(),
                };
                let before_entries = match found {
                    Some(i) => old(self)@[i].transactions.entries(),
                    None => Map::<u32, (usize, Transaction)>::empty(),
                };
                let before_order = match found {
                    Some(i) => old(self)@[i].transactions.order(),
                    None => Seq::<TransactionId>::empty(),
                };
                &&& final(self)@.len() == (if found is Some {
                    old(self)@.len() as int
                } else {
                    old(self)@.len() + 1int
                })
                &&& forall|j: int|
                    0 <= j < old(self)@.len() && j != i ==> #[trigger] final(self)@[j] == old(self)@[j]
                &&& final(self)@[i].client_id == client_id
                &&& match valid_effect(before, client_id, transaction@) {
                    Ok(s2) => {
                        &&& r is Ok
                        &&& final(self)@[i].snapshot == s2
                        &&& final(self)@[i].transactions.entries() == before_entries.insert(
                            transaction@.id.0,
                            (before_order.len() as usize, Transaction::Valid(transaction)),
                        )
                        &&& final(self)@[i].transactions.order() == before_order.push(
                            transaction@.id,
                        )
                    },
                    Err(e) => {
                        &&& r == Err::<(), AccountServiceError>(e)
                        &&& final(self)@[i].snapshot == before
                        &&& final(self)@[i].transactions.entries() == before_entries
                        &&& final(self)@[i].transactions.order() == before_order
                        &&& found is Some ==> final(self)@[i] == old(self)@[i]
                    },
                }
            }),
            accounts_wf(old(self)@) ==> accounts_wf(final(self)@),
    {
        proof {
            lemma_find_account_bound(self@, client_id);
        }
        let i = match self.position(&client_id) {
            Some(i) => i,
            None => {
                self.repository.push(Account::new(client_id));
                self.repository.len() - 1
            },
        };
        let data = *transaction.data();
        let snapshot = self.repository[i].snapshot;
        let s2 = match apply_valid(snapshot, client_id, &data) {
            Ok(s2) => s2,
            Err(e) => return Err(e),
        };
        let account = &mut self.repository[i];
        account.snapshot = s2;
        account.transactions.push(Transaction::Valid(transaction));
        Ok(())
    }

    /// Applies a dispute of `transaction` to the client's existing account.
    pub fn process_dispute_transaction(
        &mut self,
        client_id: &ClientId,
        transaction: &DisputedTransaction,
    ) -> (r: Result<(), AccountServiceError>)
        ensures
            match find_account(old(self)@, *client_id) {
                None => r == Err::<(), AccountServiceError>(
                    AccountServiceError::AccountNotFound(*client_id),
                ) && final(self)@ == old(self)@,
                Some(i) => match dispute_effect(old(self)@[i].snapshot, *client_id, transaction@) {
                    Ok(s2) => r is Ok && only_snapshot_changed(old(self)@, final(self)@, i, s2),
                    Err(e) => r == Err::<(), AccountServiceError>(e) && final(self)@ == old(self)@,
                },
            },
            accounts_wf(old(self)@) ==> accounts_wf(final(self)@),
    {
        let i = match self.position(client_id) {
            Some(i) => i,
            None => return Err(AccountServiceError::AccountNotFound(*client_id)),
        };
        let s2 = match apply_dispute(self.repository[i].snapshot, *client_id, transaction.data()) {
            Ok(s2) => s2,
            Err(e) => return Err(e),
        };
        self.repository[i].snapshot = s2;
        Ok(())
    }

    /// Applies the resolve of `transaction` to the client's existing account.
    pub fn process_resolve_transaction(
        &mut self,
        client_id: &ClientId,
        transaction: &ValidTransaction,
    ) -> (r: Result<(), AccountServiceError>)
        ensures
            match find_account(old(self)@, *client_id) {
                None => r == Err::<(), AccountServiceError>(
                    AccountServiceError::AccountNotFound(*client_id),
                ) && final(self)@ == old(self)@,
                Some(i) => match resolve_effect(old(self)@[i].snapshot, *client_id, transaction@) {
                    Ok(s2) => r is Ok && only_snapshot_changed(old(self)@, final(self)@, i, s2),
                    Err(e) => r == Err::<(), AccountServiceError>(e) && final(self)@ == old(self)@,
                },
            },
            accounts_wf(old(self)@) ==> accounts_wf(final(self)@),
    {
        let i = match self.position(client_id) {
            Some(i) => i,
            None => return Err(AccountServiceError::AccountNotFound(*client_id)),
        };
        let s2 = match apply_resolve(self.repository[i].snapshot, *client_id, transaction.data()) {
            Ok(s2) => s2,
            Err(e) => return Err(e),
        };
        self.repository[i].snapshot = s2;
        Ok(())
    }

    /// Applies the charge back of `transaction` to the client's existing account,
    /// which is then locked.
    pub fn process_charge_back_transaction(
        &mut self,
        client_id: &ClientId,
        transaction: &ChargedBackTransaction,
    ) -> (r: Result<(), AccountServiceError>)
        ensures
            match find_account(old(self)@, *client_id) {
                None => r == Err::<(), AccountServiceError>(
                    AccountServiceError::AccountNotFound(*client_id),
                ) && final(self)@ == old(self)@,
                Some(i) => match charge_back_effect(
                    old(self)@[i].snapshot,
                    *client_id,
                    transaction@,
                ) {
                    Ok(s2) => r is Ok && only_snapshot_changed(old(self)@, final(self)@, i, s2),
                    Err(e) => r == Err::<(), AccountServiceError>(e) && final(self)@ == old(self)@,
                },
            },
            accounts_wf(old(self)@) ==> accounts_wf(final(self)@),
    {
        let i = match self.position(client_id) {
            Some(i) => i,
            None => return Err(AccountServiceError::AccountNotFound(*client_id)),
        };
        let s2 = match apply_charge_back(
            self.repository[i].snapshot,
            *client_id,
            transaction.data(),
        ) {
            Ok(s2) => s2,
            Err(e) => return Err(e),
        };
        self.repository[i].snapshot = s2;
        Ok(())
    }
}

/// What a new deposit or withdrawal `t` for `client` does to the accounts
/// (`r` is the service's result).
pub open spec fn new_transaction_outcome(
    before: Seq<Account>,
    after: Seq<Account>,
    client: ClientId,
    t: TransactionData,
    r: Result<(), TransactionServiceError>,
) -> bool {
    let found = find_account(before, client);
    let i = match found {
        Some(i) => i,
        None => before.len() as int,
    };
    let snapshot = match found {
        Some(i) => before[i].snapshot,
        None => empty_snapshot(),
    };
    &&& after.len() == (if found is Some {
        before.len() as int
    } else {
        before.len() + 1int
    })
    &&& forall|j: int| 0 <= j < before.len() && j != i ==> #[trigger] after[j] == before[j]
    &&& after[i].client_id == client
    &&& match valid_effect(snapshot, client, t) {
        Ok(s2) => {
            &&& r is Ok
            &&& after[i].snapshot == s2
            &&& after[i].transactions.entries().contains_key(t.id.0)
            &&& data_of(after[i].transactions.entries()[t.id.0].1) == t
            &&& state_of(after[i].transactions.entries()[t.id.0].1) == TransactionState::Valid
        },
        Err(e) => {
            &&& r == Err::<(), TransactionServiceError>(TransactionServiceError::Account(e))
            &&& after[i].snapshot == snapshot
            &&& found is Some ==> after[i] == before[i]
        },
    }
}

/// Turns events into transactions and applies them to their accounts.
pub struct TransactionService {
    account_service: AccountService,
}

/// `after` differs from `before` at most in the account at `i`, whose
/// snapshot is now `snapshot`; its client and its order of ids are kept.
pub open spec fn account_changed(
    before: Seq<Account>,
    after: Seq<Account>,
    i: int,
    snapshot: Snapshot,
) -> bool {
    &&& after.len() == before.len()
    &&& forall|j: int| 0 <= j < before.len() && j != i ==> #[trigger] after[j] == before[j]
    &&& after[i].client_id == before[i].client_id
    &&& after[i].snapshot == snapshot
    &&& after[i].transactions.order() == before[i].transactions.order()
}

/// `after` is `before` with the transaction under `id` put in state `st`
/// (same position, same data).
pub open spec fn moved_to(
    before: Map<u32, (usize, Transaction)>,
    after: Map<u32, (usize, Transaction)>,
    id: u32,
    st: TransactionState,
) -> bool {
    &&& forall|k: u32| #[trigger] after.contains_key(k) == before.contains_key(k)
    &&& forall|k: u32| k != id && #[trigger] before.contains_key(k) ==> after[k] == before[k]
    &&& after[id].0 == before[id].0
    &&& data_of(after[id].1) == data_of(before[id].1)
    &&& state_of(after[id].1) == st
}

/// What an event that names an existing transaction does, for the state the
/// transaction must be in (`from`), the state it moves to (`to`), and the
/// effect on the balances; `rolls_back`: whether the state change is undone
/// when the account refuses the effect.
pub open spec fn state_event_outcome(
    before: Seq<Account>,
    after: Seq<Account>,
    client: ClientId,
    id: TransactionId,
    from: TransactionState,
    to: TransactionState,
    effect: spec_fn(Snapshot, ClientId, TransactionData) -> Result<Snapshot, AccountServiceError>,
    rolls_back: bool,
    r: Result<(), TransactionServiceError>,
) -> bool {
    let rejected = if from == TransactionState::Valid {
        EventRejection::NotValid
    } else {
        EventRejection::NotDisputed
    };
    match find_account(before, client) {
        None => r == Err::<(), TransactionServiceError>(
            TransactionServiceError::InvalidEvent(EventRejection::UnknownClient, client, id),
        ) && after == before,
        Some(i) => {
            let a = before[i];
            let entries = a.transactions.entries();
            if !entries.contains_key(id.0) {
                &&& r == Err::<(), TransactionServiceError>(
                    TransactionServiceError::InvalidEvent(
                        EventRejection::UnknownTransaction,
                        client,
                        id,
                    ),
                )
                &&& account_changed(before, after, i, a.snapshot)
                &&& after[i].transactions.entries() == entries
            } else if state_of(entries[id.0].1) != from {
                &&& r == Err::<(), TransactionServiceError>(
                    TransactionServiceError::InvalidEvent(rejected, client, id),
                )
                &&& account_changed(before, after, i, a.snapshot)
                &&& after[i].transactions.entries() == entries
            } else {
                match effect(a.snapshot, client, data_of(entries[id.0].1)) {
                    Ok(s2) => {
                        &&& r is Ok
                        &&& account_changed(before, after, i, s2)
                        &&& moved_to(entries, after[i].transactions.entries(), id.0, to)
                    },
                    Err(e) => {
                        &&& r == Err::<(), TransactionServiceError>(
                            TransactionServiceError::Account(e),
                        )
                        &&& account_changed(before, after, i, a.snapshot)
                        &&& moved_to(
                            entries,
                            after[i].transactions.entries(),
                            id.0,
                            if rolls_back {
                                from
                            } else {
                                to
                            },
                        )
                    },
                }
            }
        },
    }
}

/// `r` holds `t`'s data in state `st`.
pub open spec fn transitioned(
    r: Result<Transaction, TransactionServiceError>,
    t: Transaction,
    st: TransactionState,
) -> bool {
    r is Ok && state_of(r->Ok_0) == st && data_of(r->Ok_0) == data_of(t)
}

/// `r` is the rejection of the event with `reason`.
pub open spec fn rejected(
    r: Result<Transaction, TransactionServiceError>,
    reason: EventRejection,
    client: ClientId,
    id: TransactionId,
) -> bool {
    r == Err::<Transaction, TransactionServiceError>(
        TransactionServiceError::InvalidEvent(reason, client, id),
    )
}

proof fn lemma_find_account_same_clients(s1: Seq<Account>, s2: Seq<Account>, client: ClientId)
    requires
        s1.len() == s2.len(),
        forall|j: int| 0 <= j < s1.len() ==> #[trigger] s1[j].client_id == s2[j].client_id,
    ensures
        find_account(s1, client) == find_account(s2, client),
    decreases s1.len(),
{
    if s1.len() > 0 {
        assert forall|j: int| 0 <= j < s1.len() - 1 implies #[trigger] s1.drop_last()[j].client_id
            == s2.drop_last()[j].client_id by {
            assert(s1.drop_last()[j] == s1[j]);
            assert(s2.drop_last()[j] == s2[j]);
        }
        lemma_find_account_same_clients(s1.drop_last(), s2.drop_last(), client);
    }
}

impl TransactionService {
    /// The accounts of the service.
    pub closed spec fn accounts(&self) -> Seq<Account> {
        self.account_service@
    }

    pub fn new(account_service: AccountService) -> (r: TransactionService)
        ensures
            r.accounts() == account_service@,
    {
        TransactionService { account_service }
    }

    /// Gives back the account service.
    pub fn take(self) -> (r: AccountService)
        ensures
            r@ == self.accounts(),
    {
        self.account_service
    }

    /// Applies one event: a deposit or withdrawal becomes a new valid
    /// transaction; a dispute, resolve or charge back moves the transaction it
    /// names to its next state and changes the balances accordingly.
    pub fn process_event(&mut self, event: TransactionEvent) -> (r: Result<
        (),
        TransactionServiceError,
    >)
        ensures
            match event {
                TransactionEvent::Deposit(e) => new_transaction_outcome(
                    old(self).accounts(),
                    final(self).accounts(),
                    e.client_id,
                    TransactionData {
                        id: e.transaction_id,
                        transaction_type: TransactionType::Deposit,
                        amount: e.amount,
                    },
                    r,
                ),
                TransactionEvent::Withdrawal(e) => new_transaction_outcome(
                    old(self).accounts(),
                    final(self).accounts(),
                    e.client_id,
                    TransactionData {
                        id: e.transaction_id,
                        transaction_type: TransactionType::Withdrawal,
                        amount: e.amount,
                    },
                    r,
                ),
                TransactionEvent::Dispute(e) => state_event_outcome(
                    old(self).accounts(),
                    final(self).accounts(),
                    e.client_id,
                    e.transaction_id,
                    TransactionState::Valid,
                    TransactionState::Disputed,
                    |s: Snapshot, c: ClientId, t: TransactionData| dispute_effect(s, c, t),
                    true,
                    r,
                ),
                TransactionEvent::Resolve(e) => state_event_outcome(
                    old(self).accounts(),
                    final(self).accounts(),
                    e.client_id,
                    e.transaction_id,
                    TransactionState::Disputed,
                    TransactionState::Valid,
                    |s: Snapshot, c: ClientId, t: TransactionData| resolve_effect(s, c, t),
                    false,
                    r,
                ),
                TransactionEvent::ChargeBack(e) => state_event_outcome(
                    old(self).accounts(),
                    final(self).accounts(),
                    e.client_id,
                    e.transaction_id,
                    TransactionState::Disputed,
                    TransactionState::ChargedBack,
                    |s: Snapshot, c: ClientId, t: TransactionData| charge_back_effect(s, c, t),
                    false,
                    r,
                ),
            },
            accounts_wf(old(self).accounts()) ==> accounts_wf(final(self).accounts()),
    {
        match event {
            TransactionEvent::Deposit(e) => {
                let transaction = new_transaction(
                    e.transaction_id,
                    TransactionType::Deposit,
                    e.amount,
                );
                match self.account_service.process_valid_transaction(e.client_id, transaction) {
                    Ok(()) => Ok(()),
                    Err(err) => Err(TransactionServiceError::Account(err)),
                }
            },
            TransactionEvent::Withdrawal(e) => {
                let transaction = new_transaction(
                    e.transaction_id,
                    TransactionType::Withdrawal,
                    e.amount,
                );
                match self.account_service.process_valid_transaction(e.client_id, transaction) {
                    Ok(()) => Ok(()),
                    Err(err) => Err(TransactionServiceError::Account(err)),
                }
            },
            TransactionEvent::Dispute(e) => self.process_dispute_event(e.client_id, e.transaction_id),
            TransactionEvent::Resolve(e) => self.process_resolve_event(e.client_id, e.transaction_id),
            TransactionEvent::ChargeBack(e) => self.process_charge_back_event(
                e.client_id,
                e.transaction_id,
            ),
        }
    }

    fn process_dispute_event(&mut self, client: ClientId, id: TransactionId) -> (r: Result<
        (),
        TransactionServiceError,
    >)
        ensures
            state_event_outcome(
                old(self).accounts(),
                final(self).accounts(),
                client,
                id,
                TransactionState::Valid,
                TransactionState::Disputed,
                |s: Snapshot, c: ClientId, t: TransactionData| dispute_effect(s, c, t),
                true,
                r,
            ),
            accounts_wf(old(self).accounts()) ==> accounts_wf(final(self).accounts()),
    {
        let ghost before = self.account_service@;
        let i = match self.account_service.position(&client) {
            Some(i) => i,
            None => {
                return Err(
                    TransactionServiceError::InvalidEvent(EventRejection::UnknownClient, client, id),
                )
            },
        };
        let replaced = self.account_service.repository[i].transactions.replace(
            id,
            (move |t: Transaction| -> (r: Result<Transaction, TransactionServiceError>)
                ensures
                    state_of(t) == TransactionState::Valid ==> transitioned(r, t, TransactionState::Disputed),
                    state_of(t) != TransactionState::Valid ==> rejected(r, EventRejection::NotValid, client, id),
                {
                    match t {
                        Transaction::Valid(v) => Ok(Transaction::Disputed(v.dispute())),
                        _ => Err(
                            TransactionServiceError::InvalidEvent(
                                EventRejection::NotValid,
                                client,
                                id,
                            ),
                        ),
                    }
                }),
        );
        let disputed = match replaced {
            Err(err) => {
                return Err(err);
            },
            Ok(None) => {
                return Err(
                    TransactionServiceError::InvalidEvent(
                        EventRejection::UnknownTransaction,
                        client,
                        id,
                    ),
                );
            },
            Ok(Some(Transaction::Disputed(d))) => d,
            Ok(Some(_)) => {
                return Err(
                    TransactionServiceError::InvalidEvent(EventRejection::NotValid, client, id),
                );
            },
        };
        proof {
            lemma_find_account_same_clients(before, self.account_service@, client);
        }
        match self.account_service.process_dispute_transaction(&client, &disputed) {
            Ok(()) => Ok(()),
            Err(err) => {
                let _ = self.account_service.repository[i].transactions.replace(
                    id,
                    (|t: Transaction| -> (r: Result<Transaction, TransactionServiceError>)
                        ensures
                            state_of(t) == TransactionState::Disputed ==> transitioned(r, t, TransactionState::Valid),
                            state_of(t) != TransactionState::Disputed ==> r is Ok && r->Ok_0 == t,
                        {
                            match t {
                                Transaction::Disputed(d) => {
                                    let data = *d.data();
                                    Ok(
                                        Transaction::Valid(
                                            new_transaction(
                                                data.id,
                                                data.transaction_type,
                                                data.amount,
                                            ),
                                        ),
                                    )
                                },
                                _ => Ok(t),
                            }
                        }),
                );
                Err(TransactionServiceError::Account(err))
            },
        }
    }

    fn process_resolve_event(&mut self, client: ClientId, id: TransactionId) -> (r: Result<
        (),
        TransactionServiceError,
    >)
        ensures
            state_event_outcome(
                old(self).accounts(),
                final(self).accounts(),
                client,
                id,
                TransactionState::Disputed,
                TransactionState::Valid,
                |s: Snapshot, c: ClientId, t: TransactionData| resolve_effect(s, c, t),
                false,
                r,
            ),
            accounts_wf(old(self).accounts()) ==> accounts_wf(final(self).accounts()),
    {
        let ghost before = self.account_service@;
        let i = match self.account_service.position(&client) {
            Some(i) => i,
            None => {
                return Err(
                    TransactionServiceError::InvalidEvent(EventRejection::UnknownClient, client, id),
                )
            },
        };
        let replaced = self.account_service.repository[i].transactions.replace(
            id,
            (move |t: Transaction| -> (r: Result<Transaction, TransactionServiceError>)
                ensures
                    state_of(t) == TransactionState::Disputed ==> transitioned(r, t, TransactionState::Valid),
                    state_of(t) != TransactionState::Disputed ==> rejected(r, EventRejection::NotDisputed, client, id),
                {
                    match t {
                        Transaction::Disputed(d) => Ok(Transaction::Valid(d.resolve())),
                        _ => Err(
                            TransactionServiceError::InvalidEvent(
                                EventRejection::NotDisputed,
                                client,
                                id,
                            ),
                        ),
                    }
                }),
        );
        let resolved = match replaced {
            Err(err) => {
                return Err(err);
            },
            Ok(None) => {
                return Err(
                    TransactionServiceError::InvalidEvent(
                        EventRejection::UnknownTransaction,
                        client,
                        id,
                    ),
                );
            },
            Ok(Some(Transaction::Valid(v))) => v,
            Ok(Some(_)) => {
                return Err(
                    TransactionServiceError::InvalidEvent(EventRejection::NotDisputed, client, id),
                );
            },
        };
        proof {
            lemma_find_account_same_clients(before, self.account_service@, client);
        }
        match self.account_service.process_resolve_transaction(&client, &resolved) {
            Ok(()) => Ok(()),
            Err(err) => Err(TransactionServiceError::Account(err)),
        }
    }

    fn process_charge_back_event(&mut self, client: ClientId, id: TransactionId) -> (r: Result<
        (),
        TransactionServiceError,
    >)
        ensures
            state_event_outcome(
                old(self).accounts(),
                final(self).accounts(),
                client,
                id,
                TransactionState::Disputed,
                TransactionState::ChargedBack,
                |s: Snapshot, c: ClientId, t: TransactionData| charge_back_effect(s, c, t),
                false,
                r,
            ),
            accounts_wf(old(self).accounts()) ==> accounts_wf(final(self).accounts()),
    {
        let ghost before = self.account_service@;
        let i = match self.account_service.position(&client) {
            Some(i) => i,
            None => {
                return Err(
                    TransactionServiceError::InvalidEvent(EventRejection::UnknownClient, client, id),
                )
            },
        };
        let replaced = self.account_service.repository[i].transactions.replace(
            id,
            (move |t: Transaction| -> (r: Result<Transaction, TransactionServiceError>)
                ensures
                    state_of(t) == TransactionState::Disputed ==> transitioned(r, t, TransactionState::ChargedBack),
                    state_of(t) != TransactionState::Disputed ==> rejected(r, EventRejection::NotDisputed, client, id),
                {
                    match t {
                        Transaction::Disputed(d) => Ok(Transaction::ChargedBack(d.charge_back())),
                        _ => Err(
                            TransactionServiceError::InvalidEvent(
                                EventRejection::NotDisputed,
                                client,
                                id,
                            ),
                        ),
                    }
                }),
        );
        let charged_back = match replaced {
            Err(err) => {
                return Err(err);
            },
            Ok(None) => {
                return Err(
                    TransactionServiceError::InvalidEvent(
                        EventRejection::UnknownTransaction,
                        client,
                        id,
                    ),
                );
            },
            Ok(Some(Transaction::ChargedBack(c))) => c,
            Ok(Some(_)) => {
                return Err(
                    TransactionServiceError::InvalidEvent(EventRejection::NotDisputed, client, id),
                );
            },
        };
        proof {
            lemma_find_account_same_clients(before, self.account_service@, client);
        }
        match self.account_service.process_charge_back_transaction(&client, &charged_back) {
            Ok(()) => Ok(()),
            Err(err) => Err(TransactionServiceError::Account(err)),
        }
    }
}

} // verus!
