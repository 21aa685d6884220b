//! A client's account, derived from the ledger: balances are rebuilt by
//! replaying, in ledger order, every entry of the client not yet seen.
use vstd::prelude::*;

use crate::ids::{ClientId, TransactionId};
use crate::ledger::{client_indices, invalidated, valid_with_id, Ledger};
use crate::money::{add_spec, money_text, sub_spec, Money, MoneyError};
use crate::text::digits_of;
use crate::transaction::{Transaction, TransactionType};

verus! {

/// The balances of one client after replaying the ledger up to `from_ledger_idx`.
#[derive(Debug, Clone, Copy, PartialEq, Eq)]
pub struct AccountSnapshot {
    /// The highest ledger position already replayed, whether it applied or not.
    pub from_ledger_idx: Option<usize>,
    pub client_id: ClientId,
    pub available: Money,
    pub held: Money,
    /// Set by a charge back; a locked account accepts no further transaction.
    pub locked: bool,
}

#[derive(Debug, Clone, PartialEq, Eq)]
pub enum AccountTransactionError {
    /// The ledger holds no deposit where one must be (a resolve without its dispute).
    InvalidLedgerState(TransactionId),
    /// The transaction, the client it belongs to, and the client that referred to it.
    InvalidClientId(TransactionId, ClientId, ClientId),
    AccountLocked(ClientId, TransactionId),
    /// No entry at this ledger position.
    TransactionNotFound(usize),
    /// The id was already used by more than one earlier entry.
    InvalidDeposit(TransactionId),
    /// Duplicate id, or more than the available amount.
    InvalidWithdrawal(TransactionId),
    /// Nothing to dispute, or not a deposit.
    InvalidDispute(TransactionId),
    /// Nothing to resolve, or the previous entry is not a dispute.
    InvalidResolve(TransactionId),
    /// Nothing to charge back, or the previous entry is not a dispute.
    InvalidChargeBack(TransactionId),
    /// A balance would leave the range of `Money`.
    Money(MoneyError),
}

/// The overview of one account, as text: amounts with four decimals.
#[derive(Debug, Clone, PartialEq, Eq, PartialOrd, Ord)]
pub struct AccountReport {
    pub client: String,
    pub available: String,
    pub held: String,
    pub total: String,
    pub locked: bool,
}

/// Walks back from the entry before position `n`, skipping each resolve together
/// with the dispute before it; the position where the walk stops, if any.
pub open spec fn walk_back(s: Seq<Transaction>, n: int) -> Option<int>
    decreases n,
{
    if n <= 0 {
        None
    } else if s[n - 1].tx_type is Resolve {
        if n < 2 {
            None
        } else {
            walk_back(s, n - 2)
        }
    } else {
        Some(n - 1)
    }
}

/// A client's snapshot before anything was replayed: nothing seen, nothing held.
pub open spec fn fresh_snapshot(client_id: ClientId) -> AccountSnapshot {
    AccountSnapshot {
        from_ledger_idx: None,
        client_id,
        available: Money(0),
        held: Money(0),
        locked: false,
    }
}

/// What `parse_report` returns for `s` when its total is in range.
pub open spec fn is_report_of(report: AccountReport, s: AccountSnapshot) -> bool {
    &&& add_spec(s.available, s.held) is Ok
    &&& report.client@ == digits_of(s.client_id.0 as nat)
    &&& report.available@ == money_text(s.available.0 as int)
    &&& report.held@ == money_text(s.held.0 as int)
    &&& report.total@ == money_text(add_spec(s.available, s.held)->Ok_0.0 as int)
    &&& report.locked == s.locked
}

pub open spec fn with_balances(s: AccountSnapshot, available: Money, held: Money) -> AccountSnapshot {
    AccountSnapshot { available, held, ..s }
}

/// Moves `amount` from available to held.
pub open spec fn hold(s: AccountSnapshot, amount: Money) -> Result<
    AccountSnapshot,
    AccountTransactionError,
> {
    match sub_spec(s.available, amount) {
        Err(e) => Err(AccountTransactionError::Money(e)),
        Ok(available) => match add_spec(s.held, amount) {
            Err(e) => Err(AccountTransactionError::Money(e)),
            Ok(held) => Ok(with_balances(s, available, held)),
        },
    }
}

/// Moves `amount` from held back to available.
pub open spec fn release(s: AccountSnapshot, amount: Money) -> Result<
    AccountSnapshot,
    AccountTransactionError,
> {
    match sub_spec(s.held, amount) {
        Err(e) => Err(AccountTransactionError::Money(e)),
        Ok(held) => match add_spec(s.available, amount) {
            Err(e) => Err(AccountTransactionError::Money(e)),
            Ok(available) => Ok(with_balances(s, available, held)),
        },
    }
}

/// Removes `amount` from held and locks the account.
pub open spec fn charge_back(s: AccountSnapshot, amount: Money) -> Result<
    AccountSnapshot,
    AccountTransactionError,
> {
    match sub_spec(s.held, amount) {
        Err(e) => Err(AccountTransactionError::Money(e)),
        Ok(held) => Ok(AccountSnapshot { held, locked: true, ..s }),
    }
}

/// A dispute: `prior` are the earlier valid entries with the dispute's id; the
/// entry the walk back reaches must be a deposit of this client.
pub open spec fn dispute_outcome(s: AccountSnapshot, id: TransactionId, prior: Seq<Transaction>) -> Result<
    AccountSnapshot,
    AccountTransactionError,
> {
    if prior.len() == 0 {
        Err(AccountTransactionError::InvalidDispute(id))
    } else {
        match walk_back(prior, prior.len() as int) {
            None => Err(AccountTransactionError::InvalidLedgerState(id)),
            Some(j) => if prior[j].client_id != s.client_id {
                Err(
                    AccountTransactionError::InvalidClientId(
                        prior[j].id,
                        prior[j].client_id,
                        s.client_id,
                    ),
                )
            } else {
                match prior[j].tx_type {
                    TransactionType::Deposit { amount } => hold(s, amount),
                    _ => Err(AccountTransactionError::InvalidDispute(id)),
                }
            },
        }
    }
}

/// A resolve (`locks == false`) or a charge back (`locks == true`) of the
/// disputed deposit that `prior` leads back to.
pub open spec fn settle_outcome(
    s: AccountSnapshot,
    id: TransactionId,
    prior: Seq<Transaction>,
    locks: bool,
) -> Result<AccountSnapshot, AccountTransactionError> {
    let rejected = if locks {
        AccountTransactionError::InvalidChargeBack(id)
    } else {
        AccountTransactionError::InvalidResolve(id)
    };
    if prior.len() == 0 || !(prior.last().tx_type is Dispute) || prior.len() == 1 {
        Err(rejected)
    } else {
        match walk_back(prior, prior.len() - 1) {
            None => Err(AccountTransactionError::InvalidLedgerState(id)),
            Some(j) => if prior[j].client_id != s.client_id {
                Err(
                    AccountTransactionError::InvalidClientId(
                        prior[j].id,
                        prior[j].client_id,
                        s.client_id,
                    ),
                )
            } else {
                match prior[j].tx_type {
                    TransactionType::Deposit { amount } => if locks {
                        charge_back(s, amount)
                    } else {
                        release(s, amount)
                    },
                    _ => Err(AccountTransactionError::InvalidLedgerState(id)),
                }
            },
        }
    }
}

/// The snapshot after applying the ledger entry at `idx`, or why it does not apply.
pub open spec fn applied(s: AccountSnapshot, h: Seq<Transaction>, idx: int) -> Result<
    AccountSnapshot,
    AccountTransactionError,
> {
    let tx = h[idx];
    let prior = valid_with_id(h, tx.id, idx);
    if s.locked {
        Err(AccountTransactionError::AccountLocked(s.client_id, tx.id))
    } else {
        match tx.tx_type {
            TransactionType::Deposit { amount } => if prior.len() > 1 {
                Err(AccountTransactionError::InvalidDeposit(tx.id))
            } else {
                match add_spec(s.available, amount) {
                    Err(e) => Err(AccountTransactionError::Money(e)),
                    Ok(available) => Ok(with_balances(s, available, s.held)),
                }
            },
            TransactionType::Withdrawal { amount } => if prior.len() > 1 || s.available.0
                < amount.0 {
                Err(AccountTransactionError::InvalidWithdrawal(tx.id))
            } else {
                match sub_spec(s.available, amount) {
                    Err(e) => Err(AccountTransactionError::Money(e)),
                    Ok(available) => Ok(with_balances(s, available, s.held)),
                }
            },
            TransactionType::Dispute => dispute_outcome(s, tx.id, prior),
            TransactionType::Resolve => settle_outcome(s, tx.id, prior, false),
            TransactionType::ChargeBack => settle_outcome(s, tx.id, prior, true),
        }
    }
}

pub open spec fn with_watermark(s: AccountSnapshot, idx: usize) -> AccountSnapshot {
    AccountSnapshot { from_ledger_idx: Some(idx), ..s }
}

/// Replays the positions `l` in order, stopping at the first that fails; the
/// final snapshot, and the failing position with its error if one failed.
pub open spec fn replay(s: AccountSnapshot, h: Seq<Transaction>, l: Seq<usize>) -> (
    AccountSnapshot,
    Option<(usize, AccountTransactionError)>,
)
    decreases l.len(),
{
    if l.len() == 0 {
        (s, None)
    } else {
        let i = l[0];
        match applied(s, h, i as int) {
            Ok(s2) => replay(with_watermark(s2, i), h, l.drop_first()),
            Err(e) => (with_watermark(s, i), Some((i, e))),
        }
    }
}

/// The first ledger position not yet replayed.
pub open spec fn replay_start(s: AccountSnapshot) -> int {
    match s.from_ledger_idx {
        Some(i) => i + 1,
        None => 0,
    }
}

/// The positions that the next replay of `s` visits.
pub open spec fn pending(s: AccountSnapshot, h: Seq<Transaction>) -> Seq<usize> {
    client_indices(h, s.client_id, replay_start(s), h.len() as int)
}

/// The entries listed by `client_indices` belong to the client, are valid, and
/// ascend; every such entry in range is listed.
pub proof fn lemma_client_indices(h: Seq<Transaction>, c: ClientId, from: int, n: int)
    requires
        0 <= from,
        0 <= n <= h.len(),
        n <= usize::MAX,
    ensures
        ({
            let l = client_indices(h, c, from, n);
            &&& forall|j: int|
                0 <= j < l.len() ==> from <= #[trigger] l[j] < n && h[l[j] as int].client_id == c
                    && !h[l[j] as int].invalid
            &&& forall|j1: int, j2: int| 0 <= j1 < j2 < l.len() ==> #[trigger] l[j1] < #[trigger] l[j2]
            &&& forall|p: int|
                from <= p < n && #[trigger] h[p].client_id == c && !h[p].invalid ==> l.contains(
                    p as usize,
                )
        }),
    decreases n - from,
{
    if n > from {
        lemma_client_indices(h, c, from, n - 1);
        let prev = client_indices(h, c, from, n - 1);
        let l = client_indices(h, c, from, n);
        if h[n - 1].client_id == c && !h[n - 1].invalid {
            assert(l == prev.push((n - 1) as usize));
            assert forall|j: int| 0 <= j < l.len() implies from <= #[trigger] l[j] < n
                && h[l[j] as int].client_id == c && !h[l[j] as int].invalid by {
                if j < prev.len() {
                    assert(l[j] == prev[j]);
                }
            }
            assert forall|j1: int, j2: int| 0 <= j1 < j2 < l.len() implies #[trigger] l[j1]
                < #[trigger] l[j2] by {
                assert(l[j1] == prev[j1]);
                if j2 < prev.len() {
                    assert(l[j2] == prev[j2]);
                }
            }
            assert forall|p: int|
                from <= p < n && #[trigger] h[p].client_id == c && !h[p].invalid implies l.contains(
                p as usize,
            ) by {
                if p < n - 1 {
                    let j = choose|j: int| 0 <= j < prev.len() && prev[j] == p as usize;
                    assert(l[j] == p as usize);
                } else {
                    assert(l[l.len() - 1] == p as usize);
                }
            }
        } else {
            assert forall|p: int|
                from <= p < n && #[trigger] h[p].client_id == c && !h[p].invalid implies l.contains(
                p as usize,
            ) by {
                if p < n - 1 {
                    let j = choose|j: int| 0 <= j < prev.len() && prev[j] == p as usize;
                    assert(l[j] == p as usize);
                }
            }
        }
    }
}

proof fn lemma_walk_back_prefix(s: Seq<Transaction>, x: Transaction, n: int)
    requires
        n <= s.len(),
    ensures
        walk_back(s.push(x), n) == walk_back(s, n),
    decreases n,
{
    if n > 0 {
        assert(s.push(x)[n - 1] == s[n - 1]);
        if n >= 2 {
            lemma_walk_back_prefix(s, x, n - 2);
        }
    }
}

/// Where the walk back from the entry before position `n` stops.
fn find_original(txs: &Vec<&Transaction>, n: usize) -> (r: Option<usize>)
    requires
        n <= txs@.len(),
    ensures
        match walk_back(txs@.map_values(|t: &Transaction| *t), n as int) {
            Some(j) => 0 <= j < n && r == Some(j as usize),
            None => r is None,
        },
        match r {
            Some(j) => j < n,
            None => true,
        },
{
    let ghost s = txs@.map_values(|t: &Transaction| *t);
    let mut m: usize = n;
    while m > 0 && txs[m - 1].tx_type == TransactionType::Resolve
        invariant
            m <= n <= txs@.len(),
            s == txs@.map_values(|t: &Transaction| *t),
            walk_back(s, n as int) == walk_back(s, m as int),
        decreases m,
    {
        assert(s[m - 1] == *txs@[m - 1]);
        if m >= 2 {
            m = m - 2;
        } else {
            m = 0;
        }
    }
    if m == 0 {
        None
    } else {
        assert(s[m - 1] == *txs@[m - 1]);
        Some(m - 1)
    }
}


/// What a deposit adds to, or a withdrawal takes from, the available balance.
pub open spec fn amount_effect(t: Transaction) -> int {
    match t.tx_type {
        TransactionType::Deposit { amount } => amount.0 as int,
        TransactionType::Withdrawal { amount } => -(amount.0 as int),
        _ => 0,
    }
}

/// The sum of the effects of the entries at positions `l`.
pub open spec fn net_amount(h: Seq<Transaction>, l: Seq<usize>) -> int
    decreases l.len(),
{
    if l.len() == 0 {
        0
    } else {
        amount_effect(h[l[0] as int]) + net_amount(h, l.drop_first())
    }
}

/// Replaying deposits and withdrawals only: when the replay succeeds, the
/// available balance has grown by exactly the deposits and shrunk by exactly the
/// withdrawals, and nothing is held.
pub proof fn lemma_replay_deposits_and_withdrawals(
    s: AccountSnapshot,
    h: Seq<Transaction>,
    l: Seq<usize>,
)
    requires
        forall|j: int|
            0 <= j < l.len() ==> #[trigger] l[j] < h.len() && (h[l[j] as int].tx_type is Deposit
                || h[l[j] as int].tx_type is Withdrawal),
        replay(s, h, l).1 is None,
    ensures
        replay(s, h, l).0.available.0 == s.available.0 + net_amount(h, l),
        replay(s, h, l).0.held == s.held,
    decreases l.len(),
{
    if l.len() > 0 {
        assert(l[0] < h.len());
        let s2 = applied(s, h, l[0] as int)->Ok_0;
        let rest = l.drop_first();
        assert forall|j: int| 0 <= j < rest.len() implies #[trigger] rest[j] < h.len() && (
        h[rest[j] as int].tx_type is Deposit || h[rest[j] as int].tx_type is Withdrawal) by {
            assert(rest[j] == l[j + 1]);
        }
        lemma_replay_deposits_and_withdrawals(with_watermark(s2, l[0]), h, rest);
    }
}

/// Disputing a deposit of amount `a` moves exactly `a` from available to held:
/// available + held is the same before and after.
pub proof fn lemma_dispute_moves_amount(s: AccountSnapshot, h: Seq<Transaction>, idx: int)
    requires
        0 <= idx < h.len(),
        h[idx].tx_type is Dispute,
        applied(s, h, idx) is Ok,
    ensures
        ({
            let s2 = applied(s, h, idx)->Ok_0;
            let prior = valid_with_id(h, h[idx].id, idx);
            let original = prior[walk_back(prior, prior.len() as int)->Some_0];
            let a = original.tx_type->Deposit_amount.0;
            &&& original.tx_type is Deposit
            &&& s2.available.0 == s.available.0 - a
            &&& s2.held.0 == s.held.0 + a
            &&& s2.available.0 + s2.held.0 == s.available.0 + s.held.0
            &&& s2.locked == s.locked
            &&& s2.client_id == s.client_id
            &&& s2.from_ledger_idx == s.from_ledger_idx
        }),
{
}

/// A withdrawal cannot be disputed: a dispute whose walk back lands on a
/// withdrawal is rejected (as a dispute of the wrong kind, unless the account is
/// locked or the withdrawal belongs to another client), and replaying it leaves
/// the snapshot as it was but for the watermark.
pub proof fn lemma_withdrawal_not_disputable(s: AccountSnapshot, h: Seq<Transaction>, idx: usize)
    requires
        idx < h.len(),
        h[idx as int].tx_type is Dispute,
        ({
            let prior = valid_with_id(h, h[idx as int].id, idx as int);
            &&& walk_back(prior, prior.len() as int) is Some
            &&& prior[walk_back(prior, prior.len() as int)->Some_0].tx_type is Withdrawal
        }),
    ensures
        applied(s, h, idx as int) is Err,
        ({
            let prior = valid_with_id(h, h[idx as int].id, idx as int);
            !s.locked && prior[walk_back(prior, prior.len() as int)->Some_0].client_id == s.client_id
                ==> applied(s, h, idx as int)
                == Err::<AccountSnapshot, AccountTransactionError>(
                AccountTransactionError::InvalidDispute(h[idx as int].id),
            )
        }),
        replay(s, h, seq![idx]) == (
            with_watermark(s, idx),
            Some((idx, applied(s, h, idx as int)->Err_0)),
        ),
{
    let prior = valid_with_id(h, h[idx as int].id, idx as int);
    assert(prior.len() > 0);
}

proof fn lemma_client_indices_push(h: Seq<Transaction>, x: Transaction, c: ClientId, from: int, n: int)
    requires
        0 <= from,
        n <= h.len(),
    ensures
        client_indices(h.push(x), c, from, n) == client_indices(h, c, from, n),
    decreases n - from,
{
    if n > from {
        assert(h.push(x)[n - 1] == h[n - 1]);
        lemma_client_indices_push(h, x, c, from, n - 1);
    }
}

proof fn lemma_valid_with_id_push(h: Seq<Transaction>, x: Transaction, id: TransactionId, n: int)
    requires
        n <= h.len(),
    ensures
        valid_with_id(h.push(x), id, n) == valid_with_id(h, id, n),
    decreases n,
{
    if n > 0 {
        assert(h.push(x)[n - 1] == h[n - 1]);
        lemma_valid_with_id_push(h, x, id, n - 1);
    }
}

proof fn lemma_valid_with_id_single(h: Seq<Transaction>, w: int, n: int)
    requires
        0 <= w < h.len(),
        n <= h.len(),
        !h[w].invalid,
        forall|j: int| 0 <= j < h.len() && j != w && h[j].id == h[w].id ==> #[trigger] h[j].invalid,
    ensures
        valid_with_id(h, h[w].id, n) == (if w < n {
            seq![h[w]]
        } else {
            Seq::<Transaction>::empty()
        }),
    decreases n,
{
    if n > 0 {
        lemma_valid_with_id_single(h, w, n - 1);
        if n - 1 == w {
            assert(Seq::<Transaction>::empty().push(h[w]) =~= seq![h[w]]);
        } else {
            assert(h[n - 1].id == h[w].id ==> h[n - 1].invalid);
        }
    }
}

/// A withdrawal cannot be disputed: when a snapshot has caught up with the
/// ledger and the only valid entry with id `t` is a withdrawal of its client,
/// appending a dispute of `t` and replaying visits just that dispute, rejects it
/// as a dispute of the wrong kind, and leaves the snapshot as it was but for the
/// watermark (the ledger then marks the dispute invalid).
pub proof fn lemma_caught_up_dispute_of_withdrawal(
    s: AccountSnapshot,
    h: Seq<Transaction>,
    w: int,
    d: Transaction,
)
    requires
        h.len() < usize::MAX,
        replay_start(s) <= h.len(),
        pending(s, h).len() == 0,
        !s.locked,
        0 <= w < h.len(),
        h[w].tx_type is Withdrawal,
        h[w].client_id == s.client_id,
        !h[w].invalid,
        forall|j: int| 0 <= j < h.len() && j != w && h[j].id == h[w].id ==> #[trigger] h[j].invalid,
        d == (Transaction {
            id: h[w].id,
            client_id: s.client_id,
            tx_type: TransactionType::Dispute,
            invalid: false,
        }),
    ensures
        ({
            let h2 = h.push(d);
            let n = h.len() as usize;
            &&& pending(s, h2) == seq![n]
            &&& replay(s, h2, pending(s, h2)) == (
                with_watermark(s, n),
                Some((n, AccountTransactionError::InvalidDispute(d.id))),
            )
        }),
{
    let h2 = h.push(d);
    let n = h.len() as usize;
    let start = replay_start(s);
    lemma_client_indices_push(h, d, s.client_id, start, h.len() as int);
    assert(h2[h.len() as int] == d);
    assert(client_indices(h2, s.client_id, start, h.len() + 1int) == client_indices(
        h2,
        s.client_id,
        start,
        h.len() as int,
    ).push(n));
    assert(pending(s, h2) =~= seq![n]);
    lemma_valid_with_id_push(h, d, d.id, h.len() as int);
    lemma_valid_with_id_single(h, w, h.len() as int);
    let prior = valid_with_id(h2, d.id, h.len() as int);
    assert(prior == seq![h[w]]);
    assert(walk_back(prior, 1) == Some(0int));
    assert(applied(s, h2, n as int) == Err::<AccountSnapshot, AccountTransactionError>(
        AccountTransactionError::InvalidDispute(d.id),
    ));
    assert(seq![n][0] == n);
}

/// The net effect of the valid entries of client `c` before position `n`:
/// their deposits minus their withdrawals.
pub open spec fn net_valid(h: Seq<Transaction>, c: ClientId, n: int) -> int
    decreases n,
{
    if n <= 0 {
        0
    } else {
        net_valid(h, c, n - 1) + if h[n - 1].client_id == c && !h[n - 1].invalid {
            amount_effect(h[n - 1])
        } else {
            0
        }
    }
}

/// The sum of all deposits of client `c` before position `n`.
pub open spec fn deposits_of(h: Seq<Transaction>, c: ClientId, n: int) -> int
    decreases n,
{
    if n <= 0 {
        0
    } else {
        deposits_of(h, c, n - 1) + if h[n - 1].client_id == c && h[n - 1].tx_type is Deposit {
            h[n - 1].tx_type->Deposit_amount.0 as int
        } else {
            0
        }
    }
}

/// A snapshot of a client whose entries are deposits and withdrawals: caught
/// up with the ledger, nothing held, and the available balance is exactly the
/// net effect of the client's valid entries (bounded by its deposits).
pub open spec fn balanced(s: AccountSnapshot, h: Seq<Transaction>) -> bool {
    &&& !s.locked
    &&& s.held == Money(0)
    &&& replay_start(s) <= h.len()
    &&& pending(s, h).len() == 0
    &&& 0 <= s.available.0 == net_valid(h, s.client_id, h.len() as int)
    &&& s.available.0 <= deposits_of(h, s.client_id, h.len() as int)
}

proof fn lemma_prefix_agree(h1: Seq<Transaction>, h2: Seq<Transaction>, c: ClientId, from: int, n: int)
    requires
        0 <= from,
        n <= h1.len(),
        n <= h2.len(),
        forall|i: int| 0 <= i < n ==> #[trigger] h1[i] == h2[i],
    ensures
        net_valid(h1, c, n) == net_valid(h2, c, n),
        deposits_of(h1, c, n) == deposits_of(h2, c, n),
        client_indices(h1, c, from, n) == client_indices(h2, c, from, n),
    decreases n,
{
    if n > 0 {
        lemma_prefix_agree(h1, h2, c, from, n - 1);
        assert(h1[n - 1] == h2[n - 1]);
    }
}

/// The balance of deposits and withdrawals holds across calls: if a snapshot is
/// balanced and one more entry is appended (a fresh id; for this client a
/// deposit or withdrawal of a non-negative amount, with all deposits of the
/// client summing to at most `i64::MAX`), the replay that follows leaves it
/// balanced on the resulting ledger, where a rejected withdrawal is invalid.
/// So after every call the available balance is the client's deposits minus its
/// successful withdrawals, exactly.
pub proof fn lemma_balanced_after_append(s: AccountSnapshot, h: Seq<Transaction>, x: Transaction)
    requires
        balanced(s, h),
        h.len() < usize::MAX,
        !x.invalid,
        forall|i: int| 0 <= i < h.len() ==> #[trigger] h[i].id != x.id,
        x.client_id == s.client_id ==> (x.tx_type is Deposit && x.tx_type->Deposit_amount.0 >= 0)
            || (x.tx_type is Withdrawal && x.tx_type->Withdrawal_amount.0 >= 0),
        deposits_of(h.push(x), s.client_id, h.len() + 1int) <= i64::MAX,
    ensures
        ({
            let h2 = h.push(x);
            let (s1, failure) = replay(s, h2, pending(s, h2));
            let h3 = match failure {
                None => h2,
                Some((k, e)) => h2.update(k as int, invalidated(h2[k as int])),
            };
            &&& s1.client_id == s.client_id
            &&& balanced(s1, h3)
        }),
{
    let c = s.client_id;
    let n = h.len() as int;
    let h2 = h.push(x);
    let start = replay_start(s);
    assert forall|i: int| 0 <= i < n implies #[trigger] h2[i] == h[i] by {}
    lemma_prefix_agree(h2, h, c, start, n);
    assert(h2[n] == x);
    if x.client_id != c {
        assert(pending(s, h2) == client_indices(h2, c, start, n));
        assert(pending(s, h2) =~= Seq::<usize>::empty());
        assert(replay(s, h2, pending(s, h2)) == (s, None::<(usize, AccountTransactionError)>));
    } else {
        let l = pending(s, h2);
        assert(l =~= seq![n as usize]);
        lemma_valid_with_id_skip_all(h2, x.id, n);
        let prior = valid_with_id(h2, x.id, n);
        assert(prior.len() == 0);
        let r = applied(s, h2, n);
        assert(l.drop_first() =~= Seq::<usize>::empty());
        match r {
            Ok(s2) => {
                let s1 = with_watermark(s2, n as usize);
                assert(l[0] == n as usize);
                assert(replay(s1, h2, Seq::<usize>::empty()) == (
                    s1,
                    None::<(usize, AccountTransactionError)>,
                ));
                assert(replay(s, h2, l) == (s1, None::<(usize, AccountTransactionError)>));
                assert(pending(s1, h2) =~= Seq::<usize>::empty());
            },
            Err(e) => {
                let s1 = with_watermark(s, n as usize);
                assert(l[0] == n as usize);
                assert(replay(s, h2, l) == (s1, Some((n as usize, e))));
                let h3 = h2.update(n, invalidated(h2[n]));
                assert forall|i: int| 0 <= i < n implies #[trigger] h3[i] == h[i] by {}
                lemma_prefix_agree(h3, h, c, start, n);
                assert(h3[n] == invalidated(x));
                assert(pending(s1, h3) =~= Seq::<usize>::empty());
            },
        }
    }
}

/// A fresh snapshot on an empty ledger is balanced.
pub proof fn lemma_fresh_is_balanced(c: ClientId)
    ensures
        balanced(fresh_snapshot(c), Seq::<Transaction>::empty()),
{
}

/// No entry before `n` carries `id`: none of them is listed.
proof fn lemma_valid_with_id_skip_all(h: Seq<Transaction>, id: TransactionId, n: int)
    requires
        0 <= n < h.len(),
        forall|i: int| 0 <= i < n ==> #[trigger] h[i].id != id,
    ensures
        valid_with_id(h, id, n).len() == 0,
    decreases n,
{
    if n > 0 {
        lemma_valid_with_id_skip_all(h, id, n - 1);
    }
}

/// Once an account is locked, every further entry is rejected as locked and
/// changes nothing but the watermark.
pub proof fn lemma_locked_rejects(s: AccountSnapshot, h: Seq<Transaction>, l: Seq<usize>)
    requires
        s.locked,
        l.len() > 0,
    ensures
        applied(s, h, l[0] as int) == Err::<AccountSnapshot, AccountTransactionError>(
            AccountTransactionError::AccountLocked(s.client_id, h[l[0] as int].id),
        ),
        replay(s, h, l) == (
            with_watermark(s, l[0]),
            Some((l[0], AccountTransactionError::AccountLocked(s.client_id, h[l[0] as int].id))),
        ),
{
}

/// A replay that succeeds keeps the client and leaves the watermark on the last
/// position it visited.
pub proof fn lemma_replay_succeeds(s: AccountSnapshot, h: Seq<Transaction>, l: Seq<usize>)
    requires
        replay(s, h, l).1 is None,
    ensures
        replay(s, h, l).0.client_id == s.client_id,
        l.len() == 0 ==> replay(s, h, l).0 == s,
        l.len() > 0 ==> replay(s, h, l).0.from_ledger_idx == Some(l.last()),
    decreases l.len(),
{
    if l.len() > 0 {
        let s2 = applied(s, h, l[0] as int)->Ok_0;
        let rest = l.drop_first();
        lemma_replay_succeeds(with_watermark(s2, l[0]), h, rest);
        if rest.len() > 0 {
            assert(rest.last() == l.last());
        }
    }
}

/// Replaying twice with no new ledger entries: when the first replay succeeds,
/// the second changes nothing and reports no error.
pub proof fn lemma_replay_idempotent(s: AccountSnapshot, h: Seq<Transaction>)
    requires
        h.len() <= usize::MAX,
        replay(s, h, pending(s, h)).1 is None,
    ensures
        ({
            let s1 = replay(s, h, pending(s, h)).0;
            replay(s1, h, pending(s1, h)) == (s1, None::<(usize, AccountTransactionError)>)
        }),
{
    let l = pending(s, h);
    let s1 = replay(s, h, l).0;
    lemma_replay_succeeds(s, h, l);
    if l.len() > 0 {
        let start = replay_start(s);
        if start >= 0 {
            lemma_client_indices(h, s.client_id, start, h.len() as int);
        }
        let next = l.last() as int + 1;
        lemma_client_indices(h, s.client_id, next, h.len() as int);
        let l1 = pending(s1, h);
        assert(replay_start(s1) == next);
        if l1.len() > 0 {
            let p = l1[0] as int;
            assert(next <= p < h.len());
            assert(h[p].client_id == s.client_id && !h[p].invalid);
            assert(l.contains(p as usize));
            let j = choose|j: int| 0 <= j < l.len() && l[j] == p as usize;
            if j < l.len() - 1 {
                assert(l[j] < l[l.len() - 1]);
            }
            assert(false);
        }
        assert(l1 =~= Seq::<usize>::empty());
    }
}

impl AccountSnapshot {
    pub fn new(client_id: ClientId) -> (r: AccountSnapshot)
        ensures
            r == fresh_snapshot(client_id),
    {
        AccountSnapshot {
            from_ledger_idx: None,
            client_id,
            available: Money(0),
            held: Money(0),
            locked: false,
        }
    }

    /// Replays every valid ledger entry of this client after the watermark, in
    /// ledger order. At the first entry that fails the entry is invalidated, the
    /// watermark stays on it, and its error is returned; a later call resumes
    /// after it.
    pub fn apply_transactions(&mut self, ledger: &mut Ledger) -> (r: Result<
        (),
        AccountTransactionError,
    >)
        requires
            old(ledger).wf(),
        ensures
            final(ledger).wf(),
            ({
                let (s1, failure) = replay(
                    *old(self),
                    old(ledger)@,
                    pending(*old(self), old(ledger)@),
                );
                &&& *final(self) == s1
                &&& match failure {
                    None => r is Ok && final(ledger)@ == old(ledger)@,
                    Some((i, e)) => r == Err::<(), AccountTransactionError>(e) && final(ledger)@
                        == old(ledger)@.update(i as int, invalidated(old(ledger)@[i as int])),
                }
            }),
    {
        let ghost s0 = *self;
        let ghost h = ledger@;
        let from_idx: usize = match self.from_ledger_idx {
            Some(idx) => if idx < usize::MAX {
                idx + 1
            } else {
                idx
            },
            None => 0,
        };
        let indices = ledger.get_valid_indicies_for_client(self.client_id, from_idx);
        let n = ledger.len();
        proof {
            lemma_client_indices(h, s0.client_id, from_idx as int, h.len() as int);
            if from_idx as int != replay_start(s0) {
                assert(client_indices(h, s0.client_id, replay_start(s0), h.len() as int)
                    =~= Seq::<usize>::empty());
                assert(client_indices(h, s0.client_id, from_idx as int, h.len() as int)
                    =~= Seq::<usize>::empty());
            }
            assert(indices@.subrange(0, indices@.len() as int) =~= indices@);
        }
        let mut k: usize = 0;
        while k < indices.len()
            invariant
                ledger.wf(),
                ledger@ == h,
                h == old(ledger)@,
                s0 == *old(self),
                k <= indices@.len(),
                self.client_id == s0.client_id,
                forall|j: int|
                    0 <= j < indices@.len() ==> #[trigger] indices@[j] < h.len()
                        && !h[indices@[j] as int].invalid,
                replay(*self, h, indices@.subrange(k as int, indices@.len() as int)) == replay(
                    s0,
                    h,
                    pending(s0, h),
                ),
            decreases indices@.len() - k,
        {
            let ledger_idx = indices[k];
            let ghost rest = indices@.subrange(k as int, indices@.len() as int);
            assert(rest[0] == ledger_idx);
            assert(rest.drop_first() =~= indices@.subrange(k + 1, indices@.len() as int));
            let ghost cur = *self;
            let res = self.apply_transaction(ledger, ledger_idx);
            self.from_ledger_idx = Some(ledger_idx);
            if let Err(e) = res {
                assert(replay(cur, h, rest) == (
                    with_watermark(cur, ledger_idx),
                    Some::<(usize, AccountTransactionError)>((ledger_idx, e)),
                ));
                assert(*self == with_watermark(cur, ledger_idx));
                ledger.invalidate(&ledger_idx);
                return Err(e);
            }
            proof {
                let s2 = applied(cur, h, ledger_idx as int)->Ok_0;
                assert(*self == with_watermark(s2, ledger_idx));
                assert(replay(cur, h, rest) == replay(*self, h, rest.drop_first()));
            }
            k = k + 1;
        }
        Ok(())
    }

    /// Applies the ledger entry at `ledger_idx` to the balances; on failure the
    /// snapshot is left as it was.
    pub fn apply_transaction(&mut self, ledger: &Ledger, ledger_idx: usize) -> (r: Result<
        (),
        AccountTransactionError,
    >)
        requires
            ledger.wf(),
            ledger_idx < ledger@.len(),
            !ledger@[ledger_idx as int].invalid,
        ensures
            match applied(*old(self), ledger@, ledger_idx as int) {
                Ok(s2) => r is Ok && *final(self) == s2,
                Err(e) => r == Err::<(), AccountTransactionError>(e) && *final(self) == *old(self),
            },
    {
        let tx = match ledger.get_by_index(&ledger_idx) {
            Some(tx) => *tx,
            None => return Err(AccountTransactionError::TransactionNotFound(ledger_idx)),
        };
        if self.locked {
            return Err(AccountTransactionError::AccountLocked(self.client_id, tx.id));
        }
        let transactions = ledger.get_valid_transactions_until(&ledger_idx, &tx.id);
        let ghost h = ledger@;
        let ghost prior = valid_with_id(h, tx.id, ledger_idx as int);
        let ghost all = transactions@.map_values(|t: &Transaction| *t);
        assert(all == prior.push(tx));
        assert(all.drop_last() =~= prior);
        let count = transactions.len() - 1;
        match tx.tx_type {
            TransactionType::Deposit { amount } => {
                if count > 1 {
                    return Err(AccountTransactionError::InvalidDeposit(tx.id));
                }
                let mut available = self.available;
                if let Err(e) = available.add(&amount) {
                    return Err(AccountTransactionError::Money(e));
                }
                self.available = available;
            },
            TransactionType::Withdrawal { amount } => {
                if count > 1 {
                    return Err(AccountTransactionError::InvalidWithdrawal(tx.id));
                }
                if self.available.0 < amount.0 {
                    return Err(AccountTransactionError::InvalidWithdrawal(tx.id));
                }
                let mut available = self.available;
                if let Err(e) = available.sub(&amount) {
                    return Err(AccountTransactionError::Money(e));
                }
                self.available = available;
            },
            TransactionType::Dispute => {
                if count == 0 {
                    return Err(AccountTransactionError::InvalidDispute(tx.id));
                }
                proof {
                    lemma_walk_back_prefix(prior, tx, count as int);
                }
                let original = match find_original(&transactions, count) {
                    Some(j) => {
                        assert(all[j as int] == prior[j as int]);
                        transactions[j]
                    },
                    None => return Err(AccountTransactionError::InvalidLedgerState(tx.id)),
                };
                if original.client_id != self.client_id {
                    return Err(
                        AccountTransactionError::InvalidClientId(
                            original.id,
                            original.client_id,
                            self.client_id,
                        ),
                    );
                }
                match original.tx_type {
                    TransactionType::Deposit { amount } => {
                        let mut available = self.available;
                        let mut held = self.held;
                        if let Err(e) = available.sub(&amount) {
                            return Err(AccountTransactionError::Money(e));
                        }
                        if let Err(e) = held.add(&amount) {
                            return Err(AccountTransactionError::Money(e));
                        }
                        self.available = available;
                        self.held = held;
                    },
                    _ => return Err(AccountTransactionError::InvalidDispute(tx.id)),
                }
            },
            TransactionType::Resolve | TransactionType::ChargeBack => {
                let locks = tx.tx_type == TransactionType::ChargeBack;
                let rejected = if locks {
                    AccountTransactionError::InvalidChargeBack(tx.id)
                } else {
                    AccountTransactionError::InvalidResolve(tx.id)
                };
                if count == 0 {
                    return Err(rejected);
                }
                let prev = transactions[count - 1];
                assert(*prev == prior.last());
                if prev.tx_type != TransactionType::Dispute || count == 1 {
                    return Err(rejected);
                }
                proof {
                    lemma_walk_back_prefix(prior, tx, count - 1);
                }
                let original = match find_original(&transactions, count - 1) {
                    Some(j) => {
                        assert(all[j as int] == prior[j as int]);
                        transactions[j]
                    },
                    None => return Err(AccountTransactionError::InvalidLedgerState(tx.id)),
                };
                if original.client_id != self.client_id {
                    return Err(
                        AccountTransactionError::InvalidClientId(
                            original.id,
                            original.client_id,
                            self.client_id,
                        ),
                    );
                }
                match original.tx_type {
                    TransactionType::Deposit { amount } => {
                        let mut held = self.held;
                        if let Err(e) = held.sub(&amount) {
                            return Err(AccountTransactionError::Money(e));
                        }
                        if locks {
                            self.held = held;
                            self.locked = true;
                        } else {
                            let mut available = self.available;
                            if let Err(e) = available.add(&amount) {
                                return Err(AccountTransactionError::Money(e));
                            }
                            self.available = available;
                            self.held = held;
                        }
                    },
                    _ => return Err(AccountTransactionError::InvalidLedgerState(tx.id)),
                }
            },
        }
        Ok(())
    }

    /// The report of the account; `total` is `available + held`, which fails
    /// when it leaves the range of `Money`.
    pub fn parse_report(&self) -> (r: Result<AccountReport, AccountTransactionError>)
        ensures
            match add_spec(self.available, self.held) {
                Ok(total) => match r {
                    Ok(report) => is_report_of(report, *self),
                    Err(_) => false,
                },
                Err(e) => r == Err::<AccountReport, AccountTransactionError>(
                    AccountTransactionError::Money(e),
                ),
            },
    {
        let mut total = self.available;
        if let Err(e) = total.add(&self.held) {
            return Err(AccountTransactionError::Money(e));
        }
        Ok(
            AccountReport {
                client: self.client_id.to_string(),
                available: self.available.to_string(),
                held: self.held.to_string(),
                total: total.to_string(),
                locked: self.locked,
            },
        )
    }
}

} // verus!
