//! The ledger: an append-only history of transactions, indexed by transaction id.
use std::collections::HashMap;

use vstd::prelude::*;

use crate::ids::{ClientId, TransactionId};
use crate::transaction::Transaction;

verus! {

broadcast use vstd::std_specs::hash::group_hash_axioms;

/// Write once, read many: entries are appended and never removed; the only
/// change an entry ever sees is being marked invalid.
#[derive(Debug)]
pub struct Ledger {
    history: Vec<Transaction>,
    /// For each transaction id, the positions in `history` that carry it, ascending.
    lookup_map: HashMap<u32, Vec<usize>>,
}

/// The entries before position `n` that carry `id` and are not invalid, in ledger order.
pub open spec fn valid_with_id(h: Seq<Transaction>, id: TransactionId, n: int) -> Seq<Transaction>
    decreases n,
{
    if n <= 0 {
        Seq::empty()
    } else {
        let prev = valid_with_id(h, id, n - 1);
        if h[n - 1].id == id && !h[n - 1].invalid {
            prev.push(h[n - 1])
        } else {
            prev
        }
    }
}

/// The positions in `from..n` whose entries belong to `client` and are not invalid, ascending.
pub open spec fn client_indices(h: Seq<Transaction>, client: ClientId, from: int, n: int) -> Seq<
    usize,
>
    decreases n - from,
{
    if n <= from {
        Seq::empty()
    } else {
        let prev = client_indices(h, client, from, n - 1);
        if h[n - 1].client_id == client && !h[n - 1].invalid {
            prev.push((n - 1) as usize)
        } else {
            prev
        }
    }
}

/// The transaction ids that occur in `h`.
pub open spec fn ids_of(h: Seq<Transaction>) -> Set<u32> {
    Set::new(|k: u32| exists|i: int| 0 <= i < h.len() && #[trigger] h[i].id.0 == k)
}

/// The entry with its invalid mark set.
pub open spec fn invalidated(t: Transaction) -> Transaction {
    Transaction { invalid: true, ..t }
}

/// `l` lists, ascending, exactly the positions of `h` whose id is `k`.
pub open spec fn lists_positions_of(h: Seq<Transaction>, k: u32, l: Seq<usize>) -> bool {
    &&& l.len() > 0
    &&& forall|j: int| 0 <= j < l.len() ==> #[trigger] l[j] < h.len() && h[l[j] as int].id.0 == k
    &&& forall|j1: int, j2: int| 0 <= j1 < j2 < l.len() ==> #[trigger] l[j1] < #[trigger] l[j2]
    &&& forall|p: int|
        0 <= p < h.len() && #[trigger] h[p].id.0 == k ==> exists|j: int|
            0 <= j < l.len() && #[trigger] l[j] == p
}

pub proof fn lemma_valid_with_id_skip(h: Seq<Transaction>, id: TransactionId, a: int, b: int)
    requires
        0 <= a <= b <= h.len(),
        forall|p: int| a <= p < b ==> #[trigger] h[p].id != id,
    ensures
        valid_with_id(h, id, b) == valid_with_id(h, id, a),
    decreases b - a,
{
    if b > a {
        lemma_valid_with_id_skip(h, id, a, b - 1);
    }
}

impl View for Ledger {
    type V = Seq<Transaction>;

    closed spec fn view(&self) -> Seq<Transaction> {
        self.history@
    }
}

impl Ledger {
    /// The index by id agrees with the history.
    pub closed spec fn wf(&self) -> bool {
        &&& forall|k: u32| #[trigger]
            self.lookup_map@.contains_key(k) ==> lists_positions_of(
                self.history@,
                k,
                self.lookup_map@[k]@,
            )
        &&& forall|i: int|
            0 <= i < self.history@.len() ==> self.lookup_map@.contains_key(
                #[trigger] self.history@[i].id.0,
            )
    }

    pub fn new() -> (r: Ledger)
        ensures
            r.wf(),
            r@ == Seq::<Transaction>::empty(),
    {
        Ledger { history: Vec::new(), lookup_map: HashMap::new() }
    }

    /// Appends an entry and returns its position.
    pub fn append(&mut self, tx: Transaction) -> (r: usize)
        requires
            old(self).wf(),
        ensures
            final(self).wf(),
            final(self)@ == old(self)@.push(tx),
            r == old(self)@.len(),
    {
        let id = tx.id.0;
        let index = self.history.len();
        let ghost old_h = self.history@;
        let ghost old_m = self.lookup_map@;
        self.history.push(tx);
        let mut indices = match self.lookup_map.remove(&id) {
            Some(indices) => indices,
            None => Vec::new(),
        };
        let ghost old_l = indices@;
        indices.push(index);
        self.lookup_map.insert(id, indices);
        proof {
            let h = self.history@;
            let m = self.lookup_map@;
            assert(h == old_h.push(tx));
            assert forall|k: u32| #[trigger] m.contains_key(k) implies lists_positions_of(
                h,
                k,
                m[k]@,
            ) by {
                if k == id {
                    let l = m[k]@;
                    assert(l == old_l.push(index));
                    if old_m.contains_key(k) {
                        assert(lists_positions_of(old_h, k, old_l));
                    } else {
                        assert(old_l.len() == 0);
                        assert forall|p: int| 0 <= p < old_h.len() implies #[trigger] old_h[p].id.0
                            != k by {
                            assert(old_m.contains_key(old_h[p].id.0));
                        }
                    }
                    assert forall|j: int| 0 <= j < l.len() implies #[trigger] l[j] < h.len()
                        && h[l[j] as int].id.0 == k by {
                        if j < old_l.len() {
                            assert(l[j] == old_l[j]);
                        }
                    }
                    assert forall|j1: int, j2: int| 0 <= j1 < j2 < l.len() implies #[trigger] l[j1]
                        < #[trigger] l[j2] by {
                        assert(l[j1] == old_l[j1]);
                        if j2 < old_l.len() {
                            assert(l[j2] == old_l[j2]);
                        }
                    }
                    assert forall|p: int| 0 <= p < h.len() && #[trigger] h[p].id.0 == k implies exists|
                        j: int,
                    | 0 <= j < l.len() && #[trigger] l[j] == p by {
                        if p == old_h.len() {
                            assert(l[l.len() - 1] == p);
                        } else {
                            assert(h[p] == old_h[p]);
                            let j = choose|j: int| 0 <= j < old_l.len() && #[trigger] old_l[j] == p;
                            assert(l[j] == p);
                        }
                    }
                } else {
                    assert(old_m.contains_key(k));
                    let l = m[k]@;
                    assert(l == old_m[k]@);
                    assert(lists_positions_of(old_h, k, l));
                    assert forall|j: int| 0 <= j < l.len() implies #[trigger] l[j] < h.len()
                        && h[l[j] as int].id.0 == k by {
                        assert(h[l[j] as int] == old_h[l[j] as int]);
                    }
                    assert forall|p: int| 0 <= p < h.len() && #[trigger] h[p].id.0 == k implies exists|
                        j: int,
                    | 0 <= j < l.len() && #[trigger] l[j] == p by {
                        assert(h[p] == old_h[p]);
                    }
                }
            }
            assert forall|i: int| 0 <= i < h.len() implies m.contains_key(
                #[trigger] h[i].id.0,
            ) by {
                if i < old_h.len() {
                    assert(h[i] == old_h[i]);
                    assert(old_m.contains_key(old_h[i].id.0));
                }
            }
        }
        index
    }

    /// Marks the entry at `index` invalid, so that it is never replayed again.
    /// Returns whether `index` is a position of the ledger.
    pub fn invalidate(&mut self, index: &usize) -> (r: bool)
        requires
            old(self).wf(),
        ensures
            final(self).wf(),
            r == (*index < old(self)@.len()),
            final(self)@ == (if r {
                old(self)@.update(*index as int, invalidated(old(self)@[*index as int]))
            } else {
                old(self)@
            }),
    {
        let index = *index;
        if index >= self.history.len() {
            return false;
        }
        let ghost old_h = self.history@;
        let mut tx = self.history[index];
        tx.invalid = true;
        self.history.set(index, tx);
        proof {
            let h = self.history@;
            assert forall|p: int| 0 <= p < h.len() implies #[trigger] h[p].id == old_h[p].id by {}
            assert forall|k: u32| #[trigger] self.lookup_map@.contains_key(k) implies lists_positions_of(
                h,
                k,
                self.lookup_map@[k]@,
            ) by {
                let l = self.lookup_map@[k]@;
                assert(lists_positions_of(old_h, k, l));
                assert forall|j: int| 0 <= j < l.len() implies #[trigger] l[j] < h.len()
                    && h[l[j] as int].id.0 == k by {
                    assert(h[l[j] as int].id == old_h[l[j] as int].id);
                }
                assert forall|p: int| 0 <= p < h.len() && #[trigger] h[p].id.0 == k implies exists|
                    j: int,
                | 0 <= j < l.len() && #[trigger] l[j] == p by {
                    assert(old_h[p].id == h[p].id);
                }
            }
            assert forall|i: int| 0 <= i < h.len() implies self.lookup_map@.contains_key(
                #[trigger] h[i].id.0,
            ) by {
                assert(old_h[i].id == h[i].id);
            }
        }
        true
    }

    pub fn get_by_index(&self, index: &usize) -> (r: Option<&Transaction>)
        ensures
            match r {
                Some(t) => *index < self@.len() && *t == self@[*index as int],
                None => *index >= self@.len(),
            },
    {
        let index = *index;
        if index >= self.history.len() {
            return None;
        }
        Some(&self.history[index])
    }

    /// The entries at positions up to and including `ledger_idx` that carry `id`
    /// and are not invalid, in ledger order.
    pub fn get_valid_transactions_until(&self, ledger_idx: &usize, id: &TransactionId) -> (r: Vec<
        &Transaction,
    >)
        requires
            self.wf(),
        ensures
            r@.map_values(|t: &Transaction| *t) == valid_with_id(
                self@,
                *id,
                if *ledger_idx < self@.len() {
                    *ledger_idx + 1
                } else {
                    self@.len() as int
                },
            ),
    {
        let h = Ghost(self.history@);
        let n = self.history.len();
        let end: usize = if *ledger_idx < n {
            *ledger_idx + 1
        } else {
            n
        };
        let mut transactions: Vec<&Transaction> = Vec::new();
        let indices = match self.lookup_map.get(&id.0) {
            Some(indices) => indices,
            None => {
                proof {
                    assert forall|p: int| 0 <= p < end implies #[trigger] h@[p].id != *id by {
                        assert(self.lookup_map@.contains_key(h@[p].id.0));
                    }
                    lemma_valid_with_id_skip(h@, *id, 0, end as int);
                }
                assert(transactions@.map_values(|t: &Transaction| *t) =~= Seq::<
                    Transaction,
                >::empty());
                return transactions;
            },
        };
        let l = Ghost(indices@);
        assert(lists_positions_of(h@, id.0, l@));
        let mut j: usize = 0;
        while j < indices.len() && indices[j] < end
            invariant
                h@ == self@,
                n == h@.len(),
                end <= n,
                l@ == indices@,
                lists_positions_of(h@, id.0, l@),
                j <= l@.len(),
                j > 0 ==> l@[j - 1] < end,
                transactions@.map_values(|t: &Transaction| *t) == valid_with_id(
                    h@,
                    *id,
                    if j == 0 {
                        0
                    } else {
                        l@[j - 1] + 1
                    },
                ),
            decreases l@.len() - j,
        {
            let index = indices[j];
            let tx = &self.history[index];
            let ghost start = if j == 0 {
                0
            } else {
                l@[j - 1] + 1
            };
            proof {
                assert(index < n && h@[index as int].id.0 == id.0);
                if j > 0 {
                    assert(l@[j - 1] < l@[j as int]);
                }
                assert forall|p: int| start <= p < index implies #[trigger] h@[p].id != *id by {
                    if h@[p].id == *id {
                        assert(h@[p].id.0 == id.0);
                        let jj = choose|jj: int| 0 <= jj < l@.len() && #[trigger] l@[jj] == p;
                        if jj < j {
                            if jj < j - 1 {
                                assert(l@[jj] < l@[j - 1]);
                            }
                        } else if jj > j {
                            assert(l@[j as int] < l@[jj]);
                        }
                    }
                }
                lemma_valid_with_id_skip(h@, *id, start, index as int);
            }
            let ghost before = transactions@;
            if !tx.invalid {
                transactions.push(tx);
            }
            assert(transactions@.map_values(|t: &Transaction| *t) =~= valid_with_id(
                h@,
                *id,
                index + 1,
            )) by {
                if !tx.invalid {
                    assert(transactions@ == before.push(tx));
                }
            }
            j = j + 1;
        }
        proof {
            let start = if j == 0 {
                0
            } else {
                l@[j - 1] + 1
            };
            assert forall|p: int| start <= p < end implies #[trigger] h@[p].id != *id by {
                if h@[p].id == *id {
                    assert(h@[p].id.0 == id.0);
                    let jj = choose|jj: int| 0 <= jj < l@.len() && #[trigger] l@[jj] == p;
                    if jj < j {
                        if jj < j - 1 {
                            assert(l@[jj] < l@[j - 1]);
                        }
                    } else {
                        if jj > j {
                            assert(l@[j as int] < l@[jj]);
                        }
                    }
                }
            }
            lemma_valid_with_id_skip(h@, *id, start, end as int);
        }
        transactions
    }

    /// The positions at or after `from_idx` of entries that belong to `client_id`
    /// and are not invalid, ascending.
    pub fn get_valid_indicies_for_client(&self, client_id: ClientId, from_idx: usize) -> (r: Vec<
        usize,
    >)
        ensures
            r@ == client_indices(self@, client_id, from_idx as int, self@.len() as int),
    {
        let mut indices: Vec<usize> = Vec::new();
        let n = self.history.len();
        if from_idx >= n {
            return indices;
        }
        let mut i: usize = from_idx;
        while i < n
            invariant
                from_idx <= i <= n == self@.len(),
                indices@ == client_indices(self@, client_id, from_idx as int, i as int),
            decreases n - i,
        {
            let tx = &self.history[i];
            if tx.client_id == client_id && !tx.invalid {
                indices.push(i);
            }
            i = i + 1;
        }
        indices
    }

    /// Every entry, in ledger order.
    pub fn history(&self) -> (r: &Vec<Transaction>)
        ensures
            r@ == self@,
    {
        &self.history
    }

    pub fn len(&self) -> (r: usize)
        ensures
            r == self@.len(),
    {
        self.history.len()
    }

    pub fn is_empty(&self) -> (r: bool)
        ensures
            r == (self@.len() == 0),
    {
        self.len() == 0
    }

    /// The positions of the entries that carry `id`, ascending.
    pub fn indices_for_id(&self, id: TransactionId) -> (r: Vec<usize>)
        requires
            self.wf(),
        ensures
            forall|j: int| 0 <= j < r@.len() ==> #[trigger] r@[j] < self@.len() && self@[r@[j] as int].id == id,
            forall|j1: int, j2: int| 0 <= j1 < j2 < r@.len() ==> #[trigger] r@[j1] < #[trigger] r@[j2],
            forall|p: int| 0 <= p < self@.len() && #[trigger] self@[p].id == id ==> r@.contains(p as usize),
    {
        match self.lookup_map.get(&id.0) {
            Some(indices) => {
                let r = indices.clone();
                proof {
                    assert(lists_positions_of(self.history@, id.0, r@));
                    assert forall|p: int| 0 <= p < self@.len() && #[trigger] self@[p].id == id implies r@.contains(p as usize) by {
                        assert(self.history@[p].id.0 == id.0);
                        let j = choose|j: int| 0 <= j < r@.len() && #[trigger] r@[j] == p;
                        assert(r@[j] == p as usize);
                    }
                }
                r
            },
            None => {
                proof {
                    assert forall|p: int| 0 <= p < self@.len() implies #[trigger] self@[p].id != id by {
                        assert(self.lookup_map@.contains_key(self.history@[p].id.0));
                    }
                }
                Vec::new()
            },
        }
    }

    /// How many distinct transaction ids the ledger holds.
    pub fn id_count(&self) -> (r: usize)
        requires
            self.wf(),
        ensures
            r == ids_of(self@).len(),
    {
        proof {
            let h = self.history@;
            assert(self.lookup_map@.dom() =~= ids_of(h)) by {
                assert forall|k: u32| self.lookup_map@.dom().contains(k) implies ids_of(h).contains(
                    k,
                ) by {
                    let l = self.lookup_map@[k]@;
                    assert(lists_positions_of(h, k, l));
                    assert(l[0] < h.len() && h[l[0] as int].id.0 == k);
                }
                assert forall|k: u32| ids_of(h).contains(k) implies self.lookup_map@.dom().contains(
                    k,
                ) by {
                    let i = choose|i: int| 0 <= i < h.len() && #[trigger] h[i].id.0 == k;
                    assert(self.lookup_map@.contains_key(h[i].id.0));
                }
            }
        }
        self.lookup_map.len()
    }
}

} // verus!
