//! The snapshots of all clients, created on first reference.
use vstd::prelude::*;

use crate::ids::ClientId;
use crate::money::add_spec;
use crate::snapshot::{
    fresh_snapshot, is_report_of, AccountReport, AccountSnapshot, AccountTransactionError,
};

verus! {

#[derive(Debug)]
pub struct AccountSnapshots {
    /// In order of creation.
    snapshots: Vec<AccountSnapshot>,
}

/// The first position of `s` that holds `client`'s snapshot.
pub open spec fn find_client(s: Seq<AccountSnapshot>, client: ClientId) -> Option<int>
    decreases s.len(),
{
    if s.len() == 0 {
        None
    } else {
        match find_client(s.drop_last(), client) {
            Some(i) => Some(i),
            None => if s.last().client_id == client {
                Some(s.len() - 1)
            } else {
                None
            },
        }
    }
}

impl View for AccountSnapshots {
    type V = Seq<AccountSnapshot>;

    closed spec fn view(&self) -> Seq<AccountSnapshot> {
        self.snapshots@
    }
}

impl AccountSnapshots {
    pub fn new() -> (r: AccountSnapshots)
        ensures
            r@ == Seq::<AccountSnapshot>::empty(),
    {
        AccountSnapshots { snapshots: Vec::new() }
    }

    /// The client's snapshot, created fresh (and added last) when there is none.
    pub fn find_mut_or_create(&mut self, client_id: ClientId) -> (r: &mut AccountSnapshot)
        ensures
            match find_client(old(self)@, client_id) {
                Some(i) => *r == old(self)@[i] && final(self)@ == old(self)@.update(i, *final(r)),
                None => *r == fresh_snapshot(client_id) && final(self)@ == old(self)@.push(
                    *final(r),
                ),
            },
    {
        let n = self.snapshots.len();
        let mut i: usize = 0;
        while i < n
            invariant
                i <= n == self.snapshots@.len(),
                self.snapshots@ == old(self)@,
                find_client(self.snapshots@.subrange(0, i as int), client_id) is None,
            decreases n - i,
        {
            let ghost s = self.snapshots@;
            assert(s.subrange(0, i + 1).drop_last() =~= s.subrange(0, i as int));
            if self.snapshots[i].client_id == client_id {
                proof {
                    lemma_find_client_prefix(s, client_id, i as int);
                }
                return &mut self.snapshots[i];
            }
            i = i + 1;
        }
        assert(self.snapshots@.subrange(0, n as int) =~= self.snapshots@);
        self.snapshots.push(AccountSnapshot::new(client_id));
        &mut self.snapshots[n]
    }

    /// One report line per account, in order of creation. A line whose total
    /// leaves the range of `Money` is an error; the other lines are unaffected.
    pub fn build_report(&self) -> (r: Vec<Result<AccountReport, AccountTransactionError>>)
        ensures
            r@.len() == self@.len(),
            forall|i: int|
                0 <= i < self@.len() ==> match add_spec(self@[i].available, self@[i].held) {
                    Ok(_) => #[trigger] r@[i] is Ok && is_report_of(r@[i]->Ok_0, self@[i]),
                    Err(e) => r@[i] == Err::<AccountReport, AccountTransactionError>(
                        AccountTransactionError::Money(e),
                    ),
                },
    {
        let mut reports: Vec<Result<AccountReport, AccountTransactionError>> = Vec::new();
        let n = self.snapshots.len();
        let mut i: usize = 0;
        while i < n
            invariant
                i <= n == self@.len(),
                reports@.len() == i,
                forall|j: int|
                    0 <= j < i ==> match add_spec(self@[j].available, self@[j].held) {
                        Ok(_) => #[trigger] reports@[j] is Ok && is_report_of(
                            reports@[j]->Ok_0,
                            self@[j],
                        ),
                        Err(e) => reports@[j] == Err::<AccountReport, AccountTransactionError>(
                            AccountTransactionError::Money(e),
                        ),
                    },
            decreases n - i,
        {
            let line = self.snapshots[i].parse_report();
            reports.push(line);
            i = i + 1;
        }
        reports
    }
}

/// When no position before `i` holds `client` and position `i` does, `i` is the first.
proof fn lemma_find_client_prefix(s: Seq<AccountSnapshot>, client: ClientId, i: int)
    requires
        0 <= i < s.len(),
        find_client(s.subrange(0, i), client) is None,
        s[i].client_id == client,
    ensures
        find_client(s, client) == Some(i),
    decreases s.len(),
{
    if s.len() > i + 1 {
        assert(s.drop_last().subrange(0, i) =~= s.subrange(0, i));
        lemma_find_client_prefix(s.drop_last(), client, i);
    } else {
        assert(s.drop_last() =~= s.subrange(0, i));
    }
}

} // verus!
