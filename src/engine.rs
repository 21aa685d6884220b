//! One input record through the engine: parsed, appended to the ledger, and
//! replayed into its client's snapshot.
use vstd::prelude::*;

use crate::input::{transaction_of, InputEvent, InputParseError};
use crate::ledger::{invalidated, Ledger};
use crate::snapshot::{fresh_snapshot, pending, replay, AccountTransactionError};
use crate::snapshots::{find_client, AccountSnapshots};

verus! {

#[derive(Debug, Clone, PartialEq, Eq)]
pub enum ProcessError {
    /// The record is malformed; it never reached the ledger.
    Parse(InputParseError),
    /// The record's entry, or an earlier pending entry of the client, failed to apply.
    Replay(AccountTransactionError),
}

/// Handles one record: a malformed one changes nothing; otherwise its entry is
/// appended to the ledger and the client's snapshot (created when missing)
/// catches up with the ledger.
pub fn process_event(ledger: &mut Ledger, snapshots: &mut AccountSnapshots, event: InputEvent) -> (r:
    Result<(), ProcessError>)
    requires
        old(ledger).wf(),
    ensures
        final(ledger).wf(),
        match transaction_of(event) {
            Err(e) => r == Err::<(), ProcessError>(ProcessError::Parse(e)) && final(ledger)@ == old(
                ledger,
            )@ && final(snapshots)@ == old(snapshots)@,
            Ok(tx) => {
                let h = old(ledger)@.push(tx);
                let found = find_client(old(snapshots)@, tx.client_id);
                let s = match found {
                    Some(i) => old(snapshots)@[i],
                    None => fresh_snapshot(tx.client_id),
                };
                let (s1, failure) = replay(s, h, pending(s, h));
                &&& final(snapshots)@ == match found {
                    Some(i) => old(snapshots)@.update(i, s1),
                    None => old(snapshots)@.push(s1),
                }
                &&& match failure {
                    None => r is Ok && final(ledger)@ == h,
                    Some((k, e)) => r == Err::<(), ProcessError>(ProcessError::Replay(e))
                        && final(ledger)@ == h.update(k as int, invalidated(h[k as int])),
                }
            },
        },
{
    let tx = match event.parse_transaction() {
        Ok(tx) => tx,
        Err(e) => return Err(ProcessError::Parse(e)),
    };
    let client_id = tx.client_id;
    ledger.append(tx);
    let snapshot = snapshots.find_mut_or_create(client_id);
    match snapshot.apply_transactions(ledger) {
        Ok(()) => Ok(()),
        Err(e) => Err(ProcessError::Replay(e)),
    }
}

} // verus!
