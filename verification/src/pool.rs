//! The pool position resolver: where, if anywhere, this executor stands in
//! the active worker pool fetched from the ledger this round.

use vstd::prelude::*;

verus! {

/// This executor's position in the active worker pool, derived afresh each
/// round from ledger state and discarded afterwards.
#[derive(Debug)]
pub struct PoolPosition {
    /// Index of this executor in `workers`, or `None` when it is not a
    /// member. When present, it is the first index holding this executor.
    pub current_position: Option<u64>,
    /// The pool membership in rotation order; index 0 is the oldest member.
    pub workers: Vec<u64>,
}

/// Member mode: the executor is in the pool, or the pool is empty. In member
/// mode only the backoff gate applies to the due-set selection.
pub open spec fn pool_member_mode(p: PoolPosition) -> bool {
    p.current_position is Some || p.workers@.len() == 0
}

/// Derive this executor's pool position from the pool membership read off the
/// ledger.
pub fn resolve_pool_position(workers: Vec<u64>, worker: u64) -> (r: PoolPosition)
    ensures
        r.workers == workers,
        match r.current_position {
            Some(i) => i < workers@.len() && workers@[i as int] == worker && (forall|j: int|
                0 <= j < i ==> workers@[j] != worker),
            None => forall|j: int| 0 <= j < workers@.len() ==> workers@[j] != worker,
        },
{
    let mut i: usize = 0;
    let mut position: Option<u64> = None;
    while i < workers.len()
        invariant
            i <= workers@.len(),
            position is None,
            forall|j: int| 0 <= j < i ==> workers@[j] != worker,
        decreases workers@.len() - i,
    {
        if workers[i] == worker {
            position = Some(i as u64);
            return PoolPosition { current_position: position, workers };
        }
        i += 1;
    }
    PoolPosition { current_position: None, workers }
}

} // verus!
