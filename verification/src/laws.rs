//! Global guarantees of the scheduler, stated and proved over the same
//! mathematical model that the executable functions' contracts use.

use vstd::prelude::*;
use vstd::arithmetic::power2::lemma_pow2_strictly_increases;

use crate::backoff::{
    eligible_for_attempt, earliest_eligible_unit, MAX_AUTOMATION_SIMULATION_FAILURES,
};
use crate::executor::{
    lemma_record_map_last_occurrence, pruned, record_map, selected_refs, spec_is_duplicate,
};
use crate::metadata::{ExecutableAutomationMetadata, TransactionMetadata};

verus! {

/// No tracked automation ever carries a failure count above the drop
/// threshold once a prune has run: abandonment is immediate.
pub proof fn lemma_prune_bounds_failures(m: Map<u64, ExecutableAutomationMetadata>)
    ensures
        forall|k: u64| #[trigger] pruned(m).dom().contains(k) ==> pruned(
            m,
        )[k].simulation_failures <= MAX_AUTOMATION_SIMULATION_FAILURES,
{
}

/// Backoff is strictly monotonic: every further failure strictly raises the
/// earliest unit at which the automation may be retried.
pub proof fn lemma_backoff_monotonic(due_unit: u64, failures_before: u64, failures_after: u64)
    requires
        failures_before < failures_after,
    ensures
        earliest_eligible_unit(due_unit, failures_before) < earliest_eligible_unit(
            due_unit,
            failures_after,
        ),
{
    lemma_pow2_strictly_increases(failures_before as nat, failures_after as nat);
}

/// The timeout-window gate only removes eligibility, never adds it: whatever
/// an executor outside the pool would select, a pool member would select too.
pub proof fn lemma_nonmember_selection_subset(
    m: Map<u64, ExecutableAutomationMetadata>,
    current_unit: u64,
)
    ensures
        selected_refs(m, current_unit, false).subset_of(selected_refs(m, current_unit, true)),
{
    assert forall|k: u64| selected_refs(m, current_unit, false).contains(k) implies selected_refs(
        m,
        current_unit,
        true,
    ).contains(k) by {
        assert(eligible_for_attempt(m[k], current_unit, true));
    }
}

/// Deduplication is idempotent: once a transaction for an automation has been
/// batch-submitted, resubmitting the identical transaction at any unit from
/// then on is rejected as a duplicate, so a second outstanding record never
/// arises.
pub proof fn lemma_dedupe_idempotent(
    history: Map<u64, TransactionMetadata>,
    executed: Seq<(u64, u64)>,
    unit_sent: u64,
    current_unit: u64,
    i: int,
)
    requires
        0 <= i < executed.len(),
        forall|j: int| i < j < executed.len() ==> executed[j].0 != executed[i].0,
        unit_sent <= current_unit,
    ensures
        spec_is_duplicate(
            history.union_prefer_right(record_map(executed, unit_sent)),
            current_unit,
            executed[i].0,
            executed[i].1,
        ),
{
    lemma_record_map_last_occurrence(executed, unit_sent, i);
}

} // verus!
