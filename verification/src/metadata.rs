//! The plain values the scheduler keeps per automation: scheduling metadata
//! for pending attempts and records of submitted, unconfirmed transactions.
//!
//! An automation is identified by an opaque `u64` address and a submitted
//! transaction by an opaque `u64` signature; the scheduler only ever compares
//! these for equality.

use vstd::prelude::*;

verus! {

/// Scheduling metadata for one automation with a pending submission attempt.
#[derive(Clone, Copy, Debug, Eq, PartialEq, Structural)]
pub struct ExecutableAutomationMetadata {
    /// The time unit at which the automation became due.
    pub due_unit: u64,
    /// How many attempts to build or simulate a transaction for it have
    /// failed. Saturates instead of wrapping.
    pub simulation_failures: u64,
}

/// Record of one submitted transaction whose confirmation is still pending.
#[derive(Clone, Copy, Debug, Eq, PartialEq, Structural)]
pub struct TransactionMetadata {
    /// The time unit at which the transaction was handed to the transport.
    pub unit_sent: u64,
    /// Opaque identifier of the submitted transaction.
    pub signature: u64,
}

/// What a confirmation-status query for a submitted transaction reported.
#[derive(Clone, Copy, Debug, Eq, PartialEq, Structural)]
pub enum TxConfirmationStatus {
    /// The query itself failed; nothing is known about the transaction.
    QueryError,
    /// The transaction has not landed on the ledger yet.
    NotLanded,
    /// The transaction landed and its execution failed.
    LandedFailure,
    /// The transaction landed and its execution succeeded.
    LandedSuccess,
}

/// Error returned when a newly built transaction duplicates one that is
/// already in flight for the same automation.
#[derive(Clone, Copy, Debug, Eq, PartialEq, Structural)]
pub struct DuplicateTransaction;

/// Freshly tracked metadata: due now, with no recorded failures.
pub open spec fn fresh_metadata(current_unit: u64) -> ExecutableAutomationMetadata {
    ExecutableAutomationMetadata { due_unit: current_unit, simulation_failures: 0 }
}

/// Metadata after one more failed attempt; the counter saturates at the
/// integer bound rather than wrapping.
pub open spec fn bumped_metadata(m: ExecutableAutomationMetadata) -> ExecutableAutomationMetadata {
    ExecutableAutomationMetadata {
        due_unit: m.due_unit,
        simulation_failures: if m.simulation_failures == u64::MAX {
            m.simulation_failures
        } else {
            (m.simulation_failures + 1) as u64
        },
    }
}

/// A status that calls for a retry: the transaction either never landed or
/// landed and failed.
pub open spec fn status_is_retriable(s: TxConfirmationStatus) -> bool {
    s is NotLanded || s is LandedFailure
}

/// A status that resolves the record one way or the other; only a failed
/// query leaves the record outstanding.
pub open spec fn status_is_resolved(s: TxConfirmationStatus) -> bool {
    !(s is QueryError)
}

} // verus!
