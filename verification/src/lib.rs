//! An execution scheduler for on-ledger automation jobs.
//!
//! The scheduler tracks which automations are due for a submission attempt,
//! applies an exponential backoff policy to repeatedly failing ones,
//! deduplicates against transactions that are already in flight, reconciles
//! submitted transactions against their confirmation status, and resolves this
//! executor's position in the active worker pool. All bookkeeping is kept in
//! plain in-memory maps keyed by an automation's address, and every state
//! transition is specified and verified. The host process supplies the ledger
//! reads, the transaction builder and the network transport, and feeds their
//! results into the scheduler as plain values.

pub mod backoff;
pub mod executor;
pub mod laws;
pub mod metadata;
pub mod pool;
pub mod ref_map;
