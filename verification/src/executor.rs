//! The scheduler state machine: tracked due automations, submitted
//! transactions awaiting confirmation, and the drop counter, with one verified
//! transition per step of a scheduling round.
//!
//! The host drives one round per new time unit: it feeds newly triggered
//! automation addresses into [`TxExecutor::track_triggered_automations`],
//! prunes terminally failing ones, reconciles confirmation statuses through
//! [`TxExecutor::process_retries`], selects the due set, hands each selected
//! automation to the external transaction builder, filters the results
//! through [`TxExecutor::try_build_automation_exec_tx`], and on a successful
//! batch submission applies [`TxExecutor::apply_batch_submission`]. All
//! ledger reads and network writes happen outside; the scheduler sees only
//! their results as plain values.
//!
//! Rounds never overlap, and each mutating method is one atomic critical
//! section: where the host fans the build phase out to concurrent tasks, it
//! guards the executor behind an exclusive-writer lock, so multi-entry steps
//! such as the prune and the batch application are never interleaved with
//! other readers or writers.

use vstd::prelude::*;

use crate::backoff::{
    eligible_for_attempt, is_eligible, MAX_AUTOMATION_SIMULATION_FAILURES,
    TRANSACTION_CONFIRMATION_PERIOD,
};
use crate::metadata::{
    bumped_metadata, fresh_metadata, status_is_resolved, status_is_retriable,
    DuplicateTransaction, ExecutableAutomationMetadata, TransactionMetadata, TxConfirmationStatus,
};
use crate::pool::{pool_member_mode, PoolPosition};
use crate::ref_map::RefMap;

verus! {

/// At most one of {scheduling metadata, transaction record} exists per
/// automation: an automation is either awaiting an attempt or awaiting
/// confirmation, never both.
pub open spec fn at_most_one_pending(
    executable: Map<u64, ExecutableAutomationMetadata>,
    history: Map<u64, TransactionMetadata>,
) -> bool {
    forall|k: u64| #[trigger] executable.dom().contains(k) ==> !history.dom().contains(k)
}

/// The metadata map after a prune: exactly the entries whose failure count is
/// within the drop threshold.
pub open spec fn pruned(m: Map<u64, ExecutableAutomationMetadata>) -> Map<
    u64,
    ExecutableAutomationMetadata,
> {
    Map::new(
        |k: u64|
            m.dom().contains(k) && m[k].simulation_failures
                <= MAX_AUTOMATION_SIMULATION_FAILURES,
        |k: u64| m[k],
    )
}

/// The metadata map after inserting fresh metadata for every address in
/// `refs`, overwriting any prior entry.
pub open spec fn with_fresh_entries(
    m: Map<u64, ExecutableAutomationMetadata>,
    refs: Set<u64>,
    current_unit: u64,
) -> Map<u64, ExecutableAutomationMetadata> {
    Map::new(
        |k: u64| m.dom().contains(k) || refs.contains(k),
        |k: u64|
            if refs.contains(k) {
                fresh_metadata(current_unit)
            } else {
                m[k]
            },
    )
}

/// The metadata map after one more recorded failure for `automation_ref`, if
/// it is tracked at all.
pub open spec fn bump_failure(m: Map<u64, ExecutableAutomationMetadata>, automation_ref: u64) -> Map<
    u64,
    ExecutableAutomationMetadata,
> {
    if m.dom().contains(automation_ref) {
        m.insert(automation_ref, bumped_metadata(m[automation_ref]))
    } else {
        m
    }
}

/// Addresses whose queried status calls for a retry.
pub open spec fn retriable_refs(statuses: Seq<(u64, TxConfirmationStatus)>) -> Set<u64> {
    Set::new(
        |k: u64|
            exists|i: int|
                0 <= i < statuses.len() && statuses[i].0 == k && status_is_retriable(
                    statuses[i].1,
                ),
    )
}

/// Addresses whose queried status resolves the outstanding record, as a
/// confirmation or as a retry.
pub open spec fn resolved_refs(statuses: Seq<(u64, TxConfirmationStatus)>) -> Set<u64> {
    Set::new(
        |k: u64|
            exists|i: int|
                0 <= i < statuses.len() && statuses[i].0 == k && status_is_resolved(
                    statuses[i].1,
                ),
    )
}

/// Addresses appearing in a batch of submitted `(address, signature)` pairs.
pub open spec fn executed_refs(executed: Seq<(u64, u64)>) -> Set<u64> {
    Set::new(|k: u64| exists|i: int| 0 <= i < executed.len() && executed[i].0 == k)
}

/// The transaction records created by submitting `executed` at
/// `current_unit`; for a repeated address the later pair wins.
pub open spec fn record_map(executed: Seq<(u64, u64)>, current_unit: u64) -> Map<
    u64,
    TransactionMetadata,
>
    decreases executed.len(),
{
    if executed.len() == 0 {
        Map::empty()
    } else {
        record_map(executed.drop_last(), current_unit).insert(
            executed.last().0,
            TransactionMetadata { unit_sent: current_unit, signature: executed.last().1 },
        )
    }
}

/// A newly built transaction duplicates in-flight work: an outstanding record
/// for the same automation carries the same signature and was sent at or
/// before the current unit.
pub open spec fn spec_is_duplicate(
    history: Map<u64, TransactionMetadata>,
    current_unit: u64,
    automation_ref: u64,
    signature: u64,
) -> bool {
    history.dom().contains(automation_ref) && history[automation_ref].signature == signature
        && history[automation_ref].unit_sent <= current_unit
}

/// A record is old enough for its confirmation status to be checked.
pub open spec fn past_confirmation_window(t: TransactionMetadata, current_unit: u64) -> bool {
    current_unit > t.unit_sent + TRANSACTION_CONFIRMATION_PERIOD
}

/// `a + b`, saturating at the integer bound.
pub open spec fn sat_add_u64(a: u64, b: int) -> u64 {
    if a + b <= u64::MAX {
        (a + b) as u64
    } else {
        u64::MAX
    }
}

/// The addresses eligible for a build attempt: exactly what the due-set
/// selector returns.
pub open spec fn selected_refs(
    m: Map<u64, ExecutableAutomationMetadata>,
    current_unit: u64,
    pool_member: bool,
) -> Set<u64> {
    Set::new(
        |k: u64| m.dom().contains(k) && eligible_for_attempt(m[k], current_unit, pool_member),
    )
}

proof fn lemma_take_step<A>(s: Seq<A>, i: int)
    requires
        0 <= i < s.len(),
    ensures
        forall|x: A| #[trigger] s.take(i + 1).contains(x) <==> s.take(i).contains(x) || x == s[i],
{
    assert(s.take(i + 1) =~= s.take(i).push(s[i]));
    assert forall|x: A|
        #[trigger] s.take(i + 1).contains(x) <==> s.take(i).contains(x) || x == s[i] by {
        if s.take(i + 1).contains(x) {
            let j = choose|j: int| 0 <= j < s.take(i + 1).len() && #[trigger] s.take(i + 1)[j] == x;
            if j < i {
                assert(s.take(i)[j] == x);
            }
        }
        if s.take(i).contains(x) {
            let j = choose|j: int| 0 <= j < s.take(i).len() && s.take(i)[j] == x;
            assert(s.take(i + 1)[j] == x);
        }
        if x == s[i] {
            assert(s.take(i + 1)[i] == x);
        }
    }
}

proof fn lemma_push_contains<A>(s: Seq<A>, e: A)
    ensures
        forall|x: A| #[trigger] s.push(e).contains(x) <==> s.contains(x) || x == e,
{
    assert forall|x: A| #[trigger] s.push(e).contains(x) <==> s.contains(x) || x == e by {
        if s.push(e).contains(x) {
            let j = choose|j: int| 0 <= j < s.push(e).len() && s.push(e)[j] == x;
            if j < s.len() {
                assert(s[j] == x);
            }
        }
        if s.contains(x) {
            let j = choose|j: int| 0 <= j < s.len() && s[j] == x;
            assert(s.push(e)[j] == x);
        }
        if x == e {
            assert(s.push(e)[s.len() as int] == x);
        }
    }
}

proof fn lemma_push_no_duplicates<A>(s: Seq<A>, e: A)
    requires
        s.no_duplicates(),
        !s.contains(e),
    ensures
        s.push(e).no_duplicates(),
{
    assert forall|p: int, q: int|
        0 <= p < q < s.push(e).len() implies s.push(e)[p] != s.push(e)[q] by {
        if q == s.len() {
            assert(s.push(e)[p] == s[p]);
            if s[p] == e {
                assert(s.contains(e));
            }
        } else {
            assert(s.push(e)[p] == s[p] && s.push(e)[q] == s[q]);
        }
    }
}

/// How the per-address status sets grow with each processed status.
proof fn lemma_status_refs_step(statuses: Seq<(u64, TxConfirmationStatus)>, i: int)
    requires
        0 <= i < statuses.len(),
    ensures
        retriable_refs(statuses.take(i + 1)) == if status_is_retriable(statuses[i].1) {
            retriable_refs(statuses.take(i)).insert(statuses[i].0)
        } else {
            retriable_refs(statuses.take(i))
        },
        resolved_refs(statuses.take(i + 1)) == if status_is_resolved(statuses[i].1) {
            resolved_refs(statuses.take(i)).insert(statuses[i].0)
        } else {
            resolved_refs(statuses.take(i))
        },
{
    let before = statuses.take(i);
    let after = statuses.take(i + 1);
    assert(forall|j: int| 0 <= j < i ==> after[j] == before[j] && #[trigger] statuses[j] == before[j]);
    assert(after[i] == statuses[i]);
    assert forall|x: u64|
        retriable_refs(after).contains(x) <==> (retriable_refs(before).contains(x) || (
        status_is_retriable(statuses[i].1) && x == statuses[i].0)) by {
        if retriable_refs(after).contains(x) {
            let j = choose|j: int|
                0 <= j < after.len() && after[j].0 == x && status_is_retriable(after[j].1);
            if j < i {
                assert(before[j].0 == x && status_is_retriable(before[j].1));
            }
        }
        if retriable_refs(before).contains(x) {
            let j = choose|j: int|
                0 <= j < before.len() && before[j].0 == x && status_is_retriable(before[j].1);
            assert(after[j].0 == x && status_is_retriable(after[j].1));
        }
    }
    assert forall|x: u64|
        resolved_refs(after).contains(x) <==> (resolved_refs(before).contains(x) || (
        status_is_resolved(statuses[i].1) && x == statuses[i].0)) by {
        if resolved_refs(after).contains(x) {
            let j = choose|j: int|
                0 <= j < after.len() && after[j].0 == x && status_is_resolved(after[j].1);
            if j < i {
                assert(before[j].0 == x && status_is_resolved(before[j].1));
            }
        }
        if resolved_refs(before).contains(x) {
            let j = choose|j: int|
                0 <= j < before.len() && before[j].0 == x && status_is_resolved(before[j].1);
            assert(after[j].0 == x && status_is_resolved(after[j].1));
        }
    }
    if status_is_retriable(statuses[i].1) {
        assert(retriable_refs(after) =~= retriable_refs(before).insert(statuses[i].0));
    } else {
        assert(retriable_refs(after) =~= retriable_refs(before));
    }
    if status_is_resolved(statuses[i].1) {
        assert(resolved_refs(after) =~= resolved_refs(before).insert(statuses[i].0));
    } else {
        assert(resolved_refs(after) =~= resolved_refs(before));
    }
}

proof fn lemma_executed_refs_step(executed: Seq<(u64, u64)>, i: int)
    requires
        0 <= i < executed.len(),
    ensures
        executed_refs(executed.take(i + 1)) == executed_refs(executed.take(i)).insert(
            executed[i].0,
        ),
{
    let before = executed.take(i);
    let after = executed.take(i + 1);
    assert forall|x: u64|
        executed_refs(after).contains(x) <==> (executed_refs(before).contains(x) || x
            == executed[i].0) by {
        if executed_refs(after).contains(x) {
            let j = choose|j: int| 0 <= j < after.len() && after[j].0 == x;
            if j < i {
                assert(before[j].0 == x);
            }
        }
        if executed_refs(before).contains(x) {
            let j = choose|j: int| 0 <= j < before.len() && before[j].0 == x;
            assert(after[j].0 == x);
        }
        if x == executed[i].0 {
            assert(after[i].0 == x);
        }
    }
    assert(executed_refs(after) =~= executed_refs(before).insert(executed[i].0));
}

/// Every address with a record in `record_map` appears in the batch.
proof fn lemma_record_map_dom(executed: Seq<(u64, u64)>, current_unit: u64)
    ensures
        record_map(executed, current_unit).dom() == executed_refs(executed),
    decreases executed.len(),
{
    if executed.len() == 0 {
        assert(record_map(executed, current_unit).dom() =~= executed_refs(executed));
    } else {
        let dl = executed.drop_last();
        lemma_record_map_dom(dl, current_unit);
        assert forall|x: u64|
            executed_refs(executed).contains(x) <==> (executed_refs(dl).contains(x) || x
                == executed.last().0) by {
            if executed_refs(executed).contains(x) {
                let j = choose|j: int| 0 <= j < executed.len() && executed[j].0 == x;
                if j < executed.len() - 1 {
                    assert(dl[j].0 == x);
                }
            }
            if executed_refs(dl).contains(x) {
                let j = choose|j: int| 0 <= j < dl.len() && dl[j].0 == x;
                assert(executed[j].0 == x);
            }
        }
        assert(record_map(executed, current_unit).dom() =~= executed_refs(executed));
    }
}

/// The record created for the last occurrence of an address in a batch.
pub proof fn lemma_record_map_last_occurrence(
    executed: Seq<(u64, u64)>,
    current_unit: u64,
    i: int,
)
    requires
        0 <= i < executed.len(),
        forall|j: int| i < j < executed.len() ==> executed[j].0 != executed[i].0,
    ensures
        record_map(executed, current_unit).dom().contains(executed[i].0),
        record_map(executed, current_unit)[executed[i].0] == (TransactionMetadata {
            unit_sent: current_unit,
            signature: executed[i].1,
        }),
    decreases executed.len(),
{
    if i < executed.len() - 1 {
        let dl = executed.drop_last();
        assert(forall|j: int| i < j < dl.len() ==> dl[j] == executed[j]);
        assert(dl[i] == executed[i]);
        lemma_record_map_last_occurrence(dl, current_unit, i);
        assert(executed.last().0 != executed[i].0);
    }
}

/// The scheduler's entire state. The host owns exactly one value of this type
/// and threads it through the rounds.
#[derive(Debug)]
pub struct TxExecutor {
    executable_automations: RefMap<ExecutableAutomationMetadata>,
    transaction_history: RefMap<TransactionMetadata>,
    dropped_automations: u64,
}

impl TxExecutor {
    /// The tracked scheduling metadata, keyed by automation address.
    pub closed spec fn executable(&self) -> Map<u64, ExecutableAutomationMetadata> {
        self.executable_automations@
    }

    /// The outstanding transaction records, keyed by automation address.
    pub closed spec fn history(&self) -> Map<u64, TransactionMetadata> {
        self.transaction_history@
    }

    /// How many automations have been dropped for crossing the failure
    /// threshold. Monotone; saturates at the integer bound.
    pub closed spec fn dropped(&self) -> u64 {
        self.dropped_automations
    }

    pub closed spec fn wf(&self) -> bool {
        self.executable_automations.wf() && self.transaction_history.wf()
    }

    pub fn new() -> (r: TxExecutor)
        ensures
            r.wf(),
            r.executable() == Map::<u64, ExecutableAutomationMetadata>::empty(),
            r.history() == Map::<u64, TransactionMetadata>::empty(),
            r.dropped() == 0,
            at_most_one_pending(r.executable(), r.history()),
    {
        TxExecutor {
            executable_automations: RefMap::new(),
            transaction_history: RefMap::new(),
            dropped_automations: 0,
        }
    }

    /// The drop counter, for observability.
    pub fn dropped_automations(&self) -> (r: u64)
        ensures
            r == self.dropped(),
    {
        self.dropped_automations
    }

    /// How many automations currently await an attempt, for observability.
    pub fn executable_automation_count(&self) -> (r: usize)
        requires
            self.wf(),
        ensures
            r == self.executable().len(),
    {
        self.executable_automations.len()
    }

    /// How many submitted transactions currently await confirmation, for
    /// observability.
    pub fn outstanding_transaction_count(&self) -> (r: usize)
        requires
            self.wf(),
        ensures
            r == self.history().len(),
    {
        self.transaction_history.len()
    }

    /// Record one more failed build or simulation attempt for
    /// `automation_ref`. An untracked address is left alone.
    pub fn increment_simulation_failure(&mut self, automation_ref: u64)
        requires
            old(self).wf(),
        ensures
            final(self).wf(),
            final(self).executable() == bump_failure(old(self).executable(), automation_ref),
            final(self).history() == old(self).history(),
            final(self).dropped() == old(self).dropped(),
            at_most_one_pending(old(self).executable(), old(self).history())
                ==> at_most_one_pending(final(self).executable(), final(self).history()),
    {
        match self.executable_automations.get(automation_ref) {
            Some(m) => {
                let bumped = ExecutableAutomationMetadata {
                    due_unit: m.due_unit,
                    simulation_failures: if m.simulation_failures == u64::MAX {
                        m.simulation_failures
                    } else {
                        m.simulation_failures + 1
                    },
                };
                self.executable_automations.insert(automation_ref, bumped);
            },
            None => {},
        }
    }

    /// Reject a newly built transaction whose signature is already in flight
    /// for the same automation and was sent at or before `current_unit`.
    pub fn dedupe_tx(&self, current_unit: u64, automation_ref: u64, signature: u64) -> (r: Result<
        (),
        DuplicateTransaction,
    >)
        requires
            self.wf(),
        ensures
            r is Ok <==> !spec_is_duplicate(
                self.history(),
                current_unit,
                automation_ref,
                signature,
            ),
    {
        match self.transaction_history.get(automation_ref) {
            Some(t) => {
                if t.signature == signature && t.unit_sent <= current_unit {
                    Err(DuplicateTransaction)
                } else {
                    Ok(())
                }
            },
            None => Ok(()),
        }
    }

    /// Track every newly triggered automation as due now, overwriting any
    /// metadata a prior round left behind. An automation whose submitted
    /// transaction is still outstanding gains no metadata: a new submission
    /// must first clear the prior record, through confirmation or through the
    /// retry processor, so at most one of {metadata, record} ever exists per
    /// automation.
    pub fn track_triggered_automations(&mut self, triggered: &Vec<u64>, current_unit: u64)
        requires
            old(self).wf(),
        ensures
            final(self).wf(),
            final(self).executable() == with_fresh_entries(
                old(self).executable(),
                triggered@.to_set().difference(old(self).history().dom()),
                current_unit,
            ),
            final(self).history() == old(self).history(),
            final(self).dropped() == old(self).dropped(),
            at_most_one_pending(old(self).executable(), old(self).history())
                ==> at_most_one_pending(final(self).executable(), final(self).history()),
    {
        let ghost e0 = self.executable();
        let ghost hd = self.history().dom();
        let mut i: usize = 0;
        while i < triggered.len()
            invariant
                i <= triggered@.len(),
                self.wf(),
                self.executable() == with_fresh_entries(
                    e0,
                    triggered@.take(i as int).to_set().difference(hd),
                    current_unit,
                ),
                self.history() == old(self).history(),
                hd == old(self).history().dom(),
                self.dropped_automations == old(self).dropped(),
                e0 == old(self).executable(),
            decreases triggered@.len() - i,
        {
            let r = triggered[i];
            let outstanding = self.transaction_history.contains_key(r);
            if !outstanding {
                self.executable_automations.insert(
                    r,
                    ExecutableAutomationMetadata {
                        due_unit: current_unit,
                        simulation_failures: 0,
                    },
                );
            }
            proof {
                let before = triggered@.take(i as int);
                let after = triggered@.take(i + 1);
                assert(after =~= before.push(r));
                before.lemma_push_to_set_commute(r);
                if !outstanding {
                    assert(with_fresh_entries(e0, before.to_set().difference(hd), current_unit)
                        .insert(r, fresh_metadata(current_unit)) =~= with_fresh_entries(
                        e0,
                        after.to_set().difference(hd),
                        current_unit,
                    ));
                } else {
                    assert(with_fresh_entries(e0, before.to_set().difference(hd), current_unit)
                        =~= with_fresh_entries(e0, after.to_set().difference(hd), current_unit));
                }
            }
            i += 1;
        }
        proof {
            assert(triggered@.take(triggered@.len() as int) =~= triggered@);
        }
    }

    /// Drop every automation whose failure count has crossed the threshold
    /// and count each drop; abandonment is permanent for this process unless
    /// the automation is triggered again.
    pub fn prune_failing_automations(&mut self)
        requires
            old(self).wf(),
        ensures
            final(self).wf(),
            final(self).executable() == pruned(old(self).executable()),
            final(self).history() == old(self).history(),
            final(self).dropped() == sat_add_u64(
                old(self).dropped(),
                old(self).executable().len() - pruned(old(self).executable()).len(),
            ),
            at_most_one_pending(old(self).executable(), old(self).history())
                ==> at_most_one_pending(final(self).executable(), final(self).history()),
    {
        let ghost m0 = self.executable();
        proof {
            self.executable_automations.lemma_finite();
        }
        let ks = self.executable_automations.keys();
        let mut removed: usize = 0;
        let mut i: usize = 0;
        while i < ks.len()
            invariant
                i <= ks@.len(),
                removed <= i,
                self.wf(),
                self.history() == old(self).history(),
                self.dropped_automations == old(self).dropped(),
                m0 == old(self).executable(),
                ks@.no_duplicates(),
                ks@.len() == m0.len(),
                forall|k: u64| #[trigger] ks@.contains(k) <==> m0.dom().contains(k),
                self.executable() == partially_pruned(m0, ks@.take(i as int)),
                self.executable().dom().finite(),
                removed + self.executable().len() == m0.len(),
            decreases ks@.len() - i,
        {
            let k = ks[i];
            let ghost cur = self.executable();
            proof {
                assert(ks@.contains(k)) by {
                    assert(ks@[i as int] == k);
                }
                assert(!ks@.take(i as int).contains(k)) by {
                    if ks@.take(i as int).contains(k) {
                        let j = choose|j: int|
                            0 <= j < i && ks@.take(i as int)[j] == k;
                        assert(ks@[j] == ks@[i as int]);
                    }
                }
                lemma_take_step(ks@, i as int);
            }
            match self.executable_automations.get(k) {
                Some(m) => {
                    if m.simulation_failures > MAX_AUTOMATION_SIMULATION_FAILURES {
                        self.executable_automations.remove(k);
                        removed += 1;
                        proof {
                            assert(self.executable() =~= partially_pruned(
                                m0,
                                ks@.take(i + 1),
                            ));
                            assert(cur.dom().remove(k) =~= self.executable().dom());
                        }
                    } else {
                        proof {
                            assert(self.executable() =~= partially_pruned(
                                m0,
                                ks@.take(i + 1),
                            ));
                        }
                    }
                },
                None => {
                    proof {
                        assert(false);
                    }
                },
            }
            i += 1;
        }
        proof {
            assert(ks@.take(ks@.len() as int) =~= ks@);
            assert(self.executable() =~= pruned(m0));
        }
        let removed64 = removed as u64;
        self.dropped_automations = if removed64 <= u64::MAX - self.dropped_automations {
            self.dropped_automations + removed64
        } else {
            u64::MAX
        };
    }

    /// The due set: every tracked automation that passes the backoff gate,
    /// and, for an executor outside a non-empty pool, also the timeout-window
    /// gate. Each address appears at most once.
    pub fn get_executable_automations(
        &self,
        pool_position: &PoolPosition,
        current_unit: u64,
    ) -> (r: Vec<u64>)
        requires
            self.wf(),
        ensures
            r@.no_duplicates(),
            forall|k: u64| #[trigger] r@.contains(k) <==> selected_refs(
                self.executable(),
                current_unit,
                pool_member_mode(*pool_position),
            ).contains(k),
    {
        let pool_member = pool_position.current_position.is_some() || pool_position.workers.len()
            == 0;
        let ks = self.executable_automations.keys();
        let mut r: Vec<u64> = Vec::new();
        let mut i: usize = 0;
        while i < ks.len()
            invariant
                i <= ks@.len(),
                self.wf(),
                ks@.no_duplicates(),
                forall|k: u64| #[trigger] ks@.contains(k) <==> self.executable().dom().contains(k),
                pool_member == pool_member_mode(*pool_position),
                r@.no_duplicates(),
                forall|k: u64| #[trigger] r@.contains(k) <==> (ks@.take(i as int).contains(k)
                    && selected_refs(self.executable(), current_unit, pool_member).contains(k)),
            decreases ks@.len() - i,
        {
            let k = ks[i];
            proof {
                assert(ks@.contains(k)) by {
                    assert(ks@[i as int] == k);
                }
                assert(!ks@.take(i as int).contains(k)) by {
                    if ks@.take(i as int).contains(k) {
                        let j = choose|j: int|
                            0 <= j < i && ks@.take(i as int)[j] == k;
                        assert(ks@[j] == ks@[i as int]);
                    }
                }
                lemma_take_step(ks@, i as int);
            }
            match self.executable_automations.get(k) {
                Some(m) => {
                    if is_eligible(&m, current_unit, pool_member) {
                        proof {
                            lemma_push_contains(r@, k);
                            lemma_push_no_duplicates(r@, k);
                        }
                        r.push(k);
                    }
                },
                None => {
                    proof {
                        assert(false);
                    }
                },
            }
            i += 1;
        }
        proof {
            assert(ks@.take(ks@.len() as int) =~= ks@);
        }
        r
    }

    /// The outstanding records old enough to have their confirmation status
    /// checked, as `(address, signature)` pairs; each address appears at most
    /// once.
    pub fn checkable_transactions(&self, current_unit: u64) -> (r: Vec<(u64, u64)>)
        requires
            self.wf(),
        ensures
            forall|i: int, j: int| 0 <= i < j < r@.len() ==> r@[i].0 != r@[j].0,
            forall|p: (u64, u64)| #[trigger] r@.contains(p) <==> (self.history().dom().contains(
                p.0,
            ) && past_confirmation_window(self.history()[p.0], current_unit) && p.1
                == self.history()[p.0].signature),
    {
        let ks = self.transaction_history.keys();
        let mut r: Vec<(u64, u64)> = Vec::new();
        let mut i: usize = 0;
        while i < ks.len()
            invariant
                i <= ks@.len(),
                self.wf(),
                ks@.no_duplicates(),
                forall|k: u64| #[trigger] ks@.contains(k) <==> self.history().dom().contains(k),
                forall|p: (u64, u64)| #[trigger] r@.contains(p) ==> ks@.take(i as int).contains(
                    p.0,
                ),
                forall|p: (u64, u64)| #[trigger] r@.contains(p) <==> (ks@.take(i as int).contains(
                    p.0,
                ) && self.history().dom().contains(p.0) && past_confirmation_window(
                    self.history()[p.0],
                    current_unit,
                ) && p.1 == self.history()[p.0].signature),
                forall|a: int, b: int| 0 <= a < b < r@.len() ==> r@[a].0 != r@[b].0,
            decreases ks@.len() - i,
        {
            let k = ks[i];
            proof {
                assert(ks@.contains(k)) by {
                    assert(ks@[i as int] == k);
                }
                assert(!ks@.take(i as int).contains(k)) by {
                    if ks@.take(i as int).contains(k) {
                        let j = choose|j: int|
                            0 <= j < i && ks@.take(i as int)[j] == k;
                        assert(ks@[j] == ks@[i as int]);
                    }
                }
                lemma_take_step(ks@, i as int);
            }
            match self.transaction_history.get(k) {
                Some(t) => {
                    if (current_unit as u128) > (t.unit_sent as u128) + (
                    TRANSACTION_CONFIRMATION_PERIOD as u128) {
                        proof {
                            lemma_push_contains(r@, (k, t.signature));
                            assert forall|a: int|
                                0 <= a < r@.len() implies r@[a].0 != k by {
                                assert(r@.contains(r@[a]));
                            }
                        }
                        r.push((k, t.signature));
                    }
                },
                None => {
                    proof {
                        assert(false);
                    }
                },
            }
            i += 1;
        }
        proof {
            assert(ks@.take(ks@.len() as int) =~= ks@);
        }
        r
    }

    /// Reconcile queried confirmation statuses: drop the record of every
    /// resolved transaction, and requeue every retriable automation as due
    /// now with a clean failure count — a failure to land signals a transient
    /// problem, not a build defect, so backoff restarts. A failed query
    /// leaves its record outstanding for the next round.
    pub fn process_retries(
        &mut self,
        statuses: &Vec<(u64, TxConfirmationStatus)>,
        current_unit: u64,
    )
        requires
            old(self).wf(),
        ensures
            final(self).wf(),
            final(self).executable() == with_fresh_entries(
                old(self).executable(),
                retriable_refs(statuses@),
                current_unit,
            ),
            final(self).history() == old(self).history().remove_keys(resolved_refs(statuses@)),
            final(self).dropped() == old(self).dropped(),
            at_most_one_pending(old(self).executable(), old(self).history())
                ==> at_most_one_pending(final(self).executable(), final(self).history()),
            // When every queried address has an outstanding record — as the
            // pairs from `checkable_transactions` do — this step creates
            // metadata only for automations whose record it removed.
            (forall|i: int|
                0 <= i < statuses@.len() ==> old(self).history().dom().contains(
                    (#[trigger] statuses@[i]).0,
                )) ==> (forall|k: u64|
                #[trigger] final(self).executable().dom().contains(k) && !old(
                    self,
                ).executable().dom().contains(k) ==> old(self).history().dom().contains(k)
                    && !final(self).history().dom().contains(k)),
    {
        let ghost e0 = self.executable();
        let ghost h0 = self.history();
        let mut i: usize = 0;
        while i < statuses.len()
            invariant
                i <= statuses@.len(),
                self.wf(),
                e0 == old(self).executable(),
                h0 == old(self).history(),
                self.dropped_automations == old(self).dropped(),
                self.executable() == with_fresh_entries(
                    e0,
                    retriable_refs(statuses@.take(i as int)),
                    current_unit,
                ),
                self.history() == h0.remove_keys(resolved_refs(statuses@.take(i as int))),
            decreases statuses@.len() - i,
        {
            let p = statuses[i];
            let ghost cur_e = self.executable();
            let ghost cur_h = self.history();
            proof {
                lemma_status_refs_step(statuses@, i as int);
            }
            match p.1 {
                TxConfirmationStatus::QueryError => {},
                TxConfirmationStatus::LandedSuccess => {
                    self.transaction_history.remove(p.0);
                    proof {
                        assert(cur_h.remove(p.0) =~= h0.remove_keys(
                            resolved_refs(statuses@.take(i + 1)),
                        ));
                    }
                },
                TxConfirmationStatus::NotLanded | TxConfirmationStatus::LandedFailure => {
                    self.transaction_history.remove(p.0);
                    self.executable_automations.insert(
                        p.0,
                        ExecutableAutomationMetadata {
                            due_unit: current_unit,
                            simulation_failures: 0,
                        },
                    );
                    proof {
                        assert(cur_h.remove(p.0) =~= h0.remove_keys(
                            resolved_refs(statuses@.take(i + 1)),
                        ));
                        assert(cur_e.insert(p.0, fresh_metadata(current_unit))
                            =~= with_fresh_entries(
                            e0,
                            retriable_refs(statuses@.take(i + 1)),
                            current_unit,
                        ));
                    }
                },
            }
            i += 1;
        }
        proof {
            assert(statuses@.take(statuses@.len() as int) =~= statuses@);
            if at_most_one_pending(e0, h0) {
                assert forall|k: u64| #[trigger] self.executable().dom().contains(k) implies
                    !self.history().dom().contains(k) by {
                    if retriable_refs(statuses@).contains(k) {
                        let j = choose|j: int|
                            0 <= j < statuses@.len() && statuses@[j].0 == k && status_is_retriable(
                                statuses@[j].1,
                            );
                        assert(resolved_refs(statuses@).contains(k));
                    }
                }
            }
            if forall|i: int|
                0 <= i < statuses@.len() ==> h0.dom().contains((#[trigger] statuses@[i]).0) {
                assert forall|k: u64|
                    #[trigger] self.executable().dom().contains(k) && !e0.dom().contains(
                        k,
                    ) implies h0.dom().contains(k) && !self.history().dom().contains(k) by {
                    let j = choose|j: int|
                        0 <= j < statuses@.len() && statuses@[j].0 == k && status_is_retriable(
                            statuses@[j].1,
                        );
                    assert(h0.dom().contains(statuses@[j].0));
                    assert(resolved_refs(statuses@).contains(k));
                }
            }
        }
    }

    /// Book-keep a successful batch submission: every submitted automation
    /// stops being due and gets a fresh outstanding record stamped with the
    /// current unit. On a batch transport failure the host calls nothing and
    /// all state stays as it was.
    pub fn apply_batch_submission(&mut self, executed: &Vec<(u64, u64)>, current_unit: u64)
        requires
            old(self).wf(),
        ensures
            final(self).wf(),
            final(self).executable() == old(self).executable().remove_keys(
                executed_refs(executed@),
            ),
            final(self).history() == old(self).history().union_prefer_right(
                record_map(executed@, current_unit),
            ),
            final(self).dropped() == old(self).dropped(),
            at_most_one_pending(old(self).executable(), old(self).history())
                ==> at_most_one_pending(final(self).executable(), final(self).history()),
    {
        let ghost e0 = self.executable();
        let ghost h0 = self.history();
        let mut i: usize = 0;
        while i < executed.len()
            invariant
                i <= executed@.len(),
                self.wf(),
                e0 == old(self).executable(),
                h0 == old(self).history(),
                self.dropped_automations == old(self).dropped(),
                self.executable() == e0.remove_keys(executed_refs(executed@.take(i as int))),
                self.history() == h0.union_prefer_right(
                    record_map(executed@.take(i as int), current_unit),
                ),
            decreases executed@.len() - i,
        {
            let p = executed[i];
            let ghost cur_e = self.executable();
            let ghost cur_h = self.history();
            self.executable_automations.remove(p.0);
            self.transaction_history.insert(
                p.0,
                TransactionMetadata { unit_sent: current_unit, signature: p.1 },
            );
            proof {
                lemma_executed_refs_step(executed@, i as int);
                assert(cur_e.remove(p.0) =~= e0.remove_keys(
                    executed_refs(executed@.take(i + 1)),
                ));
                let rec = TransactionMetadata { unit_sent: current_unit, signature: p.1 };
                assert(executed@.take(i + 1).drop_last() =~= executed@.take(i as int));
                assert(executed@.take(i + 1).last() == p);
                assert(record_map(executed@.take(i + 1), current_unit) == record_map(
                    executed@.take(i as int),
                    current_unit,
                ).insert(p.0, rec));
                assert(cur_h.insert(p.0, rec) =~= h0.union_prefer_right(
                    record_map(executed@.take(i + 1), current_unit),
                ));
            }
            i += 1;
        }
        proof {
            assert(executed@.take(executed@.len() as int) =~= executed@);
            if at_most_one_pending(e0, h0) {
                lemma_record_map_dom(executed@, current_unit);
            }
        }
    }

    /// The state-machine core of one scheduling round, up to the submission
    /// pipeline: index every newly triggered automation as due now, prune the
    /// terminally failing ones, then reconcile the queried confirmation
    /// statuses. `statuses` pairs addresses from
    /// [`TxExecutor::checkable_transactions`] with what the ledger reported
    /// for their signatures. The host then resolves the pool position,
    /// rotates into the pool if absent, and runs the select → build → dedupe
    /// → batch-submit pipeline; each of those steps fails soft and never
    /// undoes these transitions.
    pub fn execute_txs(
        &mut self,
        triggered: &Vec<u64>,
        statuses: &Vec<(u64, TxConfirmationStatus)>,
        current_unit: u64,
    )
        requires
            old(self).wf(),
        ensures
            final(self).wf(),
            final(self).executable() == with_fresh_entries(
                pruned(
                    with_fresh_entries(
                        old(self).executable(),
                        triggered@.to_set().difference(old(self).history().dom()),
                        current_unit,
                    ),
                ),
                retriable_refs(statuses@),
                current_unit,
            ),
            final(self).history() == old(self).history().remove_keys(resolved_refs(statuses@)),
            final(self).dropped() == sat_add_u64(
                old(self).dropped(),
                with_fresh_entries(
                    old(self).executable(),
                    triggered@.to_set().difference(old(self).history().dom()),
                    current_unit,
                ).len() - pruned(
                    with_fresh_entries(
                        old(self).executable(),
                        triggered@.to_set().difference(old(self).history().dom()),
                        current_unit,
                    ),
                ).len(),
            ),
            at_most_one_pending(old(self).executable(), old(self).history())
                ==> at_most_one_pending(final(self).executable(), final(self).history()),
    {
        self.track_triggered_automations(triggered, current_unit);
        self.prune_failing_automations();
        self.process_retries(statuses, current_unit);
    }

    /// Decide what becomes of one due automation after the host has fetched
    /// its state and asked the external builder for a transaction. `built` is
    /// the signature of the built transaction, or `None` when the fetch or
    /// the build failed: a failure costs the automation one more recorded
    /// simulation failure. A built transaction that duplicates in-flight work
    /// is silently excluded. The returned pair joins the round's batch.
    pub fn try_build_automation_exec_tx(
        &mut self,
        current_unit: u64,
        automation_ref: u64,
        built: Option<u64>,
    ) -> (r: Option<(u64, u64)>)
        requires
            old(self).wf(),
        ensures
            final(self).wf(),
            final(self).history() == old(self).history(),
            final(self).dropped() == old(self).dropped(),
            match built {
                None => r is None && final(self).executable() == bump_failure(
                    old(self).executable(),
                    automation_ref,
                ),
                Some(signature) => final(self).executable() == old(self).executable() && r == (
                if spec_is_duplicate(old(self).history(), current_unit, automation_ref, signature) {
                    Option::<(u64, u64)>::None
                } else {
                    Option::Some((automation_ref, signature))
                }),
            },
            at_most_one_pending(old(self).executable(), old(self).history())
                ==> at_most_one_pending(final(self).executable(), final(self).history()),
    {
        match built {
            None => {
                self.increment_simulation_failure(automation_ref);
                None
            },
            Some(signature) => {
                match self.dedupe_tx(current_unit, automation_ref, signature) {
                    Ok(()) => Some((automation_ref, signature)),
                    Err(DuplicateTransaction) => None,
                }
            },
        }
    }
}

/// The metadata map while a prune is under way: entries over the threshold
/// are gone once their key has been visited.
spec fn partially_pruned(
    m: Map<u64, ExecutableAutomationMetadata>,
    visited: Seq<u64>,
) -> Map<u64, ExecutableAutomationMetadata> {
    Map::new(
        |k: u64|
            m.dom().contains(k) && !(visited.contains(k) && m[k].simulation_failures
                > MAX_AUTOMATION_SIMULATION_FAILURES),
        |k: u64| m[k],
    )
}

} // verus!
