use tx_executor::executor::TxExecutor;
use tx_executor::metadata::TxConfirmationStatus;
use tx_executor::pool::{resolve_pool_position, PoolPosition};

fn member_position() -> PoolPosition {
    PoolPosition { current_position: Some(0), workers: vec![11] }
}

fn nonmember_position() -> PoolPosition {
    PoolPosition { current_position: None, workers: vec![11, 12] }
}

#[test]
fn fresh_automation_eligible_for_member_at_trigger_unit() {
    // Triggered at unit 100 with no failures: a pool member may attempt it
    // from unit 100 on.
    let mut e = TxExecutor::new();
    e.track_triggered_automations(&vec![1], 100);
    assert_eq!(e.get_executable_automations(&member_position(), 99), vec![]);
    assert_eq!(e.get_executable_automations(&member_position(), 100), vec![1]);
}

#[test]
fn fresh_automation_held_back_from_nonmember_until_window_passes() {
    // Triggered at unit 100: an executor outside the pool must wait out the
    // full timeout window of 8 units and may attempt it only after unit 108.
    let mut e = TxExecutor::new();
    e.track_triggered_automations(&vec![1], 100);
    assert_eq!(e.get_executable_automations(&nonmember_position(), 108), vec![]);
    assert_eq!(e.get_executable_automations(&nonmember_position(), 109), vec![1]);
}

#[test]
fn empty_pool_lifts_the_timeout_window() {
    let mut e = TxExecutor::new();
    e.track_triggered_automations(&vec![1], 100);
    let empty_pool = PoolPosition { current_position: None, workers: vec![] };
    assert_eq!(e.get_executable_automations(&empty_pool, 100), vec![1]);
}

#[test]
fn three_failures_delay_retry_to_due_plus_seven() {
    // Due at unit 50 with three recorded failures: next eligible unit is
    // 50 + (2^3 - 1) = 57.
    let mut e = TxExecutor::new();
    e.track_triggered_automations(&vec![2], 50);
    for _ in 0..3 {
        e.increment_simulation_failure(2);
    }
    assert_eq!(e.get_executable_automations(&member_position(), 56), vec![]);
    assert_eq!(e.get_executable_automations(&member_position(), 57), vec![2]);
}

#[test]
fn build_failure_costs_one_backoff_step() {
    let mut e = TxExecutor::new();
    e.track_triggered_automations(&vec![3], 10);
    // The fetch or the build failed; the automation is abandoned this round.
    let r = e.try_build_automation_exec_tx(10, 3, None);
    assert_eq!(r, None);
    // One failure: eligible again from 10 + (2^1 - 1) = 11 on.
    assert_eq!(e.get_executable_automations(&member_position(), 10), vec![]);
    assert_eq!(e.get_executable_automations(&member_position(), 11), vec![3]);
}

#[test]
fn landed_success_clears_record_without_requeue() {
    // A record sent at unit 40 is past the confirmation window at unit 52;
    // a landed success drops the record and re-adds no metadata.
    let mut e = TxExecutor::new();
    e.track_triggered_automations(&vec![4], 40);
    e.apply_batch_submission(&vec![(4, 900)], 40);
    assert_eq!(e.executable_automation_count(), 0);
    assert_eq!(e.outstanding_transaction_count(), 1);
    let checkable = e.checkable_transactions(52);
    assert_eq!(checkable, vec![(4, 900)]);
    e.process_retries(&vec![(4, TxConfirmationStatus::LandedSuccess)], 52);
    assert_eq!(e.outstanding_transaction_count(), 0);
    assert_eq!(e.executable_automation_count(), 0);
}

#[test]
fn landed_failure_requeues_with_clean_backoff() {
    // A landed failure at unit 52 drops the record and re-adds metadata due
    // at 52 with zero failures: eligible for a member immediately.
    let mut e = TxExecutor::new();
    e.apply_batch_submission(&vec![(5, 901)], 40);
    e.process_retries(&vec![(5, TxConfirmationStatus::LandedFailure)], 52);
    assert_eq!(e.outstanding_transaction_count(), 0);
    assert_eq!(e.executable_automation_count(), 1);
    assert_eq!(e.get_executable_automations(&member_position(), 52), vec![5]);
}

#[test]
fn unlanded_transaction_requeues_like_a_failure() {
    let mut e = TxExecutor::new();
    e.apply_batch_submission(&vec![(6, 902)], 40);
    e.process_retries(&vec![(6, TxConfirmationStatus::NotLanded)], 52);
    assert_eq!(e.outstanding_transaction_count(), 0);
    assert_eq!(e.get_executable_automations(&member_position(), 52), vec![6]);
}

#[test]
fn failed_status_query_leaves_record_outstanding() {
    let mut e = TxExecutor::new();
    e.apply_batch_submission(&vec![(7, 903)], 40);
    e.process_retries(&vec![(7, TxConfirmationStatus::QueryError)], 52);
    assert_eq!(e.outstanding_transaction_count(), 1);
    assert_eq!(e.executable_automation_count(), 0);
    // Still checkable next round.
    assert_eq!(e.checkable_transactions(53), vec![(7, 903)]);
}

#[test]
fn record_within_confirmation_window_is_not_checked() {
    let mut e = TxExecutor::new();
    e.apply_batch_submission(&vec![(8, 904)], 40);
    // The window is 10 units: at unit 50 the record is too young, at 51 it
    // is checkable.
    assert_eq!(e.checkable_transactions(50), vec![]);
    assert_eq!(e.checkable_transactions(51), vec![(8, 904)]);
}

#[test]
fn aborted_batch_changes_nothing() {
    // Three candidates are selected and built; the batch submission then
    // fails at the transport, so the host applies nothing and every
    // automation stays due at its original backoff position.
    let mut e = TxExecutor::new();
    e.track_triggered_automations(&vec![1, 2, 3], 20);
    let due = e.get_executable_automations(&member_position(), 20);
    assert_eq!(due.len(), 3);
    let mut batch = Vec::new();
    for (i, r) in due.iter().enumerate() {
        let pair = e.try_build_automation_exec_tx(20, *r, Some(1000 + i as u64));
        batch.push(pair.unwrap());
    }
    assert_eq!(batch.len(), 3);
    // Transport error: apply_batch_submission is never called.
    assert_eq!(e.executable_automation_count(), 3);
    assert_eq!(e.outstanding_transaction_count(), 0);
    assert_eq!(e.dropped_automations(), 0);
    let due_again = e.get_executable_automations(&member_position(), 20);
    assert_eq!(due_again.len(), 3);
    for r in [1, 2, 3] {
        assert!(due_again.contains(&r));
    }
}

#[test]
fn successful_batch_moves_refs_from_metadata_to_records() {
    // At most one of {metadata, record} exists per automation at any time.
    let mut e = TxExecutor::new();
    e.track_triggered_automations(&vec![1, 2], 20);
    e.apply_batch_submission(&vec![(1, 501)], 20);
    assert_eq!(e.executable_automation_count(), 1);
    assert_eq!(e.outstanding_transaction_count(), 1);
    assert_eq!(e.get_executable_automations(&member_position(), 20), vec![2]);
    assert_eq!(e.checkable_transactions(31), vec![(1, 501)]);
}

#[test]
fn resubmitting_identical_transaction_is_rejected() {
    // Submitting the identical transaction twice for the same automation
    // within a non-decreasing unit sequence never yields two records.
    let mut e = TxExecutor::new();
    e.track_triggered_automations(&vec![9], 30);
    let first = e.try_build_automation_exec_tx(30, 9, Some(700));
    assert_eq!(first, Some((9, 700)));
    e.apply_batch_submission(&vec![(9, 700)], 30);
    assert_eq!(e.outstanding_transaction_count(), 1);
    // The automation triggers again and the builder produces the identical
    // transaction: the dedupe check trips at the same and at a later unit.
    assert!(e.dedupe_tx(30, 9, 700).is_err());
    assert!(e.dedupe_tx(35, 9, 700).is_err());
    let second = e.try_build_automation_exec_tx(35, 9, Some(700));
    assert_eq!(second, None);
    assert_eq!(e.outstanding_transaction_count(), 1);
}

#[test]
fn different_signature_is_not_a_duplicate() {
    let mut e = TxExecutor::new();
    e.apply_batch_submission(&vec![(9, 700)], 30);
    assert!(e.dedupe_tx(35, 9, 701).is_ok());
    assert!(e.dedupe_tx(35, 10, 700).is_ok());
}

#[test]
fn record_sent_later_than_current_unit_is_not_a_duplicate() {
    // The dedupe check requires the record's send unit to be at or before
    // the current unit.
    let mut e = TxExecutor::new();
    e.apply_batch_submission(&vec![(9, 700)], 30);
    assert!(e.dedupe_tx(29, 9, 700).is_ok());
    assert!(e.dedupe_tx(30, 9, 700).is_err());
}

#[test]
fn sixth_failure_prunes_and_counts_the_drop() {
    // The failure counter may reach 6 between rounds; the next prune then
    // abandons the automation and increments the drop counter.
    let mut e = TxExecutor::new();
    e.track_triggered_automations(&vec![1], 10);
    for _ in 0..6 {
        e.increment_simulation_failure(1);
    }
    e.prune_failing_automations();
    assert_eq!(e.executable_automation_count(), 0);
    assert_eq!(e.dropped_automations(), 1);
}

#[test]
fn five_failures_survive_a_prune() {
    let mut e = TxExecutor::new();
    e.track_triggered_automations(&vec![1], 10);
    for _ in 0..5 {
        e.increment_simulation_failure(1);
    }
    e.prune_failing_automations();
    assert_eq!(e.executable_automation_count(), 1);
    assert_eq!(e.dropped_automations(), 0);
}

#[test]
fn dropped_automation_returns_when_triggered_again() {
    let mut e = TxExecutor::new();
    e.track_triggered_automations(&vec![1], 10);
    for _ in 0..6 {
        e.increment_simulation_failure(1);
    }
    e.prune_failing_automations();
    assert_eq!(e.executable_automation_count(), 0);
    e.track_triggered_automations(&vec![1], 20);
    assert_eq!(e.executable_automation_count(), 1);
    assert_eq!(e.get_executable_automations(&member_position(), 20), vec![1]);
}

#[test]
fn retrigger_resets_due_unit_and_failures() {
    let mut e = TxExecutor::new();
    e.track_triggered_automations(&vec![1], 10);
    e.increment_simulation_failure(1);
    e.increment_simulation_failure(1);
    // Triggered again at 40: due from 40 on, backoff cleared.
    e.track_triggered_automations(&vec![1], 40);
    assert_eq!(e.get_executable_automations(&member_position(), 39), vec![]);
    assert_eq!(e.get_executable_automations(&member_position(), 40), vec![1]);
}

#[test]
fn increment_on_untracked_automation_is_ignored() {
    let mut e = TxExecutor::new();
    e.increment_simulation_failure(42);
    assert_eq!(e.executable_automation_count(), 0);
}

#[test]
fn round_core_ingests_prunes_and_reconciles_at_once() {
    let mut e = TxExecutor::new();
    // Unit 10: automation 1 triggers and keeps failing; 2 gets submitted.
    e.track_triggered_automations(&vec![1, 2], 10);
    for _ in 0..6 {
        e.increment_simulation_failure(1);
    }
    e.apply_batch_submission(&vec![(2, 800)], 10);
    // Unit 25: automation 3 triggers, 1 is pruned, 2's landed failure
    // requeues it — all in one round-core step.
    let checkable = e.checkable_transactions(25);
    assert_eq!(checkable, vec![(2, 800)]);
    e.execute_txs(&vec![3], &vec![(2, TxConfirmationStatus::LandedFailure)], 25);
    assert_eq!(e.dropped_automations(), 1);
    assert_eq!(e.outstanding_transaction_count(), 0);
    assert_eq!(e.executable_automation_count(), 2);
    let due = e.get_executable_automations(&member_position(), 25);
    assert!(due.contains(&2) && due.contains(&3) && !due.contains(&1));
}

#[test]
fn retrigger_while_record_outstanding_creates_no_metadata() {
    // An automation whose submitted transaction is still in flight keeps its
    // record and gains no metadata when it triggers again: at most one of
    // {metadata, record} ever exists. The retry processor requeues it once
    // the record resolves.
    let mut e = TxExecutor::new();
    e.track_triggered_automations(&vec![1], 10);
    e.apply_batch_submission(&vec![(1, 500)], 10);
    assert_eq!(e.executable_automation_count(), 0);
    assert_eq!(e.outstanding_transaction_count(), 1);
    e.track_triggered_automations(&vec![1], 15);
    assert_eq!(e.executable_automation_count(), 0);
    assert_eq!(e.outstanding_transaction_count(), 1);
    // Also through the round core.
    e.execute_txs(&vec![1], &vec![], 16);
    assert_eq!(e.executable_automation_count(), 0);
    assert_eq!(e.outstanding_transaction_count(), 1);
    // Once the record resolves as retriable, the automation is requeued.
    e.process_retries(&vec![(1, TxConfirmationStatus::NotLanded)], 21);
    assert_eq!(e.executable_automation_count(), 1);
    assert_eq!(e.outstanding_transaction_count(), 0);
}

#[test]
fn drop_counter_accumulates_across_prunes() {
    let mut e = TxExecutor::new();
    for unit in [10, 20, 30] {
        let r = unit; // one fresh automation per round
        e.track_triggered_automations(&vec![r], unit);
        for _ in 0..6 {
            e.increment_simulation_failure(r);
        }
        e.prune_failing_automations();
    }
    assert_eq!(e.dropped_automations(), 3);
    assert_eq!(e.executable_automation_count(), 0);
}

#[test]
fn several_rounds_settle_every_automation() {
    // Drive full rounds by hand: trigger three automations, submit them,
    // confirm two, requeue and resubmit the third, and end with nothing due
    // and nothing outstanding.
    let mut e = TxExecutor::new();
    e.execute_txs(&vec![1, 2, 3], &vec![], 100);
    let due = e.get_executable_automations(&member_position(), 100);
    assert_eq!(due.len(), 3);
    let mut batch = Vec::new();
    for r in due {
        batch.push(e.try_build_automation_exec_tx(100, r, Some(600 + r)).unwrap());
    }
    e.apply_batch_submission(&batch, 100);
    assert_eq!(e.outstanding_transaction_count(), 3);

    // Unit 111: all three records are past the window; 1 and 2 landed, 3
    // never did.
    let checkable = e.checkable_transactions(111);
    assert_eq!(checkable.len(), 3);
    let statuses: Vec<(u64, TxConfirmationStatus)> = checkable
        .iter()
        .map(|(r, _sig)| {
            if *r == 3 {
                (*r, TxConfirmationStatus::NotLanded)
            } else {
                (*r, TxConfirmationStatus::LandedSuccess)
            }
        })
        .collect();
    e.execute_txs(&vec![], &statuses, 111);
    assert_eq!(e.outstanding_transaction_count(), 0);
    assert_eq!(e.get_executable_automations(&member_position(), 111), vec![3]);

    // The rebuilt transaction differs (new blockhash), so it passes dedupe.
    let pair = e.try_build_automation_exec_tx(111, 3, Some(777)).unwrap();
    e.apply_batch_submission(&vec![pair], 111);
    e.execute_txs(&vec![], &vec![(3, TxConfirmationStatus::LandedSuccess)], 122);
    assert_eq!(e.executable_automation_count(), 0);
    assert_eq!(e.outstanding_transaction_count(), 0);
    assert_eq!(e.dropped_automations(), 0);
}

#[test]
fn new_executor_is_empty() {
    let e = TxExecutor::new();
    assert_eq!(e.executable_automation_count(), 0);
    assert_eq!(e.outstanding_transaction_count(), 0);
    assert_eq!(e.dropped_automations(), 0);
    assert_eq!(e.checkable_transactions(1000), vec![]);
    let pos = resolve_pool_position(vec![], 11);
    assert_eq!(e.get_executable_automations(&pos, 1000), vec![]);
}
