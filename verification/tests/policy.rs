use tx_executor::backoff::{backoff_elapsed, is_eligible, timeout_window_elapsed};
use tx_executor::executor::TxExecutor;
use tx_executor::metadata::ExecutableAutomationMetadata;
use tx_executor::pool::{resolve_pool_position, PoolPosition};

fn meta(due_unit: u64, simulation_failures: u64) -> ExecutableAutomationMetadata {
    ExecutableAutomationMetadata { due_unit, simulation_failures }
}

#[test]
fn backoff_thresholds_grow_exponentially() {
    // Earliest eligible units for failures 0..4 sit at due + 0, 1, 3, 7, 15.
    let due = 100;
    for (failures, delay) in [(0, 0), (1, 1), (2, 3), (3, 7), (4, 15)] {
        let m = meta(due, failures);
        assert!(!backoff_elapsed(&m, due + delay - 1) || delay == 0);
        assert!(backoff_elapsed(&m, due + delay));
        assert!(backoff_elapsed(&m, due + delay + 1));
    }
}

#[test]
fn huge_failure_counts_never_become_eligible() {
    assert!(!backoff_elapsed(&meta(0, 64), u64::MAX - 1));
    assert!(!backoff_elapsed(&meta(0, 65), u64::MAX));
    assert!(!backoff_elapsed(&meta(0, 200), u64::MAX));
    assert!(!backoff_elapsed(&meta(0, u64::MAX), u64::MAX));
}

#[test]
fn sixty_four_failures_reach_the_edge_of_the_unit_range() {
    // 2^64 - 1 equals the largest unit, so the automation with due unit 0 and
    // 64 failures is eligible exactly at the last representable unit.
    assert!(backoff_elapsed(&meta(0, 64), u64::MAX));
}

#[test]
fn timeout_window_is_strict() {
    let m = meta(100, 0);
    assert!(!timeout_window_elapsed(&m, 108));
    assert!(timeout_window_elapsed(&m, 109));
}

#[test]
fn timeout_window_near_the_unit_range_end_does_not_overflow() {
    let m = meta(u64::MAX - 4, 0);
    assert!(!timeout_window_elapsed(&m, u64::MAX));
    assert!(backoff_elapsed(&m, u64::MAX - 4));
}

#[test]
fn nonmember_eligibility_implies_member_eligibility() {
    // The timeout-window gate only removes eligibility, never adds it.
    let units = [0, 50, 57, 58, 59, 100, 107, 108, 109, 200];
    for failures in 0..8 {
        let m = meta(50, failures);
        for unit in units {
            if is_eligible(&m, unit, false) {
                assert!(is_eligible(&m, unit, true));
            }
        }
    }
}

#[test]
fn member_selection_can_be_strictly_larger() {
    // At unit 103 a member may attempt the automation due at 100, an
    // outsider may not: the inclusion is strict here.
    let m = meta(100, 0);
    assert!(is_eligible(&m, 103, true));
    assert!(!is_eligible(&m, 103, false));
}

#[test]
fn nonmember_selection_is_subset_on_a_mixed_map() {
    let mut e = TxExecutor::new();
    e.track_triggered_automations(&vec![1], 100);
    e.track_triggered_automations(&vec![2], 80);
    e.track_triggered_automations(&vec![3], 108);
    let member = PoolPosition { current_position: Some(1), workers: vec![11, 12] };
    let outside = PoolPosition { current_position: None, workers: vec![11, 12] };
    for unit in [100, 105, 109, 117, 200] {
        let selected_member = e.get_executable_automations(&member, unit);
        let selected_outside = e.get_executable_automations(&outside, unit);
        for r in &selected_outside {
            assert!(selected_member.contains(r));
        }
    }
}

#[test]
fn pool_position_of_a_member() {
    let p = resolve_pool_position(vec![5, 6, 7], 6);
    assert_eq!(p.current_position, Some(1));
    assert_eq!(p.workers, vec![5, 6, 7]);
}

#[test]
fn pool_position_of_an_outsider() {
    let p = resolve_pool_position(vec![5, 6, 7], 8);
    assert_eq!(p.current_position, None);
    assert_eq!(p.workers, vec![5, 6, 7]);
}

#[test]
fn pool_position_is_the_first_occurrence() {
    let p = resolve_pool_position(vec![5, 6, 5], 5);
    assert_eq!(p.current_position, Some(0));
}

#[test]
fn pool_position_in_an_empty_pool() {
    let p = resolve_pool_position(vec![], 5);
    assert_eq!(p.current_position, None);
    assert!(p.workers.is_empty());
}
