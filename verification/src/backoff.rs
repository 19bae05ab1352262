//! The eligibility policy of the due-set selector: an exponential backoff
//! gate keyed to an automation's failure count, and a timeout-window gate
//! that holds executors outside the worker pool back from fresh work.

use vstd::prelude::*;
use vstd::arithmetic::power2::*;

use crate::metadata::ExecutableAutomationMetadata;

verus! {

/// Time units a submitted transaction is given to land before its
/// confirmation status is checked.
pub const TRANSACTION_CONFIRMATION_PERIOD: u64 = 10;

/// Time units pool members have to claim a due automation before executors
/// outside the pool may attempt it.
pub const AUTOMATION_TIMEOUT_WINDOW: u64 = 8;

/// Failure count above which an automation is dropped from tracking.
pub const MAX_AUTOMATION_SIMULATION_FAILURES: u64 = 5;

/// The earliest time unit at which an automation with the given due unit and
/// failure count may be attempted: each failure doubles the wait, starting
/// from no wait at all (`2^failures - 1` units after the due unit).
pub open spec fn earliest_eligible_unit(due_unit: u64, simulation_failures: u64) -> int {
    due_unit + pow2(simulation_failures as nat) - 1
}

/// The backoff gate, applied to every attempt.
pub open spec fn backoff_satisfied(m: ExecutableAutomationMetadata, current_unit: u64) -> bool {
    current_unit >= earliest_eligible_unit(m.due_unit, m.simulation_failures)
}

/// The timeout-window gate: pool members have had a full window to claim the
/// automation since it became due.
pub open spec fn past_timeout_window(m: ExecutableAutomationMetadata, current_unit: u64) -> bool {
    current_unit > m.due_unit + AUTOMATION_TIMEOUT_WINDOW
}

/// Whether an automation may be attempted this round. Pool members (and
/// everyone, when the pool is empty) pass on the backoff gate alone;
/// non-members must also be past the timeout window.
pub open spec fn eligible_for_attempt(
    m: ExecutableAutomationMetadata,
    current_unit: u64,
    pool_member: bool,
) -> bool {
    backoff_satisfied(m, current_unit) && (pool_member || past_timeout_window(m, current_unit))
}

/// `2^e`, for exponents small enough that the result fits.
fn pow2_u128(e: u64) -> (r: u128)
    requires
        e <= 64,
    ensures
        r == pow2(e as nat),
{
    proof {
        lemma2_to64();
    }
    let mut r: u128 = 1;
    let mut i: u64 = 0;
    while i < e
        invariant
            i <= e <= 64,
            r == pow2(i as nat),
        decreases e - i,
    {
        proof {
            lemma_pow2_unfold((i + 1) as nat);
            lemma2_to64();
            if i + 1 < 64 {
                lemma_pow2_strictly_increases((i + 1) as nat, 64);
            }
            assert(pow2((i + 1) as nat) <= pow2(64));
        }
        r = r * 2;
        i += 1;
    }
    r
}

/// The backoff gate as executable code.
pub fn backoff_elapsed(m: &ExecutableAutomationMetadata, current_unit: u64) -> (r: bool)
    ensures
        r == backoff_satisfied(*m, current_unit),
{
    if m.simulation_failures > 64 {
        proof {
            lemma_pow2_strictly_increases(64, m.simulation_failures as nat);
            lemma2_to64();
        }
        false
    } else {
        let p = pow2_u128(m.simulation_failures);
        proof {
            lemma_pow2_pos(m.simulation_failures as nat);
            lemma2_to64();
            if m.simulation_failures < 64 {
                lemma_pow2_strictly_increases(m.simulation_failures as nat, 64);
            }
            assert(p <= pow2(64));
        }
        (current_unit as u128) >= (m.due_unit as u128) + (p - 1)
    }
}

/// The timeout-window gate as executable code.
pub fn timeout_window_elapsed(m: &ExecutableAutomationMetadata, current_unit: u64) -> (r: bool)
    ensures
        r == past_timeout_window(*m, current_unit),
{
    (current_unit as u128) > (m.due_unit as u128) + (AUTOMATION_TIMEOUT_WINDOW as u128)
}

/// Both gates combined, as the due-set selector applies them.
pub fn is_eligible(m: &ExecutableAutomationMetadata, current_unit: u64, pool_member: bool) -> (r:
    bool)
    ensures
        r == eligible_for_attempt(*m, current_unit, pool_member),
{
    if backoff_elapsed(m, current_unit) {
        pool_member || timeout_window_elapsed(m, current_unit)
    } else {
        false
    }
}

} // verus!
