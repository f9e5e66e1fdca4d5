use vstd::prelude::*;

verus! {

/// How a frame spends the time accumulated since the last updates.
#[derive(Debug, PartialEq, Eq, Structural, Clone, Copy)]
pub struct UpdateSchedule {
    /// Fixed-step updates to run this frame.
    pub updates: u64,
    /// Time left over, carried to the next frame (always under one step).
    pub lag: u64,
}

/// Splits the accumulated `lag` into whole update steps of `ns_per_update`
/// and what is left; every step owed is run, none is dropped.
pub fn schedule_updates(lag: u64, ns_per_update: u64) -> (s: UpdateSchedule)
    requires
        ns_per_update > 0,
    ensures
        s.updates * ns_per_update + s.lag == lag,
        s.lag < ns_per_update,
{
    let updates = lag / ns_per_update;
    let rest = lag % ns_per_update;
    assert(updates * ns_per_update + rest == lag) by (nonlinear_arith)
        requires
            updates == lag / ns_per_update,
            rest == lag % ns_per_update,
            ns_per_update > 0,
    ;
    UpdateSchedule { updates, lag: rest }
}

/// Adds the time of the last frame to the lag, saturating at the largest
/// value instead of wrapping.
pub fn accumulate_lag(lag: u64, elapsed: u64) -> (r: u64)
    ensures
        r == if lag + elapsed <= u64::MAX {
            (lag + elapsed) as u64
        } else {
            u64::MAX
        },
{
    lag.saturating_add(elapsed)
}

} // verus!
