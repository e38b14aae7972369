//! Tick-based ramp scheduler.
//!
//! A recurring timer drives worker spawning: on each tick, while the spawned
//! total is below the concurrency cap, a batch of at most `spawn_rate` new
//! workers is started, never pushing the total past `max_tasks`. Once the cap
//! is reached every further tick is idle. The surrounding binary owns the
//! timer and the tasks; this module owns the counting.

use vstd::prelude::*;

verus! {

/// Ramp state: the cap, the per-tick spawn rate and the running total of
/// workers spawned so far.
pub struct RampScheduler {
    pub max_tasks: usize,
    pub spawn_rate: usize,
    pub total_spawned: usize,
}

/// The spawned total after `n` ticks from a fresh scheduler: each tick moves
/// the total to `min(total + rate, max)`.
pub open spec fn ramp_after(max: int, rate: int, n: nat) -> int
    decreases n,
{
    if n == 0 {
        0
    } else {
        vstd::math::min(ramp_after(max, rate, (n - 1) as nat) + rate, max)
    }
}

impl RampScheduler {
    /// The spawned total never exceeds the cap.
    pub open spec fn wf(self) -> bool {
        self.total_spawned <= self.max_tasks
    }

    pub fn new(max_tasks: usize, spawn_rate: usize) -> (s: RampScheduler)
        ensures
            s.max_tasks == max_tasks,
            s.spawn_rate == spawn_rate,
            s.total_spawned == 0,
            s.wf(),
    {
        RampScheduler { max_tasks, spawn_rate, total_spawned: 0 }
    }

    /// One timer tick. Returns the number of workers to spawn now: zero once
    /// the cap is reached, otherwise the spawn rate clipped to what the cap
    /// still allows. The new total is `min(old total + rate, max)` and in
    /// particular never exceeds `max_tasks`.
    pub fn on_tick(&mut self) -> (batch: usize)
        requires
            old(self).wf(),
        ensures
            final(self).wf(),
            final(self).max_tasks == old(self).max_tasks,
            final(self).spawn_rate == old(self).spawn_rate,
            batch as int == if old(self).total_spawned < old(self).max_tasks {
                vstd::math::min(
                    old(self).max_tasks - old(self).total_spawned,
                    old(self).spawn_rate as int,
                )
            } else {
                0
            },
            final(self).total_spawned == old(self).total_spawned + batch,
            final(self).total_spawned as int == vstd::math::min(
                old(self).total_spawned + old(self).spawn_rate,
                old(self).max_tasks as int,
            ),
            final(self).total_spawned <= final(self).max_tasks,
    {
        if self.total_spawned >= self.max_tasks {
            return 0;
        }
        let remaining = self.max_tasks - self.total_spawned;
        let batch = if remaining < self.spawn_rate {
            remaining
        } else {
            self.spawn_rate
        };
        self.total_spawned = self.total_spawned + batch;
        batch
    }
}

/// Closed form of the ramp: after `n` ticks from a fresh scheduler exactly
/// `min(n * rate, max)` workers have been spawned. With a cap of 10 and a
/// rate of 2 this gives 8 workers after 4 ticks and 10 after 5, after which
/// the ramp stops growing.
pub proof fn lemma_ramp_after_ticks(max: int, rate: int, n: nat)
    requires
        max >= 0,
        rate >= 0,
    ensures
        ramp_after(max, rate, n) == vstd::math::min(n as int * rate, max),
    decreases n,
{
    if n == 0 {
        assert(0int * rate == 0) by (nonlinear_arith);
    } else {
        lemma_ramp_after_ticks(max, rate, (n - 1) as nat);
        assert((n - 1) as int * rate + rate == n as int * rate) by (nonlinear_arith);
    }
}

/// The status recorded for one exchange: the response's own code when the
/// transport produced a response, else the sentinel failure code 500. A
/// failed exchange is an ordinary outcome, never fatal to the worker.
pub fn outcome_status(result: Option<u16>) -> (r: u16)
    ensures
        r == (match result {
            Some(code) => code,
            None => 500u16,
        }),
{
    match result {
        Some(code) => code,
        None => 500,
    }
}

} // verus!
