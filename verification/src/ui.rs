//! Live-dashboard snapshot payload.
//!
//! The aggregator periodically emits one fully recomputed `UiData`; each
//! emission replaces the previous snapshot, it is never merged or queued.
//! `latencies` pairs each latency-window entry's time since run start with
//! its latency, both in microseconds.

use vstd::prelude::*;

verus! {

/// One statistics snapshot for the live dashboard.
#[derive(Clone, Debug)]
pub struct UiData {
    pub elapsed_us: u64,
    pub current_requests: u64,
    pub successful_requests: u64,
    pub latencies: Vec<(u64, u64)>,
    pub rps: u64,
    pub rpm: u64,
}

impl UiData {
    pub fn new(
        elapsed_us: u64,
        current_requests: u64,
        successful_requests: u64,
        latencies: Vec<(u64, u64)>,
        rps: u64,
        rpm: u64,
    ) -> (u: UiData)
        ensures
            u.elapsed_us == elapsed_us,
            u.current_requests == current_requests,
            u.successful_requests == successful_requests,
            u.latencies == latencies,
            u.rps == rps,
            u.rpm == rpm,
    {
        UiData { elapsed_us, current_requests, successful_requests, latencies, rps, rpm }
    }

    /// The all-zero snapshot shown before any outcome has arrived.
    pub fn default() -> (u: UiData)
        ensures
            u.elapsed_us == 0,
            u.current_requests == 0,
            u.successful_requests == 0,
            u.latencies@ == Seq::<(u64, u64)>::empty(),
            u.rps == 0,
            u.rpm == 0,
    {
        UiData {
            elapsed_us: 0,
            current_requests: 0,
            successful_requests: 0,
            latencies: Vec::new(),
            rps: 0,
            rpm: 0,
        }
    }
}

} // verus!
