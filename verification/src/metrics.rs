//! Outcome records and the metrics aggregator.
//!
//! The aggregator is the single owner of every counter, window and history
//! record of a run. It is driven by one event at a time: each arriving
//! outcome updates the counters, both sliding windows and the filtered
//! history, then either reports that the target duration has expired (the
//! caller fires cancellation and keeps the history as the final result),
//! emits a fresh dashboard snapshot if enough time has passed since the last
//! one, or simply continues.

use std::collections::VecDeque;
use vstd::prelude::*;

use crate::parse::count_char;
use crate::parse::count_char_occurrences;
use crate::parse::find_char;
use crate::parse::first_index_of;
use crate::parse::parse_u64;
use crate::parse::parsed_u64;
use crate::parse::parses_as_u64;
use crate::ui::UiData;
use crate::window::bump_or_push;
use crate::window::counts_sum;
use crate::window::evict_front;
use crate::window::evict_stale;
use crate::window::lemma_bump_or_push_sum;
use crate::window::lemma_counts_sum_ge_elem;
use crate::window::lemma_counts_sum_suffix;
use crate::window::lemma_evict_front;
use crate::window::lemma_recent_sum_le_counts_sum;
use crate::window::recent_sum;
use crate::window::sum_recent;
use crate::window::ts_bounded;
use crate::window::ts_sorted;

verus! {

/// Latency-window horizon: entries older than 10 s are evicted.
pub const LATENCY_WINDOW_US: u64 = 10_000_000;

/// Throughput-window horizon: slots older than 60 s are evicted.
pub const RPS_WINDOW_US: u64 = 60_000_000;

/// Width of one throughput slot: 100 ms.
pub const RPS_SLOT_US: u64 = 100_000;

/// Slots within the trailing second count towards the current RPS.
pub const RPS_RECENT_US: u64 = 1_000_000;

/// Minimum spacing between two dashboard snapshots: 100 ms.
pub const SNAPSHOT_INTERVAL_US: u64 = 100_000;

/// Cap on processed outcomes, so that the requests-per-minute product
/// always fits in a `u64`.
pub const COUNT_LIMIT: u64 = u64::MAX / 60;

/// One completed exchange: when it started, how long it took and what
/// status code came back, all owned by the aggregator once received.
#[derive(Clone, Copy, Debug, PartialEq, Eq, Structural)]
pub struct Metrics {
    pub start_us: u64,
    pub response_time_us: u64,
    pub status_code: u16,
}

impl Metrics {
    /// The record for an exchange begun at `start_us` and finished at
    /// `now_us`.
    pub fn new(start_us: u64, now_us: u64, status_code: u16) -> (m: Metrics)
        requires
            start_us <= now_us,
        ensures
            m == (Metrics {
                start_us,
                response_time_us: (now_us - start_us) as u64,
                status_code,
            }),
    {
        Metrics { start_us, response_time_us: now_us - start_us, status_code }
    }
}

/// An inclusive range of run-relative seconds selecting which outcomes are
/// kept in the chart history.
#[derive(Clone, Copy, Debug, PartialEq, Eq, Structural)]
pub struct MetricsRange {
    pub lo: u64,
    pub hi: u64,
}

impl MetricsRange {
    /// Whether `secs` lies in the inclusive range.
    pub fn contains(&self, secs: u64) -> (r: bool)
        ensures
            r == (self.lo <= secs && secs <= self.hi),
    {
        self.lo <= secs && secs <= self.hi
    }

    /// Parse a `start-end` range: exactly one dash, a `u64` on either side,
    /// with `start <= end`. Each way the input can fail yields its own
    /// message, in the order the checks run.
    pub fn parse(s: &str) -> (r: Result<MetricsRange, String>)
        ensures
            (match r {
                Ok(mr) => {
                    &&& count_char(s@, '-') == 1
                    &&& parses_as_u64(s@.subrange(0, first_index_of(s@, '-')))
                    &&& parses_as_u64(
                        s@.subrange(first_index_of(s@, '-') + 1, s@.len() as int),
                    )
                    &&& mr.lo == parsed_u64(s@.subrange(0, first_index_of(s@, '-')))
                    &&& mr.hi == parsed_u64(
                        s@.subrange(first_index_of(s@, '-') + 1, s@.len() as int),
                    )
                    &&& mr.lo <= mr.hi
                },
                Err(e) => {
                    if count_char(s@, '-') != 1 {
                        e@ == "Expected format start-end (e.g., 10-30)"@
                    } else if !parses_as_u64(s@.subrange(0, first_index_of(s@, '-'))) {
                        e@ == "Invalid start value"@
                    } else if !parses_as_u64(
                        s@.subrange(first_index_of(s@, '-') + 1, s@.len() as int),
                    ) {
                        e@ == "Invalid end value"@
                    } else {
                        &&& parsed_u64(s@.subrange(0, first_index_of(s@, '-'))) > parsed_u64(
                            s@.subrange(first_index_of(s@, '-') + 1, s@.len() as int),
                        )
                        &&& e@ == "Start must be <= end"@
                    }
                },
            }),
    {
        let dashes = count_char_occurrences(s, '-');
        if dashes != 1 {
            return Err("Expected format start-end (e.g., 10-30)".to_owned());
        }
        let i = match find_char(s, '-') {
            Some(i) => i,
            None => {
                proof {
                    lemma_count_char_zero(s@, '-');
                }
                return Err("Expected format start-end (e.g., 10-30)".to_owned());
            },
        };
        let len = s.unicode_len();
        let lo = match parse_u64(s.substring_char(0, i)) {
            Some(v) => v,
            None => {
                return Err("Invalid start value".to_owned());
            },
        };
        let hi = match parse_u64(s.substring_char(i + 1, len)) {
            Some(v) => v,
            None => {
                return Err("Invalid end value".to_owned());
            },
        };
        if lo > hi {
            return Err("Start must be <= end".to_owned());
        }
        Ok(MetricsRange { lo, hi })
    }
}

/// A string without any occurrence of `c` counts zero occurrences.
proof fn lemma_count_char_zero(s: Seq<char>, c: char)
    requires
        forall|j: int| 0 <= j < s.len() ==> s[j] != c,
    ensures
        count_char(s, c) == 0,
    decreases s.len(),
{
    if s.len() > 0 {
        assert(forall|j: int| 0 <= j < s.drop_last().len() ==> s.drop_last()[j] != c);
        lemma_count_char_zero(s.drop_last(), c);
    }
}

impl core::str::FromStr for MetricsRange {
    type Err = String;

    /// Defer to [`MetricsRange::parse`].
    fn from_str(s: &str) -> Result<MetricsRange, String> {
        MetricsRange::parse(s)
    }
}

/// Whether an arrival at `secs` run-relative seconds passes the optional
/// history filter; with no filter configured everything passes.
pub open spec fn in_range(range: Option<MetricsRange>, secs: u64) -> bool {
    match range {
        Some(r) => r.lo <= secs && secs <= r.hi,
        None => true,
    }
}

/// The whole second of the run in which an arrival at `now_us` falls.
pub open spec fn arrival_secs(start_us: u64, now_us: u64) -> u64 {
    (((now_us - start_us) / 1_000_000) as u64)
}

/// The latency window as shown on the dashboard: each entry's time since
/// run start paired with its latency.
pub open spec fn snapshot_latencies(w: Seq<(u64, u64)>, start_us: u64) -> Seq<(u64, u64)> {
    w.map_values(|e: (u64, u64)| ((((e.0 - start_us) as u64), e.1)))
}

/// What the aggregator decided after one outcome: keep going, emit a fresh
/// dashboard snapshot, or stop because the target duration has expired (the
/// caller then fires cancellation and takes the history).
pub enum StepAction {
    Continue,
    Emit(UiData),
    Expired,
}

/// The aggregator: sole owner of all run statistics.
pub struct Aggregator {
    pub expected_status_code: u16,
    pub target_duration_us: u64,
    pub no_charts: bool,
    pub metrics_range: Option<MetricsRange>,
    pub start_us: u64,
    pub last_now_us: u64,
    pub last_snapshot_us: u64,
    pub total_count: u64,
    pub success_count: u64,
    pub latency_window: VecDeque<(u64, u64)>,
    pub rps_window: VecDeque<(u64, u64)>,
    pub history: Vec<Metrics>,
}

impl Aggregator {
    /// Well-formedness, maintained by every step:
    /// successes never exceed the total; both windows hold nondecreasing
    /// timestamps between run start and the latest observed time; no latency
    /// entry is more than the horizon older than the newest entry; no
    /// throughput slot is more than its horizon older than the latest
    /// observed time; every slot counts at least one request and the slots
    /// together never count more than the total.
    pub open spec fn wf(self) -> bool {
        &&& self.success_count <= self.total_count
        &&& self.start_us <= self.last_snapshot_us
        &&& self.last_snapshot_us <= self.last_now_us
        &&& ts_sorted(self.latency_window@)
        &&& ts_bounded(self.latency_window@, self.start_us, self.last_now_us)
        &&& (forall|i: int|
            0 <= i < self.latency_window@.len() ==> self.latency_window@.last().0 - (
            #[trigger] self.latency_window@[i]).0 <= LATENCY_WINDOW_US)
        &&& ts_sorted(self.rps_window@)
        &&& ts_bounded(self.rps_window@, self.start_us, self.last_now_us)
        &&& (forall|i: int|
            0 <= i < self.rps_window@.len() ==> self.last_now_us - (
            #[trigger] self.rps_window@[i]).0 <= RPS_WINDOW_US)
        &&& (forall|i: int|
            0 <= i < self.rps_window@.len() ==> (#[trigger] self.rps_window@[i]).1 >= 1)
        &&& counts_sum(self.rps_window@) <= self.total_count
    }

    /// A fresh aggregator for a run starting at `start_us`.
    pub fn new(
        expected_status_code: u16,
        target_duration_us: u64,
        no_charts: bool,
        metrics_range: Option<MetricsRange>,
        start_us: u64,
    ) -> (a: Aggregator)
        ensures
            a.wf(),
            a.expected_status_code == expected_status_code,
            a.target_duration_us == target_duration_us,
            a.no_charts == no_charts,
            a.metrics_range == metrics_range,
            a.start_us == start_us,
            a.last_now_us == start_us,
            a.last_snapshot_us == start_us,
            a.total_count == 0,
            a.success_count == 0,
            a.latency_window@ == Seq::<(u64, u64)>::empty(),
            a.rps_window@ == Seq::<(u64, u64)>::empty(),
            a.history@ == Seq::<Metrics>::empty(),
    {
        let a = Aggregator {
            expected_status_code,
            target_duration_us,
            no_charts,
            metrics_range,
            start_us,
            last_now_us: start_us,
            last_snapshot_us: start_us,
            total_count: 0,
            success_count: 0,
            latency_window: VecDeque::new(),
            rps_window: VecDeque::new(),
            history: Vec::new(),
        };
        proof {
            assert(a.history@ =~= Seq::<Metrics>::empty());
        }
        a
    }

    /// Process one arriving outcome at time `now_us`.
    ///
    /// The counters always advance: the total by one, the successes by one
    /// exactly when the status matches the expected code. The record joins
    /// the history exactly when charts are enabled and its arrival second
    /// passes the range filter; the filter never touches the counters or the
    /// windows. Both windows take the new data and are evicted from the
    /// front. The result is `Expired` exactly when the elapsed time has
    /// reached the target duration; otherwise a snapshot is emitted exactly
    /// when the last one is at least the snapshot interval old.
    #[verifier::rlimit(100)]
    pub fn on_outcome(&mut self, now_us: u64, m: Metrics) -> (r: StepAction)
        requires
            old(self).wf(),
            old(self).last_now_us <= now_us,
            old(self).total_count < COUNT_LIMIT,
        ensures
            final(self).wf(),
            final(self).expected_status_code == old(self).expected_status_code,
            final(self).target_duration_us == old(self).target_duration_us,
            final(self).no_charts == old(self).no_charts,
            final(self).metrics_range == old(self).metrics_range,
            final(self).start_us == old(self).start_us,
            final(self).last_now_us == now_us,
            final(self).total_count == old(self).total_count + 1,
            final(self).success_count == old(self).success_count + (
            if m.status_code == old(self).expected_status_code {
                1int
            } else {
                0int
            }),
            final(self).success_count <= final(self).total_count,
            final(self).history@ == (if !old(self).no_charts && in_range(
                old(self).metrics_range,
                arrival_secs(old(self).start_us, now_us),
            ) {
                old(self).history@.push(m)
            } else {
                old(self).history@
            }),
            final(self).latency_window@ == evict_front(
                old(self).latency_window@.push((now_us, m.response_time_us)),
                now_us,
                LATENCY_WINDOW_US,
            ),
            final(self).rps_window@ == evict_front(
                bump_or_push(old(self).rps_window@, now_us, RPS_SLOT_US),
                now_us,
                RPS_WINDOW_US,
            ),
            (r is Expired) == (now_us - old(self).start_us >= old(self).target_duration_us),
            (r is Emit) == (now_us - old(self).start_us < old(self).target_duration_us && now_us
                - old(self).last_snapshot_us >= SNAPSHOT_INTERVAL_US),
            final(self).last_snapshot_us == (if r is Emit {
                now_us
            } else {
                old(self).last_snapshot_us
            }),
            (match r {
                StepAction::Emit(u) => {
                    &&& u.elapsed_us == now_us - old(self).start_us
                    &&& u.current_requests == final(self).total_count
                    &&& u.successful_requests == final(self).success_count
                    &&& u.latencies@ == snapshot_latencies(
                        final(self).latency_window@,
                        old(self).start_us,
                    )
                    &&& u.rps == recent_sum(final(self).rps_window@, now_us, RPS_RECENT_US)
                    &&& u.rpm == u.rps * 60
                },
                _ => true,
            }),
    {
        self.last_now_us = now_us;

        // History, gated by the optional range filter; the counters and
        // windows below are updated regardless of it.
        let secs = (now_us - self.start_us) / 1_000_000;
        let keep = if self.no_charts {
            false
        } else {
            match &self.metrics_range {
                Some(rg) => rg.contains(secs),
                None => true,
            }
        };
        if keep {
            self.history.push(m);
        }

        // Counters.
        self.total_count = self.total_count + 1;
        if m.status_code == self.expected_status_code {
            self.success_count = self.success_count + 1;
        }

        // Latency window: append, then evict stale entries from the front.
        let ghost lat_pushed = self.latency_window@.push((now_us, m.response_time_us));
        self.latency_window.push_back((now_us, m.response_time_us));
        proof {
            assert(ts_sorted(lat_pushed));
            assert(ts_bounded(lat_pushed, 0, now_us));
        }
        evict_stale(&mut self.latency_window, now_us, LATENCY_WINDOW_US);
        proof {
            lemma_evict_front(lat_pushed, now_us, LATENCY_WINDOW_US);
        }

        // Throughput window: extend the newest 100 ms slot or open a new
        // one, then evict stale slots from the front.
        let ghost rps0 = self.rps_window@;
        proof {
            assert forall|i: int| 0 <= i < rps0.len() implies (#[trigger] rps0[i]).1
                < u64::MAX by {
                lemma_counts_sum_ge_elem(rps0, i);
            }
        }
        if self.rps_window.len() > 0 {
            let back_idx = self.rps_window.len() - 1;
            let back = self.rps_window[back_idx];
            if now_us - back.0 < RPS_SLOT_US {
                proof {
                    lemma_counts_sum_ge_elem(rps0, rps0.len() - 1);
                }
                self.rps_window.pop_back();
                self.rps_window.push_back((back.0, back.1 + 1));
                proof {
                    assert(self.rps_window@ =~= bump_or_push(rps0, now_us, RPS_SLOT_US));
                }
            } else {
                self.rps_window.push_back((now_us, 1));
            }
        } else {
            self.rps_window.push_back((now_us, 1));
        }
        let ghost rps_bumped = bump_or_push(rps0, now_us, RPS_SLOT_US);
        proof {
            assert(self.rps_window@ == rps_bumped);
            lemma_bump_or_push_sum(rps0, now_us, RPS_SLOT_US);
            assert(ts_sorted(rps_bumped));
            assert(ts_bounded(rps_bumped, 0, now_us));
        }
        evict_stale(&mut self.rps_window, now_us, RPS_WINDOW_US);
        proof {
            lemma_evict_front(rps_bumped, now_us, RPS_WINDOW_US);
            lemma_counts_sum_suffix(rps_bumped, rps_bumped.len() - self.rps_window@.len());
        }

        // Current throughput over the trailing second.
        proof {
            lemma_recent_sum_le_counts_sum(self.rps_window@, now_us, RPS_RECENT_US);
        }
        let rps = sum_recent(&self.rps_window, now_us, RPS_RECENT_US);

        // Duration expiry ends the run before any further snapshot.
        if now_us - self.start_us >= self.target_duration_us {
            return StepAction::Expired;
        }

        // Periodic snapshot.
        if now_us - self.last_snapshot_us >= SNAPSHOT_INTERVAL_US {
            let mut lats: Vec<(u64, u64)> = Vec::new();
            let mut i: usize = 0;
            proof {
                assert(lats@ =~= snapshot_latencies(self.latency_window@.subrange(0, 0),
                    self.start_us));
            }
            while i < self.latency_window.len()
                invariant
                    0 <= i <= self.latency_window@.len(),
                    ts_bounded(self.latency_window@, self.start_us, now_us),
                    lats@ == snapshot_latencies(
                        self.latency_window@.subrange(0, i as int),
                        self.start_us,
                    ),
                decreases self.latency_window@.len() - i,
            {
                let e = self.latency_window[i];
                lats.push((e.0 - self.start_us, e.1));
                proof {
                    assert(self.latency_window@.subrange(0, i + 1) =~= self
                        .latency_window@.subrange(0, i as int).push(self.latency_window@[i as int]));
                    assert(lats@ =~= snapshot_latencies(
                        self.latency_window@.subrange(0, i + 1),
                        self.start_us,
                    ));
                }
                i = i + 1;
            }
            proof {
                assert(self.latency_window@.subrange(0, self.latency_window@.len() as int)
                    =~= self.latency_window@);
            }
            self.last_snapshot_us = now_us;
            let elapsed = now_us - self.start_us;
            let rpm = rps * 60;
            return StepAction::Emit(
                UiData::new(elapsed, self.total_count, self.success_count, lats, rps, rpm),
            );
        }
        StepAction::Continue
    }
}

} // verus!
