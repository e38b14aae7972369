//! Chart series derived from a run's history.
//!
//! Each exported chart is a pure function of the collected outcome records;
//! these functions compute the data series and leave the drawing to the
//! caller. Times are measured relative to the start of the first record,
//! saturating at zero for the rare record that started earlier; records are
//! grouped into 100 ms buckets or whole seconds. Percentile tracks use the
//! same linear-interpolation percentile as the live dashboard.

use vstd::prelude::*;

use crate::metrics::Metrics;
use crate::stats::percentile;
use crate::stats::sorted_copy;
use crate::stats::sorted_seq;
use crate::stats::spec_percentile;

verus! {

/// Which records a cumulative series counts: those whose status matches the
/// expected code, those whose status differs from it, or every record.
#[derive(Clone, Copy, Debug, PartialEq, Eq, Structural)]
pub enum StatusFilter {
    Matching(u16),
    NotMatching(u16),
    All,
}

/// Whether a record with status `status` passes the filter.
pub open spec fn passes(filter: StatusFilter, status: u16) -> bool {
    match filter {
        StatusFilter::Matching(c) => status == c,
        StatusFilter::NotMatching(c) => status != c,
        StatusFilter::All => true,
    }
}

/// Microseconds from the first record's start to this record's start,
/// saturating at zero.
pub open spec fn rel_us(m: Metrics, first: u64) -> int {
    if m.start_us >= first {
        m.start_us - first
    } else {
        0
    }
}

/// The 100 ms bucket a record falls in.
pub open spec fn bucket_of(m: Metrics, first: u64) -> int {
    rel_us(m, first) / 100_000
}

/// The whole second a record falls in.
pub open spec fn second_of(m: Metrics, first: u64) -> int {
    rel_us(m, first) / 1_000_000
}

/// The largest 100 ms bucket among records passing the filter; 0 when none
/// passes.
pub open spec fn max_pass_bucket(s: Seq<Metrics>, first: u64, filter: StatusFilter) -> int
    decreases s.len(),
{
    if s.len() == 0 {
        0
    } else {
        let p = max_pass_bucket(s.drop_last(), first, filter);
        if passes(filter, s.last().status_code) && bucket_of(s.last(), first) > p {
            bucket_of(s.last(), first)
        } else {
            p
        }
    }
}

/// How many records pass the filter and fall in bucket `b` or earlier.
pub open spec fn count_le_bucket(s: Seq<Metrics>, first: u64, filter: StatusFilter, b: int) -> int
    decreases s.len(),
{
    if s.len() == 0 {
        0
    } else {
        count_le_bucket(s.drop_last(), first, filter, b) + if passes(
            filter,
            s.last().status_code,
        ) && bucket_of(s.last(), first) <= b {
            1int
        } else {
            0int
        }
    }
}

/// How many records fall in bucket `b` exactly.
pub open spec fn count_in_bucket(s: Seq<Metrics>, first: u64, b: int) -> int
    decreases s.len(),
{
    if s.len() == 0 {
        0
    } else {
        count_in_bucket(s.drop_last(), first, b) + if bucket_of(s.last(), first) == b {
            1int
        } else {
            0int
        }
    }
}

/// The summed latency of the records in bucket `b`, in microseconds.
pub open spec fn sum_in_bucket(s: Seq<Metrics>, first: u64, b: int) -> int
    decreases s.len(),
{
    if s.len() == 0 {
        0
    } else {
        sum_in_bucket(s.drop_last(), first, b) + if bucket_of(s.last(), first) == b {
            s.last().response_time_us as int
        } else {
            0int
        }
    }
}

/// The average-latency rows for buckets `0 .. end`: one `(bucket, mean
/// latency in ms)` row per nonempty bucket, in bucket order, the mean taken
/// with integer division.
pub open spec fn avg_rows(s: Seq<Metrics>, first: u64, end: int) -> Seq<(u64, u64)>
    decreases end,
{
    if end <= 0 {
        Seq::empty()
    } else {
        let p = avg_rows(s, first, end - 1);
        if count_in_bucket(s, first, end - 1) > 0 {
            p.push(
                (
                    ((end - 1) as u64),
                    ((sum_in_bucket(s, first, end - 1) / count_in_bucket(s, first, end - 1)
                        / 1000) as u64),
                ),
            )
        } else {
            p
        }
    }
}

/// A bucket index never exceeds `u64::MAX / 100_000`.
pub proof fn lemma_max_pass_bucket_le(s: Seq<Metrics>, first: u64, filter: StatusFilter)
    ensures
        0 <= max_pass_bucket(s, first, filter),
        max_pass_bucket(s, first, filter) <= u64::MAX as int / 100_000,
    decreases s.len(),
{
    if s.len() > 0 {
        lemma_max_pass_bucket_le(s.drop_last(), first, filter);
        vstd::arithmetic::div_mod::lemma_div_is_ordered(
            rel_us(s.last(), first),
            u64::MAX as int,
            100_000,
        );
    }
}

/// Cumulative request counts per 100 ms bucket, over the records passing
/// `filter`: row `k` is `(k, number of passing records in buckets 0..=k)`,
/// for every bucket up to the last one containing a passing record (or row 0
/// alone when none does, mirroring a cumulative chart that starts at zero).
pub fn cumulative_series(metrics: &Vec<Metrics>, filter: StatusFilter) -> (r: Vec<(u64, u64)>)
    requires
        metrics@.len() > 0,
    ensures
        r@.len() == max_pass_bucket(metrics@, metrics@[0].start_us, filter) + 1,
        forall|k: int|
            0 <= k < r@.len() ==> #[trigger] r@[k] == (
                (k as u64),
                (count_le_bucket(metrics@, metrics@[0].start_us, filter, k) as u64),
            ),
{
    let first = metrics[0].start_us;
    let ghost s = metrics@;

    // The highest bucket containing a passing record.
    let mut maxb: u64 = 0;
    let mut i: usize = 0;
    while i < metrics.len()
        invariant
            0 <= i <= s.len(),
            s == metrics@,
            first == s[0].start_us,
            maxb == max_pass_bucket(s.subrange(0, i as int), first, filter),
        decreases s.len() - i,
    {
        let m = metrics[i];
        let rel = if m.start_us >= first {
            m.start_us - first
        } else {
            0
        };
        let b = rel / 100_000;
        let keep = match filter {
            StatusFilter::Matching(c) => m.status_code == c,
            StatusFilter::NotMatching(c) => m.status_code != c,
            StatusFilter::All => true,
        };
        proof {
            assert(s.subrange(0, i + 1).drop_last() =~= s.subrange(0, i as int));
            assert(s.subrange(0, i + 1).last() == s[i as int]);
        }
        if keep && b > maxb {
            maxb = b;
        }
        i = i + 1;
    }
    proof {
        assert(s.subrange(0, s.len() as int) =~= s);
        lemma_max_pass_bucket_le(s, first, filter);
    }

    // One cumulative row per bucket.
    let mut rows: Vec<(u64, u64)> = Vec::new();
    let mut b: u64 = 0;
    while b <= maxb
        invariant
            0 <= b <= maxb + 1,
            maxb == max_pass_bucket(s, first, filter),
            maxb <= u64::MAX as int / 100_000,
            s == metrics@,
            first == s[0].start_us,
            s.len() > 0,
            rows@.len() == b,
            forall|k: int|
                0 <= k < b ==> #[trigger] rows@[k] == (
                    (k as u64),
                    (count_le_bucket(s, first, filter, k) as u64),
                ),
        decreases maxb + 1 - b,
    {
        let mut cnt: u64 = 0;
        let mut i: usize = 0;
        while i < metrics.len()
            invariant
                0 <= i <= s.len(),
                s == metrics@,
                first == s[0].start_us,
                cnt == count_le_bucket(s.subrange(0, i as int), first, filter, b as int),
                cnt <= i,
            decreases s.len() - i,
        {
            let m = metrics[i];
            let rel = if m.start_us >= first {
                m.start_us - first
            } else {
                0
            };
            let mb = rel / 100_000;
            let keep = match filter {
                StatusFilter::Matching(c) => m.status_code == c,
                StatusFilter::NotMatching(c) => m.status_code != c,
                StatusFilter::All => true,
            };
            proof {
                assert(s.subrange(0, i + 1).drop_last() =~= s.subrange(0, i as int));
                assert(s.subrange(0, i + 1).last() == s[i as int]);
            }
            if keep && mb <= b {
                cnt = cnt + 1;
            }
            i = i + 1;
        }
        proof {
            assert(s.subrange(0, s.len() as int) =~= s);
        }
        rows.push((b, cnt));
        b = b + 1;
    }
    rows
}

/// Mean latency per 100 ms bucket: one `(bucket, mean latency in ms)` row
/// per bucket that holds at least one record, in bucket order, with the
/// mean taken by integer division over the bucket's latencies.
pub fn average_response_time_series(metrics: &Vec<Metrics>) -> (r: Vec<(u64, u64)>)
    requires
        metrics@.len() > 0,
    ensures
        r@ == avg_rows(
            metrics@,
            metrics@[0].start_us,
            max_pass_bucket(metrics@, metrics@[0].start_us, StatusFilter::All) + 1,
        ),
{
    let first = metrics[0].start_us;
    let ghost s = metrics@;

    let mut maxb: u64 = 0;
    let mut i: usize = 0;
    while i < metrics.len()
        invariant
            0 <= i <= s.len(),
            s == metrics@,
            first == s[0].start_us,
            maxb == max_pass_bucket(s.subrange(0, i as int), first, StatusFilter::All),
        decreases s.len() - i,
    {
        let m = metrics[i];
        let rel = if m.start_us >= first {
            m.start_us - first
        } else {
            0
        };
        let b = rel / 100_000;
        proof {
            assert(s.subrange(0, i + 1).drop_last() =~= s.subrange(0, i as int));
            assert(s.subrange(0, i + 1).last() == s[i as int]);
        }
        if b > maxb {
            maxb = b;
        }
        i = i + 1;
    }
    proof {
        assert(s.subrange(0, s.len() as int) =~= s);
        lemma_max_pass_bucket_le(s, first, StatusFilter::All);
    }

    let mut rows: Vec<(u64, u64)> = Vec::new();
    let mut b: u64 = 0;
    while b <= maxb
        invariant
            0 <= b <= maxb + 1,
            maxb == max_pass_bucket(s, first, StatusFilter::All),
            maxb <= u64::MAX as int / 100_000,
            s == metrics@,
            first == s[0].start_us,
            s.len() > 0,
            rows@ == avg_rows(s, first, b as int),
        decreases maxb + 1 - b,
    {
        let mut cnt: u64 = 0;
        let mut sum: u128 = 0;
        let mut i: usize = 0;
        while i < metrics.len()
            invariant
                0 <= i <= s.len(),
                s == metrics@,
                first == s[0].start_us,
                cnt == count_in_bucket(s.subrange(0, i as int), first, b as int),
                sum == sum_in_bucket(s.subrange(0, i as int), first, b as int),
                cnt <= i,
                sum <= cnt * (u64::MAX as int),
            decreases s.len() - i,
        {
            let m = metrics[i];
            let rel = if m.start_us >= first {
                m.start_us - first
            } else {
                0
            };
            let mb = rel / 100_000;
            proof {
                assert(s.subrange(0, i + 1).drop_last() =~= s.subrange(0, i as int));
                assert(s.subrange(0, i + 1).last() == s[i as int]);
                let c = cnt as int;
                let mx = u64::MAX as int;
                assert(c * mx + mx == (c + 1) * mx) by (nonlinear_arith);
                assert((c + 1) * mx <= (i + 1) * mx) by (nonlinear_arith)
                    requires
                        c <= i as int,
                        mx >= 0,
                ;
                assert((i + 1) * mx < (0x10000000000000000int) * mx) by (nonlinear_arith)
                    requires
                        0 <= (i as int) < 0xFFFFFFFFFFFFFFFFint,
                        mx > 0,
                ;
                assert((0x10000000000000000int) * mx < 0x100000000000000000000000000000000int);
            }
            if mb == b {
                cnt = cnt + 1;
                sum = sum + (m.response_time_us as u128);
            }
            i = i + 1;
        }
        proof {
            assert(s.subrange(0, s.len() as int) =~= s);
        }
        if cnt > 0 {
            proof {
                let mx = u64::MAX as int;
                vstd::arithmetic::div_mod::lemma_div_is_ordered(
                    sum as int,
                    (cnt as int) * mx,
                    cnt as int,
                );
                vstd::arithmetic::div_mod::lemma_div_multiples_vanish(mx, cnt as int);
                assert(sum as int / (cnt as int) <= mx);
                vstd::arithmetic::div_mod::lemma_div_is_ordered(
                    sum as int / (cnt as int),
                    mx,
                    1000,
                );
            }
            let mean_ms: u128 = sum / (cnt as u128) / 1000;
            rows.push((b, mean_ms as u64));
        }
        b = b + 1;
    }
    rows
}

/// The largest whole second any record falls in; 0 when there are none.
pub open spec fn max_second(s: Seq<Metrics>, first: u64) -> int
    decreases s.len(),
{
    if s.len() == 0 {
        0
    } else {
        let p = max_second(s.drop_last(), first);
        if second_of(s.last(), first) > p {
            second_of(s.last(), first)
        } else {
            p
        }
    }
}

/// How many records fall in second `sec`.
pub open spec fn count_in_second(s: Seq<Metrics>, first: u64, sec: int) -> int
    decreases s.len(),
{
    if s.len() == 0 {
        0
    } else {
        count_in_second(s.drop_last(), first, sec) + if second_of(s.last(), first) == sec {
            1int
        } else {
            0int
        }
    }
}

/// The latencies of the records in second `sec`, in record order.
pub open spec fn second_lats(s: Seq<Metrics>, first: u64, sec: int) -> Seq<u64>
    decreases s.len(),
{
    if s.len() == 0 {
        Seq::empty()
    } else {
        second_lats(s.drop_last(), first, sec) + if second_of(s.last(), first) == sec {
            seq![s.last().response_time_us]
        } else {
            Seq::empty()
        }
    }
}

/// A second index never exceeds `u64::MAX / 1_000_000`.
pub proof fn lemma_max_second_le(s: Seq<Metrics>, first: u64)
    ensures
        0 <= max_second(s, first),
        max_second(s, first) <= u64::MAX as int / 1_000_000,
    decreases s.len(),
{
    if s.len() > 0 {
        lemma_max_second_le(s.drop_last(), first);
        vstd::arithmetic::div_mod::lemma_div_is_ordered(
            rel_us(s.last(), first),
            u64::MAX as int,
            1_000_000,
        );
    }
}

/// Requests per second of the run: entry `k` is the number of records whose
/// start fell in second `k`, for every second up to the last one holding a
/// record.
pub fn requests_per_second_series(metrics: &Vec<Metrics>) -> (r: Vec<u64>)
    requires
        metrics@.len() > 0,
    ensures
        r@.len() == max_second(metrics@, metrics@[0].start_us) + 1,
        forall|k: int|
            0 <= k < r@.len() ==> #[trigger] r@[k] == (count_in_second(
                metrics@,
                metrics@[0].start_us,
                k,
            ) as u64),
{
    let first = metrics[0].start_us;
    let ghost s = metrics@;

    let mut maxs: u64 = 0;
    let mut i: usize = 0;
    while i < metrics.len()
        invariant
            0 <= i <= s.len(),
            s == metrics@,
            first == s[0].start_us,
            maxs == max_second(s.subrange(0, i as int), first),
        decreases s.len() - i,
    {
        let m = metrics[i];
        let rel = if m.start_us >= first {
            m.start_us - first
        } else {
            0
        };
        let sec = rel / 1_000_000;
        proof {
            assert(s.subrange(0, i + 1).drop_last() =~= s.subrange(0, i as int));
            assert(s.subrange(0, i + 1).last() == s[i as int]);
        }
        if sec > maxs {
            maxs = sec;
        }
        i = i + 1;
    }
    proof {
        assert(s.subrange(0, s.len() as int) =~= s);
        lemma_max_second_le(s, first);
    }

    let mut counts: Vec<u64> = Vec::new();
    let mut sec: u64 = 0;
    while sec <= maxs
        invariant
            0 <= sec <= maxs + 1,
            maxs == max_second(s, first),
            maxs <= u64::MAX as int / 1_000_000,
            s == metrics@,
            first == s[0].start_us,
            s.len() > 0,
            counts@.len() == sec,
            forall|k: int|
                0 <= k < sec ==> #[trigger] counts@[k] == (count_in_second(s, first, k) as u64),
        decreases maxs + 1 - sec,
    {
        let mut cnt: u64 = 0;
        let mut i: usize = 0;
        while i < metrics.len()
            invariant
                0 <= i <= s.len(),
                s == metrics@,
                first == s[0].start_us,
                cnt == count_in_second(s.subrange(0, i as int), first, sec as int),
                cnt <= i,
            decreases s.len() - i,
        {
            let m = metrics[i];
            let rel = if m.start_us >= first {
                m.start_us - first
            } else {
                0
            };
            let msec = rel / 1_000_000;
            proof {
                assert(s.subrange(0, i + 1).drop_last() =~= s.subrange(0, i as int));
                assert(s.subrange(0, i + 1).last() == s[i as int]);
            }
            if msec == sec {
                cnt = cnt + 1;
            }
            i = i + 1;
        }
        proof {
            assert(s.subrange(0, s.len() as int) =~= s);
        }
        counts.push(cnt);
        sec = sec + 1;
    }
    counts
}

/// One percentile-track row: the second, and the P50, P90 and P99 of that
/// second's latencies in milliseconds, computed by the shared
/// linear-interpolation percentile over the sorted latencies.
pub open spec fn pct_row(s: Seq<Metrics>, first: u64, sec: int) -> (u64, u64, u64, u64) {
    let srt = sorted_seq(second_lats(s, first, sec));
    (
        (sec as u64),
        ((spec_percentile(srt, 50) / 1000) as u64),
        ((spec_percentile(srt, 90) / 1000) as u64),
        ((spec_percentile(srt, 99) / 1000) as u64),
    )
}

/// The percentile-track rows for seconds `0 .. end`: one row per second
/// that holds at least one record, in order.
pub open spec fn pct_rows(s: Seq<Metrics>, first: u64, end: int) -> Seq<(u64, u64, u64, u64)>
    decreases end,
{
    if end <= 0 {
        Seq::empty()
    } else {
        let p = pct_rows(s, first, end - 1);
        if second_lats(s, first, end - 1).len() > 0 {
            p.push(pct_row(s, first, end - 1))
        } else {
            p
        }
    }
}

/// Latency percentile tracks per second of the run: for each second that
/// holds at least one record, in order, the P50, P90 and P99 of its
/// latencies in milliseconds. An empty history yields no rows.
pub fn latency_percentile_rows(metrics: &Vec<Metrics>) -> (r: Vec<(u64, u64, u64, u64)>)
    ensures
        metrics@.len() == 0 ==> r@.len() == 0,
        metrics@.len() > 0 ==> r@ == pct_rows(
            metrics@,
            metrics@[0].start_us,
            max_second(metrics@, metrics@[0].start_us) + 1,
        ),
{
    let mut rows: Vec<(u64, u64, u64, u64)> = Vec::new();
    if metrics.len() == 0 {
        return rows;
    }
    let first = metrics[0].start_us;
    let ghost s = metrics@;

    let mut maxs: u64 = 0;
    let mut i: usize = 0;
    while i < metrics.len()
        invariant
            0 <= i <= s.len(),
            s == metrics@,
            first == s[0].start_us,
            maxs == max_second(s.subrange(0, i as int), first),
        decreases s.len() - i,
    {
        let m = metrics[i];
        let rel = if m.start_us >= first {
            m.start_us - first
        } else {
            0
        };
        let sec = rel / 1_000_000;
        proof {
            assert(s.subrange(0, i + 1).drop_last() =~= s.subrange(0, i as int));
            assert(s.subrange(0, i + 1).last() == s[i as int]);
        }
        if sec > maxs {
            maxs = sec;
        }
        i = i + 1;
    }
    proof {
        assert(s.subrange(0, s.len() as int) =~= s);
        lemma_max_second_le(s, first);
    }

    let mut sec: u64 = 0;
    while sec <= maxs
        invariant
            0 <= sec <= maxs + 1,
            maxs == max_second(s, first),
            maxs <= u64::MAX as int / 1_000_000,
            s == metrics@,
            first == s[0].start_us,
            s.len() > 0,
            rows@ == pct_rows(s, first, sec as int),
        decreases maxs + 1 - sec,
    {
        let mut lats: Vec<u64> = Vec::new();
        let mut i: usize = 0;
        proof {
            assert(lats@ =~= second_lats(s.subrange(0, 0), first, sec as int));
        }
        while i < metrics.len()
            invariant
                0 <= i <= s.len(),
                s == metrics@,
                first == s[0].start_us,
                lats@ == second_lats(s.subrange(0, i as int), first, sec as int),
            decreases s.len() - i,
        {
            let m = metrics[i];
            let rel = if m.start_us >= first {
                m.start_us - first
            } else {
                0
            };
            let msec = rel / 1_000_000;
            proof {
                assert(s.subrange(0, i + 1).drop_last() =~= s.subrange(0, i as int));
                assert(s.subrange(0, i + 1).last() == s[i as int]);
            }
            if msec == sec {
                lats.push(m.response_time_us);
                proof {
                    assert(lats@ =~= second_lats(s.subrange(0, i as int), first,
                        sec as int) + seq![s[i as int].response_time_us]);
                }
            }
            i = i + 1;
        }
        proof {
            assert(s.subrange(0, s.len() as int) =~= s);
        }
        if lats.len() > 0 {
            let srt = sorted_copy(&lats);
            let p50 = percentile(&srt, 50) / 1000;
            let p90 = percentile(&srt, 90) / 1000;
            let p99 = percentile(&srt, 99) / 1000;
            rows.push((sec, p50, p90, p99));
            proof {
                assert((sec, p50, p90, p99) == pct_row(s, first, sec as int));
            }
        }
        sec = sec + 1;
    }
    rows
}

} // verus!
