//! Sliding time windows.
//!
//! Both aggregator windows are sequences of `(timestamp, value)` pairs with
//! nondecreasing timestamps, evicted from the front only: an entry is dropped
//! once it is older than a fixed horizon relative to the time of the latest
//! insertion. Because eviction only ever inspects the front, it is correct as
//! long as timestamps arrive in nondecreasing order.

use std::collections::VecDeque;
use vstd::prelude::*;

verus! {

/// Timestamps appear in nondecreasing order.
pub open spec fn ts_sorted(w: Seq<(u64, u64)>) -> bool {
    forall|i: int, j: int| 0 <= i < j < w.len() ==> w[i].0 <= w[j].0
}

/// Every timestamp lies in `[lo, hi]`.
pub open spec fn ts_bounded(w: Seq<(u64, u64)>, lo: u64, hi: u64) -> bool {
    forall|i: int| 0 <= i < w.len() ==> lo <= #[trigger] w[i].0 && w[i].0 <= hi
}

/// Drop entries from the front while they are older than `horizon` relative
/// to `now`.
pub open spec fn evict_front(w: Seq<(u64, u64)>, now: u64, horizon: u64) -> Seq<(u64, u64)>
    decreases w.len(),
{
    if w.len() > 0 && now - w[0].0 > horizon {
        evict_front(w.drop_first(), now, horizon)
    } else {
        w
    }
}

/// The sum of the values of all entries.
pub open spec fn counts_sum(w: Seq<(u64, u64)>) -> int
    decreases w.len(),
{
    if w.len() == 0 {
        0
    } else {
        counts_sum(w.drop_last()) + w.last().1
    }
}

/// The sum of the values of the entries whose timestamp is within `recent`
/// of `now`.
pub open spec fn recent_sum(w: Seq<(u64, u64)>, now: u64, recent: u64) -> int
    decreases w.len(),
{
    if w.len() == 0 {
        0
    } else {
        recent_sum(w.drop_last(), now, recent) + if now - w.last().0 <= recent {
            w.last().1 as int
        } else {
            0
        }
    }
}

/// Extend the newest slot if `now` still falls within `slot_width` of its
/// start, else open a fresh slot of value 1 at `now`.
pub open spec fn bump_or_push(w: Seq<(u64, u64)>, now: u64, slot_width: u64) -> Seq<(u64, u64)> {
    if w.len() > 0 && now - w.last().0 < slot_width {
        w.update(w.len() - 1, (w.last().0, (w.last().1 + 1) as u64))
    } else {
        w.push((now, 1u64))
    }
}

/// Eviction keeps a suffix of the window. Given nondecreasing timestamps no
/// survivor is older than the horizon, and an entry as fresh as `now` itself
/// always survives as the last entry.
pub proof fn lemma_evict_front(w: Seq<(u64, u64)>, now: u64, horizon: u64)
    requires
        ts_sorted(w),
    ensures
        evict_front(w, now, horizon).len() <= w.len(),
        evict_front(w, now, horizon) == w.subrange(
            w.len() - evict_front(w, now, horizon).len(),
            w.len() as int,
        ),
        forall|i: int|
            0 <= i < evict_front(w, now, horizon).len() ==> now - (#[trigger] evict_front(
                w,
                now,
                horizon,
            )[i]).0 <= horizon,
        w.len() > 0 && now - w.last().0 <= horizon ==> evict_front(w, now, horizon).len() > 0
            && evict_front(w, now, horizon).last() == w.last(),
    decreases w.len(),
{
    let e = evict_front(w, now, horizon);
    if w.len() > 0 && now - w[0].0 > horizon {
        lemma_evict_front(w.drop_first(), now, horizon);
        assert(w.drop_first().subrange(
            w.drop_first().len() - e.len(),
            w.drop_first().len() as int,
        ) =~= w.subrange(w.len() - e.len(), w.len() as int));
        if w.len() > 1 {
            assert(w.drop_first().last() == w.last());
        }
    } else {
        assert(e =~= w.subrange(w.len() - e.len(), w.len() as int));
        if w.len() > 0 {
            assert(forall|i: int|
                0 <= i < w.len() ==> w[0].0 <= (#[trigger] w[i]).0);
        }
    }
}

/// Each entry's value is at most the sum of all values.
pub proof fn lemma_counts_sum_ge_elem(w: Seq<(u64, u64)>, i: int)
    requires
        0 <= i < w.len(),
    ensures
        w[i].1 <= counts_sum(w),
    decreases w.len(),
{
    if i == w.len() - 1 {
        lemma_counts_sum_nonneg(w.drop_last());
    } else {
        lemma_counts_sum_ge_elem(w.drop_last(), i);
        assert(w.drop_last()[i] == w[i]);
    }
}

/// Sums of entry values are nonnegative.
pub proof fn lemma_counts_sum_nonneg(w: Seq<(u64, u64)>)
    ensures
        counts_sum(w) >= 0,
    decreases w.len(),
{
    if w.len() > 0 {
        lemma_counts_sum_nonneg(w.drop_last());
    }
}

/// A suffix of a window sums to no more than the whole window.
pub proof fn lemma_counts_sum_suffix(w: Seq<(u64, u64)>, k: int)
    requires
        0 <= k <= w.len(),
    ensures
        counts_sum(w.subrange(k, w.len() as int)) <= counts_sum(w),
    decreases w.len(),
{
    if k == 0 {
        assert(w.subrange(0, w.len() as int) =~= w);
    } else if w.len() > 0 {
        if k == w.len() {
            lemma_counts_sum_nonneg(w);
        } else {
            assert(w.subrange(k, w.len() as int).drop_last() =~= w.drop_last().subrange(
                k,
                w.drop_last().len() as int,
            ));
            assert(w.subrange(k, w.len() as int).last() == w.last());
            lemma_counts_sum_suffix(w.drop_last(), k);
        }
    }
}

/// The recent-entries sum never exceeds the sum over the whole window.
pub proof fn lemma_recent_sum_le_counts_sum(w: Seq<(u64, u64)>, now: u64, recent: u64)
    ensures
        0 <= recent_sum(w, now, recent),
        recent_sum(w, now, recent) <= counts_sum(w),
    decreases w.len(),
{
    if w.len() > 0 {
        lemma_recent_sum_le_counts_sum(w.drop_last(), now, recent);
    }
}

/// Extending or opening a slot raises the window's sum by exactly one.
pub proof fn lemma_bump_or_push_sum(w: Seq<(u64, u64)>, now: u64, slot_width: u64)
    requires
        forall|i: int| 0 <= i < w.len() ==> (#[trigger] w[i]).1 < u64::MAX,
    ensures
        counts_sum(bump_or_push(w, now, slot_width)) == counts_sum(w) + 1,
{
    let b = bump_or_push(w, now, slot_width);
    if w.len() > 0 && now - w.last().0 < slot_width {
        assert(b.drop_last() =~= w.drop_last());
        assert(b.last().1 == w.last().1 + 1);
    } else {
        assert(b.drop_last() =~= w);
    }
}

/// Drop stale entries from the front of a window, in place: afterwards the
/// window is exactly `evict_front` of what it was.
pub fn evict_stale(w: &mut VecDeque<(u64, u64)>, now: u64, horizon: u64)
    requires
        ts_sorted(old(w)@),
        ts_bounded(old(w)@, 0, now),
    ensures
        final(w)@ == evict_front(old(w)@, now, horizon),
{
    while w.len() > 0 && now - w[0].0 > horizon
        invariant
            ts_sorted(w@),
            ts_bounded(w@, 0, now),
            evict_front(w@, now, horizon) == evict_front(old(w)@, now, horizon),
        decreases w@.len(),
    {
        let ghost before = w@;
        w.pop_front();
        proof {
            assert(w@ =~= before.drop_first());
        }
    }
}

/// Sum the values of the entries within `recent` of `now`.
pub fn sum_recent(w: &VecDeque<(u64, u64)>, now: u64, recent: u64) -> (r: u64)
    requires
        ts_bounded(w@, 0, now),
        counts_sum(w@) <= u64::MAX,
    ensures
        r == recent_sum(w@, now, recent),
{
    let mut r: u64 = 0;
    let mut i: usize = 0;
    while i < w.len()
        invariant
            0 <= i <= w@.len(),
            ts_bounded(w@, 0, now),
            counts_sum(w@) <= u64::MAX,
            r == recent_sum(w@.subrange(0, i as int), now, recent),
        decreases w@.len() - i,
    {
        let e = w[i];
        proof {
            assert(w@.subrange(0, i + 1).drop_last() =~= w@.subrange(0, i as int));
            assert(w@.subrange(0, i + 1).last() == w@[i as int]);
            lemma_recent_sum_le_counts_sum(w@.subrange(0, i + 1), now, recent);
            lemma_counts_sum_prefix(w@, i + 1);
        }
        if now - e.0 <= recent {
            r = r + e.1;
        }
        i = i + 1;
    }
    proof {
        assert(w@.subrange(0, w@.len() as int) =~= w@);
    }
    r
}

/// A prefix of a window sums to no more than the whole window.
pub proof fn lemma_counts_sum_prefix(w: Seq<(u64, u64)>, k: int)
    requires
        0 <= k <= w.len(),
    ensures
        counts_sum(w.subrange(0, k)) <= counts_sum(w),
    decreases w.len(),
{
    if k == w.len() {
        assert(w.subrange(0, k) =~= w);
    } else if w.len() > 0 {
        assert(w.subrange(0, k) =~= w.drop_last().subrange(0, k));
        lemma_counts_sum_prefix(w.drop_last(), k);
    }
}

} // verus!
