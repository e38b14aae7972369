//! Latency statistics: sorting a sample and computing percentiles.
//!
//! One percentile rule is used everywhere, for the live dashboard and for the
//! exported charts alike: linear interpolation between the two neighbouring
//! order statistics. The rank of the `p`-th percentile in a sample of `n`
//! sorted values is `p * (n - 1) / 100`; when that rank is not an integer the
//! result interpolates between the values at the two surrounding ranks,
//! weighted by the fractional part (in integer arithmetic, rounding the
//! interpolated value down). An empty sample yields 0.

use vstd::prelude::*;
use vstd::relations::sorted_by;
use vstd::relations::total_ordering;
use vstd::seq_lib::lemma_sorted_unique;

verus! {

/// The order latencies are sorted by: ordinary `<=` on `u64`.
pub open spec fn leq_u64() -> spec_fn(u64, u64) -> bool {
    |x: u64, y: u64| x <= y
}

/// Nondecreasing order.
pub open spec fn is_sorted(s: Seq<u64>) -> bool {
    forall|i: int, j: int| 0 <= i < j < s.len() ==> s[i] <= s[j]
}

/// The sorted permutation of `s`.
pub open spec fn sorted_seq(s: Seq<u64>) -> Seq<u64> {
    s.sort_by(leq_u64())
}

proof fn lemma_leq_u64_total_ordering()
    ensures
        total_ordering(leq_u64()),
{
    assert forall|x: u64| #[trigger] leq_u64()(x, x) by {}
    assert forall|x: u64, y: u64| #[trigger] leq_u64()(x, y) && #[trigger] leq_u64()(y, x)
        implies x == y by {}
    assert forall|x: u64, y: u64, z: u64|
        #[trigger] leq_u64()(x, y) && #[trigger] leq_u64()(y, z) implies leq_u64()(x, z) by {}
    assert forall|x: u64, y: u64| #[trigger] leq_u64()(x, y) || #[trigger] leq_u64()(y, x) by {}
}

/// Return a sorted copy of `data`: exactly the sorted permutation of the
/// input, which keeps every element with its multiplicity.
pub fn sorted_copy(data: &Vec<u64>) -> (r: Vec<u64>)
    ensures
        r@ == sorted_seq(data@),
        is_sorted(r@),
        r@.to_multiset() == data@.to_multiset(),
        r@.len() == data@.len(),
{
    let mut out: Vec<u64> = Vec::new();
    proof {
        assert(out@ =~= data@.subrange(0, 0));
    }
    let mut i: usize = 0;
    while i < data.len()
        invariant
            i <= data.len(),
            is_sorted(out@),
            out@.to_multiset() == data@.subrange(0, i as int).to_multiset(),
            out@.len() == i,
        decreases data.len() - i,
    {
        let x = data[i];
        let ghost prev = out@;
        let mut j: usize = 0;
        while j < out.len() && out[j] <= x
            invariant
                j <= out.len(),
                out@ == prev,
                forall|k: int| 0 <= k < j ==> out@[k] <= x,
            decreases out.len() - j,
        {
            j = j + 1;
        }
        out.insert(j, x);
        proof {
            broadcast use vstd::seq_lib::to_multiset_insert;

            prev.insert_ensures(j as int, x);
            assert(is_sorted(out@)) by {
                assert forall|a: int, b: int| 0 <= a < b < out@.len() implies out@[a]
                    <= out@[b] by {
                    if b < j {
                        assert(out@[a] == prev[a] && out@[b] == prev[b]);
                    } else if a > j {
                        assert(out@[a] == prev[a - 1] && out@[b] == prev[b - 1]);
                    } else if a < j && b == j {
                        assert(out@[a] == prev[a] && out@[b] == x);
                    } else if a == j && b > j {
                        assert(out@[a] == x && out@[b] == prev[b - 1]);
                        assert(!(prev[j as int] <= x));
                        assert(j < b - 1 + 1 <= prev.len());
                        assert(prev[j as int] <= prev[b - 1]);
                    } else if a < j && b > j {
                        assert(out@[a] == prev[a] && out@[b] == prev[b - 1]);
                        assert(!(prev[j as int] <= x));
                    }
                }
            }
            assert(data@.subrange(0, i + 1) =~= data@.subrange(0, i as int).push(x));
            broadcast use vstd::seq_lib::to_multiset_build;

        }
        i = i + 1;
    }
    proof {
        assert(data@.subrange(0, data@.len() as int) =~= data@);
        data@.lemma_sort_by_ensures(leq_u64());
        lemma_leq_u64_total_ordering();
        assert(sorted_by(out@, leq_u64()));
        assert(sorted_by(sorted_seq(data@), leq_u64()));
        lemma_sorted_unique(out@, sorted_seq(data@), leq_u64());
    }
    out
}

/// The percentile of a sorted sample under linear interpolation, in exact
/// integer arithmetic: with `rank = pct * (len - 1)` in hundredths, the
/// result lies between the values at ranks `rank / 100` and `rank / 100 + 1`,
/// weighted by `rank % 100`. An empty sample yields 0.
pub open spec fn spec_percentile(s: Seq<u64>, pct: int) -> int {
    if s.len() == 0 {
        0
    } else {
        let rank = pct * (s.len() - 1);
        let lo = rank / 100;
        let w = rank % 100;
        if w == 0 {
            s[lo] as int
        } else {
            (s[lo] * (100 - w) + s[lo + 1] * w) / 100
        }
    }
}

/// Compute the `pct`-th percentile (0 to 100) of an already sorted sample.
pub fn percentile(data: &Vec<u64>, pct: u64) -> (r: u64)
    requires
        pct <= 100,
    ensures
        r as int == spec_percentile(data@, pct as int),
{
    if data.len() == 0 {
        return 0;
    }
    let n: u128 = data.len() as u128;
    proof {
        assert((pct as int) * (n as int - 1) <= 100 * (n as int - 1)) by (nonlinear_arith)
            requires
                0 <= pct as int <= 100,
                n as int >= 1,
        ;
    }
    let rank: u128 = (pct as u128) * (n - 1);
    proof {
        vstd::arithmetic::div_mod::lemma_div_is_ordered(rank as int, 100 * (n as int - 1), 100);
        vstd::arithmetic::div_mod::lemma_div_multiples_vanish(n as int - 1, 100);
        assert(rank as int / 100 <= n as int - 1);
    }
    let lo: usize = (rank / 100) as usize;
    let w: u128 = rank % 100;
    if w == 0 {
        data[lo]
    } else {
        proof {
            vstd::arithmetic::div_mod::lemma_fundamental_div_mod(rank as int, 100);
            assert(rank as int / 100 < n as int - 1) by (nonlinear_arith)
                requires
                    rank as int == 100 * (rank as int / 100) + (rank as int % 100),
                    0 < rank as int % 100 < 100,
                    rank as int <= 100 * (n as int - 1),
            ;
        }
        let a: u128 = data[lo] as u128;
        let b: u128 = data[lo + 1] as u128;
        proof {
            let m = u64::MAX as int;
            assert((a as int) * (100 - w as int) + (b as int) * (w as int) <= m * 100)
                by (nonlinear_arith)
                requires
                    0 <= a as int <= m,
                    0 <= b as int <= m,
                    0 < (w as int) < 100,
            ;
            vstd::arithmetic::div_mod::lemma_div_is_ordered(
                (a as int) * (100 - w as int) + (b as int) * (w as int),
                m * 100,
                100,
            );
            vstd::arithmetic::div_mod::lemma_div_multiples_vanish(m, 100);
        }
        let v: u128 = (a * (100 - w) + b * w) / 100;
        v as u64
    }
}

/// For a sample of one element, every percentile equals that element: the
/// rank is always 0, so P50, P90 and P99 of a single latency all return it.
pub proof fn lemma_percentile_single(s: Seq<u64>, pct: int)
    requires
        s.len() == 1,
        0 <= pct <= 100,
    ensures
        spec_percentile(s, pct) == s[0],
{
    assert(pct * (s.len() - 1) == 0) by (nonlinear_arith)
        requires
            s.len() == 1,
    ;
}

} // verus!
