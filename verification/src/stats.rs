//! Statistics aggregation: reduces a completed, ordered set of per-iteration
//! durations to an immutable summary snapshot.
//!
//! All arithmetic is exact integer arithmetic over picosecond counts. The
//! mean, the median of an even-length set and the population variance use
//! truncating division; the standard deviation is the integer square root
//! (floor) of the population variance, and the exact variance is kept in the
//! snapshot beside it.

use vstd::prelude::*;

use crate::time::fine_duration::FineDuration;

verus! {

use vstd::relations::{sorted_by, total_ordering};
use vstd::seq_lib::lemma_sorted_unique;

/// The picosecond counts of a sample sequence, as mathematical integers.
pub open spec fn picos_seq(s: Seq<FineDuration>) -> Seq<int> {
    s.map_values(|d: FineDuration| d.picos as int)
}

/// Sum of the picosecond counts of `s`.
pub open spec fn sum_picos(s: Seq<FineDuration>) -> int
    decreases s.len(),
{
    if s.len() == 0 {
        0
    } else {
        sum_picos(s.drop_last()) + s.last().picos
    }
}

/// Sum of squared deviations of the picosecond counts of `s` from `mean`.
pub open spec fn sq_dev_sum(s: Seq<FineDuration>, mean: int) -> int
    decreases s.len(),
{
    if s.len() == 0 {
        0
    } else {
        sq_dev_sum(s.drop_last(), mean) + (s.last().picos - mean) * (s.last().picos - mean)
    }
}

/// The median picosecond count of `s`: the middle element of the sorted
/// copy for an odd length, the truncated average of the two middle elements
/// for an even length.
pub open spec fn spec_median(s: Seq<FineDuration>) -> int
    recommends
        s.len() >= 1,
{
    let t = picos_seq(s).sort();
    if s.len() % 2 == 1 {
        t[s.len() as int / 2]
    } else {
        (t[s.len() as int / 2 - 1] + t[s.len() as int / 2]) / 2
    }
}

/// The ordered sequence of per-iteration durations collected for one
/// entry's run, immutable once fully collected.
pub struct SampleSet {
    pub samples: Vec<FineDuration>,
}

/// Immutable summary snapshot of one completed sample set, computed exactly
/// once. `variance` is the exact population variance in squared picoseconds;
/// `std_dev` is its integer square root, truncated.
pub struct Statistics {
    pub count: usize,
    pub total: FineDuration,
    pub mean: FineDuration,
    pub min: FineDuration,
    pub max: FineDuration,
    pub median: FineDuration,
    pub variance: u128,
    pub std_dev: FineDuration,
}

/// Every prefix sum is bounded by the sum of the whole sequence.
proof fn lemma_sum_prefix_le(s: Seq<FineDuration>, j: int)
    requires
        0 <= j <= s.len(),
    ensures
        sum_picos(s.subrange(0, j)) <= sum_picos(s),
    decreases s.len() - j,
{
    if j == s.len() {
        assert(s.subrange(0, j) =~= s);
    } else {
        assert(s.subrange(0, j + 1).drop_last() =~= s.subrange(0, j));
        lemma_sum_prefix_le(s, j + 1);
    }
}

/// Extending a prefix by one element adds that element's count to its sum.
proof fn lemma_sum_prefix_step(s: Seq<FineDuration>, j: int)
    requires
        0 <= j < s.len(),
    ensures
        sum_picos(s.subrange(0, j + 1)) == sum_picos(s.subrange(0, j)) + s[j].picos,
{
    assert(s.subrange(0, j + 1).drop_last() =~= s.subrange(0, j));
}

/// Every prefix of the squared-deviation sum is bounded by the whole sum.
proof fn lemma_sq_dev_prefix_le(s: Seq<FineDuration>, mean: int, j: int)
    requires
        0 <= j <= s.len(),
    ensures
        sq_dev_sum(s.subrange(0, j), mean) <= sq_dev_sum(s, mean),
    decreases s.len() - j,
{
    if j == s.len() {
        assert(s.subrange(0, j) =~= s);
    } else {
        assert(s.subrange(0, j + 1).drop_last() =~= s.subrange(0, j));
        assert((s[j].picos - mean) * (s[j].picos - mean) >= 0) by (nonlinear_arith);
        lemma_sq_dev_prefix_le(s, mean, j + 1);
    }
}

/// Extending a prefix by one element adds that element's squared deviation.
proof fn lemma_sq_dev_prefix_step(s: Seq<FineDuration>, mean: int, j: int)
    requires
        0 <= j < s.len(),
    ensures
        sq_dev_sum(s.subrange(0, j + 1), mean) == sq_dev_sum(s.subrange(0, j), mean) + (s[j].picos
            - mean) * (s[j].picos - mean),
{
    assert(s.subrange(0, j + 1).drop_last() =~= s.subrange(0, j));
}

/// A sequence of bounded counts has a sum bounded by `bound` per element.
pub proof fn lemma_sum_bounded(s: Seq<FineDuration>, bound: int)
    requires
        bound >= 0,
        forall|j: int| 0 <= j < s.len() ==> s[j].picos <= bound,
    ensures
        0 <= sum_picos(s) <= bound * s.len(),
    decreases s.len(),
{
    if s.len() == 0 {
    } else {
        assert(forall|j: int| 0 <= j < s.drop_last().len() ==> s.drop_last()[j].picos <= bound);
        lemma_sum_bounded(s.drop_last(), bound);
        assert(bound * (s.len() - 1) + bound == bound * s.len()) by (nonlinear_arith);
    }
}

/// Squared deviations from a mean inside the same bound sum to at most
/// `bound * bound` per element.
pub proof fn lemma_sq_dev_bounded(s: Seq<FineDuration>, mean: int, bound: int)
    requires
        0 <= mean <= bound,
        forall|j: int| 0 <= j < s.len() ==> s[j].picos <= bound,
    ensures
        0 <= sq_dev_sum(s, mean) <= (bound * bound) * s.len(),
    decreases s.len(),
{
    if s.len() == 0 {
    } else {
        assert(forall|j: int| 0 <= j < s.drop_last().len() ==> s.drop_last()[j].picos <= bound);
        lemma_sq_dev_bounded(s.drop_last(), mean, bound);
        let x = s.last().picos as int;
        assert(0 <= (x - mean) * (x - mean) <= bound * bound) by (nonlinear_arith)
            requires
                0 <= x <= bound,
                0 <= mean <= bound,
        ;
        assert((bound * bound) * (s.len() - 1) + bound * bound == (bound * bound) * s.len())
            by (nonlinear_arith);
    }
}

/// Sums the picosecond counts of `samples` in a 128-bit accumulator.
pub fn total_picos(samples: &Vec<FineDuration>) -> (r: u128)
    requires
        sum_picos(samples@) <= u128::MAX,
    ensures
        r == sum_picos(samples@),
{
    let mut acc: u128 = 0;
    let mut idx: usize = 0;
    proof {
        assert(samples@.subrange(0, 0) =~= Seq::<FineDuration>::empty());
    }
    while idx < samples.len()
        invariant
            idx <= samples@.len(),
            acc == sum_picos(samples@.subrange(0, idx as int)),
            sum_picos(samples@) <= u128::MAX,
        decreases samples@.len() - idx,
    {
        proof {
            lemma_sum_prefix_step(samples@, idx as int);
            lemma_sum_prefix_le(samples@, idx as int + 1);
        }
        acc = acc + samples[idx].picos;
        idx = idx + 1;
    }
    proof {
        assert(samples@.subrange(0, samples@.len() as int) =~= samples@);
    }
    acc
}

/// The smallest sample: a member of the set that no sample undercuts.
pub fn min_duration(samples: &Vec<FineDuration>) -> (r: FineDuration)
    requires
        samples@.len() >= 1,
    ensures
        exists|j: int| 0 <= j < samples@.len() && samples@[j].picos == r.picos,
        forall|j: int| 0 <= j < samples@.len() ==> r.picos <= samples@[j].picos,
{
    let mut best: FineDuration = samples[0];
    let mut idx: usize = 1;
    while idx < samples.len()
        invariant
            1 <= idx <= samples@.len(),
            exists|j: int| 0 <= j < idx && samples@[j].picos == best.picos,
            forall|j: int| 0 <= j < idx ==> best.picos <= samples@[j].picos,
        decreases samples@.len() - idx,
    {
        if samples[idx].picos < best.picos {
            best = samples[idx];
        }
        idx = idx + 1;
    }
    best
}

/// The largest sample: a member of the set that no sample exceeds.
pub fn max_duration(samples: &Vec<FineDuration>) -> (r: FineDuration)
    requires
        samples@.len() >= 1,
    ensures
        exists|j: int| 0 <= j < samples@.len() && samples@[j].picos == r.picos,
        forall|j: int| 0 <= j < samples@.len() ==> samples@[j].picos <= r.picos,
{
    let mut best: FineDuration = samples[0];
    let mut idx: usize = 1;
    while idx < samples.len()
        invariant
            1 <= idx <= samples@.len(),
            exists|j: int| 0 <= j < idx && samples@[j].picos == best.picos,
            forall|j: int| 0 <= j < idx ==> samples@[j].picos <= best.picos,
        decreases samples@.len() - idx,
    {
        if samples[idx].picos > best.picos {
            best = samples[idx];
        }
        idx = idx + 1;
    }
    best
}

/// The picosecond counts of a `u128` sequence, as mathematical integers.
pub open spec fn int_seq(s: Seq<u128>) -> Seq<int> {
    s.map_values(|x: u128| x as int)
}

/// Sorts a copy of the samples' picosecond counts, ascending: the result is
/// exactly the sorted permutation of the input counts.
pub fn sorted_picos(samples: &Vec<FineDuration>) -> (r: Vec<u128>)
    ensures
        int_seq(r@) == picos_seq(samples@).sort(),
{
    let mut r: Vec<u128> = Vec::new();
    let mut idx: usize = 0;
    proof {
        assert(picos_seq(samples@.subrange(0, 0)) =~= Seq::<int>::empty());
        assert(int_seq(r@) =~= Seq::<int>::empty());
    }
    while idx < samples.len()
        invariant
            idx <= samples@.len(),
            forall|p: int, q: int| 0 <= p <= q < r@.len() ==> r@[p] <= r@[q],
            int_seq(r@).to_multiset() == picos_seq(samples@.subrange(0, idx as int)).to_multiset(),
            r@.len() == idx,
        decreases samples@.len() - idx,
    {
        let x = samples[idx].picos;
        let mut j: usize = 0;
        while j < r.len() && r[j] <= x
            invariant
                j <= r@.len(),
                forall|t: int| 0 <= t < j ==> r@[t] <= x,
            decreases r@.len() - j,
        {
            j = j + 1;
        }
        let ghost old_r = r@;
        r.insert(j, x);
        proof {
            assert(r@ == old_r.insert(j as int, x));
            assert(int_seq(r@) =~= int_seq(old_r).insert(j as int, x as int));
            vstd::seq_lib::to_multiset_insert(int_seq(old_r), j as int, x as int);
            assert(picos_seq(samples@.subrange(0, idx as int + 1)) =~= picos_seq(
                samples@.subrange(0, idx as int),
            ).push(samples@[idx as int].picos as int));
            vstd::seq_lib::to_multiset_build(
                picos_seq(samples@.subrange(0, idx as int)),
                samples@[idx as int].picos as int,
            );
            let sj = j as int;
            assert forall|p: int, q: int| 0 <= p <= q < r@.len() implies r@[p] <= r@[q] by {
                if q < sj {
                    assert(r@[p] == old_r[p] && r@[q] == old_r[q]);
                } else if p < sj && q == sj {
                    assert(r@[p] == old_r[p] && r@[q] == x);
                } else if p < sj && q > sj {
                    assert(r@[p] == old_r[p] && r@[q] == old_r[q - 1]);
                    assert(old_r[p] <= old_r[q - 1]);
                } else if p == sj && q == sj {
                } else if p == sj && q > sj {
                    assert(r@[p] == x && r@[q] == old_r[q - 1]);
                    assert(x < old_r[sj]);
                    assert(old_r[sj] <= old_r[q - 1]);
                } else {
                    assert(r@[p] == old_r[p - 1] && r@[q] == old_r[q - 1]);
                    assert(old_r[p - 1] <= old_r[q - 1]);
                }
            }
        }
        idx = idx + 1;
    }
    proof {
        assert(samples@.subrange(0, samples@.len() as int) =~= samples@);
        picos_seq(samples@).lemma_sort_ensures();
        let leq = |x: int, y: int| x <= y;
        assert(total_ordering(leq));
        assert forall|p: int, q: int|
            0 <= p <= q < int_seq(r@).len() implies #[trigger] leq(int_seq(r@)[p], int_seq(r@)[q]) by {
            assert(r@[p] <= r@[q]);
        }
        assert(sorted_by(int_seq(r@), leq));
        assert(sorted_by(picos_seq(samples@).sort(), leq));
        lemma_sorted_unique(int_seq(r@), picos_seq(samples@).sort(), leq);
        assert(int_seq(r@) =~= picos_seq(samples@).sort());
    }
    r
}

/// The median of the samples, by sorting a copy.
pub fn median_picos(samples: &Vec<FineDuration>) -> (r: u128)
    requires
        samples@.len() >= 1,
    ensures
        r == spec_median(samples@),
{
    let t = sorted_picos(samples);
    let n = t.len();
    proof {
        assert(int_seq(t@).len() == picos_seq(samples@).sort().len());
        picos_seq(samples@).lemma_sort_ensures();
        picos_seq(samples@).to_multiset_ensures();
        picos_seq(samples@).sort().to_multiset_ensures();
    }
    if n % 2 == 1 {
        t[n / 2]
    } else {
        let a = t[n / 2 - 1];
        let b = t[n / 2];
        let med = a / 2 + b / 2 + (a % 2 + b % 2) / 2;
        proof {
            vstd::arithmetic::div_mod::lemma_fundamental_div_mod(a as int, 2);
            vstd::arithmetic::div_mod::lemma_fundamental_div_mod(b as int, 2);
            vstd::arithmetic::div_mod::lemma_mod_bound(a as int, 2);
            vstd::arithmetic::div_mod::lemma_mod_bound(b as int, 2);
            vstd::arithmetic::div_mod::lemma_fundamental_div_mod_converse(
                a as int + b as int,
                2,
                a as int / 2 + b as int / 2 + (a as int % 2 + b as int % 2) / 2,
                (a as int % 2 + b as int % 2) % 2,
            );
        }
        med
    }
}

/// Integer square root, truncated: the largest `r` with `r * r <= n`.
pub fn isqrt_u128(n: u128) -> (r: u128)
    ensures
        r * r <= n,
        n < (r + 1) * (r + 1),
{
    if n >= 0xFFFFFFFFFFFFFFFE0000000000000001 {
        0xFFFFFFFFFFFFFFFF
    } else {
        let mut lo: u128 = 0;
        let mut hi: u128 = 0xFFFFFFFFFFFFFFFF;
        while hi - lo > 1
            invariant
                lo < hi <= 0xFFFFFFFFFFFFFFFF,
                lo * lo <= n,
                n < hi * hi,
            decreases hi - lo,
        {
            let mid = lo + (hi - lo) / 2;
            proof {
                assert(mid * mid <= 0xFFFFFFFFFFFFFFFF * 0xFFFFFFFFFFFFFFFF) by (nonlinear_arith)
                    requires
                        0 <= mid <= 0xFFFFFFFFFFFFFFFFu128,
                ;
            }
            if mid * mid <= n {
                lo = mid;
            } else {
                hi = mid;
            }
        }
        lo
    }
}

/// Sums the squared deviations of the samples from `mean`.
pub fn sq_dev_total(samples: &Vec<FineDuration>, mean: u128) -> (r: u128)
    requires
        sq_dev_sum(samples@, mean as int) <= u128::MAX,
    ensures
        r == sq_dev_sum(samples@, mean as int),
{
    let mut acc: u128 = 0;
    let mut idx: usize = 0;
    proof {
        assert(samples@.subrange(0, 0) =~= Seq::<FineDuration>::empty());
    }
    while idx < samples.len()
        invariant
            idx <= samples@.len(),
            acc == sq_dev_sum(samples@.subrange(0, idx as int), mean as int),
            sq_dev_sum(samples@, mean as int) <= u128::MAX,
        decreases samples@.len() - idx,
    {
        let x = samples[idx].picos;
        let diff: u128 = if x >= mean {
            x - mean
        } else {
            mean - x
        };
        proof {
            lemma_sq_dev_prefix_step(samples@, mean as int, idx as int);
            lemma_sq_dev_prefix_le(samples@, mean as int, idx as int + 1);
            assert(diff * diff == (x - mean) * (x - mean)) by (nonlinear_arith)
                requires
                    diff == if x >= mean {
                        x - mean
                    } else {
                        mean - x
                    },
            ;
        }
        acc = acc + diff * diff;
        idx = idx + 1;
    }
    proof {
        assert(samples@.subrange(0, samples@.len() as int) =~= samples@);
    }
    acc
}

impl Statistics {
    /// Reduces a completed sample set to its summary snapshot: count, total,
    /// truncated mean, minimum, maximum, median, exact population variance,
    /// and the truncated square root of that variance.
    pub fn from_sample_set(set: &SampleSet) -> (r: Statistics)
        requires
            set.samples@.len() >= 1,
            sum_picos(set.samples@) <= u128::MAX,
            sq_dev_sum(
                set.samples@,
                sum_picos(set.samples@) / set.samples@.len() as int,
            ) <= u128::MAX,
        ensures
            r.count == set.samples@.len(),
            r.total.picos == sum_picos(set.samples@),
            r.mean.picos == sum_picos(set.samples@) / set.samples@.len() as int,
            exists|j: int| 0 <= j < set.samples@.len() && set.samples@[j].picos == r.min.picos,
            forall|j: int| 0 <= j < set.samples@.len() ==> r.min.picos <= set.samples@[j].picos,
            exists|j: int| 0 <= j < set.samples@.len() && set.samples@[j].picos == r.max.picos,
            forall|j: int| 0 <= j < set.samples@.len() ==> set.samples@[j].picos <= r.max.picos,
            r.median.picos == spec_median(set.samples@),
            r.variance == sq_dev_sum(
                set.samples@,
                sum_picos(set.samples@) / set.samples@.len() as int,
            ) / set.samples@.len() as int,
            r.std_dev.picos * r.std_dev.picos <= r.variance,
            r.variance < (r.std_dev.picos + 1) * (r.std_dev.picos + 1),
    {
        let count = set.samples.len();
        let total = total_picos(&set.samples);
        let mean = total / (count as u128);
        let min = min_duration(&set.samples);
        let max = max_duration(&set.samples);
        let median = median_picos(&set.samples);
        let sq_total = sq_dev_total(&set.samples, mean);
        let variance = sq_total / (count as u128);
        let std_dev = isqrt_u128(variance);
        Statistics {
            count,
            total: FineDuration { picos: total },
            mean: FineDuration { picos: mean },
            min,
            max,
            median: FineDuration { picos: median },
            variance,
            std_dev: FineDuration { picos: std_dev },
        }
    }
}

} // verus!
