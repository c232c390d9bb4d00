//! What holds of percentiles of samples in any order: how many samples lie on either side.

use crate::number::datum::Datum;
use vstd::prelude::*;
use vstd::seq_lib::*;

verus! {

/// The sum of the weights of all elements.
pub open spec fn total<T>(s: Seq<T>, weight: spec_fn(T) -> nat) -> nat
    decreases s.len(),
{
    if s.len() == 0 {
        0
    } else {
        total(s.drop_last(), weight) + weight(s.last())
    }
}

/// The sum over two sequences in a row.
pub proof fn lemma_total_sum<T>(a: Seq<T>, b: Seq<T>, weight: spec_fn(T) -> nat)
    ensures
        total(a + b, weight) == total(a, weight) + total(b, weight),
    decreases b.len(),
{
    if b.len() == 0 {
        assert(a + b =~= a);
    } else {
        lemma_total_sum(a, b.drop_last(), weight);
        assert((a + b).drop_last() =~= a + b.drop_last());
    }
}

/// The sum without one element.
pub proof fn lemma_total_remove<T>(s: Seq<T>, i: int, weight: spec_fn(T) -> nat)
    requires
        0 <= i < s.len(),
    ensures
        total(s, weight) == total(s.remove(i), weight) + weight(s[i]),
{
    let front = s.take(i + 1);
    lemma_total_sum(front, s.skip(i + 1), weight);
    lemma_total_sum(s.take(i), s.skip(i + 1), weight);
    assert(front + s.skip(i + 1) =~= s);
    assert(s.take(i) + s.skip(i + 1) =~= s.remove(i));
    assert(front.drop_last() =~= s.take(i));
}

/// The sum does not depend on the order.
pub proof fn lemma_total_permutation<T>(a: Seq<T>, b: Seq<T>, weight: spec_fn(T) -> nat)
    requires
        a.to_multiset() == b.to_multiset(),
    ensures
        total(a, weight) == total(b, weight),
    decreases a.len(),
{
    broadcast use group_to_multiset_ensures;

    assert(a.len() == a.to_multiset().len());
    assert(b.len() == b.to_multiset().len());
    if a.len() > 0 {
        let x = a.last();
        assert(a.contains(x));
        assert(b.to_multiset().count(x) > 0);
        assert(b.contains(x));
        let k = choose|k: int| 0 <= k < b.len() && b[k] == x;
        assert(a.remove(a.len() - 1) =~= a.drop_last());
        assert(a.drop_last().to_multiset() =~= b.remove(k).to_multiset());
        lemma_total_permutation(a.drop_last(), b.remove(k), weight);
        lemma_total_remove(b, k, weight);
    }
}

/// Weights that are nowhere larger add up to no more.
pub proof fn lemma_total_order<T>(s: Seq<T>, low: spec_fn(T) -> nat, high: spec_fn(T) -> nat)
    requires
        forall|i: int| 0 <= i < s.len() ==> low(#[trigger] s[i]) <= high(s[i]),
    ensures
        total(s, low) <= total(s, high),
    decreases s.len(),
{
    if s.len() > 0 {
        let front = s.drop_last();
        assert forall|i: int| 0 <= i < front.len() implies low(#[trigger] front[i]) <= high(
            front[i],
        ) by {
            assert(front[i] == s[i]);
        }
        lemma_total_order(front, low, high);
        assert(s[s.len() - 1] == s.last());
    }
}

/// Weights that are the same everywhere have the same sum.
pub proof fn lemma_total_same<T>(s: Seq<T>, weight: spec_fn(T) -> nat, other: spec_fn(T) -> nat)
    requires
        forall|i: int| 0 <= i < s.len() ==> weight(#[trigger] s[i]) == other(s[i]),
    ensures
        total(s, weight) == total(s, other),
{
    lemma_total_order(s, weight, other);
    lemma_total_order(s, other, weight);
}

/// How many samples are at most `v`.
pub open spec fn count_up_to(samples: Seq<u64>, v: u64) -> nat {
    total(
        samples,
        |x: u64|
            if x <= v {
                1nat
            } else {
                0nat
            },
    )
}

/// How many samples are less than `v`.
pub open spec fn count_below(samples: Seq<u64>, v: u64) -> nat {
    total(
        samples,
        |x: u64|
            if x < v {
                1nat
            } else {
                0nat
            },
    )
}

/// A rank held inside the samples.
pub open spec fn held_rank(rank: nat, n: nat) -> nat {
    if rank == 0 {
        1
    } else if rank > n {
        n
    } else {
        rank
    }
}

/// Whether `v` is the sample of the given rank: one of them, with at least `rank` samples up to it
/// and fewer than `rank` below it.
pub open spec fn has_rank(samples: Seq<u64>, rank: nat, v: u64) -> bool {
    &&& samples.contains(v)
    &&& count_up_to(samples, v) >= held_rank(rank, samples.len())
    &&& count_below(samples, v) < held_rank(rank, samples.len())
}

/// The rank `ceil(p * n)` of the percentile `p` among `n` samples.
pub open spec fn rank_of(p: Datum, n: nat) -> nat {
    p.times(Datum::of_nat(n)).rounded_up(u64::MAX as nat)
}

/// At most one sample has a rank.
pub proof fn lemma_rank_unique(samples: Seq<u64>, rank: nat, v: u64, w: u64)
    requires
        has_rank(samples, rank, v),
        has_rank(samples, rank, w),
    ensures
        v == w,
{
    if v < w {
        lemma_counts_between(samples, v, w);
    }
    if w < v {
        lemma_counts_between(samples, w, v);
    }
}

proof fn lemma_counts_between(samples: Seq<u64>, v: u64, w: u64)
    requires
        v < w,
    ensures
        count_up_to(samples, v) <= count_below(samples, w),
{
    lemma_total_order(
        samples,
        |x: u64|
            if x <= v {
                1nat
            } else {
                0nat
            },
        |x: u64|
            if x < w {
                1nat
            } else {
                0nat
            },
    );
}

/// The counts do not depend on the order.
pub proof fn lemma_counts_permutation(a: Seq<u64>, b: Seq<u64>, v: u64)
    requires
        a.to_multiset() == b.to_multiset(),
    ensures
        count_up_to(a, v) == count_up_to(b, v),
        count_below(a, v) == count_below(b, v),
        a.len() == b.len(),
        a.contains(v) == b.contains(v),
{
    broadcast use group_to_multiset_ensures;

    assert(a.len() == a.to_multiset().len());
    assert(b.len() == b.to_multiset().len());
    assert(a.contains(v) <==> a.to_multiset().count(v) > 0);
    assert(b.contains(v) <==> b.to_multiset().count(v) > 0);
    lemma_total_permutation(
        a,
        b,
        |x: u64|
            if x <= v {
                1nat
            } else {
                0nat
            },
    );
    lemma_total_permutation(
        a,
        b,
        |x: u64|
            if x < v {
                1nat
            } else {
                0nat
            },
    );
}

/// Weights of at most one add up to no more than there are elements.
proof fn lemma_total_bounds<T>(s: Seq<T>, weight: spec_fn(T) -> nat)
    ensures
        (forall|i: int| 0 <= i < s.len() ==> weight(#[trigger] s[i]) == 0) ==> total(s, weight)
            == 0,
        (forall|i: int| 0 <= i < s.len() ==> weight(#[trigger] s[i]) == 1) ==> total(s, weight)
            == s.len(),
        (forall|i: int| 0 <= i < s.len() ==> weight(#[trigger] s[i]) <= 1) ==> total(s, weight)
            <= s.len(),
    decreases s.len(),
{
    if s.len() > 0 {
        let front = s.drop_last();
        assert(forall|i: int| 0 <= i < front.len() ==> #[trigger] front[i] == s[i]);
        assert(s[s.len() - 1] == s.last());
        lemma_total_bounds(front, weight);
    }
}

/// Among sorted samples the one at index `k` has the rank `k + 1`.
pub proof fn lemma_sorted_rank(sorted: Seq<u64>, k: int)
    requires
        0 <= k < sorted.len(),
        forall|i: int, j: int| 0 <= i <= j < sorted.len() ==> sorted[i] <= sorted[j],
    ensures
        has_rank(sorted, (k + 1) as nat, sorted[k]),
{
    let v = sorted[k];
    let up_to = |x: u64|
        if x <= v {
            1nat
        } else {
            0nat
        };
    let below = |x: u64|
        if x < v {
            1nat
        } else {
            0nat
        };
    let front = sorted.take(k + 1);
    lemma_total_sum(front, sorted.skip(k + 1), up_to);
    assert(front + sorted.skip(k + 1) =~= sorted);
    assert forall|i: int| 0 <= i < front.len() implies up_to(#[trigger] front[i]) == 1 by {
        assert(front[i] == sorted[i]);
    }
    lemma_total_bounds(front, up_to);
    let first = sorted.take(k);
    let rest = sorted.skip(k);
    lemma_total_sum(first, rest, below);
    assert(first + rest =~= sorted);
    assert forall|i: int| 0 <= i < rest.len() implies below(#[trigger] rest[i]) == 0 by {
        assert(rest[i] == sorted[k + i]);
    }
    lemma_total_bounds(rest, below);
    lemma_total_bounds(first, below);
    assert(count_up_to(sorted, v) == total(sorted, up_to));
    assert(count_below(sorted, v) == total(sorted, below));
}

/// The nearest-rank method: the percentile `p` of `n` sorted samples is a sample with at least
/// `ceil(p * n)` samples up to it and fewer than that below it, where a rank outside the samples
/// counts as the nearer end.
pub proof fn law_percentile_has_rank(sorted: Seq<u64>, p: Datum)
    requires
        sorted.len() > 0,
        forall|i: int, j: int| 0 <= i <= j < sorted.len() ==> sorted[i] <= sorted[j],
    ensures
        has_rank(sorted, rank_of(p, sorted.len()), crate::gradient2::percentile_value(sorted, p)),
{
    let n = sorted.len();
    let rank = rank_of(p, n);
    lemma_sorted_rank(sorted, held_rank(rank, n) - 1);
}

/// The percentile is what stands at its rank, in whatever order the samples come, and zero where
/// there are none.
pub proof fn law_percentile_stands_at_rank(samples: Seq<u64>, p: Datum)
    ensures
        samples.len() == 0 ==> crate::gradient2::percentile_value(samples, p) == 0,
        samples.len() > 0 ==> crate::gradient2::percentile_value(samples, p) == samples[held_rank(
            rank_of(p, samples.len()),
            samples.len(),
        ) - 1],
{
}

/// The same of samples in any order.
pub proof fn lemma_percentile_of(samples: Seq<u64>, p: Datum)
    requires
        samples.len() > 0,
    ensures
        has_rank(
            samples,
            rank_of(p, samples.len()),
            crate::gradient2::percentile_value(crate::samples::ascending(samples), p),
        ),
{
    let sorted = crate::samples::ascending(samples);
    crate::samples::lemma_ascending_properties(samples);
    law_percentile_has_rank(sorted, p);
    lemma_counts_permutation(
        sorted,
        samples,
        crate::gradient2::percentile_value(sorted, p),
    );
}

} // verus!
