//! Latency samples in ascending order.

use vstd::prelude::*;
use vstd::relations::*;
use vstd::seq_lib::*;

verus! {

/// The samples in ascending order.
pub open spec fn ascending(samples: Seq<u64>) -> Seq<u64> {
    samples.sort_by(|x: u64, y: u64| x <= y)
}

/// A sequence in ascending order with the same samples is the one.
pub proof fn lemma_ascending(samples: Seq<u64>, sorted: Seq<u64>)
    requires
        sorted.to_multiset() == samples.to_multiset(),
        forall|i: int, j: int| 0 <= i < j < sorted.len() ==> sorted[i] <= sorted[j],
    ensures
        sorted == ascending(samples),
{
    let leq = |x: u64, y: u64| x <= y;
    assert(total_ordering(leq));
    samples.lemma_sort_by_ensures(leq);
    assert(sorted_by(sorted, leq));
    lemma_sorted_unique(sorted, ascending(samples), leq);
}

/// `ascending` keeps the samples and puts them in order.
pub proof fn lemma_ascending_properties(samples: Seq<u64>)
    ensures
        ascending(samples).len() == samples.len(),
        ascending(samples).to_multiset() == samples.to_multiset(),
        forall|i: int, j: int|
            0 <= i <= j < samples.len() ==> #[trigger] ascending(samples)[i]
                <= #[trigger] ascending(samples)[j],
        forall|i: int|
            0 <= i < samples.len() ==> samples.contains(#[trigger] ascending(samples)[i]),
{
    let leq = |x: u64, y: u64| x <= y;
    let sorted = ascending(samples);
    assert(total_ordering(leq));
    samples.lemma_sort_by_ensures(leq);
    broadcast use vstd::seq_lib::group_to_multiset_ensures;

    assert(sorted.len() == sorted.to_multiset().len());
    assert(samples.len() == samples.to_multiset().len());
    assert forall|i: int, j: int| 0 <= i <= j < samples.len() implies #[trigger] sorted[i]
        <= #[trigger] sorted[j] by {
        if i < j {
            assert(leq(sorted[i], sorted[j]));
        }
    }
    assert forall|i: int| 0 <= i < samples.len() implies samples.contains(
        #[trigger] sorted[i],
    ) by {
        assert(sorted.contains(sorted[i]));
    }
}

/// Sorts samples with `sort_unstable` of std's slices, which is documented to put a slice
/// in ascending order: the same samples come out, each as often as it went in.
#[verifier::external_body]
fn sort_unstable(samples: &mut Vec<u64>)
    ensures
        final(samples)@.to_multiset() == old(samples)@.to_multiset(),
        forall|i: int, j: int|
            0 <= i < j < final(samples)@.len() ==> final(samples)@[i] <= final(samples)@[j],
{
    samples.sort_unstable();
}

/// Puts samples in ascending order.
pub fn sort_samples(samples: &mut Vec<u64>)
    ensures
        final(samples)@ == ascending(old(samples)@),
{
    let ghost before = samples@;
    sort_unstable(samples);
    proof {
        lemma_ascending(before, samples@);
    }
}

} // verus!
