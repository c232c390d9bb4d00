//! The Gradient2 concurrency limit calculation.

use crate::number::binary64::Binary64;
use crate::number::datum::Datum;
use vstd::prelude::*;

verus! {

/// Parameters for the Gradient2 concurrency limit calculation.
#[derive(Clone, Copy, Debug)]
pub struct Gradient2Params {
    pub current_limit: u32,
    pub min_rtt_ns: u64,
    pub sample_rtt_ns: u64,
    pub min_limit: u32,
    pub max_limit: u32,
    pub max_gradient: Binary64,
    pub min_rtt_buffer_pct: Binary64,
}

/// Result of a Gradient2 calculation, including the intermediate gradient value.
#[derive(Clone, Copy, Debug)]
pub struct Gradient2Result {
    pub new_limit: u32,
    pub gradient: Binary64,
}

/// `n`, moved to the nearer end where it lies outside `low..=high`.
pub open spec fn clamped(n: nat, low: nat, high: nat) -> nat {
    if n < low {
        low
    } else if n > high {
        high
    } else {
        n
    }
}

impl Gradient2Params {
    /// Whether both round-trip times are known.
    pub open spec fn measured(self) -> bool {
        self.min_rtt_ns != 0 && self.sample_rtt_ns != 0
    }

    /// Whether the ranges to clamp to are not empty, where the calculation clamps at all.
    pub open spec fn computable(self) -> bool {
        self.measured() ==> {
            &&& self.min_limit <= self.max_limit
            &&& Datum::of_ratio(1, 2).at_most(self.max_gradient@)
        }
    }

    /// `min_rtt * (1 + buffer_pct)`
    pub open spec fn buffered_min_rtt(self) -> Datum {
        Datum::of_nat(self.min_rtt_ns as nat).times(
            Datum::of_nat(1).plus(self.min_rtt_buffer_pct@),
        )
    }

    /// `clamp(buffered_min_rtt / sample_rtt, 0.5, max_gradient)`
    pub open spec fn gradient(self) -> Datum {
        if self.measured() {
            self.buffered_min_rtt().over(Datum::of_nat(self.sample_rtt_ns as nat)).clamped(
                Datum::of_ratio(1, 2),
                self.max_gradient@,
            )
        } else {
            Datum::of_nat(1)
        }
    }

    /// `clamp(current_limit * gradient + sqrt(current_limit), min, max)`
    pub open spec fn new_limit(self) -> nat {
        if self.measured() {
            let current = self.current_limit as nat;
            let raw = Datum::of_nat(current).times(self.gradient()).plus(Datum::root(current));
            clamped(
                raw.rounded(u32::MAX as nat),
                self.min_limit as nat,
                self.max_limit as nat,
            )
        } else {
            self.current_limit as nat
        }
    }
}

/// Calculate a new concurrency limit using the Gradient2 algorithm.
///
/// The algorithm computes:
///   buffered_min_rtt = min_rtt * (1 + buffer_pct)
///   gradient = clamp(buffered_min_rtt / sample_rtt, 0.5, max_gradient)
///   headroom = sqrt(current_limit)
///   new_limit = clamp(current_limit * gradient + headroom, min, max)
pub fn calculate_new_limit(params: &Gradient2Params) -> (r: Gradient2Result)
    requires
        params.computable(),
    ensures
        r.new_limit == params.new_limit(),
        r.gradient@ == params.gradient(),
        params.measured() ==> params.min_limit <= r.new_limit <= params.max_limit,
        !params.measured() ==> r.new_limit == params.current_limit,
{
    if params.min_rtt_ns == 0 || params.sample_rtt_ns == 0 {
        return Gradient2Result {
            new_limit: params.current_limit,
            gradient: Binary64::from_u64(1),
        };
    }
    let one = Binary64::from_u64(1);
    let buffered_min_rtt = Binary64::from_u64(params.min_rtt_ns).times(
        one.plus(params.min_rtt_buffer_pct),
    );
    let gradient = buffered_min_rtt.over(Binary64::from_u64(params.sample_rtt_ns)).clamp(
        Binary64::from_ratio(1, 2),
        params.max_gradient,
    );
    let headroom = Binary64::root_of(params.current_limit);
    let raw = Binary64::from_u64(params.current_limit as u64).times(gradient).plus(headroom);
    let rounded: u64 = raw.round();
    let whole: u32 = if rounded > u32::MAX as u64 {
        u32::MAX
    } else {
        rounded as u32
    };
    let new_limit: u32 = if whole < params.min_limit {
        params.min_limit
    } else if whole > params.max_limit {
        params.max_limit
    } else {
        whole
    };
    Gradient2Result { new_limit, gradient }
}

/// The index of the percentile `p` among `n` sorted samples, by the nearest-rank method: one
/// less than the rank `ceil(p * n)`, held inside the samples.
pub open spec fn percentile_index(n: nat, p: Datum) -> nat
    recommends
        n > 0,
{
    let rank = p.times(Datum::of_nat(n)).rounded_up(u64::MAX as nat);
    if rank == 0 {
        0
    } else if rank > n {
        (n - 1) as nat
    } else {
        (rank - 1) as nat
    }
}

/// The value at the percentile `p` of sorted samples, zero where there are none.
pub open spec fn percentile_value(samples: Seq<u64>, p: Datum) -> u64 {
    if samples.len() == 0 {
        0
    } else {
        samples[percentile_index(samples.len(), p) as int]
    }
}

/// Compute the value at a given percentile from a sorted slice of samples.
/// Uses nearest-rank method. `p` should be in [0.0, 1.0].
pub fn percentile(sorted_samples: &[u64], p: Binary64) -> (r: u64)
    ensures
        r == percentile_value(sorted_samples@, p@),
{
    if sorted_samples.len() == 0 {
        return 0;
    }
    if sorted_samples.len() == 1 {
        return sorted_samples[0];
    }
    let rank: u64 = p.times(Binary64::from_u64(sorted_samples.len() as u64)).round_up();
    let last: usize = sorted_samples.len() - 1;
    let idx: usize = if rank == 0 {
        0
    } else if rank - 1 > last as u64 {
        last
    } else {
        (rank - 1) as usize
    };
    sorted_samples[idx]
}

} // verus!
