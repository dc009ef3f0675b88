//! Bucket boundaries and the mapping from a value to its bucket.

use vstd::arithmetic::power2::*;
use vstd::prelude::*;
use vstd::std_specs::bits::*;

verus! {

/// Number of buckets in every histogram.
pub const BUCKETS: usize = 64;

/// Index of the bucket that absorbs every value from `2^62` upward.
pub const TOP_BUCKET: usize = 63;

/// A bucket: the closed range `[start, end]` and the observations counted in it.
///
/// The top bucket is open upward: its `end` reads `2^63 - 1`, yet every value
/// up to `u64::MAX` is counted there.
#[derive(Clone, Copy, Debug)]
pub struct Bucket {
    /// Smallest value of the range, inclusive.
    pub start: u64,
    /// Largest value of the range, inclusive (nominal for the top bucket).
    pub end: u64,
    /// Number of observations counted in the bucket.
    pub count: u64,
}

/// Number of binary digits of `v`: zero for zero, otherwise the position of the
/// highest set bit plus one.
pub open spec fn bit_length(v: nat) -> nat
    decreases v,
{
    if v == 0 {
        0
    } else {
        1 + bit_length(v / 2)
    }
}

/// The bucket that `v` is counted in: its bit length, with everything of 63
/// bits or more folded into the top bucket.
pub open spec fn bucket_index(v: u64) -> int {
    if bit_length(v as nat) >= TOP_BUCKET {
        TOP_BUCKET as int
    } else {
        bit_length(v as nat) as int
    }
}

/// Smallest value of bucket `i`.
pub open spec fn bucket_start(i: int) -> int {
    if i <= 0 {
        0
    } else {
        pow2((i - 1) as nat) as int
    }
}

/// Stored upper bound of bucket `i`.
pub open spec fn bucket_end(i: int) -> int {
    if i <= 0 {
        0
    } else {
        2 * pow2((i - 1) as nat) - 1
    }
}

/// `b` is bucket `i` of a histogram whose counters are `counts`.
pub open spec fn is_bucket(b: Bucket, counts: Seq<u64>, i: int) -> bool {
    &&& b.start == bucket_start(i)
    &&& b.end == bucket_end(i)
    &&& b.count == counts[i]
}

/// Bit `i` of `m` is set.
pub open spec fn has_bit(m: u64, i: int) -> bool {
    (m >> (i as u64)) & 1u64 == 1u64
}

/// Number of set bits among the lowest `n` bits of `m`.
pub open spec fn ones_below(m: u64, n: int) -> nat
    decreases n,
{
    if n <= 0 {
        0
    } else {
        ones_below(m, n - 1) + if has_bit(m, n - 1) {
            1nat
        } else {
            0nat
        }
    }
}

/// Number of nonzero counters among the first `n` of `counts`.
pub open spec fn occupied_below(counts: Seq<u64>, n: int) -> nat
    decreases n,
{
    if n <= 0 {
        0
    } else {
        occupied_below(counts, n - 1) + if counts[n - 1] != 0 {
            1nat
        } else {
            0nat
        }
    }
}

/// `a + b`, pinned at `u64::MAX` where the sum does not fit.
pub open spec fn saturating_sum(a: u64, b: u64) -> u64 {
    if a + b > u64::MAX {
        u64::MAX
    } else {
        (a + b) as u64
    }
}

/// The counters after `count` observations of `value` are added to `counts`.
pub open spec fn recorded(counts: Seq<u64>, value: u64, count: u64) -> Seq<u64> {
    let i = bucket_index(value);
    counts.update(i, saturating_sum(counts[i], count))
}

pub(crate) proof fn lemma_bit_length_bounds(v: nat)
    requires
        v > 0,
    ensures
        pow2((bit_length(v) - 1) as nat) <= v < pow2(bit_length(v)),
    decreases v,
{
    let h = v / 2;
    lemma_pow2_unfold(bit_length(v));
    if h > 0 {
        lemma_bit_length_bounds(h);
        lemma_pow2_unfold(bit_length(h));
        assert(v == 2 * h || v == 2 * h + 1);
    } else {
        lemma2_to64();
    }
}

pub(crate) proof fn lemma_leading_zeros(v: u64)
    ensures
        u64_leading_zeros(v) == 64 - bit_length(v as nat),
    decreases v,
{
    reveal(u64_leading_zeros);
    if v != 0 {
        lemma_leading_zeros(v / 2);
    }
}

} // verus!
