//! The histogram: 64 saturating counters and a mask of the occupied buckets.

use vstd::arithmetic::power2::*;
use vstd::bits::*;
use vstd::prelude::*;
use vstd::std_specs::bits::*;

use crate::bucket::{
    bucket_index, has_bit, is_bucket, lemma_leading_zeros,
    occupied_below, ones_below, recorded, Bucket, BUCKETS, TOP_BUCKET,
};

verus! {

/// Relies on `u64::count_ones`: the number of ones in the binary form of `x`.
pub assume_specification[ u64::count_ones ](x: u64) -> (r: u32)
    ensures
        r as nat == ones_below(x, 64),
;

/// A histogram of `u64` observations with 64 power-of-two buckets.
///
/// Its view is the sequence of the 64 counters, bucket `i` at position `i`.
pub struct Base2Histogram {
    counts: [u64; BUCKETS],
    mask: u64,
}

impl View for Base2Histogram {
    type V = Seq<u64>;

    closed spec fn view(&self) -> Seq<u64> {
        self.counts@
    }
}

/// Bit `i` of `mask` is set exactly where counter `i` is nonzero.
pub open spec fn mask_matches(mask: u64, counts: Seq<u64>) -> bool {
    forall|i: int| 0 <= i < BUCKETS ==> (#[trigger] has_bit(mask, i) <==> counts[i] != 0)
}

proof fn lemma_set_bit(m: u64, i: u64, j: u64)
    by (bit_vector)
    requires
        i < 64,
        j < 64,
    ensures
        ((m | (1u64 << i)) >> j) & 1u64 == 1u64 <==> ((m >> j) & 1u64 == 1u64 || j == i),
{
}

proof fn lemma_test_bit(m: u64, i: u64)
    by (bit_vector)
    requires
        i < 64,
    ensures
        (m & (1u64 << i) != 0u64) <==> ((m >> i) & 1u64 == 1u64),
{
}

proof fn lemma_ones_match_occupied(mask: u64, counts: Seq<u64>, n: int)
    requires
        0 <= n <= BUCKETS,
        mask_matches(mask, counts),
    ensures
        ones_below(mask, n) == occupied_below(counts, n),
    decreases n,
{
    if n > 0 {
        lemma_ones_match_occupied(mask, counts, n - 1);
        assert(has_bit(mask, n - 1) <==> counts[n - 1] != 0);
    }
}

impl Base2Histogram {
    #[verifier::type_invariant]
    spec fn well_formed(&self) -> bool {
        mask_matches(self.mask, self.counts@)
    }

    /// The view always holds one counter per bucket.
    pub proof fn lemma_view_len(&self)
        ensures
            self@.len() == BUCKETS,
    {
    }

    /// Creates an empty histogram: every counter is zero.
    pub fn new() -> (h: Self)
        ensures
            h@ == Seq::new(BUCKETS as nat, |i: int| 0u64),
    {
        let counts = [0u64; BUCKETS];
        proof {
            assert forall|i: int| 0 <= i < BUCKETS implies !#[trigger] has_bit(0u64, i) by {
                let j = i as u64;
                assert((0u64 >> j) & 1u64 == 0u64) by (bit_vector);
            }
            assert(counts@ =~= Seq::new(BUCKETS as nat, |i: int| 0u64));
        }
        Base2Histogram { counts, mask: 0u64 }
    }

    /// Index of the bucket that covers `value`.
    fn index_of(&self, value: u64) -> (r: usize)
        ensures
            r as int == bucket_index(value),
            r < BUCKETS,
    {
        let clz = value.leading_zeros();
        proof {
            lemma_leading_zeros(value);
            axiom_u64_leading_zeros(value);
        }
        if clz == 0 {
            TOP_BUCKET
        } else {
            (64 - clz) as usize
        }
    }

    /// The bucket at index `idx`, with its current count.
    fn bucket_at(&self, idx: usize) -> (r: Bucket)
        requires
            idx < BUCKETS,
        ensures
            is_bucket(r, self@, idx as int),
    {
        if idx == 0 {
            Bucket { start: 0, end: 0, count: self.counts[0] }
        } else {
            let shift = (idx - 1) as u64;
            proof {
                lemma_u64_pow2_no_overflow(shift as nat);
                lemma_u64_pow2_no_overflow((shift + 1) as nat);
                lemma_pow2_unfold((shift + 1) as nat);
                lemma_u64_shl_is_mul(1u64, shift);
            }
            let start = 1u64 << shift;
            let end = start - 1 + start;
            Bucket { start, end, count: self.counts[idx] }
        }
    }

    /// Records one observation of `value`.
    pub fn record(&mut self, value: u64)
        ensures
            final(self)@ == recorded(old(self)@, value, 1),
    {
        self.record_n(value, 1);
    }

    /// Records `count` observations of `value`. The counter of its bucket
    /// saturates at `u64::MAX`.
    ///
    /// The bucket's mask bit is set whenever its counter ends up nonzero, so
    /// recording zero observations into an empty bucket leaves it empty.
    pub fn record_n(&mut self, value: u64, count: u64)
        ensures
            final(self)@ == recorded(old(self)@, value, count),
    {
        proof {
            use_type_invariant(&*self);
        }
        let idx = self.index_of(value);
        let updated = self.counts[idx].saturating_add(count);
        let mut counts = self.counts;
        counts[idx] = updated;
        let mask = if updated != 0 {
            self.mask | (1u64 << (idx as u64))
        } else {
            self.mask
        };
        proof {
            assert forall|i: int| 0 <= i < BUCKETS implies (#[trigger] has_bit(mask, i)
                <==> counts@[i] != 0) by {
                assert(has_bit(self.mask, i) <==> self.counts@[i] != 0);
                if updated != 0 {
                    lemma_set_bit(self.mask, idx as u64, i as u64);
                }
            }
        }
        *self = Base2Histogram { counts, mask };
    }

    /// The count of the bucket that covers `value`.
    pub fn observations(&self, value: u64) -> (r: u64)
        ensures
            r == self@[bucket_index(value)],
    {
        let idx = self.index_of(value);
        self.counts[idx]
    }

    /// The bucket that covers `value`, with its current count.
    pub fn bucket_for(&self, value: u64) -> (r: Bucket)
        ensures
            is_bucket(r, self@, bucket_index(value)),
    {
        let idx = self.index_of(value);
        self.bucket_at(idx)
    }

    /// Number of buckets that hold at least one observation.
    pub fn nonzero_buckets(&self) -> (r: u32)
        ensures
            r as nat == occupied_below(self@, BUCKETS as int),
    {
        proof {
            use_type_invariant(self);
            lemma_ones_match_occupied(self.mask, self.counts@, BUCKETS as int);
        }
        self.mask.count_ones()
    }

    /// Whether the bucket that covers `value` holds at least one observation.
    pub fn has_counts(&self, value: u64) -> (r: bool)
        ensures
            r == (self@[bucket_index(value)] != 0),
    {
        proof {
            use_type_invariant(self);
        }
        let idx = self.index_of(value) as u64;
        proof {
            lemma_test_bit(self.mask, idx);
            assert(has_bit(self.mask, idx as int) <==> self.counts@[idx as int] != 0);
        }
        self.mask & (1u64 << idx) != 0
    }

    /// All 64 buckets, in ascending order of index and of start, with their
    /// current counts. The buckets are returned by value in a fixed-size
    /// array, so nothing is allocated and each call starts afresh.
    pub fn iter(&self) -> (r: [Bucket; BUCKETS])
        ensures
            forall|i: int| 0 <= i < BUCKETS ==> is_bucket(#[trigger] r@[i], self@, i),
            forall|i: int, j: int| 0 <= i < j < BUCKETS ==> r@[i].start < r@[j].start,
    {
        let mut out = [Bucket { start: 0, end: 0, count: 0 }; BUCKETS];
        let mut idx: usize = 0;
        while idx < BUCKETS
            invariant
                idx <= BUCKETS,
                forall|i: int| 0 <= i < idx ==> is_bucket(#[trigger] out@[i], self@, i),
            decreases BUCKETS - idx,
        {
            out[idx] = self.bucket_at(idx);
            idx += 1;
        }
        proof {
            assert forall|i: int, j: int| 0 <= i < j < BUCKETS implies out@[i].start
                < out@[j].start by {
                assert(is_bucket(out@[i], self@, i));
                assert(is_bucket(out@[j], self@, j));
                lemma_pow2_pos((j - 1) as nat);
                if i > 0 {
                    lemma_pow2_strictly_increases((i - 1) as nat, (j - 1) as nat);
                }
            }
        }
        out
    }
}

} // verus!
