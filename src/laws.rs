//! Facts about bucket placement and about recording, stated over the spec
//! functions that the histogram's contracts use.

use vstd::arithmetic::power2::*;
use vstd::bits::lemma_u64_pow2_no_overflow;
use vstd::prelude::*;

use crate::bucket::{
    bit_length, bucket_end, bucket_index, bucket_start, lemma_bit_length_bounds, occupied_below,
    recorded, saturating_sum, BUCKETS, TOP_BUCKET,
};

verus! {

/// A value of `pow2(k)` or more, below `pow2(k + 1)`, has `k + 1` binary digits.
proof fn lemma_bit_length_between(v: nat, k: nat)
    requires
        pow2(k) <= v < pow2(k + 1),
    ensures
        bit_length(v) == k + 1,
{
    lemma_pow2_pos(k);
    lemma_bit_length_bounds(v);
    let b = bit_length(v);
    if b > k + 1 {
        lemma_pow2_strictly_increases(k + 1, (b - 1) as nat);
    } else if b < k + 1 {
        if b < k {
            lemma_pow2_strictly_increases(b, k);
        }
    }
}

/// Every value lies in a bucket of index `0..=63` whose start is not above it,
/// and whose end is not below it unless it is the open-ended top bucket.
pub proof fn lemma_value_in_bucket(v: u64)
    ensures
        0 <= bucket_index(v) < BUCKETS,
        bucket_start(bucket_index(v)) <= v,
        v <= bucket_end(bucket_index(v)) || bucket_index(v) == TOP_BUCKET,
{
    if v > 0 {
        lemma_bit_length_bounds(v as nat);
        let k = bit_length(v as nat);
        lemma_pow2_unfold(k);
        if k > TOP_BUCKET {
            lemma_pow2_strictly_increases(62, (k - 1) as nat);
        }
    }
}

/// Zero and one each have a bucket of their own, `[0, 0]` and `[1, 1]`.
pub proof fn lemma_zero_and_one_are_singletons()
    ensures
        bucket_index(0) == 0,
        bucket_start(0) == 0 && bucket_end(0) == 0,
        bucket_index(1) == 1,
        bucket_start(1) == 1 && bucket_end(1) == 1,
{
    assert(bit_length(1) == 1) by {
        assert(bit_length(0) == 0);
    }
    lemma2_to64();
}

/// For `1 <= i <= 62`, the value `2^i` starts its bucket, and `2^i + 1` falls
/// in the same bucket.
pub proof fn lemma_power_of_two_starts_bucket(i: nat)
    requires
        1 <= i <= 62,
    ensures
        bucket_start(bucket_index(pow2(i) as u64)) == pow2(i),
        bucket_index((pow2(i) + 1) as u64) == bucket_index(pow2(i) as u64),
{
    lemma_u64_pow2_no_overflow(i);
    lemma_pow2_unfold(i + 1);
    lemma_pow2_unfold(i);
    lemma_pow2_pos((i - 1) as nat);
    lemma_bit_length_between(pow2(i), i);
    lemma_bit_length_between(pow2(i) + 1, i);
    assert((pow2(i) as u64) as nat == pow2(i));
    assert(((pow2(i) + 1) as u64) as nat == pow2(i) + 1);
}

/// Every value from `2^62` through `u64::MAX` is counted in the top bucket,
/// whose stored range is `[2^62, 2^63 - 1]`.
pub proof fn lemma_top_bucket_absorbs(v: u64)
    requires
        v >= pow2(62),
    ensures
        bucket_index(v) == TOP_BUCKET,
        bucket_start(TOP_BUCKET as int) == pow2(62),
        bucket_end(TOP_BUCKET as int) == pow2(63) - 1,
{
    lemma2_to64();
    lemma_pow2_pos(62);
    lemma_pow2_unfold(63);
    lemma_bit_length_bounds(v as nat);
    let b = bit_length(v as nat);
    if b < 62 {
        lemma_pow2_strictly_increases(b, 62);
    }
}

/// Recording `c1` and then `c2` observations of `v` adds both to the bucket's
/// counter, pinned at `u64::MAX`.
pub proof fn lemma_record_is_cumulative(counts: Seq<u64>, v: u64, c1: u64, c2: u64)
    requires
        counts.len() == BUCKETS,
    ensures
        ({
            let i = bucket_index(v);
            let total = counts[i] + c1 + c2;
            recorded(recorded(counts, v, c1), v, c2)[i] == if total > u64::MAX {
                u64::MAX
            } else {
                total as u64
            }
        }),
{
    lemma_value_in_bucket(v);
}

/// Recording `c` observations of `w` leaves the counter of `v`'s bucket nonzero
/// exactly when it was nonzero before, or when `w` shares that bucket and `c`
/// is not zero.
pub proof fn lemma_record_fills_bucket(counts: Seq<u64>, v: u64, w: u64, c: u64)
    requires
        counts.len() == BUCKETS,
    ensures
        (recorded(counts, w, c)[bucket_index(v)] != 0) <==> (counts[bucket_index(v)] != 0 || (
        bucket_index(w) == bucket_index(v) && c != 0)),
{
    lemma_value_in_bucket(v);
    lemma_value_in_bucket(w);
}

proof fn lemma_occupied_update(s: Seq<u64>, i: int, x: u64, n: int)
    requires
        0 <= i < s.len(),
        0 <= n <= s.len(),
    ensures
        occupied_below(s.update(i, x), n) + (if i < n && s[i] != 0 {
            1int
        } else {
            0int
        }) == occupied_below(s, n) + (if i < n && x != 0 {
            1int
        } else {
            0int
        }),
    decreases n,
{
    if n > 0 {
        lemma_occupied_update(s, i, x, n - 1);
    }
}

/// An empty histogram has no occupied bucket.
pub proof fn lemma_empty_has_no_occupied_bucket()
    ensures
        occupied_below(Seq::new(BUCKETS as nat, |i: int| 0u64), BUCKETS as int) == 0,
{
    let s = Seq::new(BUCKETS as nat, |i: int| 0u64);
    assert forall|n: int| 0 <= n <= BUCKETS implies #[trigger] occupied_below(s, n) == 0 by {
        lemma_empty_prefix(s, n);
    }
}

proof fn lemma_empty_prefix(s: Seq<u64>, n: int)
    requires
        0 <= n <= s.len(),
        forall|i: int| 0 <= i < s.len() ==> s[i] == 0,
    ensures
        occupied_below(s, n) == 0,
    decreases n,
{
    if n > 0 {
        lemma_empty_prefix(s, n - 1);
    }
}

/// Recording into a bucket that already holds observations leaves the number
/// of occupied buckets unchanged; recording a nonzero count into an empty
/// bucket raises it by one.
pub proof fn lemma_record_occupancy(counts: Seq<u64>, v: u64, c: u64)
    requires
        counts.len() == BUCKETS,
    ensures
        counts[bucket_index(v)] != 0 ==> occupied_below(recorded(counts, v, c), BUCKETS as int)
            == occupied_below(counts, BUCKETS as int),
        counts[bucket_index(v)] == 0 && c != 0 ==> occupied_below(
            recorded(counts, v, c),
            BUCKETS as int,
        ) == occupied_below(counts, BUCKETS as int) + 1,
        counts[bucket_index(v)] == 0 && c == 0 ==> recorded(counts, v, c) == counts,
{
    lemma_value_in_bucket(v);
    let i = bucket_index(v);
    lemma_occupied_update(counts, i, saturating_sum(counts[i], c), BUCKETS as int);
    if counts[i] == 0 && c == 0 {
        assert(recorded(counts, v, c) =~= counts);
    }
}

} // verus!
