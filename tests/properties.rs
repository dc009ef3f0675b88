use b2histogram::{Base2Histogram, Bucket};

fn bucket_of(hist: &Base2Histogram, v: u64) -> Bucket {
    hist.bucket_for(v)
}

#[test]
fn every_value_lies_in_its_bucket() {
    let hist = Base2Histogram::new();
    let samples: [u64; 12] = [
        0,
        1,
        2,
        3,
        5,
        1000,
        (1u64 << 40) + 12345,
        (1u64 << 61) - 1,
        1u64 << 61,
        (1u64 << 62) - 1,
        (1u64 << 63) + 7,
        u64::MAX,
    ];
    for v in samples {
        let b = bucket_of(&hist, v);
        assert!(b.start <= v);
        assert!(v <= b.end || b.start == 1u64 << 62);
    }
}

#[test]
fn bucket_of_value_is_stable() {
    let hist = Base2Histogram::new();
    let a = hist.bucket_for(777);
    let b = hist.bucket_for(777);
    assert_eq!((a.start, a.end, a.count), (b.start, b.end, b.count));
    assert_eq!(a.start, 512);
    assert_eq!(a.end, 1023);
}

#[test]
fn counts_saturate_at_max() {
    let mut hist = Base2Histogram::new();
    hist.record_n(42, u64::MAX - 5);
    hist.record_n(42, 10);
    assert_eq!(hist.observations(42), u64::MAX);
    hist.record(42);
    assert_eq!(hist.observations(42), u64::MAX);
    assert_eq!(hist.nonzero_buckets(), 1);
}

#[test]
fn values_share_a_bucket_and_its_count() {
    let mut hist = Base2Histogram::new();
    hist.record(32);
    hist.record_n(63, 4);
    assert_eq!(hist.observations(40), 5);
    assert_eq!(hist.observations(64), 0);
    assert_eq!(hist.observations(31), 0);
    let b = hist.bucket_for(50);
    assert_eq!((b.start, b.end, b.count), (32, 63, 5));
}

#[test]
fn top_range_collapses_into_one_bucket() {
    let mut hist = Base2Histogram::new();
    hist.record(1u64 << 62);
    hist.record((1u64 << 63) - 1);
    hist.record(1u64 << 63);
    hist.record(u64::MAX);
    let b = hist.bucket_for(u64::MAX);
    assert_eq!(b.start, 4611686018427387904);
    assert_eq!(b.end, 9223372036854775807);
    assert_eq!(b.count, 4);
    assert_eq!(hist.nonzero_buckets(), 1);
}

#[test]
fn has_counts_is_false_until_the_bucket_is_recorded() {
    let mut hist = Base2Histogram::new();
    assert!(!hist.has_counts(9));
    hist.record(16);
    assert!(!hist.has_counts(9));
    hist.record(15);
    assert!(hist.has_counts(9));
    assert!(hist.has_counts(8));
    assert!(!hist.has_counts(7));
}

#[test]
fn recording_zero_observations_changes_nothing() {
    let mut hist = Base2Histogram::new();
    hist.record_n(100, 0);
    assert_eq!(hist.observations(100), 0);
    assert!(!hist.has_counts(100));
    assert_eq!(hist.nonzero_buckets(), 0);
}

#[test]
fn nonzero_buckets_counts_distinct_buckets() {
    let mut hist = Base2Histogram::new();
    for v in [0u64, 1, 2, 3, 4, 1 << 20, u64::MAX, 1 << 62] {
        hist.record(v);
    }
    // 0, 1, {2, 3}, 4, 2^20, top
    assert_eq!(hist.nonzero_buckets(), 6);
    for v in 0..64u32 {
        hist.record(1u64 << v);
    }
    assert_eq!(hist.nonzero_buckets(), 64);
}

#[test]
fn iteration_is_repeatable_and_ascending() {
    let mut hist = Base2Histogram::new();
    hist.record_n(300_000, 6);
    hist.record(11);
    let first = hist.iter();
    let second = hist.iter();
    assert_eq!(first.len(), 64);
    for i in 0..64 {
        assert_eq!(first[i].start, second[i].start);
        assert_eq!(first[i].end, second[i].end);
        assert_eq!(first[i].count, second[i].count);
        if i > 0 {
            assert!(first[i - 1].start < first[i].start);
        }
    }
    assert_eq!(first[4].start, 8);
    assert_eq!(first[4].end, 15);
    assert_eq!(first[4].count, 1);
    assert_eq!(first[19].start, 262144);
    assert_eq!(first[19].count, 6);
    let total: u64 = first.iter().map(|b| b.count).sum();
    assert_eq!(total, 7);
}
