use std::sync::atomic::{AtomicU64, Ordering};
use std::sync::Arc;
use crossbeam::channel::unbounded;
use tls_metrics::atomic::AtomicContext;
use tls_metrics::dimensions::{HelperIdentity, MetricName};
use tls_metrics::metrics::{Aggregator, Counter, Metric, MetricValue, MetricsContext, OneDimensionCounter, Snapshot, FLUSH_THRESHOLD, KEY};

#[test]
fn batch_round_trip() {
    let mut snapshot = Snapshot::new();
    for _ in 0..7 {
        snapshot.increment(Counter("foo", 3));
    }
    let batch = snapshot.take();
    assert_eq!(batch.get_all_dims("foo"), Some(21));
    assert!(!batch.is_empty());
    assert!(snapshot.is_empty());
    assert_eq!(snapshot.get_all_dims("foo"), None);
}

#[test]
fn threshold_flush() {
    let mut snapshot = Snapshot::new();
    for _ in 0..FLUSH_THRESHOLD - 1 {
        assert!(!snapshot.increment(Counter(KEY, 1)));
    }
    assert!(snapshot.increment(Counter(KEY, 1)));
    assert_eq!(snapshot.get_all_dims(KEY), Some(50_000));
}

#[test]
fn aggregation_of_two_threads() {
    let (tx, rx) = unbounded();
    let mut first = MetricsContext::new();
    let mut second = MetricsContext::new();
    first.connect(tx.clone());
    second.connect(tx);
    for ctx in [&mut first, &mut second] {
        for _ in 0..10 {
            ctx.increment(OneDimensionCounter("foo", HelperIdentity::H1, 1));
        }
        for _ in 0..5 {
            ctx.increment(OneDimensionCounter("foo", HelperIdentity::H2, 1));
        }
        assert!(ctx.flush());
    }
    let mut total = Snapshot::new();
    while let Ok(batch) = rx.try_recv() {
        total.merge(batch);
    }
    let h1 = HelperIdentity::H1;
    assert_eq!(total.get_all_dims("foo"), Some(30));
    assert_eq!(total.get(&MetricName::with_one_label("foo", "dest", &h1)), Some(20));
}

#[test]
fn empty_batch_is_not_sent() {
    let (tx, rx) = unbounded();
    let mut ctx = MetricsContext::new();
    ctx.connect(tx);
    assert!(!ctx.flush());
    assert!(rx.try_recv().is_err());
    ctx.increment(Counter("foo", 2));
    assert!(ctx.flush());
    let batch = rx.try_recv().unwrap();
    assert_eq!(batch.get_all_dims("foo"), Some(2));
    assert!(!ctx.flush());
    assert!(rx.try_recv().is_err());
}

#[test]
fn context_sends_full_batch() {
    let (tx, rx) = unbounded();
    let mut ctx = MetricsContext::new();
    ctx.connect(tx);
    for _ in 0..FLUSH_THRESHOLD {
        ctx.increment(Counter(KEY, 1));
    }
    let batch = rx.try_recv().unwrap();
    assert_eq!(batch.get_all_dims(KEY), Some(50_000));
    assert!(rx.try_recv().is_err());
    assert!(ctx.take_snapshot().is_empty());
}

#[test]
fn send_after_receiver_is_gone() {
    let (tx, rx) = unbounded();
    drop(rx);
    let mut ctx = MetricsContext::new();
    ctx.connect(tx);
    ctx.increment(Counter("foo", 1));
    assert!(ctx.flush());
    ctx.increment(Counter("foo", 4));
    assert_eq!(ctx.take_snapshot().get_all_dims("foo"), Some(4));
}

#[test]
fn counters_name_their_metric() {
    let (name, value) = Counter("foo", 5).into_metric();
    assert_eq!(value.0, 5);
    assert!(name.clone_into_owned().same(&MetricName::with_no_labels("foo").clone_into_owned()));
    let h2 = HelperIdentity::H2;
    let (name, value) = OneDimensionCounter("foo", HelperIdentity::H2, 6).into_metric();
    assert_eq!(value.0, 6);
    assert_eq!(name.hash_value(), MetricName::with_one_label("foo", "dest", &h2).hash_value());
}

#[test]
fn atomic_context_counts() {
    let counter = Arc::new(AtomicU64::default());
    let mut ctx = AtomicContext::new();
    ctx.connect(counter.clone());
    ctx.increment();
    ctx.increment();
    ctx.increment();
    assert_eq!(counter.load(Ordering::Relaxed), 3);
}

#[test]
fn metric_values_add() {
    assert_eq!(MetricValue(2) + MetricValue(3), MetricValue(5));
    assert_eq!(MetricValue::default(), MetricValue(0));
}

#[test]
fn snapshot_shows_its_count() {
    let mut snapshot = Snapshot::new();
    snapshot.increment(Counter("foo", 1));
    let shown = format!("{:?}", snapshot);
    assert!(shown.contains("cnt: 1"));
}

#[test]
fn aggregator_stops_at_target() {
    let batch = |n: u64| {
        let mut s = Snapshot::new();
        for _ in 0..n {
            s.increment(OneDimensionCounter("foo", HelperIdentity::H1, 1));
        }
        s.increment(Counter("bar", 100));
        s
    };
    let mut aggregator = Aggregator::new("foo", 10);
    assert_eq!(aggregator.total(), None);
    assert!(!aggregator.absorb(batch(4)));
    assert_eq!(aggregator.total(), Some(4));
    assert!(!aggregator.absorb(batch(5)));
    assert!(aggregator.absorb(batch(1)));
    assert_eq!(aggregator.total(), Some(10));
    let merged = aggregator.into_snapshot();
    assert_eq!(merged.get_all_dims("bar"), Some(300));
}

#[test]
fn aggregator_with_zero_target_is_done_at_once() {
    let mut aggregator = Aggregator::new("foo", 0);
    assert!(aggregator.absorb(Snapshot::new()));
}

#[test]
fn can_record_tells_when_count_would_overflow() {
    let (tx, _rx) = unbounded();
    let mut ctx = MetricsContext::new();
    ctx.connect(tx);
    assert!(ctx.can_record(&Counter("foo", u64::MAX)));
    ctx.increment(Counter("foo", u64::MAX - 1));
    assert!(ctx.can_record(&Counter("foo", 1)));
    assert!(!ctx.can_record(&Counter("foo", 2)));
    assert!(ctx.can_record(&Counter("bar", u64::MAX)));
}

#[test]
fn cloned_snapshot_keeps_counts() {
    let mut snapshot = Snapshot::new();
    snapshot.increment(OneDimensionCounter("foo", HelperIdentity::H2, 4));
    let copy = snapshot.clone();
    snapshot.increment(OneDimensionCounter("foo", HelperIdentity::H2, 4));
    let h2 = HelperIdentity::H2;
    assert_eq!(copy.get(&MetricName::with_one_label("foo", "dest", &h2)), Some(4));
    assert_eq!(snapshot.get(&MetricName::with_one_label("foo", "dest", &h2)), Some(8));
    assert!(!copy.is_empty());
}

#[test]
fn batch_round_trip_with_mixed_labels() {
    let mut snapshot = Snapshot::new();
    for h in [HelperIdentity::H1, HelperIdentity::H2, HelperIdentity::H3, HelperIdentity::H1] {
        snapshot.increment(OneDimensionCounter("foo", h, 5));
    }
    snapshot.increment(Counter("foo", 5));
    let batch = snapshot.take();
    assert_eq!(batch.get_all_dims("foo"), Some(25));
    assert!(snapshot.is_empty());
    assert_eq!(snapshot.get_all_dims("foo"), None);
}

#[test]
fn aggregator_refuses_overflowing_batch() {
    let mut big = Snapshot::new();
    big.increment(OneDimensionCounter("foo", HelperIdentity::H1, u64::MAX - 1));
    let mut other = Snapshot::new();
    other.increment(OneDimensionCounter("foo", HelperIdentity::H2, 2));
    let mut small = Snapshot::new();
    small.increment(OneDimensionCounter("foo", HelperIdentity::H2, 1));
    let mut aggregator = Aggregator::new("foo", u64::MAX);
    assert!(aggregator.can_absorb(&big));
    assert!(!aggregator.absorb(big));
    assert!(!aggregator.can_absorb(&other));
    assert!(aggregator.can_absorb(&small));
    assert!(aggregator.absorb(small));
}

#[test]
fn metric_values_add_in_place() {
    let mut v = MetricValue(7);
    v += MetricValue(8);
    assert_eq!(v, MetricValue(15));
}
