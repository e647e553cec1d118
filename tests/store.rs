use tls_metrics::dimensions::{HelperIdentity, MetricName};
use tls_metrics::store::MetricStore;

fn store_with(entries: &[(&'static str, Option<HelperIdentity>, u64)]) -> MetricStore {
    let mut store = MetricStore::new();
    for (key, label, val) in entries {
        match label {
            Some(h) => store.update(&MetricName::with_one_label(key, "dest", h), *val),
            None => store.update(&MetricName::with_no_labels(key), *val),
        }
    }
    store
}

#[test]
fn all_dims_sums_over_labels() {
    let store = store_with(&[
        ("foo", Some(HelperIdentity::H1), 4),
        ("foo", Some(HelperIdentity::H2), 5),
        ("foo", None, 6),
        ("bar", Some(HelperIdentity::H1), 100),
    ]);
    assert_eq!(store.get_counter_all_dim("foo"), Some(15));
    assert_eq!(store.get_counter_all_dim("bar"), Some(100));
    assert_eq!(store.get_counter_all_dim("baz"), None);
}

#[test]
fn all_dims_of_zero_counts_is_some() {
    let store = store_with(&[("foo", None, 0)]);
    assert_eq!(store.get_counter_all_dim("foo"), Some(0));
}

#[test]
fn update_adds_and_lookup_misses() {
    let mut store = MetricStore::new();
    let name = MetricName::with_no_labels("foo");
    assert_eq!(store.get_counter(&name), None);
    store.update(&name, 7);
    store.update(&name, 8);
    assert_eq!(store.get_counter(&name), Some(15));
    let h3 = HelperIdentity::H3;
    assert_eq!(store.get_counter(&MetricName::with_one_label("foo", "dest", &h3)), None);
}

#[test]
fn merge_in_any_order() {
    let a = || store_with(&[("foo", Some(HelperIdentity::H1), 1), ("foo", None, 2)]);
    let b = || store_with(&[("foo", Some(HelperIdentity::H1), 10), ("bar", None, 20)]);
    let c = || store_with(&[("foo", Some(HelperIdentity::H2), 100), ("bar", None, 200)]);

    let mut left = a();
    left.merge(b());
    left.merge(c());

    let mut bc = b();
    bc.merge(c());
    let mut right = a();
    right.merge(bc);

    let mut reversed = c();
    reversed.merge(b());
    reversed.merge(a());

    let h1 = HelperIdentity::H1;
    let h2 = HelperIdentity::H2;
    for store in [&left, &right, &reversed] {
        assert_eq!(store.get_counter(&MetricName::with_one_label("foo", "dest", &h1)), Some(11));
        assert_eq!(store.get_counter(&MetricName::with_one_label("foo", "dest", &h2)), Some(100));
        assert_eq!(store.get_counter(&MetricName::with_no_labels("foo")), Some(2));
        assert_eq!(store.get_counter(&MetricName::with_no_labels("bar")), Some(220));
        assert_eq!(store.get_counter_all_dim("foo"), Some(113));
    }
}

#[test]
fn merge_into_empty_store() {
    let mut store = MetricStore::new();
    store.merge(store_with(&[("foo", Some(HelperIdentity::H3), 9)]));
    let h3 = HelperIdentity::H3;
    assert_eq!(store.get_counter(&MetricName::with_one_label("foo", "dest", &h3)), Some(9));
    store.merge(MetricStore::new());
    assert_eq!(store.get_counter_all_dim("foo"), Some(9));
}

#[test]
fn checked_total_reports_overflow() {
    let store = store_with(&[("foo", Some(HelperIdentity::H1), u64::MAX), ("foo", Some(HelperIdentity::H2), 1)]);
    assert_eq!(store.checked_total("foo"), None);
    assert_eq!(store.checked_total("bar"), Some(0));
    let small = store_with(&[("foo", Some(HelperIdentity::H1), 3), ("foo", None, 4)]);
    assert_eq!(small.checked_total("foo"), Some(7));
}

#[test]
fn fits_merge_finds_overflowing_identity() {
    let a = store_with(&[("foo", Some(HelperIdentity::H1), u64::MAX - 1), ("bar", None, 5)]);
    let b = store_with(&[("foo", Some(HelperIdentity::H1), 1)]);
    let c = store_with(&[("foo", Some(HelperIdentity::H1), 2)]);
    let d = store_with(&[("foo", Some(HelperIdentity::H2), u64::MAX)]);
    assert!(a.fits_merge(&b));
    assert!(!a.fits_merge(&c));
    assert!(a.fits_merge(&d));
    let copy = a.clone();
    assert_eq!(copy.get_counter_all_dim("bar"), Some(5));
}
