use tls_metrics::dimensions::{HelperIdentity, LabelValue, MetricName};
use tls_metrics::store::MetricStore;

#[test]
fn one_dimension() {
    let mut store = MetricStore::default();

    let h1_metric: MetricName = ("foo", ("helper", &HelperIdentity::H1)).into();
    let h2_metric = ("foo", ("helper", &HelperIdentity::H2)).into();
    let h3_metric = ("foo", ("helper", &HelperIdentity::H3)).into();
    store.update(&h1_metric, 0);
    store.update(&h2_metric, 0);

    for i in 0..10 {
        let h1_metric: MetricName = ("foo", ("helper", &HelperIdentity::H1)).into();
        store.update(&h1_metric, i);
    }

    store.update(&h2_metric, 3);

    assert_eq!(store.get_counter(&h1_metric), Some(45));
    assert_eq!(store.get_counter(&h2_metric), Some(3));
    assert_eq!(store.get_counter(&h3_metric), None);
}

#[test]
fn borrowed_and_owned_hash_alike() {
    let h1 = HelperIdentity::H1;
    let name = MetricName::with_one_label("foo", "dest", &h1);
    let owned = name.clone_into_owned();
    assert_eq!(name.hash_value(), owned.hash_value());
    assert!(owned.matches(&name.id()));
    assert!(owned.same(&name.clone_into_owned()));
    assert_eq!(owned.key(), "foo");

    let plain = MetricName::with_no_labels("foo");
    assert_eq!(plain.hash_value(), plain.clone_into_owned().hash_value());
}

#[test]
fn distinct_identities_differ() {
    let h1 = HelperIdentity::H1;
    let h2 = HelperIdentity::H2;
    let a = MetricName::with_one_label("foo", "dest", &h1).clone_into_owned();
    let b = MetricName::with_one_label("foo", "dest", &h2).clone_into_owned();
    let c = MetricName::with_one_label("foo", "src", &h1).clone_into_owned();
    let d = MetricName::with_one_label("bar", "dest", &h1).clone_into_owned();
    let e = MetricName::with_no_labels("foo").clone_into_owned();
    assert!(!a.same(&b));
    assert!(!a.same(&c));
    assert!(!a.same(&d));
    assert!(!a.same(&e));
    assert_ne!(a.hash_value(), b.hash_value());
    assert_ne!(a.hash_value(), e.hash_value());
}

#[test]
fn helper_identity_as_label() {
    assert_eq!(HelperIdentity::H1.as_u64(), 0);
    assert_eq!(HelperIdentity::H2.as_u64(), 1);
    assert_eq!(HelperIdentity::H3.as_u64(), 2);
    assert_eq!(HelperIdentity::H2.display(), "H2");
    assert_eq!(HelperIdentity::H3.boxed().as_u64(), 2);
}
