//! Per-thread batches of increments, and the per-thread recording context
//! that hands full batches to the aggregator.

use vstd::prelude::*;
use crossbeam::channel::Sender;
use crate::dimensions::{first_label, no_labels, HelperIdentity, IdView, LabelValue, MetricName};
use crate::laws::lemma_merged_total;
use crate::store::{added, count_in, dims_total, lookup, lookup_all, merge_fits, merged, MetricStore};

verus! {

/// The number of increments after which a batch asks to be flushed.
pub const FLUSH_THRESHOLD: usize = 50_000;

/// The key that the workloads record under.
pub const KEY: &'static str = "metric";

#[verifier::external_type_specification]
#[verifier::external_body]
#[verifier::reject_recursive_types(T)]
pub struct ExSender<T>(Sender<T>);

/// Relies on `crossbeam::channel::Sender::try_send`: the batch is handed to
/// the channel without blocking, or dropped where the channel is full or its
/// receiving end is gone.
#[verifier::external_body]
fn send_batch(tx: &Sender<Snapshot>, batch: Snapshot) -> (delivered: bool) {
    tx.try_send(batch).is_ok()
}

/// The key of a metric that stands for a whole kind of measurement.
#[derive(Clone, Copy, Debug, Hash, PartialEq, Eq)]
pub struct MetricKey;

/// The amount that one increment adds.
#[derive(Copy, Clone, Debug, Default, Ord, PartialOrd, Eq, PartialEq)]
pub struct MetricValue(pub u64);

impl std::ops::Add for MetricValue {
    type Output = Self;

    fn add(self, rhs: Self) -> (r: Self) {
        MetricValue(self.0 + rhs.0)
    }
}

impl vstd::std_specs::ops::AddSpecImpl for MetricValue {
    open spec fn obeys_add_spec() -> bool {
        true
    }

    open spec fn add_req(self, rhs: Self) -> bool {
        self.0 + rhs.0 <= u64::MAX
    }

    open spec fn add_spec(self, rhs: Self) -> Self {
        MetricValue((self.0 + rhs.0) as u64)
    }
}

impl std::ops::AddAssign for MetricValue {
    fn add_assign(&mut self, rhs: Self)
        requires
            old(self).0 + rhs.0 <= u64::MAX,
        ensures
            final(self).0 == old(self).0 + rhs.0,
    {
        self.0 = self.0 + rhs.0;
    }
}

/// Something that can be recorded: an identity and an amount.
pub trait Metric: Sized {
    /// The identity that the metric is recorded under.
    spec fn identity(&self) -> IdView;

    /// The amount that the metric adds.
    spec fn amount(&self) -> u64;

    fn into_metric(&self) -> (r: (MetricName<'_>, MetricValue))
        ensures
            r.0@ == self.identity(),
            r.1.0 == self.amount(),
    ;
}

/// A counter without labels: its key and the amount to add.
pub struct Counter(pub &'static str, pub u64);

impl Metric for Counter {
    open spec fn identity(&self) -> IdView {
        (self.0@, no_labels())
    }

    open spec fn amount(&self) -> u64 {
        self.1
    }

    fn into_metric(&self) -> (r: (MetricName<'_>, MetricValue)) {
        (MetricName::with_no_labels(self.0), MetricValue(self.1))
    }
}

/// A counter with one label, `dest`, naming a helper: its key, the helper
/// and the amount to add.
pub struct OneDimensionCounter(pub &'static str, pub HelperIdentity, pub u64);

impl Metric for OneDimensionCounter {
    open spec fn identity(&self) -> IdView {
        (self.0@, first_label("dest"@, self.1.surrogate()))
    }

    open spec fn amount(&self) -> u64 {
        self.2
    }

    fn into_metric(&self) -> (r: (MetricName<'_>, MetricValue)) {
        (MetricName::with_one_label(self.0, "dest", &self.1), MetricValue(self.2))
    }
}

/// A batch of increments: a store and the number of increments it took.
#[derive(Debug)]
pub struct Snapshot {
    store: MetricStore,
    cnt: usize,
}

impl Clone for Snapshot {
    fn clone(&self) -> (r: Self)
        ensures
            r.counts() == self.counts(),
            r.increments() == self.increments(),
    {
        Snapshot { store: self.store.clone(), cnt: self.cnt }
    }
}

impl Snapshot {
    /// The counts of the batch.
    pub closed spec fn counts(&self) -> Map<IdView, u64> {
        self.store@
    }

    /// The number of increments the batch took.
    pub closed spec fn increments(&self) -> nat {
        self.cnt as nat
    }

    /// An empty batch.
    pub fn new() -> (r: Self)
        ensures
            r.counts() == Map::<IdView, u64>::empty(),
            r.increments() == 0,
    {
        Snapshot { store: MetricStore::new(), cnt: 0 }
    }

    /// Whether the batch took no increment.
    pub fn is_empty(&self) -> (r: bool)
        ensures
            r == (self.increments() == 0),
    {
        self.cnt == 0
    }

    /// Hands out this batch and leaves an empty one in its place.
    pub fn take(&mut self) -> (r: Self)
        ensures
            r.counts() == old(self).counts(),
            r.increments() == old(self).increments(),
            final(self).counts() == Map::<IdView, u64>::empty(),
            final(self).increments() == 0,
    {
        let mut batch = Snapshot::new();
        std::mem::swap(self, &mut batch);
        batch
    }

    /// Records one metric. Returns whether the batch has now taken at least
    /// `FLUSH_THRESHOLD` increments and should be flushed.
    pub fn increment<M: Metric>(&mut self, metric: M) -> (flush: bool)
        requires
            count_in(old(self).counts(), metric.identity()) + metric.amount() <= u64::MAX,
            old(self).increments() < usize::MAX,
        ensures
            final(self).counts() == added(old(self).counts(), metric.identity(), metric.amount()),
            final(self).increments() == old(self).increments() + 1,
            flush == (final(self).increments() >= FLUSH_THRESHOLD),
    {
        let (key, value) = metric.into_metric();
        self.store.update(&key, value.0);
        self.cnt = self.cnt + 1;
        self.cnt >= FLUSH_THRESHOLD
    }

    /// Adds the counts of another batch to this one.
    pub fn merge(&mut self, other: Self)
        requires
            merge_fits(old(self).counts(), other.counts()),
        ensures
            final(self).counts() == merged(old(self).counts(), other.counts()),
            final(self).increments() == old(self).increments(),
    {
        self.store.merge(other.store);
    }

    /// The count of `key`, if it was recorded.
    pub fn get(&self, key: &MetricName) -> (r: Option<u64>)
        ensures
            r == lookup(self.counts(), key@),
    {
        self.store.get_counter(key)
    }

    /// The sum of the counts recorded under `key`, whatever their labels.
    pub fn get_all_dims(&self, key: &'static str) -> (r: Option<u64>)
        requires
            dims_total(self.counts(), key@) <= u64::MAX,
        ensures
            r == lookup_all(self.counts(), key@),
    {
        self.store.get_counter_all_dim(key)
    }
}

/// The recording context of one worker thread: its live batch, and the
/// channel to the aggregator once it is connected.
pub struct MetricsContext {
    snapshot: Option<Snapshot>,
    tx: Option<Sender<Snapshot>>,
    log: Ghost<Seq<Map<IdView, u64>>>,
}

impl MetricsContext {
    /// Whether the context was connected to a channel. A connected context
    /// holds a batch below the flush threshold.
    pub closed spec fn connected(&self) -> bool {
        &&& self.snapshot.is_some()
        &&& self.tx.is_some()
        &&& self.snapshot.unwrap().cnt < FLUSH_THRESHOLD
    }

    /// The live batch of a connected context.
    pub closed spec fn pending(&self) -> Snapshot {
        self.snapshot.unwrap()
    }

    /// The counts of every batch handed to the channel, in the order sent.
    pub closed spec fn sent(&self) -> Seq<Map<IdView, u64>> {
        self.log@
    }

    /// Whether recording `metric` keeps its count within `u64`.
    pub fn can_record<M: Metric>(&self, metric: &M) -> (r: bool)
        requires
            self.connected(),
        ensures
            r == (count_in(self.pending().counts(), metric.identity()) + metric.amount() <= u64::MAX),
    {
        let (name, value) = metric.into_metric();
        match &self.snapshot {
            Some(s) => match s.get(&name) {
                Some(c) => c <= u64::MAX - value.0,
                None => true,
            },
            None => true,
        }
    }

    /// Whether the context was connected.
    pub fn is_connected(&self) -> (r: bool)
        ensures
            r == self.connected(),
    {
        match &self.snapshot {
            Some(s) => self.tx.is_some() && s.cnt < FLUSH_THRESHOLD,
            None => false,
        }
    }

    /// A context that is not connected yet.
    pub fn new() -> (r: Self)
        ensures
            !r.connected(),
            r.sent() == Seq::<Map<IdView, u64>>::empty(),
    {
        MetricsContext { snapshot: None, tx: None, log: Ghost(Seq::empty()) }
    }

    /// Binds the context to the channel of the aggregator and gives it an
    /// empty batch.
    pub fn connect(&mut self, tx: Sender<Snapshot>)
        ensures
            final(self).connected(),
            final(self).pending().counts() == Map::<IdView, u64>::empty(),
            final(self).pending().increments() == 0,
            final(self).sent() == old(self).sent(),
    {
        self.tx = Some(tx);
        self.snapshot = Some(Snapshot::new());
    }

    /// Hands out the live batch, whatever it holds, and leaves an empty one.
    pub fn take_snapshot(&mut self) -> (r: Snapshot)
        requires
            old(self).connected(),
        ensures
            final(self).connected(),
            r.counts() == old(self).pending().counts(),
            r.increments() == old(self).pending().increments(),
            final(self).pending().counts() == Map::<IdView, u64>::empty(),
            final(self).pending().increments() == 0,
            final(self).sent() == old(self).sent(),
    {
        let mut batch = Snapshot::new();
        match &mut self.snapshot {
            Some(s) => {
                batch = s.take();
            },
            None => {},
        }
        batch
    }

    /// Records one metric in the live batch. When the batch reaches the
    /// flush threshold it is sent to the aggregator and replaced by an empty
    /// one.
    pub fn increment<M: Metric>(&mut self, metric: M)
        requires
            old(self).connected(),
            count_in(old(self).pending().counts(), metric.identity()) + metric.amount() <= u64::MAX,
        ensures
            final(self).connected(),
            old(self).pending().increments() + 1 >= FLUSH_THRESHOLD ==> {
                &&& final(self).pending().counts() == Map::<IdView, u64>::empty()
                &&& final(self).pending().increments() == 0
                &&& final(self).sent() == old(self).sent().push(
                    added(old(self).pending().counts(), metric.identity(), metric.amount()),
                )
            },
            old(self).pending().increments() + 1 < FLUSH_THRESHOLD ==> {
                &&& final(self).pending().counts() == added(old(self).pending().counts(), metric.identity(), metric.amount())
                &&& final(self).pending().increments() == old(self).pending().increments() + 1
                &&& final(self).sent() == old(self).sent()
            },
    {
        let mut batch: Option<Snapshot> = None;
        match &mut self.snapshot {
            Some(s) => {
                if s.increment(metric) {
                    batch = Some(s.take());
                }
            },
            None => {},
        }
        match (batch, &self.tx) {
            (Some(b), Some(tx)) => {
                self.log = Ghost(self.log@.push(b.counts()));
                send_batch(tx, b);
            },
            _ => {},
        }
    }

    /// Flushes the live batch when a thread parks or stops: a batch that took
    /// increments is sent to the aggregator, an empty one is not. Returns
    /// whether a batch was sent.
    pub fn flush(&mut self) -> (sent: bool)
        requires
            old(self).connected(),
        ensures
            final(self).connected(),
            sent == (old(self).pending().increments() > 0),
            final(self).pending().counts() == Map::<IdView, u64>::empty(),
            final(self).pending().increments() == 0,
            final(self).sent() == (if sent { old(self).sent().push(old(self).pending().counts()) } else { old(self).sent() }),
    {
        let batch = self.take_snapshot();
        if batch.is_empty() {
            return false;
        }
        match &self.tx {
            Some(tx) => {
                self.log = Ghost(self.log@.push(batch.counts()));
                send_batch(tx, batch);
            },
            None => {},
        }
        true
    }
}

/// The single consumer of batches: it merges each batch into its total and
/// tells when the total recorded under its key has reached the target.
pub struct Aggregator {
    total: Snapshot,
    key: &'static str,
    target: u64,
}

/// Whether a lookup of all the counts of a key has reached `target`; a key
/// with no count stands at zero.
pub open spec fn reached(found: Option<u64>, target: u64) -> bool {
    match found {
        Some(t) => t >= target,
        None => target == 0,
    }
}

impl Aggregator {
    /// The merged counts so far.
    pub closed spec fn counts(&self) -> Map<IdView, u64> {
        self.total.counts()
    }

    /// The key whose total is watched.
    pub closed spec fn watched(&self) -> Seq<char> {
        self.key@
    }

    /// The total at which aggregation stops.
    pub closed spec fn goal(&self) -> u64 {
        self.target
    }

    /// Whether the total under the watched key fits in `u64`.
    pub open spec fn within(&self) -> bool {
        dims_total(self.counts(), self.watched()) <= u64::MAX
    }

    /// An aggregator with nothing merged yet.
    pub fn new(key: &'static str, target: u64) -> (r: Self)
        ensures
            r.counts() == Map::<IdView, u64>::empty(),
            r.watched() == key@,
            r.goal() == target,
            r.within(),
    {
        let r = Aggregator { total: Snapshot::new(), key, target };
        assert(r.counts().dom() =~= Set::<IdView>::empty());
        r
    }

    /// Whether `batch` can be merged without overflow: every count, and the
    /// total under the watched key, stay within `u64`.
    pub fn can_absorb(&self, batch: &Snapshot) -> (r: bool)
        ensures
            r == (merge_fits(self.counts(), batch.counts())
                && dims_total(merged(self.counts(), batch.counts()), self.watched()) <= u64::MAX),
    {
        let mine = self.total.store.checked_total(self.key);
        let theirs = batch.store.checked_total(self.key);
        if !self.total.store.fits_merge(&batch.store) {
            return false;
        }
        proof {
            lemma_merged_total(self.counts(), batch.counts(), self.watched());
        }
        match (mine, theirs) {
            (Some(a), Some(b)) => a <= u64::MAX - b,
            _ => false,
        }
    }

    /// Merges a batch into the total and tells whether the total under the
    /// watched key has reached the target.
    pub fn absorb(&mut self, batch: Snapshot) -> (done: bool)
        requires
            merge_fits(old(self).counts(), batch.counts()),
            dims_total(merged(old(self).counts(), batch.counts()), old(self).watched()) <= u64::MAX,
        ensures
            final(self).within(),
            final(self).counts() == merged(old(self).counts(), batch.counts()),
            final(self).watched() == old(self).watched(),
            final(self).goal() == old(self).goal(),
            done == reached(lookup_all(final(self).counts(), final(self).watched()), final(self).goal()),
    {
        self.total.merge(batch);
        match self.total.get_all_dims(self.key) {
            Some(t) => t >= self.target,
            None => self.target == 0,
        }
    }

    /// The total recorded under the watched key, whatever the labels.
    pub fn total(&self) -> (r: Option<u64>)
        requires
            self.within(),
        ensures
            r == lookup_all(self.counts(), self.watched()),
    {
        self.total.get_all_dims(self.key)
    }

    /// The merged counts, handed out.
    pub fn into_snapshot(self) -> (r: Snapshot)
        ensures
            r.counts() == self.counts(),
    {
        self.total
    }
}

} // verus!
