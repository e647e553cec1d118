//! Metric identities: a key plus a fixed number of optional labels, in a
//! borrowed form used for lookups and an owned form used for storage.
//!
//! Two identities are equal when their keys are equal and, slot by slot, both
//! labels are absent or both are present with equal names and equal numeric
//! surrogates. The label value itself is never compared: a label type that
//! gives two distinct values the same surrogate silently merges them.

use vstd::prelude::*;
use crate::hashing::{fx_start, fx_write_text, fx_write_word, fx_finish, fx_state, fx_run, fx_mix, word_of, id_hash, label_writes, HashWord};

verus! {

/// The number of label slots of a metric identity.
pub const LABELS: usize = 5;

/// A label slot as the contracts see it: absent, or a name and a surrogate.
pub type LabelView = Option<(Seq<char>, u64)>;

/// A metric identity as the contracts see it: the key and the label slots.
pub type IdView = (Seq<char>, Seq<LabelView>);

/// The label slots of an identity without labels.
pub open spec fn no_labels() -> Seq<LabelView> {
    Seq::new(LABELS as nat, |i: int| None)
}

/// The label slots of an identity whose first slot alone is filled.
pub open spec fn first_label(name: Seq<char>, surrogate: u64) -> Seq<LabelView> {
    no_labels().update(0, Some((name, surrogate)))
}

/// The hash of an identity view.
pub open spec fn view_hash(id: IdView) -> u64 {
    id_hash(id.0, id.1)
}

/// Relies on `<str as PartialEq>::eq`: two texts are equal when their
/// characters are.
#[verifier::external_body]
pub(crate) fn same_text(a: &str, b: &str) -> (r: bool)
    ensures
        r == (a@ == b@),
{
    a == b
}

/// Something usable as a label value: it has a stable numeric surrogate, can
/// be shown as text and copied.
pub trait LabelValue: Sized {
    /// The surrogate of the value.
    spec fn surrogate(&self) -> u64;

    /// The text that shows the value.
    spec fn shown(&self) -> Seq<char>;

    fn as_u64(&self) -> (r: u64)
        ensures
            r == self.surrogate(),
    ;

    fn boxed(&self) -> (r: Box<Self>)
        ensures
            *r == *self,
    ;

    fn display(&self) -> (r: String)
        ensures
            r@ == self.shown(),
    ;
}

/// The helper that a measurement is addressed to.
#[derive(Clone, Copy, Debug)]
pub enum HelperIdentity {
    H1,
    H2,
    H3,
}

impl LabelValue for HelperIdentity {
    open spec fn surrogate(&self) -> u64 {
        match self {
            HelperIdentity::H1 => 0,
            HelperIdentity::H2 => 1,
            HelperIdentity::H3 => 2,
        }
    }

    open spec fn shown(&self) -> Seq<char> {
        match self {
            HelperIdentity::H1 => "H1"@,
            HelperIdentity::H2 => "H2"@,
            HelperIdentity::H3 => "H3"@,
        }
    }

    fn as_u64(&self) -> (r: u64) {
        match self {
            HelperIdentity::H1 => 0,
            HelperIdentity::H2 => 1,
            HelperIdentity::H3 => 2,
        }
    }

    fn boxed(&self) -> (r: Box<Self>) {
        Box::new(*self)
    }

    fn display(&self) -> (r: String) {
        match self {
            HelperIdentity::H1 => "H1".to_owned(),
            HelperIdentity::H2 => "H2".to_owned(),
            HelperIdentity::H3 => "H3".to_owned(),
        }
    }
}

/// An identity reduced to what equality and hashing read: the key, and for
/// each label its name and surrogate. It is built on the stack.
#[derive(Clone, Copy)]
pub struct MetricId {
    pub key: &'static str,
    pub labels: [Option<(&'static str, u64)>; LABELS],
}

/// The view of one label slot of a [`MetricId`].
pub open spec fn id_label_view(l: Option<(&'static str, u64)>) -> LabelView {
    match l {
        Some((n, s)) => Some((n@, s)),
        None => None,
    }
}

impl View for MetricId {
    type V = IdView;

    open spec fn view(&self) -> IdView {
        (self.key@, self.labels@.map_values(|l: Option<(&'static str, u64)>| id_label_view(l)))
    }
}

impl MetricId {
    /// Whether two identities are equal: same key, and slot by slot the same
    /// label names and surrogates.
    pub fn matches(&self, other: &MetricId) -> (r: bool)
        ensures
            r == (self@ == other@),
    {
        if !same_text(self.key, other.key) {
            return false;
        }
        let mut i: usize = 0;
        while i < LABELS
            invariant
                i <= LABELS,
                self.key@ == other.key@,
                forall|j: int| 0 <= j < i ==> self@.1[j] == other@.1[j],
            decreases LABELS - i,
        {
            let same = match (self.labels[i], other.labels[i]) {
                (None, None) => true,
                (Some((n1, s1)), Some((n2, s2))) => s1 == s2 && same_text(n1, n2),
                _ => false,
            };
            if !same {
                assert(self@.1[i as int] != other@.1[i as int]);
                return false;
            }
            i += 1;
        }
        assert(self@.1 =~= other@.1);
        true
    }

    /// The hash of the identity: its key, then for each present label its
    /// name and its surrogate, fed to a fresh Fx hasher.
    pub fn hash_value(&self) -> (r: u64)
        ensures
            r == view_hash(self@),
    {
        let mut h = fx_start();
        fx_write_text(&mut h, self.key);
        assert(seq![HashWord::Text(self.key@)].drop_last() =~= Seq::<HashWord>::empty());
        assert(seq![HashWord::Text(self.key@)] + label_writes(self@.1.take(0)) =~= seq![HashWord::Text(self.key@)]);
        assert(fx_run(seq![HashWord::Text(self.key@)]) == fx_mix(fx_run(Seq::<HashWord>::empty()), word_of(HashWord::Text(self.key@))));
        let mut i: usize = 0;
        while i < LABELS
            invariant
                i <= LABELS,
                fx_state(h) == fx_run(seq![HashWord::Text(self.key@)] + label_writes(self@.1.take(i as int))),
            decreases LABELS - i,
        {
            let ghost prev = seq![HashWord::Text(self.key@)] + label_writes(self@.1.take(i as int));
            assert(self@.1.take(i + 1).drop_last() =~= self@.1.take(i as int));
            if let Some((n, s)) = self.labels[i] {
                fx_write_text(&mut h, n);
                fx_write_word(&mut h, s);
                let ghost w1 = prev.push(HashWord::Text(n@));
                let ghost w2 = w1.push(HashWord::Word(s));
                assert(w1.drop_last() =~= prev);
                assert(w2.drop_last() =~= w1);
                assert(fx_run(w1) == fx_mix(fx_run(prev), word_of(HashWord::Text(n@))));
                assert(fx_run(w2) == fx_mix(fx_run(w1), word_of(HashWord::Word(s))));
                assert(w2 =~= seq![HashWord::Text(self.key@)] + label_writes(self@.1.take(i + 1)));
            } else {
                assert(prev =~= seq![HashWord::Text(self.key@)] + label_writes(self@.1.take(i + 1)));
            }
            i += 1;
        }
        assert(self@.1.take(LABELS as int) =~= self@.1);
        fx_finish(&h)
    }
}

/// A metric identity whose label values are borrowed. It is what callers
/// build to record or look up a count.
pub struct MetricName<'a> {
    key: &'static str,
    labels: [Option<(&'static str, &'a HelperIdentity)>; LABELS],
}

/// The view of one label slot of a [`MetricName`].
pub open spec fn name_label_view(l: Option<(&'static str, &HelperIdentity)>) -> LabelView {
    match l {
        Some((n, v)) => Some((n@, v.surrogate())),
        None => None,
    }
}

impl<'a> View for MetricName<'a> {
    type V = IdView;

    closed spec fn view(&self) -> IdView {
        (self.key@, self.labels@.map_values(|l: Option<(&'static str, &'a HelperIdentity)>| name_label_view(l)))
    }
}

fn name_label_id(l: Option<(&'static str, &HelperIdentity)>) -> (r: Option<(&'static str, u64)>)
    ensures
        id_label_view(r) == name_label_view(l),
{
    match l {
        Some((n, v)) => Some((n, v.as_u64())),
        None => None,
    }
}

fn name_label_owned(l: Option<(&'static str, &HelperIdentity)>) -> (r: Option<(&'static str, u64, Box<HelperIdentity>)>)
    ensures
        owned_label_view(r) == name_label_view(l),
        owned_label_value(r) == name_label_value(l),
{
    match l {
        Some((n, v)) => Some((n, v.as_u64(), v.boxed())),
        None => None,
    }
}

/// The label value held in one slot of a [`MetricName`].
pub open spec fn name_label_value(l: Option<(&'static str, &HelperIdentity)>) -> Option<HelperIdentity> {
    match l {
        Some((_, v)) => Some(*v),
        None => None,
    }
}

/// The label value held in one slot of an [`OwnedMetricName`].
pub open spec fn owned_label_value(l: Option<(&'static str, u64, Box<HelperIdentity>)>) -> Option<HelperIdentity> {
    match l {
        Some((_, _, v)) => Some(*v),
        None => None,
    }
}

impl<'a> MetricName<'a> {
    /// The label values of the slots, as they are borrowed.
    pub closed spec fn label_values(&self) -> Seq<Option<HelperIdentity>> {
        self.labels@.map_values(|l: Option<(&'static str, &'a HelperIdentity)>| name_label_value(l))
    }
}

impl MetricName<'static> {
    /// An identity with the given key and every label slot empty.
    pub fn with_no_labels(name: &'static str) -> (r: Self)
        ensures
            r@ == (name@, no_labels()),
    {
        let r = MetricName { key: name, labels: [None, None, None, None, None] };
        assert(r@.1 =~= no_labels());
        r
    }
}

impl<'a> MetricName<'a> {
    /// An identity with the given key whose first slot holds the given label.
    pub fn with_one_label(name: &'static str, label_name: &'static str, label_value: &'a HelperIdentity) -> (r: Self)
        ensures
            r@ == (name@, first_label(label_name@, label_value.surrogate())),
    {
        let r = MetricName { key: name, labels: [Some((label_name, label_value)), None, None, None, None] };
        assert(r@.1 =~= first_label(label_name@, label_value.surrogate()));
        r
    }

    /// The key and the label names and surrogates of this identity.
    pub fn id(&self) -> (r: MetricId)
        ensures
            r@ == self@,
    {
        let r = MetricId {
            key: self.key,
            labels: [
                name_label_id(self.labels[0]),
                name_label_id(self.labels[1]),
                name_label_id(self.labels[2]),
                name_label_id(self.labels[3]),
                name_label_id(self.labels[4]),
            ],
        };
        assert(r@.1 =~= self@.1);
        r
    }

    /// The hash of this identity.
    pub fn hash_value(&self) -> (r: u64)
        ensures
            r == view_hash(self@),
    {
        self.id().hash_value()
    }

    /// The owned identity with the same key, label names and surrogates;
    /// each label value is copied. This is where a new identity allocates.
    pub fn clone_into_owned(&self) -> (r: OwnedMetricName)
        ensures
            r@ == self@,
            r.label_values() == self.label_values(),
    {
        let r = OwnedMetricName {
            key: self.key,
            labels: [
                name_label_owned(self.labels[0]),
                name_label_owned(self.labels[1]),
                name_label_owned(self.labels[2]),
                name_label_owned(self.labels[3]),
                name_label_owned(self.labels[4]),
            ],
        };
        assert(r@.1 =~= self@.1);
        r
    }
}

impl<'a> From<(&'static str, (&'static str, &'a HelperIdentity))> for MetricName<'a> {
    /// The identity with key `value.0` whose first slot holds the label
    /// `value.1`.
    fn from(value: (&'static str, (&'static str, &'a HelperIdentity))) -> (r: Self)
        ensures
            r@ == (value.0@, first_label(value.1.0@, value.1.1.surrogate())),
    {
        let r = MetricName { key: value.0, labels: [Some((value.1.0, value.1.1)), None, None, None, None] };
        assert(r@.1 =~= first_label(value.1.0@, value.1.1.surrogate()));
        r
    }
}

impl<'a> vstd::std_specs::convert::FromSpecImpl<(&'static str, (&'static str, &'a HelperIdentity))> for MetricName<'a> {
    open spec fn obeys_from_spec() -> bool {
        true
    }

    closed spec fn from_spec(value: (&'static str, (&'static str, &'a HelperIdentity))) -> Self {
        MetricName { key: value.0, labels: [Some((value.1.0, value.1.1)), None, None, None, None] }
    }
}

/// What a conversion from a key and a label gives, also through `into`: that
/// key, with the label in the first slot.
pub proof fn lemma_from_pair<'a>(value: (&'static str, (&'static str, &'a HelperIdentity)))
    ensures
        <MetricName<'a> as vstd::std_specs::convert::FromSpec<(&'static str, (&'static str, &'a HelperIdentity))>>::from_spec(value)@
            == (value.0@, first_label(value.1.0@, value.1.1.surrogate())),
{
    let r = <MetricName<'a> as vstd::std_specs::convert::FromSpec<(&'static str, (&'static str, &'a HelperIdentity))>>::from_spec(value);
    assert(r@.1 =~= first_label(value.1.0@, value.1.1.surrogate()));
}

/// A metric identity that owns a copy of each label value, together with the
/// surrogate taken when it was built. It is what a store keeps.
#[derive(Clone, Debug)]
pub struct OwnedMetricName {
    key: &'static str,
    labels: [Option<(&'static str, u64, Box<HelperIdentity>)>; LABELS],
}

/// The view of one label slot of an [`OwnedMetricName`]: its name and the
/// surrogate it holds.
pub open spec fn owned_label_view(l: Option<(&'static str, u64, Box<HelperIdentity>)>) -> LabelView {
    match l {
        Some((n, s, _)) => Some((n@, s)),
        None => None,
    }
}

impl View for OwnedMetricName {
    type V = IdView;

    closed spec fn view(&self) -> IdView {
        (self.key@, self.labels@.map_values(|l: Option<(&'static str, u64, Box<HelperIdentity>)>| owned_label_view(l)))
    }
}

fn owned_label_id(l: &Option<(&'static str, u64, Box<HelperIdentity>)>) -> (r: Option<(&'static str, u64)>)
    ensures
        id_label_view(r) == owned_label_view(*l),
{
    match l {
        Some((n, s, _)) => Some((*n, *s)),
        None => None,
    }
}

impl OwnedMetricName {
    /// The copies of the label values that the slots hold.
    pub closed spec fn label_values(&self) -> Seq<Option<HelperIdentity>> {
        self.labels@.map_values(|l: Option<(&'static str, u64, Box<HelperIdentity>)>| owned_label_value(l))
    }

    /// The key of this identity.
    pub fn key(&self) -> (r: &'static str)
        ensures
            r@ == self@.0,
    {
        self.key
    }

    /// The key and the label names and surrogates of this identity.
    pub fn id(&self) -> (r: MetricId)
        ensures
            r@ == self@,
    {
        let r = MetricId {
            key: self.key,
            labels: [
                owned_label_id(&self.labels[0]),
                owned_label_id(&self.labels[1]),
                owned_label_id(&self.labels[2]),
                owned_label_id(&self.labels[3]),
                owned_label_id(&self.labels[4]),
            ],
        };
        assert(r@.1 =~= self@.1);
        r
    }

    /// The hash of this identity.
    pub fn hash_value(&self) -> (r: u64)
        ensures
            r == view_hash(self@),
    {
        self.id().hash_value()
    }

    /// Whether this identity equals another one: same key, and slot by slot
    /// the same label names and surrogates.
    pub fn same(&self, other: &Self) -> (r: bool)
        ensures
            r == (self@ == other@),
    {
        self.id().matches(&other.id())
    }

    /// Whether this identity equals the given one.
    pub fn matches(&self, other: &MetricId) -> (r: bool)
        ensures
            r == (self@ == other@),
    {
        self.id().matches(other)
    }
}

} // verus!
