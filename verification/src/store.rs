//! The alert aggregation store: a timestamp-keyed multimap of detection
//! results. The sharded concurrent map inside comes from an outside crate;
//! the store's own API is exclusive-access, and its contracts say exactly
//! how each call changes the buckets.
use vstd::prelude::*;

use crate::detect::infos_view;
use crate::detect::DetectInfo;
use crate::detect::DetectInfoView;

verus! {

#[verifier::external_type_specification]
#[verifier::external_body]
#[verifier::reject_recursive_types(K)]
#[verifier::reject_recursive_types(V)]
#[verifier::reject_recursive_types(S)]
pub struct ExDashMap<K, V, S>(dashmap::DashMap<K, V, S>);

/// What the shared map holds: for each timestamp, the detections gathered
/// for it, in arrival order.
pub uninterp spec fn dash_contents(m: dashmap::DashMap<i64, Vec<DetectInfo>>) -> Map<
    i64,
    Seq<DetectInfoView>,
>;

/// The bucket `m` keeps for `t`: empty where no detection arrived yet.
pub open spec fn bucket_of(m: Map<i64, Seq<DetectInfoView>>, t: i64) -> Seq<DetectInfoView> {
    if m.dom().contains(t) {
        m[t]
    } else {
        Seq::empty()
    }
}

/// Accumulates detection results keyed by canonical event timestamp. No
/// entry is ever lost, duplicated or partially written, and nothing leaves
/// the store but through `clear`.
pub struct AlertStore {
    pub(crate) inner: dashmap::DashMap<i64, Vec<DetectInfo>>,
}

impl View for AlertStore {
    type V = Map<i64, Seq<DetectInfoView>>;

    closed spec fn view(&self) -> Map<i64, Seq<DetectInfoView>> {
        dash_contents(self.inner)
    }
}

impl AlertStore {
    /// Relies on `DashMap::new`: the fresh map is empty.
    #[verifier::external_body]
    pub fn new() -> (r: AlertStore)
        ensures
            forall|t: i64| !(#[trigger] r@.dom().contains(t)),
    {
        AlertStore { inner: dashmap::DashMap::new() }
    }

    /// Relies on `DashMap::entry` and `Entry::or_default`: the detection
    /// is appended to the bucket for `t`, created empty if absent; no
    /// other bucket changes.
    #[verifier::external_body]
    pub(crate) fn push_info(&mut self, t: i64, d: DetectInfo)
        ensures
            final(self)@ == old(self)@.insert(t, bucket_of(old(self)@, t).push(d@)),
    {
        self.inner.entry(t).or_default().push(d);
    }

    /// Relies on `DashMap::get` and `Vec::to_vec`: a snapshot copy of the
    /// bucket for `t`, empty where none exists.
    #[verifier::external_body]
    pub(crate) fn snapshot(&self, t: i64) -> (r: Vec<DetectInfo>)
        ensures
            infos_view(r@) == bucket_of(self@, t),
            infos_view(r@) == bucket_of(dash_contents(self.inner), t),
    {
        match self.inner.get(&t) {
            Option::Some(v) => v.to_vec(),
            Option::None => Vec::new(),
        }
    }

    /// Relies on `DashMap::clear`: every bucket is dropped.
    #[verifier::external_body]
    pub fn clear(&mut self)
        ensures
            forall|t: i64| !(#[trigger] final(self)@.dom().contains(t)),
    {
        self.inner.clear();
    }
}

/// The store after a whole sequence of detections lands in one bucket.
pub open spec fn after_inserts(
    m: Map<i64, Seq<DetectInfoView>>,
    t: i64,
    items: Seq<DetectInfoView>,
) -> Map<i64, Seq<DetectInfoView>>
    decreases items.len(),
{
    if items.len() == 0 {
        m
    } else {
        after_inserts(m.insert(t, bucket_of(m, t).push(items[0])), t, items.drop_first())
    }
}

/// Aggregation loses nothing and duplicates nothing: after any sequence of
/// insertions into one timestamp bucket, that bucket holds exactly the old
/// entries followed by the inserted ones, and every other bucket is
/// untouched.
pub proof fn lemma_no_insert_lost(m: Map<i64, Seq<DetectInfoView>>, t: i64, items: Seq<
    DetectInfoView,
>)
    ensures
        bucket_of(after_inserts(m, t, items), t) == bucket_of(m, t) + items,
        forall|u: i64| u != t ==> bucket_of(#[trigger] after_inserts(m, t, items), u)
            == bucket_of(m, u),
    decreases items.len(),
{
    if items.len() == 0 {
        assert(bucket_of(m, t) + items =~= bucket_of(m, t));
    } else {
        let m1 = m.insert(t, bucket_of(m, t).push(items[0]));
        lemma_no_insert_lost(m1, t, items.drop_first());
        assert(bucket_of(m1, t) =~= bucket_of(m, t).push(items[0]));
        assert(bucket_of(m, t).push(items[0]) + items.drop_first() =~= bucket_of(m, t) + items);
        assert(forall|u: i64| u != t ==> bucket_of(m1, u) == bucket_of(m, u));
    }
}

} // verus!
