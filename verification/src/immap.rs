//! Trusted bindings for the persistent hash map of the `im` crate.
//!
//! The StateManager's authoritative cache is an `im::HashMap` from identity
//! strings to Pods; being persistent, it clones in constant time, which is
//! what makes point-in-time snapshots cheap. The map lives in the private
//! field of `PodMap`; verified code sees it only through `pod_map_contents`,
//! the mathematical mapping it holds, and the accessors below.

use crate::api::Pod;
use vstd::prelude::*;

verus! {

/// A persistent map from identity strings to Pods, backed by `im::HashMap`.
#[verifier::external_body]
pub struct PodMap {
    inner: im::HashMap<String, Pod>,
}

/// What a pod map holds: the mapping from identity-string views to Pods.
pub uninterp spec fn pod_map_contents(m: PodMap) -> Map<Seq<char>, Pod>;

/// The contents of a map with nothing in it.
pub open spec fn empty_pod_map() -> Map<Seq<char>, Pod> {
    Map::empty()
}

/// Relies on im::HashMap::new: a fresh map is empty.
#[verifier::external_body]
pub(crate) fn pod_map_new() -> (m: PodMap)
    ensures
        pod_map_contents(m) == empty_pod_map(),
{
    PodMap { inner: im::HashMap::new() }
}

/// Relies on im::HashMap::insert: adds or replaces the entry for the key and
/// returns the previously stored value, if any.
#[verifier::external_body]
pub(crate) fn pod_map_insert(m: &mut PodMap, k: String, v: Pod) -> (prev: Option<Pod>)
    ensures
        pod_map_contents(*final(m)) == pod_map_contents(*old(m)).insert(k@, v),
        match prev {
            Some(p) => pod_map_contents(*old(m)).dom().contains(k@) && pod_map_contents(*old(m))[k@]
                == p,
            None => !pod_map_contents(*old(m)).dom().contains(k@),
        },
{
    m.inner.insert(k, v)
}

/// Relies on im::HashMap::get: returns the value stored for the key, if any;
/// the wrapper clones it so the caller owns the result.
#[verifier::external_body]
pub(crate) fn pod_map_get(m: &PodMap, k: &String) -> (r: Option<Pod>)
    ensures
        match r {
            Some(p) => pod_map_contents(*m).dom().contains(k@) && pod_map_contents(*m)[k@] == p,
            None => !pod_map_contents(*m).dom().contains(k@),
        },
{
    m.inner.get(k).cloned()
}

/// Relies on im::HashMap::remove: drops the entry for the key and returns the
/// value it held, if any.
#[verifier::external_body]
pub(crate) fn pod_map_remove(m: &mut PodMap, k: &String) -> (prev: Option<Pod>)
    ensures
        pod_map_contents(*final(m)) == pod_map_contents(*old(m)).remove(k@),
        match prev {
            Some(p) => pod_map_contents(*old(m)).dom().contains(k@) && pod_map_contents(*old(m))[k@]
                == p,
            None => !pod_map_contents(*old(m)).dom().contains(k@),
        },
{
    m.inner.remove(k)
}

/// Relies on im::HashMap::clone: a persistent map clones (in constant time)
/// to a map holding the same entries.
#[verifier::external_body]
pub(crate) fn pod_map_clone(m: &PodMap) -> (r: PodMap)
    ensures
        pod_map_contents(r) == pod_map_contents(*m),
{
    PodMap { inner: m.inner.clone() }
}

/// Relies on im::HashMap::keys: yields each key exactly once, in no promised
/// order.
#[verifier::external_body]
pub(crate) fn pod_map_keys(m: &PodMap) -> (r: Vec<String>)
    requires
        pod_map_contents(*m).dom().finite(),
    ensures
        r@.len() == pod_map_contents(*m).len(),
        forall|i: int|
            0 <= i < r@.len() ==> pod_map_contents(*m).dom().contains(#[trigger] r@[i]@),
        forall|k: Seq<char>|
            pod_map_contents(*m).dom().contains(k) ==> exists|i: int|
                0 <= i < r@.len() && (#[trigger] r@[i]@) == k,
        forall|i: int, j: int| 0 <= i < j < r@.len() ==> r@[i]@ != r@[j]@,
{
    m.inner.keys().cloned().collect()
}

} // verus!
