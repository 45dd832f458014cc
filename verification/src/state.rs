//! The StateManager: the single writer of truth for cluster state.
//!
//! It folds watch events from the store into an authoritative cache
//! (idempotently, so at-least-once delivery is harmless), serves reads, and
//! accepts conditional writes keyed on the resource version — the sole
//! concurrency-control primitive in the system. When the watch transport is
//! lost the cache marks itself stale and refuses conflict-sensitive writes
//! until a full resync.

use crate::api::{Pod, ObjectMeta, id_view, pod_id_view, pod_version, resource_version};
use crate::immap::{
    PodMap, empty_pod_map, pod_map_clone, pod_map_contents, pod_map_get, pod_map_insert,
    pod_map_keys, pod_map_new, pod_map_remove,
};
use crate::pod_util::get_id;
use crate::strutil::make_id;
use vstd::prelude::*;

verus! {

/// Why a read, a fold or a conditional write did not go through. `NotFound`
/// and `Conflict` are expected and recoverable; the caller re-reads and
/// retries.
#[derive(Clone, Copy, Debug, PartialEq, Eq, Structural)]
pub enum StateError {
    /// No record is cached under the requested identity.
    NotFound,
    /// The caller's expected version no longer matches the cached one; the
    /// record was mutated concurrently.
    Conflict,
    /// The resource carries no usable identity.
    InvalidResource,
    /// The watch connection is lost; the cache is stale and refuses
    /// conflict-sensitive writes until resynchronized.
    TransportLost,
}

/// An incremental notification of a resource change from the store. Events
/// for one identity arrive in store-assigned version order, at least once.
#[derive(Clone, Debug, PartialEq)]
pub enum WatchEvent {
    Created(Pod),
    Updated(Pod),
    Deleted(Pod),
}

/// The resource an event is about.
pub open spec fn event_pod(e: WatchEvent) -> Pod {
    match e {
        WatchEvent::Created(p) => p,
        WatchEvent::Updated(p) => p,
        WatchEvent::Deleted(p) => p,
    }
}

/// The version the cache holds for an identity; 0 when absent.
pub open spec fn cached_version(m: Map<Seq<char>, Pod>, k: Seq<char>) -> u64 {
    if m.dom().contains(k) {
        pod_version(m[k])
    } else {
        0
    }
}

/// Whether an event carries a strictly newer version than the cache holds for
/// its identity. Duplicate and decreasing-version deliveries are not newer.
pub open spec fn event_newer(m: Map<Seq<char>, Pod>, k: Seq<char>, p: Pod) -> bool {
    pod_version(p) > cached_version(m, k)
}

/// The fold of one watch event into the cache. An event without an identity,
/// or whose version is not newer than the cached one, changes nothing.
pub open spec fn apply_event_view(m: Map<Seq<char>, Pod>, e: WatchEvent) -> Map<Seq<char>, Pod> {
    match pod_id_view(event_pod(e)) {
        None => m,
        Some(k) => if event_newer(m, k, event_pod(e)) {
            match e {
                WatchEvent::Created(p) => m.insert(k, p),
                WatchEvent::Updated(p) => m.insert(k, p),
                WatchEvent::Deleted(_) => m.remove(k),
            }
        } else {
            m
        },
    }
}

/// A conditional write goes through exactly when the identity is cached at
/// the version the writer last observed.
pub open spec fn write_accepted(before: Map<Seq<char>, Pod>, k: Seq<char>, expected: u64) -> bool {
    before.dom().contains(k) && pod_version(before[k]) == expected
}

/// The metadata with its version token replaced.
pub open spec fn with_version(meta: ObjectMeta, v: u64) -> ObjectMeta {
    ObjectMeta { resourceVersion: Some(v), ..meta }
}

/// What an accepted desired-state write stores: the cached record with the
/// caller's spec taken and the version bumped; the observed status is kept.
pub open spec fn merge_spec_write(current: Pod, resource: Pod, v: u64) -> Pod {
    Pod {
        apiVersion: current.apiVersion,
        kind: current.kind,
        metadata: Some(with_version(current.metadata->Some_0, v)),
        spec: resource.spec,
        status: current.status,
    }
}

/// What an accepted observed-state write stores: the cached record with the
/// caller's status taken and the version bumped; the desired spec is kept.
pub open spec fn merge_live_write(current: Pod, resource: Pod, v: u64) -> Pod {
    Pod {
        apiVersion: current.apiVersion,
        kind: current.kind,
        metadata: Some(with_version(current.metadata->Some_0, v)),
        spec: current.spec,
        status: resource.status,
    }
}

/// The outcome of a conditional write: on success the merged record is stored
/// at the bumped version; each error names exactly the situation it reports,
/// and an error never mutates the cache.
pub open spec fn conditional_write_post(
    before: Map<Seq<char>, Pod>,
    stale: bool,
    after: Map<Seq<char>, Pod>,
    resource: Pod,
    expected: u64,
    merged: Pod,
    r: Result<Pod, StateError>,
) -> bool {
    match r {
        Ok(p) => {
            let k = pod_id_view(resource)->Some_0;
            &&& pod_id_view(resource) is Some
            &&& !stale
            &&& write_accepted(before, k, expected)
            &&& p == merged
            &&& pod_version(p) == expected + 1
            &&& after == before.insert(k, p)
        },
        Err(e) => {
            &&& after == before
            &&& match e {
                StateError::InvalidResource => pod_id_view(resource) is None,
                StateError::TransportLost => pod_id_view(resource) is Some && stale,
                StateError::NotFound => pod_id_view(resource) is Some && !stale && !before.dom().contains(pod_id_view(resource)->Some_0),
                StateError::Conflict => {
                    let k = pod_id_view(resource)->Some_0;
                    &&& pod_id_view(resource) is Some
                    &&& !stale
                    &&& before.dom().contains(k)
                    &&& pod_version(before[k]) != expected
                },
            }
        },
    }
}

/// A well-formed cache mapping: finitely many records, every record stored
/// under its own identity, and every stored record written at least once.
pub open spec fn map_wf(m: Map<Seq<char>, Pod>) -> bool {
    &&& m.dom().finite()
    &&& forall|k: Seq<char>|
        #[trigger] m.dom().contains(k) ==> pod_id_view(m[k]) == Some(k) && pod_version(m[k]) >= 1
}

/// `s` lists exactly the records of `m`, ascending by identity.
pub open spec fn listing_of(m: Map<Seq<char>, Pod>, s: Seq<Pod>) -> bool {
    &&& s.len() == m.len()
    &&& forall|i: int|
        0 <= i < s.len() ==> pod_id_view(#[trigger] s[i]) is Some && m.dom().contains(
            pod_id_view(s[i])->Some_0,
        ) && s[i] == m[pod_id_view(s[i])->Some_0]
    &&& forall|i: int, j: int|
        #![trigger s[i], s[j]]
        0 <= i < j < s.len() ==> crate::strutil::lex_lt(
            pod_id_view(s[i])->Some_0,
            pod_id_view(s[j])->Some_0,
        )
    &&& forall|k: Seq<char>|
        #[trigger] m.dom().contains(k) ==> exists|i: int|
            0 <= i < s.len() && pod_id_view(#[trigger] s[i]) == Some(k)
}

/// `s` is the queue of records of `m` with no assigned node, ascending by
/// identity.
pub open spec fn unscheduled_queue_of(m: Map<Seq<char>, Pod>, s: Seq<Pod>) -> bool {
    &&& forall|i: int|
        0 <= i < s.len() ==> pod_id_view(#[trigger] s[i]) is Some && m.dom().contains(
            pod_id_view(s[i])->Some_0,
        ) && s[i] == m[pod_id_view(s[i])->Some_0] && crate::api::pod_unscheduled(s[i])
    &&& forall|i: int, j: int|
        #![trigger s[i], s[j]]
        0 <= i < j < s.len() ==> crate::strutil::lex_lt(
            pod_id_view(s[i])->Some_0,
            pod_id_view(s[j])->Some_0,
        )
    &&& forall|k: Seq<char>|
        #[trigger] m.dom().contains(k) && crate::api::pod_unscheduled(m[k]) ==> exists|i: int|
            0 <= i < s.len() && pod_id_view(#[trigger] s[i]) == Some(k)
}

/// `s` is the listing of the records of `m` whose namespace is `ns`,
/// ascending by identity.
pub open spec fn namespace_listing_of(m: Map<Seq<char>, Pod>, ns: Seq<char>, s: Seq<Pod>) -> bool {
    &&& forall|i: int|
        0 <= i < s.len() ==> pod_id_view(#[trigger] s[i]) is Some && m.dom().contains(
            pod_id_view(s[i])->Some_0,
        ) && s[i] == m[pod_id_view(s[i])->Some_0] && crate::api::pod_namespace_view(s[i]) == Some(
            ns,
        )
    &&& forall|i: int, j: int|
        #![trigger s[i], s[j]]
        0 <= i < j < s.len() ==> crate::strutil::lex_lt(
            pod_id_view(s[i])->Some_0,
            pod_id_view(s[j])->Some_0,
        )
    &&& forall|k: Seq<char>|
        #[trigger] m.dom().contains(k) && crate::api::pod_namespace_view(m[k]) == Some(ns)
            ==> exists|i: int| 0 <= i < s.len() && pod_id_view(#[trigger] s[i]) == Some(k)
}

/// Lists the records of a well-formed pod map, ascending by identity.
pub(crate) fn list_pods(cache: &PodMap) -> (r: Vec<Pod>)
    requires
        map_wf(pod_map_contents(*cache)),
    ensures
        listing_of(pod_map_contents(*cache), r@),
{
    let ghost m = pod_map_contents(*cache);
    let keys = pod_map_keys(cache);
    let sorted = crate::strutil::sort_ids(keys);
    proof {
        broadcast use vstd::seq_lib::group_to_multiset_ensures;

        let kv = crate::strutil::views_of(keys@);
        let sv = crate::strutil::views_of(sorted@);
        assert(kv.no_duplicates());
        kv.lemma_multiset_has_no_duplicates();
        assert forall|x: Seq<char>| sv.to_multiset().contains(x) implies sv.to_multiset().count(x)
            == 1 by {
            assert(kv.to_multiset().count(x) == sv.to_multiset().count(x));
            assert(kv.contains(x));
        }
        sv.lemma_multiset_has_no_duplicates_conv();
        // every sorted entry is a cached key
        assert forall|i: int| 0 <= i < sorted@.len() implies m.dom().contains(
            #[trigger] sorted@[i]@,
        ) by {
            assert(sv[i] == sorted@[i]@);
            assert(sv.contains(sv[i]));
            assert(sv.to_multiset().count(sv[i]) > 0);
            assert(kv.to_multiset().count(sv[i]) > 0);
            assert(kv.contains(sv[i]));
            let j = choose|j: int| 0 <= j < kv.len() && kv[j] == sv[i];
            assert(keys@[j]@ == sv[i]);
        }
        // every cached key appears among the sorted entries
        assert forall|k: Seq<char>| #[trigger] m.dom().contains(k) implies exists|i: int|
            0 <= i < sorted@.len() && (#[trigger] sorted@[i]@) == k by {
            let j = choose|j: int| 0 <= j < keys@.len() && (#[trigger] keys@[j]@) == k;
            assert(kv[j] == k);
            assert(kv.contains(k));
            assert(kv.to_multiset().count(k) > 0);
            assert(sv.to_multiset().count(k) > 0);
            assert(sv.contains(k));
            let i = choose|i: int| 0 <= i < sv.len() && sv[i] == k;
            assert(sorted@[i]@ == k);
        }
        // strictly ascending: sorted, with all views distinct
        assert forall|i: int, j: int|
            #![trigger sorted@[i], sorted@[j]]
            0 <= i < j < sorted@.len() implies crate::strutil::lex_lt(
            sorted@[i]@,
            sorted@[j]@,
        ) by {
            assert(sv[i] == sorted@[i]@ && sv[j] == sorted@[j]@);
            assert(sv[i] != sv[j]);
            assert(crate::strutil::lex_le(sorted@[i]@, sorted@[j]@));
        }
    }
    let mut r: Vec<Pod> = Vec::new();
    let mut idx: usize = 0;
    while idx < sorted.len()
        invariant
            map_wf(m),
            m == pod_map_contents(*cache),
            idx <= sorted@.len(),
            r@.len() == idx,
            forall|i: int|
                0 <= i < sorted@.len() ==> m.dom().contains(#[trigger] sorted@[i]@),
            forall|i: int| 0 <= i < idx ==> #[trigger] r@[i] == m[sorted@[i]@],
        decreases sorted@.len() - idx,
    {
        let pod = match pod_map_get(cache, &sorted[idx]) {
            Some(p) => p,
            None => {
                proof {
                    assert(false);
                }
                return r;
            },
        };
        r.push(pod);
        idx += 1;
    }
    proof {
        assert forall|i: int| 0 <= i < r@.len() implies pod_id_view(#[trigger] r@[i]) is Some
            && m.dom().contains(pod_id_view(r@[i])->Some_0) && r@[i] == m[pod_id_view(
            r@[i],
        )->Some_0] by {
            assert(m.dom().contains(sorted@[i]@));
            assert(r@[i] == m[sorted@[i]@]);
            assert(pod_id_view(r@[i]) == Some(sorted@[i]@));
        }
        assert forall|i: int, j: int|
            #![trigger r@[i], r@[j]]
            0 <= i < j < r@.len() implies crate::strutil::lex_lt(
            pod_id_view(r@[i])->Some_0,
            pod_id_view(r@[j])->Some_0,
        ) by {
            assert(pod_id_view(r@[i]) == Some(sorted@[i]@));
            assert(pod_id_view(r@[j]) == Some(sorted@[j]@));
            assert(crate::strutil::lex_lt(sorted@[i]@, sorted@[j]@));
        }
        assert forall|k: Seq<char>| #[trigger] m.dom().contains(k) implies exists|i: int|
            0 <= i < r@.len() && pod_id_view(#[trigger] r@[i]) == Some(k) by {
            let i = choose|i: int| 0 <= i < sorted@.len() && (#[trigger] sorted@[i]@) == k;
            assert(pod_id_view(r@[i]) == Some(k));
        }
    }
    r
}

/// The authoritative cache of cluster state. All other components hold only
/// snapshots or deltas; every mutation comes back through this type.
pub struct StateManager {
    cache: PodMap,
    stale: bool,
}

impl StateManager {
    /// The mapping from identity to current record this manager holds.
    pub closed spec fn contents(self) -> Map<Seq<char>, Pod> {
        pod_map_contents(self.cache)
    }

    /// Whether the watch is lost and conflict-sensitive writes are refused.
    pub closed spec fn is_stale(self) -> bool {
        self.stale
    }

    /// Well-formed: the cache mapping is well-formed.
    pub open spec fn wf(self) -> bool {
        map_wf(self.contents())
    }

    /// An empty, fresh (not stale) manager.
    pub fn new() -> (s: StateManager)
        ensures
            s.wf(),
            s.contents() == empty_pod_map(),
            !s.is_stale(),
    {
        StateManager { cache: pod_map_new(), stale: false }
    }

    /// Marks the cache stale after the watch transport is lost; writes are
    /// refused until a resync re-establishes freshness.
    pub fn mark_stale(&mut self)
        requires
            old(self).wf(),
        ensures
            final(self).wf(),
            final(self).contents() == old(self).contents(),
            final(self).is_stale(),
    {
        self.stale = true;
    }

    /// Returns the cached record for the identity, or `NotFound`.
    pub fn get(&self, namespace: &str, name: &str) -> (r: Result<Pod, StateError>)
        ensures
            match r {
                Ok(p) => self.contents().dom().contains(id_view(namespace@, name@)) && p
                    == self.contents()[id_view(namespace@, name@)],
                Err(e) => e == StateError::NotFound && !self.contents().dom().contains(
                    id_view(namespace@, name@),
                ),
            },
    {
        let id = make_id(namespace, name);
        match pod_map_get(&self.cache, &id) {
            Some(p) => Ok(p),
            None => Err(StateError::NotFound),
        }
    }

    /// Folds one watch event into the cache. The fold is idempotent: a
    /// duplicate or out-of-order delivery (version not newer than the cached
    /// one) is a no-op, as is an event without identity.
    pub fn apply_event(&mut self, event: WatchEvent)
        requires
            old(self).wf(),
        ensures
            final(self).wf(),
            final(self).contents() == apply_event_view(old(self).contents(), event),
            final(self).is_stale() == old(self).is_stale(),
    {
        let (pod, deleted) = match event {
            WatchEvent::Created(p) => (p, false),
            WatchEvent::Updated(p) => (p, false),
            WatchEvent::Deleted(p) => (p, true),
        };
        let id = match get_id(&pod) {
            None => {
                return ;
            },
            Some(id) => id,
        };
        let ev_version = resource_version(&pod);
        let cached_v = match pod_map_get(&self.cache, &id) {
            Some(c) => resource_version(&c),
            None => 0,
        };
        if ev_version > cached_v {
            if deleted {
                pod_map_remove(&mut self.cache, &id);
            } else {
                pod_map_insert(&mut self.cache, id, pod);
            }
        }
    }

    /// Conditional desired-state write: stores the caller's spec with the
    /// version bumped by one, keeping the cached envelope and the currently
    /// observed status — but only if `expected_version` matches the cached
    /// version. Otherwise the cache is untouched and the error says exactly
    /// why.
    pub fn update_spec(&mut self, resource: Pod, expected_version: u64) -> (r: Result<
        Pod,
        StateError,
    >)
        requires
            old(self).wf(),
            expected_version < u64::MAX,
        ensures
            final(self).wf(),
            final(self).is_stale() == old(self).is_stale(),
            conditional_write_post(
                old(self).contents(),
                old(self).is_stale(),
                final(self).contents(),
                resource,
                expected_version,
                merge_spec_write(
                    cached_or(old(self).contents(), pod_id_view(resource), resource),
                    resource,
                    (expected_version + 1) as u64,
                ),
                r,
            ),
    {
        let id = match get_id(&resource) {
            None => {
                return Err(StateError::InvalidResource);
            },
            Some(id) => id,
        };
        if self.stale {
            return Err(StateError::TransportLost);
        }
        let current = match pod_map_get(&self.cache, &id) {
            None => {
                return Err(StateError::NotFound);
            },
            Some(c) => c,
        };
        if resource_version(&current) != expected_version {
            return Err(StateError::Conflict);
        }
        let mut current = current;
        let mut meta = match current.metadata.take() {
            Some(m) => m,
            None => {
                return Err(StateError::InvalidResource);
            },
        };
        meta.resourceVersion = Some(expected_version + 1);
        let merged = Pod {
            apiVersion: current.apiVersion,
            kind: current.kind,
            metadata: Some(meta),
            spec: resource.spec,
            status: current.status,
        };
        let key = id.clone();
        pod_map_insert(&mut self.cache, id, merged);
        match pod_map_get(&self.cache, &key) {
            Some(p) => Ok(p),
            None => {
                proof {
                    assert(false);
                }
                Err(StateError::NotFound)
            },
        }
    }

    /// Conditional observed-state write: stores the caller's status with the
    /// version bumped by one, keeping the cached envelope and spec — but only
    /// if `expected_version` matches the cached version. Otherwise the cache
    /// is untouched and the error says exactly why.
    pub fn update_live(&mut self, resource: Pod, expected_version: u64) -> (r: Result<
        Pod,
        StateError,
    >)
        requires
            old(self).wf(),
            expected_version < u64::MAX,
        ensures
            final(self).wf(),
            final(self).is_stale() == old(self).is_stale(),
            conditional_write_post(
                old(self).contents(),
                old(self).is_stale(),
                final(self).contents(),
                resource,
                expected_version,
                merge_live_write(
                    cached_or(old(self).contents(), pod_id_view(resource), resource),
                    resource,
                    (expected_version + 1) as u64,
                ),
                r,
            ),
    {
        let id = match get_id(&resource) {
            None => {
                return Err(StateError::InvalidResource);
            },
            Some(id) => id,
        };
        if self.stale {
            return Err(StateError::TransportLost);
        }
        let current = match pod_map_get(&self.cache, &id) {
            None => {
                return Err(StateError::NotFound);
            },
            Some(c) => c,
        };
        if resource_version(&current) != expected_version {
            return Err(StateError::Conflict);
        }
        let mut current = current;
        let mut meta = match current.metadata.take() {
            Some(m) => m,
            None => {
                return Err(StateError::InvalidResource);
            },
        };
        meta.resourceVersion = Some(expected_version + 1);
        let merged = Pod {
            apiVersion: current.apiVersion,
            kind: current.kind,
            metadata: Some(meta),
            spec: current.spec,
            status: resource.status,
        };
        let key = id.clone();
        pod_map_insert(&mut self.cache, id, merged);
        match pod_map_get(&self.cache, &key) {
            Some(p) => Ok(p),
            None => {
                proof {
                    assert(false);
                }
                Err(StateError::NotFound)
            },
        }
    }
}

/// An immutable, point-in-time view of cluster state: the full mapping from
/// identity to record, and the queue of Pods with no assigned node, ascending
/// by identity. Snapshots are never mutated after creation; a caller wanting
/// a fresher view requests a new one.
pub struct StateSnapshot {
    pub pods: PodMap,
    pub unscheduled_pods: Vec<Pod>,
}

impl StateSnapshot {
    /// The mapping this snapshot captured.
    pub open spec fn contents(self) -> Map<Seq<char>, Pod> {
        pod_map_contents(self.pods)
    }

    /// Well-formed: the mapping is well-formed and the queue is exactly its
    /// unscheduled records, in identity order.
    pub open spec fn wf(self) -> bool {
        &&& map_wf(self.contents())
        &&& unscheduled_queue_of(self.contents(), self.unscheduled_pods@)
    }

    /// The captured record for the identity, or `NotFound`.
    pub fn get(&self, namespace: &str, name: &str) -> (r: Result<Pod, StateError>)
        ensures
            match r {
                Ok(p) => self.contents().dom().contains(id_view(namespace@, name@)) && p
                    == self.contents()[id_view(namespace@, name@)],
                Err(e) => e == StateError::NotFound && !self.contents().dom().contains(
                    id_view(namespace@, name@),
                ),
            },
    {
        let id = make_id(namespace, name);
        match pod_map_get(&self.pods, &id) {
            Some(p) => Ok(p),
            None => Err(StateError::NotFound),
        }
    }

    /// Lists every captured record, ascending by identity.
    pub fn list(&self) -> (r: Vec<Pod>)
        requires
            self.wf(),
        ensures
            listing_of(self.contents(), r@),
    {
        list_pods(&self.pods)
    }
}

impl StateManager {
    /// Lists every cached record, ascending by identity.
    pub fn list(&self) -> (r: Vec<Pod>)
        requires
            self.wf(),
        ensures
            listing_of(self.contents(), r@),
    {
        list_pods(&self.cache)
    }

    /// Lists the cached records of one namespace, ascending by identity.
    #[verifier::rlimit(50)]
    pub fn list_namespace(&self, namespace: &str) -> (r: Vec<Pod>)
        requires
            self.wf(),
        ensures
            namespace_listing_of(self.contents(), namespace@, r@),
    {
        let ghost m = self.contents();
        let ns: String = namespace.to_owned();
        let all = list_pods(&self.cache);
        let mut r: Vec<Pod> = Vec::new();
        let mut idx: usize = 0;
        while idx < all.len()
            invariant
                map_wf(m),
                m == pod_map_contents(self.cache),
                ns@ == namespace@,
                listing_of(m, all@),
                idx <= all@.len(),
                forall|t: int|
                    0 <= t < r@.len() ==> exists|j: int| 0 <= j < idx && #[trigger] r@[t] == all@[j],
                forall|t: int|
                    0 <= t < r@.len() ==> pod_id_view(#[trigger] r@[t]) is Some && m.dom().contains(
                        pod_id_view(r@[t])->Some_0,
                    ) && r@[t] == m[pod_id_view(r@[t])->Some_0] && crate::api::pod_namespace_view(
                        r@[t],
                    ) == Some(namespace@),
                forall|t: int, u: int|
                    #![trigger r@[t], r@[u]]
                    0 <= t < u < r@.len() ==> crate::strutil::lex_lt(
                        pod_id_view(r@[t])->Some_0,
                        pod_id_view(r@[u])->Some_0,
                    ),
                forall|j: int|
                    0 <= j < idx && crate::api::pod_namespace_view(#[trigger] all@[j]) == Some(
                        namespace@,
                    ) ==> exists|t: int| 0 <= t < r@.len() && #[trigger] r@[t] == all@[j],
            decreases all@.len() - idx,
        {
            let ghost r0 = r@;
            let in_namespace = match &all[idx].metadata {
                Some(meta) => match &meta.namespace {
                    Some(pns) => pns.eq(&ns),
                    None => false,
                },
                None => false,
            };
            if in_namespace {
                let id = match get_id(&all[idx]) {
                    Some(id) => id,
                    None => {
                        proof {
                            assert(false);
                        }
                        continue ;
                    },
                };
                let pod = match pod_map_get(&self.cache, &id) {
                    Some(p) => p,
                    None => {
                        proof {
                            assert(false);
                        }
                        continue ;
                    },
                };
                proof {
                    assert(pod == all@[idx as int]);
                }
                r.push(pod);
                proof {
                    assert forall|t: int| 0 <= t < r@.len() implies exists|j: int|
                        0 <= j < idx + 1 && #[trigger] r@[t] == all@[j] by {
                        if t < r0.len() {
                            let j = choose|j: int| 0 <= j < idx && #[trigger] r0[t] == all@[j];
                            assert(r@[t] == all@[j]);
                        } else {
                            assert(r@[t] == all@[idx as int]);
                        }
                    }
                    assert forall|t: int, u: int|
                        #![trigger r@[t], r@[u]]
                        0 <= t < u < r@.len() implies crate::strutil::lex_lt(
                        pod_id_view(r@[t])->Some_0,
                        pod_id_view(r@[u])->Some_0,
                    ) by {
                        if u < r0.len() {
                            assert(r@[t] == r0[t] && r@[u] == r0[u]);
                        } else {
                            assert(r@[u] == all@[idx as int]);
                            let j = choose|j: int| 0 <= j < idx && #[trigger] r0[t] == all@[j];
                            assert(crate::strutil::lex_lt(
                                pod_id_view(all@[j])->Some_0,
                                pod_id_view(all@[idx as int])->Some_0,
                            ));
                        }
                    }
                    assert forall|j: int|
                        0 <= j < idx + 1 && crate::api::pod_namespace_view(#[trigger] all@[j])
                            == Some(namespace@) implies exists|t: int|
                        0 <= t < r@.len() && #[trigger] r@[t] == all@[j] by {
                        if j < idx {
                            let t = choose|t: int| 0 <= t < r0.len() && #[trigger] r0[t] == all@[j];
                            assert(r@[t] == all@[j]);
                        } else {
                            assert(r@[r0.len() as int] == all@[j]);
                        }
                    }
                }
            }
            idx += 1;
        }
        proof {
            assert forall|k: Seq<char>|
                #[trigger] m.dom().contains(k) && crate::api::pod_namespace_view(m[k]) == Some(
                    namespace@,
                ) implies exists|i: int|
                0 <= i < r@.len() && pod_id_view(#[trigger] r@[i]) == Some(k) by {
                let j = choose|j: int|
                    0 <= j < all@.len() && pod_id_view(#[trigger] all@[j]) == Some(k);
                assert(all@[j] == m[k]);
                let t = choose|t: int| 0 <= t < r@.len() && #[trigger] r@[t] == all@[j];
                assert(pod_id_view(r@[t]) == Some(k));
            }
        }
        r
    }

    /// Atomically captures the current mapping and the queue of Pods with no
    /// assigned node (ascending by identity). The snapshot is independent of
    /// later writes.
    #[verifier::rlimit(50)]
    pub fn snapshot(&self) -> (snap: StateSnapshot)
        requires
            self.wf(),
        ensures
            snap.wf(),
            snap.contents() == self.contents(),
    {
        let ghost m = self.contents();
        let pods = pod_map_clone(&self.cache);
        let all = list_pods(&self.cache);
        let mut unscheduled: Vec<Pod> = Vec::new();
        let mut idx: usize = 0;
        while idx < all.len()
            invariant
                map_wf(m),
                m == pod_map_contents(self.cache),
                listing_of(m, all@),
                idx <= all@.len(),
                forall|t: int|
                    0 <= t < unscheduled@.len() ==> exists|j: int|
                        0 <= j < idx && #[trigger] unscheduled@[t] == all@[j],
                forall|t: int|
                    0 <= t < unscheduled@.len() ==> pod_id_view(#[trigger] unscheduled@[t]) is Some
                        && m.dom().contains(pod_id_view(unscheduled@[t])->Some_0)
                        && unscheduled@[t] == m[pod_id_view(unscheduled@[t])->Some_0]
                        && crate::api::pod_unscheduled(unscheduled@[t]),
                forall|t: int, u: int|
                    #![trigger unscheduled@[t], unscheduled@[u]]
                    0 <= t < u < unscheduled@.len() ==> crate::strutil::lex_lt(
                        pod_id_view(unscheduled@[t])->Some_0,
                        pod_id_view(unscheduled@[u])->Some_0,
                    ),
                forall|j: int|
                    0 <= j < idx && crate::api::pod_unscheduled(#[trigger] all@[j]) ==> exists|
                        t: int,
                    |
                        0 <= t < unscheduled@.len() && #[trigger] unscheduled@[t] == all@[j],
            decreases all@.len() - idx,
        {
            let ghost un0 = unscheduled@;
            if crate::api::pod_is_unscheduled(&all[idx]) {
                let id = match get_id(&all[idx]) {
                    Some(id) => id,
                    None => {
                        proof {
                            assert(false);
                        }
                        continue ;
                    },
                };
                let pod = match pod_map_get(&self.cache, &id) {
                    Some(p) => p,
                    None => {
                        proof {
                            assert(false);
                        }
                        continue ;
                    },
                };
                proof {
                    assert(pod == all@[idx as int]);
                }
                unscheduled.push(pod);
                proof {
                    assert forall|t: int| 0 <= t < unscheduled@.len() implies exists|j: int|
                        0 <= j < idx + 1 && #[trigger] unscheduled@[t] == all@[j] by {
                        if t < un0.len() {
                            let j = choose|j: int|
                                0 <= j < idx && #[trigger] un0[t] == all@[j];
                            assert(unscheduled@[t] == all@[j]);
                        } else {
                            assert(unscheduled@[t] == all@[idx as int]);
                        }
                    }
                    assert forall|t: int, u: int|
                        #![trigger unscheduled@[t], unscheduled@[u]]
                        0 <= t < u < unscheduled@.len() implies crate::strutil::lex_lt(
                        pod_id_view(unscheduled@[t])->Some_0,
                        pod_id_view(unscheduled@[u])->Some_0,
                    ) by {
                        if u < un0.len() {
                            assert(unscheduled@[t] == un0[t] && unscheduled@[u] == un0[u]);
                        } else {
                            assert(unscheduled@[u] == all@[idx as int]);
                            let j = choose|j: int|
                                0 <= j < idx && #[trigger] un0[t] == all@[j];
                            assert(crate::strutil::lex_lt(
                                pod_id_view(all@[j])->Some_0,
                                pod_id_view(all@[idx as int])->Some_0,
                            ));
                        }
                    }
                    assert forall|j: int|
                        0 <= j < idx + 1 && crate::api::pod_unscheduled(
                            #[trigger] all@[j],
                        ) implies exists|t: int|
                        0 <= t < unscheduled@.len() && #[trigger] unscheduled@[t] == all@[j] by {
                        if j < idx {
                            let t = choose|t: int|
                                0 <= t < un0.len() && #[trigger] un0[t] == all@[j];
                            assert(unscheduled@[t] == all@[j]);
                        } else {
                            assert(unscheduled@[un0.len() as int] == all@[j]);
                        }
                    }
                }
            }
            idx += 1;
        }
        proof {
            // queue completeness: an unscheduled record of the mapping appears
            // in the listing, hence in the queue
            assert forall|k: Seq<char>|
                #[trigger] m.dom().contains(k) && crate::api::pod_unscheduled(m[k]) implies exists|
                i: int,
            |
                0 <= i < unscheduled@.len() && pod_id_view(#[trigger] unscheduled@[i]) == Some(
                    k,
                ) by {
                let j = choose|j: int|
                    0 <= j < all@.len() && pod_id_view(#[trigger] all@[j]) == Some(k);
                assert(all@[j] == m[k]);
                assert(crate::api::pod_unscheduled(all@[j]));
                let t = choose|t: int|
                    0 <= t < unscheduled@.len() && #[trigger] unscheduled@[t] == all@[j];
                assert(pod_id_view(unscheduled@[t]) == Some(k));
            }
        }
        StateSnapshot { pods, unscheduled_pods: unscheduled }
    }

    /// Rebuilds the cache from a full listing of the store and clears the
    /// stale mark: the resync that restores freshness after the watch was
    /// lost. Records without identity or never written are dropped.
    pub fn resync(&mut self, pods: Vec<Pod>)
        ensures
            final(self).wf(),
            !final(self).is_stale(),
            final(self).contents() == resync_fold(empty_pod_map(), pods@),
    {
        let ghost orig = pods@;
        let mut pods = pods;
        self.cache = pod_map_new();
        self.stale = false;
        while pods.len() > 0
            invariant
                pods@.len() <= orig.len(),
                pods@ == orig.skip(orig.len() - pods@.len()),
                map_wf(pod_map_contents(self.cache)),
                pod_map_contents(self.cache) == resync_fold(
                    empty_pod_map(),
                    orig.take(orig.len() - pods@.len()),
                ),
                self.stale == false,
            decreases pods@.len(),
        {
            let ghost done = orig.len() - pods@.len();
            let pod = pods.remove(0);
            proof {
                assert(pod == orig[done]);
                assert(pods@ =~= orig.skip(done + 1));
                assert(orig.take(done + 1).drop_last() =~= orig.take(done));
                assert(orig.take(done + 1).last() == orig[done]);
            }
            if let Some(id) = get_id(&pod) {
                if resource_version(&pod) >= 1 {
                    pod_map_insert(&mut self.cache, id, pod);
                }
            }
        }
        proof {
            assert(orig.take(orig.len() as int) =~= orig);
        }
    }
}

/// One step of the resync fold: a record with an identity that has been
/// written at least once replaces whatever the rebuilt cache held for it;
/// anything else is dropped.
pub open spec fn resync_fold(m: Map<Seq<char>, Pod>, pods: Seq<Pod>) -> Map<Seq<char>, Pod>
    decreases pods.len(),
{
    if pods.len() == 0 {
        m
    } else {
        let rest = resync_fold(m, pods.drop_last());
        let p = pods.last();
        match pod_id_view(p) {
            Some(k) => if pod_version(p) >= 1 {
                rest.insert(k, p)
            } else {
                rest
            },
            None => rest,
        }
    }
}

/// The cached record for an identity, or the fallback when none is cached.
pub open spec fn cached_or(m: Map<Seq<char>, Pod>, k: Option<Seq<char>>, fallback: Pod) -> Pod {
    match k {
        Some(k) => if m.dom().contains(k) {
            m[k]
        } else {
            fallback
        },
        None => fallback,
    }
}

/// Idempotent fold: applying the same watch event twice yields the same cache
/// as applying it once.
pub proof fn lemma_apply_event_idempotent(m: Map<Seq<char>, Pod>, e: WatchEvent)
    ensures
        apply_event_view(apply_event_view(m, e), e) == apply_event_view(m, e),
{
    match pod_id_view(event_pod(e)) {
        None => {},
        Some(k) => {
            let m1 = apply_event_view(m, e);
            if event_newer(m, k, event_pod(e)) {
                match e {
                    WatchEvent::Created(p) => {},
                    WatchEvent::Updated(p) => {},
                    WatchEvent::Deleted(p) => {
                        assert(m1.remove(k) =~= m1);
                    },
                }
            }
        },
    }
}

/// Version monotonicity: an accepted conditional write stores its record at a
/// strictly larger version than the one it replaced, so over any sequence of
/// accepted writes to one identity the resource version strictly increases.
pub proof fn lemma_accepted_write_increases_version(
    before: Map<Seq<char>, Pod>,
    k: Seq<char>,
    expected: u64,
    p: Pod,
)
    requires
        write_accepted(before, k, expected),
        pod_version(p) == expected + 1,
    ensures
        pod_version(p) > pod_version(before[k]),
{
}

/// Scheduler exclusivity: once one conditional write for an identity has been
/// accepted and folded in, a second write presenting the same expected
/// version can no longer be accepted — it is doomed to `Conflict`.
pub proof fn lemma_conditional_write_excludes(
    before: Map<Seq<char>, Pod>,
    after: Map<Seq<char>, Pod>,
    k: Seq<char>,
    expected: u64,
    p: Pod,
)
    requires
        write_accepted(before, k, expected),
        pod_version(p) == expected + 1,
        after == before.insert(k, p),
    ensures
        !write_accepted(after, k, expected),
{
}

} // verus!
