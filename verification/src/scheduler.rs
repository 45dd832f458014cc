//! The Scheduler: assigns each unscheduled Pod to exactly one Node.
//!
//! Scheduling is optimistic, snapshot-based and idempotent-on-retry: the
//! placement is computed from an immutable snapshot and committed through the
//! StateManager's conditional write, presenting the version the snapshot
//! observed. Losing that write (`Conflict`) just means re-read and
//! re-evaluate; no Pod is ever locked. The placement policy is deterministic:
//! any node with declared capacity left, ties broken by lowest current load,
//! then by node name.

use crate::api::{
    ObjectMeta, Pod, PodSpec, pod_id_view, pod_node_view, pod_unscheduled, pod_version,
    pod_is_unscheduled, resource_version,
};
use crate::interfaces::Node;
use crate::state::{StateManager, StateSnapshot, StateError, listing_of, write_accepted};
use crate::strutil::{lex_lt, str_lt};
use vstd::prelude::*;

verus! {

/// How many of the listed Pods are assigned to the named node.
pub open spec fn node_load(pods: Seq<Pod>, node: Seq<char>) -> nat
    decreases pods.len(),
{
    if pods.len() == 0 {
        0
    } else {
        node_load(pods.drop_last(), node) + if pod_node_view(pods.last()) == Some(node) {
            1nat
        } else {
            0nat
        }
    }
}

/// A node can take one more Pod when its current load is below its declared
/// capacity.
pub open spec fn node_eligible(pods: Seq<Pod>, n: Node) -> bool {
    node_load(pods, n.name@) < n.capacity
}

/// The deterministic tie-break: `a` is preferred over `b` when it carries
/// strictly less load, or the same load and the lexicographically lesser name.
pub open spec fn node_preferred(pods: Seq<Pod>, a: Node, b: Node) -> bool {
    ||| node_load(pods, a.name@) < node_load(pods, b.name@)
    ||| (node_load(pods, a.name@) == node_load(pods, b.name@) && lex_lt(a.name@, b.name@))
}

/// Counts the Pods assigned to the named node.
fn count_load(pods: &Vec<Pod>, node: &String) -> (n: usize)
    ensures
        n == node_load(pods@, node@),
{
    let mut n: usize = 0;
    let mut i: usize = 0;
    while i < pods.len()
        invariant
            i <= pods@.len(),
            n <= i,
            n == node_load(pods@.take(i as int), node@),
        decreases pods@.len() - i,
    {
        let assigned_here = match &pods[i].spec {
            Some(s) => match &s.nodeName {
                Some(nn) => nn.eq(node),
                None => false,
            },
            None => false,
        };
        proof {
            assert(pods@.take(i + 1).drop_last() =~= pods@.take(i as int));
            assert(pods@.take(i + 1).last() == pods@[i as int]);
        }
        if assigned_here {
            n += 1;
        }
        i += 1;
    }
    proof {
        assert(pods@.take(pods@.len() as int) =~= pods@);
    }
    n
}

/// Selects the node for the next placement: an eligible node no other
/// eligible node is preferred over. Returns its index, or nothing when no
/// node has capacity left.
pub fn select_node(pods: &Vec<Pod>, nodes: &Vec<Node>) -> (r: Option<usize>)
    ensures
        match r {
            Some(j) => j < nodes@.len() && node_eligible(pods@, nodes@[j as int]) && forall|t: int|
                0 <= t < nodes@.len() && node_eligible(pods@, #[trigger] nodes@[t])
                    ==> !node_preferred(pods@, nodes@[t], nodes@[j as int]),
            None => forall|t: int|
                0 <= t < nodes@.len() ==> !node_eligible(pods@, #[trigger] nodes@[t]),
        },
{
    let mut best: Option<usize> = None;
    let mut best_load: usize = 0;
    let mut t: usize = 0;
    while t < nodes.len()
        invariant
            t <= nodes@.len(),
            match best {
                Some(j) => j < t && node_eligible(pods@, nodes@[j as int]) && best_load
                    == node_load(pods@, nodes@[j as int].name@) && forall|u: int|
                    0 <= u < t && node_eligible(pods@, #[trigger] nodes@[u]) ==> !node_preferred(
                        pods@,
                        nodes@[u],
                        nodes@[j as int],
                    ),
                None => forall|u: int| 0 <= u < t ==> !node_eligible(pods@, #[trigger] nodes@[u]),
            },
        decreases nodes@.len() - t,
    {
        let load = count_load(pods, &nodes[t].name);
        if (load as u64) < nodes[t].capacity {
            let take_it = match best {
                None => true,
                Some(j) => load < best_load || (load == best_load && str_lt(
                    nodes[t].name.as_str(),
                    nodes[j].name.as_str(),
                )),
            };
            if take_it {
                proof {
                    assert forall|u: int|
                        0 <= u < t + 1 && node_eligible(pods@, #[trigger] nodes@[u]) implies
                        !node_preferred(pods@, nodes@[u], nodes@[t as int]) by {
                        crate::strutil::lemma_lex_lt_irrefl(nodes@[t as int].name@);
                        if u < t {
                            match best {
                                Some(j) => {
                                    if lex_lt(nodes@[u].name@, nodes@[t as int].name@) && lex_lt(
                                        nodes@[t as int].name@,
                                        nodes@[j as int].name@,
                                    ) {
                                        crate::strutil::lemma_lex_lt_trans(
                                            nodes@[u].name@,
                                            nodes@[t as int].name@,
                                            nodes@[j as int].name@,
                                        );
                                    }
                                },
                                None => {},
                            }
                        }
                    }
                }
                best = Some(t);
                best_load = load;
            }
        }
        t += 1;
    }
    best
}

/// Builds the record a scheduling commit submits: the Pod's identity with a
/// spec that assigns it to the named node, keeping its container list.
fn make_assignment(pod: &Pod, node_name: &String) -> (r: Option<Pod>)
    ensures
        match r {
            Some(a) => pod_id_view(a) == pod_id_view(*pod) && pod_id_view(a) is Some
                && pod_node_view(a) == Some(node_name@),
            None => pod_id_view(*pod) is None,
        },
{
    let meta = match &pod.metadata {
        Some(m) => m,
        None => {
            return None;
        },
    };
    let ns = match &meta.namespace {
        Some(x) => x.clone(),
        None => {
            return None;
        },
    };
    let name = match &meta.name {
        Some(x) => x.clone(),
        None => {
            return None;
        },
    };
    let containers = match &pod.spec {
        Some(s) => clone_strings(&s.containers),
        None => Vec::new(),
    };
    Some(
        Pod {
            apiVersion: pod.apiVersion.clone(),
            kind: pod.kind.clone(),
            metadata: Some(
                ObjectMeta {
                    annotations: None,
                    clusterName: None,
                    creationTimestamp: None,
                    deletionGracePeriodSeconds: None,
                    deletionTimestamp: None,
                    finalizers: None,
                    generateName: None,
                    generation: None,
                    initializers: None,
                    labels: None,
                    name: Some(name),
                    namespace: Some(ns),
                    ownerReferences: None,
                    resourceVersion: None,
                    selfLink: None,
                    uid: None,
                },
            ),
            spec: Some(PodSpec { nodeName: Some(node_name.clone()), containers }),
            status: None,
        },
    )
}

/// Clones a list of strings, keeping every view.
fn clone_strings(v: &Vec<String>) -> (r: Vec<String>)
    ensures
        r@.len() == v@.len(),
        forall|i: int| 0 <= i < v@.len() ==> (#[trigger] r@[i]@) == v@[i]@,
{
    let mut r: Vec<String> = Vec::new();
    let mut i: usize = 0;
    while i < v.len()
        invariant
            i <= v@.len(),
            r@.len() == i,
            forall|j: int| 0 <= j < i ==> (#[trigger] r@[j]@) == v@[j]@,
        decreases v@.len() - i,
    {
        r.push(v[i].clone());
        i += 1;
    }
    r
}

/// Attempts to place one unscheduled Pod and commit the assignment through
/// the StateManager's conditional write, presenting the version the snapshot
/// observed. On `Conflict` the Pod is re-read once: if it vanished or was
/// scheduled meanwhile it is dropped from consideration, otherwise the write
/// is retried with the fresh version. Returns the committed record, or
/// nothing when the Pod was skipped; a skipped Pod leaves the cache exactly
/// as it was.
pub fn schedule_pod(sm: &mut StateManager, pods: &Vec<Pod>, nodes: &Vec<Node>, pod: &Pod) -> (r:
    Option<Pod>)
    requires
        old(sm).wf(),
    ensures
        final(sm).wf(),
        final(sm).is_stale() == old(sm).is_stale(),
        match r {
            Some(p) => {
                let k = pod_id_view(*pod)->Some_0;
                &&& pod_id_view(*pod) is Some
                &&& old(sm).contents().dom().contains(k)
                &&& final(sm).contents() == old(sm).contents().insert(k, p)
                &&& !pod_unscheduled(p)
                &&& pod_version(p) == pod_version(old(sm).contents()[k]) + 1
                &&& exists|j: int|
                    0 <= j < nodes@.len() && pod_node_view(p) == Some(
                        (#[trigger] nodes@[j]).name@,
                    ) && node_eligible(pods@, nodes@[j])
            },
            None => final(sm).contents() == old(sm).contents(),
        },
        (pod_id_view(*pod) matches Some(k) && !old(sm).is_stale() && write_accepted(
            old(sm).contents(),
            k,
            pod_version(*pod),
        ) && pod_version(*pod) < u64::MAX && (exists|j: int|
            0 <= j < nodes@.len() && node_eligible(pods@, #[trigger] nodes@[j]))) ==> r is Some,
{
    let node_idx = match select_node(pods, nodes) {
        Some(j) => j,
        None => {
            return None;
        },
    };
    let assignment = match make_assignment(pod, &nodes[node_idx].name) {
        Some(a) => a,
        None => {
            return None;
        },
    };
    let expected = resource_version(pod);
    if expected == u64::MAX {
        return None;
    }
    match sm.update_spec(assignment, expected) {
        Ok(p) => Some(p),
        Err(StateError::Conflict) => {
            // mutated concurrently: re-read, then retry once or drop
            let meta = match &pod.metadata {
                Some(m) => m,
                None => {
                    proof {
                        assert(false);
                    }
                    return None;
                },
            };
            let ns = match &meta.namespace {
                Some(x) => x,
                None => {
                    proof {
                        assert(false);
                    }
                    return None;
                },
            };
            let name = match &meta.name {
                Some(x) => x,
                None => {
                    proof {
                        assert(false);
                    }
                    return None;
                },
            };
            let fresh = match sm.get(ns.as_str(), name.as_str()) {
                Ok(f) => f,
                Err(_) => {
                    return None;
                },
            };
            if !pod_is_unscheduled(&fresh) {
                return None;
            }
            let fresh_version = resource_version(&fresh);
            if fresh_version == u64::MAX {
                return None;
            }
            let retry = match make_assignment(pod, &nodes[node_idx].name) {
                Some(a) => a,
                None => {
                    proof {
                        assert(false);
                    }
                    return None;
                },
            };
            match sm.update_spec(retry, fresh_version) {
                Ok(p) => Some(p),
                Err(_) => None,
            }
        },
        Err(_) => None,
    }
}

/// The identities whose records differ between two cache states.
pub open spec fn changed_keys(m0: Map<Seq<char>, Pod>, m1: Map<Seq<char>, Pod>) -> Set<Seq<char>> {
    Set::new(|k: Seq<char>| m0.dom().contains(k) && m1[k] != m0[k])
}

/// The conditions under which one pass owes a committed assignment for every
/// Pod of the queue: the manager is fresh, every queue version has room to be
/// bumped, and some node declares more capacity than there are records at all
/// (so it is eligible whatever the current placement).
pub open spec fn placement_guaranteed(
    m: Map<Seq<char>, Pod>,
    stale: bool,
    queue: Seq<Pod>,
    nodes: Seq<Node>,
) -> bool {
    &&& !stale
    &&& forall|i: int| 0 <= i < queue.len() ==> pod_version(#[trigger] queue[i]) < u64::MAX
    &&& exists|j: int| 0 <= j < nodes.len() && (#[trigger] nodes[j]).capacity > m.len()
}

/// A node's load never exceeds the number of listed Pods.
proof fn lemma_node_load_bounded(pods: Seq<Pod>, node: Seq<char>)
    ensures
        node_load(pods, node) <= pods.len(),
    decreases pods.len(),
{
    if pods.len() > 0 {
        lemma_node_load_bounded(pods.drop_last(), node);
    }
}

/// One scheduling pass: walks the snapshot's unscheduled queue (already in
/// ascending identity order) and attempts to place and commit each Pod.
/// Returns how many records were committed: exactly the number of identities
/// whose cached record changed. A localized failure never stops the pass; the
/// remaining Pods are still processed. When the snapshot is current and
/// placement is guaranteed, every Pod of the queue ends up assigned.
#[verifier::rlimit(50)]
pub fn schedule(sm: &mut StateManager, snap: &StateSnapshot, nodes: &Vec<Node>) -> (committed:
    usize)
    requires
        old(sm).wf(),
        snap.wf(),
    ensures
        final(sm).wf(),
        final(sm).is_stale() == old(sm).is_stale(),
        committed <= snap.unscheduled_pods@.len(),
        final(sm).contents().dom() == old(sm).contents().dom(),
        forall|k: Seq<char>|
            #[trigger] old(sm).contents().dom().contains(k) ==> final(sm).contents()[k] == old(
                sm,
            ).contents()[k] || (!pod_unscheduled(final(sm).contents()[k]) && pod_version(
                final(sm).contents()[k],
            ) > pod_version(old(sm).contents()[k])),
        changed_keys(old(sm).contents(), final(sm).contents()).finite(),
        committed == changed_keys(old(sm).contents(), final(sm).contents()).len(),
        (snap.contents() == old(sm).contents() && placement_guaranteed(
            old(sm).contents(),
            old(sm).is_stale(),
            snap.unscheduled_pods@,
            nodes@,
        )) ==> forall|i: int|
            0 <= i < snap.unscheduled_pods@.len() ==> !pod_unscheduled(
                final(sm).contents()[pod_id_view(#[trigger] snap.unscheduled_pods@[i])->Some_0],
            ),
{
    let all = snap.list();
    let ghost old0 = old(sm).contents();
    let ghost queue = snap.unscheduled_pods@;
    let ghost guaranteed = snap.contents() == old0 && placement_guaranteed(
        old0,
        old(sm).is_stale(),
        queue,
        nodes@,
    );
    let mut committed: usize = 0;
    let mut idx: usize = 0;
    proof {
        assert(changed_keys(old0, sm.contents()) =~= Set::<Seq<char>>::empty());
    }
    while idx < snap.unscheduled_pods.len()
        invariant
            sm.wf(),
            old(sm).wf(),
            snap.wf(),
            listing_of(snap.contents(), all@),
            sm.is_stale() == old(sm).is_stale(),
            old0 == old(sm).contents(),
            queue == snap.unscheduled_pods@,
            guaranteed == (snap.contents() == old0 && placement_guaranteed(
                old0,
                old(sm).is_stale(),
                queue,
                nodes@,
            )),
            idx <= queue.len(),
            committed <= idx,
            sm.contents().dom() == old0.dom(),
            forall|k: Seq<char>|
                #[trigger] old0.dom().contains(k) ==> sm.contents()[k] == old0[k] || (
                !pod_unscheduled(sm.contents()[k]) && pod_version(sm.contents()[k]) > pod_version(
                    old0[k],
                )),
            changed_keys(old0, sm.contents()).finite(),
            committed == changed_keys(old0, sm.contents()).len(),
            forall|k: Seq<char>|
                changed_keys(old0, sm.contents()).contains(k) ==> exists|j: int|
                    0 <= j < idx && pod_id_view(#[trigger] queue[j]) == Some(k),
            forall|j: int|
                idx <= j < queue.len() ==> sm.contents()[pod_id_view(#[trigger] queue[j])->Some_0]
                    == old0[pod_id_view(queue[j])->Some_0],
            guaranteed ==> forall|j: int|
                0 <= j < idx ==> !pod_unscheduled(
                    sm.contents()[pod_id_view(#[trigger] queue[j])->Some_0],
                ),
        decreases queue.len() - idx,
    {
        let ghost prev = sm.contents();
        let ghost k = pod_id_view(queue[idx as int])->Some_0;
        proof {
            // queue identities are pairwise distinct: the queue is strictly
            // ascending
            assert forall|j: int| 0 <= j < queue.len() && j != idx implies pod_id_view(
                #[trigger] queue[j],
            ) != pod_id_view(queue[idx as int]) by {
                if pod_id_view(queue[j]) == pod_id_view(queue[idx as int]) {
                    if j < idx {
                        assert(crate::strutil::lex_lt(
                            pod_id_view(queue[j])->Some_0,
                            pod_id_view(queue[idx as int])->Some_0,
                        ));
                    } else {
                        assert(crate::strutil::lex_lt(
                            pod_id_view(queue[idx as int])->Some_0,
                            pod_id_view(queue[j])->Some_0,
                        ));
                    }
                    crate::strutil::lemma_lex_lt_irrefl(k);
                }
            }
            // when placement is guaranteed, this Pod's commit is owed
            if guaranteed {
                let j = choose|j: int|
                    0 <= j < nodes@.len() && (#[trigger] nodes@[j]).capacity > old0.len();
                lemma_node_load_bounded(all@, nodes@[j].name@);
                assert(all@.len() == snap.contents().len());
                assert(node_eligible(all@, nodes@[j]));
                assert(queue[idx as int] == snap.contents()[k]);
                assert(prev[k] == old0[k]);
                assert(write_accepted(prev, k, pod_version(queue[idx as int])));
            }
        }
        let placed = schedule_pod(sm, &all, nodes, &snap.unscheduled_pods[idx]);
        if placed.is_some() {
            committed += 1;
        }
        proof {
            assert(sm.contents().dom() =~= prev.dom());
            if placed is Some {
                let p = placed->Some_0;
                assert(prev[k] == old0[k]);
                assert(p != old0[k]) by {
                    assert(pod_version(p) == pod_version(old0[k]) + 1);
                }
                assert(!changed_keys(old0, prev).contains(k));
                assert(changed_keys(old0, sm.contents()) =~= changed_keys(old0, prev).insert(k));
                assert forall|x: Seq<char>|
                    changed_keys(old0, sm.contents()).contains(x) implies exists|j: int|
                    0 <= j < idx + 1 && pod_id_view(#[trigger] queue[j]) == Some(x) by {
                    if x == k {
                        assert(pod_id_view(queue[idx as int]) == Some(x));
                    } else {
                        let j = choose|j: int|
                            0 <= j < idx && pod_id_view(#[trigger] queue[j]) == Some(x);
                        assert(pod_id_view(queue[j]) == Some(x));
                    }
                }
                assert forall|j: int|
                    idx + 1 <= j < queue.len() implies sm.contents()[pod_id_view(
                    #[trigger] queue[j],
                )->Some_0] == old0[pod_id_view(queue[j])->Some_0] by {
                    assert(pod_id_view(queue[j]) != pod_id_view(queue[idx as int]));
                }
                if guaranteed {
                    assert forall|j: int| 0 <= j < idx + 1 implies !pod_unscheduled(
                        sm.contents()[pod_id_view(#[trigger] queue[j])->Some_0],
                    ) by {
                        if j < idx {
                            assert(pod_id_view(queue[j]) != pod_id_view(queue[idx as int]));
                        }
                    }
                }
            } else {
                assert(changed_keys(old0, sm.contents()) =~= changed_keys(old0, prev));
                if guaranteed {
                    // the success-owed clause of schedule_pod forbids this arm
                    assert(false);
                }
            }
        }
        idx += 1;
    }
    committed
}

} // verus!
