//! Pod identity derivation and the initial-status transformation a Kubelet
//! applies to a newly observed Pod.

use crate::api::{Pod, PodCondition, PodPhase, PodStatus, pod_id_view, id_view};
use vstd::prelude::*;
use vstd::seq_lib::*;
use vstd::string::StringExecFns;

verus! {

/// The condition types the initial-status transformation owns and replaces.
pub open spec fn reserved_condition_type(t: Seq<char>) -> bool {
    t == "Initialized"@ || t == "Ready"@ || t == "ContainersReady"@
}

/// The conditions of a Pod's status, empty when no status or none recorded.
pub open spec fn pod_conditions(pod: Pod) -> Seq<PodCondition> {
    match pod.status {
        Some(st) => match st.conditions {
            Some(cs) => cs@,
            None => Seq::empty(),
        },
        None => Seq::empty(),
    }
}

/// The conditions whose types the initial-status transformation does not own;
/// these are kept untouched, in order.
pub open spec fn foreign_conditions(cs: Seq<PodCondition>) -> Seq<PodCondition> {
    cs.filter(|c: PodCondition| !reserved_condition_type(c.condition_type@))
}

/// How many conditions of type `t` a condition list carries.
pub open spec fn count_condition_type(cs: Seq<PodCondition>, t: Seq<char>) -> nat {
    cs.filter(|c: PodCondition| c.condition_type@ == t).len()
}

/// The names of the Pod's containers; none when it carries no spec.
pub open spec fn pod_containers(pod: Pod) -> Seq<String> {
    match pod.spec {
        Some(s) => s.containers@,
        None => Seq::empty(),
    }
}

/// The given names joined with ", ".
pub open spec fn joined_names(names: Seq<String>) -> Seq<char>
    decreases names.len(),
{
    if names.len() == 0 {
        Seq::empty()
    } else if names.len() == 1 {
        names[0]@
    } else {
        joined_names(names.drop_last()) + ", "@ + names.last()@
    }
}

/// The message of the not-ready baseline: it names the Pod's containers,
/// which are not yet ready.
pub open spec fn unready_message(names: Seq<String>) -> Seq<char> {
    "containers with unready status: ["@ + joined_names(names) + "]"@
}

/// The not-ready baseline for the `Initialized` condition.
pub open spec fn is_baseline_initialized(c: PodCondition) -> bool {
    &&& c.condition_type@ == "Initialized"@
    &&& c.status@ == "False"@
    &&& c.lastProbeTime is None
    &&& c.lastTransitionTime is None
    &&& c.message is None
    &&& c.reason is None
}

/// The not-ready baseline for a condition of type `t`, naming the Pod's
/// containers in its message.
pub open spec fn is_baseline_not_ready(c: PodCondition, t: Seq<char>, names: Seq<String>) -> bool {
    &&& c.condition_type@ == t
    &&& c.status@ == "False"@
    &&& c.lastProbeTime is None
    &&& c.lastTransitionTime is None
    &&& c.message matches Some(m) && m@ == unready_message(names)
    &&& c.reason matches Some(r) && r@ == "ContainersNotReady"@
}

/// The condition list after the initial-status transformation: the foreign
/// conditions of the old list, in order, followed by exactly one fresh
/// not-ready condition of each reserved type.
pub open spec fn conditions_reset(
    old_cs: Seq<PodCondition>,
    new_cs: Seq<PodCondition>,
    names: Seq<String>,
) -> bool {
    let kept = foreign_conditions(old_cs);
    &&& new_cs.len() == kept.len() + 3
    &&& new_cs.take(kept.len() as int) == kept
    &&& is_baseline_initialized(new_cs[kept.len() as int])
    &&& is_baseline_not_ready(new_cs[kept.len() as int + 1], "Ready"@, names)
    &&& is_baseline_not_ready(new_cs[kept.len() as int + 2], "ContainersReady"@, names)
}

/// Relates a Pod before and after the initial-status transformation: identity,
/// spec and the status fields not owned by the transformation are untouched,
/// the phase becomes `Pending`, and the conditions are reset.
pub open spec fn initial_status_set(before: Pod, after: Pod) -> bool {
    &&& after.apiVersion == before.apiVersion
    &&& after.kind == before.kind
    &&& after.metadata == before.metadata
    &&& after.spec == before.spec
    &&& match after.status {
        Some(st) => {
            &&& st.phase == Some(PodPhase::Pending)
            &&& st.conditions matches Some(cs) && conditions_reset(
                pod_conditions(before),
                cs@,
                pod_containers(before),
            )
            &&& match before.status {
                Some(old_st) => {
                    &&& st.containerStatuses == old_st.containerStatuses
                    &&& st.hostIP == old_st.hostIP
                    &&& st.initContainerStatuses == old_st.initContainerStatuses
                    &&& st.message == old_st.message
                    &&& st.nominatedNodeName == old_st.nominatedNodeName
                    &&& st.podIP == old_st.podIP
                    &&& st.qosClass == old_st.qosClass
                    &&& st.reason == old_st.reason
                    &&& st.startTime == old_st.startTime
                },
                None => {
                    &&& st.containerStatuses is None
                    &&& st.hostIP is None
                    &&& st.initContainerStatuses is None
                    &&& st.message is None
                    &&& st.nominatedNodeName is None
                    &&& st.podIP is None
                    &&& st.qosClass is None
                    &&& st.reason is None
                    &&& st.startTime is None
                },
            }
        },
        None => false,
    }
}

impl Default for PodStatus {
    /// An empty status: nothing observed yet.
    fn default() -> (r: PodStatus)
        ensures
            r.conditions is None,
            r.containerStatuses is None,
            r.hostIP is None,
            r.initContainerStatuses is None,
            r.message is None,
            r.nominatedNodeName is None,
            r.phase is None,
            r.podIP is None,
            r.qosClass is None,
            r.reason is None,
            r.startTime is None,
    {
        PodStatus {
            conditions: None,
            containerStatuses: None,
            hostIP: None,
            initContainerStatuses: None,
            message: None,
            nominatedNodeName: None,
            phase: None,
            podIP: None,
            qosClass: None,
            reason: None,
            startTime: None,
        }
    }
}

/// A fresh `Initialized` condition with the given status.
pub fn pod_initialized_condition(status: String) -> (c: PodCondition)
    ensures
        c.condition_type@ == "Initialized"@,
        c.lastProbeTime is None,
        c.lastTransitionTime is None,
        c.message is None,
        c.reason is None,
        c.status == status,
{
    PodCondition {
        condition_type: "Initialized".to_owned(),
        lastProbeTime: None,
        lastTransitionTime: None,
        message: None,
        reason: None,
        status,
    }
}

/// A fresh `Ready` condition with the given status, reason and message.
pub fn pod_ready_condition(status: String, reason: Option<String>, message: Option<String>) -> (c:
    PodCondition)
    ensures
        c.condition_type@ == "Ready"@,
        c.lastProbeTime is None,
        c.lastTransitionTime is None,
        c.message == message,
        c.reason == reason,
        c.status == status,
{
    PodCondition {
        condition_type: "Ready".to_owned(),
        lastProbeTime: None,
        lastTransitionTime: None,
        message,
        reason,
        status,
    }
}

/// A fresh `ContainersReady` condition with the given status, reason and
/// message.
pub fn pod_containers_ready_condition(
    status: String,
    reason: Option<String>,
    message: Option<String>,
) -> (c: PodCondition)
    ensures
        c.condition_type@ == "ContainersReady"@,
        c.lastProbeTime is None,
        c.lastTransitionTime is None,
        c.message == message,
        c.reason == reason,
        c.status == status,
{
    PodCondition {
        condition_type: "ContainersReady".to_owned(),
        lastProbeTime: None,
        lastTransitionTime: None,
        message,
        reason,
        status,
    }
}

/// Decides whether a condition type is one the transformation replaces.
fn condition_type_reserved(t: &String) -> (r: bool)
    ensures
        r == reserved_condition_type(t@),
{
    let initialized = String::from_str("Initialized");
    let ready = String::from_str("Ready");
    let containers_ready = String::from_str("ContainersReady");
    t.eq(&initialized) || t.eq(&ready) || t.eq(&containers_ready)
}

/// Drops every condition of a reserved type, keeping the rest in order.
fn filter_foreign(v: Vec<PodCondition>) -> (r: Vec<PodCondition>)
    ensures
        r@ == foreign_conditions(v@),
    decreases v@.len(),
{
    let ghost orig = v@;
    let mut v = v;
    match v.pop() {
        None => {
            proof {
                reveal(Seq::filter);
                assert(foreign_conditions(orig) =~= orig);
            }
            v
        },
        Some(last) => {
            proof {
                assert(v@ =~= orig.drop_last());
            }
            let mut r = filter_foreign(v);
            if !condition_type_reserved(&last.condition_type) {
                r.push(last);
            }
            proof {
                reveal(Seq::filter);
                assert(orig.last() == last);
                assert(r@ == foreign_conditions(orig));
            }
            r
        },
    }
}

/// Gives a Pod the status a Kubelet reports for a newly observed Pod: phase
/// `Pending`, with exactly one `Initialized`, one `Ready` and one
/// `ContainersReady` condition in the not-yet-ready baseline, replacing (never
/// duplicating) any pre-existing conditions of those types.
pub fn set_initial_pod_status(pod: &mut Pod)
    ensures
        initial_status_set(*old(pod), *final(pod)),
{
    let message = match &pod.spec {
        Some(s) => unready_status_message(&s.containers),
        None => {
            let no_names: Vec<String> = Vec::new();
            unready_status_message(&no_names)
        },
    };
    proof {
        assert(message@ =~= unready_message(pod_containers(*old(pod))));
    }
    let mut status = match pod.status.take() {
        None => PodStatus::default(),
        Some(st) => st,
    };
    let conditions = match status.conditions.take() {
        None => Vec::new(),
        Some(cs) => cs,
    };
    let ghost old_cs = pod_conditions(*old(pod));
    proof {
        assert(conditions@ =~= old_cs);
    }
    let mut kept = filter_foreign(conditions);
    let ghost kept0 = kept@;
    kept.push(pod_initialized_condition(String::from_str("False")));
    kept.push(
        pod_ready_condition(
            String::from_str("False"),
            Some(String::from_str("ContainersNotReady")),
            Some(message.clone()),
        ),
    );
    kept.push(
        pod_containers_ready_condition(
            String::from_str("False"),
            Some(String::from_str("ContainersNotReady")),
            Some(message),
        ),
    );
    proof {
        assert(kept@.take(kept0.len() as int) =~= kept0);
    }
    status.conditions = Some(kept);
    status.phase = Some(PodPhase::Pending);
    pod.status = Some(status);
}

/// Builds the not-ready baseline message naming the given containers.
fn unready_status_message(names: &Vec<String>) -> (r: String)
    ensures
        r@ == unready_message(names@),
{
    let mut joined = String::new();
    let mut i: usize = 0;
    while i < names.len()
        invariant
            i <= names@.len(),
            joined@ == joined_names(names@.take(i as int)),
        decreases names@.len() - i,
    {
        if i > 0 {
            joined.append(", ");
        }
        joined.append(names[i].as_str());
        proof {
            assert(names@.take(i + 1).drop_last() =~= names@.take(i as int));
            assert(names@.take(i + 1).last() == names@[i as int]);
            assert(joined@ =~= joined_names(names@.take(i + 1)));
        }
        i += 1;
    }
    proof {
        assert(names@.take(names@.len() as int) =~= names@);
    }
    let mut r = "containers with unready status: [".to_owned();
    r.append(joined.as_str());
    r.append("]");
    proof {
        assert(r@ =~= unready_message(names@));
    }
    r
}

/// Returns the "namespace/name" identity of a Pod, or nothing when the
/// metadata does not carry both parts.
pub fn get_id(pod: &Pod) -> (r: Option<String>)
    ensures
        match r {
            Some(s) => pod_id_view(*pod) == Some(s@),
            None => pod_id_view(*pod) is None,
        },
{
    let meta = match &pod.metadata {
        None => {
            return None;
        },
        Some(m) => m,
    };
    let ns = match &meta.namespace {
        None => {
            return None;
        },
        Some(ns) => ns,
    };
    let name = match &meta.name {
        None => {
            return None;
        },
        Some(n) => n,
    };
    let mut id = ns.clone();
    id.append("/");
    id.append(name.as_str());
    proof {
        reveal_strlit("/");
        assert(id@ =~= id_view(ns@, name@));
    }
    Some(id)
}

/// Replace, not duplicate: after the initial-status transformation — applied
/// once or any number of times — a Pod carries exactly one condition of each
/// reserved type, and the conditions of other types are exactly those the Pod
/// had before, in order.
pub proof fn lemma_initial_status_replaces_not_duplicates(before: Pod, after: Pod)
    requires
        initial_status_set(before, after),
    ensures
        count_condition_type(pod_conditions(after), "Initialized"@) == 1,
        count_condition_type(pod_conditions(after), "Ready"@) == 1,
        count_condition_type(pod_conditions(after), "ContainersReady"@) == 1,
        foreign_conditions(pod_conditions(after)) == foreign_conditions(pod_conditions(before)),
{
    let old_cs = pod_conditions(before);
    let new_cs = pod_conditions(after);
    let kept = foreign_conditions(old_cs);
    let k = kept.len() as int;
    let tail = seq![new_cs[k], new_cs[k + 1], new_cs[k + 2]];
    assert(new_cs =~= kept + tail);
    reveal_strlit("Initialized");
    reveal_strlit("Ready");
    reveal_strlit("ContainersReady");
    assert("Initialized"@.len() == 11 && "Ready"@.len() == 5 && "ContainersReady"@.len() == 15);
    assert("Initialized"@ != "Ready"@);
    assert("Initialized"@ != "ContainersReady"@);
    assert("Ready"@ != "ContainersReady"@);
    lemma_foreign_filtered(old_cs);
    lemma_count_concat(kept, tail, "Initialized"@);
    lemma_count_concat(kept, tail, "Ready"@);
    lemma_count_concat(kept, tail, "ContainersReady"@);
    lemma_count_zero(kept, "Initialized"@);
    lemma_count_zero(kept, "Ready"@);
    lemma_count_zero(kept, "ContainersReady"@);
    lemma_count_three(tail, "Initialized"@);
    lemma_count_three(tail, "Ready"@);
    lemma_count_three(tail, "ContainersReady"@);
    lemma_foreign_concat(kept, tail);
    lemma_foreign_none_pass(tail);
    lemma_foreign_all_pass(kept);
    assert(foreign_conditions(new_cs) =~= foreign_conditions(old_cs));
}

/// Every condition kept by the foreign filter is of a non-reserved type.
proof fn lemma_foreign_filtered(s: Seq<PodCondition>)
    ensures
        forall|i: int|
            0 <= i < foreign_conditions(s).len() ==> !reserved_condition_type(
                #[trigger] foreign_conditions(s)[i].condition_type@,
            ),
    decreases s.len(),
{
    reveal(Seq::filter);
    if s.len() > 0 {
        lemma_foreign_filtered(s.drop_last());
    }
}

/// Counting a condition type distributes over concatenation.
proof fn lemma_count_concat(a: Seq<PodCondition>, b: Seq<PodCondition>, t: Seq<char>)
    ensures
        count_condition_type(a + b, t) == count_condition_type(a, t) + count_condition_type(b, t),
    decreases b.len(),
{
    reveal(Seq::filter);
    if b.len() == 0 {
        assert(a + b =~= a);
    } else {
        lemma_count_concat(a, b.drop_last(), t);
        assert((a + b).drop_last() =~= a + b.drop_last());
    }
}

/// A list with no condition of type `t` counts zero of it.
proof fn lemma_count_zero(s: Seq<PodCondition>, t: Seq<char>)
    requires
        forall|i: int| 0 <= i < s.len() ==> (#[trigger] s[i].condition_type@) != t,
    ensures
        count_condition_type(s, t) == 0,
    decreases s.len(),
{
    reveal(Seq::filter);
    if s.len() > 0 {
        lemma_count_zero(s.drop_last(), t);
    }
}

/// Counting a condition type over a three-element list, element by element.
proof fn lemma_count_three(s: Seq<PodCondition>, t: Seq<char>)
    requires
        s.len() == 3,
    ensures
        count_condition_type(s, t) == (if s[0].condition_type@ == t {
            1int
        } else {
            0int
        }) + (if s[1].condition_type@ == t {
            1int
        } else {
            0int
        }) + (if s[2].condition_type@ == t {
            1int
        } else {
            0int
        }),
{
    reveal(Seq::filter);
    let s2 = s.drop_last();
    let s1 = s2.drop_last();
    let s0 = s1.drop_last();
    assert(s0.len() == 0);
    assert(count_condition_type(s1, t) == count_condition_type(s0, t) + (if s[0].condition_type@
        == t {
        1int
    } else {
        0int
    }));
    assert(count_condition_type(s2, t) == count_condition_type(s1, t) + (if s[1].condition_type@
        == t {
        1int
    } else {
        0int
    }));
}

/// The foreign filter distributes over concatenation.
proof fn lemma_foreign_concat(a: Seq<PodCondition>, b: Seq<PodCondition>)
    ensures
        foreign_conditions(a + b) == foreign_conditions(a) + foreign_conditions(b),
    decreases b.len(),
{
    reveal(Seq::filter);
    if b.len() == 0 {
        assert(a + b =~= a);
        assert(foreign_conditions(a) + foreign_conditions(b) =~= foreign_conditions(a));
    } else {
        lemma_foreign_concat(a, b.drop_last());
        assert((a + b).drop_last() =~= a + b.drop_last());
        assert(foreign_conditions(a + b) =~= foreign_conditions(a) + foreign_conditions(b));
    }
}

/// A list of only reserved-type conditions has no foreign conditions.
proof fn lemma_foreign_none_pass(s: Seq<PodCondition>)
    requires
        forall|i: int|
            0 <= i < s.len() ==> reserved_condition_type(#[trigger] s[i].condition_type@),
    ensures
        foreign_conditions(s) == Seq::<PodCondition>::empty(),
    decreases s.len(),
{
    reveal(Seq::filter);
    if s.len() == 0 {
        assert(foreign_conditions(s) =~= Seq::<PodCondition>::empty());
    } else {
        lemma_foreign_none_pass(s.drop_last());
    }
}

/// A list of only non-reserved-type conditions is kept whole by the filter.
proof fn lemma_foreign_all_pass(s: Seq<PodCondition>)
    requires
        forall|i: int|
            0 <= i < s.len() ==> !reserved_condition_type(#[trigger] s[i].condition_type@),
    ensures
        foreign_conditions(s) == s,
    decreases s.len(),
{
    reveal(Seq::filter);
    if s.len() == 0 {
        assert(foreign_conditions(s) =~= s);
    } else {
        lemma_foreign_all_pass(s.drop_last());
        assert(foreign_conditions(s) =~= s);
    }
}

} // verus!
