//! The Kubelet: the node-local agent that makes the set of Pods actually
//! running on its node converge to the set of Pods assigned to it.
//!
//! The agent holds the last-known record of every Pod registered to the node.
//! Assignment changes arrive through `register_pod`/`deregister_pod`;
//! lifecycle reports from the container runtime arrive through `pod_fetched`,
//! `pod_started`, `pod_ready` and `pod_exited`. Every status mutation is
//! pushed upward over the Master connection, and the Pod lifecycle is
//! monotone: once a Pod has succeeded or failed, no event changes its phase
//! again.

use crate::api::{
    Pod, PodCondition, PodPhase, PodStatus, id_view, pod_id_view, pod_phase, pod_version,
    phase_terminal, resource_version,
};
use crate::interfaces::{MasterConnection, PodProvider};
use crate::pod_util::{
    get_id, initial_status_set, pod_conditions, pod_containers_ready_condition,
    pod_initialized_condition, pod_ready_condition, set_initial_pod_status,
};
use crate::strutil::make_id;
use vstd::prelude::*;
use vstd::string::StringExecFns;

verus! {

/// The conditions of a list that are not of type `t`, in order.
pub open spec fn conditions_without(cs: Seq<PodCondition>, t: Seq<char>) -> Seq<PodCondition> {
    cs.filter(|c: PodCondition| c.condition_type@ != t)
}

/// A freshly flipped condition of type `t` with status "True".
pub open spec fn is_true_condition(c: PodCondition, t: Seq<char>) -> bool {
    &&& c.condition_type@ == t
    &&& c.status@ == "True"@
    &&& c.lastProbeTime is None
    &&& c.lastTransitionTime is None
    &&& c.message is None
    &&& c.reason is None
}

/// The identity envelope and the desired spec are untouched.
pub open spec fn envelope_preserved(a: Pod, b: Pod) -> bool {
    &&& b.apiVersion == a.apiVersion
    &&& b.kind == a.kind
    &&& b.metadata == a.metadata
    &&& b.spec == a.spec
}

/// The status fields not owned by the lifecycle machine (addresses, container
/// reports, timestamps) are untouched, or absent when there was no status.
pub open spec fn status_rest_preserved(a: Pod, b: Pod) -> bool {
    match b.status {
        Some(st) => match a.status {
            Some(ost) => {
                &&& st.containerStatuses == ost.containerStatuses
                &&& st.hostIP == ost.hostIP
                &&& st.initContainerStatuses == ost.initContainerStatuses
                &&& st.message == ost.message
                &&& st.nominatedNodeName == ost.nominatedNodeName
                &&& st.podIP == ost.podIP
                &&& st.qosClass == ost.qosClass
                &&& st.reason == ost.reason
                &&& st.startTime == ost.startTime
            },
            None => {
                &&& st.containerStatuses is None
                &&& st.hostIP is None
                &&& st.initContainerStatuses is None
                &&& st.message is None
                &&& st.nominatedNodeName is None
                &&& st.podIP is None
                &&& st.qosClass is None
                &&& st.reason is None
                &&& st.startTime is None
            },
        },
        None => false,
    }
}

/// The phase recorded before the event, if any, is still recorded after it.
pub open spec fn phase_preserved(a: Pod, b: Pod) -> bool {
    b.status matches Some(st) && st.phase == (match a.status {
        Some(ost) => ost.phase,
        None => None,
    })
}

/// A successful container start: phase becomes `Running` and the
/// `Initialized` condition is replaced by a fresh `Initialized=True`.
pub open spec fn started_transition(a: Pod, b: Pod) -> bool {
    let base = conditions_without(pod_conditions(a), "Initialized"@);
    let cs = pod_conditions(b);
    &&& envelope_preserved(a, b)
    &&& status_rest_preserved(a, b)
    &&& b.status matches Some(st) && st.phase == Some(PodPhase::Running)
    &&& cs.len() == base.len() + 1
    &&& cs.drop_last() == base
    &&& is_true_condition(cs.last(), "Initialized"@)
}

/// All containers report ready: `Ready` and `ContainersReady` are replaced by
/// fresh `=True` conditions; the phase is untouched.
pub open spec fn ready_transition(a: Pod, b: Pod) -> bool {
    let base = conditions_without(
        conditions_without(pod_conditions(a), "Ready"@),
        "ContainersReady"@,
    );
    let cs = pod_conditions(b);
    &&& envelope_preserved(a, b)
    &&& status_rest_preserved(a, b)
    &&& phase_preserved(a, b)
    &&& cs.len() == base.len() + 2
    &&& cs.take(base.len() as int) == base
    &&& is_true_condition(cs[base.len() as int], "Ready"@)
    &&& is_true_condition(cs[base.len() as int + 1], "ContainersReady"@)
}

/// A container exit: phase becomes `Succeeded` (exit code 0) or `Failed`, and
/// the `Ready` condition is replaced by `Ready=False` carrying the runtime's
/// reason and message.
pub open spec fn exited_transition(
    a: Pod,
    b: Pod,
    exit_code: i32,
    reason: Option<String>,
    message: Option<String>,
) -> bool {
    let base = conditions_without(pod_conditions(a), "Ready"@);
    let cs = pod_conditions(b);
    &&& envelope_preserved(a, b)
    &&& status_rest_preserved(a, b)
    &&& b.status matches Some(st) && st.phase == Some(
        if exit_code == 0 {
            PodPhase::Succeeded
        } else {
            PodPhase::Failed
        },
    )
    &&& cs.len() == base.len() + 1
    &&& cs.drop_last() == base
    &&& cs.last().condition_type@ == "Ready"@
    &&& cs.last().status@ == "False"@
    &&& cs.last().reason == reason
    &&& cs.last().message == message
    &&& cs.last().lastProbeTime is None
    &&& cs.last().lastTransitionTime is None
}

/// What the transport's delivery of an assignment did: registered a new
/// record, folded a newer one into an existing registration, or discarded a
/// record with no identity or a non-newer version.
#[derive(Clone, Copy, Debug, PartialEq, Eq, Structural)]
pub enum RegisterOutcome {
    Created,
    Updated,
    Ignored,
}

/// A newer assignment folded into a registered record: the envelope and the
/// desired spec are taken from the incoming record, the locally driven
/// lifecycle status is kept.
pub open spec fn assignment_folded(entry: Pod, incoming: Pod, merged: Pod) -> bool {
    &&& merged.apiVersion == incoming.apiVersion
    &&& merged.kind == incoming.kind
    &&& merged.metadata == incoming.metadata
    &&& merged.spec == incoming.spec
    &&& merged.status == entry.status
}

/// A well-formed registry: every record carries an identity, and no identity
/// appears twice.
pub open spec fn registry_wf(s: Seq<Pod>) -> bool {
    &&& forall|i: int| 0 <= i < s.len() ==> pod_id_view(#[trigger] s[i]) is Some
    &&& forall|i: int, j: int|
        #![trigger s[i], s[j]]
        0 <= i < j < s.len() ==> pod_id_view(s[i]) != pod_id_view(s[j])
}

/// Whether some record in the registry carries the identity `k`.
pub open spec fn has_pod(s: Seq<Pod>, k: Seq<char>) -> bool {
    exists|i: int| 0 <= i < s.len() && pod_id_view(#[trigger] s[i]) == Some(k)
}

/// Drops every condition whose type equals `t`, keeping the rest in order.
fn filter_condition_type(v: Vec<PodCondition>, t: &String) -> (r: Vec<PodCondition>)
    ensures
        r@ == conditions_without(v@, t@),
    decreases v@.len(),
{
    let ghost orig = v@;
    let mut v = v;
    match v.pop() {
        None => {
            proof {
                reveal(Seq::filter);
                assert(conditions_without(orig, t@) =~= orig);
            }
            v
        },
        Some(last) => {
            proof {
                assert(v@ =~= orig.drop_last());
            }
            let mut r = filter_condition_type(v, t);
            if !last.condition_type.eq(t) {
                r.push(last);
            }
            proof {
                reveal(Seq::filter);
                assert(orig.last() == last);
                assert(r@ == conditions_without(orig, t@));
            }
            r
        },
    }
}

/// Replaces (never duplicates) the condition of `cond`'s type: every
/// condition of that type is dropped and `cond` appended.
fn upsert_condition(pod: &mut Pod, cond: PodCondition)
    ensures
        envelope_preserved(*old(pod), *final(pod)),
        status_rest_preserved(*old(pod), *final(pod)),
        phase_preserved(*old(pod), *final(pod)),
        pod_conditions(*final(pod)) == conditions_without(
            pod_conditions(*old(pod)),
            cond.condition_type@,
        ).push(cond),
{
    let mut status = match pod.status.take() {
        None => PodStatus::default(),
        Some(st) => st,
    };
    let conditions = match status.conditions.take() {
        None => Vec::new(),
        Some(cs) => cs,
    };
    proof {
        assert(conditions@ =~= pod_conditions(*old(pod)));
    }
    let mut kept = filter_condition_type(conditions, &cond.condition_type);
    kept.push(cond);
    status.conditions = Some(kept);
    pod.status = Some(status);
}

/// Records a new phase, leaving every other status field as it was.
fn set_phase(pod: &mut Pod, phase: PodPhase)
    ensures
        envelope_preserved(*old(pod), *final(pod)),
        status_rest_preserved(*old(pod), *final(pod)),
        final (pod).status matches Some(st) && st.phase == Some(phase),
        pod_conditions(*final(pod)) == pod_conditions(*old(pod)),
        (final (pod).status->Some_0.conditions is Some <==> (old(pod).status matches Some(ost)
            && ost.conditions is Some)),
{
    let mut status = match pod.status.take() {
        None => PodStatus::default(),
        Some(st) => st,
    };
    status.phase = Some(phase);
    pod.status = Some(status);
}

/// One condition of a list, filtered by a type it does not have, survives.
proof fn lemma_without_push_other(cs: Seq<PodCondition>, c: PodCondition, t: Seq<char>)
    requires
        c.condition_type@ != t,
    ensures
        conditions_without(cs.push(c), t) == conditions_without(cs, t).push(c),
{
    reveal(Seq::filter);
    assert(cs.push(c).drop_last() =~= cs);
    assert(cs.push(c).last() == c);
}

/// The node-local agent: registered Pods, the runtime it drives and the
/// connection it reports through.
pub struct LocalKubelet<'a, C: MasterConnection, P: PodProvider> {
    conn: &'a C,
    docker: &'a P,
    pods: Vec<Pod>,
}

impl<'a, C: MasterConnection, P: PodProvider> LocalKubelet<'a, C, P> {
    /// The records registered to this node, in registration order.
    pub closed spec fn registry(self) -> Seq<Pod> {
        self.pods@
    }

    /// Well-formed: every registered record has an identity, each at most
    /// once.
    pub open spec fn wf(self) -> bool {
        registry_wf(self.registry())
    }

    /// A fresh agent with nothing registered.
    pub fn new(conn: &'a C, docker: &'a P) -> (k: LocalKubelet<'a, C, P>)
        ensures
            k.wf(),
            k.registry() == Seq::<Pod>::empty(),
    {
        LocalKubelet { conn, docker, pods: Vec::new() }
    }

    /// Looks a registered record up by identity string.
    fn find_pod(&self, id: &String) -> (r: Option<usize>)
        requires
            self.wf(),
        ensures
            match r {
                Some(i) => i < self.registry().len() && pod_id_view(self.registry()[i as int])
                    == Some(id@),
                None => !has_pod(self.registry(), id@),
            },
    {
        let mut i: usize = 0;
        while i < self.pods.len()
            invariant
                self.wf(),
                i <= self.registry().len(),
                forall|j: int|
                    0 <= j < i ==> pod_id_view(#[trigger] self.registry()[j]) != Some(id@),
            decreases self.registry().len() - i,
        {
            let pid = match get_id(&self.pods[i]) {
                Some(pid) => pid,
                None => {
                    proof {
                        assert(false);
                    }
                    return None;
                },
            };
            if pid.eq(id) {
                return Some(i);
            }
            i += 1;
        }
        None
    }

    /// The registered record for the identity, if any.
    pub fn get_pod(&self, namespace: &str, name: &str) -> (r: Option<&Pod>)
        requires
            self.wf(),
        ensures
            match r {
                Some(p) => has_pod(self.registry(), id_view(namespace@, name@)) && pod_id_view(*p)
                    == Some(id_view(namespace@, name@)) && self.registry().contains(*p),
                None => !has_pod(self.registry(), id_view(namespace@, name@)),
            },
    {
        let id = make_id(namespace, name);
        match self.find_pod(&id) {
            Some(i) => {
                proof {
                    assert(self.registry().contains(self.registry()[i as int]));
                }
                Some(&self.pods[i])
            },
            None => None,
        }
    }

    /// A newly assigned Pod arrives. A record without both namespace and name
    /// is invalid input: it is dropped, not registered, and nothing is
    /// pushed. A record already registered is left to the reconcile events.
    /// Otherwise the Pod gets the initial Pending status, the status is
    /// pushed upward, the runtime is told to fetch its images, and the record
    /// is registered.
    pub fn create(&mut self, pod: Pod) -> (created: bool)
        requires
            old(self).wf(),
        ensures
            final (self).wf(),
            created <==> (pod_id_view(pod) is Some && !has_pod(
                old(self).registry(),
                pod_id_view(pod)->Some_0,
            )),
            created ==> final (self).registry().len() == old(self).registry().len() + 1
                && final (self).registry().drop_last() == old(self).registry()
                && initial_status_set(pod, final (self).registry().last()),
            !created ==> final (self).registry() == old(self).registry(),
    {
        let id = match get_id(&pod) {
            None => {
                return false;
            },
            Some(id) => id,
        };
        if self.find_pod(&id).is_some() {
            return false;
        }
        let mut pod = pod;
        set_initial_pod_status(&mut pod);
        self.conn.update_pod(&pod);
        self.docker.fetch(pod.clone());
        proof {
            assert(pod_id_view(pod) == Some(id@));
            assert forall|i: int, j: int|
                #![trigger old(self).registry().push(pod)[i], old(self).registry().push(pod)[j]]
                0 <= i < j < old(self).registry().push(pod).len() implies pod_id_view(
                old(self).registry().push(pod)[i],
            ) != pod_id_view(old(self).registry().push(pod)[j]) by {
                if j == old(self).registry().len() {
                    assert(pod_id_view(old(self).registry()[i]) != Some(id@));
                }
            }
        }
        self.pods.push(pod);
        true
    }

    /// The Master-facing transport delivers an assignment. A new identity
    /// goes through the create path. For an identity already registered, a
    /// record with a strictly newer version is folded in — the envelope and
    /// the desired spec are taken, the locally driven lifecycle status is
    /// kept — and a non-newer re-delivery is discarded, as the consumer rule
    /// for at-least-once delivery demands.
    pub fn register_pod(&mut self, pod: Pod) -> (outcome: RegisterOutcome)
        requires
            old(self).wf(),
        ensures
            final (self).wf(),
            match outcome {
                RegisterOutcome::Created => {
                    &&& pod_id_view(pod) is Some
                    &&& !has_pod(old(self).registry(), pod_id_view(pod)->Some_0)
                    &&& final (self).registry().len() == old(self).registry().len() + 1
                    &&& final (self).registry().drop_last() == old(self).registry()
                    &&& initial_status_set(pod, final (self).registry().last())
                },
                RegisterOutcome::Updated => exists|i: int|
                    {
                        &&& 0 <= i < old(self).registry().len()
                        &&& pod_id_view(#[trigger] old(self).registry()[i]) == pod_id_view(pod)
                        &&& pod_version(pod) > pod_version(old(self).registry()[i])
                        &&& final (self).registry() == old(self).registry().update(
                            i,
                            final (self).registry()[i],
                        )
                        &&& assignment_folded(
                            old(self).registry()[i],
                            pod,
                            final (self).registry()[i],
                        )
                    },
                RegisterOutcome::Ignored => {
                    &&& final (self).registry() == old(self).registry()
                    &&& (pod_id_view(pod) is None || exists|i: int|
                        0 <= i < old(self).registry().len() && pod_id_view(
                            #[trigger] old(self).registry()[i],
                        ) == pod_id_view(pod) && pod_version(pod) <= pod_version(
                            old(self).registry()[i],
                        ))
                },
            },
    {
        let id = match get_id(&pod) {
            None => {
                return RegisterOutcome::Ignored;
            },
            Some(id) => id,
        };
        let i = match self.find_pod(&id) {
            None => {
                let created = self.create(pod);
                proof {
                    assert(created);
                }
                return RegisterOutcome::Created;
            },
            Some(i) => i,
        };
        if resource_version(&pod) <= resource_version(&self.pods[i]) {
            return RegisterOutcome::Ignored;
        }
        let ghost before = self.registry();
        let entry = &mut self.pods[i];
        entry.apiVersion = pod.apiVersion;
        entry.kind = pod.kind;
        entry.metadata = pod.metadata;
        entry.spec = pod.spec;
        proof {
            assert(self.registry() =~= before.update(i as int, self.registry()[i as int]));
            lemma_registry_update_wf(before, i as int, self.registry()[i as int]);
        }
        RegisterOutcome::Updated
    }

    /// A Pod is no longer assigned here or was deleted: the runtime's kill is
    /// invoked for the identity and the record is deregistered. Any in-flight
    /// start sequence for it becomes moot: a later `pod_fetched` will find
    /// nothing registered and start nothing.
    pub fn delete(&mut self, namespace: &str, name: &str) -> (removed: bool)
        requires
            old(self).wf(),
        ensures
            final (self).wf(),
            !has_pod(final (self).registry(), id_view(namespace@, name@)),
            removed ==> exists|i: int|
                0 <= i < old(self).registry().len() && pod_id_view(
                    #[trigger] old(self).registry()[i],
                ) == Some(id_view(namespace@, name@)) && final (self).registry() == old(self).registry().remove(i),
            !removed ==> final (self).registry() == old(self).registry() && !has_pod(
                old(self).registry(),
                id_view(namespace@, name@),
            ),
    {
        let id = make_id(namespace, name);
        let i = match self.find_pod(&id) {
            Some(i) => i,
            None => {
                return false;
            },
        };
        self.docker.kill(namespace, name);
        let ghost before = self.registry();
        self.pods.remove(i);
        proof {
            assert forall|t: int|
                0 <= t < self.registry().len() implies pod_id_view(#[trigger] self.registry()[t])
                != Some(id@) by {
                if t < i {
                    assert(self.registry()[t] == before[t]);
                    assert(pod_id_view(before[t]) != pod_id_view(before[i as int]));
                } else {
                    assert(self.registry()[t] == before[t + 1]);
                    assert(pod_id_view(before[t + 1]) != pod_id_view(before[i as int]));
                }
            }
        }
        true
    }

    /// The Master-facing transport withdraws an assignment.
    pub fn deregister_pod(&mut self, namespace: &str, name: &str) -> (removed: bool)
        requires
            old(self).wf(),
        ensures
            final (self).wf(),
            !has_pod(final (self).registry(), id_view(namespace@, name@)),
            removed ==> exists|i: int|
                0 <= i < old(self).registry().len() && pod_id_view(
                    #[trigger] old(self).registry()[i],
                ) == Some(id_view(namespace@, name@)) && final (self).registry() == old(self).registry().remove(i),
            !removed ==> final (self).registry() == old(self).registry() && !has_pod(
                old(self).registry(),
                id_view(namespace@, name@),
            ),
    {
        self.delete(namespace, name)
    }

    /// The runtime reports the images for an identity fetched. If the Pod is
    /// still registered, the runtime is told to start it; a Pod deregistered
    /// while the fetch was in flight starts nothing.
    pub fn pod_fetched(&self, namespace: &str, name: &str) -> (ran: bool)
        requires
            self.wf(),
        ensures
            ran == has_pod(self.registry(), id_view(namespace@, name@)),
    {
        let id = make_id(namespace, name);
        match self.find_pod(&id) {
            Some(i) => {
                self.docker.run(self.pods[i].clone());
                proof {
                    assert(has_pod(self.registry(), id@));
                }
                true
            },
            None => false,
        }
    }

    /// The runtime reports a successful start. If the Pod is registered and
    /// its lifecycle is not already over, its phase becomes `Running`, the
    /// `Initialized` condition is flipped to `True` (replaced, never
    /// duplicated), and the new status is pushed upward.
    pub fn pod_started(&mut self, namespace: &str, name: &str) -> (applied: bool)
        requires
            old(self).wf(),
        ensures
            final (self).wf(),
            applied ==> exists|i: int|
                {
                    &&& 0 <= i < old(self).registry().len()
                    &&& pod_id_view(#[trigger] old(self).registry()[i]) == Some(
                        id_view(namespace@, name@),
                    )
                    &&& !phase_terminal(pod_phase(old(self).registry()[i]))
                    &&& final (self).registry() == old(self).registry().update(
                        i,
                        final (self).registry()[i],
                    )
                    &&& started_transition(old(self).registry()[i], final (self).registry()[i])
                },
            !applied ==> final (self).registry() == old(self).registry() && (forall|i: int|
                0 <= i < old(self).registry().len() && pod_id_view(
                    #[trigger] old(self).registry()[i],
                ) == Some(id_view(namespace@, name@)) ==> phase_terminal(
                    pod_phase(old(self).registry()[i]),
                )),
    {
        let id = make_id(namespace, name);
        let i = match self.find_pod(&id) {
            Some(i) => i,
            None => {
                return false;
            },
        };
        if is_terminal_phase(current_phase(&self.pods[i])) {
            proof {
                lemma_unique_identity(self.registry(), i as int);
            }
            return false;
        }
        let ghost before = self.registry();
        let entry = &mut self.pods[i];
        let ghost a = *entry;
        set_phase(entry, PodPhase::Running);
        upsert_condition(entry, pod_initialized_condition(String::from_str("True")));
        let ghost b = *entry;
        proof {
            assert(self.registry() =~= before.update(i as int, b));
            assert(pod_conditions(b).drop_last() =~= conditions_without(
                pod_conditions(a),
                "Initialized"@,
            ));
            assert(started_transition(a, b));
            lemma_registry_update_wf(before, i as int, b);
        }
        self.conn.update_pod(&self.pods[i]);
        true
    }

    /// The runtime reports every container of the Pod ready: the `Ready` and
    /// `ContainersReady` conditions are flipped to `True` (replaced, never
    /// duplicated) and the new status is pushed upward. The phase is left as
    /// it is, and a finished Pod is not touched.
    pub fn pod_ready(&mut self, namespace: &str, name: &str) -> (applied: bool)
        requires
            old(self).wf(),
        ensures
            final (self).wf(),
            applied ==> exists|i: int|
                {
                    &&& 0 <= i < old(self).registry().len()
                    &&& pod_id_view(#[trigger] old(self).registry()[i]) == Some(
                        id_view(namespace@, name@),
                    )
                    &&& !phase_terminal(pod_phase(old(self).registry()[i]))
                    &&& final (self).registry() == old(self).registry().update(
                        i,
                        final (self).registry()[i],
                    )
                    &&& ready_transition(old(self).registry()[i], final (self).registry()[i])
                },
            !applied ==> final (self).registry() == old(self).registry() && (forall|i: int|
                0 <= i < old(self).registry().len() && pod_id_view(
                    #[trigger] old(self).registry()[i],
                ) == Some(id_view(namespace@, name@)) ==> phase_terminal(
                    pod_phase(old(self).registry()[i]),
                )),
    {
        let id = make_id(namespace, name);
        let i = match self.find_pod(&id) {
            Some(i) => i,
            None => {
                return false;
            },
        };
        if is_terminal_phase(current_phase(&self.pods[i])) {
            proof {
                lemma_unique_identity(self.registry(), i as int);
            }
            return false;
        }
        let ghost before = self.registry();
        let entry = &mut self.pods[i];
        let ghost a = *entry;
        upsert_condition(entry, pod_ready_condition(String::from_str("True"), None, None));
        let ghost m = *entry;
        upsert_condition(
            entry,
            pod_containers_ready_condition(String::from_str("True"), None, None),
        );
        let ghost b = *entry;
        proof {
            reveal_strlit("Ready");
            reveal_strlit("ContainersReady");
            assert("Ready"@.len() == 5 && "ContainersReady"@.len() == 15);
            assert(self.registry() =~= before.update(i as int, b));
            let rc = pod_conditions(m).last();
            lemma_without_push_other(
                conditions_without(pod_conditions(a), "Ready"@),
                rc,
                "ContainersReady"@,
            );
            let base = conditions_without(
                conditions_without(pod_conditions(a), "Ready"@),
                "ContainersReady"@,
            );
            assert(pod_conditions(b) =~= base.push(rc).push(pod_conditions(b).last()));
            assert(pod_conditions(b).take(base.len() as int) =~= base);
            assert(ready_transition(a, b));
            lemma_registry_update_wf(before, i as int, b);
        }
        self.conn.update_pod(&self.pods[i]);
        true
    }

    /// The runtime reports the Pod's containers exited: phase becomes
    /// `Succeeded` on exit code 0, `Failed` otherwise, the runtime's reason
    /// and message are surfaced on a `Ready=False` condition, and the new
    /// status is pushed upward. A Pod already finished is not touched.
    pub fn pod_exited(
        &mut self,
        namespace: &str,
        name: &str,
        exit_code: i32,
        reason: Option<String>,
        message: Option<String>,
    ) -> (applied: bool)
        requires
            old(self).wf(),
        ensures
            final (self).wf(),
            applied ==> exists|i: int|
                {
                    &&& 0 <= i < old(self).registry().len()
                    &&& pod_id_view(#[trigger] old(self).registry()[i]) == Some(
                        id_view(namespace@, name@),
                    )
                    &&& !phase_terminal(pod_phase(old(self).registry()[i]))
                    &&& final (self).registry() == old(self).registry().update(
                        i,
                        final (self).registry()[i],
                    )
                    &&& exited_transition(
                        old(self).registry()[i],
                        final (self).registry()[i],
                        exit_code,
                        reason,
                        message,
                    )
                },
            !applied ==> final (self).registry() == old(self).registry() && (forall|i: int|
                0 <= i < old(self).registry().len() && pod_id_view(
                    #[trigger] old(self).registry()[i],
                ) == Some(id_view(namespace@, name@)) ==> phase_terminal(
                    pod_phase(old(self).registry()[i]),
                )),
    {
        let id = make_id(namespace, name);
        let i = match self.find_pod(&id) {
            Some(i) => i,
            None => {
                return false;
            },
        };
        if is_terminal_phase(current_phase(&self.pods[i])) {
            proof {
                lemma_unique_identity(self.registry(), i as int);
            }
            return false;
        }
        let ghost before = self.registry();
        let entry = &mut self.pods[i];
        let ghost a = *entry;
        let phase = if exit_code == 0 {
            PodPhase::Succeeded
        } else {
            PodPhase::Failed
        };
        upsert_condition(
            entry,
            pod_ready_condition(String::from_str("False"), reason, message),
        );
        set_phase(entry, phase);
        let ghost b = *entry;
        proof {
            assert(self.registry() =~= before.update(i as int, b));
            assert(pod_conditions(b).drop_last() =~= conditions_without(
                pod_conditions(a),
                "Ready"@,
            ));
            assert(exited_transition(a, b, exit_code, reason, message));
            lemma_registry_update_wf(before, i as int, b);
        }
        self.conn.update_pod(&self.pods[i]);
        true
    }
}

/// Reads the recorded phase of a Pod; `Unknown` when none is recorded.
fn current_phase(pod: &Pod) -> (ph: PodPhase)
    ensures
        ph == pod_phase(*pod),
{
    match &pod.status {
        Some(st) => match st.phase {
            Some(p) => p,
            None => PodPhase::Unknown,
        },
        None => PodPhase::Unknown,
    }
}

/// Decides whether a phase is terminal.
fn is_terminal_phase(ph: PodPhase) -> (r: bool)
    ensures
        r == phase_terminal(ph),
{
    match ph {
        PodPhase::Succeeded => true,
        PodPhase::Failed => true,
        _ => false,
    }
}

/// In a well-formed registry, the record at `i` is the only one carrying its
/// identity.
proof fn lemma_unique_identity(s: Seq<Pod>, i: int)
    requires
        registry_wf(s),
        0 <= i < s.len(),
    ensures
        forall|j: int|
            0 <= j < s.len() && pod_id_view(#[trigger] s[j]) == pod_id_view(s[i]) ==> j == i,
{
}

/// Updating a record with one of the same identity keeps the registry
/// well-formed.
proof fn lemma_registry_update_wf(s: Seq<Pod>, i: int, p: Pod)
    requires
        registry_wf(s),
        0 <= i < s.len(),
        pod_id_view(p) == pod_id_view(s[i]),
    ensures
        registry_wf(s.update(i, p)),
{
    assert forall|a: int, b: int|
        #![trigger s.update(i, p)[a], s.update(i, p)[b]]
        0 <= a < b < s.update(i, p).len() implies pod_id_view(s.update(i, p)[a]) != pod_id_view(
        s.update(i, p)[b],
    ) by {
        assert(pod_id_view(s[a]) != pod_id_view(s[b]));
    }
}

} // verus!
