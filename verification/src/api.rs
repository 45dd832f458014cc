//! The shared data model: Pod, Node-facing status types, and the versioned
//! resource envelope (`ObjectMeta.resourceVersion`).
//!
//! A Pod's identity is the pair (namespace, name); its `resourceVersion` is a
//! monotonically increasing token bumped on every accepted write.

use std::collections::HashMap;
use vstd::prelude::*;

verus! {

/// Common surface of every top-level resource record.
pub trait Resource {
    fn api_version(&self) -> String;

    fn kind(&self) -> String;
}

/// The phase of a Pod's lifecycle. Exactly one value at a time; once
/// `Succeeded` or `Failed`, no further phase transition is permitted.
#[derive(Clone, Copy, Debug, PartialEq, Eq, Structural)]
pub enum PodPhase {
    Pending,
    Running,
    Succeeded,
    Failed,
    Unknown,
}

/// The unit of scheduled work: a desired `spec`, an observed `status`, and a
/// versioned identity in `metadata`.
#[allow(non_snake_case)]
#[derive(Clone, Debug, PartialEq)]
pub struct Pod {
    pub apiVersion: String,
    pub kind: String,
    pub metadata: Option<ObjectMeta>,
    pub spec: Option<PodSpec>,
    pub status: Option<PodStatus>,
}

impl Resource for Pod {
    fn api_version(&self) -> (r: String)
        ensures
            r@ == self.apiVersion@,
    {
        self.apiVersion.clone()
    }

    fn kind(&self) -> (r: String)
        ensures
            r@ == self.kind@,
    {
        self.kind.clone()
    }
}

/// The desired state of a Pod: the node it is assigned to (none while it is
/// still unscheduled) and the containers it is to run.
#[allow(non_snake_case)]
#[derive(Clone, Debug, PartialEq)]
pub struct PodSpec {
    pub nodeName: Option<String>,
    pub containers: Vec<String>,
}

#[allow(non_snake_case)]
#[derive(Clone, Debug, PartialEq)]
pub struct ContainerState {
    pub running: Option<ContainerStateRunning>,
    pub terminated: Option<ContainerStateTerminated>,
    pub waiting: Option<ContainerStateWaiting>,
}

#[allow(non_snake_case)]
#[derive(Clone, Debug, PartialEq)]
pub struct ContainerStateRunning {
    pub startedAt: Option<String>,
}

#[allow(non_snake_case)]
#[derive(Clone, Debug, PartialEq)]
pub struct ContainerStateTerminated {
    pub containerID: Option<String>,
    pub exitCode: i32,
    pub finishedAt: Option<String>,
    pub message: Option<String>,
    pub reason: Option<String>,
    pub signal: Option<i32>,
    pub startedAt: Option<String>,
}

#[allow(non_snake_case)]
#[derive(Clone, Debug, PartialEq)]
pub struct ContainerStateWaiting {
    pub message: Option<String>,
    pub reason: Option<String>,
}

#[allow(non_snake_case)]
#[derive(Clone, Debug, PartialEq)]
pub struct ContainerStatus {
    pub containerID: Option<String>,
    pub image: String,
    pub imageID: String,
    pub lastState: Option<ContainerState>,
    pub name: String,
    pub ready: bool,
    pub restartCount: i32,
    pub state: Option<ContainerState>,
}

/// A named boolean-ish facet of a Pod's status. A Pod's condition list holds
/// at most one entry per `condition_type`; updates replace, never duplicate.
#[allow(non_snake_case)]
#[derive(Clone, Debug, PartialEq)]
pub struct PodCondition {
    pub condition_type: String,
    pub lastProbeTime: Option<String>,
    pub lastTransitionTime: Option<String>,
    pub message: Option<String>,
    pub reason: Option<String>,
    pub status: String,
}

/// The observed state of a Pod.
#[allow(non_snake_case)]
#[derive(Clone, Debug, PartialEq)]
pub struct PodStatus {
    pub conditions: Option<Vec<PodCondition>>,
    pub containerStatuses: Option<Vec<ContainerStatus>>,
    pub hostIP: Option<String>,
    pub initContainerStatuses: Option<Vec<ContainerStatus>>,
    pub message: Option<String>,
    pub nominatedNodeName: Option<String>,
    pub phase: Option<PodPhase>,
    pub podIP: Option<String>,
    pub qosClass: Option<String>,
    pub reason: Option<String>,
    pub startTime: Option<String>,
}

/// A status reply carried by API responses.
#[allow(non_snake_case)]
#[derive(Clone, Debug, PartialEq)]
pub struct Status {
    pub apiVersion: String,
    pub code: Option<i32>,
    pub details: Option<StatusDetails>,
    pub kind: String,
    pub message: Option<String>,
    pub metadata: Option<ListMeta>,
    pub reason: Option<String>,
    pub status: Option<String>,
}

impl Resource for Status {
    fn api_version(&self) -> (r: String)
        ensures
            r@ == self.apiVersion@,
    {
        self.apiVersion.clone()
    }

    fn kind(&self) -> (r: String)
        ensures
            r@ == self.kind@,
    {
        self.kind.clone()
    }
}

#[allow(non_snake_case)]
#[derive(Clone, Debug, PartialEq)]
pub struct Initializer {
    pub name: String,
}

#[allow(non_snake_case)]
#[derive(Clone, Debug, PartialEq)]
pub struct Initializers {
    pub pending: Vec<Initializer>,
    pub result: Option<Status>,
}

#[allow(non_snake_case)]
#[derive(Clone, Debug, PartialEq)]
pub struct ListMeta {
    pub resourceVersion: Option<u64>,
    pub selfLink: Option<String>,
}

/// The identity and versioning envelope shared by resources. `namespace` and
/// `name` identify the resource; `resourceVersion` is the optimistic
/// concurrency token.
#[allow(non_snake_case)]
#[derive(Clone, Debug, PartialEq)]
pub struct ObjectMeta {
    pub annotations: Option<HashMap<String, String>>,
    pub clusterName: Option<String>,
    pub creationTimestamp: Option<String>,
    pub deletionGracePeriodSeconds: Option<i32>,
    pub deletionTimestamp: Option<String>,
    pub finalizers: Option<Vec<String>>,
    pub generateName: Option<String>,
    pub generation: Option<i32>,
    pub initializers: Option<Initializers>,
    pub labels: Option<HashMap<String, String>>,
    pub name: Option<String>,
    pub namespace: Option<String>,
    pub ownerReferences: Option<Vec<OwnerReference>>,
    pub resourceVersion: Option<u64>,
    pub selfLink: Option<String>,
    pub uid: Option<String>,
}

#[allow(non_snake_case)]
#[derive(Clone, Debug, PartialEq)]
pub struct OwnerReference {
    pub apiVersion: String,
    pub blockOwnerDeletion: Option<bool>,
    pub controller: Option<bool>,
    pub kind: String,
    pub name: String,
    pub uid: String,
}

#[allow(non_snake_case)]
#[derive(Clone, Debug, PartialEq)]
pub struct StatusCause {
    pub field: Option<String>,
    pub message: Option<String>,
    pub reason: Option<String>,
}

#[allow(non_snake_case)]
#[derive(Clone, Debug, PartialEq)]
pub struct StatusDetails {
    pub causes: Option<Vec<StatusCause>>,
    pub group: Option<String>,
    pub kind: String,
    pub name: Option<String>,
    pub retryAfterSeconds: Option<i32>,
    pub uid: Option<String>,
}

/// The identity key "namespace/name" a Pod is stored and looked up under.
pub open spec fn id_view(ns: Seq<char>, name: Seq<char>) -> Seq<char> {
    ns + seq!['/'] + name
}

/// The identity of a Pod, if its metadata carries both namespace and name.
pub open spec fn pod_id_view(pod: Pod) -> Option<Seq<char>> {
    match pod.metadata {
        Some(meta) => match (meta.namespace, meta.name) {
            (Some(ns), Some(n)) => Some(id_view(ns@, n@)),
            _ => None,
        },
        None => None,
    }
}

/// The namespace recorded in a Pod's metadata, if any.
pub open spec fn pod_namespace_view(pod: Pod) -> Option<Seq<char>> {
    match pod.metadata {
        Some(meta) => match meta.namespace {
            Some(ns) => Some(ns@),
            None => None,
        },
        None => None,
    }
}

/// The resource version of a Pod; a Pod that has never been written carries
/// none, which counts as version 0.
pub open spec fn pod_version(pod: Pod) -> u64 {
    match pod.metadata {
        Some(meta) => match meta.resourceVersion {
            Some(v) => v,
            None => 0,
        },
        None => 0,
    }
}

/// The node a Pod's spec assigns it to, if any.
pub open spec fn pod_node_view(pod: Pod) -> Option<Seq<char>> {
    match pod.spec {
        Some(s) => match s.nodeName {
            Some(n) => Some(n@),
            None => None,
        },
        None => None,
    }
}

/// A Pod with no assigned node is awaiting scheduling.
pub open spec fn pod_unscheduled(pod: Pod) -> bool {
    pod_node_view(pod) is None
}

/// The phase recorded in a Pod's status, `Unknown` when none is recorded.
pub open spec fn pod_phase(pod: Pod) -> PodPhase {
    match pod.status {
        Some(st) => match st.phase {
            Some(p) => p,
            None => PodPhase::Unknown,
        },
        None => PodPhase::Unknown,
    }
}

/// Once a Pod has succeeded or failed, its phase may not change again.
pub open spec fn phase_terminal(p: PodPhase) -> bool {
    p is Succeeded || p is Failed
}

/// Decides whether a Pod still awaits scheduling (no node assigned).
pub fn pod_is_unscheduled(pod: &Pod) -> (r: bool)
    ensures
        r == pod_unscheduled(*pod),
{
    match &pod.spec {
        Some(s) => match &s.nodeName {
            Some(_) => false,
            None => true,
        },
        None => true,
    }
}

/// Reads the resource version out of a Pod; 0 when it has never been written.
pub fn resource_version(pod: &Pod) -> (v: u64)
    ensures
        v == pod_version(*pod),
{
    match &pod.metadata {
        Some(meta) => match meta.resourceVersion {
            Some(v) => v,
            None => 0,
        },
        None => 0,
    }
}

} // verus!
