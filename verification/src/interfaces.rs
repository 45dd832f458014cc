//! Collaborator contracts implemented outside the core: the container runtime
//! facade a Kubelet drives, and the transport a Kubelet reports through.

use crate::api::Pod;
use vstd::prelude::*;

verus! {

/// A worker machine capable of running Pods. `capacity` is the number of
/// Pods the node declares room for; placement never assigns past it.
#[derive(Clone, Debug, PartialEq)]
pub struct Node {
    pub name: String,
    pub capacity: u64,
}

/// The status/assignment transport from a Kubelet up to the Master.
/// Implementations deliver at least once; exactly-once end-to-end behaviour
/// comes from the StateManager's idempotent fold, not from this channel.
pub trait MasterConnection {
    fn update_node(&self, node: &Node);

    fn update_pod(&self, pod: &Pod);
}

/// The container runtime facade: fetches images, starts containers, and
/// kills a Pod's containers by identity. Calls may be slow or repeated;
/// implementations are expected to tolerate retries.
pub trait PodProvider {
    fn fetch(&self, pod: Pod);

    fn run(&self, pod: Pod);

    fn kill(&self, namespace: &str, name: &str);
}

} // verus!
