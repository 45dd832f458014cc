//! A minimal cluster-orchestration control plane.
//!
//! The crate models workloads (Pods) and worker machines (Nodes), keeps an
//! authoritative in-memory snapshot of cluster state fed by a watch stream
//! (`state`), assigns unplaced Pods to Nodes through an optimistic,
//! version-checked write protocol (`scheduler`), and reconciles the set of
//! Pods assigned to a node against what is actually running (`kubelet`).

pub mod api;
pub mod immap;
pub mod interfaces;
pub mod kubelet;
pub mod pod_util;
pub mod scheduler;
pub mod state;
pub mod strutil;
