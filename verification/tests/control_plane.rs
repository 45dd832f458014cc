use controlplane::api::{ObjectMeta, Pod, PodCondition, PodPhase, PodSpec};
use controlplane::interfaces::{MasterConnection, Node, PodProvider};
use controlplane::kubelet::{LocalKubelet, RegisterOutcome};
use controlplane::pod_util::{get_id, set_initial_pod_status};
use controlplane::scheduler::{schedule, schedule_pod, select_node};
use controlplane::state::{StateError, StateManager, WatchEvent};
use std::cell::RefCell;

fn meta(ns: Option<&str>, name: Option<&str>, version: Option<u64>) -> ObjectMeta {
    ObjectMeta {
        annotations: None,
        clusterName: None,
        creationTimestamp: None,
        deletionGracePeriodSeconds: None,
        deletionTimestamp: None,
        finalizers: None,
        generateName: None,
        generation: None,
        initializers: None,
        labels: None,
        name: name.map(|s| s.to_string()),
        namespace: ns.map(|s| s.to_string()),
        ownerReferences: None,
        resourceVersion: version,
        selfLink: None,
        uid: None,
    }
}

fn mk_pod(ns: &str, name: &str, version: u64, node: Option<&str>) -> Pod {
    Pod {
        apiVersion: "v1".to_string(),
        kind: "Pod".to_string(),
        metadata: Some(meta(Some(ns), Some(name), Some(version))),
        spec: Some(PodSpec {
            nodeName: node.map(|s| s.to_string()),
            containers: vec!["nginx".to_string()],
        }),
        status: None,
    }
}

fn version_of(p: &Pod) -> u64 {
    p.metadata.as_ref().unwrap().resourceVersion.unwrap()
}

fn node_of(p: &Pod) -> Option<String> {
    p.spec.as_ref().and_then(|s| s.nodeName.clone())
}

fn condition<'a>(p: &'a Pod, t: &str) -> Vec<&'a PodCondition> {
    p.status
        .as_ref()
        .and_then(|s| s.conditions.as_ref())
        .map(|cs| cs.iter().filter(|c| c.condition_type == t).collect())
        .unwrap_or_default()
}

// ---------------------------------------------------------------------------
// Identity derivation
// ---------------------------------------------------------------------------

#[test]
fn get_id_joins_namespace_and_name() {
    let pod = mk_pod("default", "web", 1, None);
    assert_eq!(get_id(&pod), Some("default/web".to_string()));
}

#[test]
fn get_id_rejects_missing_parts() {
    let mut pod = mk_pod("default", "web", 1, None);
    pod.metadata.as_mut().unwrap().namespace = None;
    assert_eq!(get_id(&pod), None);
    let mut pod = mk_pod("default", "web", 1, None);
    pod.metadata.as_mut().unwrap().name = None;
    assert_eq!(get_id(&pod), None);
    let mut pod = mk_pod("default", "web", 1, None);
    pod.metadata = None;
    assert_eq!(get_id(&pod), None);
}

// ---------------------------------------------------------------------------
// Initial status transformation
// ---------------------------------------------------------------------------

#[test]
fn initial_status_sets_pending_baseline() {
    let mut pod = mk_pod("default", "web", 1, None);
    set_initial_pod_status(&mut pod);
    let status = pod.status.as_ref().unwrap();
    assert_eq!(status.phase, Some(PodPhase::Pending));
    let ready = condition(&pod, "Ready");
    assert_eq!(ready.len(), 1);
    assert_eq!(ready[0].status, "False");
    assert_eq!(ready[0].reason.as_deref(), Some("ContainersNotReady"));
    assert_eq!(
        ready[0].message.as_deref(),
        Some("containers with unready status: [nginx]")
    );
    assert_eq!(condition(&pod, "Initialized").len(), 1);
    assert_eq!(condition(&pod, "Initialized")[0].status, "False");
    assert_eq!(condition(&pod, "ContainersReady").len(), 1);
}

#[test]
fn initial_status_message_names_all_containers() {
    let mut pod = mk_pod("default", "web", 1, None);
    pod.spec.as_mut().unwrap().containers = vec!["nginx".to_string(), "sidecar".to_string()];
    set_initial_pod_status(&mut pod);
    let ready = condition(&pod, "Ready");
    assert_eq!(
        ready[0].message.as_deref(),
        Some("containers with unready status: [nginx, sidecar]")
    );
}

#[test]
fn initial_status_twice_replaces_not_duplicates() {
    let mut pod = mk_pod("default", "web", 1, None);
    set_initial_pod_status(&mut pod);
    set_initial_pod_status(&mut pod);
    assert_eq!(condition(&pod, "Initialized").len(), 1);
    assert_eq!(condition(&pod, "Ready").len(), 1);
    assert_eq!(condition(&pod, "ContainersReady").len(), 1);
}

#[test]
fn initial_status_keeps_foreign_conditions() {
    let mut pod = mk_pod("default", "web", 1, None);
    set_initial_pod_status(&mut pod);
    let foreign = PodCondition {
        condition_type: "PodScheduled".to_string(),
        lastProbeTime: None,
        lastTransitionTime: None,
        message: None,
        reason: None,
        status: "True".to_string(),
    };
    pod.status
        .as_mut()
        .unwrap()
        .conditions
        .as_mut()
        .unwrap()
        .insert(0, foreign);
    set_initial_pod_status(&mut pod);
    assert_eq!(condition(&pod, "PodScheduled").len(), 1);
    assert_eq!(condition(&pod, "Ready").len(), 1);
}

// ---------------------------------------------------------------------------
// StateManager: fold, reads, conditional writes
// ---------------------------------------------------------------------------

#[test]
fn apply_event_folds_created() {
    let mut sm = StateManager::new();
    sm.apply_event(WatchEvent::Created(mk_pod("default", "web", 1, None)));
    let got = sm.get("default", "web").unwrap();
    assert_eq!(version_of(&got), 1);
}

#[test]
fn apply_event_twice_is_idempotent() {
    let mut sm = StateManager::new();
    let e = WatchEvent::Created(mk_pod("default", "web", 1, None));
    sm.apply_event(e.clone());
    let once = sm.list();
    sm.apply_event(e);
    let twice = sm.list();
    assert_eq!(once, twice);
}

#[test]
fn apply_event_ignores_stale_versions() {
    let mut sm = StateManager::new();
    sm.apply_event(WatchEvent::Created(mk_pod("default", "web", 3, None)));
    sm.apply_event(WatchEvent::Updated(mk_pod("default", "web", 2, Some("n1"))));
    let got = sm.get("default", "web").unwrap();
    assert_eq!(version_of(&got), 3);
    assert_eq!(node_of(&got), None);
}

#[test]
fn apply_event_deletes_with_newer_version() {
    let mut sm = StateManager::new();
    sm.apply_event(WatchEvent::Created(mk_pod("default", "web", 1, None)));
    sm.apply_event(WatchEvent::Deleted(mk_pod("default", "web", 2, None)));
    assert_eq!(sm.get("default", "web"), Err(StateError::NotFound));
    // a replayed deletion is harmless
    sm.apply_event(WatchEvent::Deleted(mk_pod("default", "web", 2, None)));
    assert_eq!(sm.get("default", "web"), Err(StateError::NotFound));
}

#[test]
fn update_spec_conflict_never_mutates() {
    let mut sm = StateManager::new();
    sm.apply_event(WatchEvent::Created(mk_pod("default", "web", 1, None)));
    let r = sm.update_spec(mk_pod("default", "web", 1, Some("n1")), 7);
    assert_eq!(r, Err(StateError::Conflict));
    let got = sm.get("default", "web").unwrap();
    assert_eq!(version_of(&got), 1);
    assert_eq!(node_of(&got), None);
}

#[test]
fn update_spec_bumps_version_by_one() {
    let mut sm = StateManager::new();
    sm.apply_event(WatchEvent::Created(mk_pod("default", "web", 1, None)));
    let stored = sm.update_spec(mk_pod("default", "web", 1, Some("n1")), 1).unwrap();
    assert_eq!(version_of(&stored), 2);
    assert_eq!(node_of(&stored), Some("n1".to_string()));
}

#[test]
fn accepted_writes_strictly_increase_versions() {
    let mut sm = StateManager::new();
    sm.apply_event(WatchEvent::Created(mk_pod("default", "web", 1, None)));
    let mut seen = vec![1u64];
    for expected in 1..5u64 {
        let stored = sm
            .update_spec(mk_pod("default", "web", expected, Some("n1")), expected)
            .unwrap();
        seen.push(version_of(&stored));
    }
    for w in seen.windows(2) {
        assert!(w[0] < w[1]);
    }
}

#[test]
fn update_spec_errors_name_their_cause() {
    let mut sm = StateManager::new();
    let mut invalid = mk_pod("default", "web", 1, None);
    invalid.metadata = None;
    assert_eq!(sm.update_spec(invalid, 0), Err(StateError::InvalidResource));
    assert_eq!(
        sm.update_spec(mk_pod("default", "gone", 1, None), 1),
        Err(StateError::NotFound)
    );
}

#[test]
fn stale_manager_refuses_writes_until_resync() {
    let mut sm = StateManager::new();
    sm.apply_event(WatchEvent::Created(mk_pod("default", "web", 1, None)));
    sm.mark_stale();
    assert_eq!(
        sm.update_spec(mk_pod("default", "web", 1, Some("n1")), 1),
        Err(StateError::TransportLost)
    );
    sm.resync(vec![mk_pod("default", "web", 5, None)]);
    let stored = sm.update_spec(mk_pod("default", "web", 5, Some("n1")), 5).unwrap();
    assert_eq!(version_of(&stored), 6);
}

#[test]
fn update_live_keeps_spec_and_takes_status() {
    let mut sm = StateManager::new();
    sm.apply_event(WatchEvent::Created(mk_pod("default", "web", 1, Some("n1"))));
    let mut report = mk_pod("default", "web", 1, None);
    set_initial_pod_status(&mut report);
    let stored = sm.update_live(report, 1).unwrap();
    assert_eq!(node_of(&stored), Some("n1".to_string()));
    assert_eq!(
        stored.status.as_ref().unwrap().phase,
        Some(PodPhase::Pending)
    );
    assert_eq!(version_of(&stored), 2);
}

#[test]
fn list_is_sorted_by_identity() {
    let mut sm = StateManager::new();
    sm.apply_event(WatchEvent::Created(mk_pod("kube", "zeta", 1, None)));
    sm.apply_event(WatchEvent::Created(mk_pod("default", "web", 1, None)));
    sm.apply_event(WatchEvent::Created(mk_pod("default", "api", 1, None)));
    let ids: Vec<String> = sm.list().iter().map(|p| get_id(p).unwrap()).collect();
    assert_eq!(ids, vec!["default/api", "default/web", "kube/zeta"]);
}

#[test]
fn list_namespace_filters_and_sorts() {
    let mut sm = StateManager::new();
    sm.apply_event(WatchEvent::Created(mk_pod("kube", "dns", 1, None)));
    sm.apply_event(WatchEvent::Created(mk_pod("default", "web", 1, None)));
    sm.apply_event(WatchEvent::Created(mk_pod("default", "api", 1, None)));
    let ids: Vec<String> = sm
        .list_namespace("default")
        .iter()
        .map(|p| get_id(p).unwrap())
        .collect();
    assert_eq!(ids, vec!["default/api", "default/web"]);
    assert!(sm.list_namespace("nowhere").is_empty());
}

#[test]
fn snapshot_is_immune_to_later_writes() {
    let mut sm = StateManager::new();
    sm.apply_event(WatchEvent::Created(mk_pod("default", "web", 1, None)));
    let snap = sm.snapshot();
    sm.update_spec(mk_pod("default", "web", 1, Some("n1")), 1).unwrap();
    let old = snap.get("default", "web").unwrap();
    assert_eq!(version_of(&old), 1);
    assert_eq!(node_of(&old), None);
    let fresh = sm.get("default", "web").unwrap();
    assert_eq!(version_of(&fresh), 2);
}

#[test]
fn snapshot_queue_holds_unscheduled_in_order() {
    let mut sm = StateManager::new();
    sm.apply_event(WatchEvent::Created(mk_pod("default", "web", 1, None)));
    sm.apply_event(WatchEvent::Created(mk_pod("default", "api", 1, Some("n1"))));
    sm.apply_event(WatchEvent::Created(mk_pod("aaa", "job", 1, None)));
    let snap = sm.snapshot();
    let ids: Vec<String> = snap
        .unscheduled_pods
        .iter()
        .map(|p| get_id(p).unwrap())
        .collect();
    assert_eq!(ids, vec!["aaa/job", "default/web"]);
}

// ---------------------------------------------------------------------------
// Scheduler
// ---------------------------------------------------------------------------

fn nodes(spec: &[(&str, u64)]) -> Vec<Node> {
    spec.iter()
        .map(|(n, c)| Node {
            name: n.to_string(),
            capacity: *c,
        })
        .collect()
}

#[test]
fn schedule_assigns_node_and_bumps_version_by_one() {
    let mut sm = StateManager::new();
    sm.apply_event(WatchEvent::Created(mk_pod("default", "web", 1, None)));
    let snap = sm.snapshot();
    let committed = schedule(&mut sm, &snap, &nodes(&[("n1", 4)]));
    assert_eq!(committed, 1);
    let got = sm.get("default", "web").unwrap();
    assert_eq!(node_of(&got), Some("n1".to_string()));
    assert_eq!(version_of(&got), 2);
}

#[test]
fn schedule_prefers_lower_load_then_name() {
    let mut sm = StateManager::new();
    sm.apply_event(WatchEvent::Created(mk_pod("default", "a", 1, Some("nb"))));
    sm.apply_event(WatchEvent::Created(mk_pod("default", "b", 1, None)));
    let snap = sm.snapshot();
    // nb already carries one Pod; na is free: lowest load wins
    let committed = schedule(&mut sm, &snap, &nodes(&[("nb", 4), ("na", 4)]));
    assert_eq!(committed, 1);
    assert_eq!(
        node_of(&sm.get("default", "b").unwrap()),
        Some("na".to_string())
    );
}

#[test]
fn schedule_breaks_load_ties_by_name() {
    let pods: Vec<Pod> = Vec::new();
    let picked = select_node(&pods, &nodes(&[("zeta", 2), ("alpha", 2)]));
    assert_eq!(picked, Some(1));
}

#[test]
fn schedule_skips_full_nodes() {
    let mut sm = StateManager::new();
    sm.apply_event(WatchEvent::Created(mk_pod("default", "a", 1, Some("n1"))));
    sm.apply_event(WatchEvent::Created(mk_pod("default", "b", 1, None)));
    let snap = sm.snapshot();
    let committed = schedule(&mut sm, &snap, &nodes(&[("n1", 1)]));
    assert_eq!(committed, 0);
    assert_eq!(node_of(&sm.get("default", "b").unwrap()), None);
}

#[test]
fn racing_conditional_writes_commit_at_most_once() {
    let mut sm = StateManager::new();
    sm.apply_event(WatchEvent::Created(mk_pod("default", "web", 1, None)));
    // two writers race with the same observed version
    let first = sm.update_spec(mk_pod("default", "web", 1, Some("n1")), 1);
    let second = sm.update_spec(mk_pod("default", "web", 1, Some("n2")), 1);
    assert!(first.is_ok());
    assert_eq!(second, Err(StateError::Conflict));
    assert_eq!(
        node_of(&sm.get("default", "web").unwrap()),
        Some("n1".to_string())
    );
}

#[test]
fn racing_schedulers_commit_at_most_once() {
    let mut sm = StateManager::new();
    sm.apply_event(WatchEvent::Created(mk_pod("default", "web", 1, None)));
    let stale_snap = sm.snapshot();
    let all = stale_snap.list();
    let ns = nodes(&[("n1", 4), ("n2", 4)]);
    let pod = stale_snap.unscheduled_pods[0].clone();
    let first = schedule_pod(&mut sm, &all, &ns, &pod);
    assert!(first.is_some());
    // the second racer works from the same stale snapshot: its conditional
    // write conflicts, the re-read shows the Pod already placed, and it drops
    let second = schedule_pod(&mut sm, &all, &ns, &pod);
    assert!(second.is_none());
    let got = sm.get("default", "web").unwrap();
    assert_eq!(version_of(&got), 2);
}

// ---------------------------------------------------------------------------
// Kubelet
// ---------------------------------------------------------------------------

struct RecordingConnection {
    pushes: RefCell<Vec<Pod>>,
}

impl MasterConnection for RecordingConnection {
    fn update_node(&self, _node: &Node) {}

    fn update_pod(&self, pod: &Pod) {
        self.pushes.borrow_mut().push(pod.clone());
    }
}

struct RecordingProvider {
    fetched: RefCell<Vec<String>>,
    ran: RefCell<Vec<String>>,
    killed: RefCell<Vec<(String, String)>>,
}

impl RecordingProvider {
    fn new() -> RecordingProvider {
        RecordingProvider {
            fetched: RefCell::new(Vec::new()),
            ran: RefCell::new(Vec::new()),
            killed: RefCell::new(Vec::new()),
        }
    }
}

impl PodProvider for RecordingProvider {
    fn fetch(&self, pod: Pod) {
        self.fetched.borrow_mut().push(get_id(&pod).unwrap());
    }

    fn run(&self, pod: Pod) {
        self.ran.borrow_mut().push(get_id(&pod).unwrap());
    }

    fn kill(&self, namespace: &str, name: &str) {
        self.killed
            .borrow_mut()
            .push((namespace.to_string(), name.to_string()));
    }
}

#[test]
fn kubelet_lifecycle_pushes_pending_then_running() {
    let conn = RecordingConnection {
        pushes: RefCell::new(Vec::new()),
    };
    let prov = RecordingProvider::new();
    let mut kubelet = LocalKubelet::new(&conn, &prov);
    assert!(kubelet.create(mk_pod("default", "web", 1, Some("n1"))));
    {
        let pushes = conn.pushes.borrow();
        assert_eq!(pushes.len(), 1);
        let st = pushes[0].status.as_ref().unwrap();
        assert_eq!(st.phase, Some(PodPhase::Pending));
        let ready = condition(&pushes[0], "Ready");
        assert_eq!(ready.len(), 1);
        assert_eq!(ready[0].status, "False");
        assert_eq!(ready[0].reason.as_deref(), Some("ContainersNotReady"));
        assert_eq!(condition(&pushes[0], "Initialized")[0].status, "False");
    }
    assert!(kubelet.pod_fetched("default", "web"));
    assert_eq!(prov.ran.borrow().len(), 1);
    assert!(kubelet.pod_started("default", "web"));
    assert!(kubelet.pod_ready("default", "web"));
    let pushes = conn.pushes.borrow();
    let last = pushes.last().unwrap();
    assert_eq!(last.status.as_ref().unwrap().phase, Some(PodPhase::Running));
    let ready = condition(last, "Ready");
    assert_eq!(ready.len(), 1);
    assert_eq!(ready[0].status, "True");
    assert_eq!(condition(last, "Initialized")[0].status, "True");
}

#[test]
fn kubelet_rejects_pod_without_identity() {
    let conn = RecordingConnection {
        pushes: RefCell::new(Vec::new()),
    };
    let prov = RecordingProvider::new();
    let mut kubelet = LocalKubelet::new(&conn, &prov);
    let mut pod = mk_pod("default", "web", 1, None);
    pod.metadata.as_mut().unwrap().namespace = None;
    assert!(!kubelet.create(pod));
    assert_eq!(conn.pushes.borrow().len(), 0);
    assert!(kubelet.get_pod("default", "web").is_none());
}

#[test]
fn kubelet_deregister_kills_and_cancels_pending_start() {
    let conn = RecordingConnection {
        pushes: RefCell::new(Vec::new()),
    };
    let prov = RecordingProvider::new();
    let mut kubelet = LocalKubelet::new(&conn, &prov);
    assert!(kubelet.create(mk_pod("default", "web", 1, Some("n1"))));
    assert_eq!(prov.fetched.borrow().len(), 1);
    // the fetch is still in flight when the Pod is deregistered
    assert!(kubelet.deregister_pod("default", "web"));
    assert_eq!(
        prov.killed.borrow().as_slice(),
        &[("default".to_string(), "web".to_string())]
    );
    // the fetch completes afterwards: nothing is started
    assert!(!kubelet.pod_fetched("default", "web"));
    assert_eq!(prov.ran.borrow().len(), 0);
}

#[test]
fn kubelet_phase_is_monotone_after_exit() {
    let conn = RecordingConnection {
        pushes: RefCell::new(Vec::new()),
    };
    let prov = RecordingProvider::new();
    let mut kubelet = LocalKubelet::new(&conn, &prov);
    assert!(kubelet.create(mk_pod("default", "web", 1, Some("n1"))));
    assert!(kubelet.pod_exited(
        "default",
        "web",
        3,
        Some("Error".to_string()),
        Some("exit code 3".to_string())
    ));
    {
        let p = kubelet.get_pod("default", "web").unwrap();
        assert_eq!(p.status.as_ref().unwrap().phase, Some(PodPhase::Failed));
        let ready = condition(p, "Ready");
        assert_eq!(ready.len(), 1);
        assert_eq!(ready[0].status, "False");
        assert_eq!(ready[0].reason.as_deref(), Some("Error"));
    }
    // a late start report must not resurrect a finished Pod
    assert!(!kubelet.pod_started("default", "web"));
    let p = kubelet.get_pod("default", "web").unwrap();
    assert_eq!(p.status.as_ref().unwrap().phase, Some(PodPhase::Failed));
}

#[test]
fn kubelet_exit_zero_is_succeeded() {
    let conn = RecordingConnection {
        pushes: RefCell::new(Vec::new()),
    };
    let prov = RecordingProvider::new();
    let mut kubelet = LocalKubelet::new(&conn, &prov);
    assert!(kubelet.create(mk_pod("default", "job", 1, Some("n1"))));
    assert!(kubelet.pod_exited("default", "job", 0, None, None));
    let p = kubelet.get_pod("default", "job").unwrap();
    assert_eq!(p.status.as_ref().unwrap().phase, Some(PodPhase::Succeeded));
}

#[test]
fn kubelet_register_folds_newer_assignment() {
    let conn = RecordingConnection {
        pushes: RefCell::new(Vec::new()),
    };
    let prov = RecordingProvider::new();
    let mut kubelet = LocalKubelet::new(&conn, &prov);
    assert_eq!(
        kubelet.register_pod(mk_pod("default", "web", 1, None)),
        RegisterOutcome::Created
    );
    // the lifecycle is underway when a newer assignment arrives
    assert!(kubelet.pod_started("default", "web"));
    assert_eq!(
        kubelet.register_pod(mk_pod("default", "web", 3, Some("n1"))),
        RegisterOutcome::Updated
    );
    {
        let p = kubelet.get_pod("default", "web").unwrap();
        assert_eq!(p.status.as_ref().unwrap().phase, Some(PodPhase::Running));
        assert_eq!(
            p.spec.as_ref().unwrap().nodeName.as_deref(),
            Some("n1")
        );
        assert_eq!(p.metadata.as_ref().unwrap().resourceVersion, Some(3));
    }
    // a stale re-delivery is discarded
    assert_eq!(
        kubelet.register_pod(mk_pod("default", "web", 2, Some("n2"))),
        RegisterOutcome::Ignored
    );
    let p = kubelet.get_pod("default", "web").unwrap();
    assert_eq!(p.spec.as_ref().unwrap().nodeName.as_deref(), Some("n1"));
}

#[test]
fn kubelet_create_registers_once() {
    let conn = RecordingConnection {
        pushes: RefCell::new(Vec::new()),
    };
    let prov = RecordingProvider::new();
    let mut kubelet = LocalKubelet::new(&conn, &prov);
    assert!(kubelet.create(mk_pod("default", "web", 1, None)));
    assert!(!kubelet.create(mk_pod("default", "web", 2, None)));
    assert_eq!(conn.pushes.borrow().len(), 1);
}
