use determinism_proto::common::v1::{Blake3, ListPage, ListPageOut, PageRef, Timestamp};
use determinism_proto::controlplane::v1::{Budgets, BurstConfig, CheckpointConfig, SchedMode, SchedulingConfig};
use determinism_proto::hypervisor::v1::{KvmCaps, Lease, SnapshotRef};
use determinism_proto::observatory::v1::EventEnvelope;
use determinism_proto::replay::agent::v1::PingResponse;
use determinism_proto::replay::v1::SubmitReplayJobRequest;
use determinism_proto::scratch::v1::PromoteRequest;
use determinism_proto::snapstore::v1::{NodeMeta, PutSnapshotRequest};

#[test]
fn list_page_defaults_to_fifty_items_from_the_start() {
    let page = ListPage::default();
    assert_eq!(page.page_size, 50);
    assert_eq!(page.page_token, "");
    assert_eq!(ListPageOut::default().next_page_token, "");
}

#[test]
fn scratch_promote_request_keeps_its_value() {
    let request = PromoteRequest {
        value: "stable-seam".to_owned(),
        ..Default::default()
    };
    assert_eq!(request.value, "stable-seam");
}

#[test]
fn message_defaults_are_empty() {
    assert_eq!(Timestamp::default().unix_millis, 0);
    assert!(Blake3::default().hash.is_empty());
    assert!(PageRef::default().snapshot_ref.is_empty());
    assert_eq!(Lease::default().slot_id, 0);
    assert!(!KvmCaps::default().dirty_ring);
    assert!(SnapshotRef::default().hash.is_empty());
    assert_eq!(NodeMeta::default().parent_id, None);
    assert!(PutSnapshotRequest::default().manifest.is_empty());
    assert!(!SubmitReplayJobRequest::default().verify_only);
    assert!(!PingResponse::default().hypervisor_reachable);
    assert_eq!(EventEnvelope::default().seq, 0);
    assert_eq!(SchedulingConfig::default().mode, SchedMode::Fast);
    assert_eq!(Budgets::default().max_nodes, 0);
    assert_eq!(BurstConfig::default().k_per_expansion, 0);
    assert_eq!(CheckpointConfig::default().every_seconds, 0);
}

#[test]
fn controlplane_config_shape_holds_its_values() {
    let scheduling = SchedulingConfig {
        mode: SchedMode::Deterministic,
        max_inflight_batches: 1,
        job_timeout_s: 120,
        retry_max: 3,
        retry_backoff_ms: 250,
        hypervisor_endpoints: vec!["http://127.0.0.1:9000".to_owned()],
        allow_class_mismatch: false,
    };
    let budgets = Budgets {
        max_nodes: 1_000,
        max_wall_clock_s: 86_400,
        max_guest_instructions: 2_000,
        max_expansions: 500,
    };
    assert_eq!(scheduling.clone(), scheduling);
    assert_eq!(budgets.max_wall_clock_s, 86_400);
    assert_eq!(scheduling.mode as i32, 1);
}
