//! Ownership of sandboxes across nodes.
use vmond::json::{json_eq, Json, JsonMap};
use vmond::mesh::params::{record_is_staging, restored_metadata, SandboxRecord};
use vmond::mesh::runtime::{
    expired_owner_deadlines, fence_blocks_successor, fence_identity, owner_watchdog_deadline, renewal_failure_fences,
    should_fence_epoch, MeshRuntime,
};
use vmond::mesh::sets::Owner;
use vmond::textmap::TextMap;

const SEC: u64 = 1_000_000_000;

#[test]
fn successful_renewal_uses_request_start_and_safety_margin() {
    let now = 100 * SEC;
    let request_started = now - 2 * SEC;
    assert_eq!(owner_watchdog_deadline(request_started, Some(30 * SEC)), Some((request_started + 25 * SEC) as u128));
    assert_eq!(owner_watchdog_deadline(now, None), None);
    assert_eq!(owner_watchdog_deadline(now, Some(0)), None);
}

#[test]
fn transient_renewal_failure_fences_only_at_cached_deadline() {
    let now = 100u128;
    assert!(!renewal_failure_fences(now, Some(now + 1), false));
    assert!(renewal_failure_fences(now, Some(now), false));
}

#[test]
fn authority_loss_and_missing_restart_deadline_fence_immediately() {
    let now = 100u128;
    assert!(renewal_failure_fences(now, Some(now + 60), true));
    assert!(renewal_failure_fences(now, None, false));
}

#[test]
fn deadline_scan_selects_only_elapsed_owners() {
    let now = 100u128;
    let mut deadlines: TextMap<u128> = TextMap::new();
    deadlines.insert("elapsed".to_owned(), now);
    deadlines.insert("serving".to_owned(), now + 1);
    assert_eq!(expired_owner_deadlines(now, &deadlines), vec!["elapsed".to_owned()]);
}

#[test]
fn stale_epoch_fence_never_tears_down_its_successor() {
    assert!(should_fence_epoch(Some(7), 7));
    assert!(!should_fence_epoch(Some(8), 7));
    assert!(!should_fence_epoch(None, 7));
}

#[test]
fn pending_rollback_is_startup_staging() {
    let mut params = JsonMap::new();
    params.insert("_mesh_rollback_pending".to_owned(), Json::Bool(true));
    assert!(record_is_staging(&params));
}

fn text(s: &str) -> Json {
    Json::Str(s.to_owned())
}

fn pair(k: &str, v: Json) -> Json {
    let mut m = JsonMap::new();
    m.insert(k.to_owned(), v);
    Json::Object(m)
}

#[test]
fn restored_metadata_keeps_create_fields_and_never_persists_secrets() {
    let mut detail = JsonMap::new();
    let fields = [
        ("name", text("sandbox")),
        ("image", text("debian")),
        ("ha", text("active")),
        ("restart_policy", text("always")),
        ("credentials", Json::Array(vec![text("tenant-token")])),
        ("s3_mounts", pair("/mnt/data", text("s3://bucket/prefix"))),
        ("owner_tenant", text("tenant-a")),
        ("encryption_key_id", text("key-a")),
        ("idle_timeout_secs", Json::Float(0f64.to_bits())),
        ("activity_threshold_bytes", Json::Int(512)),
        ("persistence", pair("type", text("ephemeral"))),
        ("secrets", pair("token", text("must-not-persist"))),
        ("status", text("running")),
    ];
    for (k, v) in fields {
        detail.insert(k.to_owned(), v);
    }
    let record = SandboxRecord { name: "sandbox".to_owned(), detail };
    let (params, ha, restart_policy) = restored_metadata(&record).ok().unwrap();
    let is = |k: &str, v: Json| json_eq(params.get(k).unwrap(), &v);
    assert!(is("image", text("debian")));
    assert!(is("credentials", Json::Array(vec![text("tenant-token")])));
    assert!(is("s3_mounts", pair("/mnt/data", text("s3://bucket/prefix"))));
    assert!(is("owner_tenant", text("tenant-a")));
    assert!(is("encryption_key_id", text("key-a")));
    assert!(is("idle_timeout_secs", Json::Float(0f64.to_bits())));
    assert!(is("activity_threshold_bytes", Json::Int(512)));
    assert!(is("persistence", pair("type", text("ephemeral"))));
    assert!(!params.contains_key("secrets"));
    assert!(!params.contains_key("status"));
    assert_eq!(ha, "active");
    assert_eq!(restart_policy, "always");
}

#[test]
fn expired_restoring_identity_fences_newer_epoch_over_stale_owner() {
    let mut owners: TextMap<Owner> = TextMap::new();
    owners.insert("sandbox".to_owned(), Owner::new("node-a", 5));
    let mut restoring: TextMap<Owner> = TextMap::new();
    restoring.insert("sandbox".to_owned(), Owner::new("node-a", 6));
    let identity = fence_identity("sandbox", &owners, &restoring).unwrap();
    assert!(identity.is("node-a", 6));
}

#[test]
fn fence_retry_epoch_is_nonserving_when_restore_map_is_empty() {
    let restoring: TextMap<Owner> = TextMap::new();
    let mut fenced: TextMap<u64> = TextMap::new();
    fenced.insert("sandbox".to_owned(), 1);
    assert_eq!(MeshRuntime::nonserving_epoch("sandbox", &restoring, &fenced), Some(1));
}

#[test]
fn active_fence_blocks_epoch_two_successor_until_teardown_completes() {
    let mut fences: TextMap<u64> = TextMap::new();
    fences.insert("sandbox".to_owned(), 1);
    assert!(fence_blocks_successor(&fences, "sandbox"));
    assert!(!fence_blocks_successor(&TextMap::new(), "sandbox"));
}
