//! The registry of sandboxes.
use parking_lot::Mutex;
use std::collections::BTreeMap;
use std::sync::{Arc, Barrier};
use vmond::json::{json_eq, Json, JsonMap};
use vmond::registry::codec::{decode_lifecycle, decode_policy, json_lifecycle, json_policy};
use vmond::registry::identity::{SafeRuntimeIdentity, decode_identity, json_identity};
use vmond::registry::lifecycle::{
    LifecycleOperation, LifecyclePhase, PersistencePolicy, StateGeneration, TransitionDisposition,
};
use vmond::registry::record::{cancelled_meta, insert_persisted, lifecycle_meta, VmRecord};
use vmond::registry::rehydrate::{read_meta_map, MetaEntry};
use vmond::registry::store::{PlannedBegin, Registry};
use vmond::textmap::{set_of, TextMap};

fn bits(x: f64) -> u64 {
    x.to_bits()
}

fn read(raw: &str) -> Json {
    Json::parse(raw).ok().unwrap()
}

fn object(raw: &str) -> JsonMap {
    match read(raw) {
        Json::Object(m) => m,
        _ => panic!("not an object"),
    }
}

fn mentions(value: &Json, needle: &str) -> bool {
    match value {
        Json::Str(s) => s.contains(needle),
        Json::Array(items) => items.iter().any(|v| mentions(v, needle)),
        Json::Object(m) => {
            (0..m.len()).any(|i| m.name_at(i).contains(needle) || mentions(m.value_at(i), needle))
        },
        _ => false,
    }
}

/// What stands on disk: the metadata of each sandbox, and which of them run.
struct Disk {
    metas: BTreeMap<String, JsonMap>,
    running: Vec<String>,
}

impl Disk {
    fn new() -> Disk {
        Disk { metas: BTreeMap::new(), running: Vec::new() }
    }

    fn meta(&self, name: &str) -> JsonMap {
        self.metas.get(name).cloned().unwrap_or_else(JsonMap::new)
    }

    fn insert(&mut self, registry: &mut Registry, record: VmRecord) {
        let name = record.name.clone();
        let (meta, record) = insert_persisted(self.meta(&name), record);
        self.metas.insert(name, meta);
        registry.insert(record);
    }

    fn commit(&mut self, registry: &mut Registry, record: Option<VmRecord>) {
        if let Some(record) = record {
            let meta = lifecycle_meta(self.meta(&record.name), &record);
            self.metas.insert(record.name.clone(), meta);
            registry.commit(record);
        }
    }

    fn begin(&mut self, registry: &mut Registry, from: u64, to: LifecyclePhase) -> PlannedBegin {
        let planned = registry.begin_transition("sandbox", StateGeneration(from), to).ok().unwrap();
        self.keep(registry, planned)
    }

    fn keep(&mut self, registry: &mut Registry, planned: PlannedBegin) -> PlannedBegin {
        let PlannedBegin { begin, record } = planned;
        self.commit(registry, record);
        PlannedBegin { begin, record: None }
    }

    fn rehydrated(&mut self) -> (Registry, Vec<(String, Vec<String>)>) {
        let mut entries: TextMap<MetaEntry> = TextMap::new();
        for (name, meta) in &self.metas {
            let entry = MetaEntry { meta: meta.clone(), running: self.running.contains(name) };
            entries.insert(name.clone(), entry);
        }
        let mut registry = Registry::new();
        let done = registry.rehydrate(&entries, bits(1.0));
        for (name, meta) in done.writes {
            self.metas.insert(name, meta);
        }
        (registry, done.locks)
    }
}

fn record(id: &str, status: &str) -> VmRecord {
    VmRecord::new(id.to_owned(), id.to_owned(), status.to_owned(), bits(1.0))
}

#[test]
fn view_spreads_detail_then_overrides_canonical_keys() {
    let mut record = VmRecord::new(
        "canonical-id".to_owned(),
        "canonical-name".to_owned(),
        "running".to_owned(),
        bits(0.0),
    );
    record.created_at = bits(10.0);
    record.last_active = bits(20.0);
    record.timeout = Some(bits(5.0));
    record.tags.insert("role".to_owned(), "api".to_owned());
    record.detail = read(
        r#"{"id":"bad-id","name":"bad-name","status":"bad-status","created_at":-1,"last_active":-1,
            "expires_at":-1,"terminated_at":123,"error":"bad-error","tags":{"bad":"tag"},
            "returncode":7,"idempotency_key":"secret","extra":"kept"}"#,
    );
    let timeout = record.armed_timeout().map(f64::from_bits).unwrap();
    let shown = record.api_view(Some(bits(f64::from_bits(record.last_active) + timeout)));
    let view = shown.as_object().unwrap();
    let is = |k: &str, v: Json| json_eq(view.get(k).unwrap(), &v);
    assert!(is("id", Json::Str("canonical-id".to_owned())));
    assert!(is("name", Json::Str("canonical-name".to_owned())));
    assert!(is("status", Json::Str("running".to_owned())));
    assert!(is("created_at", Json::Float(bits(10.0))));
    assert!(is("last_active", Json::Float(bits(20.0))));
    assert!(is("expires_at", Json::Float(bits(25.0))));
    assert!(is("terminated_at", Json::Null));
    assert!(is("error", Json::Null));
    assert!(is("tags", read(r#"{"role": "api"}"#)));
    assert!(is("returncode", Json::Int(7)));
    assert!(is("extra", Json::Str("kept".to_owned())));
    assert!(!view.contains_key("idempotency_key"));
}

#[test]
fn rehydrate_reads_metadata_and_rebuilds_indexes() {
    let mut disk = Disk::new();
    disk.metas.insert(
        "dead".to_owned(),
        object(
            r#"{"status":"running","pid":2147483647,"image":"alpine","timeout_secs":42,
                "tags":{"role":"test","ignored":5},"idempotency_key":"idem-dead",
                "volumes":{"/data":{"name":"data"}}}"#,
        ),
    );
    disk.metas.insert(
        "terminated".to_owned(),
        object(r#"{"status":"terminated","pid":2147483647,"idempotency_key":"idem-terminated"}"#),
    );
    disk.metas.insert(
        "live".to_owned(),
        object(
            r#"{"status":"stopped","pid":77,"forked_from":"base-snap","tap":"tap0","idempotency_key":"idem-live",
                "volumes":{"/data":{"name":"data"},"/logs":{"name":"logs","read_only":true}}}"#,
        ),
    );
    disk.metas.insert(
        "suspended".to_owned(),
        object(r#"{"status":"suspended","pid":2147483647,"suspend_recovery_point":"point-1"}"#),
    );
    disk.running.push("live".to_owned());
    let (registry, locks) = disk.rehydrated();
    assert_eq!(locks, vec![("live".to_owned(), vec!["data".to_owned()])]);

    let dead = registry.get("dead").unwrap();
    assert_eq!(dead.status, "stopped");
    assert_eq!(dead.pid, Some(i32::MAX));
    assert_eq!(dead.source.as_deref(), Some("alpine"));
    assert_eq!(dead.timeout, Some(bits(42.0)));
    assert_eq!(dead.tags.get("role").unwrap(), "test");
    assert_eq!(dead.tags.len(), 1);
    assert!(dead.lifecycle.desired.same(&LifecyclePhase::Stopped));
    assert!(dead.lifecycle.observed.same(&LifecyclePhase::Stopped));
    assert_eq!(registry.find_by_idempotency_key("idem-dead"), Some("dead".to_owned()));
    assert_eq!(disk.meta("dead").text_at("status").unwrap(), "stopped");

    assert_eq!(registry.get("suspended").unwrap().status, "suspended");
    assert_eq!(disk.meta("suspended").text_at("status").unwrap(), "suspended");
    assert_eq!(registry.get("terminated").unwrap().status, "terminated");
    assert_eq!(registry.find_by_idempotency_key("idem-terminated"), None);

    let live = registry.get("live").unwrap();
    assert_eq!(live.status, "running");
    assert_eq!(live.source.as_deref(), Some("base-snap"));
    assert_eq!(live.detail.as_object().unwrap().bool_at("tunnels_lost"), Some(true));
    assert_eq!(registry.find_by_idempotency_key("idem-live"), Some("live".to_owned()));
}

#[test]
fn persisted_identity_survives_registry_rehydrate() {
    let mut disk = Disk::new();
    let mut record = VmRecord::new(
        "sb-stable".to_owned(),
        "sandbox-directory".to_owned(),
        "stopped".to_owned(),
        bits(0.0),
    );
    record.created_at = bits(10.0);
    record.last_active = bits(12.0);
    record.terminated_at = Some(bits(13.0));
    record.error = Some("guest exited".to_owned());
    disk.insert(&mut Registry::new(), record);

    let (rehydrated, _) = disk.rehydrated();
    let restored = rehydrated.get("sb-stable").unwrap();
    assert_eq!(restored.name, "sandbox-directory");
    assert_eq!(restored.created_at, bits(10.0));
    assert_eq!(restored.last_active, bits(12.0));
    assert_eq!(restored.terminated_at, Some(bits(13.0)));
    assert_eq!(restored.error.as_deref(), Some("guest exited"));
    assert!(rehydrated.get("sandbox-directory").is_none());
}

#[test]
fn desired_write_survives_crash_before_observation() {
    let mut disk = Disk::new();
    let mut registry = Registry::new();
    disk.insert(&mut registry, record("sandbox", "stopped"));
    let transition = disk.begin(&mut registry, 0, LifecyclePhase::Running);
    assert_eq!(transition.begin.generation, StateGeneration(1));

    let (restarted, _) = disk.rehydrated();
    let restored = restarted.get("sandbox").unwrap();
    assert!(restored.lifecycle.desired.same(&LifecyclePhase::Running));
    assert!(restored.lifecycle.observed.same(&LifecyclePhase::Stopped));
    assert_eq!(restored.lifecycle.generation, StateGeneration(1));
    assert_eq!(restarted.startup_reconciliation_inputs(&Vec::new()).len(), 1);
}

#[test]
fn stale_generation_cannot_complete_newer_transition() {
    let mut disk = Disk::new();
    let mut registry = Registry::new();
    disk.insert(&mut registry, record("sandbox", "stopped"));
    let transition = disk.begin(&mut registry, 0, LifecyclePhase::Running);
    assert!(registry.observe_transition("sandbox", StateGeneration(0), LifecyclePhase::Running).is_err());
    let done = registry
        .observe_transition("sandbox", transition.begin.generation, LifecyclePhase::Running)
        .ok()
        .unwrap();
    disk.commit(&mut registry, done.record);
    assert!(registry.get("sandbox").unwrap().lifecycle.observed.same(&LifecyclePhase::Running));
}

#[test]
fn rehydrate_normalizes_observed_state_from_live_pid() {
    let mut disk = Disk::new();
    disk.metas.insert(
        "live".to_owned(),
        object(
            r#"{"pid":77,"status":"stopped",
                "lifecycle":{"desired":"running","observed":"stopped","generation":7,"failure":null}}"#,
        ),
    );
    disk.running.push("live".to_owned());
    let (registry, _) = disk.rehydrated();
    let record = registry.get("live").unwrap();
    assert_eq!(record.status, "running");
    assert!(record.lifecycle.desired.same(&LifecyclePhase::Running));
    assert!(record.lifecycle.observed.same(&LifecyclePhase::Running));
    assert_eq!(record.lifecycle.generation, StateGeneration(7));
}

fn identity() -> SafeRuntimeIdentity {
    let mut environment: TextMap<String> = TextMap::new();
    environment.insert("MODE".to_owned(), "production".to_owned());
    environment.insert("TOKEN".to_owned(), "must-not-persist".to_owned());
    SafeRuntimeIdentity {
        environment,
        workdir: Some("/srv/app".to_owned()),
        network_policy: Some(read(r#"{"block_network": false}"#)),
        network: read(r#"{"flavor": "user", "tunnels": {"ssh": 22}}"#),
        tunnels: read(r#"{"ssh": 22}"#),
        mounts: vec![read(r#"{"name": "data", "path": "/data"}"#)],
        timeout_secs: Some(bits(30.0)),
        source: Some("oci:example/app".to_owned()),
        template: Some("/templates/app".to_owned()),
        pool: Some("warm-app".to_owned()),
        secret_names: set_of(&vec!["TOKEN".to_owned()]),
        available_secret_names: set_of(&vec!["TOKEN".to_owned()]),
        version: 1,
        identity_complete: true,
    }
}

#[test]
fn safe_runtime_identity_round_trips_without_secret_values() {
    let mut disk = Disk::new();
    let mut record = record("sandbox", "stopped");
    record.runtime_identity = identity();
    let expected = identity().without_secret_values();
    disk.insert(&mut Registry::new(), record);

    let (rehydrated, _) = disk.rehydrated();
    let restored = rehydrated.get("sandbox").unwrap();
    assert!(restored.runtime_identity.same(&expected));
    assert!(!restored.runtime_identity.environment.contains_key("TOKEN"));
    assert!(!mentions(&Json::Object(disk.meta("sandbox")), "must-not-persist"));
    let written = json_identity(&expected);
    assert!(decode_identity(&written).unwrap().same(&expected));
}

#[test]
fn failed_transition_retries_same_target_and_rejects_conflict() {
    let mut disk = Disk::new();
    let mut registry = Registry::new();
    disk.insert(&mut registry, record("sandbox", "stopped"));
    let started = disk.begin(&mut registry, 0, LifecyclePhase::Running).begin;
    let failed =
        registry.fail_transition("sandbox", started.generation, "vmm unavailable".to_owned()).ok().unwrap();
    disk.commit(&mut registry, failed.record);
    assert!(registry.begin_transition("sandbox", started.generation, LifecyclePhase::Suspended).is_err());
    let retried = disk.begin(&mut registry, 1, LifecyclePhase::Running).begin;
    assert_eq!(retried.generation, StateGeneration(2));
    assert!(registry.get("sandbox").unwrap().lifecycle.failure.is_none());
}

#[test]
fn volume_locks_are_asked_for_by_the_stable_identity() {
    let mut disk = Disk::new();
    disk.metas.insert(
        "dir-a".to_owned(),
        object(
            r#"{"sandbox_id":"sb-1","pid":77,
                "volumes":{"/data":{"name":"data"},"/logs":{"name":"logs","read_only":true}}}"#,
        ),
    );
    disk.running.push("dir-a".to_owned());
    let (registry, locks) = disk.rehydrated();
    assert_eq!(locks, vec![("sb-1".to_owned(), vec!["data".to_owned()])]);
    let found = registry.get("sb-1").unwrap();
    assert_eq!((found.name.as_str(), found.status.as_str()), ("dir-a", "running"));
    assert!(registry.get("dir-a").is_none());
}

#[test]
fn only_one_concurrent_duplicate_transition_acquires_side_effects() {
    let mut disk = Disk::new();
    let mut registry = Registry::new();
    disk.insert(&mut registry, record("sandbox", "stopped"));
    let shared = Arc::new(Mutex::new((disk, registry)));
    let barrier = Arc::new(Barrier::new(3));
    let runtime = tokio::runtime::Builder::new_multi_thread().build().unwrap();
    let begin = || {
        let shared = shared.clone();
        let barrier = barrier.clone();
        runtime.spawn_blocking(move || {
            barrier.wait();
            let mut held = shared.lock();
            let (disk, registry) = &mut *held;
            disk.begin(registry, 0, LifecyclePhase::Running).begin.disposition
        })
    };
    let first = begin();
    let second = begin();
    barrier.wait();
    let dispositions = [runtime.block_on(first).unwrap(), runtime.block_on(second).unwrap()];
    assert_eq!(dispositions.iter().filter(|&&d| d == TransitionDisposition::Acquired).count(), 1);
    assert_eq!(dispositions.iter().filter(|&&d| d == TransitionDisposition::Joined).count(), 1);
}

#[test]
fn same_state_rollback_remains_pending_until_observed() {
    let mut disk = Disk::new();
    let mut registry = Registry::new();
    disk.insert(&mut registry, record("sandbox", "running"));
    let planned = registry
        .begin_operation(
            "sandbox",
            StateGeneration(0),
            LifecyclePhase::Running,
            Some(LifecycleOperation::Rollback { recovery_point: "point-17".to_owned() }),
        )
        .ok()
        .unwrap();
    let rollback = disk.keep(&mut registry, planned).begin;
    assert_eq!(rollback.disposition, TransitionDisposition::Acquired);
    assert_eq!(rollback.generation, StateGeneration(1));
    let (mut restarted, _) = disk.rehydrated();
    let inputs = restarted.startup_reconciliation_inputs(&Vec::new());
    assert_eq!(inputs.len(), 1);
    assert!(matches!(
        &inputs[0].lifecycle.operation,
        Some(LifecycleOperation::Rollback { recovery_point }) if recovery_point == "point-17"
    ));
    let done = restarted
        .observe_transition("sandbox", rollback.generation, LifecyclePhase::Running)
        .ok()
        .unwrap();
    disk.commit(&mut restarted, done.record);
    assert!(restarted.startup_reconciliation_inputs(&Vec::new()).is_empty());
    assert!(restarted.get("sandbox").unwrap().lifecycle.operation.is_none());
}

#[test]
fn cancellation_converges_pending_suspend_and_rejects_stale_generation() {
    let mut disk = Disk::new();
    let mut registry = Registry::new();
    disk.insert(&mut registry, record("sandbox", "running"));
    let suspend = disk.begin(&mut registry, 0, LifecyclePhase::Suspended).begin;
    assert_eq!(suspend.disposition, TransitionDisposition::Acquired);
    let reason = || "recovery publication failed".to_owned();
    let cancelled = registry
        .cancel_transition("sandbox", suspend.generation, LifecyclePhase::Running, reason())
        .ok()
        .unwrap();
    assert!(cancelled.transition.desired.same(&LifecyclePhase::Running));
    assert!(cancelled.transition.observed.same(&LifecyclePhase::Running));
    let record = cancelled.record.unwrap();
    let meta = cancelled_meta(disk.meta("sandbox"), &record);
    assert_eq!(meta.text_at("status").unwrap(), "running");
    disk.metas.insert("sandbox".to_owned(), meta);
    registry.commit(record);
    assert!(registry.startup_reconciliation_inputs(&Vec::new()).is_empty());
    assert_eq!(registry.get("sandbox").unwrap().error.as_deref(), Some("recovery publication failed"));
    assert!(registry
        .cancel_transition("sandbox", suspend.generation, LifecyclePhase::Running, reason())
        .is_ok());
    assert!(registry
        .cancel_transition("sandbox", StateGeneration(0), LifecyclePhase::Running, "stale".to_owned())
        .is_err());
}

#[test]
fn resuming_pending_transition_fences_crashed_generation() {
    let mut disk = Disk::new();
    let mut registry = Registry::new();
    disk.insert(&mut registry, record("sandbox", "stopped"));
    let original = disk.begin(&mut registry, 0, LifecyclePhase::Running).begin;
    let planned = registry.resume_transition("sandbox", original.generation).ok().unwrap();
    let resumed = disk.keep(&mut registry, planned).begin;
    assert_eq!(resumed.disposition, TransitionDisposition::Acquired);
    assert_eq!(resumed.generation, StateGeneration(2));
    assert!(registry.observe_transition("sandbox", original.generation, LifecyclePhase::Running).is_err());
}

#[test]
fn idle_policy_update_is_atomic_and_survives_rehydrate() {
    let mut disk = Disk::new();
    let mut registry = Registry::new();
    disk.metas.insert(
        "sandbox".to_owned(),
        object(r#"{"relaunch_recipe":{"params":{"idle_timeout_secs":300.0}}}"#),
    );
    disk.insert(&mut registry, record("sandbox", "stopped"));
    let (meta, updated) = registry
        .set_idle_timeout_persisted("sandbox", disk.meta("sandbox"), bits(12.5), bits(42.0))
        .ok()
        .unwrap();
    disk.metas.insert("sandbox".to_owned(), meta);
    let timeouts = |detail: &Json| {
        let detail = detail.as_object().unwrap();
        let recipe = detail.get("relaunch_recipe").unwrap().as_object().unwrap();
        let params = recipe.get("params").unwrap().as_object().unwrap();
        let is = |m: &JsonMap| json_eq(m.get("idle_timeout_secs").unwrap(), &Json::Float(bits(12.5)));
        is(detail) && is(params)
    };
    assert_eq!(updated.last_network_active, bits(42.0));
    assert!(timeouts(&updated.detail));

    let (rehydrated, _) = disk.rehydrated();
    let restored = rehydrated.get("sandbox").unwrap();
    assert_eq!(restored.last_network_active, bits(42.0));
    assert!(timeouts(&restored.detail));
}

#[test]
fn lifecycles_and_policies_are_written_and_read() {
    let lifecycle = record("sandbox", "paused").lifecycle;
    let back = decode_lifecycle(&json_lifecycle(&lifecycle)).unwrap();
    assert!(back.observed.same(&LifecyclePhase::Paused) && back.is_converged());
    assert_eq!(back.observed.as_str(), "paused");
    let odd = LifecyclePhase::from_str("booting");
    assert_eq!(odd.as_str(), "booting");
    let operation = LifecycleOperation::Rollback { recovery_point: "p".to_owned() };
    assert_eq!(operation.kind(), "rollback");
    for policy in
        [PersistencePolicy::Persistent, PersistencePolicy::Sticky { priority: 9 }, PersistencePolicy::Ephemeral]
    {
        assert!(decode_policy(&json_policy(policy)) == Some(policy));
    }
    assert_eq!(PersistencePolicy::Sticky { priority: 9 }.sticky_priority(), Some(9));
    assert_eq!(PersistencePolicy::Ephemeral.sticky_priority(), None);
}

#[test]
fn unknown_sandboxes_are_told_so() {
    let mut registry = Registry::new();
    let missing = registry.begin_transition("none", StateGeneration(0), LifecyclePhase::Running);
    assert!(matches!(missing, Err(e) if e.code == vmond::error::ErrorCode::NotFound));
    registry.insert(record("a", "running"));
    registry.record_idempotency("a", "key");
    assert_eq!(registry.find_by_idempotency_key("key"), Some("a".to_owned()));
    assert_eq!(registry.list().len(), 1);
    assert!(registry.remove("a").is_some());
    assert_eq!(registry.find_by_idempotency_key("key"), None);
}

#[test]
fn metadata_files_hold_objects() {
    assert!(read_meta_map(None, "/vms/a/meta.json").ok().unwrap().len() == 0);
    let meta = read_meta_map(Some(r#"{"status":"running"}"#), "/vms/a/meta.json").ok().unwrap();
    assert_eq!(meta.text_at("status"), Some("running".to_owned()));
    match read_meta_map(Some("[]"), "/vms/a/meta.json") {
        Err(e) => assert_eq!(e.message, "/vms/a/meta.json must contain a JSON object"),
        Ok(_) => panic!("an array is no metadata"),
    }
    match read_meta_map(Some("{"), "/vms/a/meta.json") {
        Err(e) => assert_eq!(
            e.message,
            "could not parse /vms/a/meta.json: EOF while parsing an object at line 1 column 1"
        ),
        Ok(_) => panic!("the text is cut off"),
    }
}

#[test]
fn plans_name_what_is_written() {
    let mut registry = Registry::new();
    let mut running = record("a", "running");
    running.touch(bits(7.0));
    assert_eq!(running.last_active, bits(7.0));
    registry.insert(running);
    let (meta, planned) =
        registry.persist_record_status("a", JsonMap::new(), "terminated", Some(3), Some(bits(9.0)));
    assert_eq!(meta.text_at("status"), Some("terminated".to_owned()));
    assert!(matches!(meta.get("returncode"), Some(Json::Int(3))));
    let planned = planned.unwrap();
    assert_eq!(planned.status, "terminated");
    assert_eq!(planned.terminated_at, Some(bits(9.0)));
    let (_, none) = registry.persist_record_status("none", JsonMap::new(), "stopped", None, None);
    assert!(none.is_none());

    let changed = registry.set_detail_field("a", "tap", Json::Str("tap0".to_owned())).unwrap();
    assert_eq!(changed.detail.as_object().unwrap().text_at("tap"), Some("tap0".to_owned()));
    assert!(registry.set_detail_field("none", "tap", Json::Null).is_none());
    let (meta, record) = registry.update_detail_persisted("a", object(r#"{"x":1}"#)).ok().unwrap();
    assert_eq!(meta.u64_at("x"), Some(1));
    assert_eq!(record.detail.as_object().unwrap().u64_at("x"), Some(1));
    assert!(registry.update_detail_persisted("none", JsonMap::new()).is_err());

    let mut identity = SafeRuntimeIdentity::default();
    identity.workdir = Some("/srv".to_owned());
    let planned = registry.persist_runtime_identity("a", identity).ok().unwrap().unwrap();
    assert_eq!(planned.runtime_identity.workdir.as_deref(), Some("/srv"));
    assert!(registry.persist_runtime_identity("a", SafeRuntimeIdentity::default()).ok().unwrap().is_none());
    assert!(registry.persist_runtime_identity("none", SafeRuntimeIdentity::default()).is_err());

    registry.record_idempotency("a", "key");
    registry.remove_idempotency_for("key", "b");
    assert_eq!(registry.find_by_idempotency_key("key"), Some("a".to_owned()));
    registry.remove_idempotency_for("key", "a");
    assert_eq!(registry.find_by_idempotency_key("key"), None);
}
