//! Warm pools.
use vmond::error::EngineError;
use vmond::json::{json_eq, Json, JsonMap};
use vmond::pools::claim::{Claim, ClaimStep};
use vmond::pools::naming::{name_taken, pooled_name, rename_meta, renamed_path_meta};
use vmond::pools::{next_spawn_step, template_key, PoolRegistry, PoolStats, PooledVm, SpawnStep, WarmPool};

fn pool(size: usize, paused: bool) -> WarmPool {
    WarmPool::new("/tpl/template".to_owned(), true, size, true, false, paused)
}

fn member(name: &str, paused: bool) -> PooledVm {
    PooledVm { name: name.to_owned(), paused }
}

fn failure(text: &str) -> Option<EngineError> {
    Some(EngineError::engine(text.to_owned()))
}

#[test]
fn template_key_uses_locked_format() {
    assert_eq!(
        template_key("debian:stable", 1024, 512, 2, 3, true, false, true),
        "debian:stable|d1024|m512|c2|s3|h1|n0|t1",
    );
}

#[test]
fn template_keys_tell_shapes_apart() {
    let base = template_key("a|d1", 2, 3, 4, 5, true, false, true);
    assert_ne!(base, template_key("a", 12, 3, 4, 5, true, false, true));
    assert_ne!(base, template_key("a|d1", 2, 3, 4, 5, false, true, true));
    assert_ne!(base, template_key("a|d1|d2", 3, 3, 4, 5, true, false, true));
}

#[test]
fn renamed_path_meta_preserves_nullish_values() {
    let replacement = "/tmp/new-rootfs.img";
    assert!(matches!(renamed_path_meta(&Json::Null, replacement), Ok(Json::Null)));
    assert!(matches!(renamed_path_meta(&Json::Bool(false), replacement), Ok(Json::Null)));
    assert!(matches!(renamed_path_meta(&Json::Str(String::new()), replacement), Ok(Json::Null)));
    let moved = renamed_path_meta(&Json::Str("/old".to_owned()), replacement);
    assert!(matches!(moved, Ok(Json::Str(s)) if s == "/tmp/new-rootfs.img"));
    let refused = renamed_path_meta(&Json::Bool(true), replacement);
    assert!(matches!(refused, Err(e) if e.message == "metadata path must be str or null"));
}

#[test]
fn rename_rewrites_present_paths_and_preserves_nulls() {
    let mut meta = JsonMap::new();
    meta.insert("agent_sock".to_owned(), Json::Str("/vms/old/agent.sock".to_owned()));
    meta.insert("rootfs".to_owned(), Json::Str("/vms/old/rootfs.img".to_owned()));
    meta.insert("remote_page_url".to_owned(), Json::Null);
    let moved = rename_meta(&meta, "/vms/new").ok().unwrap();
    assert_eq!(moved.text_at("sock").unwrap(), "/vms/new/api.sock");
    assert_eq!(moved.text_at("agent_sock").unwrap(), "/vms/new/agent.sock");
    assert_eq!(moved.text_at("rootfs").unwrap(), "/vms/new/rootfs.img");
    assert!(!moved.contains_key("remote_page_url"));
    meta.insert("rootfs".to_owned(), Json::Null);
    meta.remove("agent_sock");
    let moved = rename_meta(&meta, "/vms/new").ok().unwrap();
    assert!(json_eq(moved.get("rootfs").unwrap(), &Json::Null));
    assert!(!moved.contains_key("agent_sock"));
    meta.insert("rootfs".to_owned(), Json::Int(1));
    assert!(rename_meta(&meta, "/vms/new").is_err());
    assert_eq!(name_taken("new").message, "sandbox 'new' already exists");
}

#[test]
fn registry_stats_are_keyed_by_reference() {
    let mut registry = PoolRegistry::new();
    registry.set("ref".to_owned(), WarmPool::new("/no/template".to_owned(), false, 0, false, false, true));
    let stats = registry.list();
    assert_eq!(stats, vec![("ref".to_owned(), PoolStats { ready: 0, hits: 0, misses: 0, size: 0 })]);
    let mut other = pool(1, true);
    other.publish(vec![member("m", true)]);
    assert!(other.take_ready().is_some());
    assert!(other.take_ready().is_none());
    other.count_hit();
    registry.set("other".to_owned(), other);
    assert_eq!(registry.total_hits_misses(), (1, 1));
    assert_eq!(registry.list()[0].0, "other");
    registry.delete("ref");
    assert!(registry.get("ref").is_none());
    assert_eq!(registry.get("other").unwrap().template(), "/tpl/template");
}

#[test]
fn warm_pool_refills_within_target_bounds() {
    let mut pool = pool(40, false);
    assert_eq!(pool.refill_count(), 32);
    let overflow = pool.publish((0..32).map(|i| member(&format!("m{i}"), false)).collect());
    assert!(overflow.is_empty());
    assert_eq!(pool.refill_count(), 8);
    let dropped: Vec<String> = pool.resize(30).into_iter().map(|m| m.name).collect();
    assert_eq!(dropped, vec!["m31", "m30"]);
    assert_eq!(pool.refill_count(), 0);
    pool.resize(31);
    let overflow: Vec<String> =
        pool.publish(vec![member("a", false), member("b", false)]).into_iter().map(|m| m.name).collect();
    assert_eq!(overflow, vec!["b"]);
    assert_eq!(pool.stats(), PoolStats { ready: 31, hits: 0, misses: 0, size: 31 });
    let parked = pool.shutdown();
    assert_eq!(parked.len(), 31);
    assert_eq!(parked[0].name, "m0");
    assert_eq!(pool.publish(vec![member("late", false)]).len(), 1);
    assert_eq!(pool.refill_count(), 0);
}

#[test]
fn claim_is_rename_plus_resume_without_template_rebuild() {
    let mut pool = pool(1, true);
    pool.publish(vec![member("_pool-x", true)]);
    let mut events: Vec<String> = Vec::new();
    let mut claim = Claim::new(Some("wanted".to_owned()), false);
    claim.take_member(&mut pool);
    assert_eq!(claim.step(), ClaimStep::Rename);
    claim.resume(&mut pool, None);
    assert_eq!(claim.step(), ClaimStep::Resume);
    events.push(format!("resume:{}", claim.member().unwrap().name));
    claim.resume(&mut pool, None);
    assert_eq!(claim.step(), ClaimStep::Claimed);
    let vm = claim.outcome().unwrap().unwrap();
    assert_eq!(vm.name, "wanted");
    assert!(!vm.paused);
    assert_eq!(events, vec!["resume:wanted"]);
    assert_eq!(pool.stats().hits, 1);
}

#[test]
fn paused_claim_keeps_member_paused_and_running_member_gets_paused() {
    let mut pool = pool(2, true);
    pool.publish(vec![member("a", true), member("b", false)]);
    let mut claim = Claim::new(Some("staged".to_owned()), true);
    claim.take_member(&mut pool);
    claim.resume(&mut pool, None);
    assert_eq!(claim.step(), ClaimStep::Claimed);
    assert!(claim.outcome().unwrap().unwrap().paused);

    let mut claim = Claim::new(Some("b".to_owned()), true);
    claim.take_member(&mut pool);
    assert_eq!(claim.step(), ClaimStep::Pause);
    claim.resume(&mut pool, None);
    let vm = claim.outcome().unwrap().unwrap();
    assert_eq!((vm.name.as_str(), vm.paused), ("b", true));
    assert_eq!(pool.stats().hits, 2);
}

#[test]
fn claim_miss_and_unresumable_member_fall_back_to_boot_path() {
    let mut empty = pool(0, true);
    let mut claim = Claim::new(Some("missed".to_owned()), false);
    claim.take_member(&mut empty);
    assert_eq!(claim.step(), ClaimStep::Missed);
    assert!(claim.outcome().unwrap().is_none());
    assert_eq!(empty.stats(), PoolStats { ready: 0, hits: 0, misses: 1, size: 0 });

    let mut pool = pool(1, true);
    pool.publish(vec![member("dead", true)]);
    let mut claim = Claim::new(Some("dead".to_owned()), false);
    claim.take_member(&mut pool);
    assert_eq!(claim.step(), ClaimStep::Resume);
    claim.resume(&mut pool, failure("resume rejected by test"));
    assert_eq!(claim.step(), ClaimStep::TearDownAndRetry);
    assert_eq!(claim.member().unwrap().name, "dead");
    claim.resume(&mut pool, None);
    assert_eq!(claim.step(), ClaimStep::Take);
    claim.take_member(&mut pool);
    assert!(claim.outcome().unwrap().is_none());
    assert_eq!(pool.stats().hits, 0);
}

#[test]
fn a_member_that_cannot_be_renamed_fails_the_claim() {
    let mut pool = pool(1, true);
    pool.publish(vec![member("a", true)]);
    let mut claim = Claim::new(Some("b".to_owned()), false);
    claim.take_member(&mut pool);
    claim.resume(&mut pool, failure("taken"));
    assert_eq!(claim.step(), ClaimStep::TearDownAndFail);
    claim.resume(&mut pool, None);
    assert!(matches!(claim.outcome(), Err(e) if e.message == "taken"));
    assert_eq!(pool.stats(), PoolStats { ready: 0, hits: 0, misses: 0, size: 1 });
}

#[test]
fn clone_disks_use_cow_overlay_of_template_image() {
    let plan = pool(1, true).launch_plan("/vms/clone");
    assert!(plan.fork);
    assert_eq!(plan.snapshot, "/tpl/template");
    let (base, own) = plan.disk_overlay.unwrap();
    assert_eq!(base, "/tpl/template/rootfs.img");
    assert_eq!(own, "/vms/clone/rootfs.img");
    assert!(plan.agent_sock.is_none());
    let plan = WarmPool::new("/t".to_owned(), false, 1, false, true, true).launch_plan("/vms/clone");
    assert!(!plan.fork && plan.disk_overlay.is_none());
    assert_eq!(plan.agent_sock.unwrap(), "/vms/clone/agent.sock");
}

#[test]
fn members_are_started_step_by_step() {
    let next = |step, ok| next_spawn_step(step, ok, true, true);
    assert_eq!(next(SpawnStep::Launch, true), SpawnStep::Ping);
    assert_eq!(next(SpawnStep::Launch, false), SpawnStep::Remove);
    assert_eq!(next(SpawnStep::Ping, false), SpawnStep::TearDown);
    assert_eq!(next(SpawnStep::Ping, true), SpawnStep::Pause);
    assert_eq!(next(SpawnStep::Pause, false), SpawnStep::Ready { paused: false });
    assert_eq!(next(SpawnStep::Pause, true), SpawnStep::Ready { paused: true });
    assert_eq!(next(SpawnStep::TearDown, true), SpawnStep::Failed);
    assert_eq!(next_spawn_step(SpawnStep::Launch, true, false, false), SpawnStep::Ready { paused: false });
    assert!(pool(1, true).parked("x".to_owned(), true).paused);
    assert!(!pool(1, false).parked("x".to_owned(), true).paused);
}

#[test]
fn member_names_are_plain() {
    assert_eq!(
        pooled_name("/tpl/debian:stable@1", 1, 0x1_0000_00ff),
        "_pool-debian-stable-1-00000001000000ff"
    );
    assert_eq!(pooled_name("/", 0x1_2345_6789, 0), "_pool-template-12345678900000000");
    let long = "x".repeat(40);
    assert_eq!(pooled_name(&long, 0, 0).len(), "_pool-".len() + 32 + 1 + 16);
}
