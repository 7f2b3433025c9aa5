//! Ownership, leases and replicas on one node.
use vmond::error::{mesh_to_engine, EngineError, ErrorCode, MeshError};
use vmond::json::{Json, JsonMap};
use vmond::mesh::leases::{
    lease_to_renew, leases_to_release, volumes_to_lease, AcquireStep, Acquisition, LeaseRenewals, LeaseReturn,
    RenewalsEnd, ReturnStep,
};
use vmond::mesh::lookup::{
    claim_token_matches, drop_archived_leases, drops_local_replica, find_template_provider, function_placement_nodes,
    has_suspended_marker, passive_suspend_marker, LocalReplica, TemplatePeer,
};
use vmond::mesh::materialize::{
    is_stale_replica, portable_key_id, put_begins, put_continues, replica_key_id, replica_put_admitted, secrets_ready,
    FetchReply, FetchStep, PutStep, ReplicaFetch,
};
use vmond::mesh::members::{
    caps_wire, given_idempotency_key, local_inventory, local_pools, merge_peer, mesh_request_idempotency_key,
    migration_target, node_caps, reap_stale_peers, replica_candidates, NodeCaps, Peer, PeerMember,
};
use vmond::mesh::params::{legacy_portable_key, migration_claim, params_object, sandbox_record, value_object};
use vmond::mesh::publish::{extracted_bundle_root, ChunkedRead, PublishReply, PublishStep, Publication, RootEntry};
use vmond::mesh::records::{CreateRecord, ReplicaRecord};
use vmond::mesh::replicas::{replica_object_key, replica_staging_key, staging_key_for, verify_replica_digest};
use vmond::mesh::runtime::handoff::{rearm_owner_watchdog, renew_and_arm_serving_owner, RestoreAuthority};
use vmond::mesh::runtime::reconcile::{
    delete_commit, fenced_locally, is_nonserving_lifecycle, local_candidate_missing, next_claim_epoch, observed_claim,
    recommitted_record, restore_commit_applied, restore_stays_pending,
};
use vmond::mesh::runtime::renewal::{claimed_lease, Arming, LeaseReply, RenewalReport, RenewalTurn};
use vmond::mesh::runtime::startup::{migration_preserve_paths, needs_placeholder, StartupRecord};
use vmond::mesh::runtime::MeshRuntime;
use vmond::mesh::sets::Owner;
use vmond::mesh::takeback::{release_committed, ReleaseStep};
use vmond::mesh::topology::{
    has_local_template_key, join_answer, joined_token, local_state, membership_status, merge_heartbeat, seed_id,
    setup_keeps_membership, write_claim, MembershipFacts, PeerReport,
};
use vmond::mesh::votes::{LeaseRequest, LeaseVote, VoteReply, VoteStep};
use vmond::textmap::TextMap;

const SEC: u64 = 1_000_000_000;

fn text(s: &str) -> Json {
    Json::Str(s.to_owned())
}

fn map(members: Vec<(&str, Json)>) -> JsonMap {
    let mut m = JsonMap::new();
    for (k, v) in members {
        m.insert(k.to_owned(), v);
    }
    m
}

fn object(members: Vec<(&str, Json)>) -> Json {
    Json::Object(map(members))
}

fn serving_record(sid: &str, owner: &str, epoch: i64) -> CreateRecord {
    CreateRecord {
        sid: sid.to_owned(),
        params: JsonMap::new(),
        owner: owner.to_owned(),
        epoch,
        idempotency_key: String::new(),
        ha: "mesh".to_owned(),
        restart_policy: "always".to_owned(),
        created_at: 0,
    }
}

fn startup(sid: &str, owner: &str, epoch: i64, params: JsonMap) -> StartupRecord {
    StartupRecord {
        sid: sid.to_owned(),
        owner: owner.to_owned(),
        epoch,
        params,
        rollback: false,
        suspend: None,
        running: false,
        renewal: None,
        started: 100 * SEC,
        now: 101 * SEC,
    }
}

#[test]
fn a_restarted_node_serves_only_what_it_can_renew() {
    let mut running = startup("running", "a", 3, JsonMap::new());
    running.running = true;
    running.renewal = Some(30 * SEC);
    let mut refused = startup("refused", "a", 4, JsonMap::new());
    refused.running = true;
    let lost = startup("lost", "a", 5, JsonMap::new());
    let elsewhere = startup("elsewhere", "b", 6, JsonMap::new());
    let mut rolling = startup("rolling", "a", 7, JsonMap::new());
    rolling.rollback = true;
    let mut suspended = startup("suspended", "a", 8, JsonMap::new());
    suspended.suspend = Some("suspended".to_owned());
    let restoring = startup(
        "restoring",
        "a",
        9,
        map(vec![("_mesh_restore_pending", object(vec![("source_owner", text("dead"))]))]),
    );
    let records = vec![running, refused, lost, elsewhere, rolling, suspended, restoring];
    let mut node = MeshRuntime::new("a".to_owned(), true, &records);
    assert_eq!(node.current_owner("running"), Some(("a".to_owned(), 3)));
    assert_eq!(node.current_owner("elsewhere"), Some(("b".to_owned(), 6)));
    for (sid, epoch) in [("refused", 4), ("lost", 5), ("rolling", 7), ("suspended", 8), ("restoring", 9)] {
        assert_eq!(node.current_owner(sid), None);
        assert_eq!(node.restoring_epoch(sid), Some(epoch));
    }
    assert_eq!(
        node.drain_orphans(),
        vec![("lost".to_owned(), "a".to_owned()), ("restoring".to_owned(), "dead".to_owned())]
    );
    assert!(node.drain_orphans().is_empty());
}

fn owning(epoch: i64, lease: u128) -> MeshRuntime {
    let mut node = MeshRuntime::new("a".to_owned(), false, &Vec::new());
    node.record_owner("box", "a", epoch, Some(lease), 0);
    node
}

#[test]
fn service_ends_at_its_deadline() {
    let mut node = owning(3, 100);
    assert_eq!(node.enforce_deadlines(99), Vec::<String>::new());
    assert_eq!(node.local_epoch("box"), 3);
    assert_eq!(node.enforce_deadlines(100), vec!["box".to_owned()]);
    assert_eq!(node.current_owner("box"), None);
    assert_eq!(node.restoring_epoch("box"), Some(3));
    assert_eq!(node.claim_admissible("box").unwrap_err().code, ErrorCode::Busy);
    assert!(node.try_begin_target_migration("box").is_err());
    node.finish_fence("box");
    assert!(node.claim_admissible("box").is_ok());
}

#[test]
fn a_stale_fence_spares_the_successor() {
    let mut node = owning(4, 100);
    assert!(!node.schedule_fence("box", 3));
    assert_eq!(node.current_owner("box"), Some(("a".to_owned(), 4)));
    assert!(node.schedule_fence("box", 4));
    assert_eq!(node.current_owner("box"), None);
}

#[test]
fn a_newer_restore_is_fenced_over_a_stale_owner() {
    let stale = startup("box", "b", 5, JsonMap::new());
    let mut newer = startup("box", "a", 6, JsonMap::new());
    newer.rollback = true;
    let mut node = MeshRuntime::new("a".to_owned(), true, &vec![stale, newer]);
    assert_eq!(node.current_owner("box"), Some(("b".to_owned(), 5)));
    assert_eq!(node.restoring_epoch("box"), Some(6));
    assert!(!node.schedule_fence("box", 5));
    assert!(node.schedule_fence("box", 6));
    assert_eq!(node.current_owner("box"), None);
    assert_eq!(node.restoring_epoch("box"), Some(6));
}

#[test]
fn a_restore_past_its_deadline_is_fenced() {
    let mut node = MeshRuntime::new("a".to_owned(), true, &vec![startup("box", "a", 5, JsonMap::new())]);
    assert_eq!(node.restoring_epoch("box"), Some(5));
    assert_eq!(node.enforce_deadlines(u128::from(101 * SEC)), vec!["box".to_owned()]);
    assert_eq!(node.restoring_epoch("box"), Some(5));
    assert_eq!(node.claim_admissible("box").unwrap_err().code, ErrorCode::Busy);
    node.finish_fence("box");
    assert_eq!(node.restoring_epoch("box"), None);
}

fn report(reply: LeaseReply, now: u128) -> RenewalReport {
    RenewalReport {
        sid: "box".to_owned(),
        owner: "a".to_owned(),
        epoch: 3,
        started: 50,
        reply,
        arming: Arming::Armed,
        staged: false,
        running: true,
        record: Some(serving_record("box", "a", 3)),
        now,
    }
}

#[test]
fn renewals_extend_or_end_service() {
    let mut node = owning(3, 100);
    assert!(node.begin_renewal("box", 3, true));
    assert!(!node.begin_renewal("box", 3, true));
    node.settle_renewal(&report(LeaseReply::Granted(30 * SEC), 60));
    assert_eq!(node.enforce_deadlines(100), Vec::<String>::new());
    assert_eq!(node.renewal_turn("box", 3, false, 100), RenewalTurn::Renew);
    assert_eq!(node.renewal_turn("box", 3, false, (26 * SEC) as u128), RenewalTurn::Fence(true));

    let mut refused = owning(3, 100);
    assert!(refused.begin_renewal("box", 3, true));
    assert!(refused.settle_renewal(&report(LeaseReply::Denied, 60)));
    assert_eq!(refused.current_owner("box"), None);

    let mut unreachable = owning(3, 100);
    assert!(unreachable.begin_renewal("box", 3, true));
    assert!(!unreachable.settle_renewal(&report(LeaseReply::Unreachable, 60)));
    assert_eq!(unreachable.local_epoch("box"), 3);
    assert!(unreachable.begin_renewal("box", 3, true));
    assert!(unreachable.settle_renewal(&report(LeaseReply::Unreachable, 100)));
}

#[test]
fn a_suspend_hands_service_over_and_back() {
    let mut node = owning(3, 100);
    assert_eq!(node.prepare_suspend("box", "a", 2).unwrap_err().code, ErrorCode::Busy);
    assert_eq!(node.prepare_suspend("box", "a", -1).unwrap_err().code, ErrorCode::Invalid);
    node.prepare_suspend("box", "a", 3).unwrap();
    assert_eq!(node.current_owner("box"), None);
    assert_eq!(node.restoring_epoch("box"), Some(3));
    node.abort_suspend("box", "a", 3).unwrap();
    assert_eq!(node.current_owner("box"), Some(("a".to_owned(), 3)));
    node.prepare_suspend("box", "a", 3).unwrap();
    node.commit_suspend("box", "a", 3).unwrap();
    assert_eq!(node.current_owner("box"), None);
    assert_eq!(node.restoring_epoch("box"), None);
    assert_eq!(
        node.commit_suspend("box", "a", 3).unwrap_err().message,
        "suspend handoff fenced for sandbox box"
    );
}

#[test]
fn a_restore_serves_its_own_generation() {
    let mut node = MeshRuntime::new("a".to_owned(), false, &Vec::new());
    let claimed = node.claim_restore_epoch_observed("box", "a", 5);
    assert_eq!(claimed, 5);
    assert_eq!(node.restore_staged("box", "a", 5).unwrap(), 5);
    assert!(node.restore_staged("box", "a", 4).is_err());
    assert!(node.commit_restore("box", "a", 4, 100).is_err());
    node.commit_restore("box", "a", 5, 100).unwrap();
    assert_eq!(node.current_owner("box"), Some(("a".to_owned(), 5)));
    assert_eq!(node.restoring_epoch("box"), None);
    assert_eq!(
        node.commit_restore("box", "a", -1, 100).unwrap_err().message,
        "negative restore epoch"
    );
    let authority = RestoreAuthority { begun: false, marker: None, rolling_back: false };
    let _ = node.begin_restore("other", "a", 1, Some(authority));
    assert!(!node.is_resuming("other", "a", 1));
}

#[test]
fn a_rollback_returns_to_service() {
    let mut node = owning(3, 100);
    node.prepare_rollback("box", "a", 3).unwrap();
    assert_eq!(node.current_owner("box"), None);
    node.commit_rollback("box", "a", 3, 200).unwrap();
    assert_eq!(node.current_owner("box"), Some(("a".to_owned(), 3)));
    assert_eq!(
        node.commit_rollback("box", "b", 3, 200).unwrap_err().message,
        "rollback handoff fenced for sandbox box"
    );
    node.prepare_rollback("box", "a", 3).unwrap();
    node.abort_rollback("box", "a", 3).unwrap();
    assert_eq!(node.current_owner("box"), Some(("a".to_owned(), 3)));
    assert!(node.begin_delete("box", "a", 2, false, Some(&serving_record("box", "a", 3))).is_err());
    node.begin_delete("box", "a", 3, false, Some(&serving_record("box", "a", 3))).unwrap();
    assert_eq!(node.current_owner("box"), None);
}

#[test]
fn owners_pins_and_workers_are_kept_once() {
    let mut node = owning(3, 100);
    node.record_owner("box", "b", 2, None, 0);
    assert_eq!(node.current_owner("box"), Some(("a".to_owned(), 3)));
    node.record_owner("far", "b", 2, None, 0);
    assert_eq!(node.owned_by("b"), vec!["far".to_owned()]);
    node.record_orphan_for_dead_owner("b", None);
    assert_eq!(node.drain_orphans(), vec![("far".to_owned(), "b".to_owned())]);
    node.requeue_orphan("far", "b");
    assert_eq!(node.drain_orphans().len(), 1);
    assert_eq!(node.idem_pin("key", "a"), "a");
    assert_eq!(node.idem_pin("key", "b"), "a");
    assert_eq!(node.idem_owner("key"), Some("a".to_owned()));
    node.idem_unpin("key");
    assert_eq!(node.idem_owner("key"), None);
    assert!(node.worker_begin("w"));
    assert!(!node.worker_begin("w"));
    assert_eq!(node.workers_running(), 1);
    node.worker_end("w");
    assert_eq!(node.workers_running(), 0);
}

#[test]
fn volume_leases_are_acquired_together_or_not_at_all() {
    let params = map(vec![("volumes", object(vec![("/a", text("data")), ("/b", text("logs"))]))]);
    assert_eq!(volumes_to_lease(&params, true, 3).unwrap(), vec!["data".to_owned(), "logs".to_owned()]);
    let error = volumes_to_lease(&params, true, 2).unwrap_err();
    assert_eq!(error.code, "unsupported");
    assert_eq!(error.message, "writable volumes need >=3 nodes on mesh contexts");
    let mut all = Acquisition::new(vec!["data".to_owned(), "logs".to_owned()]);
    assert_eq!(all.step(), AcquireStep::Acquire(0));
    all.granted(Ok(text("lease-1")));
    assert_eq!(all.step(), AcquireStep::Acquire(1));
    assert_eq!(all.volume(1), "logs");
    all.granted(Ok(text("lease-2")));
    assert_eq!(all.step(), AcquireStep::Finished);
    assert_eq!(all.acquired().len(), 2);

    let mut none = Acquisition::new(vec!["data".to_owned(), "logs".to_owned()]);
    none.granted(Ok(text("lease-1")));
    none.granted(Err(MeshError::invalid("denied")));
    assert_eq!(none.step(), AcquireStep::Release);
    assert_eq!(none.acquired().len(), 1);
    none.released();
    assert_eq!(none.step(), AcquireStep::Failed);
    assert_eq!(none.error().unwrap().message, "denied");
}

fn vote(renewal: bool, shared_store: bool) -> LeaseVote {
    let request = LeaseRequest {
        renewal,
        volume: "data".to_owned(),
        holder: "a".to_owned(),
        epoch: 4,
        ttl: (12.5_f64).to_bits(),
    };
    LeaseVote::new(request, "busy".to_owned(), shared_store)
}

fn peers() -> Vec<PeerMember> {
    let peer = |id: &str, healthy: bool| PeerMember {
        node_id: id.to_owned(),
        advertise: format!("http://{id}"),
        healthy,
    };
    vec![peer("b", true), peer("c", false), peer("d", true)]
}

#[test]
fn a_lease_takes_a_majority_with_the_own_vote() {
    let mut round = vote(false, false);
    assert_eq!(round.step(), VoteStep::AskOwn);
    round.resume(VoteReply::Decision(true, Some(text("record"))));
    assert_eq!(round.step(), VoteStep::CountMembers);
    round.resume(VoteReply::Members(2, peers()));
    assert_eq!((round.step(), round.peer().as_str()), (VoteStep::Ask(0), "http://b"));
    assert_eq!(round.path(), "/v1/mesh/lease/grant");
    assert_eq!(round.body().text_at("holder_node"), Some("a".to_owned()));
    assert!(matches!(round.body().get("ttl"), Some(Json::Float(bits)) if f64::from_bits(*bits) == 12.5));
    round.resume(VoteReply::Silent);
    assert_eq!((round.step(), round.peer().as_str()), (VoteStep::Ask(1), "http://d"));
    round.resume(VoteReply::Decision(true, Some(text("other"))));
    assert_eq!(round.step(), VoteStep::Granted);
    assert_eq!(round.outcome().unwrap().render(), "\"record\"");
}

#[test]
fn a_lost_vote_is_released_at_every_known_peer() {
    let mut lost = vote(false, false);
    lost.resume(VoteReply::Decision(false, Some(text("ignored"))));
    lost.resume(VoteReply::Members(2, peers()));
    lost.resume(VoteReply::Decision(true, None));
    lost.resume(VoteReply::Decision(true, Some(text("record"))));
    assert_eq!(lost.step(), VoteStep::ReleaseOwn);
    lost.resume(VoteReply::Error(MeshError::invalid("ignored")));
    assert_eq!(lost.step(), VoteStep::ListPeers);
    lost.resume(VoteReply::Peers(peers()));
    let mut told = Vec::new();
    while let VoteStep::ReleaseAt(_) = lost.step() {
        assert_eq!(lost.path(), "/v1/mesh/lease/release");
        assert!(!lost.body().contains_key("ttl"));
        assert_eq!(lost.body().u64_at("epoch"), Some(4));
        told.push(lost.peer().clone());
        lost.resume(VoteReply::Done);
    }
    assert_eq!(told, vec!["http://b".to_owned(), "http://c".to_owned(), "http://d".to_owned()]);
    assert_eq!(lost.step(), VoteStep::Failed);
    let error = lost.outcome().err().unwrap();
    assert_eq!(error.code, "busy");
    assert_eq!(error.message, "lease grant for volume 'data' got 2/2 votes");
}

#[test]
fn a_failed_renewal_releases_no_votes() {
    let mut failed = vote(true, true);
    assert_eq!(failed.step(), VoteStep::AskOwn);
    failed.resume(VoteReply::Decision(true, None));
    failed.resume(VoteReply::Members(3, peers()));
    assert_eq!(failed.path(), "/v1/mesh/lease/renew");
    failed.resume(VoteReply::Decision(true, None));
    failed.resume(VoteReply::Silent);
    assert_eq!(failed.step(), VoteStep::Failed);
    assert_eq!(failed.outcome().err().unwrap().message, "lease renew for volume 'data' got 2/3 votes");
    let mut bare = vote(true, false);
    bare.resume(VoteReply::Decision(true, None));
    bare.resume(VoteReply::Members(1, Vec::new()));
    assert_eq!(bare.outcome().err().unwrap().message, "lease renew missing record");
    let mut odd = vote(false, false);
    odd.resume(VoteReply::Decision(true, None));
    odd.resume(VoteReply::Members(2, peers()));
    odd.resume(VoteReply::Error(MeshError::invalid("invalid lease decision")));
    assert_eq!(odd.outcome().err().unwrap().message, "invalid lease decision");
}

#[test]
fn a_shared_store_gives_new_leases_out() {
    let mut stored = vote(false, true);
    assert_eq!(stored.step(), VoteStep::AskStore);
    stored.resume(VoteReply::Lease(text("lease")));
    assert_eq!(stored.outcome().unwrap().render(), "\"lease\"");
    let mut refused = vote(false, true);
    refused.resume(VoteReply::Error(MeshError::invalid("taken")));
    assert_eq!(refused.outcome().err().unwrap().message, "taken");
}

#[test]
fn leases_leave_the_record_once_all_are_released() {
    let lease = |volume: &str| object(vec![("volume", text(volume)), ("holder", text("a")), ("epoch", Json::Int(4))]);
    let recorded = map(vec![("data", lease("data")), ("odd", Json::Null), ("logs", lease("logs"))]);
    let mut all = LeaseReturn::new(&recorded);
    assert_eq!(all.step(), ReturnStep::Release(0));
    assert_eq!(all.lease(0), &("data".to_owned(), "a".to_owned(), 4));
    all.resume(Ok(()));
    assert_eq!(all.lease(1).0, "logs");
    all.resume(Ok(()));
    assert_eq!(all.step(), ReturnStep::Clear);
    all.resume(Ok(()));
    assert_eq!(all.step(), ReturnStep::Finished);
    assert!(all.error().is_none());
    let mut some = LeaseReturn::new(&recorded);
    some.resume(Err(MeshError::invalid("unreachable")));
    assert_eq!(some.step(), ReturnStep::Release(1));
    some.resume(Err(MeshError::invalid("later")));
    assert_eq!(some.step(), ReturnStep::Failed);
    assert_eq!(some.error().unwrap().message, "unreachable");
    assert_eq!(LeaseReturn::new(&JsonMap::new()).step(), ReturnStep::Clear);
}

#[test]
fn held_leases_are_renewed_until_one_is_overdue() {
    let held = object(vec![("holder", text("a")), ("epoch", Json::Int(4))]);
    let default_ttl = (30.0_f64).to_bits();
    let found = lease_to_renew(Some(&held), "a", default_ttl).unwrap();
    assert_eq!((found.epoch, found.ttl), (4, default_ttl));
    let short = object(vec![("holder", text("a")), ("epoch", Json::Int(4)), ("ttl", Json::Int(10))]);
    assert_eq!(lease_to_renew(Some(&short), "a", default_ttl).unwrap().ttl, (10.0_f64).to_bits());
    assert!(lease_to_renew(Some(&held), "b", default_ttl).is_none());
    assert!(lease_to_renew(None, "a", default_ttl).is_none());
    let mut renewals = LeaseRenewals::new();
    assert_eq!(renewals.end(), RenewalsEnd::Nothing);
    assert!(renewals.take(Ok(text("lease")), false));
    assert!(renewals.take(Err(MeshError::invalid("slow")), false));
    assert_eq!(renewals.end(), RenewalsEnd::Record);
    assert!(!renewals.take(Err(MeshError::invalid("late")), true));
    assert_eq!(renewals.end(), RenewalsEnd::Stop);
    assert_eq!(renewals.leases().len(), 1);
    let lease = object(vec![("volume", text("data")), ("holder", text("a")), ("epoch", Json::Int(4))]);
    assert_eq!(leases_to_release(&vec![lease, Json::Null]), vec![("data".to_owned(), "a".to_owned(), 4)]);
}

#[test]
fn peers_are_merged_and_reaped() {
    let peer = |at: &str, seen: u64| Peer { advertise: at.to_owned(), last_seen: seen };
    let mut peers: TextMap<Peer> = TextMap::new();
    peers.insert("seed-1".to_owned(), peer("http://b", 0));
    assert!(!merge_peer(&mut peers, "a", "a".to_owned(), peer("http://a", 0), 10));
    assert!(!merge_peer(&mut peers, "a", "seed-2".to_owned(), peer("http://c", 0), 10));
    assert!(merge_peer(&mut peers, "a", "b".to_owned(), peer("http://b", 10), 10));
    assert!(!peers.contains_key("seed-1"));
    assert_eq!(reap_stale_peers(&mut peers, 20, 10), Vec::<String>::new());
    assert_eq!(reap_stale_peers(&mut peers, 21, 10), vec!["b".to_owned()]);
    assert!(!peers.contains_key("b"));
}

#[test]
fn members_are_chosen_by_name_and_health() {
    let member = |id: &str, healthy: bool| PeerMember { node_id: id.to_owned(), advertise: String::new(), healthy };
    let all = vec![member("b", false), member("c", true)];
    assert_eq!(migration_target(&all, "c").unwrap(), 1);
    let error = migration_target(&all, "d").unwrap_err();
    assert_eq!(error.code, "unreachable");
    assert_eq!(error.message, "unknown mesh node d");
    assert_eq!(replica_candidates(&all), vec!["c".to_owned()]);
    assert_eq!(replica_candidates(&vec![member("b", false)]), vec!["b".to_owned()]);
    assert_eq!(function_placement_nodes(&vec![(true, false), (false, false), (false, true)]), vec![0, 2]);
    let wire = caps_wire(NodeCaps { vcpus: u64::MAX, mem_mib: 5 });
    assert_eq!(wire.vcpus, u32::MAX);
    assert_eq!(node_caps(wire).vcpus, 4294967295);
}

#[test]
fn an_inventory_counts_what_runs() {
    let view = |id: &str, status: &str| {
        object(vec![
            ("id", text(id)),
            ("status", text(status)),
            ("cpus", Json::Int(2)),
            ("memory", Json::Int(512)),
        ])
    };
    let found = local_inventory(&vec![view("z", "running"), view("y", "paused"), view("x", "terminated"), Json::Null]);
    assert_eq!(found.owned, vec!["y".to_owned(), "z".to_owned()]);
    assert_eq!(found.committed_vcpus, 2);
    assert_eq!(found.committed_mem_mib, 512);
    let pools = local_pools(&object(vec![("tpl", object(vec![("ready", Json::Int(3))])), ("odd", Json::Null)]));
    assert_eq!(pools.get("tpl"), Some(&3));
    assert_eq!(pools.get("odd"), Some(&0));
}

#[test]
fn request_keys_are_given_or_drawn() {
    let first = mesh_request_idempotency_key();
    assert_eq!(first.len(), 36);
    assert!(first.chars().all(|c| c.is_ascii_hexdigit()));
    assert_ne!(first, mesh_request_idempotency_key());
    assert_eq!(given_idempotency_key(&map(vec![("idempotency_key", text(" k "))])), Some("k".to_owned()));
    assert_eq!(given_idempotency_key(&map(vec![("idempotency_key", text("  "))])), None);
}

#[test]
fn rejects_corrupted_replica_bundle_content() {
    assert!(verify_replica_digest("original", "original").is_ok());
    let error = verify_replica_digest("corrupted", "original").unwrap_err();
    assert_eq!(error.message, "shared replica checkpoint digest mismatch: expected original, got corrupted");
}

#[test]
fn extracted_bundle_root_requires_one_expected_directory() {
    let entry = |name: &str, directory: bool| RootEntry { name: Some(name.to_owned()), directory };
    let one = vec![entry("checkpoint", true)];
    assert_eq!(extracted_bundle_root(&one, Some("checkpoint")).unwrap(), "checkpoint");
    assert_eq!(
        extracted_bundle_root(&one, Some("other")).unwrap_err().message,
        "replica bundle root does not match checkpoint name"
    );
    let two = vec![entry("checkpoint", true), entry("extra", true)];
    assert_eq!(
        extracted_bundle_root(&two, Some("checkpoint")).unwrap_err().message,
        "replica bundle must contain exactly one root directory"
    );
    assert_eq!(
        extracted_bundle_root(&vec![entry("checkpoint", false)], None).unwrap_err().message,
        "replica bundle root must be a directory"
    );
    assert_eq!(
        extracted_bundle_root(&vec![RootEntry { name: None, directory: true }], None).unwrap_err().message,
        "replica bundle root name is not UTF-8"
    );
    assert_eq!(
        extracted_bundle_root(&one, Some("..")).unwrap_err().message,
        "replica bundle root name is invalid"
    );
}

#[test]
fn replicas_are_staged_beside_their_final_key() {
    let digest = "ab".repeat(32);
    let scope = "cd".repeat(32);
    let key = replica_object_key("tenant", digest.as_str(), scope.as_str()).unwrap();
    assert_eq!(key, format!("tenant/replicas/by-key/{}/{}.vbundle", scope, digest));
    assert_eq!(
        staging_key_for(key.as_str(), digest.as_str(), "n").unwrap(),
        format!("tenant/replicas/.staging/by-key/{}/{}-n.vbundle", scope, digest)
    );
    let drawn = replica_staging_key(key.as_str(), digest.as_str()).unwrap();
    assert_eq!(drawn.len(), key.len() + ".staging/".len() + 1 + 36);
    assert_ne!(drawn, replica_staging_key(key.as_str(), digest.as_str()).unwrap());
    assert_eq!(replica_object_key("tenant", "xyz", "scope").unwrap_err().message, "replica digest is invalid");
    for (bad, message) in [
        ("elsewhere/key", "replica object key is outside the scoped replica domain"),
        ("t/replicas/by-key/scope", "replica object key has no key scope"),
        ("t/replicas/by-key/scope/file", "replica object key is malformed"),
    ] {
        assert_eq!(staging_key_for(bad, digest.as_str(), "n").unwrap_err().message, message);
    }
}

#[test]
fn an_existing_verified_object_is_not_uploaded_again() {
    let digest = "ab".repeat(32);
    let key = replica_object_key("tenant", digest.as_str(), "cd".repeat(32).as_str()).unwrap();
    let mut publication = Publication::new(key.as_str(), digest.as_str(), "n", true);
    publication.resume(PublishReply::Size(8));
    assert_eq!(publication.step(), PublishStep::VerifyFinal);
    publication.resume(PublishReply::Done);
    assert_eq!(publication.step(), PublishStep::Finished);

    let mut empty = Publication::new(key.as_str(), digest.as_str(), "n", true);
    empty.resume(PublishReply::Missing);
    assert_eq!(empty.step(), PublishStep::Upload);
    empty.resume(PublishReply::Done);
    empty.resume(PublishReply::Size(0));
    assert_eq!(empty.step(), PublishStep::RemoveStaging);
    empty.resume(PublishReply::Done);
    assert_eq!(empty.step(), PublishStep::Failed);
    assert_eq!(empty.error().unwrap().message, "staged shared replica object is empty");

    let mut strange = Publication::new("elsewhere", digest.as_str(), "n", true);
    strange.resume(PublishReply::Missing);
    assert_eq!(strange.step(), PublishStep::Failed);
}

#[test]
fn objects_are_read_in_chunks_to_their_end() {
    let size = 20 * 1024 * 1024;
    let mut read = ChunkedRead::new(size);
    let mut total = 0;
    while let Some((offset, len)) = read.next() {
        assert_eq!(offset, total);
        read.take(len as u64).unwrap();
        total += len as u64;
    }
    assert_eq!(total, size);
    let mut short = ChunkedRead::new(10);
    assert!(short.take(0).is_err());
}

fn replica(dir: &str) -> ReplicaRecord {
    ReplicaRecord {
        sid: "box".to_owned(),
        digest: "ab".repeat(32),
        object_key: "key".to_owned(),
        source_node: "b".to_owned(),
        source_epoch: 3,
        checkpoint_generation: 1,
        snapshot_dir: dir.to_owned(),
        params: map(vec![("encryption_key_id", text("k"))]),
        needs_secrets: false,
    }
}

#[test]
fn corrupt_replica_cache_is_rejected_removed_and_replaced_with_verified_content() {
    let mut fetch = ReplicaFetch::new(replica("/remote/checkpoint"), None, true, true, true, "/cache".to_owned());
    assert_eq!(fetch.step(), FetchStep::CheckCached);
    assert_eq!(fetch.name(), "checkpoint");
    fetch.resume(FetchReply::Corrupt);
    assert_eq!(fetch.step(), FetchStep::InspectCorrupt);
    fetch.resume(FetchReply::Present);
    assert_eq!(fetch.step(), FetchStep::RemoveCorrupt);
    let mut seen = Vec::new();
    while fetch.step() != FetchStep::Finished && fetch.step() != FetchStep::Failed {
        seen.push(fetch.step());
        let reply = if fetch.step() == FetchStep::InspectRoot { FetchReply::Absent } else { FetchReply::Done };
        fetch.resume(reply);
    }
    assert_eq!(
        seen,
        vec![
            FetchStep::RemoveCorrupt,
            FetchStep::AcquireRead,
            FetchStep::Head,
            FetchStep::OpenKey,
            FetchStep::Download,
            FetchStep::VerifyStaged,
            FetchStep::NameStaged,
            FetchStep::InspectRoot,
            FetchStep::Install,
            FetchStep::PutRecord,
        ]
    );
    assert_eq!(fetch.step(), FetchStep::Finished);
    assert_eq!(fetch.record().snapshot_dir, "/cache/checkpoint");
}

#[test]
fn interrupted_partial_replica_extraction_is_never_trusted_and_retry_installs_cache() {
    let mut fetch = ReplicaFetch::new(replica("/remote/checkpoint"), None, true, true, true, "/cache".to_owned());
    fetch.resume(FetchReply::Absent);
    while fetch.step() != FetchStep::Download {
        fetch.resume(FetchReply::Done);
    }
    fetch.resume(FetchReply::Error(EngineError::engine("interrupted extraction".to_owned())));
    assert_eq!(fetch.step(), FetchStep::Failed);
    assert_eq!(fetch.error().unwrap().message, "interrupted extraction");

    let mut partial = ReplicaFetch::new(replica("/remote/checkpoint"), None, true, true, true, "/cache".to_owned());
    partial.resume(FetchReply::Absent);
    while partial.step() != FetchStep::VerifyStaged {
        partial.resume(FetchReply::Done);
    }
    partial.resume(FetchReply::Error(EngineError::invalid("digest mismatch".to_owned())));
    assert_eq!(partial.step(), FetchStep::DropStaged);
    partial.resume(FetchReply::Done);
    assert_eq!(partial.step(), FetchStep::Failed);
    assert_eq!(partial.error().unwrap().message, "digest mismatch");
}

#[test]
fn replicas_need_storage_a_store_and_a_key() {
    let begin = |storage: bool, store: bool, key: bool| {
        let mut shared = replica("/remote/checkpoint");
        if !key {
            shared.params = JsonMap::new();
        }
        let mut fetch = ReplicaFetch::new(shared, None, true, storage, store, "/cache".to_owned());
        fetch.resume(FetchReply::Absent);
        while fetch.step() != FetchStep::Failed && fetch.step() != FetchStep::OpenKey {
            fetch.resume(FetchReply::Done);
        }
        fetch.error().map(|e| e.message)
    };
    assert_eq!(begin(false, true, true), Some("shared replica requires S3".to_owned()));
    assert_eq!(begin(true, false, true), Some("shared replica read requires the fenced cluster store".to_owned()));
    assert_eq!(begin(true, true, false), Some("shared replica requires encryption_key_id".to_owned()));
    assert_eq!(begin(true, true, true), None);
    let rootless = ReplicaFetch::new(replica("/"), None, true, true, true, "/cache".to_owned());
    assert_eq!(rootless.step(), FetchStep::Failed);
    assert_eq!(rootless.error().unwrap().message, "replica snapshot path has no valid final component");
}

#[test]
fn replica_records_follow_their_objects() {
    let shared = replica("/remote/checkpoint");
    let local = replica("/local/checkpoint");
    assert!(secrets_ready(true, Some(&shared), None, false));
    assert!(!secrets_ready(true, None, Some(&local), true));
    assert!(secrets_ready(false, None, None, true));
    assert!(!is_stale_replica(&local, &vec![replica("/x")], false));
    assert!(is_stale_replica(&local, &Vec::new(), false));
    assert!(!is_stale_replica(&local, &Vec::new(), true));
    let kept = LocalReplica { sid: "box".to_owned(), object_key: "key".to_owned(), in_use: false };
    assert!(!drops_local_replica(&vec![("box".to_owned(), "key".to_owned())], &kept));
    assert!(drops_local_replica(&vec![("box".to_owned(), "newer".to_owned())], &kept));
    assert_eq!(replica_key_id(&shared.params).unwrap(), "k");
    assert_eq!(
        replica_key_id(&JsonMap::new()).unwrap_err().message,
        "production replica storage requires encryption_key_id"
    );
    assert_eq!(
        portable_key_id(&map(vec![("encryption_key_id", text("default"))])).unwrap_err().message,
        "portable replica requires a non-local encryption_key_id"
    );
    let digest = "ab".repeat(32);
    let scope = "cd".repeat(32);
    let key = replica_object_key("t", digest.as_str(), scope.as_str()).unwrap();
    assert_eq!(replica_put_admitted(key.as_str(), "t", digest.as_str(), scope.as_str(), 7).unwrap(), 7);
    assert!(replica_put_admitted("other", "t", digest.as_str(), scope.as_str(), 7).is_err());
    let mut step = put_begins(true);
    let mut steps = Vec::new();
    while step != PutStep::Finished && step != PutStep::Failed {
        steps.push(step);
        step = put_continues(step, true);
    }
    assert_eq!(
        steps,
        vec![PutStep::AcquirePublication, PutStep::Publish, PutStep::CommitPublication, PutStep::PutLocal]
    );
    assert_eq!(put_continues(PutStep::Publish, false), PutStep::Failed);
}

#[test]
fn markers_and_tokens_are_matched_exactly() {
    let suspended = "suspended".to_owned();
    assert!(has_suspended_marker(Some(&suspended)));
    assert!(!has_suspended_marker(None));
    let view = map(vec![("status", text("suspended")), ("_mesh_suspended_projection", Json::Bool(true))]);
    assert!(passive_suspend_marker(Some(&suspended), &view));
    assert!(!passive_suspend_marker(Some(&suspended), &JsonMap::new()));
    let intent = map(vec![("_mesh_migration_token", text("token"))]);
    assert!(claim_token_matches(&intent, "token").is_ok());
    assert_eq!(
        claim_token_matches(&intent, "other").unwrap_err().message,
        "migration token does not match target intent"
    );
}

#[test]
fn templates_are_found_at_healthy_peers() {
    let mut templates: TextMap<String> = TextMap::new();
    templates.insert("base".to_owned(), "digest".to_owned());
    let peers = vec![
        TemplatePeer { healthy: false, advertise: "http://a".to_owned(), templates },
        TemplatePeer {
            healthy: true,
            advertise: "http://b".to_owned(),
            templates: {
                let mut t: TextMap<String> = TextMap::new();
                t.insert("base".to_owned(), "digest".to_owned());
                t
            },
        },
    ];
    assert_eq!(find_template_provider(&peers, "base"), Some(("http://b".to_owned(), "digest".to_owned())));
    assert_eq!(find_template_provider(&peers, "other"), None);
    let mut params = map(vec![("volume_leases", Json::Null), ("image", text("x"))]);
    drop_archived_leases(&mut params);
    assert!(params.contains_key("image"));
}

#[test]
fn a_node_tells_what_it_owns_and_offers() {
    let mut node = owning(3, 100);
    assert!(node.worker_begin("w"));
    let view = |id: &str| object(vec![("id", text(id)), ("status", text("running")), ("cpus", Json::Int(1))]);
    let pools = object(vec![("tpl", object(vec![("ready", Json::Int(2))]))]);
    let digests = vec![("d2".to_owned(), "b".to_owned()), ("d1".to_owned(), "a".to_owned())];
    let state = local_state(&node, &vec![view("box"), view("new")], &pools, &digests);
    assert_eq!(state.owned, vec!["box".to_owned(), "new".to_owned()]);
    assert_eq!(state.owned_epochs.get("box"), Some(&3));
    assert_eq!(state.owned_epochs.get("new"), Some(&0));
    assert_eq!(state.committed_vcpus, 2);
    assert_eq!(state.templates, vec!["d1".to_owned(), "d2".to_owned(), "tpl".to_owned()]);
    assert_eq!(state.template_index.get("d1"), Some(&"a".to_owned()));
    assert_eq!(state.pools.get("tpl"), Some(&2));
    assert_eq!(state.inflight, 1);
    assert!(has_local_template_key(&state, "d2"));
    assert!(!has_local_template_key(&state, "d3"));
}

#[test]
fn heartbeats_are_taken_up_in_order() {
    let report = |id: &str, at: &str| PeerReport {
        id: id.to_owned(),
        peer: Peer { advertise: at.to_owned(), last_seen: 5 },
    };
    let mut peers: TextMap<Peer> = TextMap::new();
    let known = vec![Some(report("a", "http://a")), None, Some(report("c", "http://c1")), Some(report("c", "http://c2"))];
    merge_heartbeat(&mut peers, "a", Ok(report("b", "http://b")), known, 9).unwrap();
    assert!(!peers.contains_key("a"));
    assert_eq!(peers.get("b").unwrap().advertise, "http://b");
    assert_eq!(peers.get("c").unwrap().advertise, "http://c2");
    let refused = merge_heartbeat(&mut peers, "a", Err(MeshError::invalid("bad state")), Vec::new(), 9);
    assert_eq!(refused.unwrap_err().message, "bad state");
}

#[test]
fn membership_documents_name_their_fields() {
    let facts = MembershipFacts {
        enabled: true,
        node_id: "a".to_owned(),
        advertise: "http://a".to_owned(),
        region: "r".to_owned(),
        expected_members: 3,
        quorum: 2,
    };
    assert_eq!(
        Json::Object(membership_status(&facts, Json::Null, vec![Json::Bool(true)])).render(),
        r#"{"advertise":"http://a","enabled":true,"expected_members":3,"node_id":"a","peers":[true],"quorum":2,"region":"r","self":null}"#
    );
    assert_eq!(
        Json::Object(join_answer("a", "http://a", "http://b")).render(),
        r#"{"advertise":"http://a","node_id":"a","ok":true,"peers":["http://b"]}"#
    );
    assert_eq!(seed_id("x"), "seed-x");
    assert_eq!(joined_token("", "given"), "given");
    assert_eq!(joined_token("own", "given"), "own");
    assert!(setup_keeps_membership(true, "http://a", "http://a"));
    assert!(!setup_keeps_membership(false, "http://a", "http://a"));
    let claim = migration_claim(&map(vec![
        ("_mesh_migration_source_url", text("http://s")),
        ("_mesh_migration_source_owner", text("s")),
        ("_mesh_migration_source_epoch", Json::Int(6)),
        ("_mesh_migration_id", text("m")),
    ]))
    .ok()
    .unwrap();
    assert_eq!(
        Json::Object(write_claim("box", "t", 7, &claim)).render(),
        r#"{"migration_id":"m","sid":"box","source_epoch":6,"source_owner":"s","target_epoch":7,"target_owner":"t"}"#
    );
}

#[test]
fn a_committed_migration_is_let_go_in_order() {
    let mut step = ReleaseStep::ReleaseLeases;
    let mut steps = Vec::new();
    while step != ReleaseStep::Finished {
        steps.push(step);
        step = release_committed(step, true);
    }
    assert_eq!(
        steps,
        vec![
            ReleaseStep::ReleaseLeases,
            ReleaseStep::RemoveArtifacts { leases: true },
            ReleaseStep::RemoveJournal,
            ReleaseStep::ForgetOwner,
        ]
    );
    let kept = release_committed(ReleaseStep::ReleaseLeases, false);
    assert_eq!(kept, ReleaseStep::RemoveArtifacts { leases: false });
    assert_eq!(release_committed(kept, true), ReleaseStep::Pending);
}

#[test]
fn a_recovery_is_complete_only_where_it_still_owns() {
    let mut node = MeshRuntime::new("a".to_owned(), false, &Vec::new());
    let error = node.finalize_restore_epoch("box", "a", 4, false, Some(100), 0).unwrap_err();
    assert_eq!(error.message, "restore ownership fenced for sandbox box");
    node.finalize_restore_epoch("box", "a", 4, true, Some(100), 0).unwrap();
    assert_eq!(node.current_owner("box"), Some(("a".to_owned(), 4)));
}

#[test]
fn a_watchdog_ends_before_its_lease() {
    assert_eq!(rearm_owner_watchdog("box", 0, Some(30 * SEC), true, 0).unwrap(), Some(25));
    assert_eq!(rearm_owner_watchdog("box", 0, Some(30 * SEC), false, 0).unwrap(), None);
    assert_eq!(
        rearm_owner_watchdog("box", 0, Some(30 * SEC), true, (25 * SEC) as u128).unwrap_err().message,
        "owner lease watchdog deadline elapsed for sandbox box"
    );
    assert_eq!(
        rearm_owner_watchdog("box", 0, None, true, 0).unwrap_err().message,
        "owner lease for sandbox box expired"
    );
    assert_eq!(renew_and_arm_serving_owner("box", 0, false, 30 * SEC, None, false).unwrap(), (25 * SEC) as u128);
    assert_eq!(
        renew_and_arm_serving_owner("box", 0, true, 30 * SEC, Some(Some(10 * SEC)), true).unwrap(),
        (5 * SEC) as u128
    );
    assert_eq!(
        renew_and_arm_serving_owner("box", 0, true, 30 * SEC, None, true).unwrap_err().message,
        "restore ownership fenced for sandbox box"
    );
    assert_eq!(
        renew_and_arm_serving_owner("box", 0, true, 30 * SEC, Some(Some(10 * SEC)), false).unwrap_err().message,
        "owner watchdog unavailable for sandbox box"
    );
    assert_eq!(claimed_lease(false, 0, SEC, 30 * SEC, None, false), Some((26 * SEC) as u128));
    assert_eq!(claimed_lease(true, 0, SEC, 30 * SEC, Some(30 * SEC), true), Some((25 * SEC) as u128));
    assert_eq!(claimed_lease(true, 0, SEC, 30 * SEC, Some(30 * SEC), false), None);
}

#[test]
fn recoveries_check_the_record_that_they_rest_on() {
    let mut staged = serving_record("box", "a", 3);
    staged.params = map(vec![("_mesh_restore_pending", object(vec![]))]);
    let plain = serving_record("box", "a", 3);
    assert!(is_nonserving_lifecycle(true, false, None));
    assert!(is_nonserving_lifecycle(false, false, Some(&staged)));
    assert!(!is_nonserving_lifecycle(false, false, Some(&plain)));
    assert!(local_candidate_missing("a", Some(&plain), false, false, false));
    assert!(!local_candidate_missing("a", Some(&plain), false, false, true));
    assert!(!local_candidate_missing("a", None, false, false, false));
    assert!(fenced_locally("a", false, false, None));
    assert!(fenced_locally("a", true, false, Some(&"b".to_owned())));
    assert!(!fenced_locally("a", true, false, Some(&"a".to_owned())));
    assert_eq!(next_claim_epoch(Some(4)), 5);
    assert_eq!(next_claim_epoch(Some(-4)), 1);
    assert_eq!(next_claim_epoch(None), 1);
    assert!(observed_claim(Some(&plain), "box", &Owner::new("a", 3)).is_ok());
    assert!(observed_claim(Some(&plain), "box", &Owner::new("a", 2)).is_err());
    assert!(observed_claim(None, "box", &Owner::new("a", 3)).is_err());
    assert!(restore_stays_pending(Some(&staged), "a", 3));
    assert!(!restore_stays_pending(Some(&plain), "a", 3));
    assert!(restore_commit_applied(Some(&plain), "a", 3));
    assert!(!restore_commit_applied(Some(&staged), "a", 3));
    let params = map(vec![("image", text("x")), ("_mesh_restore_pending", Json::Null)]);
    let written =
        recommitted_record(Some(staged), "box", "a", 3, params, "off".to_owned(), "never".to_owned()).ok().unwrap();
    assert!(written.params.contains_key("image"));
    assert!(!written.params.contains_key("_mesh_restore_pending"));
    assert_eq!(written.restart_policy, "never");
    assert_eq!(delete_commit(None, "box", "a", 3).unwrap(), false);
    assert_eq!(delete_commit(Some(&plain), "box", "a", 3).unwrap(), true);
    assert_eq!(
        delete_commit(Some(&plain), "box", "b", -1).unwrap_err().message,
        "delete commit for box at b/-1 was fenced by a/3"
    );
}

#[test]
fn a_recovered_sandbox_is_put_into_service() {
    let mut node = MeshRuntime::new("a".to_owned(), false, &Vec::new());
    node.claim_restore_epoch_observed("box", "a", 5);
    assert!(!node.owns_epoch("box", "a", 5));
    node.commit_restore_epoch("box", "a", 5, 100);
    assert!(node.owns_epoch("box", "a", 5));
    assert_eq!(node.restoring_epoch("box"), None);
    assert!(node.renewable("a", 5));
    assert!(!node.renewable("b", 5));
    assert!(!node.renewable("a", u64::MAX));
    assert!(!node.settle_local_lease("box", 0, LeaseReply::Granted(30 * SEC), true, 0));
    assert!(node.settle_local_lease("box", 0, LeaseReply::Denied, true, 0));
    assert!(!node.settle_local_lease("box", 0, LeaseReply::Unreachable, true, 0));
    assert!(node.local_owner_epoch("box", true).unwrap().is("a", 5));
    assert!(node.local_owner_epoch("box", false).is_none());
    assert_eq!(node.drain_orphans(), vec![("box".to_owned(), "a".to_owned())]);
    node.claim_restore_epoch_observed("box", "a", 6);
    node.abort_restore("box", "a", 6).unwrap();
    assert_eq!(node.abort_restore("box", "a", -1).unwrap_err().message, "negative restore epoch");
}

#[test]
fn startup_keeps_what_migrations_staged() {
    let staged = startup("box", "a", 1, map(vec![("_mesh_migration_delta_dir", text("/delta"))]));
    let foreign = startup("far", "b", 1, map(vec![("_mesh_migration_delta_dir", text("/other"))]));
    assert_eq!(migration_preserve_paths("a", &vec![staged, foreign]), vec!["/delta".to_owned()]);
    assert!(needs_placeholder(false, "suspended"));
    assert!(!needs_placeholder(true, "suspended"));
    assert!(!needs_placeholder(false, "resuming"));
}

#[test]
fn records_and_errors_convert() {
    let view = object(vec![("name", text("box")), ("image", text("x"))]);
    assert_eq!(sandbox_record(&view).ok().unwrap().name, "box");
    assert_eq!(
        sandbox_record(&Json::Null).err().unwrap().message,
        "sandbox view must be an object"
    );
    assert!(params_object(&view).is_ok());
    assert_eq!(params_object(&Json::Null).err().unwrap().message, "record params must be an object");
    assert_eq!(value_object(Json::Null).err().unwrap().message, "expected JSON object");
    let busy = mesh_to_engine(MeshError::with_code("later".to_owned(), "conflict"));
    assert_eq!((busy.code, busy.message.as_str()), (ErrorCode::Busy, "later"));
    let mut tenants: TextMap<String> = TextMap::new();
    tenants.insert("t".to_owned(), "key-t".to_owned());
    let configured = "key-c".to_owned();
    let kept = |ha: &str, key: &str, tenant: &str| {
        let params =
            map(vec![("ha", text(ha)), ("encryption_key_id", text(key)), ("owner_tenant", text(tenant))]);
        legacy_portable_key(&params, &tenants, Some(&configured))
    };
    assert_eq!(kept("off", "default", "t"), None);
    assert_eq!(kept("mesh", "own", "t"), None);
    assert_eq!(kept("mesh", "default", "t"), Some("key-t".to_owned()));
    assert_eq!(kept("mesh", "default", "u"), Some("key-c".to_owned()));
}
