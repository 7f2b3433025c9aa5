//! Moving sandboxes between nodes, step by step.
use vmond::error::MeshError;
use vmond::json::{Json, JsonMap};
use vmond::mesh::materialize::refresh_replica_metadata;
use vmond::mesh::migration::{converges_here, StepReply, TargetMigration, TargetStep};
use vmond::mesh::params::source_migration_abort_allowed;
use vmond::mesh::publish::{PublishReply, PublishStep, Publication};
use vmond::mesh::records::{CreateRecord, ReplicaRecord};
use vmond::mesh::replicas::replica_object_key;
use vmond::mesh::runtime::MeshRuntime;
use vmond::mesh::takeback::{
    converge_delete_tombstone, journal_file, source_verdict, AbortStep, DeleteStep, JournalFile, MeshEngineAdapter,
    MigrationCleanup, SourceAbort, SourceVerdict,
};

fn text(s: &str) -> Json {
    Json::Str(s.to_owned())
}

fn pending_record(delta_dir: &str) -> CreateRecord {
    let mut params = JsonMap::new();
    params.insert("volume".to_owned(), text("data"));
    params.insert("_mesh_migration_delta_dir".to_owned(), text(delta_dir));
    params.insert("_mesh_migration_id".to_owned(), text("migration-1"));
    CreateRecord {
        sid: "sandbox-1".to_owned(),
        params,
        owner: "target".to_owned(),
        epoch: 7,
        idempotency_key: "exact-token".to_owned(),
        ha: "mesh".to_owned(),
        restart_policy: "always".to_owned(),
        created_at: 0,
    }
}

/// The leases that the target acquires.
fn exact() -> Vec<Json> {
    vec![Json::parse(r#"{"volume":"data","epoch":7,"token":"exact"}"#).unwrap()]
}

fn rendered(leases: &Vec<Json>) -> Vec<String> {
    leases.iter().map(|lease| lease.render()).collect()
}

fn committed(record: &CreateRecord) -> Option<bool> {
    record.params.bool_at("_mesh_migration_committed")
}

/// A target node with one sandbox slot, whose steps can be made to fail.
struct Target {
    present: bool,
    failing: Vec<TargetStep>,
    stored: CreateRecord,
    acquired: Vec<Json>,
    recorded: Vec<Vec<String>>,
    released: Vec<Vec<String>>,
    teardowns: Vec<(String, i64)>,
    events: Vec<&'static str>,
}

impl Target {
    fn new(present: bool, failing: Vec<TargetStep>) -> Target {
        Target {
            present,
            failing,
            stored: pending_record("/delta"),
            acquired: exact(),
            recorded: Vec::new(),
            released: Vec::new(),
            teardowns: Vec::new(),
            events: Vec::new(),
        }
    }

    /// Carries the take-over of `record` to its end.
    fn run(&mut self, record: CreateRecord) -> Result<(), MeshError> {
        let mut migration = TargetMigration::new(record)?;
        loop {
            let step = migration.step();
            if step == TargetStep::Finished {
                return Ok(());
            }
            if step == TargetStep::Failed {
                return Err(migration.error().unwrap());
            }
            let event = match step {
                TargetStep::NotifySource => "confirm_source",
                TargetStep::Adopt => "adopt_paused",
                TargetStep::RecordLeases => "persist_leases",
                TargetStep::Commit => "durable_commit",
                TargetStep::Activate | TargetStep::Reactivate => "activate",
                TargetStep::TearDown => "teardown",
                TargetStep::ReleaseLeases => "release",
                _ => "",
            };
            if event != "" {
                self.events.push(event);
            }
            if step == TargetStep::Adopt {
                self.present = true;
            }
            if step == TargetStep::TearDown {
                self.present = false;
                self.teardowns.push((migration.record().sid.clone(), migration.record().epoch));
            }
            if step == TargetStep::ReleaseLeases {
                self.released.push(rendered(migration.leases()));
            }
            let failing = self.failing.contains(&step)
                || (step == TargetStep::Reactivate && self.failing.contains(&TargetStep::Activate));
            let reply = if failing {
                let lease = step == TargetStep::RecordLeases;
                let message = if lease { "persisting leases failed" } else { "step failed" };
                StepReply::Error(MeshError::invalid(message))
            } else {
                match step {
                    TargetStep::AskPresent | TargetStep::AskAdopted => {
                        if self.present {
                            StepReply::Yes
                        } else {
                            StepReply::No
                        }
                    }
                    TargetStep::CheckDelta => StepReply::Yes,
                    TargetStep::Commit => {
                        self.stored = migration.record().copy();
                        StepReply::Record(migration.record().copy())
                    }
                    TargetStep::AcquireLeases => StepReply::Leases(self.acquired.clone()),
                    TargetStep::RecordLeases => {
                        self.recorded.push(rendered(migration.leases()));
                        StepReply::Done
                    }
                    TargetStep::LookUpBase
                    | TargetStep::PullBase
                    | TargetStep::PullDelta
                    | TargetStep::StageDelta
                    | TargetStep::SaveDelta => panic!("no checkpoint is fetched here"),
                    _ => StepReply::Done,
                }
            };
            migration.resume(reply);
        }
    }
}

#[test]
fn shared_target_guard_fences_replay_until_the_receive_finishes() {
    let mut runtime = MeshRuntime::new("target".to_owned(), false, &Vec::new());
    runtime.try_begin_target_migration("sandbox-1").unwrap();
    assert!(runtime.try_begin_target_migration("sandbox-1").is_err());
    runtime.end_target_migration("sandbox-1");
    assert!(runtime.try_begin_target_migration("sandbox-1").is_ok());
}

#[test]
fn releases_exact_acquired_lease_when_target_adoption_fails() {
    let mut target = Target::new(false, vec![TargetStep::Adopt]);
    assert!(target.run(pending_record("/delta")).is_err());
    assert_eq!(target.released, vec![rendered(&exact())]);
    assert_eq!(target.events, vec!["confirm_source", "adopt_paused", "teardown", "release"]);
    assert_eq!(target.teardowns, vec![("sandbox-1".to_owned(), 7)]);
    assert_eq!(committed(&target.stored), None);
}

#[test]
fn pending_exact_token_with_running_vm_commits_without_second_adopt() {
    let mut target = Target::new(true, Vec::new());
    target.run(pending_record("/delta")).unwrap();
    assert!(!target.events.contains(&"adopt_paused"));
    assert_eq!(target.recorded, vec![rendered(&exact())]);
    assert_eq!(committed(&target.stored), Some(true));
}

#[test]
fn migration_target_activates_only_after_leases_and_durable_commit() {
    let mut target = Target::new(false, Vec::new());
    target.run(pending_record("/delta")).unwrap();
    assert_eq!(
        target.events,
        vec!["confirm_source", "adopt_paused", "persist_leases", "durable_commit", "activate"]
    );
}

#[test]
fn source_confirmation_failure_keeps_target_inactive() {
    let mut target = Target::new(false, vec![TargetStep::NotifySource]);
    assert!(target.run(pending_record("/delta")).is_err());
    assert_eq!(target.events, vec!["confirm_source"]);
}

#[test]
fn migration_target_commit_failure_never_activates_and_releases_paused_candidate() {
    let mut target = Target::new(false, vec![TargetStep::Commit]);
    assert!(target.run(pending_record("/delta")).is_err());
    assert_eq!(target.released, vec![rendered(&exact())]);
    assert_eq!(
        target.events,
        vec!["confirm_source", "adopt_paused", "persist_leases", "durable_commit", "teardown", "release"]
    );
}

#[test]
fn committed_migration_retries_activation_without_rolling_back_ownership() {
    let mut target = Target::new(false, vec![TargetStep::Activate]);
    assert!(target.run(pending_record("/delta")).is_err());
    assert_eq!(committed(&target.stored), Some(true));
    assert!(target.teardowns.is_empty());
    assert!(target.released.is_empty());

    target.failing.clear();
    let stored = target.stored.copy();
    target.run(stored).unwrap();
    assert_eq!(
        target.events,
        vec![
            "confirm_source",
            "adopt_paused",
            "persist_leases",
            "durable_commit",
            "activate",
            "confirm_source",
            "activate"
        ]
    );
}

#[test]
fn target_migration_persists_intent_then_exact_commit_marker_before_ack() {
    let mut target = Target::new(false, Vec::new());
    assert_eq!(committed(&target.stored), None);
    target.run(pending_record("/delta")).unwrap();
    assert_eq!(target.stored.owner, "target");
    assert_eq!(target.stored.epoch, 7);
    assert_eq!(target.stored.idempotency_key, "exact-token");
    assert_eq!(committed(&target.stored), Some(true));
}

#[test]
fn marker_cas_failure_tears_target_down_before_releasing_leases_without_false_commit() {
    let mut target = Target::new(true, vec![TargetStep::Commit]);
    assert!(target.run(pending_record("/delta")).is_err());
    assert_eq!(target.teardowns, vec![("sandbox-1".to_owned(), 7)]);
    assert_eq!(target.released, vec![rendered(&exact())]);
    assert_eq!(
        target.events,
        vec!["confirm_source", "persist_leases", "durable_commit", "teardown", "release"]
    );
    assert_eq!(committed(&target.stored), None);
}

#[test]
fn failed_target_lease_persistence_tears_down_and_releases_without_committing() {
    let mut target = Target::new(true, vec![TargetStep::RecordLeases]);
    let error = target.run(pending_record("/delta")).unwrap_err();
    assert_eq!(error.message, "persisting leases failed");
    assert!(target.recorded.is_empty());
    assert_eq!(target.released, vec![rendered(&exact())]);
    assert_eq!(target.teardowns, vec![("sandbox-1".to_owned(), 7)]);
    assert_eq!(target.events, vec!["confirm_source", "persist_leases", "teardown", "release"]);
    assert_eq!(committed(&target.stored), None);
}

#[test]
fn migration_without_a_token_or_checkpoints_is_refused() {
    let mut record = pending_record("/delta");
    record.params.remove("_mesh_migration_id");
    match TargetMigration::new(record) {
        Err(e) => {
            assert_eq!(e.code, "invalid");
            assert_eq!(e.message, "migration intent has no token");
        }
        Ok(_) => panic!("the intent has no token"),
    }
    let gaps = vec![
        (Vec::new(), "migration intent has no source URL"),
        (vec!["_mesh_migration_source_url"], "migration intent has no delta digest"),
        (vec!["_mesh_migration_source_url", "_mesh_migration_delta_digest"], "migration intent has no base digest"),
    ];
    for (keys, message) in gaps {
        let mut record = pending_record("/delta");
        record.params.remove("_mesh_migration_delta_dir");
        for key in keys {
            record.params.insert(key.to_owned(), text("x"));
        }
        let mut migration = TargetMigration::new(record).unwrap();
        migration.resume(StepReply::Done);
        migration.resume(StepReply::Done);
        assert_eq!(migration.step(), TargetStep::Failed);
        assert_eq!(migration.error().unwrap().message, message);
    }
}

#[test]
fn fetched_checkpoints_are_staged_before_leases() {
    let mut record = pending_record("/delta");
    record.params.remove("_mesh_migration_delta_dir");
    for key in ["_mesh_migration_source_url", "_mesh_migration_delta_digest", "_mesh_migration_base_digest"] {
        record.params.insert(key.to_owned(), text("x"));
    }
    let mut migration = TargetMigration::new(record).unwrap();
    migration.resume(StepReply::Done);
    migration.resume(StepReply::Done);
    assert_eq!(migration.step(), TargetStep::LookUpBase);
    migration.resume(StepReply::No);
    assert_eq!(migration.step(), TargetStep::PullBase);
    migration.resume(StepReply::Path("/base".to_owned()));
    assert_eq!(migration.step(), TargetStep::PullDelta);
    migration.resume(StepReply::Path("/pulled".to_owned()));
    assert_eq!(migration.step(), TargetStep::StageDelta);
    assert_eq!(migration.base_dir(), "/base");
    assert_eq!(migration.installed(), "/pulled");
    migration.resume(StepReply::Path("/staged".to_owned()));
    assert_eq!(migration.step(), TargetStep::SaveDelta);
    assert_eq!(migration.delta_dir(), "/staged");
    assert_eq!(migration.record().params.text_at("_mesh_migration_delta_dir"), Some("/staged".to_owned()));
    let stored = migration.record().copy();
    migration.resume(StepReply::Record(stored));
    assert_eq!(migration.step(), TargetStep::AcquireLeases);
}

#[test]
fn pending_migration_converges_on_its_owner_only() {
    let record = pending_record("/delta");
    assert!(converges_here(&record, "target"));
    assert!(!converges_here(&record, "source"));
    let mut plain = pending_record("/delta");
    plain.params.remove("_mesh_migration_id");
    assert!(!converges_here(&plain, "target"));
}

#[test]
fn failed_final_replica_verification_rolls_back_copied_object() {
    let digest = "ab".repeat(32);
    let key = replica_object_key("tenant", digest.as_str(), "cd".repeat(32).as_str()).unwrap();
    let mut publication = Publication::new(key.as_str(), digest.as_str(), "nonce", true);
    let mut copied = false;
    let mut rolled_back = false;
    loop {
        let step = publication.step();
        if step == PublishStep::Finished || step == PublishStep::Failed {
            break;
        }
        let reply = match step {
            PublishStep::HeadFinal => PublishReply::Missing,
            PublishStep::HeadStaging | PublishStep::HeadPublished => PublishReply::Size(8),
            PublishStep::Copy => {
                copied = true;
                PublishReply::Done
            }
            PublishStep::VerifyPublished => {
                assert!(copied);
                PublishReply::Error(vmond::error::EngineError::invalid("final digest mismatch".to_owned()))
            }
            PublishStep::RemoveFinal => {
                rolled_back = true;
                PublishReply::Done
            }
            _ => PublishReply::Done,
        };
        publication.resume(reply);
    }
    assert_eq!(publication.step(), PublishStep::Failed);
    assert_eq!(publication.error().unwrap().message, "final digest mismatch");
    assert!(rolled_back);
}

#[test]
fn verified_replica_bytes_reuse_new_authoritative_metadata_without_stale_secrets() {
    let secrets = |value: &str| {
        let mut held = JsonMap::new();
        held.insert("token".to_owned(), text(value));
        Json::Object(held)
    };
    let authoritative = || {
        let mut params = JsonMap::new();
        params.insert("lineage".to_owned(), text("new"));
        params.insert("secrets".to_owned(), secrets("authoritative-secret"));
        params
    };
    let shared = || ReplicaRecord {
        sid: "sandbox-1".to_owned(),
        digest: "digest-1".to_owned(),
        object_key: String::new(),
        source_node: "source-b".to_owned(),
        source_epoch: 12,
        checkpoint_generation: 34,
        snapshot_dir: "/authoritative/checkpoint".to_owned(),
        params: authoritative(),
        needs_secrets: true,
    };
    let mut current = JsonMap::new();
    current.insert("secrets".to_owned(), secrets("resolved-secret"));

    let refreshed = refresh_replica_metadata(shared(), Some("/cache/verified-checkpoint"), Some(&current));
    assert_eq!(refreshed.snapshot_dir, "/cache/verified-checkpoint");
    assert_eq!(refreshed.source_node, "source-b");
    assert_eq!(refreshed.source_epoch, 12);
    assert_eq!(refreshed.checkpoint_generation, 34);
    let mut expected = authoritative();
    expected.insert("secrets".to_owned(), secrets("resolved-secret"));
    assert!(vmond::json::json_eq(&Json::Object(refreshed.params), &Json::Object(expected)));

    let unresolved = refresh_replica_metadata(shared(), Some("/cache/verified-checkpoint"), None);
    assert_eq!(unresolved.snapshot_dir, "/cache/verified-checkpoint");
    assert!(!vmond::json::json_eq(unresolved.params.get("secrets").unwrap(), &secrets("resolved-secret")));
    assert!(vmond::json::json_eq(&Json::Object(unresolved.params), &Json::Object(authoritative())));
}

#[test]
fn deleting_tombstone_replays_fail_closed_then_commits_after_ordered_retry() {
    let mut events: Vec<&str> = Vec::new();
    let mut pass = |teardown_fails: bool| {
        let mut step = DeleteStep::Fence;
        loop {
            let ok = match step {
                DeleteStep::Fence => {
                    events.push("fence");
                    true
                }
                DeleteStep::TearDown => {
                    events.push("teardown");
                    !teardown_fails
                }
                DeleteStep::DeleteHistory => {
                    events.push("history");
                    true
                }
                DeleteStep::Commit => {
                    events.push("commit");
                    true
                }
                DeleteStep::Finished => return true,
                DeleteStep::Pending => return false,
            };
            step = converge_delete_tombstone(step, ok);
        }
    };
    assert!(!pass(true));
    assert!(pass(false));
    assert_eq!(events, vec!["fence", "teardown", "fence", "teardown", "history", "commit"]);
}

fn source_record(epoch: i64) -> CreateRecord {
    let mut params = JsonMap::new();
    params.insert("volume".to_owned(), text("data"));
    CreateRecord {
        sid: "sandbox-1".to_owned(),
        params,
        owner: "source".to_owned(),
        epoch,
        idempotency_key: "exact-token".to_owned(),
        ha: "mesh".to_owned(),
        restart_policy: "always".to_owned(),
        created_at: 0,
    }
}

fn cleanup(phase: &str) -> MigrationCleanup {
    MigrationCleanup {
        sid: "sandbox-1".to_owned(),
        base_dir: "/base".to_owned(),
        base_digest: "base-digest".to_owned(),
        delta_dir: "/delta".to_owned(),
        delta_digest: "delta-digest".to_owned(),
        target_url: "http://target".to_owned(),
        migration_id: "migration-1".to_owned(),
        epoch: 8,
        schema_version: 1,
        source_owner: "source".to_owned(),
        source_epoch: 8,
        target_owner: "target".to_owned(),
        target_epoch: 9,
        token: "exact-token".to_owned(),
        phase: phase.to_owned(),
    }
}

/// A source node whose steps can be made to fail.
struct Source {
    failing: Vec<AbortStep>,
    current_epoch: i64,
    fenced: usize,
    restored: usize,
    completed: usize,
    journal: Vec<MigrationCleanup>,
    removed: usize,
    events: Vec<&'static str>,
}

impl Source {
    fn new(failing: Vec<AbortStep>) -> Source {
        Source {
            failing,
            current_epoch: 8,
            fenced: 0,
            restored: 0,
            completed: 0,
            journal: Vec::new(),
            removed: 0,
            events: Vec::new(),
        }
    }

    /// Carries the abort of `entry` to its end.
    fn run(&mut self, entry: MigrationCleanup) -> Result<CreateRecord, MeshError> {
        let mut abort = SourceAbort::new(entry);
        loop {
            let step = abort.step();
            if step == AbortStep::Finished || step == AbortStep::Failed {
                return abort.outcome();
            }
            let failing = self.failing.contains(&step);
            let reply = match step {
                AbortStep::ReadRecord => StepReply::Record(source_record(self.current_epoch)),
                AbortStep::JournalAbort | AbortStep::JournalRestore | AbortStep::JournalComplete => {
                    self.events.push("journal");
                    if failing {
                        StepReply::Error(MeshError::invalid("journal persist failed"))
                    } else {
                        self.journal.push(abort.journal_entry());
                        StepReply::Done
                    }
                }
                AbortStep::FenceTarget => {
                    self.events.push(if self.fenced == 0 { "cas_abort" } else { "aborted_disposition" });
                    self.fenced += 1;
                    self.current_epoch = 9;
                    StepReply::Record(source_record(9))
                }
                AbortStep::Restore => {
                    self.events.push("abort");
                    self.restored += 1;
                    assert!(abort.restore_params().contains_key("volume"));
                    if failing {
                        StepReply::Error(MeshError::invalid("abort failed"))
                    } else {
                        StepReply::Done
                    }
                }
                AbortStep::Complete => {
                    self.events.push("complete_abort");
                    self.completed += 1;
                    StepReply::Record(source_record(9))
                }
                _ => {
                    self.events.push("cleanup_remove");
                    if failing {
                        StepReply::Error(MeshError::invalid("journal remove failed"))
                    } else {
                        self.removed += 1;
                        StepReply::Done
                    }
                }
            };
            abort.resume(reply);
        }
    }
}

#[test]
fn journalled_entries_are_accepted_in_every_phase() {
    for phase in ["prepared", "abort_pending", "restore_pending", "complete_pending"] {
        assert!(MeshEngineAdapter::validate_cleanup(&cleanup(phase)).is_ok());
    }
    let error = MeshEngineAdapter::validate_cleanup(&cleanup("done")).unwrap_err();
    assert_eq!(error.message, "invalid migration cleanup journal");
    let mut source = Source::new(Vec::new());
    source.run(cleanup("prepared")).unwrap();
    let phases: Vec<&str> = source.journal.iter().map(|entry| entry.phase.as_str()).collect();
    assert_eq!(phases, vec!["abort_pending", "restore_pending", "complete_pending"]);
    for entry in &source.journal {
        assert!(MeshEngineAdapter::validate_cleanup(entry).is_ok());
    }
}

fn texts_of(c: &MigrationCleanup) -> Vec<String> {
    vec![
        format!("{} {} {} {}", c.sid, c.base_dir, c.base_digest, c.delta_dir),
        format!("{} {} {} {}", c.delta_digest, c.target_url, c.migration_id, c.epoch),
        format!("{} {} {} {}", c.schema_version, c.source_owner, c.source_epoch, c.target_owner),
        format!("{} {} {}", c.target_epoch, c.token, c.phase),
    ]
}

#[test]
fn a_journalled_entry_is_the_only_one_of_its_sandbox() {
    let journal = MeshEngineAdapter::new("/journal".to_owned());
    let mut files: Vec<(String, String)> = vec![("notes.txt".to_owned(), "not an entry".to_owned())];
    let other = MigrationCleanup { sid: "sandbox-2".to_owned(), epoch: -3, ..cleanup("prepared") };
    files.push(("sandbox-2.json".to_owned(), journal.migration_cleanup_persist(&other, "u0").unwrap().text));
    for phase in ["prepared", "abort_pending", "restore_pending", "complete_pending"] {
        let entry = MigrationCleanup { token: "exact \"token\" \u{1F600}\n".to_owned(), ..cleanup(phase) };
        let write = journal.migration_cleanup_persist(&entry, "u1").unwrap();
        assert_eq!(write.path, "/journal/sandbox-1.json");
        assert_eq!(write.temporary, "/journal/.sandbox-1.u1.tmp");
        assert_eq!(journal_file(".sandbox-1.u1.tmp"), JournalFile::Temporary);
        assert!(write.text.ends_with("}\n"));
        files.retain(|(name, _)| name != "sandbox-1.json");
        files.push(("sandbox-1.json".to_owned(), write.text));
        let pending = MeshEngineAdapter::migration_cleanup_pending(&files).unwrap();
        let about: Vec<&MigrationCleanup> = pending.iter().filter(|c| c.sid == "sandbox-1").collect();
        assert_eq!((pending.len(), about.len()), (2, 1));
        assert_eq!(texts_of(about[0]), texts_of(&entry));
        assert_eq!(texts_of(&pending[0]), texts_of(&other));
    }
    assert!(journal.migration_cleanup_persist(&cleanup(""), "u2").is_err());
    files.push(("odd.json".to_owned(), "{}".to_owned()));
    let error = MeshEngineAdapter::migration_cleanup_pending(&files).err().unwrap();
    assert_eq!(error.message, "reading migration cleanup record: a member is missing or is not of its kind");
    let list = vec![("odd.json".to_owned(), "[]".to_owned())];
    let error = MeshEngineAdapter::migration_cleanup_pending(&list).err().unwrap();
    assert_eq!(error.message, "reading migration cleanup record: not an object");
    let broken = vec![("odd.json".to_owned(), "{".to_owned())];
    let error = MeshEngineAdapter::migration_cleanup_pending(&broken).err().unwrap();
    assert!(error.message.starts_with("reading migration cleanup record: EOF"));
}

#[test]
fn source_abort_replay_retries_failed_restore_without_second_handoff_cas() {
    let mut source = Source::new(vec![AbortStep::Restore]);
    assert!(source.run(cleanup("")).is_err());
    assert_eq!(source.fenced, 1);
    assert_eq!(source.restored, 1);
    assert_eq!(source.removed, 0);
    let retry = source.journal.pop().unwrap();
    assert_eq!(retry.phase, "restore_pending");

    source.failing.clear();
    let returned = source.run(retry).unwrap();
    assert_eq!(returned.owner, "source");
    assert_eq!(returned.epoch, 9);
    assert_eq!(source.fenced, 2);
    assert_eq!(source.restored, 2);
    assert_eq!(source.removed, 1);
    assert_eq!(
        source.events,
        vec![
            "journal",
            "cas_abort",
            "journal",
            "abort",
            "aborted_disposition",
            "abort",
            "journal",
            "complete_abort",
            "cleanup_remove",
        ]
    );
}

#[test]
fn abort_replay_recovers_after_crash_between_cas_and_restore_journal() {
    let mut source = Source::new(vec![AbortStep::JournalRestore]);
    assert!(source.run(cleanup("abort_pending")).is_err());
    assert_eq!(source.fenced, 1);
    assert_eq!(source.restored, 0);
    assert_eq!(source.removed, 0);

    source.failing.clear();
    let restored = source.run(cleanup("abort_pending")).unwrap();
    assert_eq!(restored.owner, "source");
    assert_eq!(restored.epoch, 9);
    assert_eq!(source.fenced, 2);
    assert_eq!(source.restored, 1);
    assert_eq!(source.removed, 1);
}

#[test]
fn complete_pending_replay_finishes_after_crash_before_journal_removal() {
    let mut source = Source::new(vec![AbortStep::RemoveJournal]);
    assert!(source.run(cleanup("")).is_err());
    assert_eq!(source.restored, 1);
    assert_eq!(source.fenced, 1);
    assert_eq!(source.completed, 1);
    let retry = source.journal.pop().unwrap();
    assert_eq!(retry.phase, "complete_pending");
    assert_eq!(retry.source_epoch, 9);

    source.failing.clear();
    let completed = source.run(retry).unwrap();
    assert_eq!(completed.owner, "source");
    assert_eq!(completed.epoch, 9);
    assert_eq!(source.restored, 1);
    assert_eq!(source.fenced, 1);
    assert_eq!(source.completed, 2);
    assert_eq!(source.removed, 1);
}

fn refused(abort: SourceAbort) -> MeshError {
    match abort.outcome() {
        Err(e) => e,
        Ok(_) => panic!("the abort must stay pending"),
    }
}

#[test]
fn abort_stays_pending_where_the_record_moved_on() {
    let mut gone = SourceAbort::new(cleanup(""));
    gone.resume(StepReply::No);
    let error = refused(gone);
    assert_eq!(error.message, "source migration record disappeared during abort");

    let mut taken = SourceAbort::new(cleanup("abort_pending"));
    taken.resume(StepReply::Record(source_record(8)));
    taken.resume(StepReply::No);
    let error = refused(taken);
    assert_eq!(error.code, "busy");
    assert_eq!(error.message, "target may have consumed migration token");

    let mut stale = SourceAbort::new(cleanup("complete_pending"));
    stale.resume(StepReply::Record(source_record(10)));
    let error = refused(stale);
    assert_eq!(error.code, "busy");
    assert_eq!(error.message, "source migration completion is no longer authoritative");
}

fn status(state: &str, committed: bool) -> JsonMap {
    let mut map = JsonMap::new();
    map.insert("state".to_owned(), text(state));
    map.insert("committed".to_owned(), Json::Bool(committed));
    map
}

#[test]
fn unreachable_or_pending_target_status_never_allows_source_abort_replay() {
    assert!(!source_migration_abort_allowed(None));
    assert!(!source_migration_abort_allowed(Some(&status("pending", false))));
    assert!(!source_migration_abort_allowed(Some(&status("committed", true))));
    assert!(source_migration_abort_allowed(Some(&status("absent", false))));
}

#[test]
fn ambiguous_target_status_makes_the_source_wait() {
    assert_eq!(source_verdict(None), SourceVerdict::Wait);
    assert_eq!(source_verdict(Some(&status("pending", false))), SourceVerdict::Wait);
    assert_eq!(source_verdict(Some(&status("committed", true))), SourceVerdict::Release);
    assert_eq!(source_verdict(Some(&status("absent", false))), SourceVerdict::TakeBack);
}
