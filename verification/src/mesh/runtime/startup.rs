//! What a node makes of the durable ownership records when it starts.
use super::{idle_node, owner_watchdog_deadline, watchdog_deadline, MeshRuntime, RuntimeView};
use crate::json::{members_at, text_at, text_or, JsonMap, ObjectView};
use crate::mesh::params::{i64_to_u64, is_staging, record_is_staging, unsigned};
use crate::mesh::sets::{Owner, OwnerView};
use crate::text::{text_eq, texts};
use vstd::prelude::*;

verus! {

/// A durable ownership record and what was found around it.
///
/// `rollback` and `suspend` are the markers kept beside the record, `suspend`
/// with its state. `running` says whether a local candidate runs. Where the
/// record calls for it ([`StartupClass::Renew`]), `renewal` is what the renewal
/// sent at `started` left of the lease: nothing where the lease is gone or its
/// remaining time is no positive number. `now` is the time once the record was
/// looked into.
pub struct StartupRecord {
    pub sid: String,
    pub owner: String,
    pub epoch: i64,
    pub params: JsonMap,
    pub rollback: bool,
    pub suspend: Option<String>,
    pub running: bool,
    pub renewal: Option<u64>,
    pub started: u64,
    pub now: u64,
}

/// How a node takes a record up.
#[derive(Clone, Copy, Debug, PartialEq, Eq, Structural)]
pub enum StartupClass {
    /// Rollback replay owns the exact generation; it neither renews nor serves.
    Rollback,
    /// A suspended sandbox serves only after an explicit resume.
    Suspended,
    /// A restore, rollback or migration was staged and not committed.
    Staging,
    /// A local candidate runs: it serves if its lease can be renewed.
    Renew,
    /// The node owns a sandbox that does not run here any more.
    Lost,
    /// The record is served, here or elsewhere.
    Serving,
}

/// How the node `node` takes `record` up; `clustered` says whether ownership
/// is kept in a shared store.
pub open spec fn class_of(node: Seq<char>, clustered: bool, record: StartupRecord) -> StartupClass {
    if record.rollback {
        StartupClass::Rollback
    } else if record.suspend is Some {
        StartupClass::Suspended
    } else if is_staging(record.params@) {
        StartupClass::Staging
    } else if record.owner@ == node && record.running {
        StartupClass::Renew
    } else if record.owner@ == node && clustered {
        StartupClass::Lost
    } else {
        StartupClass::Serving
    }
}

pub fn startup_class(node: &str, clustered: bool, record: &StartupRecord) -> (r: StartupClass)
    ensures
        r == class_of(node@, clustered, *record),
{
    if record.rollback {
        return StartupClass::Rollback;
    }
    if record.suspend.is_some() {
        return StartupClass::Suspended;
    }
    if record_is_staging(&record.params) {
        return StartupClass::Staging;
    }
    let local = text_eq(record.owner.as_str(), node);
    if local && record.running {
        StartupClass::Renew
    } else if local && clustered {
        StartupClass::Lost
    } else {
        StartupClass::Serving
    }
}

/// Whether a suspended sandbox needs a passive stand-in so that it can be
/// resumed here.
pub fn needs_placeholder(has_sandbox: bool, marker_state: &str) -> (r: bool)
    ensures
        r == (!has_sandbox && marker_state@ == "suspended"@),
{
    !has_sandbox && text_eq(marker_state, "suspended")
}

/// The node that a staged restore takes over from, where one is pending.
pub open spec fn restore_source(node: Seq<char>, owner: Seq<char>, p: ObjectView) -> Option<Seq<char>> {
    match members_at(p, "_mesh_restore_pending"@) {
        Some(pending) => Some(
            if owner == node {
                text_or(pending, "source_owner"@, owner)
            } else {
                owner
            },
        ),
        None => None,
    }
}

/// The state once a record was taken up.
pub open spec fn taken_up(v: RuntimeView, clustered: bool, record: StartupRecord) -> RuntimeView {
    let sid = record.sid@;
    let claim = OwnerView { node: record.owner@, epoch: unsigned(record.epoch) };
    match class_of(v.node, clustered, record) {
        StartupClass::Rollback | StartupClass::Suspended => RuntimeView {
            restoring: v.restoring.insert(sid, claim),
            ..v
        },
        StartupClass::Staging => RuntimeView {
            restoring: v.restoring.insert(sid, claim),
            orphans: match restore_source(v.node, record.owner@, record.params@) {
                Some(dead) => v.orphans.push((sid, dead)),
                None => v.orphans,
            },
            ..v
        },
        StartupClass::Renew => match watchdog_deadline(record.started, record.renewal) {
            Some(deadline) => RuntimeView {
                owners: v.owners.insert(sid, claim),
                deadlines: v.deadlines.insert(sid, deadline),
                ..v
            },
            None => RuntimeView {
                restoring: v.restoring.insert(sid, claim),
                deadlines: v.deadlines.insert(sid, record.now as u128),
                ..v
            },
        },
        StartupClass::Lost => RuntimeView {
            restoring: v.restoring.insert(sid, claim),
            deadlines: v.deadlines.insert(sid, record.now as u128),
            orphans: v.orphans.push((sid, record.owner@)),
            ..v
        },
        StartupClass::Serving => RuntimeView { owners: v.owners.insert(sid, claim), ..v },
    }
}

/// The state of a node that has taken up `records`, one after the other.
pub open spec fn started(node: Seq<char>, clustered: bool, records: Seq<StartupRecord>) -> RuntimeView
    decreases records.len(),
{
    if records.len() == 0 {
        idle_node(node)
    } else {
        taken_up(started(node, clustered, records.drop_last()), clustered, records.last())
    }
}

impl MeshRuntime {
    fn take_up(&mut self, clustered: bool, record: &StartupRecord)
        ensures
            final(self)@ == taken_up(old(self)@, clustered, *record),
    {
        let epoch = i64_to_u64(record.epoch);
        let sid = record.sid.as_str();
        let owner = record.owner.as_str();
        let claim = Owner::new(owner, epoch);
        match startup_class(self.node_id.as_str(), clustered, record) {
            StartupClass::Rollback => self.restoring.insert(sid.to_owned(), claim),
            StartupClass::Suspended => self.restoring.insert(sid.to_owned(), claim),
            StartupClass::Staging => {
                self.restoring.insert(sid.to_owned(), claim);
                if let Some(value) = record.params.get("_mesh_restore_pending") {
                    if let Some(pending) = value.as_object() {
                        let dead = if text_eq(owner, self.node_id.as_str()) {
                            pending.text_or("source_owner", owner)
                        } else {
                            owner.to_owned()
                        };
                        self.push_orphan(sid, dead.as_str());
                    }
                }
            },
            StartupClass::Renew => match owner_watchdog_deadline(record.started, record.renewal) {
                Some(deadline) => {
                    self.deadlines.insert(sid.to_owned(), deadline);
                    self.owners.insert(sid.to_owned(), claim);
                },
                None => {
                    self.restoring.insert(sid.to_owned(), claim);
                    self.deadlines.insert(sid.to_owned(), record.now as u128);
                },
            },
            StartupClass::Lost => {
                self.restoring.insert(sid.to_owned(), claim);
                self.deadlines.insert(sid.to_owned(), record.now as u128);
                self.push_orphan(sid, owner);
            },
            StartupClass::Serving => self.owners.insert(sid.to_owned(), claim),
        }
    }

    /// The state of the node `node_id` that starts with the durable ownership
    /// records `records`. A local candidate can be renewed only in a cluster.
    pub fn new(node_id: String, clustered: bool, records: &Vec<StartupRecord>) -> (r: MeshRuntime)
        requires
            forall|i: int|
                0 <= i < records@.len() && class_of(node_id@, clustered, #[trigger] records@[i])
                    == StartupClass::Renew ==> clustered,
        ensures
            r@ == started(node_id@, clustered, records@),
    {
        let ghost node = node_id@;
        let mut state = MeshRuntime::empty(node_id);
        let mut i: usize = 0;
        assert(records@.take(0) =~= Seq::empty());
        while i < records.len()
            invariant
                i <= records@.len(),
                state@ == started(node, clustered, records@.take(i as int)),
            decreases records@.len() - i,
        {
            state.take_up(clustered, &records[i]);
            assert(records@.take(i + 1).drop_last() =~= records@.take(i as int));
            i = i + 1;
        }
        assert(records@.take(i as int) =~= records@);
        state
    }
}

/// The directories of staged migrations into `node`, which must survive the
/// sweep of abandoned ones.
pub open spec fn preserved(node: Seq<char>, records: Seq<StartupRecord>) -> Seq<Seq<char>>
    decreases records.len(),
{
    if records.len() == 0 {
        Seq::empty()
    } else {
        let rest = preserved(node, records.drop_last());
        let last = records.last();
        match text_at(last.params@, "_mesh_migration_delta_dir"@) {
            Some(dir) => if last.owner@ == node {
                rest.push(dir)
            } else {
                rest
            },
            None => rest,
        }
    }
}

pub fn migration_preserve_paths(node: &str, records: &Vec<StartupRecord>) -> (r: Vec<String>)
    ensures
        texts(r@) == preserved(node@, records@),
{
    let mut out: Vec<String> = Vec::new();
    let mut i: usize = 0;
    assert(records@.take(0) =~= Seq::empty());
    assert(texts(out@) =~= Seq::empty());
    while i < records.len()
        invariant
            i <= records@.len(),
            texts(out@) == preserved(node@, records@.take(i as int)),
        decreases records@.len() - i,
    {
        let ghost before = out@;
        assert(records@.take(i + 1).drop_last() =~= records@.take(i as int));
        if text_eq(records[i].owner.as_str(), node) {
            if let Some(dir) = records[i].params.text_at("_mesh_migration_delta_dir") {
                out.push(dir);
                assert(texts(out@) =~= texts(before).push(dir@));
            }
        }
        i = i + 1;
    }
    assert(records@.take(i as int) =~= records@);
    out
}

/// No two records are for the same sandbox.
pub open spec fn one_record_each(records: Seq<StartupRecord>) -> bool {
    forall|i: int, j: int|
        0 <= i < j < records.len() ==> (#[trigger] records[i]).sid@ != (#[trigger] records[j]).sid@
}

proof fn lemma_started(node: Seq<char>, clustered: bool, records: Seq<StartupRecord>)
    requires
        one_record_each(records),
    ensures
        ({
            let v = started(node, clustered, records);
            &&& v.node == node
            &&& v.fences == Map::<Seq<char>, u64>::empty()
            &&& forall|sid: Seq<char>| #[trigger]
                v.owners.contains_key(sid) ==> exists|i: int|
                    0 <= i < records.len() && (#[trigger] records[i]).sid@ == sid
            &&& forall|sid: Seq<char>| #[trigger]
                v.restoring.contains_key(sid) ==> exists|i: int|
                    0 <= i < records.len() && (#[trigger] records[i]).sid@ == sid
            &&& forall|i: int|
                0 <= i < records.len() ==> v.owners.contains_key((#[trigger] records[i]).sid@) == serves(
                    node,
                    clustered,
                    records[i],
                )
            &&& forall|i: int|
                0 <= i < records.len() ==> v.restoring.contains_key((#[trigger] records[i]).sid@) == !serves(
                    node,
                    clustered,
                    records[i],
                )
            &&& forall|i: int|
                0 <= i < records.len() ==> if serves(node, clustered, #[trigger] records[i]) {
                    v.owners[records[i].sid@] == claim_of(records[i])
                } else {
                    v.restoring[records[i].sid@] == claim_of(records[i])
                }
        }),
    decreases records.len(),
{
    if records.len() > 0 {
        let rest = records.drop_last();
        let last = records.last();
        assert forall|i: int, j: int| 0 <= i < j < rest.len() implies (#[trigger] rest[i]).sid@ != (
        #[trigger] rest[j]).sid@ by {
            assert(records[i].sid@ != records[j].sid@);
        }
        lemma_started(node, clustered, rest);
        let w = started(node, clustered, rest);
        let v = started(node, clustered, records);
        assert(forall|i: int| 0 <= i < rest.len() ==> (#[trigger] rest[i]) == records[i] && records[i].sid@ != last.sid@);
        assert forall|sid: Seq<char>| #[trigger] v.owners.contains_key(sid) implies exists|i: int|
            0 <= i < records.len() && (#[trigger] records[i]).sid@ == sid by {
            if w.owners.contains_key(sid) {
                let i = choose|i: int| 0 <= i < rest.len() && (#[trigger] rest[i]).sid@ == sid;
                assert(records[i].sid@ == sid);
            } else {
                assert(records[records.len() - 1].sid@ == sid);
            }
        }
        assert forall|sid: Seq<char>| #[trigger] v.restoring.contains_key(sid) implies exists|i: int|
            0 <= i < records.len() && (#[trigger] records[i]).sid@ == sid by {
            if w.restoring.contains_key(sid) {
                let i = choose|i: int| 0 <= i < rest.len() && (#[trigger] rest[i]).sid@ == sid;
                assert(records[i].sid@ == sid);
            } else {
                assert(records[records.len() - 1].sid@ == sid);
            }
        }
        assert(!w.owners.contains_key(last.sid@) && !w.restoring.contains_key(last.sid@)) by {
            if w.owners.contains_key(last.sid@) {
                let i = choose|i: int| 0 <= i < rest.len() && (#[trigger] rest[i]).sid@ == last.sid@;
                assert(records[i].sid@ != last.sid@);
            }
            if w.restoring.contains_key(last.sid@) {
                let i = choose|i: int| 0 <= i < rest.len() && (#[trigger] rest[i]).sid@ == last.sid@;
                assert(records[i].sid@ != last.sid@);
            }
        }
        assert forall|i: int| 0 <= i < records.len() implies v.owners.contains_key((#[trigger] records[i]).sid@)
            == serves(node, clustered, records[i]) by {
            if i < rest.len() {
                assert(rest[i] == records[i]);
            }
        }
        assert forall|i: int| 0 <= i < records.len() implies v.restoring.contains_key(
            (#[trigger] records[i]).sid@,
        ) == !serves(node, clustered, records[i]) by {
            if i < rest.len() {
                assert(rest[i] == records[i]);
            }
        }
        assert forall|i: int| 0 <= i < records.len() implies if serves(node, clustered, #[trigger] records[i]) {
            v.owners[records[i].sid@] == claim_of(records[i])
        } else {
            v.restoring[records[i].sid@] == claim_of(records[i])
        } by {
            if i < rest.len() {
                assert(rest[i] == records[i]);
                assert(records[i].sid@ != last.sid@);
            }
        }
    }
}

/// The claim that a record makes: its owner, in its generation.
pub open spec fn claim_of(record: StartupRecord) -> OwnerView {
    OwnerView { node: record.owner@, epoch: unsigned(record.epoch) }
}

/// Whether a record serves once its node has started.
pub open spec fn serves(node: Seq<char>, clustered: bool, record: StartupRecord) -> bool {
    match class_of(node, clustered, record) {
        StartupClass::Serving => true,
        StartupClass::Renew => watchdog_deadline(record.started, record.renewal) is Some,
        _ => false,
    }
}

/// After a start each recorded sandbox is known in exactly one way, in exactly the
/// generation of its record: it serves, or it is held back. A sandbox with a marker, with staged work, lost by its
/// node or without a renewed lease is held back.
pub proof fn law_start_serves_or_holds_back(
    node: Seq<char>,
    clustered: bool,
    records: Seq<StartupRecord>,
    i: int,
)
    requires
        one_record_each(records),
        0 <= i < records.len(),
    ensures
        ({
            let v = started(node, clustered, records);
            let r = records[i];
            &&& v.owners.contains_key(r.sid@) != v.restoring.contains_key(r.sid@)
            &&& v.owners.contains_key(r.sid@) ==> v.owners[r.sid@] == claim_of(r)
            &&& v.restoring.contains_key(r.sid@) ==> v.restoring[r.sid@] == claim_of(r)
            &&& v.restoring.contains_key(r.sid@) ==> v.restoring[r.sid@].epoch == unsigned(r.epoch)
            &&& r.rollback || r.suspend is Some || is_staging(r.params@) ==> v.restoring.contains_key(r.sid@)
            &&& clustered && r.owner@ == node && !r.running ==> v.restoring.contains_key(r.sid@)
            &&& r.owner@ == node && r.running && watchdog_deadline(r.started, r.renewal) is None
                ==> v.restoring.contains_key(r.sid@)
        }),
{
    lemma_started(node, clustered, records);
}

/// How a record is taken up at start-up, one by one: a sandbox serves only if nothing
/// is staged, marked or suspended for it, and on its own node only if it runs and its
/// lease was renewed; then until the margin before that lease ends. A sandbox of its
/// own node that does not run any more is left for recovery. Records of other nodes
/// are served there.
pub proof fn law_record_is_taken_up(v: RuntimeView, record: StartupRecord, other: Seq<char>)
    requires
        other != record.sid@,
        !v.owners.contains_key(record.sid@),
        !v.restoring.contains_key(record.sid@),
    ensures
        ({
            let sid = record.sid@;
            let w = taken_up(v, true, record);
            let held = record.rollback || record.suspend is Some || is_staging(record.params@);
            let own = record.owner@ == v.node;
            &&& w.owners.contains_key(sid) <==> !held && (!own || (record.running && record.renewal is Some
                && record.renewal->0 > 0))
            &&& w.restoring.contains_key(sid) <==> !w.owners.contains_key(sid)
            &&& w.owners.contains_key(sid) && own && record.renewal->0 > 5_000_000_000 ==> w.deadlines.contains_key(sid)
                && w.deadlines[sid] == record.started + record.renewal->0 - 5_000_000_000
            &&& !held && own && !record.running ==> w.orphans == v.orphans.push((sid, record.owner@))
            &&& !held && (!own || record.running) ==> w.orphans == v.orphans
            &&& record.rollback || record.suspend is Some ==> w.orphans == v.orphans && w.deadlines == v.deadlines
            &&& w.owners.contains_key(sid) ==> w.owners[sid].node == record.owner@
            &&& w.restoring.contains_key(sid) ==> w.restoring[sid].node == record.owner@
            &&& w.owners.contains_key(other) == v.owners.contains_key(other) && w.owners[other] == v.owners[other]
            &&& w.restoring.contains_key(other) == v.restoring.contains_key(other) && w.restoring[other]
                == v.restoring[other]
            &&& w.fences == v.fences
            &&& w.node == v.node
        }),
{
}

/// The delta directories that are kept are those that records of the node itself name.
pub proof fn law_own_deltas_are_kept(node: Seq<char>, records: Seq<StartupRecord>, last: StartupRecord, dir: Seq<char>)
    ensures
        last.owner@ == node && last.params@.contains_key("_mesh_migration_delta_dir"@) && last.params@[
            "_mesh_migration_delta_dir"@] == crate::json::JsonView::Str(dir) ==> preserved(node, records.push(last))
            == preserved(node, records).push(dir),
        last.owner@ != node || !last.params@.contains_key("_mesh_migration_delta_dir"@) ==> preserved(
            node,
            records.push(last),
        ) == preserved(node, records),
        preserved(node, Seq::empty()).len() == 0,
{
    assert(records.push(last).drop_last() =~= records);
}

} // verus!
