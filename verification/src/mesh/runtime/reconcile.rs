//! Recovery of sandboxes whose node is gone, and the small registers that the
//! node keeps for its peers.
use super::handoff::{restores, serving};
use super::renewal::{owner_recorded, LeaseReply};
use super::{fence_blocks_successor, opt_owner, staged, watchdog_deadline, owner_watchdog_deadline, MeshRuntime, RuntimeView};
use crate::error::{failure, EngineError, ErrorCode, ErrorView, MeshError};
use crate::json::JsonMap;
use crate::mesh::params::{
    clear_transition_marks, i64_to_u64, is_staging, record_is_staging, signed, transition_mark, u64_to_i64,
    unsigned,
};
use crate::mesh::records::{opt_record, rewrite_refusal, CreateRecord, RecordView};
use crate::mesh::sets::{Owner, OwnerView};
use crate::decimal::{decimal_int, render_i64};
use crate::text::{cat2, cat3, cat5, text_eq};
use vstd::prelude::*;

verus! {

/// Whether a sandbox is kept out of service by a marker or by staged work.
pub fn is_nonserving_lifecycle(suspended: bool, rolling_back: bool, record: Option<&CreateRecord>) -> (r: bool)
    ensures
        r == (suspended || rolling_back || (record is Some && is_staging(record->0@.params))),
{
    suspended || rolling_back || match record {
        Some(r) => record_is_staging(&r.params),
        None => false,
    }
}

/// Whether the record says that `node` serves a sandbox that does not run there.
pub fn local_candidate_missing(
    node: &str,
    record: Option<&CreateRecord>,
    suspended: bool,
    rolling_back: bool,
    running: bool,
) -> (r: bool)
    ensures
        r == (record is Some && record->0@.owner == node@ && !is_staging(record->0@.params) && !suspended
            && !rolling_back && !running),
{
    match record {
        Some(r) => text_eq(r.owner.as_str(), node) && !record_is_staging(&r.params) && !suspended
            && !rolling_back && !running,
        None => false,
    }
}

/// Whether a sandbox of the local engine has to be fenced: it does not run and
/// nothing explains that, or another node owns it.
pub fn fenced_locally(node: &str, running: bool, nonserving: bool, owner: Option<&String>) -> (r: bool)
    ensures
        r == ((!running && !nonserving) || (owner is Some && owner->0@ != node@)),
{
    (!running && !nonserving) || match owner {
        Some(o) => !text_eq(o.as_str(), node),
        None => false,
    }
}

/// The generation that a local claim takes: one after the known one.
pub fn next_claim_epoch(current: Option<i64>) -> (r: u64)
    ensures
        r == match current {
            Some(e) => unsigned(e) + 1,
            None => 1,
        },
{
    match current {
        Some(e) => {
            let known = i64_to_u64(e);
            known + 1
        },
        None => 1,
    }
}

/// Why a claim on what `previous` owned cannot be made on the local record.
pub open spec fn observed_claim_refusal(
    record: Option<RecordView>,
    sid: Seq<char>,
    previous: OwnerView,
) -> Option<ErrorView> {
    rewrite_refusal(record, sid, previous.node, previous.epoch, "restore ownership fenced for sandbox "@)
}

/// Whether the local record still shows the owner that a claim is based on.
pub fn observed_claim(record: Option<&CreateRecord>, sid: &str, previous: &Owner) -> (r: Result<(), EngineError>)
    ensures
        match r {
            Ok(_) => observed_claim_refusal(
                match record {
                    Some(x) => Some(x@),
                    None => None,
                },
                sid@,
                previous@,
            ) is None,
            Err(e) => observed_claim_refusal(
                match record {
                    Some(x) => Some(x@),
                    None => None,
                },
                sid@,
                previous@,
            ) == Some(e@),
        },
{
    match record {
        None => Err(EngineError::not_found(cat2("no create record for sandbox ", sid))),
        Some(current) => if current.owned_by(previous.node.as_str(), u64_to_i64(previous.epoch)) {
            Ok(())
        } else {
            Err(EngineError::busy(cat2("restore ownership fenced for sandbox ", sid)))
        },
    }
}

/// A failed candidate must not release a claim whose record still holds the
/// pending restore: that record is the journal from which the restore is
/// retried.
pub fn restore_stays_pending(record: Option<&CreateRecord>, owner: &str, epoch: u64) -> (r: bool)
    ensures
        r == (record is Some && record->0@.owner == owner@ && record->0@.epoch == signed(epoch)
            && record->0@.params.contains_key("_mesh_restore_pending"@)),
{
    match record {
        Some(r) => r.owned_by(owner, u64_to_i64(epoch)) && r.params.contains_key("_mesh_restore_pending"),
        None => false,
    }
}

/// Whether the commit of a restore already reached the record.
pub fn restore_commit_applied(record: Option<&CreateRecord>, owner: &str, epoch: u64) -> (r: bool)
    ensures
        r == (record is Some && record->0@.owner == owner@ && record->0@.epoch == signed(epoch) && !is_staging(
            record->0@.params,
        )),
{
    match record {
        Some(r) => r.owned_by(owner, u64_to_i64(epoch)) && !record_is_staging(&r.params),
        None => false,
    }
}

/// The record that a committed restore leaves: the given parameters without the
/// marks of a transition under way.
pub fn recommitted_record(
    record: Option<CreateRecord>,
    sid: &str,
    owner: &str,
    epoch: u64,
    params: JsonMap,
    ha: String,
    restart_policy: String,
) -> (r: Result<CreateRecord, EngineError>)
    ensures
        match r {
            Ok(new) => rewrite_refusal(
                opt_record(record),
                sid@,
                owner@,
                epoch,
                "restore ownership fenced for sandbox "@,
            ) is None && new@ == (RecordView {
                params: params@.restrict(Set::new(|k: Seq<char>| !transition_mark(k))),
                ha: ha@,
                restart_policy: restart_policy@,
                ..opt_record(record)->0
            }),
            Err(e) => rewrite_refusal(
                opt_record(record),
                sid@,
                owner@,
                epoch,
                "restore ownership fenced for sandbox "@,
            ) == Some(e@),
        },
{
    let mut cleared = params;
    clear_transition_marks(&mut cleared);
    crate::mesh::records::restored_record(
        record,
        sid,
        owner,
        epoch,
        (cleared, ha, restart_policy),
        "restore ownership fenced for sandbox ",
    )
}

/// What a commit of a deletion does with the local record: remove it (`true`),
/// or nothing where there is none.
pub open spec fn delete_verdict(
    record: Option<RecordView>,
    sid: Seq<char>,
    owner: Seq<char>,
    epoch: i64,
) -> Result<bool, Seq<char>> {
    match record {
        None => Ok(false),
        Some(r) => if r.owner != owner || r.epoch != epoch {
            Err(
                "delete commit for "@ + sid + " at "@ + owner + "/"@ + (decimal_int(epoch as int)
                    + " was fenced by "@ + r.owner + "/"@ + decimal_int(r.epoch as int)),
            )
        } else {
            Ok(true)
        },
    }
}

pub fn delete_commit(record: Option<&CreateRecord>, sid: &str, owner: &str, epoch: i64) -> (r: Result<
    bool,
    MeshError,
>)
    ensures
        match r {
            Ok(b) => delete_verdict(
                match record {
                    Some(x) => Some(x@),
                    None => None,
                },
                sid@,
                owner@,
                epoch,
            ) == Ok::<bool, Seq<char>>(b),
            Err(e) => e.code@ == "invalid"@ && delete_verdict(
                match record {
                    Some(x) => Some(x@),
                    None => None,
                },
                sid@,
                owner@,
                epoch,
            ) == Err::<bool, Seq<char>>(e.message@),
        },
{
    match record {
        None => Ok(false),
        Some(current) => {
            if current.owned_by(owner, epoch) {
                return Ok(true);
            }
            let mut message = cat5("delete commit for ", sid, " at ", owner, "/");
            let tail = cat5(
                render_i64(epoch).as_str(),
                " was fenced by ",
                current.owner.as_str(),
                "/",
                render_i64(current.epoch).as_str(),
            );
            message.append(tail.as_str());
            Err(MeshError::invalid(message.as_str()))
        },
    }
}

/// Whether a local lease is over once its renewal came back, and the state after that.
pub open spec fn lease_settled(
    v: RuntimeView,
    sid: Seq<char>,
    started: u64,
    reply: LeaseReply,
    armed: bool,
    now: u128,
) -> (bool, RuntimeView) {
    match reply {
        LeaseReply::Granted(ttl) => match watchdog_deadline(started, Some(ttl)) {
            Some(deadline) => if armed {
                (false, RuntimeView { deadlines: v.deadlines.insert(sid, deadline), ..v })
            } else {
                (true, v)
            },
            None => (true, v),
        },
        LeaseReply::Denied => (true, v),
        LeaseReply::Unreachable => (!v.deadlines.contains_key(sid) || v.deadlines[sid] <= now, v),
    }
}

/// The claim under which `sid` is served here, and the state once that was asked: a
/// claim whose sandbox does not run is left for recovery.
pub open spec fn served_here(v: RuntimeView, sid: Seq<char>, running: bool) -> (Option<OwnerView>, RuntimeView) {
    if !v.owners.contains_key(sid) {
        (None, v)
    } else if running {
        (Some(v.owners[sid]), v)
    } else {
        (
            None,
            RuntimeView {
                owners: v.owners.remove(sid),
                deadlines: v.deadlines.remove(sid),
                orphans: v.orphans.push((sid, v.owners[sid].node)),
                ..v
            },
        )
    }
}

/// The state once the generation `claim` was committed: it serves, and what is held back
/// is dropped where it is that generation.
pub open spec fn epoch_committed(v: RuntimeView, sid: Seq<char>, claim: OwnerView, deadline: u128) -> RuntimeView {
    if restores(v, sid, claim) {
        serving(v, sid, claim, deadline)
    } else {
        RuntimeView { owners: v.owners.insert(sid, claim), deadlines: v.deadlines.insert(sid, deadline), ..v }
    }
}

/// The pins once `key` was to be pinned to `owner`: a pin that is there stays.
pub open spec fn pinned(pins: Map<Seq<char>, Seq<char>>, key: Seq<char>, owner: Seq<char>) -> Map<Seq<char>, Seq<char>> {
    if pins.contains_key(key) {
        pins
    } else {
        pins.insert(key, owner)
    }
}

impl MeshRuntime {
    /// Whether a successor of `sid` may be claimed here.
    pub fn claim_admissible(&self, sid: &str) -> (r: Result<(), EngineError>)
        ensures
            match r {
                Ok(_) => !self@.fences.contains_key(sid@),
                Err(e) => self@.fences.contains_key(sid@) && e@ == failure(
                    ErrorCode::Busy,
                    "restore claim waits for fenced teardown of sandbox "@ + sid@,
                ),
            },
    {
        if fence_blocks_successor(&self.fences, sid) {
            return Err(EngineError::busy(cat2("restore claim waits for fenced teardown of sandbox ", sid)));
        }
        Ok(())
    }

    /// Holds `sid` back in the generation that the shared store granted `owner`.
    pub fn claim_restore_epoch_observed(&mut self, sid: &str, owner: &str, claimed: i64) -> (r: u64)
        ensures
            r == unsigned(claimed),
            final(self)@ == staged(old(self)@, sid@, OwnerView { node: owner@, epoch: unsigned(claimed) }),
    {
        let epoch = i64_to_u64(claimed);
        self.stage(sid, owner, epoch);
        epoch
    }

    /// Whether `owner` serves `sid` in generation `epoch`, as far as the node
    /// itself knows.
    pub fn owns_epoch(&self, sid: &str, owner: &str, epoch: u64) -> (r: bool)
        ensures
            r == (self@.owners.contains_key(sid@) && self@.owners[sid@].node == owner@ && unsigned(
                signed(self@.owners[sid@].epoch),
            ) == epoch),
    {
        match self.current_owner(sid) {
            Some((node, known)) => text_eq(node.as_str(), owner) && i64_to_u64(known) == epoch,
            None => false,
        }
    }

    /// Takes note that a recovery is complete. `owned` tells whether `owner` still
    /// owns the sandbox in generation `epoch`; `lease` is as for a recorded owner.
    pub fn finalize_restore_epoch(
        &mut self,
        sid: &str,
        owner: &str,
        epoch: u64,
        owned: bool,
        lease: Option<u128>,
        now: u128,
    ) -> (r: Result<(), EngineError>)
        ensures
            match r {
                Ok(_) => owned && final(self)@ == owner_recorded(
                    old(self)@,
                    sid@,
                    OwnerView { node: owner@, epoch: unsigned(signed(epoch)) },
                    lease,
                    now,
                ),
                Err(e) => !owned && final(self)@ == old(self)@ && e@ == failure(
                    ErrorCode::Busy,
                    "restore ownership fenced for sandbox "@ + sid@,
                ),
            },
    {
        if !owned {
            return Err(EngineError::busy(cat2("restore ownership fenced for sandbox ", sid)));
        }
        self.record_owner(sid, owner, u64_to_i64(epoch), lease, now);
        Ok(())
    }

    /// Puts a recovered sandbox into service, once its durable record was written.
    pub fn commit_restore_epoch(&mut self, sid: &str, owner: &str, epoch: u64, deadline: u128)
        ensures
            final(self)@ == epoch_committed(old(self)@, sid@, OwnerView { node: owner@, epoch }, deadline),
    {
        let same = match self.restoring.get(sid) {
            Some(o) => o.is(owner, epoch),
            None => false,
        };
        self.owners.insert(sid.to_owned(), Owner::new(owner, epoch));
        self.deadlines.insert(sid.to_owned(), deadline);
        if same {
            self.restoring.remove(sid);
        }
    }

    /// The serving claim on a sandbox of the local engine. A sandbox that does not
    /// run loses its claim and waits for recovery.
    pub fn local_owner_epoch(&mut self, sid: &str, running: bool) -> (r: Option<Owner>)
        ensures
            (opt_owner(r), final(self)@) == served_here(old(self)@, sid@, running),
    {
        let claim = match self.owners.get(sid) {
            Some(o) => o.copy(),
            None => return None,
        };
        if !running {
            self.owners.remove(sid);
            self.deadlines.remove(sid);
            self.push_orphan(sid, claim.node.as_str());
            return None;
        }
        Some(claim)
    }

    /// Whether a claim of this node can be renewed at all: it is the node's own,
    /// and its generation is one that the store can hold.
    pub fn renewable(&self, owner: &str, epoch: u64) -> (r: bool)
        ensures
            r == (owner@ == self@.node && epoch <= i64::MAX),
    {
        text_eq(owner, self.node_id.as_str()) && epoch <= i64::MAX as u64
    }

    /// Evaluates the renewal of the claim on `sid`; `true` says that the sandbox
    /// has to be fenced.
    pub fn settle_local_lease(&mut self, sid: &str, started: u64, reply: LeaseReply, armed: bool, now: u128) -> (r:
        bool)
        ensures
            (r, final(self)@) == lease_settled(old(self)@, sid@, started, reply, armed, now),
    {
        match reply {
            LeaseReply::Granted(ttl) => match owner_watchdog_deadline(started, Some(ttl)) {
                Some(deadline) => {
                    if !armed {
                        return true;
                    }
                    self.deadlines.insert(sid.to_owned(), deadline);
                    false
                },
                None => true,
            },
            LeaseReply::Denied => true,
            LeaseReply::Unreachable => match self.deadlines.get(sid) {
                Some(d) => *d <= now,
                None => true,
            },
        }
    }

    /// Reserves the arrival of `sid` by migration. One arrival at a time; none
    /// before an earlier generation was torn down.
    pub fn try_begin_target_migration(&mut self, sid: &str) -> (r: Result<(), MeshError>)
        ensures
            match r {
                Ok(_) => !old(self)@.fences.contains_key(sid@) && !old(self)@.migrating.contains_key(sid@)
                    && final(self)@ == (RuntimeView {
                    migrating: old(self)@.migrating.insert(sid@, true),
                    ..old(self)@
                }),
                Err(e) => final(self)@ == old(self)@ && if old(self)@.fences.contains_key(sid@) {
                    e.code@ == "unreachable"@ && e.message@
                        == "migration target waits for fenced teardown of sandbox "@ + sid@
                } else {
                    old(self)@.migrating.contains_key(sid@) && e.code@ == "busy"@ && e.message@
                        == "target migration for sandbox "@ + sid@ + " is pending"@
                },
            },
    {
        if fence_blocks_successor(&self.fences, sid) {
            return Err(
                MeshError::with_code(
                    cat2("migration target waits for fenced teardown of sandbox ", sid),
                    "unreachable",
                ),
            );
        }
        if self.migrating.contains_key(sid) {
            return Err(
                MeshError::with_code(cat3("target migration for sandbox ", sid, " is pending"), "busy"),
            );
        }
        self.migrating.insert(sid.to_owned(), true);
        Ok(())
    }

    /// The arrival of `sid` is over, one way or the other.
    pub fn end_target_migration(&mut self, sid: &str)
        ensures
            final(self)@ == (RuntimeView { migrating: old(self)@.migrating.remove(sid@), ..old(self)@ }),
    {
        self.migrating.remove(sid);
    }

    /// A migration into this node was committed: the sandbox serves here.
    pub fn migration_committed(&mut self, record: &CreateRecord)
        ensures
            final(self)@ == (RuntimeView {
                restoring: old(self)@.restoring.remove(record@.sid),
                owners: old(self)@.owners.insert(
                    record@.sid,
                    OwnerView { node: record@.owner, epoch: unsigned(record@.epoch) },
                ),
                ..old(self)@
            }),
    {
        let epoch = i64_to_u64(record.epoch);
        self.restoring.remove(record.sid.as_str());
        self.owners.insert(record.sid.clone(), Owner::new(record.owner.as_str(), epoch));
    }

    /// A migration out of this node was taken back: the sandbox serves here again.
    pub fn migration_taken_back(&mut self, sid: &str, fresh: &CreateRecord)
        ensures
            final(self)@ == (RuntimeView {
                owners: old(self)@.owners.insert(
                    sid@,
                    OwnerView { node: fresh@.owner, epoch: unsigned(fresh@.epoch) },
                ),
                ..old(self)@
            }),
    {
        let epoch = i64_to_u64(fresh.epoch);
        self.owners.insert(sid.to_owned(), Owner::new(fresh.owner.as_str(), epoch));
    }

    /// The node that a request key is tied to.
    pub fn idem_owner(&self, key: &str) -> (r: Option<String>)
        ensures
            match r {
                Some(o) => self@.pins.contains_key(key@) && self@.pins[key@] == o@,
                None => !self@.pins.contains_key(key@),
            },
    {
        match self.pins.get(key) {
            Some(o) => Some(o.clone()),
            None => None,
        }
    }

    /// Ties a request key to `owner`, unless it is tied already; returns the node
    /// that it is tied to.
    pub fn idem_pin(&mut self, key: &str, owner: &str) -> (r: String)
        ensures
            r@ == final(self)@.pins[key@],
            final(self)@ == (RuntimeView { pins: pinned(old(self)@.pins, key@, owner@), ..old(self)@ }),
    {
        if let Some(o) = self.pins.get(key) {
            return o.clone();
        }
        self.pins.insert(key.to_owned(), owner.to_owned());
        owner.to_owned()
    }

    /// Unties a request key.
    pub fn idem_unpin(&mut self, key: &str)
        ensures
            final(self)@ == (RuntimeView { pins: old(self)@.pins.remove(key@), ..old(self)@ }),
    {
        self.pins.remove(key);
    }

    /// Starts the work `key`; `false` where it already runs.
    pub fn worker_begin(&mut self, key: &str) -> (r: bool)
        ensures
            r == !old(self)@.workers.contains_key(key@),
            final(self)@ == (RuntimeView {
                workers: if r {
                    old(self)@.workers.insert(key@, true)
                } else {
                    old(self)@.workers
                },
                ..old(self)@
            }),
    {
        if self.workers.contains_key(key) {
            return false;
        }
        self.workers.insert(key.to_owned(), true);
        true
    }

    /// The work `key` is over.
    pub fn worker_end(&mut self, key: &str)
        ensures
            final(self)@ == (RuntimeView { workers: old(self)@.workers.remove(key@), ..old(self)@ }),
    {
        self.workers.remove(key);
    }

    /// How much work runs.
    pub fn workers_running(&self) -> (r: usize)
        ensures
            r == self@.workers.dom().len(),
    {
        self.workers.len()
    }
}

/// A request key stays tied to the node that it was first tied to, however often
/// it is tied again.
pub proof fn law_first_pin_wins(
    pins: Map<Seq<char>, Seq<char>>,
    key: Seq<char>,
    first: Seq<char>,
    second: Seq<char>,
)
    requires
        !pins.contains_key(key),
    ensures
        pinned(pinned(pins, key, first), key, second)[key] == first,
{
}

/// A pin that is there stays, and other pins are not touched.
pub proof fn law_pins_stay(
    pins: Map<Seq<char>, Seq<char>>,
    key: Seq<char>,
    first: Seq<char>,
    second: Seq<char>,
    other: Seq<char>,
)
    requires
        other != key,
    ensures
        pinned(pins, key, first).contains_key(key),
        pins.contains_key(key) ==> pinned(pins, key, first)[key] == pins[key],
        !pins.contains_key(key) ==> pinned(pins, key, first)[key] == first,
        pinned(pinned(pins, key, first), key, second) == pinned(pins, key, first),
        pinned(pins, key, first).contains_key(other) == pins.contains_key(other),
        pinned(pins, key, first)[other] == pins[other],
{
}

/// A local lease is over where it was refused, where it has no time left or no watchdog,
/// and, where the store cannot be reached, once its deadline is over; otherwise it runs
/// until the margin before its new end.
pub proof fn law_local_lease_ends(
    v: RuntimeView,
    sid: Seq<char>,
    started: u64,
    reply: LeaseReply,
    armed: bool,
    now: u128,
)
    ensures
        ({
            let (over, w) = lease_settled(v, sid, started, reply, armed, now);
            &&& reply is Denied ==> over
            &&& reply is Granted && (!armed || reply->Granted_0 == 0) ==> over
            &&& reply is Granted && armed && reply->Granted_0 > 5_000_000_000 ==> !over && w.deadlines.contains_key(sid)
                && w.deadlines[sid] == started + reply->Granted_0 - 5_000_000_000
            &&& reply is Unreachable ==> (over <==> !(v.deadlines.contains_key(sid) && v.deadlines[sid] > now))
            &&& over ==> w == v
            &&& w.owners == v.owners && w.restoring == v.restoring && w.fences == v.fences
        }),
{
}

/// A claim is told only where its sandbox runs; one whose sandbox does not run serves no
/// longer and is left for recovery.
pub proof fn law_claim_without_process_is_left(v: RuntimeView, sid: Seq<char>, running: bool, other: Seq<char>)
    requires
        other != sid,
    ensures
        ({
            let (claim, w) = served_here(v, sid, running);
            &&& claim is Some <==> v.owners.contains_key(sid) && running
            &&& claim is Some ==> claim == Some(v.owners[sid]) && w == v
            &&& v.owners.contains_key(sid) && !running ==> !w.owners.contains_key(sid) && !w.deadlines.contains_key(sid)
                && w.orphans == v.orphans.push((sid, v.owners[sid].node))
            &&& !v.owners.contains_key(sid) ==> w == v
            &&& w.owners.contains_key(other) == v.owners.contains_key(other) && w.owners[other] == v.owners[other]
            &&& w.restoring == v.restoring && w.fences == v.fences
        }),
{
}

/// A committed generation serves until its deadline; a claim that is held back for
/// another generation stays.
pub proof fn law_committed_generation_serves(v: RuntimeView, sid: Seq<char>, claim: OwnerView, deadline: u128)
    ensures
        ({
            let w = epoch_committed(v, sid, claim, deadline);
            let held = v.restoring.contains_key(sid) && v.restoring[sid] == claim;
            &&& w.owners.contains_key(sid) && w.owners[sid] == claim
            &&& w.deadlines.contains_key(sid) && w.deadlines[sid] == deadline
            &&& held ==> !w.restoring.contains_key(sid)
            &&& !held ==> w.restoring == v.restoring
            &&& w.fences == v.fences
        }),
{
}

/// A delete is committed by the claim that the record names; without a record nothing is
/// left to delete.
pub proof fn law_delete_commit_needs_the_claim(record: RecordView, sid: Seq<char>, owner: Seq<char>, epoch: i64)
    ensures
        delete_verdict(None, sid, owner, epoch) == Ok::<bool, Seq<char>>(false),
        record.owner == owner && record.epoch == epoch ==> delete_verdict(Some(record), sid, owner, epoch) == Ok::<
            bool,
            Seq<char>,
        >(true),
        record.owner != owner || record.epoch != epoch ==> delete_verdict(Some(record), sid, owner, epoch) is Err,
{
}

} // verus!
