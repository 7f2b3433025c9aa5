//! How a sandbox changes hands: restore, suspend, rollback and delete.
use super::{staged, watchdog_deadline, owner_watchdog_deadline, MeshRuntime, RuntimeView};
use crate::error::{failure, EngineError, ErrorCode, ErrorView};
use crate::mesh::records::CreateRecord;
use crate::mesh::sets::{Owner, OwnerView};
use crate::text::{cat2, text_eq};
use vstd::prelude::*;

verus! {

/// The marker of a suspended or resuming sandbox in the shared store.
pub struct SuspendMarker {
    pub state: String,
    pub owner: String,
    pub epoch: i64,
}

/// What the shared store says about a restore that wants to begin: whether it
/// turned the suspended marker into a resuming one just now, the marker that is
/// there otherwise, and whether it holds a rollback of this generation.
pub struct RestoreAuthority {
    pub begun: bool,
    pub marker: Option<SuspendMarker>,
    pub rolling_back: bool,
}

/// Whether the store lets `owner` resume in generation `epoch`.
pub open spec fn resumes(a: RestoreAuthority, owner: Seq<char>, epoch: i64) -> bool {
    a.begun || (a.marker is Some && a.marker->0.state@ == "resuming"@ && a.marker->0.owner@ == owner
        && a.marker->0.epoch == epoch)
}

/// Why a restore in generation `epoch` may not even ask for authority.
pub open spec fn restore_obstacle(v: RuntimeView, sid: Seq<char>, epoch: i64) -> Option<ErrorView> {
    if epoch < 0 {
        Some(failure(ErrorCode::Invalid, "negative restore epoch"@))
    } else if v.fences.contains_key(sid) {
        Some(failure(ErrorCode::Busy, "restore handoff waits for fenced teardown of sandbox "@ + sid))
    } else {
        None
    }
}

/// Why a restore may not begin. Without a shared store (`None`) no authority is
/// needed.
pub open spec fn restore_refusal(
    v: RuntimeView,
    sid: Seq<char>,
    owner: Seq<char>,
    epoch: i64,
    authority: Option<RestoreAuthority>,
) -> Option<ErrorView> {
    if restore_obstacle(v, sid, epoch) is Some {
        restore_obstacle(v, sid, epoch)
    } else if authority is Some && !resumes(authority->0, owner, epoch) && !authority->0.rolling_back {
        Some(failure(ErrorCode::Busy, "restore handoff fenced for sandbox "@ + sid))
    } else {
        None
    }
}

/// The state once a restore has begun.
pub open spec fn restore_begun(
    v: RuntimeView,
    sid: Seq<char>,
    owner: Seq<char>,
    epoch: u64,
    resuming: bool,
) -> RuntimeView {
    let w = if resuming {
        RuntimeView { resuming: v.resuming.insert((sid, owner, epoch)), ..v }
    } else {
        v
    };
    staged(w, sid, OwnerView { node: owner, epoch })
}

/// The state once `sid` serves in the generation `claim` until `deadline`.
pub open spec fn serving(v: RuntimeView, sid: Seq<char>, claim: OwnerView, deadline: u128) -> RuntimeView {
    RuntimeView {
        owners: v.owners.insert(sid, claim),
        restoring: v.restoring.remove(sid),
        deadlines: v.deadlines.insert(sid, deadline),
        ..v
    }
}

/// Whether `sid` is being restored in exactly the generation `claim`.
pub open spec fn restores(v: RuntimeView, sid: Seq<char>, claim: OwnerView) -> bool {
    v.restoring.contains_key(sid) && v.restoring[sid] == claim
}

/// Whether `sid` is served in exactly the generation `claim`.
pub open spec fn owns(v: RuntimeView, sid: Seq<char>, claim: OwnerView) -> bool {
    v.owners.contains_key(sid) && v.owners[sid] == claim
}

/// The state once the restore of generation `claim` was given up.
pub open spec fn restore_given_up(v: RuntimeView, sid: Seq<char>, claim: OwnerView) -> RuntimeView {
    RuntimeView {
        resuming: v.resuming.remove((sid, claim.node, claim.epoch)),
        restoring: if restores(v, sid, claim) {
            v.restoring.remove(sid)
        } else {
            v.restoring
        },
        ..v
    }
}

/// The state once a suspend or rollback of generation `claim` was given up: it
/// serves again, unless another claim replaced it meanwhile; that one is dropped.
pub open spec fn withdrawal_given_up(v: RuntimeView, sid: Seq<char>, claim: OwnerView) -> RuntimeView {
    RuntimeView {
        restoring: v.restoring.remove(sid),
        owners: if restores(v, sid, claim) {
            v.owners.insert(sid, claim)
        } else {
            v.owners
        },
        ..v
    }
}

/// What comes of withdrawing the serving claim of `owner` in generation `epoch`, or why
/// it is refused; `negative` and `fenced` are the words of the refusals.
pub open spec fn withdrawn(
    v: RuntimeView,
    sid: Seq<char>,
    owner: Seq<char>,
    epoch: i64,
    negative: Seq<char>,
    fenced: Seq<char>,
) -> Result<RuntimeView, ErrorView> {
    let claim = OwnerView { node: owner, epoch: epoch as u64 };
    if epoch < 0 {
        Err(failure(ErrorCode::Invalid, negative))
    } else if !owns(v, sid, claim) {
        Err(failure(ErrorCode::Busy, fenced + sid))
    } else {
        Ok(staged(v, sid, claim))
    }
}

/// What comes of committing the restore of `owner` in generation `epoch`.
pub open spec fn restore_committed(
    v: RuntimeView,
    sid: Seq<char>,
    owner: Seq<char>,
    epoch: i64,
    deadline: u128,
) -> Result<RuntimeView, ErrorView> {
    let claim = OwnerView { node: owner, epoch: epoch as u64 };
    if epoch < 0 {
        Err(failure(ErrorCode::Invalid, "negative restore epoch"@))
    } else if !restores(v, sid, claim) {
        Err(failure(ErrorCode::Busy, "restore handoff fenced for sandbox "@ + sid))
    } else {
        Ok(
            serving(
                RuntimeView { resuming: v.resuming.remove((sid, owner, epoch as u64)), ..v },
                sid,
                claim,
                deadline,
            ),
        )
    }
}

/// What comes of committing the suspend of `owner` in generation `epoch`, and why it is
/// refused where it is: the claim that is held back is dropped either way.
pub open spec fn suspend_committed(
    v: RuntimeView,
    sid: Seq<char>,
    owner: Seq<char>,
    epoch: i64,
) -> (RuntimeView, Option<ErrorView>) {
    let dropped = RuntimeView { restoring: v.restoring.remove(sid), ..v };
    if epoch < 0 {
        (v, Some(failure(ErrorCode::Invalid, "negative suspend epoch"@)))
    } else if !restores(v, sid, OwnerView { node: owner, epoch: epoch as u64 }) {
        (dropped, Some(failure(ErrorCode::Busy, "suspend handoff fenced for sandbox "@ + sid)))
    } else {
        (dropped, None)
    }
}

/// What comes of committing the rollback of `owner` in generation `epoch`: of the claim
/// that is held back, or of the serving one where none is.
pub open spec fn rollback_committed(
    v: RuntimeView,
    sid: Seq<char>,
    owner: Seq<char>,
    epoch: i64,
    deadline: u128,
) -> Result<RuntimeView, ErrorView> {
    let claim = OwnerView { node: owner, epoch: epoch as u64 };
    if epoch < 0 {
        Err(failure(ErrorCode::Invalid, "negative rollback epoch"@))
    } else if !restores(v, sid, claim) && (v.restoring.contains_key(sid) || !owns(v, sid, claim)) {
        Err(failure(ErrorCode::Busy, "rollback handoff fenced for sandbox "@ + sid))
    } else {
        Ok(serving(v, sid, claim, deadline))
    }
}

/// What comes of beginning a delete: with a shared store the store decides; without one
/// the record has to be `current`, that is, name the claim.
pub open spec fn delete_begun(
    v: RuntimeView,
    sid: Seq<char>,
    epoch: i64,
    clustered: bool,
    current: bool,
) -> Result<RuntimeView, ErrorView> {
    if epoch < 0 {
        Err(failure(ErrorCode::Invalid, "negative delete epoch"@))
    } else if !clustered && !current {
        Err(failure(ErrorCode::Busy, "delete handoff fenced for sandbox "@ + sid))
    } else {
        Ok(RuntimeView { owners: v.owners.remove(sid), ..v })
    }
}

fn unsigned_epoch(epoch: i64, negative: &str) -> (r: Result<u64, EngineError>)
    ensures
        match r {
            Ok(e) => epoch >= 0 && e == epoch,
            Err(e) => epoch < 0 && e@ == failure(ErrorCode::Invalid, negative@),
        },
{
    if epoch < 0 {
        Err(EngineError::invalid(negative.to_owned()))
    } else {
        Ok(epoch as u64)
    }
}

/// How long the local watchdog of a running sandbox is set: whole seconds until
/// the deadline. Nothing is set where the sandbox does not run.
pub open spec fn watchdog_setting(
    sid: Seq<char>,
    started: u64,
    ttl: Option<u64>,
    running: bool,
    now: u128,
) -> Result<Option<u64>, ErrorView> {
    match watchdog_deadline(started, ttl) {
        None => Err(failure(ErrorCode::Busy, "owner lease for sandbox "@ + sid + " expired"@)),
        Some(deadline) => if !running {
            Ok(None)
        } else if deadline < now + 1_000_000_000 {
            Err(failure(ErrorCode::Busy, "owner lease watchdog deadline elapsed for sandbox "@ + sid))
        } else {
            Ok(Some(((deadline - now) / 1_000_000_000) as u64))
        },
    }
}

/// The whole seconds for which the watchdog of `sid` has to be armed.
pub fn rearm_owner_watchdog(
    sid: &str,
    request_started: u64,
    remaining_ttl: Option<u64>,
    running: bool,
    now: u128,
) -> (r: Result<Option<u64>, EngineError>)
    ensures
        match r {
            Ok(secs) => watchdog_setting(sid@, request_started, remaining_ttl, running, now) == Ok::<
                Option<u64>,
                ErrorView,
            >(secs),
            Err(e) => watchdog_setting(sid@, request_started, remaining_ttl, running, now) == Err::<
                Option<u64>,
                ErrorView,
            >(e@),
        },
{
    let deadline: u128 = match owner_watchdog_deadline(request_started, remaining_ttl) {
        Some(d) => d,
        None => {
            let mut message = cat2("owner lease for sandbox ", sid);
            message.append(" expired");
            return Err(EngineError::busy(message));
        },
    };
    if !running {
        return Ok(None);
    }
    if deadline < now || deadline - now < 1_000_000_000 {
        return Err(EngineError::busy(cat2("owner lease watchdog deadline elapsed for sandbox ", sid)));
    }
    let secs: u128 = (deadline - now) / 1_000_000_000;
    assert(secs <= u64::MAX) by {
        assert(deadline <= 2 * u64::MAX);
    }
    Ok(Some(secs as u64))
}

/// How long a restored sandbox may serve. Without a shared store it has the
/// default lease. With one, `renewal` is what the store left of the lease
/// (`None` where it refused) and `armed` says whether the local watchdog was
/// armed with it.
pub open spec fn serving_until(
    sid: Seq<char>,
    started: u64,
    clustered: bool,
    default_ttl: u64,
    renewal: Option<Option<u64>>,
    armed: bool,
) -> Result<u128, ErrorView> {
    if !clustered {
        Ok(
            (started + if default_ttl > super::WATCHDOG_MARGIN {
                default_ttl - super::WATCHDOG_MARGIN
            } else {
                0
            }) as u128,
        )
    } else {
        match renewal {
            None => Err(failure(ErrorCode::Busy, "restore ownership fenced for sandbox "@ + sid)),
            Some(ttl) => if !armed {
                Err(failure(ErrorCode::Busy, "owner watchdog unavailable for sandbox "@ + sid))
            } else {
                match watchdog_deadline(started, ttl) {
                    Some(deadline) => Ok(deadline),
                    None => Err(failure(ErrorCode::Busy, "owner lease for sandbox "@ + sid + " expired"@)),
                }
            },
        }
    }
}

pub fn renew_and_arm_serving_owner(
    sid: &str,
    request_started: u64,
    clustered: bool,
    default_ttl: u64,
    renewal: Option<Option<u64>>,
    armed: bool,
) -> (r: Result<u128, EngineError>)
    ensures
        match r {
            Ok(deadline) => serving_until(sid@, request_started, clustered, default_ttl, renewal, armed)
                == Ok::<u128, ErrorView>(deadline),
            Err(e) => serving_until(sid@, request_started, clustered, default_ttl, renewal, armed) == Err::<
                u128,
                ErrorView,
            >(e@),
        },
{
    if !clustered {
        let lease: u64 = if default_ttl > super::WATCHDOG_MARGIN {
            default_ttl - super::WATCHDOG_MARGIN
        } else {
            0
        };
        return Ok(request_started as u128 + lease as u128);
    }
    let ttl = match renewal {
        Some(t) => t,
        None => return Err(EngineError::busy(cat2("restore ownership fenced for sandbox ", sid))),
    };
    if !armed {
        return Err(EngineError::busy(cat2("owner watchdog unavailable for sandbox ", sid)));
    }
    match owner_watchdog_deadline(request_started, ttl) {
        Some(d) => Ok(d),
        None => {
            let mut message = cat2("owner lease for sandbox ", sid);
            message.append(" expired");
            Err(EngineError::busy(message))
        },
    }
}

impl MeshRuntime {
    /// Whether a restore of `sid` may ask for authority.
    pub fn restore_admissible(&self, sid: &str, epoch: i64) -> (r: Result<u64, EngineError>)
        ensures
            match r {
                Ok(e) => restore_obstacle(self@, sid@, epoch) is None && e == epoch,
                Err(e) => restore_obstacle(self@, sid@, epoch) == Some(e@),
            },
    {
        let generation = match unsigned_epoch(epoch, "negative restore epoch") {
            Ok(e) => e,
            Err(e) => return Err(e),
        };
        if super::fence_blocks_successor(&self.fences, sid) {
            return Err(EngineError::busy(cat2("restore handoff waits for fenced teardown of sandbox ", sid)));
        }
        Ok(generation)
    }

    /// Withdraws `sid` from service so that `owner` can restore it in generation
    /// `epoch`.
    pub fn begin_restore(&mut self, sid: &str, owner: &str, epoch: i64, authority: Option<RestoreAuthority>) -> (r:
        Result<(), EngineError>)
        ensures
            match r {
                Ok(_) => restore_refusal(old(self)@, sid@, owner@, epoch, authority) is None && final(self)@
                    == restore_begun(
                    old(self)@,
                    sid@,
                    owner@,
                    epoch as u64,
                    authority is Some && resumes(authority->0, owner@, epoch),
                ),
                Err(e) => restore_refusal(old(self)@, sid@, owner@, epoch, authority) == Some(e@) && final(self)@
                    == old(self)@,
            },
    {
        let generation = match self.restore_admissible(sid, epoch) {
            Ok(e) => e,
            Err(e) => return Err(e),
        };
        if let Some(a) = &authority {
            let resuming = a.begun || match &a.marker {
                Some(m) => text_eq(m.state.as_str(), "resuming") && text_eq(m.owner.as_str(), owner) && m.epoch
                    == epoch,
                None => false,
            };
            if !resuming && !a.rolling_back {
                return Err(EngineError::busy(cat2("restore handoff fenced for sandbox ", sid)));
            }
            if resuming {
                self.resuming.insert(sid, owner, generation);
            }
        }
        self.stage(sid, owner, generation);
        Ok(())
    }

    fn restoring_is(&self, sid: &str, owner: &str, epoch: u64) -> (r: bool)
        ensures
            r == restores(self@, sid@, OwnerView { node: owner@, epoch }),
    {
        match self.restoring.get(sid) {
            Some(o) => o.is(owner, epoch),
            None => false,
        }
    }

    fn owners_is(&self, sid: &str, owner: &str, epoch: u64) -> (r: bool)
        ensures
            r == owns(self@, sid@, OwnerView { node: owner@, epoch }),
    {
        match self.owners.get(sid) {
            Some(o) => o.is(owner, epoch),
            None => false,
        }
    }

    /// Whether the handoff that `owner` began in generation `epoch` still stands.
    pub fn restore_staged(&self, sid: &str, owner: &str, epoch: i64) -> (r: Result<u64, EngineError>)
        ensures
            match r {
                Ok(e) => epoch >= 0 && e == epoch && restores(
                    self@,
                    sid@,
                    OwnerView { node: owner@, epoch: e },
                ),
                Err(e) => if epoch < 0 {
                    e@ == failure(ErrorCode::Invalid, "negative restore epoch"@)
                } else {
                    !restores(self@, sid@, OwnerView { node: owner@, epoch: epoch as u64 }) && e@ == failure(
                        ErrorCode::Busy,
                        "restore handoff fenced for sandbox "@ + sid@,
                    )
                },
            },
    {
        let generation = match unsigned_epoch(epoch, "negative restore epoch") {
            Ok(e) => e,
            Err(e) => return Err(e),
        };
        if !self.restoring_is(sid, owner, generation) {
            return Err(EngineError::busy(cat2("restore handoff fenced for sandbox ", sid)));
        }
        Ok(generation)
    }

    /// Whether the restore under way answers a suspended marker, which then has
    /// to be finished in the same write as the record.
    pub fn is_resuming(&self, sid: &str, owner: &str, epoch: u64) -> (r: bool)
        ensures
            r == self@.resuming.contains((sid@, owner@, epoch)),
    {
        self.resuming.contains(sid, owner, epoch)
    }

    /// Puts a restored sandbox into service, once its durable record was written.
    pub fn commit_restore(&mut self, sid: &str, owner: &str, epoch: i64, deadline: u128) -> (r: Result<
        (),
        EngineError,
    >)
        ensures
            match r {
                Ok(_) => restore_committed(old(self)@, sid@, owner@, epoch, deadline) == Ok::<RuntimeView, ErrorView>(
                    final(self)@,
                ),
                Err(e) => final(self)@ == old(self)@ && restore_committed(old(self)@, sid@, owner@, epoch, deadline)
                    == Err::<RuntimeView, ErrorView>(e@),
            },
    {
        let generation = match self.restore_staged(sid, owner, epoch) {
            Ok(e) => e,
            Err(e) => return Err(e),
        };
        self.resuming.remove(sid, owner, generation);
        self.restoring.remove(sid);
        self.owners.insert(sid.to_owned(), Owner::new(owner, generation));
        self.deadlines.insert(sid.to_owned(), deadline);
        Ok(())
    }

    /// Gives up the restore of `owner` in generation `epoch`.
    pub fn abort_restore(&mut self, sid: &str, owner: &str, epoch: i64) -> (r: Result<(), EngineError>)
        ensures
            match r {
                Ok(_) => epoch >= 0 && final(self)@ == restore_given_up(
                    old(self)@,
                    sid@,
                    OwnerView { node: owner@, epoch: epoch as u64 },
                ),
                Err(e) => epoch < 0 && final(self)@ == old(self)@ && e@ == failure(
                    ErrorCode::Invalid,
                    "negative restore epoch"@,
                ),
            },
    {
        let generation = match unsigned_epoch(epoch, "negative restore epoch") {
            Ok(e) => e,
            Err(e) => return Err(e),
        };
        self.resuming.remove(sid, owner, generation);
        if self.restoring_is(sid, owner, generation) {
            self.restoring.remove(sid);
        }
        Ok(())
    }

    fn withdraw(&mut self, sid: &str, owner: &str, epoch: i64, negative: &str, fenced: &str) -> (r: Result<
        (),
        EngineError,
    >)
        ensures
            match r {
                Ok(_) => withdrawn(old(self)@, sid@, owner@, epoch, negative@, fenced@) == Ok::<RuntimeView, ErrorView>(
                    final(self)@,
                ),
                Err(e) => final(self)@ == old(self)@ && withdrawn(old(self)@, sid@, owner@, epoch, negative@, fenced@)
                    == Err::<RuntimeView, ErrorView>(e@),
            },
    {
        let generation = match unsigned_epoch(epoch, negative) {
            Ok(e) => e,
            Err(e) => return Err(e),
        };
        if !self.owners_is(sid, owner, generation) {
            return Err(EngineError::busy(cat2(fenced, sid)));
        }
        self.stage(sid, owner, generation);
        Ok(())
    }

    fn reinstate(&mut self, sid: &str, owner: &str, epoch: i64, negative: &str) -> (r: Result<(), EngineError>)
        ensures
            match r {
                Ok(_) => epoch >= 0 && final(self)@ == withdrawal_given_up(
                    old(self)@,
                    sid@,
                    OwnerView { node: owner@, epoch: epoch as u64 },
                ),
                Err(e) => epoch < 0 && final(self)@ == old(self)@ && e@ == failure(
                    ErrorCode::Invalid,
                    negative@,
                ),
            },
    {
        let generation = match unsigned_epoch(epoch, negative) {
            Ok(e) => e,
            Err(e) => return Err(e),
        };
        let same = self.restoring_is(sid, owner, generation);
        self.restoring.remove(sid);
        if same {
            self.owners.insert(sid.to_owned(), Owner::new(owner, generation));
        }
        Ok(())
    }

    /// Withdraws the serving generation of `sid` so that it can be suspended.
    pub fn prepare_suspend(&mut self, sid: &str, owner: &str, epoch: i64) -> (r: Result<(), EngineError>)
        ensures
            match r {
                Ok(_) => withdrawn(old(self)@, sid@, owner@, epoch, "negative suspend epoch"@, "suspend handoff fenced for sandbox "@) == Ok::<RuntimeView, ErrorView>(
                    final(self)@,
                ),
                Err(e) => final(self)@ == old(self)@ && withdrawn(old(self)@, sid@, owner@, epoch, "negative suspend epoch"@, "suspend handoff fenced for sandbox "@)
                    == Err::<RuntimeView, ErrorView>(e@),
            },
    {
        self.withdraw(sid, owner, epoch, "negative suspend epoch", "suspend handoff fenced for sandbox ")
    }

    /// The sandbox was suspended: the node forgets it. Where another claim
    /// replaced it meanwhile, that one is forgotten too and the caller is told.
    pub fn commit_suspend(&mut self, sid: &str, owner: &str, epoch: i64) -> (r: Result<(), EngineError>)
        ensures
            (final(self)@, match r {
                Ok(_) => None,
                Err(e) => Some(e@),
            }) == suspend_committed(old(self)@, sid@, owner@, epoch),
    {
        let generation = match unsigned_epoch(epoch, "negative suspend epoch") {
            Ok(e) => e,
            Err(e) => return Err(e),
        };
        let same = self.restoring_is(sid, owner, generation);
        self.restoring.remove(sid);
        if !same {
            return Err(EngineError::busy(cat2("suspend handoff fenced for sandbox ", sid)));
        }
        Ok(())
    }

    /// Gives up a suspend: the sandbox serves again.
    pub fn abort_suspend(&mut self, sid: &str, owner: &str, epoch: i64) -> (r: Result<(), EngineError>)
        ensures
            match r {
                Ok(_) => epoch >= 0 && final(self)@ == withdrawal_given_up(
                    old(self)@,
                    sid@,
                    OwnerView { node: owner@, epoch: epoch as u64 },
                ),
                Err(e) => epoch < 0 && final(self)@ == old(self)@ && e@ == failure(
                    ErrorCode::Invalid,
                    "negative suspend epoch"@,
                ),
            },
    {
        self.reinstate(sid, owner, epoch, "negative suspend epoch")
    }

    /// Withdraws the serving generation of `sid` so that it can be rolled back.
    pub fn prepare_rollback(&mut self, sid: &str, owner: &str, epoch: i64) -> (r: Result<(), EngineError>)
        ensures
            match r {
                Ok(_) => withdrawn(old(self)@, sid@, owner@, epoch, "negative rollback epoch"@, "rollback handoff fenced for sandbox "@) == Ok::<RuntimeView, ErrorView>(
                    final(self)@,
                ),
                Err(e) => final(self)@ == old(self)@ && withdrawn(old(self)@, sid@, owner@, epoch, "negative rollback epoch"@, "rollback handoff fenced for sandbox "@)
                    == Err::<RuntimeView, ErrorView>(e@),
            },
    {
        self.withdraw(sid, owner, epoch, "negative rollback epoch", "rollback handoff fenced for sandbox ")
    }

    /// Puts a rolled back sandbox into service. A commit that is repeated after
    /// it took effect succeeds again.
    pub fn commit_rollback(&mut self, sid: &str, owner: &str, epoch: i64, deadline: u128) -> (r: Result<
        (),
        EngineError,
    >)
        ensures
            match r {
                Ok(_) => rollback_committed(old(self)@, sid@, owner@, epoch, deadline) == Ok::<RuntimeView, ErrorView>(
                    final(self)@,
                ),
                Err(e) => final(self)@ == old(self)@ && rollback_committed(old(self)@, sid@, owner@, epoch, deadline)
                    == Err::<RuntimeView, ErrorView>(e@),
            },
    {
        let generation = match unsigned_epoch(epoch, "negative rollback epoch") {
            Ok(e) => e,
            Err(e) => return Err(e),
        };
        let pending = self.restoring.contains_key(sid);
        let stands = if pending {
            self.restoring_is(sid, owner, generation)
        } else {
            self.owners_is(sid, owner, generation)
        };
        if !stands {
            return Err(EngineError::busy(cat2("rollback handoff fenced for sandbox ", sid)));
        }
        self.restoring.remove(sid);
        self.owners.insert(sid.to_owned(), Owner::new(owner, generation));
        self.deadlines.insert(sid.to_owned(), deadline);
        Ok(())
    }

    /// Gives up a rollback: the sandbox serves again.
    pub fn abort_rollback(&mut self, sid: &str, owner: &str, epoch: i64) -> (r: Result<(), EngineError>)
        ensures
            match r {
                Ok(_) => epoch >= 0 && final(self)@ == withdrawal_given_up(
                    old(self)@,
                    sid@,
                    OwnerView { node: owner@, epoch: epoch as u64 },
                ),
                Err(e) => epoch < 0 && final(self)@ == old(self)@ && e@ == failure(
                    ErrorCode::Invalid,
                    "negative rollback epoch"@,
                ),
            },
    {
        self.reinstate(sid, owner, epoch, "negative rollback epoch")
    }

    /// Withdraws a sandbox that its owner deletes. Without a shared store, which
    /// fences by itself, `record` is the local record and decides.
    pub fn begin_delete(
        &mut self,
        sid: &str,
        owner: &str,
        epoch: i64,
        clustered: bool,
        record: Option<&CreateRecord>,
    ) -> (r: Result<(), EngineError>)
        ensures
            ({
                let current = record is Some && record->0@.owner == owner@ && record->0@.epoch == epoch;
                match r {
                    Ok(_) => delete_begun(old(self)@, sid@, epoch, clustered, current) == Ok::<RuntimeView, ErrorView>(
                        final(self)@,
                    ),
                    Err(e) => final(self)@ == old(self)@ && delete_begun(old(self)@, sid@, epoch, clustered, current)
                        == Err::<RuntimeView, ErrorView>(e@),
                }
            }),
    {
        match unsigned_epoch(epoch, "negative delete epoch") {
            Ok(_) => {},
            Err(e) => return Err(e),
        }
        if !clustered {
            let current = match record {
                Some(r) => r.owned_by(owner, epoch),
                None => false,
            };
            if !current {
                return Err(EngineError::busy(cat2("delete handoff fenced for sandbox ", sid)));
            }
        }
        self.owners.remove(sid);
        Ok(())
    }
}

/// A suspend that is given up leaves the sandbox serving in the generation that
/// it served in, and touches no other sandbox; only the local deadline has to be
/// set again.
pub proof fn law_suspend_undone(v: RuntimeView, sid: Seq<char>, claim: OwnerView)
    requires
        owns(v, sid, claim),
        !v.restoring.contains_key(sid),
    ensures
        withdrawal_given_up(staged(v, sid, claim), sid, claim) == (RuntimeView {
            deadlines: v.deadlines.remove(sid),
            ..v
        }),
{
    let w = withdrawal_given_up(staged(v, sid, claim), sid, claim);
    assert(w.owners =~= v.owners);
    assert(w.restoring =~= v.restoring);
}

/// From the moment a restore begins until it is committed the sandbox does not
/// serve; the commit makes it serve in exactly the generation that began.
pub proof fn law_restore_serves_its_generation(
    v: RuntimeView,
    sid: Seq<char>,
    owner: Seq<char>,
    epoch: u64,
    resuming: bool,
    deadline: u128,
)
    ensures
        ({
            let claim = OwnerView { node: owner, epoch };
            let begun = restore_begun(v, sid, owner, epoch, resuming);
            let done = serving(
                RuntimeView { resuming: begun.resuming.remove((sid, owner, epoch)), ..begun },
                sid,
                claim,
                deadline,
            );
            &&& !begun.owners.contains_key(sid)
            &&& restores(begun, sid, claim)
            &&& owns(done, sid, claim)
            &&& !done.restoring.contains_key(sid)
            &&& forall|other: Seq<char>|
                other != sid ==> (done.owners.contains_key(other) == v.owners.contains_key(other)
                    && done.owners[other] == v.owners[other])
        }),
{
}

/// A handoff that another claim overtook can neither be committed nor disturb
/// the later one.
pub proof fn law_stale_handoff_is_harmless(v: RuntimeView, sid: Seq<char>, old: OwnerView, new: OwnerView)
    requires
        old != new,
        restores(v, sid, new),
    ensures
        !restores(v, sid, old),
        restore_given_up(v, sid, old).restoring == v.restoring,
        restore_given_up(v, sid, old).owners == v.owners,
{
}

/// When a restore may begin: in a generation that is no negative number, with no
/// teardown of the sandbox running, and where there is a shared store, only with a
/// marker of it: turned to resuming just now, resuming for this owner in this
/// generation, or rolling back.
pub proof fn law_restore_needs_authority(
    v: RuntimeView,
    sid: Seq<char>,
    owner: Seq<char>,
    epoch: i64,
    authority: Option<RestoreAuthority>,
)
    ensures
        restore_refusal(v, sid, owner, epoch, authority) is None <==> {
            &&& epoch >= 0
            &&& !v.fences.contains_key(sid)
            &&& authority matches Some(a) ==> a.begun || a.rolling_back || (a.marker matches Some(m) && m.state@
                == "resuming"@ && m.owner@ == owner && m.epoch == epoch)
        },
        epoch < 0 ==> restore_refusal(v, sid, owner, epoch, authority)->0.code == ErrorCode::Invalid,
        epoch >= 0 && restore_refusal(v, sid, owner, epoch, authority) is Some ==> restore_refusal(
            v,
            sid,
            owner,
            epoch,
            authority,
        )->0.code == ErrorCode::Busy,
{
}

/// A restore that has begun holds the sandbox back in the new generation, and is noted
/// as resuming exactly where the store resumes it.
pub proof fn law_begun_restore_is_held_back(
    v: RuntimeView,
    sid: Seq<char>,
    owner: Seq<char>,
    epoch: u64,
    resuming: bool,
)
    ensures
        ({
            let w = restore_begun(v, sid, owner, epoch, resuming);
            &&& !w.owners.contains_key(sid)
            &&& w.restoring.contains_key(sid) && w.restoring[sid] == (OwnerView { node: owner, epoch })
            &&& !w.deadlines.contains_key(sid)
            &&& w.resuming == if resuming {
                v.resuming.insert((sid, owner, epoch))
            } else {
                v.resuming
            }
            &&& w.fences == v.fences
        }),
{
}

/// What serves is not held back, and has a deadline; other sandboxes are left alone.
pub proof fn law_serving_has_a_deadline(
    v: RuntimeView,
    sid: Seq<char>,
    claim: OwnerView,
    deadline: u128,
    other: Seq<char>,
)
    requires
        other != sid,
    ensures
        ({
            let w = serving(v, sid, claim, deadline);
            &&& w.owners.contains_key(sid) && w.owners[sid] == claim
            &&& !w.restoring.contains_key(sid)
            &&& w.deadlines.contains_key(sid) && w.deadlines[sid] == deadline
            &&& w.owners.contains_key(other) == v.owners.contains_key(other) && w.owners[other] == v.owners[other]
            &&& w.restoring.contains_key(other) == v.restoring.contains_key(other)
            &&& w.fences == v.fences
        }),
{
}

/// Giving a restore up takes back the claim of that generation only, and puts nothing
/// into service. Giving a suspend or rollback up puts exactly the claim back into
/// service that was withdrawn for it.
pub proof fn law_giving_up_keeps_other_claims(v: RuntimeView, sid: Seq<char>, claim: OwnerView, other: Seq<char>)
    requires
        other != sid,
    ensures
        ({
            let a = restore_given_up(v, sid, claim);
            let b = withdrawal_given_up(v, sid, claim);
            let same = v.restoring.contains_key(sid) && v.restoring[sid] == claim;
            &&& a.owners == v.owners
            &&& a.restoring.contains_key(sid) == (v.restoring.contains_key(sid) && !same)
            &&& v.restoring.contains_key(sid) && !same ==> a.restoring[sid] == v.restoring[sid]
            &&& !a.resuming.contains((sid, claim.node, claim.epoch))
            &&& a.deadlines == v.deadlines && a.fences == v.fences
            &&& !b.restoring.contains_key(sid)
            &&& same ==> b.owners.contains_key(sid) && b.owners[sid] == claim
            &&& !same ==> b.owners == v.owners
            &&& a.restoring.contains_key(other) == v.restoring.contains_key(other)
            &&& b.restoring.contains_key(other) == v.restoring.contains_key(other)
            &&& b.owners.contains_key(other) == v.owners.contains_key(other) && b.owners[other] == v.owners[other]
        }),
{
}

/// The watchdog of a running sandbox is set to whole seconds, at least one, that end
/// before the deadline with less than a second to spare. It is not set where the
/// sandbox does not run, and refused where the lease is over or has less than a second
/// left.
pub proof fn law_watchdog_ends_before_deadline(
    sid: Seq<char>,
    started: u64,
    ttl: u64,
    running: bool,
    now: u128,
)
    requires
        ttl > 5_000_000_000,
        now >= started,
    ensures
        ({
            let deadline = started + ttl - 5_000_000_000;
            let r = watchdog_setting(sid, started, Some(ttl), running, now);
            &&& running && now + 1_000_000_000 <= deadline ==> (r matches Ok(Some(secs)) && secs >= 1 && now + secs
                * 1_000_000_000 <= deadline < now + (secs + 1) * 1_000_000_000)
            &&& running && now + 1_000_000_000 > deadline ==> r is Err
            &&& !running ==> r == Ok::<Option<u64>, ErrorView>(None)
            &&& watchdog_setting(sid, started, Some(0), running, now) is Err
            &&& watchdog_setting(sid, started, None, running, now) is Err
        }),
{
}

/// Until when a restored sandbox serves: with a shared store until the margin before
/// the end of the lease that the store gave and the watchdog was armed with, and not at
/// all where either failed; without one, until the margin before the default lease ends.
pub proof fn law_restored_serves_on_its_lease(
    sid: Seq<char>,
    started: u64,
    default_ttl: u64,
    renewal: Option<Option<u64>>,
    armed: bool,
)
    requires
        default_ttl > 5_000_000_000,
    ensures
        serving_until(sid, started, false, default_ttl, renewal, armed) == Ok::<u128, ErrorView>(
            (started + default_ttl - 5_000_000_000) as u128,
        ),
        ({
            let r = serving_until(sid, started, true, default_ttl, renewal, armed);
            &&& r is Ok ==> armed && (renewal matches Some(Some(ttl)) && ttl > 0 && started <= r->Ok_0 < started + ttl)
            &&& armed && (renewal matches Some(Some(ttl)) && ttl > 5_000_000_000) ==> r == Ok::<u128, ErrorView>(
                (started + renewal->0->0 - 5_000_000_000) as u128,
            )
            &&& r is Err ==> r->Err_0.code == ErrorCode::Busy
        }),
{
}

/// Only the claim that serves is withdrawn, and only that which is held back is
/// committed: a suspend or rollback begins exactly where the sandbox is served by this
/// owner in this generation, and a restore or suspend is committed exactly where it is
/// held back for this owner in this generation.
pub proof fn law_handoff_is_of_one_generation(
    v: RuntimeView,
    sid: Seq<char>,
    owner: Seq<char>,
    epoch: i64,
    deadline: u128,
    negative: Seq<char>,
    fenced: Seq<char>,
)
    ensures
        ({
            let served = epoch >= 0 && v.owners.contains_key(sid) && v.owners[sid].node == owner && v.owners[sid].epoch
                == epoch;
            let held = epoch >= 0 && v.restoring.contains_key(sid) && v.restoring[sid].node == owner
                && v.restoring[sid].epoch == epoch;
            &&& withdrawn(v, sid, owner, epoch, negative, fenced) is Ok <==> served
            &&& restore_committed(v, sid, owner, epoch, deadline) is Ok <==> held
            &&& suspend_committed(v, sid, owner, epoch).1 is None <==> held
            &&& rollback_committed(v, sid, owner, epoch, deadline) is Ok <==> held || (served
                && !v.restoring.contains_key(sid))
            &&& epoch < 0 ==> suspend_committed(v, sid, owner, epoch).0 == v
        }),
{
}

/// What a handoff leads to: a withdrawn sandbox is held back in its generation and does
/// not serve; a committed restore or rollback serves in its generation until the
/// deadline and is held back no more; a committed suspend neither serves nor is held
/// back.
pub proof fn law_handoff_leads_to_its_state(
    v: RuntimeView,
    sid: Seq<char>,
    owner: Seq<char>,
    epoch: i64,
    deadline: u128,
    negative: Seq<char>,
    fenced: Seq<char>,
)
    ensures
        withdrawn(v, sid, owner, epoch, negative, fenced) matches Ok(w) ==> {
            &&& !w.owners.contains_key(sid)
            &&& w.restoring.contains_key(sid) && w.restoring[sid].node == owner && w.restoring[sid].epoch == epoch
            &&& !w.deadlines.contains_key(sid)
            &&& rollback_committed(w, sid, owner, epoch, deadline) is Ok
            &&& suspend_committed(w, sid, owner, epoch).1 is None
            &&& !suspend_committed(w, sid, owner, epoch).0.owners.contains_key(sid)
            &&& !suspend_committed(w, sid, owner, epoch).0.restoring.contains_key(sid)
        },
        restore_committed(v, sid, owner, epoch, deadline) matches Ok(w) ==> {
            &&& w.owners.contains_key(sid) && w.owners[sid].node == owner && w.owners[sid].epoch == epoch
            &&& !w.restoring.contains_key(sid)
            &&& w.deadlines.contains_key(sid) && w.deadlines[sid] == deadline
            &&& !w.resuming.contains((sid, owner, epoch as u64))
        },
        rollback_committed(v, sid, owner, epoch, deadline) matches Ok(w) ==> {
            &&& w.owners.contains_key(sid) && w.owners[sid].node == owner && w.owners[sid].epoch == epoch
            &&& !w.restoring.contains_key(sid)
            &&& w.deadlines.contains_key(sid) && w.deadlines[sid] == deadline
        },
        epoch >= 0 ==> !suspend_committed(v, sid, owner, epoch).0.restoring.contains_key(sid),
        suspend_committed(v, sid, owner, epoch).0.owners == v.owners,
{
}

/// A delete takes the sandbox out of service. Without a shared store it begins only
/// where the record is the claim's own; other sandboxes serve on.
pub proof fn law_delete_ends_service(
    v: RuntimeView,
    sid: Seq<char>,
    epoch: i64,
    clustered: bool,
    current: bool,
    other: Seq<char>,
)
    requires
        other != sid,
    ensures
        delete_begun(v, sid, epoch, clustered, current) is Ok <==> epoch >= 0 && (clustered || current),
        delete_begun(v, sid, epoch, clustered, current) matches Ok(w) ==> !w.owners.contains_key(sid)
            && w.owners.contains_key(other) == v.owners.contains_key(other) && w.owners[other] == v.owners[other]
            && w.restoring == v.restoring && w.fences == v.fences,
{
}

} // verus!
