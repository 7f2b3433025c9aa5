//! How long a node may serve: lease renewals, deadlines and fences.
use super::handoff::{owns, restores};
use super::{
    expired_owner_deadlines, fence_applies, fence_identity, fenced, known_epoch, owner_watchdog_deadline,
    pairs_of, renewal_failure_fences, watchdog_deadline, MeshRuntime, RuntimeView,
    WATCHDOG_MARGIN,
};
use crate::mesh::params::{i64_to_u64, is_staging, record_is_staging, signed, u64_to_i64, unsigned};
use crate::mesh::records::CreateRecord;
use crate::mesh::sets::{Owner, OwnerView};
use crate::text::{text_eq, texts};
use crate::textmap::{ascending, text_before, lemma_text_before_irreflexive, TextMap};
use vstd::prelude::*;

verus! {

/// What the shared store answered to a renewal: the time left of the lease, a
/// refusal, or nothing.
#[derive(Clone, Copy, Debug, PartialEq, Eq, Structural)]
pub enum LeaseReply {
    Granted(u64),
    Denied,
    Unreachable,
}

/// What became of setting the local watchdog.
#[derive(Clone, Copy, Debug, PartialEq, Eq, Structural)]
pub enum Arming {
    Armed,
    NotRunning,
    Failed,
}

/// A renewal that has come back. `staged` says whether the store holds a suspend
/// or rollback marker for the sandbox, `running` whether a local candidate runs,
/// and `record` is the sandbox's durable record.
pub struct RenewalReport {
    pub sid: String,
    pub owner: String,
    pub epoch: u64,
    pub started: u64,
    pub reply: LeaseReply,
    pub arming: Arming,
    pub staged: bool,
    pub running: bool,
    pub record: Option<CreateRecord>,
    pub now: u128,
}

/// Whether `record` says that the claim serves: it names the claim and holds
/// nothing staged.
pub open spec fn confirms(record: Option<CreateRecord>, claim: OwnerView) -> bool {
    record is Some && record->0@.owner == claim.node && record->0@.epoch == signed(claim.epoch) && !is_staging(
        record->0@.params,
    )
}

/// The state once a renewal was evaluated, and whether a teardown starts.
pub open spec fn renewal_settled(v: RuntimeView, r: RenewalReport) -> (RuntimeView, bool) {
    let sid = r.sid@;
    let claim = OwnerView { node: r.owner@, epoch: r.epoch };
    let w = RuntimeView { renewing: v.renewing.remove((sid, v.node, r.epoch)), ..v };
    let fence = (fenced(w, sid, r.epoch), fence_applies(w, sid, r.epoch));
    if !owns(w, sid, claim) && !restores(w, sid, claim) {
        (w, false)
    } else {
        match r.reply {
            LeaseReply::Granted(ttl) => match watchdog_deadline(r.started, Some(ttl)) {
                None => fence,
                Some(deadline) => if r.arming == Arming::Armed && deadline > r.now {
                    let armed = RuntimeView { deadlines: w.deadlines.insert(sid, deadline), ..w };
                    if restores(w, sid, claim) && !r.staged && r.running && confirms(r.record, claim) {
                        (
                            RuntimeView {
                                owners: armed.owners.insert(sid, claim),
                                restoring: armed.restoring.remove(sid),
                                ..armed
                            },
                            false,
                        )
                    } else {
                        (armed, false)
                    }
                } else if r.arming == Arming::NotRunning && restores(w, sid, claim) {
                    if !r.staged && confirms(r.record, claim) {
                        (
                            RuntimeView {
                                restoring: w.restoring.remove(sid),
                                orphans: w.orphans.push((sid, r.owner@)),
                                ..w
                            },
                            false,
                        )
                    } else {
                        (RuntimeView { deadlines: w.deadlines.insert(sid, deadline), ..w }, false)
                    }
                } else {
                    fence
                },
            },
            LeaseReply::Denied => fence,
            LeaseReply::Unreachable => if !w.deadlines.contains_key(sid) || w.deadlines[sid] <= r.now {
                fence
            } else {
                (w, false)
            },
        }
    }
}

/// Whether the deadline of `sid` is over.
pub open spec fn overdue(v: RuntimeView, now: u128, sid: Seq<char>) -> bool {
    v.deadlines.contains_key(sid) && v.deadlines[sid] <= now
}

/// Whether the deadline of `sid` is over and its generation has to be torn down.
pub open spec fn stops(v: RuntimeView, now: u128, sid: Seq<char>) -> bool {
    overdue(v, now, sid) && known_epoch(v, sid) is Some && !v.fences.contains_key(sid)
}

/// The state once the deadlines of the sandboxes in `done` were looked at.
pub open spec fn deadlines_enforced(v: RuntimeView, now: u128, done: Set<Seq<char>>) -> RuntimeView {
    RuntimeView {
        deadlines: v.deadlines.restrict(Set::new(|sid: Seq<char>| !(done.contains(sid) && overdue(v, now, sid)))),
        owners: v.owners.restrict(Set::new(|sid: Seq<char>| !(done.contains(sid) && stops(v, now, sid)))),
        restoring: v.restoring.restrict(
            Set::new(|sid: Seq<char>| !(done.contains(sid) && stops(v, now, sid))),
        ),
        fences: v.fences.union_prefer_right(
            Map::new(
                |sid: Seq<char>| done.contains(sid) && stops(v, now, sid),
                |sid: Seq<char>| known_epoch(v, sid)->0,
            ),
        ),
        ..v
    }
}

/// The claims of the node itself, by sandbox: a generation being restored
/// stands before a serving one.
pub open spec fn local_claims(v: RuntimeView) -> Map<Seq<char>, OwnerView> {
    v.owners.restrict(
        Set::new(|sid: Seq<char>| v.owners.contains_key(sid) && v.owners[sid].node == v.node),
    ).union_prefer_right(
        v.restoring.restrict(
            Set::new(|sid: Seq<char>| v.restoring.contains_key(sid) && v.restoring[sid].node == v.node),
        ),
    )
}

/// What a renewal round does with a claim of the node.
#[derive(Clone, Copy, Debug, PartialEq, Eq, Structural)]
pub enum RenewalTurn {
    /// A rollback owns the generation; nothing is renewed.
    Skip,
    /// The deadline is over; says whether a teardown starts.
    Fence(bool),
    /// The lease has to be renewed.
    Renew,
}

/// What a renewal round does with the claim on `sid` in generation `epoch`, and the state
/// after that.
pub open spec fn turn_taken(
    v: RuntimeView,
    sid: Seq<char>,
    epoch: u64,
    rollback_marked: bool,
    now: u128,
) -> (RenewalTurn, RuntimeView) {
    if rollback_marked {
        (RenewalTurn::Skip, RuntimeView { deadlines: v.deadlines.remove(sid), ..v })
    } else if overdue(v, now, sid) {
        (RenewalTurn::Fence(fence_applies(v, sid, epoch)), fenced(v, sid, epoch))
    } else {
        (RenewalTurn::Renew, v)
    }
}

/// Until when a claim that was made may serve: with a shared store on the lease that the
/// store left and the watchdog was armed with, without one on the default lease.
pub open spec fn lease_claimed(
    clustered: bool,
    request_started: u64,
    now: u64,
    default_ttl: u64,
    renewal: Option<u64>,
    armed: bool,
) -> Option<u128> {
    if clustered {
        if armed {
            watchdog_deadline(request_started, renewal)
        } else {
            None
        }
    } else {
        Some(
            (now + if default_ttl > WATCHDOG_MARGIN {
                default_ttl - WATCHDOG_MARGIN
            } else {
                0
            }) as u128,
        )
    }
}

/// The lease of a claim that `node` made at `started`: nothing where a shared
/// store refused it or the watchdog could not be armed.
pub fn claimed_lease(
    clustered: bool,
    request_started: u64,
    now: u64,
    default_ttl: u64,
    renewal: Option<u64>,
    armed: bool,
) -> (r: Option<u128>)
    ensures
        r == lease_claimed(clustered, request_started, now, default_ttl, renewal, armed),
{
    if clustered {
        if armed {
            owner_watchdog_deadline(request_started, renewal)
        } else {
            None
        }
    } else {
        let lease: u64 = if default_ttl > WATCHDOG_MARGIN {
            default_ttl - WATCHDOG_MARGIN
        } else {
            0
        };
        Some(now as u128 + lease as u128)
    }
}

/// The state once `node` was reported to own `sid`. A claim of the node itself
/// without a lease is held back; an older generation than the known one is
/// ignored.
pub open spec fn owner_recorded(
    v: RuntimeView,
    sid: Seq<char>,
    claim: OwnerView,
    lease: Option<u128>,
    now: u128,
) -> RuntimeView {
    let local = claim.node == v.node;
    if local && lease is None {
        RuntimeView {
            restoring: v.restoring.insert(sid, claim),
            deadlines: v.deadlines.insert(sid, now),
            owners: v.owners.remove(sid),
            ..v
        }
    } else if v.owners.contains_key(sid) && claim.epoch < v.owners[sid].epoch {
        v
    } else if local {
        RuntimeView {
            owners: v.owners.insert(sid, claim),
            deadlines: v.deadlines.insert(sid, lease->0),
            ..v
        }
    } else {
        RuntimeView { owners: v.owners.insert(sid, claim), ..v }
    }
}

/// `list` with each sandbox of `sids` that is not yet there, left by `dead`.
pub open spec fn orphans_added(
    list: Seq<(Seq<char>, Seq<char>)>,
    sids: Seq<Seq<char>>,
    dead: Seq<char>,
) -> Seq<(Seq<char>, Seq<char>)>
    decreases sids.len(),
{
    if sids.len() == 0 {
        list
    } else {
        let rest = orphans_added(list, sids.drop_last(), dead);
        if rest.contains((sids.last(), dead)) {
            rest
        } else {
            rest.push((sids.last(), dead))
        }
    }
}

impl MeshRuntime {
    /// Notes that a renewal is on its way; `false` where one already is, or where
    /// there is no shared store to renew with.
    pub fn begin_renewal(&mut self, sid: &str, epoch: u64, clustered: bool) -> (r: bool)
        ensures
            r == (clustered && !old(self)@.renewing.contains((sid@, old(self)@.node, epoch))),
            final(self)@ == if r {
                RuntimeView { renewing: old(self)@.renewing.insert((sid@, old(self)@.node, epoch)), ..old(self)@ }
            } else {
                old(self)@
            },
    {
        if !clustered {
            return false;
        }
        let node = self.node_id.clone();
        if self.renewing.contains(sid, node.as_str(), epoch) {
            return false;
        }
        self.renewing.insert(sid, node.as_str(), epoch);
        true
    }

    /// Evaluates a renewal; `true` says that a teardown has to be started.
    pub fn settle_renewal(&mut self, report: &RenewalReport) -> (r: bool)
        ensures
            (final(self)@, r) == renewal_settled(old(self)@, *report),
    {
        let sid = report.sid.as_str();
        let owner = report.owner.as_str();
        let epoch = report.epoch;
        let node = self.node_id.clone();
        self.renewing.remove(sid, node.as_str(), epoch);
        let is_serving = match self.owners.get(sid) {
            Some(o) => o.is(owner, epoch),
            None => false,
        };
        let is_restoring = match self.restoring.get(sid) {
            Some(o) => o.is(owner, epoch),
            None => false,
        };
        if !is_serving && !is_restoring {
            return false;
        }
        let confirmed = match &report.record {
            Some(record) => record.owned_by(owner, u64_to_i64(epoch)) && !record_is_staging(&record.params),
            None => false,
        };
        match report.reply {
            LeaseReply::Granted(ttl) => {
                let deadline: u128 = match owner_watchdog_deadline(report.started, Some(ttl)) {
                    Some(d) => d,
                    None => return self.schedule_fence(sid, epoch),
                };
                if report.arming == Arming::Armed && deadline > report.now {
                    self.deadlines.insert(sid.to_owned(), deadline);
                    if is_restoring && !report.staged && report.running && confirmed {
                        self.owners.insert(sid.to_owned(), Owner::new(owner, epoch));
                        self.restoring.remove(sid);
                    }
                    false
                } else if report.arming == Arming::NotRunning && is_restoring {
                    if !report.staged && confirmed {
                        self.restoring.remove(sid);
                        self.push_orphan(sid, owner);
                    } else {
                        self.deadlines.insert(sid.to_owned(), deadline);
                    }
                    false
                } else {
                    self.schedule_fence(sid, epoch)
                }
            },
            LeaseReply::Denied => self.schedule_fence(sid, epoch),
            LeaseReply::Unreachable => {
                let deadline = match self.deadlines.get(sid) {
                    Some(d) => Some(*d),
                    None => None,
                };
                if renewal_failure_fences(report.now, deadline, false) {
                    self.schedule_fence(sid, epoch)
                } else {
                    false
                }
            },
        }
    }

    /// Looks at every deadline: those that are over are dropped, and what they
    /// guarded is fenced. Returns the sandboxes whose teardown has to be started.
    pub fn enforce_deadlines(&mut self, now: u128) -> (r: Vec<String>)
        ensures
            final(self)@ == deadlines_enforced(old(self)@, now, Set::full()),
            ascending(texts(r@)),
            forall|sid: Seq<char>| #[trigger] texts(r@).contains(sid) <==> stops(old(self)@, now, sid),
    {
        let ghost v = self@;
        let expired = expired_owner_deadlines(now, &self.deadlines);
        let ghost names = texts(expired@);
        let mut out: Vec<String> = Vec::new();
        let ghost done: Set<Seq<char>> = Set::empty();
        let mut i: usize = 0;
        proof {
            assert(self@ =~= deadlines_enforced(v, now, done));
            assert(texts(out@) =~= Seq::empty());
        }
        while i < expired.len()
            invariant
                i <= expired@.len(),
                names == texts(expired@),
                ascending(names),
                forall|sid: Seq<char>| #[trigger] names.contains(sid) <==> overdue(v, now, sid),
                forall|sid: Seq<char>| done.contains(sid) <==> exists|j: int| 0 <= j < i && names[j] == sid,
                self@ == deadlines_enforced(v, now, done),
                ascending(texts(out@)),
                forall|sid: Seq<char>| #[trigger]
                    texts(out@).contains(sid) <==> done.contains(sid) && stops(v, now, sid),
            decreases expired@.len() - i,
        {
            let sid = expired[i].as_str();
            let ghost key = sid@;
            let ghost before = out@;
            let ghost w = self@;
            proof {
                assert(names[i as int] == key);
                assert(names.contains(key));
                assert(!done.contains(key)) by {
                    if done.contains(key) {
                        let j = choose|j: int| 0 <= j < i && names[j] == key;
                        assert(text_before(names[j], names[i as int]));
                        lemma_text_before_irreflexive(key);
                    }
                }
                assert(w.owners.contains_key(key) == v.owners.contains_key(key));
                assert(w.restoring.contains_key(key) == v.restoring.contains_key(key));
                assert(w.fences.contains_key(key) == v.fences.contains_key(key));
            }
            self.deadlines.remove(sid);
            let ghost next = done.insert(key);
            match fence_identity(sid, &self.owners, &self.restoring) {
                Some(identity) => {
                    let starts = self.schedule_fence(sid, identity.epoch);
                    proof {
                        assert(starts == stops(v, now, key));
                    }
                    if starts {
                        out.push(expired[i].clone());
                    }
                },
                None => {},
            }
            proof {
                assert(self@ =~= deadlines_enforced(v, now, next));
                assert forall|sid: Seq<char>| next.contains(sid) <==> exists|j: int|
                    0 <= j < i + 1 && names[j] == sid by {
                    if next.contains(sid) {
                        if sid == key {
                            assert(names[i as int] == sid);
                        } else {
                            let j = choose|j: int| 0 <= j < i && names[j] == sid;
                            assert(names[j] == sid);
                        }
                    }
                }
                if stops(v, now, key) {
                    assert(texts(out@) =~= texts(before).push(key));
                    assert forall|x: int, y: int| 0 <= x < y < texts(out@).len() implies text_before(
                        #[trigger] texts(out@)[x],
                        #[trigger] texts(out@)[y],
                    ) by {
                        if y == before.len() {
                            assert(texts(before).contains(texts(before)[x]));
                            let j = choose|j: int| 0 <= j < i && names[j] == texts(before)[x];
                            assert(text_before(names[j], names[i as int]));
                        } else {
                            assert(texts(before)[x] == texts(out@)[x] && texts(before)[y] == texts(out@)[y]);
                        }
                    }
                    assert forall|sid: Seq<char>| #[trigger]
                        texts(out@).contains(sid) <==> next.contains(sid) && stops(v, now, sid) by {
                        if texts(out@).contains(sid) && sid != key {
                            let x = choose|x: int| 0 <= x < texts(out@).len() && texts(out@)[x] == sid;
                            assert(texts(before)[x] == sid);
                            assert(texts(before).contains(sid));
                        }
                        if next.contains(sid) && stops(v, now, sid) {
                            if sid == key {
                                assert(texts(out@)[before.len() as int] == sid);
                            } else {
                                assert(texts(before).contains(sid));
                                let x = choose|x: int| 0 <= x < texts(before).len() && texts(before)[x] == sid;
                                assert(texts(out@)[x] == sid);
                            }
                        }
                    }
                } else {
                    assert(texts(out@) == texts(before));
                }
                done = next;
            }
            i = i + 1;
        }
        proof {
            assert forall|sid: Seq<char>| overdue(v, now, sid) implies done.contains(sid) by {
                assert(names.contains(sid));
                let j = choose|j: int| 0 <= j < names.len() && names[j] == sid;
                assert(names[j] == sid);
            }
            assert(deadlines_enforced(v, now, done) =~= deadlines_enforced(v, now, Set::full()));
        }
        out
    }

    /// The claims that a renewal round looks at.
    pub fn renewal_candidates(&self) -> (r: TextMap<Owner>)
        ensures
            r@ == local_claims(self@),
    {
        let mut out: TextMap<Owner> = TextMap::new();
        let mut k: usize = 0;
        while k < 2
            invariant
                k <= 2,
                out@ == if k == 0 {
                    Map::<Seq<char>, OwnerView>::empty()
                } else if k == 1 {
                    mine(self.owners@, self.node_id@)
                } else {
                    mine(self.owners@, self.node_id@).union_prefer_right(
                        mine(self.restoring@, self.node_id@),
                    )
                },
            decreases 2 - k,
        {
            let source = if k == 0 {
                &self.owners
            } else {
                &self.restoring
            };
            let ghost base = out@;
            let n = source.len();
            let mut i: usize = 0;
            let ghost seen: Set<Seq<char>> = Set::empty();
            proof {
                assert(base =~= base.union_prefer_right(mine(source@, self.node_id@).restrict(seen)));
            }
            while i < n
                invariant
                    i <= n == source.keys().len(),
                    ascending(source.keys()),
                    forall|key: Seq<char>| source@.contains_key(key) <==> source.keys().contains(key),
                    forall|key: Seq<char>|
                        seen.contains(key) <==> exists|j: int| 0 <= j < i && source.keys()[j] == key,
                    out@ == base.union_prefer_right(mine(source@, self.node_id@).restrict(seen)),
                decreases n - i,
            {
                let ghost key = source.keys()[i as int];
                let ghost before = out@;
                let claim = source.value_at(i);
                if text_eq(claim.node.as_str(), self.node_id.as_str()) {
                    out.insert(source.key_at(i).clone(), claim.copy());
                }
                proof {
                    let next = seen.insert(key);
                    assert forall|q: Seq<char>| next.contains(q) <==> exists|j: int|
                        0 <= j < i + 1 && source.keys()[j] == q by {
                        if next.contains(q) {
                            if q == key {
                                assert(source.keys()[i as int] == q);
                            } else {
                                let j = choose|j: int| 0 <= j < i && source.keys()[j] == q;
                                assert(source.keys()[j] == q);
                            }
                        }
                    }
                    assert(out@ =~= base.union_prefer_right(mine(source@, self.node_id@).restrict(next)));
                    seen = next;
                }
                i = i + 1;
            }
            proof {
                assert forall|q: Seq<char>| source@.contains_key(q) implies seen.contains(q) by {
                    assert(source.keys().contains(q));
                    let j = choose|j: int| 0 <= j < source.keys().len() && source.keys()[j] == q;
                    assert(source.keys()[j] == q);
                }
                assert(mine(source@, self.node_id@).restrict(seen) =~= mine(source@, self.node_id@));
                if k == 0 {
                    assert(out@ =~= mine(self.owners@, self.node_id@));
                }
            }
            k = k + 1;
        }
        assert(out@ =~= local_claims(self@));
        out
    }

    /// What a renewal round does with the claim on `sid` in generation `epoch`.
    pub fn renewal_turn(&mut self, sid: &str, epoch: u64, rollback_marked: bool, now: u128) -> (r: RenewalTurn)
        ensures
            (r, final(self)@) == turn_taken(old(self)@, sid@, epoch, rollback_marked, now),
    {
        if rollback_marked {
            self.deadlines.remove(sid);
            return RenewalTurn::Skip;
        }
        let over = match self.deadlines.get(sid) {
            Some(d) => *d <= now,
            None => false,
        };
        if over {
            return RenewalTurn::Fence(self.schedule_fence(sid, epoch));
        }
        RenewalTurn::Renew
    }

    /// Takes note that `node_id` owns `sid` in generation `epoch`. For a claim of
    /// this node, `lease` says until when it may serve.
    pub fn record_owner(&mut self, sid: &str, node_id: &str, epoch: i64, lease: Option<u128>, now: u128)
        ensures
            final(self)@ == owner_recorded(
                old(self)@,
                sid@,
                OwnerView { node: node_id@, epoch: unsigned(epoch) },
                lease,
                now,
            ),
    {
        let generation = i64_to_u64(epoch);
        let local = text_eq(node_id, self.node_id.as_str());
        if local && lease.is_none() {
            self.restoring.insert(sid.to_owned(), Owner::new(node_id, generation));
            self.deadlines.insert(sid.to_owned(), now);
            self.owners.remove(sid);
            return;
        }
        let accept = match self.owners.get(sid) {
            Some(o) => generation >= o.epoch,
            None => true,
        };
        if accept {
            self.owners.insert(sid.to_owned(), Owner::new(node_id, generation));
            if local {
                if let Some(deadline) = lease {
                    self.deadlines.insert(sid.to_owned(), deadline);
                }
            }
        }
    }

    /// Drops what is known about the serving owner of `sid`.
    pub fn forget_owner(&mut self, sid: &str)
        ensures
            final(self)@ == (RuntimeView { owners: old(self)@.owners.remove(sid@), ..old(self)@ }),
    {
        self.owners.remove(sid);
    }

    /// The serving owner of `sid`.
    pub fn current_owner(&self, sid: &str) -> (r: Option<(String, i64)>)
        ensures
            match r {
                Some((node, epoch)) => self@.owners.contains_key(sid@) && self@.owners[sid@].node == node@
                    && epoch == signed(self@.owners[sid@].epoch),
                None => !self@.owners.contains_key(sid@),
            },
    {
        match self.owners.get(sid) {
            Some(o) => Some((o.node.clone(), u64_to_i64(o.epoch))),
            None => None,
        }
    }

    /// The generation in which `sid` is served; zero where it is not.
    pub fn local_epoch(&self, sid: &str) -> (r: u64)
        ensures
            r == if self@.owners.contains_key(sid@) {
                self@.owners[sid@].epoch
            } else {
                0
            },
    {
        match self.owners.get(sid) {
            Some(o) => o.epoch,
            None => 0,
        }
    }

    fn orphan_known(&self, sid: &str, dead: &str) -> (r: bool)
        ensures
            r == self@.orphans.contains((sid@, dead@)),
    {
        let mut i: usize = 0;
        while i < self.orphans.len()
            invariant
                i <= self.orphans@.len(),
                forall|j: int| 0 <= j < i ==> #[trigger] pairs_of(self.orphans@)[j] != (sid@, dead@),
            decreases self.orphans@.len() - i,
        {
            if text_eq(self.orphans[i].0.as_str(), sid) && text_eq(self.orphans[i].1.as_str(), dead) {
                assert(pairs_of(self.orphans@)[i as int] == (sid@, dead@));
                return true;
            }
            i = i + 1;
        }
        false
    }

    /// The sandboxes that the node knows to be served by `node`, in order.
    pub fn owned_by(&self, node: &str) -> (r: Vec<String>)
        ensures
            ascending(texts(r@)),
            forall|sid: Seq<char>| #[trigger]
                texts(r@).contains(sid) <==> self@.owners.contains_key(sid) && self@.owners[sid].node == node@,
    {
        let mut hits: TextMap<bool> = TextMap::new();
        let n = self.owners.len();
        let mut i: usize = 0;
        while i < n
            invariant
                i <= n == self.owners.keys().len(),
                forall|k: Seq<char>| self.owners@.contains_key(k) <==> self.owners.keys().contains(k),
                forall|k: Seq<char>|
                    hits@.contains_key(k) <==> self.owners@.contains_key(k) && self.owners@[k].node == node@
                        && exists|j: int| 0 <= j < i && self.owners.keys()[j] == k,
            decreases n - i,
        {
            let ghost key = self.owners.keys()[i as int];
            let ghost before = hits@;
            let claim = self.owners.value_at(i);
            if text_eq(claim.node.as_str(), node) {
                hits.insert(self.owners.key_at(i).clone(), true);
            }
            proof {
                assert forall|k: Seq<char>|
                    hits@.contains_key(k) <==> self.owners@.contains_key(k) && self.owners@[k].node == node@
                        && exists|j: int| 0 <= j < i + 1 && self.owners.keys()[j] == k by {
                    if hits@.contains_key(k) {
                        if k == key {
                            assert(self.owners.keys()[i as int] == k);
                        } else {
                            assert(before.contains_key(k));
                            let j = choose|j: int| 0 <= j < i && self.owners.keys()[j] == k;
                            assert(self.owners.keys()[j] == k);
                        }
                    }
                }
            }
            i = i + 1;
        }
        proof {
            assert forall|k: Seq<char>| self.owners@.contains_key(k) implies exists|j: int|
                0 <= j < i && self.owners.keys()[j] == k by {
                assert(self.owners.keys().contains(k));
                let j = choose|j: int| 0 <= j < self.owners.keys().len() && self.owners.keys()[j] == k;
                assert(self.owners.keys()[j] == k);
            }
        }
        hits.key_list()
    }

    /// Queues the sandboxes `owned` of the dead node `dead` for recovery, each
    /// once.
    pub fn record_orphans(&mut self, dead: &str, owned: &Vec<String>)
        ensures
            final(self)@ == (RuntimeView {
                orphans: orphans_added(old(self)@.orphans, texts(owned@), dead@),
                ..old(self)@
            }),
    {
        let mut i: usize = 0;
        let ghost names = texts(owned@);
        assert(names.take(0) =~= Seq::empty());
        while i < owned.len()
            invariant
                i <= owned@.len(),
                names == texts(owned@),
                self@ == (RuntimeView {
                    orphans: orphans_added(old(self)@.orphans, names.take(i as int), dead@),
                    ..old(self)@
                }),
            decreases owned@.len() - i,
        {
            assert(names.take(i + 1).drop_last() =~= names.take(i as int));
            assert(names.take(i + 1).last() == owned@[i as int]@);
            if !self.orphan_known(owned[i].as_str(), dead) {
                self.push_orphan(owned[i].as_str(), dead);
            }
            i = i + 1;
        }
        assert(names.take(i as int) =~= names);
    }

    /// Queues every sandbox of the dead node `dead` for recovery, each once.
    /// `owned` lists them where a shared store knows them; otherwise what the node
    /// knows itself counts.
    pub fn record_orphan_for_dead_owner(&mut self, dead: &str, owned: Option<Vec<String>>)
        ensures
            final(self)@ == (RuntimeView { orphans: final(self)@.orphans, ..old(self)@ }),
            owned is Some ==> final(self)@.orphans == orphans_added(
                old(self)@.orphans,
                texts(owned->0@),
                dead@,
            ),
            owned is None ==> exists|sids: Seq<Seq<char>>|
                ascending(sids) && (forall|sid: Seq<char>| #[trigger]
                    sids.contains(sid) <==> old(self)@.owners.contains_key(sid) && old(self)@.owners[sid].node
                        == dead@) && final(self)@.orphans == #[trigger] orphans_added(
                    old(self)@.orphans,
                    sids,
                    dead@,
                ),
    {
        match owned {
            Some(sids) => self.record_orphans(dead, &sids),
            None => {
                let sids = self.owned_by(dead);
                self.record_orphans(dead, &sids);
            },
        }
    }

    /// Hands out the sandboxes that wait for recovery; the queue is empty then.
    pub fn drain_orphans(&mut self) -> (r: Vec<(String, String)>)
        ensures
            pairs_of(r@) == old(self)@.orphans,
            final(self)@ == (RuntimeView { orphans: Seq::empty(), ..old(self)@ }),
    {
        let mut out: Vec<(String, String)> = Vec::new();
        core::mem::swap(&mut out, &mut self.orphans);
        assert(pairs_of(self.orphans@) =~= Seq::empty());
        out
    }

    /// Puts a sandbox back into the recovery queue.
    pub fn requeue_orphan(&mut self, sid: &str, dead: &str)
        ensures
            final(self)@ == (RuntimeView { orphans: old(self)@.orphans.push((sid@, dead@)), ..old(self)@ }),
    {
        self.push_orphan(sid, dead);
    }
}

/// The entries of `claims` that belong to `node`.
pub open spec fn mine(claims: Map<Seq<char>, OwnerView>, node: Seq<char>) -> Map<Seq<char>, OwnerView> {
    claims.restrict(Set::new(|sid: Seq<char>| claims.contains_key(sid) && claims[sid].node == node))
}

/// A sandbox whose deadline is over does not serve once deadlines were enforced,
/// whether or not another generation of it is being restored, and cannot be handed
/// on before its teardown was confirmed. (Where a teardown is already under way, no
/// second one is begun.)
pub proof fn law_no_service_past_deadline(v: RuntimeView, now: u128, sid: Seq<char>)
    requires
        overdue(v, now, sid),
        v.owners.contains_key(sid),
        !v.fences.contains_key(sid),
    ensures
        ({
            let w = deadlines_enforced(v, now, Set::full());
            &&& stops(v, now, sid)
            &&& !w.owners.contains_key(sid)
            &&& !w.restoring.contains_key(sid)
            &&& !w.deadlines.contains_key(sid)
            &&& w.fences.contains_key(sid)
            &&& Some(w.fences[sid]) == known_epoch(v, sid)
        }),
{
}

/// A deadline that is not over takes nothing away.
pub proof fn law_time_left_keeps_serving(v: RuntimeView, now: u128, sid: Seq<char>)
    requires
        !overdue(v, now, sid),
    ensures
        ({
            let w = deadlines_enforced(v, now, Set::full());
            &&& w.owners.contains_key(sid) == v.owners.contains_key(sid)
            &&& v.owners.contains_key(sid) ==> w.owners[sid] == v.owners[sid]
            &&& w.fences.contains_key(sid) == v.fences.contains_key(sid)
        }),
{
}

/// A claim that the store refuses to renew stops serving at once. (Where another
/// generation is being restored, a fence would be for that one.)
pub proof fn law_refused_renewal_stops_service(v: RuntimeView, r: RenewalReport)
    requires
        r.reply == LeaseReply::Denied,
        owns(v, r.sid@, OwnerView { node: r.owner@, epoch: r.epoch }),
        known_epoch(v, r.sid@) == Some(r.epoch),
        !v.fences.contains_key(r.sid@),
    ensures
        !renewal_settled(v, r).0.owners.contains_key(r.sid@),
        renewal_settled(v, r).1,
{
}

/// A renewal for a generation that the node no longer knows changes nothing but
/// that it is no longer under way.
pub proof fn law_late_renewal_is_ignored(v: RuntimeView, r: RenewalReport)
    requires
        !owns(v, r.sid@, OwnerView { node: r.owner@, epoch: r.epoch }),
        !restores(v, r.sid@, OwnerView { node: r.owner@, epoch: r.epoch }),
    ensures
        renewal_settled(v, r) == (
            (RuntimeView { renewing: v.renewing.remove((r.sid@, v.node, r.epoch)), ..v }),
            false,
        ),
{
}

/// The known generation of a served sandbox never goes back.
pub proof fn law_reported_owner_never_goes_back(
    v: RuntimeView,
    sid: Seq<char>,
    claim: OwnerView,
    lease: Option<u128>,
    now: u128,
)
    ensures
        ({
            let w = owner_recorded(v, sid, claim, lease, now);
            v.owners.contains_key(sid) && w.owners.contains_key(sid) ==> w.owners[sid].epoch
                >= v.owners[sid].epoch
        }),
{
}

/// A claim that is being restored goes into service when its renewal is granted and
/// its watchdog armed with time left, its candidate runs, no suspend or rollback is
/// marked for it and its durable record names it with nothing staged: it serves
/// afterwards until the margin before the lease ends, and is no longer restoring.
pub proof fn law_granted_restore_goes_into_service(v: RuntimeView, r: RenewalReport, ttl: u64)
    requires
        v.restoring.contains_key(r.sid@),
        v.restoring[r.sid@] == (OwnerView { node: r.owner@, epoch: r.epoch }),
        r.reply == LeaseReply::Granted(ttl),
        ttl > 5_000_000_000,
        r.arming == Arming::Armed,
        r.now < r.started + ttl - 5_000_000_000,
        !r.staged,
        r.running,
        r.record is Some,
        r.record->0@.owner == r.owner@,
        r.record->0@.epoch == signed(r.epoch),
        !is_staging(r.record->0@.params),
    ensures
        ({
            let (w, torn_down) = renewal_settled(v, r);
            &&& w.owners.contains_key(r.sid@)
            &&& w.owners[r.sid@] == (OwnerView { node: r.owner@, epoch: r.epoch })
            &&& !w.restoring.contains_key(r.sid@)
            &&& w.deadlines.contains_key(r.sid@)
            &&& w.deadlines[r.sid@] == r.started + ttl - 5_000_000_000
            &&& w.fences == v.fences
            &&& w.orphans == v.orphans
            &&& !torn_down
        }),
{
}

/// Settling a renewal puts a sandbox into service only then: whatever serves
/// afterwards and did not before was being restored under a granted and armed lease
/// that still runs, with its candidate running, nothing marked in the store, and a
/// durable record that names it with nothing staged.
pub proof fn law_renewal_serves_only_the_committed(v: RuntimeView, r: RenewalReport, sid: Seq<char>)
    requires
        renewal_settled(v, r).0.owners.contains_key(sid),
        !v.owners.contains_key(sid) || v.owners[sid] != renewal_settled(v, r).0.owners[sid],
    ensures
        sid == r.sid@,
        v.restoring.contains_key(sid),
        v.restoring[sid] == (OwnerView { node: r.owner@, epoch: r.epoch }),
        renewal_settled(v, r).0.owners[sid] == v.restoring[sid],
        r.reply is Granted,
        r.arming == Arming::Armed,
        !r.staged,
        r.running,
        r.record is Some,
        r.record->0@.owner == r.owner@,
        r.record->0@.epoch == signed(r.epoch),
        !is_staging(r.record->0@.params),
        r.now < r.started + r.reply->Granted_0,
{
}

/// Where a suspend or rollback is marked, settling a renewal never makes a claim that
/// is being restored a serving one, nor drops it for recovery: it stays held back, or
/// is fenced.
pub proof fn law_marked_claim_is_held_back(v: RuntimeView, r: RenewalReport)
    requires
        r.staged,
        v.restoring.contains_key(r.sid@),
        !v.owners.contains_key(r.sid@),
    ensures
        ({
            let (w, torn_down) = renewal_settled(v, r);
            &&& !w.owners.contains_key(r.sid@)
            &&& w.orphans == v.orphans
            &&& (w.restoring.contains_key(r.sid@) && w.restoring[r.sid@] == v.restoring[r.sid@]) || (torn_down
                && w.fences.contains_key(r.sid@))
        }),
{
}

/// A serving claim whose renewal is granted and armed goes on serving, now until the
/// margin before the renewed lease ends.
pub proof fn law_renewed_claim_serves_on(v: RuntimeView, r: RenewalReport, ttl: u64)
    requires
        v.owners.contains_key(r.sid@),
        v.owners[r.sid@] == (OwnerView { node: r.owner@, epoch: r.epoch }),
        r.reply == LeaseReply::Granted(ttl),
        ttl > 5_000_000_000,
        r.arming == Arming::Armed,
        r.now < r.started + ttl - 5_000_000_000,
    ensures
        ({
            let (w, torn_down) = renewal_settled(v, r);
            &&& w.owners.contains_key(r.sid@)
            &&& w.owners[r.sid@] == v.owners[r.sid@]
            &&& w.deadlines.contains_key(r.sid@)
            &&& w.deadlines[r.sid@] == r.started + ttl - 5_000_000_000
            &&& !torn_down
        }),
{
}

/// A serving claim that loses its lease, or whose granted lease has no time left or
/// finds no watchdog, stops serving at once and is torn down in its generation. Where
/// the store cannot be reached it serves on exactly as long as its deadline runs.
pub proof fn law_claim_without_lease_is_fenced(v: RuntimeView, r: RenewalReport)
    requires
        v.owners.contains_key(r.sid@),
        v.owners[r.sid@] == (OwnerView { node: r.owner@, epoch: r.epoch }),
        !v.restoring.contains_key(r.sid@),
        !v.fences.contains_key(r.sid@),
    ensures
        ({
            let (w, torn_down) = renewal_settled(v, r);
            let lost = match r.reply {
                LeaseReply::Denied => true,
                LeaseReply::Unreachable => !v.deadlines.contains_key(r.sid@) || v.deadlines[r.sid@] <= r.now,
                LeaseReply::Granted(ttl) => r.arming != Arming::Armed || ttl == 0 || r.now >= r.started + ttl,
            };
            &&& lost ==> !w.owners.contains_key(r.sid@) && w.fences.contains_key(r.sid@) && w.fences[r.sid@] == r.epoch
                && !w.deadlines.contains_key(r.sid@) && torn_down
            &&& r.reply is Unreachable && !lost ==> !torn_down && w.owners == v.owners && w.deadlines == v.deadlines
            &&& w.owners.contains_key(r.sid@) ==> w.deadlines.contains_key(r.sid@) && w.deadlines[r.sid@] > r.now
        }),
{
}

/// A claim that is being restored and does not run, whose lease is renewed and whose
/// record names it with nothing staged or marked, is left for recovery.
pub proof fn law_stopped_restore_is_left_for_recovery(v: RuntimeView, r: RenewalReport)
    requires
        v.restoring.contains_key(r.sid@),
        v.restoring[r.sid@] == (OwnerView { node: r.owner@, epoch: r.epoch }),
        r.reply is Granted,
        r.reply->Granted_0 > 0,
        r.arming == Arming::NotRunning,
    ensures
        ({
            let (w, torn_down) = renewal_settled(v, r);
            let committed = !r.staged && r.record is Some && r.record->0@.owner == r.owner@ && r.record->0@.epoch
                == signed(r.epoch) && !is_staging(r.record->0@.params);
            &&& !torn_down
            &&& w.owners == v.owners
            &&& committed ==> !w.restoring.contains_key(r.sid@) && w.orphans == v.orphans.push((r.sid@, r.owner@))
            &&& !committed ==> w.restoring == v.restoring && w.orphans == v.orphans && w.deadlines.contains_key(
                r.sid@,
            )
        }),
{
}

/// A renewal concerns its own sandbox only, and is no longer under way.
pub proof fn law_renewal_leaves_others_alone(v: RuntimeView, r: RenewalReport, other: Seq<char>)
    requires
        other != r.sid@,
    ensures
        ({
            let w = renewal_settled(v, r).0;
            &&& w.owners.contains_key(other) == v.owners.contains_key(other)
            &&& w.owners[other] == v.owners[other]
            &&& w.restoring.contains_key(other) == v.restoring.contains_key(other)
            &&& w.restoring[other] == v.restoring[other]
            &&& w.deadlines.contains_key(other) == v.deadlines.contains_key(other)
            &&& w.deadlines[other] == v.deadlines[other]
            &&& w.fences.contains_key(other) == v.fences.contains_key(other)
            &&& w.fences[other] == v.fences[other]
            &&& w.node == v.node
            &&& w.resuming == v.resuming
            &&& w.migrating == v.migrating
            &&& w.pins == v.pins
            &&& w.workers == v.workers
            &&& w.renewing == v.renewing.remove((r.sid@, v.node, r.epoch))
        }),
{
}

/// Enforcing deadlines looks at each sandbox by itself: where the deadline is over,
/// the deadline is dropped, and a claim that is being restored or serves is torn down
/// in its generation, the restoring one first, unless a teardown runs already; where
/// it is not over, or there is none, all stays.
pub proof fn law_deadlines_are_enforced_one_by_one(v: RuntimeView, now: u128, sid: Seq<char>)
    ensures
        ({
            let w = deadlines_enforced(v, now, Set::full());
            let over = v.deadlines.contains_key(sid) && v.deadlines[sid] <= now;
            let claimed = v.owners.contains_key(sid) || v.restoring.contains_key(sid);
            let epoch = if v.restoring.contains_key(sid) {
                v.restoring[sid].epoch
            } else {
                v.owners[sid].epoch
            };
            &&& w.deadlines.contains_key(sid) <==> v.deadlines.contains_key(sid) && v.deadlines[sid] > now
            &&& w.deadlines.contains_key(sid) ==> w.deadlines[sid] == v.deadlines[sid]
            &&& over && claimed && !v.fences.contains_key(sid) ==> !w.owners.contains_key(sid)
                && !w.restoring.contains_key(sid) && w.fences.contains_key(sid) && w.fences[sid] == epoch
            &&& !(over && claimed) || v.fences.contains_key(sid) ==> {
                &&& w.owners.contains_key(sid) == v.owners.contains_key(sid)
                &&& w.restoring.contains_key(sid) == v.restoring.contains_key(sid)
                &&& w.fences.contains_key(sid) == v.fences.contains_key(sid)
                &&& w.fences.contains_key(sid) ==> w.fences[sid] == v.fences[sid]
            }
            &&& w.owners.contains_key(sid) ==> v.owners.contains_key(sid) && w.owners[sid] == v.owners[sid]
            &&& w.restoring.contains_key(sid) ==> v.restoring.contains_key(sid) && w.restoring[sid]
                == v.restoring[sid]
            &&& w.orphans == v.orphans
        }),
{
}

/// The claims that are renewed are those of the node itself, the one being restored
/// where a sandbox has both.
pub proof fn law_own_claims_are_renewed(v: RuntimeView, sid: Seq<char>)
    ensures
        ({
            let restores = v.restoring.contains_key(sid) && v.restoring[sid].node == v.node;
            let serves = v.owners.contains_key(sid) && v.owners[sid].node == v.node;
            &&& local_claims(v).contains_key(sid) <==> restores || serves
            &&& restores ==> local_claims(v)[sid] == v.restoring[sid]
            &&& serves && !restores ==> local_claims(v)[sid] == v.owners[sid]
        }),
{
}

/// What is recorded of a reported owner: another node's claim that is not older than
/// the known one replaces it and gets no deadline here; the node's own claim serves
/// until the end of its lease, and without a lease does not serve at all; an older
/// claim changes nothing. Other sandboxes are left alone.
pub proof fn law_reported_owner_is_recorded(
    v: RuntimeView,
    sid: Seq<char>,
    claim: OwnerView,
    lease: Option<u128>,
    now: u128,
    other: Seq<char>,
)
    requires
        other != sid,
    ensures
        ({
            let w = owner_recorded(v, sid, claim, lease, now);
            let current = !v.owners.contains_key(sid) || v.owners[sid].epoch <= claim.epoch;
            &&& claim.node != v.node && current ==> w.owners.contains_key(sid) && w.owners[sid] == claim
                && w.deadlines == v.deadlines
            &&& claim.node == v.node && lease is Some && current ==> w.owners.contains_key(sid) && w.owners[sid]
                == claim && w.deadlines.contains_key(sid) && w.deadlines[sid] == lease->0
            &&& claim.node == v.node && lease is None ==> !w.owners.contains_key(sid) && w.restoring.contains_key(sid)
                && w.restoring[sid] == claim && w.deadlines.contains_key(sid) && w.deadlines[sid] == now
            &&& !current && (claim.node != v.node || lease is Some) ==> w == v
            &&& w.owners.contains_key(other) == v.owners.contains_key(other)
            &&& w.owners[other] == v.owners[other]
            &&& w.restoring.contains_key(other) == v.restoring.contains_key(other)
            &&& w.restoring[other] == v.restoring[other]
            &&& w.deadlines[other] == v.deadlines[other]
            &&& w.fences == v.fences
            &&& w.orphans == v.orphans
        }),
{
}

/// The sandboxes of a dead node are queued for recovery, each once, behind those that
/// wait already; none that waits is dropped.
pub proof fn law_orphans_wait_once(
    list: Seq<(Seq<char>, Seq<char>)>,
    sids: Seq<Seq<char>>,
    dead: Seq<char>,
    entry: (Seq<char>, Seq<char>),
)
    ensures
        orphans_added(list, sids, dead).contains(entry) <==> list.contains(entry) || (entry.1 == dead
            && sids.contains(entry.0)),
        list.len() <= orphans_added(list, sids, dead).len(),
        orphans_added(list, sids, dead).take(list.len() as int) == list,
        list.no_duplicates() ==> orphans_added(list, sids, dead).no_duplicates(),
    decreases sids.len(),
{
    if sids.len() == 0 {
        assert(list.take(list.len() as int) =~= list);
    } else {
        let before = sids.drop_last();
        let last = (sids.last(), dead);
        law_orphans_wait_once(list, before, dead, entry);
        law_orphans_wait_once(list, before, dead, last);
        let rest = orphans_added(list, before, dead);
        let all = orphans_added(list, sids, dead);
        assert(sids =~= before.push(sids.last()));
        assert(sids.contains(entry.0) <==> before.contains(entry.0) || entry.0 == sids.last()) by {
            if before.contains(entry.0) {
                let i = choose|i: int| 0 <= i < before.len() && before[i] == entry.0;
                assert(sids[i] == entry.0);
            }
            if sids.contains(entry.0) {
                let i = choose|i: int| 0 <= i < sids.len() && sids[i] == entry.0;
                if i < before.len() {
                    assert(before[i] == entry.0);
                }
            }
            assert(sids[sids.len() - 1] == sids.last());
        }
        assert(all.contains(entry) <==> rest.contains(entry) || entry == last) by {
            if rest.contains(entry) {
                let i = choose|i: int| 0 <= i < rest.len() && rest[i] == entry;
                assert(all[i] == entry);
            }
            if all.contains(entry) {
                let i = choose|i: int| 0 <= i < all.len() && all[i] == entry;
                if i < rest.len() {
                    assert(rest[i] == entry);
                }
            }
            if all.len() > rest.len() {
                assert(all[rest.len() as int] == last);
            }
        }
        assert(all.take(list.len() as int) =~= rest.take(list.len() as int));
    }
}

/// In its turn a claim is left alone while a rollback owns it, is torn down where its
/// deadline is over, and is renewed otherwise.
pub proof fn law_turn_follows_the_deadline(v: RuntimeView, sid: Seq<char>, epoch: u64, rollback_marked: bool, now: u128)
    ensures
        ({
            let (turn, w) = turn_taken(v, sid, epoch, rollback_marked, now);
            let over = v.deadlines.contains_key(sid) && v.deadlines[sid] <= now;
            &&& turn == RenewalTurn::Skip <==> rollback_marked
            &&& turn == RenewalTurn::Renew <==> !rollback_marked && !over
            &&& turn is Fence <==> !rollback_marked && over
            &&& turn == RenewalTurn::Renew ==> w == v
            &&& turn == RenewalTurn::Skip ==> w.owners == v.owners && w.restoring == v.restoring && w.fences == v.fences
                && !w.deadlines.contains_key(sid)
            &&& turn == RenewalTurn::Fence(true) ==> !w.owners.contains_key(sid) && !w.restoring.contains_key(sid)
                && w.fences.contains_key(sid) && w.fences[sid] == epoch
            &&& turn == RenewalTurn::Fence(false) ==> w == v
        }),
{
}

/// With a shared store a claim serves only on a lease that is armed, and stops before it
/// ends; without one it serves on the default lease.
pub proof fn law_claim_serves_on_its_lease(
    request_started: u64,
    now: u64,
    default_ttl: u64,
    renewal: Option<u64>,
    armed: bool,
)
    requires
        default_ttl > 5_000_000_000,
    ensures
        lease_claimed(false, request_started, now, default_ttl, renewal, armed) == Some(
            (now + default_ttl - 5_000_000_000) as u128,
        ),
        lease_claimed(true, request_started, now, default_ttl, renewal, armed) matches Some(d) ==> armed && (
        renewal matches Some(ttl) && request_started <= d < request_started + ttl),
        armed && (renewal matches Some(ttl) && ttl > 0) ==> lease_claimed(
            true,
            request_started,
            now,
            default_ttl,
            renewal,
            armed,
        ) is Some,
{
}

} // verus!
