//! Which node serves which sandbox: the ownership state of one mesh node and
//! the rules by which it changes hands.
//!
//! Times are nanoseconds on the node's monotonic clock.
use crate::mesh::sets::{ClaimSet, ClaimView, Owner, OwnerView};
use crate::text::texts;
use crate::textmap::{ascending, text_before, TextMap};
use vstd::prelude::*;

pub mod handoff;
pub mod reconcile;
pub mod renewal;
pub mod startup;

verus! {

/// How long before a lease runs out its holder must have stopped serving.
pub const WATCHDOG_MARGIN: u64 = 5_000_000_000;

/// A fence is meant for one generation; it leaves every other one alone.
pub fn should_fence_epoch(current: Option<u64>, expected: u64) -> (r: bool)
    ensures
        r == (current == Some(expected)),
{
    match current {
        Some(epoch) => epoch == expected,
        None => false,
    }
}

/// When the holder of a lease with `ttl` left at `started` must have stopped:
/// the margin before the end, and not before `started`. A lease of unknown
/// (`None`) or no remaining time has no such moment.
pub open spec fn watchdog_deadline(started: u64, ttl: Option<u64>) -> Option<u128> {
    match ttl {
        Some(left) => if left == 0 {
            None
        } else if left <= WATCHDOG_MARGIN {
            Some(started as u128)
        } else {
            Some((started + left - WATCHDOG_MARGIN) as u128)
        },
        None => None,
    }
}

pub fn owner_watchdog_deadline(request_started: u64, remaining_ttl: Option<u64>) -> (r: Option<u128>)
    ensures
        r == watchdog_deadline(request_started, remaining_ttl),
{
    match remaining_ttl {
        Some(left) => if left == 0 {
            None
        } else if left <= WATCHDOG_MARGIN {
            Some(request_started as u128)
        } else {
            Some(request_started as u128 + (left - WATCHDOG_MARGIN) as u128)
        },
        None => None,
    }
}

/// A holder stops strictly before its lease ends, counted from before the
/// request was sent; it never counts on time that it was not granted.
pub proof fn law_watchdog_precedes_expiry(started: u64, ttl: u64)
    requires
        ttl > 0,
    ensures
        watchdog_deadline(started, Some(ttl)) is Some,
        started <= watchdog_deadline(started, Some(ttl))->0 < started + ttl,
        ttl > WATCHDOG_MARGIN ==> watchdog_deadline(started, Some(ttl))->0 + WATCHDOG_MARGIN == started + ttl,
{
}

/// Whether a failed renewal ends the holder's right to serve: at once where
/// authority was lost or no deadline is known, else when the deadline is over.
pub fn renewal_failure_fences(now: u128, deadline: Option<u128>, authority_lost: bool) -> (r: bool)
    ensures
        r == (authority_lost || deadline is None || deadline->0 <= now),
{
    authority_lost || match deadline {
        Some(d) => d <= now,
        None => true,
    }
}

/// The sandboxes whose deadline is over, in order.
pub fn expired_owner_deadlines(now: u128, deadlines: &TextMap<u128>) -> (r: Vec<String>)
    ensures
        ascending(texts(r@)),
        forall|sid: Seq<char>| #[trigger]
            texts(r@).contains(sid) <==> deadlines@.contains_key(sid) && deadlines@[sid] <= now,
{
    let mut out: Vec<String> = Vec::new();
    let n = deadlines.len();
    let mut i: usize = 0;
    while i < n
        invariant
            i <= n == deadlines.keys().len(),
            ascending(deadlines.keys()),
            forall|k: Seq<char>| deadlines@.contains_key(k) <==> deadlines.keys().contains(k),
            ascending(texts(out@)),
            forall|o: int|
                0 <= o < out@.len() ==> exists|j: int| 0 <= j < i && deadlines.keys()[j] == (#[trigger] out@[o])@,
            forall|o: int|
                0 <= o < out@.len() ==> deadlines@.contains_key((#[trigger] out@[o])@) && deadlines@[out@[o]@]
                    <= now,
            forall|j: int|
                0 <= j < i && deadlines@[#[trigger] deadlines.keys()[j]] <= now ==> texts(out@).contains(
                    deadlines.keys()[j],
                ),
        decreases n - i,
    {
        let ghost before = out@;
        if *deadlines.value_at(i) <= now {
            out.push(deadlines.key_at(i).clone());
            proof {
                let key = deadlines.keys()[i as int];
                assert(texts(out@) =~= texts(before).push(key));
                assert forall|x: int, y: int| 0 <= x < y < texts(out@).len() implies text_before(
                    #[trigger] texts(out@)[x],
                    #[trigger] texts(out@)[y],
                ) by {
                    if y == before.len() {
                        let j = choose|j: int| 0 <= j < i && deadlines.keys()[j] == before[x]@;
                        assert(text_before(deadlines.keys()[j], key));
                    } else {
                        assert(texts(before)[x] == texts(out@)[x] && texts(before)[y] == texts(out@)[y]);
                    }
                }
                assert forall|o: int| 0 <= o < out@.len() implies exists|j: int|
                    0 <= j < i + 1 && deadlines.keys()[j] == (#[trigger] out@[o])@ by {
                    if o < before.len() {
                        let j = choose|j: int| 0 <= j < i && deadlines.keys()[j] == before[o]@;
                        assert(deadlines.keys()[j] == out@[o]@);
                    } else {
                        assert(deadlines.keys()[i as int] == out@[o]@);
                    }
                }
                assert forall|j: int|
                    0 <= j < i + 1 && deadlines@[#[trigger] deadlines.keys()[j]] <= now implies texts(
                    out@,
                ).contains(deadlines.keys()[j]) by {
                    if j < i {
                        assert(texts(before).contains(deadlines.keys()[j]));
                        let x = choose|x: int| 0 <= x < texts(before).len() && texts(before)[x] == deadlines.keys()[j];
                        assert(texts(out@)[x] == deadlines.keys()[j]);
                    } else {
                        assert(texts(out@)[before.len() as int] == key);
                    }
                }
            }
        }
        i = i + 1;
    }
    proof {
        assert forall|sid: Seq<char>| #[trigger]
            texts(out@).contains(sid) <==> deadlines@.contains_key(sid) && deadlines@[sid] <= now by {
            if texts(out@).contains(sid) {
                let o = choose|o: int| 0 <= o < texts(out@).len() && texts(out@)[o] == sid;
                assert(out@[o]@ == sid);
            }
            if deadlines@.contains_key(sid) && deadlines@[sid] <= now {
                assert(deadlines.keys().contains(sid));
                let j = choose|j: int| 0 <= j < deadlines.keys().len() && deadlines.keys()[j] == sid;
                assert(texts(out@).contains(deadlines.keys()[j]));
            }
        }
    }
    out
}

/// A sandbox whose teardown is still being retried admits no successor.
pub fn fence_blocks_successor(fences: &TextMap<u64>, sid: &str) -> (r: bool)
    ensures
        r == fences@.contains_key(sid@),
{
    fences.contains_key(sid)
}

/// The generation that a fence on `sid` is for: the one being restored, or else
/// the serving one.
pub open spec fn identity_to_fence(
    sid: Seq<char>,
    owners: Map<Seq<char>, OwnerView>,
    restoring: Map<Seq<char>, OwnerView>,
) -> Option<OwnerView> {
    if restoring.contains_key(sid) {
        Some(restoring[sid])
    } else if owners.contains_key(sid) {
        Some(owners[sid])
    } else {
        None
    }
}

/// The value of an optional owner.
pub open spec fn opt_owner(o: Option<Owner>) -> Option<OwnerView> {
    match o {
        Some(w) => Some(w@),
        None => None,
    }
}

pub fn fence_identity(sid: &str, owners: &TextMap<Owner>, restoring: &TextMap<Owner>) -> (r: Option<Owner>)
    ensures
        opt_owner(r) == identity_to_fence(sid@, owners@, restoring@),
{
    match restoring.get(sid) {
        Some(o) => Some(o.copy()),
        None => match owners.get(sid) {
            Some(o) => Some(o.copy()),
            None => None,
        },
    }
}

/// The generation in which `sid` exists here without serving.
pub open spec fn passive_epoch(
    sid: Seq<char>,
    restoring: Map<Seq<char>, OwnerView>,
    fenced: Map<Seq<char>, u64>,
) -> Option<u64> {
    if restoring.contains_key(sid) {
        Some(restoring[sid].epoch)
    } else if fenced.contains_key(sid) {
        Some(fenced[sid])
    } else {
        None
    }
}

/// The ownership state of a node.
pub struct MeshRuntime {
    node_id: String,
    owners: TextMap<Owner>,
    restoring: TextMap<Owner>,
    deadlines: TextMap<u128>,
    fences: TextMap<u64>,
    renewing: ClaimSet,
    resuming: ClaimSet,
    migrating: TextMap<bool>,
    orphans: Vec<(String, String)>,
    pins: TextMap<String>,
    workers: TextMap<bool>,
}

/// The value of a [`MeshRuntime`].
///
/// `owners` serve; `restoring` are known here but do not serve; `deadlines` say
/// when a local holder must stop; `fences` are being torn down; `renewing` and
/// `resuming` are calls under way; `migrating` are arriving; `orphans` wait for
/// recovery; `pins` tie a request key to a node; `workers` run.
#[verifier::ext_equal]
pub struct RuntimeView {
    pub node: Seq<char>,
    pub owners: Map<Seq<char>, OwnerView>,
    pub restoring: Map<Seq<char>, OwnerView>,
    pub deadlines: Map<Seq<char>, u128>,
    pub fences: Map<Seq<char>, u64>,
    pub renewing: Set<ClaimView>,
    pub resuming: Set<ClaimView>,
    pub migrating: Map<Seq<char>, bool>,
    pub orphans: Seq<(Seq<char>, Seq<char>)>,
    pub pins: Map<Seq<char>, Seq<char>>,
    pub workers: Map<Seq<char>, bool>,
}

/// The characters of each pair of a list.
pub open spec fn pairs_of(v: Seq<(String, String)>) -> Seq<(Seq<char>, Seq<char>)> {
    Seq::new(v.len(), |i: int| (v[i].0@, v[i].1@))
}

impl View for MeshRuntime {
    type V = RuntimeView;

    closed spec fn view(&self) -> RuntimeView {
        RuntimeView {
            node: self.node_id@,
            owners: self.owners@,
            restoring: self.restoring@,
            deadlines: self.deadlines@,
            fences: self.fences@,
            renewing: self.renewing@,
            resuming: self.resuming@,
            migrating: self.migrating@,
            orphans: pairs_of(self.orphans@),
            pins: self.pins@,
            workers: self.workers@,
        }
    }
}

/// A node that knows of no sandbox.
pub open spec fn idle_node(node: Seq<char>) -> RuntimeView {
    RuntimeView {
        node,
        owners: Map::empty(),
        restoring: Map::empty(),
        deadlines: Map::empty(),
        fences: Map::empty(),
        renewing: Set::empty(),
        resuming: Set::empty(),
        migrating: Map::empty(),
        orphans: Seq::empty(),
        pins: Map::empty(),
        workers: Map::empty(),
    }
}

/// The generation of `sid` that a fence is for: the one being restored, or else the
/// serving one.
pub open spec fn known_epoch(v: RuntimeView, sid: Seq<char>) -> Option<u64> {
    match identity_to_fence(sid, v.owners, v.restoring) {
        Some(claim) => Some(claim.epoch),
        None => None,
    }
}

/// Whether a fence on generation `epoch` of `sid` takes effect.
pub open spec fn fence_applies(v: RuntimeView, sid: Seq<char>, epoch: u64) -> bool {
    known_epoch(v, sid) == Some(epoch) && !v.fences.contains_key(sid)
}

/// The state once a fence on generation `epoch` of `sid` was asked for.
pub open spec fn fenced(v: RuntimeView, sid: Seq<char>, epoch: u64) -> RuntimeView {
    if fence_applies(v, sid, epoch) {
        RuntimeView {
            owners: v.owners.remove(sid),
            restoring: v.restoring.remove(sid),
            deadlines: v.deadlines.remove(sid),
            fences: v.fences.insert(sid, epoch),
            ..v
        }
    } else {
        v
    }
}

/// The state once `sid` was withdrawn from service in the generation `claim`.
pub open spec fn staged(v: RuntimeView, sid: Seq<char>, claim: OwnerView) -> RuntimeView {
    RuntimeView {
        owners: v.owners.remove(sid),
        restoring: v.restoring.insert(sid, claim),
        deadlines: v.deadlines.remove(sid),
        ..v
    }
}

impl MeshRuntime {
    fn empty(node_id: String) -> (r: MeshRuntime)
        ensures
            r@ == idle_node(node_id@),
    {
        let r = MeshRuntime {
            node_id,
            owners: TextMap::new(),
            restoring: TextMap::new(),
            deadlines: TextMap::new(),
            fences: TextMap::new(),
            renewing: ClaimSet::new(),
            resuming: ClaimSet::new(),
            migrating: TextMap::new(),
            orphans: Vec::new(),
            pins: TextMap::new(),
            workers: TextMap::new(),
        };
        assert(r@ =~= idle_node(node_id@));
        r
    }

    fn push_orphan(&mut self, sid: &str, dead: &str)
        ensures
            final(self)@ == (RuntimeView { orphans: old(self)@.orphans.push((sid@, dead@)), ..old(self)@ }),
    {
        self.orphans.push((sid.to_owned(), dead.to_owned()));
        assert(pairs_of(self.orphans@) =~= pairs_of(old(self).orphans@).push((sid@, dead@)));
    }

    fn stage(&mut self, sid: &str, node: &str, epoch: u64)
        ensures
            final(self)@ == staged(old(self)@, sid@, OwnerView { node: node@, epoch }),
    {
        self.restoring.insert(sid.to_owned(), Owner::new(node, epoch));
        self.deadlines.remove(sid);
        self.owners.remove(sid);
    }

    /// Asks for the teardown of generation `expected_epoch` of `sid`. `true` says
    /// that the teardown has to be started; it runs until
    /// [`MeshRuntime::finish_fence`] is told that the candidate stopped.
    pub fn schedule_fence(&mut self, sid: &str, expected_epoch: u64) -> (r: bool)
        ensures
            r == fence_applies(old(self)@, sid@, expected_epoch),
            final(self)@ == fenced(old(self)@, sid@, expected_epoch),
    {
        let current = match fence_identity(sid, &self.owners, &self.restoring) {
            Some(identity) => Some(identity.epoch),
            None => None,
        };
        if !should_fence_epoch(current, expected_epoch) {
            return false;
        }
        if self.fences.contains_key(sid) {
            return false;
        }
        self.fences.insert(sid.to_owned(), expected_epoch);
        self.owners.remove(sid);
        self.restoring.remove(sid);
        self.deadlines.remove(sid);
        true
    }

    /// The fenced candidate of `sid` was stopped.
    pub fn finish_fence(&mut self, sid: &str)
        ensures
            final(self)@ == (RuntimeView { fences: old(self)@.fences.remove(sid@), ..old(self)@ }),
    {
        self.fences.remove(sid);
    }

    pub fn nonserving_epoch(sid: &str, restoring: &TextMap<Owner>, fenced: &TextMap<u64>) -> (r: Option<u64>)
        ensures
            r == passive_epoch(sid@, restoring@, fenced@),
    {
        match restoring.get(sid) {
            Some(o) => Some(o.epoch),
            None => match fenced.get(sid) {
                Some(e) => Some(*e),
                None => None,
            },
        }
    }

    /// The generation in which `sid` exists here without serving.
    pub fn restoring_epoch(&self, sid: &str) -> (r: Option<u64>)
        ensures
            r == passive_epoch(sid@, self@.restoring, self@.fences),
    {
        Self::nonserving_epoch(sid, &self.restoring, &self.fences)
    }

    /// The node itself.
    pub fn local_node_id(&self) -> (r: String)
        ensures
            r@ == self@.node,
    {
        self.node_id.clone()
    }
}

/// A fence for one generation leaves a successor of that generation as it is.
pub proof fn law_stale_fence_spares_successor(v: RuntimeView, sid: Seq<char>, epoch: u64)
    requires
        known_epoch(v, sid) != Some(epoch),
    ensures
        fenced(v, sid, epoch) == v,
{
}

/// A fence for the generation that is being restored takes a stale owner out of
/// service with it.
pub proof fn law_newer_restore_is_fenced_over_stale_owner(v: RuntimeView, sid: Seq<char>)
    requires
        v.restoring.contains_key(sid),
        !v.fences.contains_key(sid),
    ensures
        ({
            let epoch = v.restoring[sid].epoch;
            let w = fenced(v, sid, epoch);
            &&& !w.owners.contains_key(sid)
            &&& passive_epoch(sid, w.restoring, w.fences) == Some(epoch)
        }),
{
}

/// A fenced generation neither serves nor is renewed, and counts as passive,
/// until its teardown is confirmed.
pub proof fn law_fenced_is_passive(v: RuntimeView, sid: Seq<char>, epoch: u64)
    requires
        fence_applies(v, sid, epoch),
    ensures
        ({
            let w = fenced(v, sid, epoch);
            &&& !w.owners.contains_key(sid)
            &&& !w.restoring.contains_key(sid)
            &&& passive_epoch(sid, w.restoring, w.fences) == Some(epoch)
            &&& forall|next: u64| !fence_applies(w, sid, next)
        }),
{
}

/// A fence on the generation that is known here, the one being restored before the
/// serving one, takes the sandbox out of service and restore and marks that generation
/// for teardown; on another generation, or while a teardown runs, it does nothing.
/// Other sandboxes are left alone.
pub proof fn law_fence_withdraws_one_generation(v: RuntimeView, sid: Seq<char>, epoch: u64, other: Seq<char>)
    requires
        other != sid,
    ensures
        ({
            let w = fenced(v, sid, epoch);
            let known = if v.restoring.contains_key(sid) {
                v.restoring[sid].epoch == epoch
            } else {
                v.owners.contains_key(sid) && v.owners[sid].epoch == epoch
            };
            &&& fence_applies(v, sid, epoch) <==> known && !v.fences.contains_key(sid)
            &&& known && !v.fences.contains_key(sid) ==> !w.owners.contains_key(sid) && !w.restoring.contains_key(sid)
                && !w.deadlines.contains_key(sid) && w.fences.contains_key(sid) && w.fences[sid] == epoch
            &&& !known || v.fences.contains_key(sid) ==> w == v
            &&& w.owners.contains_key(other) == v.owners.contains_key(other) && w.owners[other] == v.owners[other]
            &&& w.restoring.contains_key(other) == v.restoring.contains_key(other) && w.restoring[other]
                == v.restoring[other]
            &&& w.fences.contains_key(other) == v.fences.contains_key(other) && w.fences[other] == v.fences[other]
            &&& w.orphans == v.orphans
        }),
{
}

/// A withdrawn sandbox does not serve and has no deadline; it is held back in its
/// generation. Other sandboxes are left alone.
pub proof fn law_withdrawn_is_held_back(v: RuntimeView, sid: Seq<char>, claim: OwnerView, other: Seq<char>)
    requires
        other != sid,
    ensures
        ({
            let w = staged(v, sid, claim);
            &&& !w.owners.contains_key(sid)
            &&& w.restoring.contains_key(sid) && w.restoring[sid] == claim
            &&& !w.deadlines.contains_key(sid)
            &&& w.owners.contains_key(other) == v.owners.contains_key(other) && w.owners[other] == v.owners[other]
            &&& w.restoring.contains_key(other) == v.restoring.contains_key(other) && w.restoring[other]
                == v.restoring[other]
            &&& w.deadlines.contains_key(other) == v.deadlines.contains_key(other)
            &&& w.fences == v.fences
            &&& w.orphans == v.orphans
        }),
{
}

} // verus!
