//! The pool of slots: TAPs made ahead of time, which sandboxes claim and give
//! back without anything being run.
use crate::net::lease::{ConfigView, GuestConfig};
use crate::text::{copy_list, texts};
use crate::textmap::TextMap;
use vstd::prelude::*;

verus! {

/// A TAP that was made ahead of time.
#[derive(Debug)]
pub struct SlotSpec {
    pub index: u32,
    pub name: String,
    pub guest_ip: String,
    pub host_ip: String,
    pub prefix: u8,
}

pub ghost struct SlotView {
    pub index: u32,
    pub name: Seq<char>,
    pub guest_ip: Seq<char>,
    pub host_ip: Seq<char>,
    pub prefix: u8,
}

impl View for SlotSpec {
    type V = SlotView;

    open spec fn view(&self) -> SlotView {
        SlotView {
            index: self.index,
            name: self.name@,
            guest_ip: self.guest_ip@,
            host_ip: self.host_ip@,
            prefix: self.prefix,
        }
    }
}

impl Clone for SlotSpec {
    fn clone(&self) -> (r: SlotSpec)
        ensures
            r@ == self@,
    {
        SlotSpec {
            index: self.index,
            name: self.name.clone(),
            guest_ip: self.guest_ip.clone(),
            host_ip: self.host_ip.clone(),
            prefix: self.prefix,
        }
    }
}

/// The slots of a list.
pub open spec fn slots_view(slots: Seq<SlotSpec>) -> Seq<SlotView> {
    slots.map_values(|s: SlotSpec| s@)
}

/// A slot that a sandbox has claimed; `custom` tells that its policy is not the
/// one that it was made with.
pub struct Claim {
    slot: SlotSpec,
    owner: String,
    config: GuestConfig,
    custom: bool,
}

pub ghost struct ClaimView {
    pub slot: SlotView,
    pub owner: Seq<char>,
    pub config: ConfigView,
    pub custom: bool,
}

impl View for Claim {
    type V = ClaimView;

    closed spec fn view(&self) -> ClaimView {
        ClaimView { slot: self.slot@, owner: self.owner@, config: self.config@, custom: self.custom }
    }
}

/// The free slots, the claimed ones by TAP, and the TAP of each sandbox that has
/// claimed one.
pub ghost struct PoolView {
    pub free: Seq<SlotView>,
    pub claims: Map<Seq<char>, ClaimView>,
    pub taps: Map<Seq<char>, Seq<char>>,
}

/// The pool of slots.
pub struct SlotPool {
    free: Vec<SlotSpec>,
    claims: TextMap<Claim>,
    taps: TextMap<String>,
}

impl View for SlotPool {
    type V = PoolView;

    closed spec fn view(&self) -> PoolView {
        PoolView { free: slots_view(self.free@), claims: self.claims@, taps: self.taps@ }
    }
}

/// What a sandbox that claims a slot is given.
pub open spec fn slot_config(slot: SlotView, network: Seq<char>, dns: Seq<Seq<char>>) -> ConfigView {
    ConfigView {
        tap: slot.name,
        host_ip: slot.host_ip,
        guest_ip: slot.guest_ip,
        prefix: slot.prefix,
        network,
        dns,
    }
}

/// The claim of a sandbox.
pub open spec fn claim_of(v: PoolView, name: Seq<char>) -> Option<ClaimView> {
    if v.taps.contains_key(name) && v.claims.contains_key(v.taps[name]) {
        Some(v.claims[v.taps[name]])
    } else {
        None
    }
}

/// Each claimed slot is its owner's, and no TAP is both free and claimed or free
/// twice.
pub open spec fn pool_sound(v: PoolView) -> bool {
    &&& forall|n: Seq<char>| #[trigger]
        v.taps.contains_key(n) ==> v.claims.contains_key(v.taps[n]) && v.claims[v.taps[n]].owner == n
    &&& forall|t: Seq<char>| #[trigger]
        v.claims.contains_key(t) ==> v.claims[t].slot.name == t && v.taps.contains_key(v.claims[t].owner)
            && v.taps[v.claims[t].owner] == t
    &&& forall|i: int| 0 <= i < v.free.len() ==> !v.claims.contains_key((#[trigger] v.free[i]).name)
    &&& forall|i: int, j: int| 0 <= i < j < v.free.len() ==> (#[trigger] v.free[i]).name != (#[trigger] v.free[j]).name
}

/// The pool after a sandbox claimed the first free slot.
pub open spec fn claimed(v: PoolView, name: Seq<char>, network: Seq<char>, dns: Seq<Seq<char>>) -> PoolView {
    let slot = v.free[0];
    PoolView {
        free: v.free.drop_first(),
        claims: v.claims.insert(
            slot.name,
            ClaimView { slot, owner: name, config: slot_config(slot, network, dns), custom: false },
        ),
        taps: v.taps.insert(name, slot.name),
    }
}

/// The pool after the slot of a TAP came back.
pub open spec fn recycled(v: PoolView, tap: Seq<char>) -> PoolView {
    if v.claims.contains_key(tap) {
        let claim = v.claims[tap];
        PoolView { free: v.free.push(claim.slot), claims: v.claims.remove(tap), taps: v.taps.remove(claim.owner) }
    } else {
        v
    }
}

/// The pool after a claim's policy was noted.
pub open spec fn marked(v: PoolView, tap: Seq<char>, custom: bool) -> PoolView {
    if v.claims.contains_key(tap) {
        PoolView { claims: v.claims.insert(tap, ClaimView { custom, ..v.claims[tap] }), ..v }
    } else {
        v
    }
}

impl SlotPool {
    /// The pool of the given slots, all of them free.
    pub fn install(slots: Vec<SlotSpec>) -> (r: SlotPool)
        ensures
            r@ == (PoolView { free: slots_view(slots@), claims: Map::empty(), taps: Map::empty() }),
    {
        let r = SlotPool { free: slots, claims: TextMap::new(), taps: TextMap::new() };
        assert(r@.claims =~= Map::empty());
        assert(r@.taps =~= Map::empty());
        r
    }

    /// How many slots are free.
    pub fn free_len(&self) -> (r: usize)
        ensures
            r == self@.free.len(),
    {
        self.free.len()
    }

    /// The slot that the next claim takes.
    pub fn first_free(&self) -> (r: Option<&SlotSpec>)
        ensures
            match r {
                Some(slot) => self@.free.len() > 0 && slot@ == self@.free[0],
                None => self@.free.len() == 0,
            },
    {
        if self.free.len() > 0 {
            Some(&self.free[0])
        } else {
            None
        }
    }

    /// What the sandbox's claim gives it, where it has one.
    pub fn lookup(&self, name: &str) -> (r: Option<GuestConfig>)
        ensures
            match r {
                Some(c) => claim_of(self@, name@) matches Some(claim) && c@ == claim.config,
                None => claim_of(self@, name@) is None,
            },
    {
        match self.taps.get(name) {
            None => None,
            Some(tap) => match self.claims.get(tap.as_str()) {
                None => None,
                Some(claim) => Some(claim.config.clone()),
            },
        }
    }

    /// The first free slot becomes the sandbox's.
    pub fn claim(&mut self, name: &str, network: String, dns: &Vec<String>) -> (r: Option<GuestConfig>)
        ensures
            match r {
                Some(c) => old(self)@.free.len() > 0 && final(self)@ == claimed(
                    old(self)@,
                    name@,
                    network@,
                    texts(dns@),
                ) && c@ == slot_config(old(self)@.free[0], network@, texts(dns@)),
                None => old(self)@.free.len() == 0 && final(self)@ == old(self)@,
            },
    {
        if self.free.len() == 0 {
            return None;
        }
        let ghost before = self@;
        let slot = self.free.remove(0);
        assert(slots_view(self.free@) =~= before.free.drop_first());
        assert(slot@ == before.free[0]);
        let config = GuestConfig {
            tap: slot.name.clone(),
            host_ip: slot.host_ip.clone(),
            guest_ip: slot.guest_ip.clone(),
            prefix: slot.prefix,
            network,
            dns: copy_list(dns),
        };
        let handed = config.clone();
        let tap = slot.name.clone();
        self.taps.insert(name.to_owned(), tap.clone());
        let claim = Claim { slot, owner: name.to_owned(), config, custom: false };
        self.claims.insert(tap, claim);
        Some(handed)
    }

    /// The slot of a TAP, and whether its policy is its own.
    pub fn slot_for_tap(&self, tap: &str) -> (r: Option<(SlotSpec, bool)>)
        ensures
            match r {
                Some((slot, custom)) => self@.claims.contains_key(tap@) && slot@ == self@.claims[tap@].slot && custom
                    == self@.claims[tap@].custom,
                None => !self@.claims.contains_key(tap@),
            },
    {
        match self.claims.get(tap) {
            None => None,
            Some(claim) => Some((claim.slot.clone(), claim.custom)),
        }
    }

    /// Notes whether the policy of a TAP is its own.
    pub fn set_custom(&mut self, tap: &str, custom: bool)
        ensures
            final(self)@ == marked(old(self)@, tap@, custom),
    {
        match self.claims.get(tap) {
            None => {},
            Some(claim) => {
                let next = Claim {
                    slot: claim.slot.clone(),
                    owner: claim.owner.clone(),
                    config: claim.config.clone(),
                    custom,
                };
                self.claims.insert(tap.to_owned(), next);
            },
        }
    }

    /// The slot of a TAP comes back; the slot, and whether its policy was its own.
    pub fn recycle_tap(&mut self, tap: &str) -> (r: Option<(SlotSpec, bool)>)
        ensures
            final(self)@ == recycled(old(self)@, tap@),
            match r {
                Some((slot, custom)) => old(self)@.claims.contains_key(tap@) && slot@ == old(self)@.claims[tap@].slot
                    && custom == old(self)@.claims[tap@].custom,
                None => !old(self)@.claims.contains_key(tap@),
            },
    {
        let ghost before = self@;
        let (slot, owner, custom) = match self.claims.get(tap) {
            None => return None,
            Some(claim) => (claim.slot.clone(), claim.owner.clone(), claim.custom),
        };
        self.claims.remove(tap);
        self.taps.remove(owner.as_str());
        self.free.push(slot.clone());
        assert(slots_view(self.free@) =~= before.free.push(slot@));
        Some((slot, custom))
    }

    /// The sandbox's slot comes back, where it has one.
    pub fn release_name(&mut self, name: &str) -> (r: Option<(SlotSpec, bool)>)
        ensures
            match r {
                Some((slot, custom)) => claim_of(old(self)@, name@) matches Some(claim) && slot@ == claim.slot
                    && custom == claim.custom && final(self)@ == recycled(old(self)@, old(self)@.taps[name@]),
                None => claim_of(old(self)@, name@) is None && final(self)@ == old(self)@,
            },
    {
        let tap = match self.taps.get(name) {
            None => return None,
            Some(tap) => tap.clone(),
        };
        self.recycle_tap(tap.as_str())
    }
}

/// A pool of differently named free slots is sound.
pub proof fn law_installed_pool_is_sound(free: Seq<SlotView>)
    requires
        forall|i: int, j: int| 0 <= i < j < free.len() ==> (#[trigger] free[i]).name != (#[trigger] free[j]).name,
    ensures
        pool_sound(PoolView { free, claims: Map::empty(), taps: Map::empty() }),
{
}

/// A claim by a sandbox that has none keeps the pool sound.
pub proof fn law_claim_keeps_pool_sound(v: PoolView, name: Seq<char>, network: Seq<char>, dns: Seq<Seq<char>>)
    requires
        pool_sound(v),
        v.free.len() > 0,
        !v.taps.contains_key(name),
    ensures
        pool_sound(claimed(v, name, network, dns)),
{
    let w = claimed(v, name, network, dns);
    let tap = v.free[0].name;
    assert forall|n: Seq<char>| #[trigger] w.taps.contains_key(n) implies w.claims.contains_key(w.taps[n])
        && w.claims[w.taps[n]].owner == n by {
        if n != name {
            assert(v.taps.contains_key(n));
        }
    }
    assert forall|t: Seq<char>| #[trigger] w.claims.contains_key(t) implies w.claims[t].slot.name == t
        && w.taps.contains_key(w.claims[t].owner) && w.taps[w.claims[t].owner] == t by {
        if t != tap {
            assert(v.claims.contains_key(t));
        }
    }
    assert forall|i: int| 0 <= i < w.free.len() implies !w.claims.contains_key((#[trigger] w.free[i]).name) by {
        assert(w.free[i] == v.free[i + 1]);
        assert(v.free[0].name != v.free[i + 1].name);
    }
    assert forall|i: int, j: int| 0 <= i < j < w.free.len() implies (#[trigger] w.free[i]).name != (
    #[trigger] w.free[j]).name by {
        assert(w.free[i] == v.free[i + 1] && w.free[j] == v.free[j + 1]);
    }
}

/// A slot's return keeps the pool sound.
pub proof fn law_recycling_keeps_pool_sound(v: PoolView, tap: Seq<char>)
    requires
        pool_sound(v),
    ensures
        pool_sound(recycled(v, tap)),
{
    let w = recycled(v, tap);
    if v.claims.contains_key(tap) {
        let owner = v.claims[tap].owner;
        assert forall|n: Seq<char>| #[trigger] w.taps.contains_key(n) implies w.claims.contains_key(w.taps[n])
            && w.claims[w.taps[n]].owner == n by {
            assert(v.taps.contains_key(n));
        }
        assert forall|t: Seq<char>| #[trigger] w.claims.contains_key(t) implies w.claims[t].slot.name == t
            && w.taps.contains_key(w.claims[t].owner) && w.taps[w.claims[t].owner] == t by {
            assert(v.claims.contains_key(t));
        }
        assert forall|i: int| 0 <= i < w.free.len() implies !w.claims.contains_key((#[trigger] w.free[i]).name) by {
            if i < v.free.len() {
                assert(w.free[i] == v.free[i]);
            }
        }
        assert forall|i: int, j: int| 0 <= i < j < w.free.len() implies (#[trigger] w.free[i]).name != (
        #[trigger] w.free[j]).name by {
            assert(w.free[i] == v.free[i]);
            if j < v.free.len() {
                assert(w.free[j] == v.free[j]);
            }
        }
    }
}

/// A slot that was claimed and given back is free again, and nobody's.
pub proof fn law_recycled_slot_is_reusable(v: PoolView, name: Seq<char>, network: Seq<char>, dns: Seq<Seq<char>>)
    requires
        pool_sound(v),
        v.free.len() > 0,
        !v.taps.contains_key(name),
    ensures
        ({
            let w = recycled(claimed(v, name, network, dns), v.free[0].name);
            &&& w.free == v.free.drop_first().push(v.free[0])
            &&& w.claims == v.claims
            &&& w.taps == v.taps
        }),
{
    let slot = v.free[0];
    let w = recycled(claimed(v, name, network, dns), slot.name);
    assert(!v.claims.contains_key(slot.name));
    assert(w.claims =~= v.claims);
    assert(w.taps =~= v.taps);
}

/// A claim takes the first free slot: the sandbox gets that slot's device and
/// addresses, and the other slots and claims stay as they are.
pub proof fn law_claim_takes_the_first_slot(
    v: PoolView,
    name: Seq<char>,
    network: Seq<char>,
    dns: Seq<Seq<char>>,
    other: Seq<char>,
)
    requires
        v.free.len() > 0,
        other != v.free[0].name,
    ensures
        ({
            let w = claimed(v, name, network, dns);
            let slot = v.free[0];
            let c = w.claims[slot.name];
            &&& w.taps.contains_key(name) && w.taps[name] == slot.name
            &&& w.claims.contains_key(slot.name)
            &&& c.slot == slot && c.owner == name && !c.custom
            &&& c.config.tap == slot.name && c.config.guest_ip == slot.guest_ip && c.config.host_ip == slot.host_ip
            &&& c.config.prefix == slot.prefix && c.config.network == network && c.config.dns == dns
            &&& w.free.len() == v.free.len() - 1
            &&& forall|i: int| 0 <= i < w.free.len() ==> #[trigger] w.free[i] == v.free[i + 1]
            &&& w.claims.contains_key(other) == v.claims.contains_key(other) && w.claims[other] == v.claims[other]
        }),
{
}

/// A slot that is given back goes behind the free ones, and its sandbox has no slot any
/// more; marking a slot changes nothing but the mark.
pub proof fn law_slot_goes_behind_the_free_ones(v: PoolView, tap: Seq<char>, custom: bool, other: Seq<char>)
    requires
        v.claims.contains_key(tap),
        other != tap,
    ensures
        ({
            let w = recycled(v, tap);
            let m = marked(v, tap, custom);
            &&& w.free == v.free.push(v.claims[tap].slot)
            &&& !w.claims.contains_key(tap)
            &&& !w.taps.contains_key(v.claims[tap].owner)
            &&& w.claims.contains_key(other) == v.claims.contains_key(other)
            &&& m.claims.contains_key(tap) && m.claims[tap].custom == custom
            &&& m.claims[tap].slot == v.claims[tap].slot && m.claims[tap].owner == v.claims[tap].owner
                && m.claims[tap].config == v.claims[tap].config
            &&& m.claims.contains_key(other) == v.claims.contains_key(other) && m.claims[other] == v.claims[other]
            &&& m.free == v.free && m.taps == v.taps
        }),
{
}

} // verus!
