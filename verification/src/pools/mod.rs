//! Warm pools: sandboxes that were started ahead of time, and how they are kept
//! ready and claimed.
pub mod claim;
pub mod naming;

use crate::decimal::{all_digits, decimal, lemma_decimal_digits, render_u64};
use crate::paths::{join_path, joined_path};
use crate::text::opt_text;
use crate::textmap::{in_sequence, lemma_in_sequence, TextMap};
use vstd::prelude::*;

verus! {

/// How many members are started at a time.
pub const MAX_REFILL_BATCH: usize = 32;

pub open spec fn flag_digit(b: bool) -> Seq<char> {
    if b {
        "1"@
    } else {
        "0"@
    }
}

fn digit_of(b: bool) -> (r: &'static str)
    ensures
        r@ == flag_digit(b),
{
    if b {
        "1"
    } else {
        "0"
    }
}

/// The key of a template: what it is made of, and the shape of its sandboxes.
pub open spec fn template_key_text(
    reference: Seq<char>,
    disk_mb: u64,
    memory: u64,
    cpus: u64,
    fs_slots: u64,
    host_slot: bool,
    nic_slot: bool,
    tap_slot: bool,
) -> Seq<char> {
    reference + "|d"@ + decimal(disk_mb as nat) + "|m"@ + decimal(memory as nat) + "|c"@ + decimal(cpus as nat)
        + "|s"@ + decimal(fs_slots as nat) + "|h"@ + flag_digit(host_slot) + "|n"@ + flag_digit(nic_slot) + "|t"@
        + flag_digit(tap_slot)
}

/// The key of a template.
pub fn template_key(
    reference: &str,
    disk_mb: u64,
    memory: u64,
    cpus: u64,
    fs_slots: u64,
    host_slot: bool,
    nic_slot: bool,
    tap_slot: bool,
) -> (r: String)
    ensures
        r@ == template_key_text(reference@, disk_mb, memory, cpus, fs_slots, host_slot, nic_slot, tap_slot),
{
    let mut out = reference.to_owned();
    out.append("|d");
    out.append(render_u64(disk_mb).as_str());
    out.append("|m");
    out.append(render_u64(memory).as_str());
    out.append("|c");
    out.append(render_u64(cpus).as_str());
    out.append("|s");
    out.append(render_u64(fs_slots).as_str());
    out.append("|h");
    out.append(digit_of(host_slot));
    out.append("|n");
    out.append(digit_of(nic_slot));
    out.append("|t");
    out.append(digit_of(tap_slot));
    out
}

proof fn lemma_last_field(a: Seq<char>, d: Seq<char>, b: Seq<char>, e: Seq<char>, mark: Seq<char>)
    requires
        all_digits(d),
        all_digits(e),
        mark.len() == 2,
        mark[0] == '|',
        mark[1] != '|',
        a + mark + d == b + mark + e,
    ensures
        a == b,
        d == e,
{
    let x = a + mark + d;
    let y = b + mark + e;
    assert(x.len() == a.len() + 2 + d.len());
    assert(y.len() == b.len() + 2 + e.len());
    if d.len() < e.len() {
        assert(x[a.len() as int] == '|');
        let i = a.len() - b.len();
        assert(i >= 1);
        if i == 1 {
            assert(y[b.len() + 1int] == mark[1]);
        } else {
            assert(y[b.len() + i] == e[i - 2]);
        }
    }
    if e.len() < d.len() {
        assert(y[b.len() as int] == '|');
        let i = b.len() - a.len();
        assert(i >= 1);
        if i == 1 {
            assert(x[a.len() + 1int] == mark[1]);
        } else {
            assert(x[a.len() + i] == d[i - 2]);
        }
    }
    assert(a =~= x.take(a.len() as int));
    assert(b =~= y.take(b.len() as int));
    assert(d =~= x.skip(a.len() + 2int));
    assert(e =~= y.skip(b.len() + 2int));
}

proof fn lemma_flag_digits(b: bool)
    ensures
        all_digits(flag_digit(b)),
        flag_digit(true) != flag_digit(false),
{
    reveal_strlit("1");
    reveal_strlit("0");
    assert(flag_digit(true)[0] == '1' && flag_digit(false)[0] == '0');
}

/// Two templates have the same key only where they are made of the same, and their
/// sandboxes have the same shape.
pub proof fn law_template_keys_are_distinct(
    reference: Seq<char>,
    disk_mb: u64,
    memory: u64,
    cpus: u64,
    fs_slots: u64,
    host_slot: bool,
    nic_slot: bool,
    tap_slot: bool,
    reference2: Seq<char>,
    disk_mb2: u64,
    memory2: u64,
    cpus2: u64,
    fs_slots2: u64,
    host_slot2: bool,
    nic_slot2: bool,
    tap_slot2: bool,
)
    requires
        template_key_text(reference, disk_mb, memory, cpus, fs_slots, host_slot, nic_slot, tap_slot)
            == template_key_text(
            reference2,
            disk_mb2,
            memory2,
            cpus2,
            fs_slots2,
            host_slot2,
            nic_slot2,
            tap_slot2,
        ),
    ensures
        reference == reference2,
        disk_mb == disk_mb2,
        memory == memory2,
        cpus == cpus2,
        fs_slots == fs_slots2,
        host_slot == host_slot2,
        nic_slot == nic_slot2,
        tap_slot == tap_slot2,
{
    reveal_strlit("|d");
    reveal_strlit("|m");
    reveal_strlit("|c");
    reveal_strlit("|s");
    reveal_strlit("|h");
    reveal_strlit("|n");
    reveal_strlit("|t");
    lemma_flag_digits(host_slot);
    lemma_flag_digits(host_slot2);
    lemma_flag_digits(nic_slot);
    lemma_flag_digits(nic_slot2);
    lemma_flag_digits(tap_slot);
    lemma_flag_digits(tap_slot2);
    lemma_decimal_digits(disk_mb as nat);
    lemma_decimal_digits(disk_mb2 as nat);
    lemma_decimal_digits(memory as nat);
    lemma_decimal_digits(memory2 as nat);
    lemma_decimal_digits(cpus as nat);
    lemma_decimal_digits(cpus2 as nat);
    lemma_decimal_digits(fs_slots as nat);
    lemma_decimal_digits(fs_slots2 as nat);
    let d = reference + "|d"@ + decimal(disk_mb as nat);
    let d2 = reference2 + "|d"@ + decimal(disk_mb2 as nat);
    let m = d + "|m"@ + decimal(memory as nat);
    let m2 = d2 + "|m"@ + decimal(memory2 as nat);
    let c = m + "|c"@ + decimal(cpus as nat);
    let c2 = m2 + "|c"@ + decimal(cpus2 as nat);
    let s = c + "|s"@ + decimal(fs_slots as nat);
    let s2 = c2 + "|s"@ + decimal(fs_slots2 as nat);
    let h = s + "|h"@ + flag_digit(host_slot);
    let h2 = s2 + "|h"@ + flag_digit(host_slot2);
    let n = h + "|n"@ + flag_digit(nic_slot);
    let n2 = h2 + "|n"@ + flag_digit(nic_slot2);
    lemma_last_field(n, flag_digit(tap_slot), n2, flag_digit(tap_slot2), "|t"@);
    lemma_last_field(h, flag_digit(nic_slot), h2, flag_digit(nic_slot2), "|n"@);
    lemma_last_field(s, flag_digit(host_slot), s2, flag_digit(host_slot2), "|h"@);
    lemma_last_field(c, decimal(fs_slots as nat), c2, decimal(fs_slots2 as nat), "|s"@);
    lemma_last_field(m, decimal(cpus as nat), m2, decimal(cpus2 as nat), "|c"@);
    lemma_last_field(d, decimal(memory as nat), d2, decimal(memory2 as nat), "|m"@);
    lemma_last_field(reference, decimal(disk_mb as nat), reference2, decimal(disk_mb2 as nat), "|d"@);
}

/// What a pool has and what became of the claims on it.
#[derive(Clone, Copy, PartialEq, Eq, Structural, Debug)]
pub struct PoolStats {
    pub ready: usize,
    pub hits: u64,
    pub misses: u64,
    pub size: usize,
}

impl Default for PoolStats {
    fn default() -> (r: PoolStats)
        ensures
            r == (PoolStats { ready: 0, hits: 0, misses: 0, size: 0 }),
    {
        PoolStats { ready: 0, hits: 0, misses: 0, size: 0 }
    }
}

/// A sandbox that waits to be claimed, and whether it is paused.
#[derive(Debug)]
pub struct PooledVm {
    pub name: String,
    pub paused: bool,
}

pub ghost struct MemberView {
    pub name: Seq<char>,
    pub paused: bool,
}

impl View for PooledVm {
    type V = MemberView;

    open spec fn view(&self) -> MemberView {
        MemberView { name: self.name@, paused: self.paused }
    }
}

pub open spec fn members_view(v: Seq<PooledVm>) -> Seq<MemberView> {
    v.map_values(|m: PooledVm| m@)
}

/// A pool: its members that are ready, the oldest first.
pub ghost struct WarmView {
    pub template: Seq<char>,
    pub has_rootfs: bool,
    pub fork: bool,
    pub agent: bool,
    pub parks_paused: bool,
    pub size: usize,
    pub ready: Seq<MemberView>,
    pub stopped: bool,
    pub hits: u64,
    pub misses: u64,
}

/// A pool.
pub struct WarmPool {
    template: String,
    has_rootfs: bool,
    fork: bool,
    agent: bool,
    parks_paused: bool,
    size: usize,
    ready: Vec<PooledVm>,
    stopped: bool,
    hits: u64,
    misses: u64,
}

impl View for WarmPool {
    type V = WarmView;

    closed spec fn view(&self) -> WarmView {
        WarmView {
            template: self.template@,
            has_rootfs: self.has_rootfs,
            fork: self.fork,
            agent: self.agent,
            parks_paused: self.parks_paused,
            size: self.size,
            ready: members_view(self.ready@),
            stopped: self.stopped,
            hits: self.hits,
            misses: self.misses,
        }
    }
}

pub open spec fn stats_of(v: WarmView) -> PoolStats {
    PoolStats { ready: v.ready.len() as usize, hits: v.hits, misses: v.misses, size: v.size }
}

pub open spec fn counted(n: u64) -> u64 {
    ((n + 1) % 0x1_0000_0000_0000_0000) as u64
}

/// How many members are started next: as many as are missing, up to a limit.
pub open spec fn shortfall(v: WarmView) -> int {
    if v.stopped || v.ready.len() >= v.size {
        0
    } else if v.size - v.ready.len() < MAX_REFILL_BATCH {
        v.size - v.ready.len()
    } else {
        MAX_REFILL_BATCH as int
    }
}

/// How many of the members that were started find a place.
pub open spec fn room(v: WarmView) -> int {
    if v.stopped || v.ready.len() >= v.size {
        0
    } else {
        v.size - v.ready.len()
    }
}

/// The pool with another target, and the members that are too many for it, the newest
/// first.
pub open spec fn resized(v: WarmView, size: usize) -> (WarmView, Seq<MemberView>) {
    let keep = if v.ready.len() > size {
        size as int
    } else {
        v.ready.len() as int
    };
    (
        WarmView { size, ready: v.ready.take(keep), ..v },
        Seq::new((v.ready.len() - keep) as nat, |i: int| v.ready[v.ready.len() - 1 - i]),
    )
}

/// The pool once its oldest member was taken, and that member; a pool without one counts
/// a miss.
pub open spec fn taken(v: WarmView) -> (WarmView, Option<MemberView>) {
    if v.ready.len() > 0 {
        (WarmView { ready: v.ready.drop_first(), ..v }, Some(v.ready[0]))
    } else {
        (WarmView { misses: counted(v.misses), ..v }, None)
    }
}

/// The pool once members were added for which it has room, and those for which it has
/// none.
pub open spec fn published(v: WarmView, spawned: Seq<MemberView>) -> (WarmView, Seq<MemberView>) {
    let n = if spawned.len() < room(v) {
        spawned.len() as int
    } else {
        room(v)
    };
    (WarmView { ready: v.ready + spawned.take(n), ..v }, spawned.skip(n))
}

/// The pool once it was shut down, and the members it had.
pub open spec fn shut_down(v: WarmView) -> (WarmView, Seq<MemberView>) {
    (WarmView { stopped: true, ready: Seq::empty(), ..v }, v.ready)
}

/// How a pool member is started.
pub struct LaunchPlan {
    /// Whether it is forked off its template; else it is restored from it.
    pub fork: bool,
    pub snapshot: String,
    /// The image that its disk is laid over, and where its own changes go.
    pub disk_overlay: Option<(String, String)>,
    pub agent_sock: Option<String>,
}

impl WarmPool {
    /// A pool without members.
    pub fn new(
        template: String,
        has_rootfs: bool,
        size: usize,
        fork: bool,
        agent: bool,
        parks_paused: bool,
    ) -> (r: WarmPool)
        ensures
            r@ == (WarmView {
                template: template@,
                has_rootfs,
                fork,
                agent,
                parks_paused,
                size,
                ready: Seq::empty(),
                stopped: false,
                hits: 0,
                misses: 0,
            }),
    {
        let r = WarmPool {
            template,
            has_rootfs,
            fork,
            agent,
            parks_paused,
            size,
            ready: Vec::new(),
            stopped: false,
            hits: 0,
            misses: 0,
        };
        assert(members_view(r.ready@) =~= Seq::empty());
        r
    }

    /// The template's directory.
    pub fn template(&self) -> (r: &str)
        ensures
            r@ == self@.template,
    {
        self.template.as_str()
    }

    /// What the pool has and what became of the claims on it.
    pub fn stats(&self) -> (r: PoolStats)
        ensures
            r == stats_of(self@),
    {
        PoolStats { ready: self.ready.len(), hits: self.hits, misses: self.misses, size: self.size }
    }

    /// Changes how many members are kept ready. Returns those that are too many,
    /// the newest first.
    pub fn resize(&mut self, size: usize) -> (r: Vec<PooledVm>)
        ensures
            ({
                let (w, excess) = resized(old(self)@, size);
                &&& final(self)@ == w
                &&& members_view(r@) == excess
            }),
    {
        let ghost v = self@;
        self.size = size;
        let mut out: Vec<PooledVm> = Vec::new();
        assert(v.ready.take(v.ready.len() as int) =~= v.ready);
        while self.ready.len() > size
            invariant
                self@ == (WarmView { size, ready: v.ready.take(self.ready@.len() as int), ..v }),
                self.ready@.len() <= v.ready.len(),
                self.ready@.len() + out@.len() == v.ready.len(),
                out@.len() > 0 ==> self.ready@.len() >= size,
                members_view(out@) =~= Seq::new(out@.len(), |i: int| v.ready[v.ready.len() - 1 - i]),
            decreases self.ready@.len(),
        {
            let ghost n = self.ready@.len();
            let ghost before = self.ready@;
            let ghost have = members_view(out@);
            match self.ready.pop() {
                Some(member) => {
                    assert(member@ == members_view(before)[n - 1]);
                    assert(member@ == v.ready[n - 1]);
                    out.push(member);
                    assert(members_view(out@) =~= have.push(member@));
                    assert(members_view(self.ready@) =~= v.ready.take(n - 1));
                },
                None => {},
            }
        }
        out
    }

    /// Takes the oldest member out; without one the claim is a miss.
    pub fn take_ready(&mut self) -> (r: Option<PooledVm>)
        ensures
            (final(self)@, match r {
                Some(m) => Some(m@),
                None => None,
            }) == taken(old(self)@),
    {
        if self.ready.len() == 0 {
            self.misses = self.misses.wrapping_add(1);
            return None;
        }
        let ghost before = self@.ready;
        let member = self.ready.remove(0);
        assert(members_view(self.ready@) =~= before.drop_first());
        assert(member@ == before[0]);
        Some(member)
    }

    /// Counts a claim that was met.
    pub fn count_hit(&mut self)
        ensures
            final(self)@ == (WarmView { hits: counted(old(self)@.hits), ..old(self)@ }),
    {
        self.hits = self.hits.wrapping_add(1);
    }

    /// How many members are to be started next.
    pub fn refill_count(&self) -> (r: usize)
        ensures
            r == shortfall(self@),
    {
        if self.stopped || self.ready.len() >= self.size {
            0
        } else if self.size - self.ready.len() < MAX_REFILL_BATCH {
            self.size - self.ready.len()
        } else {
            MAX_REFILL_BATCH
        }
    }

    /// Takes members in that were started. Returns those for which there is no
    /// place any more.
    pub fn publish(&mut self, spawned: Vec<PooledVm>) -> (r: Vec<PooledVm>)
        ensures
            ({
                let (w, excess) = published(old(self)@, members_view(spawned@));
                &&& final(self)@ == w
                &&& members_view(r@) == excess
            }),
    {
        let ghost v = self@;
        let ghost all = members_view(spawned@);
        let total = spawned.len();
        assert(all.len() == total);
        let space: usize = if self.stopped || self.ready.len() >= self.size {
            0
        } else {
            self.size - self.ready.len()
        };
        let n: usize = if total < space {
            total
        } else {
            space
        };
        let mut taken = spawned;
        let overflow = taken.split_off(n);
        assert(members_view(taken@) =~= all.take(n as int));
        assert(members_view(overflow@) =~= all.skip(n as int));
        self.ready.append(&mut taken);
        assert(members_view(self.ready@) =~= v.ready + all.take(n as int));
        overflow
    }

    /// Ends the pool. Returns the members that were not claimed, the oldest first.
    pub fn shutdown(&mut self) -> (r: Vec<PooledVm>)
        ensures
            (final(self)@, members_view(r@)) == shut_down(old(self)@),
    {
        self.stopped = true;
        let mut out: Vec<PooledVm> = Vec::new();
        core::mem::swap(&mut self.ready, &mut out);
        assert(members_view(self.ready@) =~= Seq::empty());
        out
    }

    /// How a member is started whose directory is given. Its disk is laid over the
    /// template's image, which stays as it is.
    pub fn launch_plan(&self, vm_dir: &str) -> (r: LaunchPlan)
        ensures
            r.fork == self@.fork,
            r.snapshot@ == self@.template,
            match r.disk_overlay {
                Some((base, own)) => self@.has_rootfs && base@ == joined_path(self@.template, "rootfs.img"@) && own@
                    == joined_path(vm_dir@, "rootfs.img"@),
                None => !self@.has_rootfs,
            },
            opt_text(r.agent_sock) == if self@.agent {
                Some(joined_path(vm_dir@, "agent.sock"@))
            } else {
                None
            },
    {
        proof {
            reveal_strlit("rootfs.img");
            reveal_strlit("agent.sock");
        }
        let disk_overlay = if self.has_rootfs {
            Some((join_path(self.template.as_str(), "rootfs.img"), join_path(vm_dir, "rootfs.img")))
        } else {
            None
        };
        let agent_sock = if self.agent {
            Some(join_path(vm_dir, "agent.sock"))
        } else {
            None
        };
        LaunchPlan { fork: self.fork, snapshot: self.template.clone(), disk_overlay, agent_sock }
    }

    /// The member that was started: it waits paused where it is to be and can be.
    pub fn parked(&self, name: String, pause_worked: bool) -> (r: PooledVm)
        ensures
            r@ == (MemberView { name: name@, paused: self@.parks_paused && pause_worked }),
    {
        PooledVm { name, paused: self.parks_paused && pause_worked }
    }
}

/// Where the start of a member stands: what is to be done next.
#[derive(Clone, Copy, PartialEq, Eq, Structural, Debug)]
pub enum SpawnStep {
    Launch,
    /// The agent is asked whether it is there.
    Ping,
    Pause,
    /// What the launch left is removed.
    Remove,
    /// The member is stopped and removed.
    TearDown,
    /// The member is ready; `paused` tells whether it waits paused.
    Ready { paused: bool },
    Failed,
}

/// What comes after a step of a member's start. A launch that failed left nothing
/// to stop; a member that cannot be paused waits running.
pub open spec fn spawn_next(step: SpawnStep, went_well: bool, agent: bool, parks_paused: bool) -> SpawnStep {
    let up = if parks_paused {
        SpawnStep::Pause
    } else {
        SpawnStep::Ready { paused: false }
    };
    match step {
        SpawnStep::Launch => if !went_well {
            SpawnStep::Remove
        } else if agent {
            SpawnStep::Ping
        } else {
            up
        },
        SpawnStep::Ping => if went_well {
            up
        } else {
            SpawnStep::TearDown
        },
        SpawnStep::Pause => SpawnStep::Ready { paused: went_well },
        SpawnStep::Remove => SpawnStep::Failed,
        SpawnStep::TearDown => SpawnStep::Failed,
        other => other,
    }
}

/// What comes after a step of a member's start.
pub fn next_spawn_step(step: SpawnStep, went_well: bool, agent: bool, parks_paused: bool) -> (r: SpawnStep)
    ensures
        r == spawn_next(step, went_well, agent, parks_paused),
{
    let up = if parks_paused {
        SpawnStep::Pause
    } else {
        SpawnStep::Ready { paused: false }
    };
    match step {
        SpawnStep::Launch => if !went_well {
            SpawnStep::Remove
        } else if agent {
            SpawnStep::Ping
        } else {
            up
        },
        SpawnStep::Ping => if went_well {
            up
        } else {
            SpawnStep::TearDown
        },
        SpawnStep::Pause => SpawnStep::Ready { paused: went_well },
        SpawnStep::Remove => SpawnStep::Failed,
        SpawnStep::TearDown => SpawnStep::Failed,
        SpawnStep::Ready { paused } => SpawnStep::Ready { paused },
        SpawnStep::Failed => SpawnStep::Failed,
    }
}

/// A refill never leaves more members ready than are wanted, and what finds no
/// place is handed back.
pub proof fn law_refill_respects_target(v: WarmView, spawned: Seq<MemberView>)
    ensures
        ({
            let n = if spawned.len() < room(v) {
                spawned.len() as int
            } else {
                room(v)
            };
            let after = WarmView { ready: v.ready + spawned.take(n), ..v };
            &&& 0 <= n <= spawned.len()
            &&& v.ready.len() <= v.size ==> after.ready.len() <= v.size
            &&& v.stopped ==> after.ready == v.ready
            &&& shortfall(v) <= room(v)
        }),
{
    let n = if spawned.len() < room(v) {
        spawned.len() as int
    } else {
        room(v)
    };
    assert(v.stopped ==> v.ready + spawned.take(n) =~= v.ready);
}

/// The pools by the key of their template.
pub struct PoolRegistry {
    pools: TextMap<WarmPool>,
}

impl View for PoolRegistry {
    type V = Map<Seq<char>, WarmView>;

    closed spec fn view(&self) -> Map<Seq<char>, WarmView> {
        self.pools@
    }
}

impl PoolRegistry {
    /// A registry without pools.
    pub fn new() -> (r: PoolRegistry)
        ensures
            r@ == Map::<Seq<char>, WarmView>::empty(),
    {
        PoolRegistry { pools: TextMap::new() }
    }

    /// The pool of a template.
    pub fn get(&self, reference: &str) -> (r: Option<&WarmPool>)
        ensures
            match r {
                Some(p) => self@.contains_key(reference@) && p@ == self@[reference@],
                None => !self@.contains_key(reference@),
            },
    {
        self.pools.get(reference)
    }

    /// Puts a pool in place of the one that its template had.
    pub fn set(&mut self, reference: String, pool: WarmPool)
        ensures
            final(self)@ == old(self)@.insert(reference@, pool@),
    {
        self.pools.insert(reference, pool);
    }

    /// Forgets the pool of a template.
    pub fn delete(&mut self, reference: &str)
        ensures
            final(self)@ == old(self)@.remove(reference@),
    {
        self.pools.remove(reference);
    }

    /// What every pool has, in the order of the keys.
    pub fn list(&self) -> (r: Vec<(String, PoolStats)>)
        ensures
            ({
                let order = in_sequence(self@.dom());
                &&& r@.len() == order.len()
                &&& forall|i: int|
                    0 <= i < r@.len() ==> (#[trigger] r@[i]).0@ == order[i] && r@[i].1 == stats_of(self@[order[i]])
            }),
    {
        let n = self.pools.len();
        let ghost keys = self.pools.keys();
        proof {
            lemma_in_sequence(keys, self@.dom());
        }
        let mut out: Vec<(String, PoolStats)> = Vec::new();
        let mut i: usize = 0;
        while i < n
            invariant
                i <= n,
                n == keys.len(),
                keys == self.pools.keys(),
                out@.len() == i,
                forall|j: int|
                    0 <= j < i ==> (#[trigger] out@[j]).0@ == keys[j] && out@[j].1 == stats_of(self@[keys[j]]),
            decreases n - i,
        {
            out.push((self.pools.key_at(i).clone(), self.pools.value_at(i).stats()));
            i = i + 1;
        }
        out
    }

    /// How many claims were met and how many were not, over all pools.
    pub fn total_hits_misses(&self) -> (r: (u64, u64))
        requires
            totals(self@, in_sequence(self@.dom())).0 <= u64::MAX,
            totals(self@, in_sequence(self@.dom())).1 <= u64::MAX,
        ensures
            (r.0 as int, r.1 as int) == totals(self@, in_sequence(self@.dom())),
    {
        let n = self.pools.len();
        let ghost keys = self.pools.keys();
        proof {
            lemma_in_sequence(keys, self@.dom());
        }
        let mut hits: u64 = 0;
        let mut misses: u64 = 0;
        let mut i: usize = 0;
        assert(keys.take(0) =~= Seq::empty());
        while i < n
            invariant
                i <= n,
                n == keys.len(),
                keys == self.pools.keys(),
                totals(self@, keys).0 <= u64::MAX,
                totals(self@, keys).1 <= u64::MAX,
                (hits as int, misses as int) == totals(self@, keys.take(i as int)),
            decreases n - i,
        {
            let pool = self.pools.value_at(i);
            assert(keys.take(i + 1).drop_last() =~= keys.take(i as int));
            assert(keys.take(i + 1).last() == keys[i as int]);
            proof {
                lemma_totals_grow(self@, keys, i + 1);
            }
            let stats = pool.stats();
            hits = hits + stats.hits;
            misses = misses + stats.misses;
            i = i + 1;
        }
        assert(keys.take(i as int) =~= keys);
        (hits, misses)
    }
}

/// The sums over pools.
pub open spec fn totals(pools: Map<Seq<char>, WarmView>, keys: Seq<Seq<char>>) -> (int, int)
    decreases keys.len(),
{
    if keys.len() == 0 {
        (0, 0)
    } else {
        let (hits, misses) = totals(pools, keys.drop_last());
        (hits + pools[keys.last()].hits, misses + pools[keys.last()].misses)
    }
}

proof fn lemma_totals_grow(pools: Map<Seq<char>, WarmView>, keys: Seq<Seq<char>>, n: int)
    requires
        0 <= n <= keys.len(),
    ensures
        totals(pools, keys.take(n)).0 <= totals(pools, keys).0,
        totals(pools, keys.take(n)).1 <= totals(pools, keys).1,
    decreases keys.len(),
{
    if n == keys.len() {
        assert(keys.take(n) =~= keys);
    } else {
        assert(keys.drop_last().take(n) =~= keys.take(n));
        lemma_totals_grow(pools, keys.drop_last(), n);
    }
}

/// A refill is as large as the pool lacks members, but for the limit on one batch; a
/// stopped or full pool is not refilled.
pub proof fn law_refill_is_what_is_missing(v: WarmView)
    ensures
        0 <= shortfall(v) <= MAX_REFILL_BATCH,
        v.stopped || v.ready.len() >= v.size ==> shortfall(v) == 0 && room(v) == 0,
        !v.stopped && v.ready.len() < v.size ==> v.ready.len() + room(v) == v.size && shortfall(v) > 0,
        !v.stopped && v.ready.len() < v.size && v.size <= v.ready.len() + MAX_REFILL_BATCH ==> v.ready.len()
            + shortfall(v) == v.size,
        !v.stopped && v.size > v.ready.len() + MAX_REFILL_BATCH ==> shortfall(v) == MAX_REFILL_BATCH,
{
}

/// A member is ready once it was launched, its agent answered where it has one, and it
/// was paused where members wait paused; a member that cannot be paused waits running.
/// What a failed launch left is removed, and a member whose agent does not answer is
/// torn down.
pub proof fn law_member_is_made_ready(agent: bool, parks_paused: bool)
    ensures
        spawn_next(SpawnStep::Launch, true, true, parks_paused) == SpawnStep::Ping,
        spawn_next(SpawnStep::Launch, true, false, true) == SpawnStep::Pause,
        spawn_next(SpawnStep::Launch, true, false, false) == (SpawnStep::Ready { paused: false }),
        spawn_next(SpawnStep::Launch, false, agent, parks_paused) == SpawnStep::Remove,
        spawn_next(SpawnStep::Ping, true, agent, true) == SpawnStep::Pause,
        spawn_next(SpawnStep::Ping, true, agent, false) == (SpawnStep::Ready { paused: false }),
        spawn_next(SpawnStep::Ping, false, agent, parks_paused) == SpawnStep::TearDown,
        spawn_next(SpawnStep::Pause, true, agent, parks_paused) == (SpawnStep::Ready { paused: true }),
        spawn_next(SpawnStep::Pause, false, agent, parks_paused) == (SpawnStep::Ready { paused: false }),
        forall|ok: bool| #[trigger] spawn_next(SpawnStep::Remove, ok, agent, parks_paused) == SpawnStep::Failed,
        forall|ok: bool| #[trigger] spawn_next(SpawnStep::TearDown, ok, agent, parks_paused) == SpawnStep::Failed,
{
}

/// The hits and misses of all pools are the sums of theirs.
pub proof fn law_pool_totals_add_up(pools: Map<Seq<char>, WarmView>, keys: Seq<Seq<char>>, key: Seq<char>)
    ensures
        totals(pools, keys.push(key)).0 == totals(pools, keys).0 + pools[key].hits,
        totals(pools, keys.push(key)).1 == totals(pools, keys).1 + pools[key].misses,
        totals(pools, Seq::empty()) == (0int, 0int),
{
    assert(keys.push(key).drop_last() =~= keys);
}

/// What is told of a pool is what it has, and how it was used.
pub proof fn law_stats_tell_the_pool(v: WarmView)
    requires
        v.ready.len() <= usize::MAX,
    ensures
        stats_of(v).ready == v.ready.len(),
        stats_of(v).hits == v.hits,
        stats_of(v).misses == v.misses,
        stats_of(v).size == v.size,
{
}

/// Every member that a pool has or gets is kept by it or handed back, once: a pool that
/// is made smaller hands back its newest members, one that gets more than it has room
/// for hands back the last of them, and one that is shut down hands back all.
pub proof fn law_members_are_kept_or_handed_back(v: WarmView, size: usize, spawned: Seq<MemberView>)
    ensures
        ({
            let (w, excess) = resized(v, size);
            &&& w.size == size
            &&& w.ready.len() <= size
            &&& w.ready.len() + excess.len() == v.ready.len()
            &&& v.ready.len() <= size ==> w.ready == v.ready
            &&& forall|i: int| 0 <= i < w.ready.len() ==> #[trigger] w.ready[i] == v.ready[i]
            &&& forall|i: int| 0 <= i < excess.len() ==> #[trigger] excess[i] == v.ready[v.ready.len() - 1 - i]
            &&& w.hits == v.hits && w.misses == v.misses && w.stopped == v.stopped && w.template == v.template
        }),
        ({
            let (w, excess) = published(v, spawned);
            &&& w.ready.len() + excess.len() == v.ready.len() + spawned.len()
            &&& w.ready + excess == v.ready + spawned
            &&& v.stopped ==> w.ready == v.ready
            &&& w.ready.len() <= v.size || w.ready == v.ready
            &&& excess.len() > 0 && !v.stopped ==> w.ready.len() >= v.size
            &&& w.size == v.size && w.hits == v.hits && w.misses == v.misses
        }),
        ({
            let (w, all) = shut_down(v);
            &&& w.stopped
            &&& w.ready.len() == 0
            &&& all == v.ready
            &&& w.size == v.size && w.hits == v.hits && w.misses == v.misses
        }),
{
    let (w, excess) = published(v, spawned);
    assert(w.ready + excess =~= v.ready + spawned);
    assert(resized(v, size).0.ready =~= v.ready.take(resized(v, size).0.ready.len() as int));
    if v.ready.len() <= size {
        assert(resized(v, size).0.ready =~= v.ready);
    }
    if w.ready.len() == v.ready.len() {
        assert(w.ready =~= v.ready);
    }
}

/// Members are taken in the order in which they came, and only an empty pool counts a
/// miss.
pub proof fn law_oldest_member_is_taken(v: WarmView, spawned: Seq<MemberView>)
    ensures
        ({
            let (w, m) = taken(v);
            &&& m is None <==> v.ready.len() == 0
            &&& v.ready.len() > 0 ==> m == Some(v.ready[0]) && w.misses == v.misses && seq![m->0] + w.ready == v.ready
            &&& v.ready.len() == 0 && v.misses < u64::MAX ==> w.misses == v.misses + 1 && w.ready.len() == 0
            &&& w.hits == v.hits && w.size == v.size && w.stopped == v.stopped
        }),
        v.ready.len() == 0 && !v.stopped && spawned.len() > 0 && v.size > 0 ==> taken(published(v, spawned).0).1 == Some(
            spawned[0],
        ),
{
    if v.ready.len() > 0 {
        assert(seq![v.ready[0]] + v.ready.drop_first() =~= v.ready);
    }
}

} // verus!
