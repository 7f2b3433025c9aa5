//! The workers that a scheduler knows of, and which of them a sandbox is placed
//! on. Times are nanoseconds on one clock.
use crate::json::{text_at, u64_at, Json, JsonMap, JsonView, ObjectView};
use crate::orch::{HeartbeatView, WorkerHeartbeat, WIRE_VERSION};
use crate::outside::random_u64;
use crate::sharded::Sharded;
use crate::text::{chars_of, lists, lists_text, opt_text, texts, trim, trimmed};
use vstd::prelude::*;

verus! {

/// When a worker counts as dead, and when it is forgotten.
#[derive(Clone, Copy, PartialEq, Eq, Structural, Debug)]
pub struct TableConfig {
    pub dead_after: u64,
    pub reap_after: u64,
}

impl TableConfig {
    /// Both times, from how long a worker's key lasts.
    pub fn from_dead_after(dead_after: u64) -> (r: TableConfig)
        requires
            dead_after * 3 <= u64::MAX,
        ensures
            r == (TableConfig { dead_after, reap_after: (dead_after * 3) as u64 }),
    {
        TableConfig { dead_after, reap_after: dead_after * 3 }
    }
}

/// What a sandbox needs of its worker.
#[derive(Debug)]
pub struct PlacementNeeds {
    pub cpus: u64,
    pub mem_mib: u64,
    pub arch: Option<String>,
}

pub ghost struct NeedsView {
    pub cpus: u64,
    pub mem_mib: u64,
    pub arch: Option<Seq<char>>,
}

impl View for PlacementNeeds {
    type V = NeedsView;

    open spec fn view(&self) -> NeedsView {
        NeedsView { cpus: self.cpus, mem_mib: self.mem_mib, arch: opt_text(self.arch) }
    }
}

/// The positive number under a name, or a default.
pub open spec fn positive_or(m: ObjectView, k: Seq<char>, default: u64) -> u64 {
    match u64_at(m, k) {
        Some(n) => if n > 0 {
            n
        } else {
            default
        },
        None => default,
    }
}

/// The needs that a request states; a request that is no object states none.
pub open spec fn needs_of(spec_value: JsonView) -> NeedsView {
    let m = match spec_value {
        JsonView::Object(m) => m,
        _ => Map::empty(),
    };
    NeedsView {
        cpus: positive_or(m, "cpus"@, 1),
        mem_mib: positive_or(m, "memory"@, 512),
        arch: match text_at(m, "arch"@) {
            Some(s) => if trimmed(s).len() > 0 {
                Some(trimmed(s))
            } else {
                None
            },
            None => None,
        },
    }
}

fn positive_number(m: &JsonMap, k: &str, default: u64) -> (r: u64)
    ensures
        r == positive_or(m@, k@, default),
{
    match m.u64_at(k) {
        Some(n) => if n > 0 {
            n
        } else {
            default
        },
        None => default,
    }
}

impl PlacementNeeds {
    /// The needs that a request states.
    pub fn from_create_json(spec_value: &Json) -> (r: PlacementNeeds)
        ensures
            r@ == needs_of(spec_value@),
    {
        match spec_value.as_object() {
            None => {
                proof {
                    assert(!Map::<Seq<char>, JsonView>::empty().contains_key("cpus"@));
                }
                PlacementNeeds { cpus: 1, mem_mib: 512, arch: None }
            },
            Some(m) => {
                let arch = match m.text_at("arch") {
                    Some(s) => {
                        let t = trim(s.as_str());
                        if t.as_str().is_empty() {
                            None
                        } else {
                            Some(t)
                        }
                    },
                    None => None,
                };
                PlacementNeeds { cpus: positive_number(m, "cpus", 1), mem_mib: positive_number(m, "memory", 512), arch }
            },
        }
    }
}

/// The lower case of an ASCII letter; any other character itself.
pub open spec fn ascii_lower(c: char) -> char {
    if 'A' <= c <= 'Z' {
        (c as int + 32) as char
    } else {
        c
    }
}

/// Whether two texts differ at most in the case of ASCII letters.
pub open spec fn same_but_case(a: Seq<char>, b: Seq<char>) -> bool {
    a.len() == b.len() && forall|i: int| 0 <= i < a.len() ==> ascii_lower(#[trigger] a[i]) == ascii_lower(b[i])
}

fn lower(c: char) -> (r: char)
    ensures
        r == ascii_lower(c),
{
    if 'A' <= c && c <= 'Z' {
        (c as u8 + 32u8) as char
    } else {
        c
    }
}

pub fn eq_but_case(a: &str, b: &str) -> (r: bool)
    ensures
        r == same_but_case(a@, b@),
{
    let x = chars_of(a);
    let y = chars_of(b);
    if x.len() != y.len() {
        return false;
    }
    let mut i: usize = 0;
    while i < x.len()
        invariant
            i <= x@.len(),
            x@.len() == y@.len(),
            x@ == a@,
            y@ == b@,
            forall|j: int| 0 <= j < i ==> ascii_lower(#[trigger] x@[j]) == ascii_lower(y@[j]),
        decreases x@.len() - i,
    {
        if lower(x[i]) != lower(y[i]) {
            assert(ascii_lower(a@[i as int]) != ascii_lower(b@[i as int]));
            return false;
        }
        i = i + 1;
    }
    true
}

/// What is known of a worker. Creates under way have reserved memory on it that
/// its own numbers do not show yet; `counter` tells the worker's reservations from
/// those on a former worker of its name.
pub struct WorkerEntry {
    heartbeat: WorkerHeartbeat,
    seen: u64,
    penalty_until: Option<u64>,
    inflight_mem_mib: u64,
    counter: u64,
}

pub ghost struct WorkerView {
    pub heartbeat: HeartbeatView,
    pub seen: u64,
    pub penalty_until: Option<u64>,
    pub inflight_mem_mib: u64,
    pub counter: u64,
}

impl View for WorkerEntry {
    type V = WorkerView;

    closed spec fn view(&self) -> WorkerView {
        WorkerView {
            heartbeat: self.heartbeat@,
            seen: self.seen,
            penalty_until: self.penalty_until,
            inflight_mem_mib: self.inflight_mem_mib,
            counter: self.counter,
        }
    }
}

/// How long ago something was seen.
pub open spec fn age(seen: u64, now: u64) -> int {
    if now >= seen {
        now - seen
    } else {
        0
    }
}

fn age_of(seen: u64, now: u64) -> (r: u64)
    ensures
        r == age(seen, now),
{
    if now >= seen {
        now - seen
    } else {
        0
    }
}

impl WorkerView {
    /// Whether the worker was heard of lately.
    pub open spec fn is_live(self, now: u64, dead_after: u64) -> bool {
        age(self.seen, now) <= dead_after
    }

    /// Whether the worker is being avoided.
    pub open spec fn is_penalized(self, now: u64) -> bool {
        self.penalty_until matches Some(until) && until > now
    }

    /// The memory that is spoken for.
    pub open spec fn reserved(self) -> int {
        self.heartbeat.used.mem_mib + self.inflight_mem_mib
    }

    /// Whether the worker has what is needed: memory is a hard limit, processors
    /// are not.
    pub open spec fn fits(self, needs: NeedsView) -> bool {
        &&& needs.arch matches Some(arch) ==> same_but_case(arch, self.heartbeat.arch)
        &&& self.heartbeat.caps.mem_mib > 0
        &&& self.reserved() + needs.mem_mib <= self.heartbeat.caps.mem_mib
    }

    /// Whether a sandbox may be placed on the worker.
    pub open spec fn is_eligible(self, config: TableConfig, now: u64, needs: NeedsView, exclude: Seq<String>) -> bool {
        &&& self.is_live(now, config.dead_after)
        &&& self.heartbeat.accepting
        &&& !self.heartbeat.draining
        &&& !self.is_penalized(now)
        &&& !lists(exclude, self.heartbeat.wid)
        &&& self.fits(needs)
    }
}

impl WorkerEntry {
    fn is_eligible(&self, config: TableConfig, now: u64, needs: &PlacementNeeds, exclude: &Vec<String>) -> (r: bool)
        ensures
            r == self@.is_eligible(config, now, needs@, exclude@),
    {
        let penalized = match self.penalty_until {
            Some(until) => until > now,
            None => false,
        };
        let arch_fits = match &needs.arch {
            Some(arch) => eq_but_case(arch.as_str(), self.heartbeat.arch.as_str()),
            None => true,
        };
        let wanted: u128 = self.heartbeat.used.mem_mib as u128 + self.inflight_mem_mib as u128 + needs.mem_mib as u128;
        age_of(self.seen, now) <= config.dead_after && self.heartbeat.accepting && !self.heartbeat.draining
            && !penalized && !lists_text(exclude, self.heartbeat.wid.as_str()) && arch_fits
            && self.heartbeat.caps.mem_mib > 0 && wanted <= self.heartbeat.caps.mem_mib as u128
    }

    fn copy(&self) -> (r: WorkerEntry)
        ensures
            r@ == self@,
    {
        WorkerEntry {
            heartbeat: self.heartbeat.clone(),
            seen: self.seen,
            penalty_until: self.penalty_until,
            inflight_mem_mib: self.inflight_mem_mib,
            counter: self.counter,
        }
    }
}

/// A worker that a sandbox may be placed on: how much of its memory is spoken for.
pub struct Candidate {
    pub wid: String,
    pub reserved: u64,
    pub caps: u64,
}

/// Whether `a` is at most as loaded as `b`: the part of the memory that is spoken
/// for is compared.
pub open spec fn not_heavier(a: Candidate, b: Candidate) -> bool {
    a.reserved * b.caps <= b.reserved * a.caps
}

/// The candidate that two draws lead to: the less loaded of the two, the first at
/// equal loads.
pub open spec fn choice(candidates: Seq<Candidate>, first: u64, second: u64) -> int {
    let n = candidates.len() as int;
    let a = first as int % n;
    let b = second as int % n;
    if n == 1 {
        0
    } else if not_heavier(candidates[a], candidates[b]) {
        a
    } else {
        b
    }
}

/// The candidate that two draws lead to.
pub fn choose_candidate(candidates: &Vec<Candidate>, first: u64, second: u64) -> (r: usize)
    requires
        candidates@.len() > 0,
    ensures
        r == choice(candidates@, first, second),
        r < candidates@.len(),
{
    let n = candidates.len();
    if n == 1 {
        return 0;
    }
    let a: usize = (first % n as u64) as usize;
    let b: usize = (second % n as u64) as usize;
    let x = &candidates[a];
    let y = &candidates[b];
    if product_le(x.reserved, y.caps, y.reserved, x.caps) {
        a
    } else {
        b
    }
}

fn product_le(a: u64, b: u64, c: u64, d: u64) -> (r: bool)
    ensures
        r == (a * b <= c * d),
{
    assert(a * b <= 0xffff_ffff_ffff_ffff * 0xffff_ffff_ffff_ffff) by (nonlinear_arith)
        requires
            0 <= a <= 0xffff_ffff_ffff_ffff,
            0 <= b <= 0xffff_ffff_ffff_ffff,
    ;
    assert(c * d <= 0xffff_ffff_ffff_ffff * 0xffff_ffff_ffff_ffff) by (nonlinear_arith)
        requires
            0 <= c <= 0xffff_ffff_ffff_ffff,
            0 <= d <= 0xffff_ffff_ffff_ffff,
    ;
    a as u128 * b as u128 <= c as u128 * d as u128
}

/// A strictly lighter worker that is drawn wins over the other draw.
pub proof fn law_lighter_worker_wins(candidates: Seq<Candidate>, first: u64, second: u64)
    requires
        candidates.len() > 1,
    ensures
        ({
            let a = first as int % candidates.len() as int;
            let b = second as int % candidates.len() as int;
            let c = choice(candidates, first, second);
            &&& c == a || c == b
            &&& not_heavier(candidates[c], candidates[a])
            &&& not_heavier(candidates[c], candidates[b])
        }),
{
    let a = first as int % candidates.len() as int;
    let b = second as int % candidates.len() as int;
    assert(0 <= a < candidates.len() && 0 <= b < candidates.len());
}

/// The workers by name.
pub ghost struct TableView {
    pub config: TableConfig,
    pub workers: Map<Seq<char>, WorkerView>,
    pub next_counter: u64,
}

/// What a scheduler knows of the workers.
pub struct WorkerTable {
    config: TableConfig,
    workers: Sharded<WorkerEntry>,
    next_counter: u64,
}

impl View for WorkerTable {
    type V = TableView;

    closed spec fn view(&self) -> TableView {
        TableView { config: self.config, workers: self.workers@, next_counter: self.next_counter }
    }
}

/// A placement of a sandbox on a worker, which holds a reservation there until it
/// is given back.
pub struct Placement {
    pub wid: String,
    pub url: String,
    reserved_mib: u64,
    counter: u64,
}

pub ghost struct PlacementView {
    pub wid: Seq<char>,
    pub url: Seq<char>,
    pub reserved_mib: u64,
    pub counter: u64,
}

impl View for Placement {
    type V = PlacementView;

    closed spec fn view(&self) -> PlacementView {
        PlacementView { wid: self.wid@, url: self.url@, reserved_mib: self.reserved_mib, counter: self.counter }
    }
}

impl Placement {
    /// The worker.
    pub fn wid(&self) -> (r: &str)
        ensures
            r@ == self@.wid,
    {
        self.wid.as_str()
    }

    /// Where the worker is reached.
    pub fn url(&self) -> (r: &str)
        ensures
            r@ == self@.url,
    {
        self.url.as_str()
    }
}

pub open spec fn wrapped_sum(a: u64, b: u64) -> u64 {
    ((a + b) % 0x1_0000_0000_0000_0000) as u64
}

pub open spec fn wrapped_difference(a: u64, b: u64) -> u64 {
    ((a - b) % 0x1_0000_0000_0000_0000) as u64
}

/// The table after a heartbeat: one of another version or that is not newer
/// changes nothing.
pub open spec fn merged(v: TableView, h: HeartbeatView, now: u64) -> TableView {
    if h.ver != WIRE_VERSION {
        v
    } else if v.workers.contains_key(h.wid) {
        let entry = v.workers[h.wid];
        if h.supersedes(entry.heartbeat) {
            TableView { workers: v.workers.insert(h.wid, WorkerView { heartbeat: h, seen: now, ..entry }), ..v }
        } else {
            v
        }
    } else {
        TableView {
            workers: v.workers.insert(
                h.wid,
                WorkerView {
                    heartbeat: h,
                    seen: now,
                    penalty_until: None,
                    inflight_mem_mib: 0,
                    counter: v.next_counter,
                },
            ),
            next_counter: wrapped_sum(v.next_counter, 1),
            ..v
        }
    }
}

/// The table after a worker was avoided until a time.
pub open spec fn avoided(v: TableView, wid: Seq<char>, until: u64) -> TableView {
    if v.workers.contains_key(wid) {
        TableView {
            workers: v.workers.insert(wid, WorkerView { penalty_until: Some(until), ..v.workers[wid] }),
            ..v
        }
    } else {
        v
    }
}

/// The table after memory was reserved on a worker.
pub open spec fn with_reservation(v: TableView, wid: Seq<char>, mib: u64) -> TableView {
    let entry = v.workers[wid];
    TableView {
        workers: v.workers.insert(
            wid,
            WorkerView { inflight_mem_mib: wrapped_sum(entry.inflight_mem_mib, mib), ..entry },
        ),
        ..v
    }
}

/// The table after a placement was given back; where the worker was forgotten
/// since, nothing changes.
pub open spec fn without_reservation(v: TableView, p: PlacementView) -> TableView {
    if v.workers.contains_key(p.wid) && v.workers[p.wid].counter == p.counter {
        let entry = v.workers[p.wid];
        TableView {
            workers: v.workers.insert(
                p.wid,
                WorkerView { inflight_mem_mib: wrapped_difference(entry.inflight_mem_mib, p.reserved_mib), ..entry },
            ),
            ..v
        }
    } else {
        v
    }
}

/// The placement on a worker.
pub open spec fn placement_on(v: TableView, wid: Seq<char>, mib: u64) -> PlacementView {
    let entry = v.workers[wid];
    PlacementView { wid: entry.heartbeat.wid, url: entry.heartbeat.url, reserved_mib: mib, counter: entry.counter }
}

/// The workers that a sandbox may be placed on, in the given order.
pub open spec fn eligible(
    v: TableView,
    order: Seq<Seq<char>>,
    now: u64,
    needs: NeedsView,
    exclude: Seq<String>,
) -> Seq<Seq<char>>
    decreases order.len(),
{
    if order.len() == 0 {
        Seq::empty()
    } else {
        let rest = eligible(v, order.drop_last(), now, needs, exclude);
        if v.workers[order.last()].is_eligible(v.config, now, needs, exclude) {
            rest.push(order.last())
        } else {
            rest
        }
    }
}

proof fn lemma_eligible(v: TableView, order: Seq<Seq<char>>, now: u64, needs: NeedsView, exclude: Seq<String>)
    ensures
        forall|k: Seq<char>| #[trigger]
            eligible(v, order, now, needs, exclude).contains(k) <==> order.contains(k) && v.workers[k].is_eligible(
                v.config,
                now,
                needs,
                exclude,
            ),
    decreases order.len(),
{
    if order.len() > 0 {
        let rest = order.drop_last();
        lemma_eligible(v, rest, now, needs, exclude);
        let a = eligible(v, rest, now, needs, exclude);
        let b = eligible(v, order, now, needs, exclude);
        assert(order[order.len() - 1] == order.last());
        assert forall|k: Seq<char>| #[trigger] b.contains(k) <==> order.contains(k) && v.workers[k].is_eligible(
            v.config,
            now,
            needs,
            exclude,
        ) by {
            assert(a.contains(k) <==> rest.contains(k) && v.workers[k].is_eligible(v.config, now, needs, exclude));
            if rest.contains(k) {
                let i = choose|i: int| 0 <= i < rest.len() && rest[i] == k;
                assert(order[i] == k);
            }
            if order.contains(k) && k != order.last() {
                let i = choose|i: int| 0 <= i < order.len() && order[i] == k;
                assert(rest[i] == k);
            }
            if a.contains(k) {
                let i = choose|i: int| 0 <= i < a.len() && a[i] == k;
                assert(b[i] == k);
            }
            if b.contains(k) {
                let i = choose|i: int| 0 <= i < b.len() && b[i] == k;
                if i < a.len() {
                    assert(a[i] == k);
                }
            }
            if b.len() > a.len() {
                assert(b[a.len() as int] == order.last());
            }
        }
    }
}

/// What is compared of the workers that a sandbox may be placed on.
pub open spec fn weighs(c: Candidate, entry: WorkerView) -> bool {
    c.wid@ == entry.heartbeat.wid && c.reserved == entry.reserved() && c.caps == entry.heartbeat.caps.mem_mib
}

/// Whether `a` is at most as loaded as `b`.
pub open spec fn at_most_as_loaded(a: WorkerView, b: WorkerView) -> bool {
    a.reserved() * b.heartbeat.caps.mem_mib <= b.reserved() * a.heartbeat.caps.mem_mib
}

/// The worker that two draws lead to among those of a list.
pub open spec fn drawn(v: TableView, list: Seq<Seq<char>>, first: u64, second: u64) -> Seq<char> {
    let n = list.len() as int;
    let a = list[first as int % n];
    let b = list[second as int % n];
    if n == 1 {
        list[0]
    } else if at_most_as_loaded(v.workers[a], v.workers[b]) {
        a
    } else {
        b
    }
}

/// The heartbeats of those workers that are live, in the given order.
pub open spec fn live_beats(v: TableView, order: Seq<Seq<char>>, now: u64) -> Seq<HeartbeatView>
    decreases order.len(),
{
    if order.len() == 0 {
        Seq::empty()
    } else {
        let rest = live_beats(v, order.drop_last(), now);
        let entry = v.workers[order.last()];
        if entry.is_live(now, v.config.dead_after) {
            rest.push(entry.heartbeat)
        } else {
            rest
        }
    }
}

/// The workers that are to be forgotten, in the given order.
pub open spec fn overdue(v: TableView, order: Seq<Seq<char>>, now: u64) -> Seq<Seq<char>>
    decreases order.len(),
{
    if order.len() == 0 {
        Seq::empty()
    } else {
        let rest = overdue(v, order.drop_last(), now);
        if age(v.workers[order.last()].seen, now) > v.config.reap_after {
            rest.push(order.last())
        } else {
            rest
        }
    }
}

/// The table without the workers that are to be forgotten.
pub open spec fn without_overdue(v: TableView, now: u64) -> TableView {
    TableView {
        workers: v.workers.restrict(
            Set::new(
                |k: Seq<char>| v.workers.contains_key(k) && age(v.workers[k].seen, now) <= v.config.reap_after,
            ),
        ),
        ..v
    }
}

proof fn lemma_overdue(v: TableView, order: Seq<Seq<char>>, now: u64)
    requires
        order.no_duplicates(),
    ensures
        overdue(v, order, now).no_duplicates(),
        forall|k: Seq<char>| #[trigger]
            overdue(v, order, now).contains(k) <==> order.contains(k) && age(v.workers[k].seen, now)
                > v.config.reap_after,
    decreases order.len(),
{
    if order.len() > 0 {
        let rest = order.drop_last();
        let last = order.last();
        assert(rest.no_duplicates());
        lemma_overdue(v, rest, now);
        let a = overdue(v, rest, now);
        let b = overdue(v, order, now);
        assert(order[order.len() - 1] == last);
        assert(!rest.contains(last)) by {
            if rest.contains(last) {
                let i = choose|i: int| 0 <= i < rest.len() && rest[i] == last;
                assert(order[i] == order[order.len() - 1]);
            }
        }
        assert(!a.contains(last));
        assert forall|k: Seq<char>| #[trigger] b.contains(k) <==> order.contains(k) && age(v.workers[k].seen, now)
            > v.config.reap_after by {
            assert(a.contains(k) <==> rest.contains(k) && age(v.workers[k].seen, now) > v.config.reap_after);
            if rest.contains(k) {
                let i = choose|i: int| 0 <= i < rest.len() && rest[i] == k;
                assert(order[i] == k);
            }
            if order.contains(k) && k != last {
                let i = choose|i: int| 0 <= i < order.len() && order[i] == k;
                assert(rest[i] == k);
            }
            if a.contains(k) {
                let i = choose|i: int| 0 <= i < a.len() && a[i] == k;
                assert(b[i] == k);
            }
            if b.contains(k) {
                let i = choose|i: int| 0 <= i < b.len() && b[i] == k;
                if i < a.len() {
                    assert(a[i] == k);
                }
            }
            if b.len() > a.len() {
                assert(b[a.len() as int] == last);
            }
        }
        assert(b.no_duplicates()) by {
            assert forall|i: int, j: int| 0 <= i < b.len() && 0 <= j < b.len() && i != j implies b[i] != b[j] by {
                if i < a.len() && j < a.len() {
                    assert(a[i] != a[j]);
                } else if i < a.len() {
                    assert(a.contains(a[i]));
                } else if j < a.len() {
                    assert(a.contains(a[j]));
                }
            }
        }
    }
}

pub open spec fn beats_view(list: Seq<WorkerHeartbeat>) -> Seq<HeartbeatView> {
    list.map_values(|h: WorkerHeartbeat| h@)
}

impl WorkerTable {
    /// Whether every worker is found under its own name.
    pub closed spec fn wf(self) -> bool {
        &&& self.workers.wf()
        &&& forall|k: Seq<char>| #[trigger] self.workers@.contains_key(k) ==> self.workers@[k].heartbeat.wid == k
    }

    /// The workers' names, in the order in which they are gone through.
    pub closed spec fn order(self) -> Seq<Seq<char>> {
        self.workers.keys()
    }

    /// A table without workers.
    pub fn new(config: TableConfig) -> (r: WorkerTable)
        ensures
            r.wf(),
            r@ == (TableView { config, workers: Map::empty(), next_counter: 0 }),
    {
        WorkerTable { config, workers: Sharded::new(), next_counter: 0 }
    }

    /// Takes a heartbeat in.
    pub fn upsert(&mut self, heartbeat: WorkerHeartbeat, now: u64)
        requires
            old(self).wf(),
        ensures
            final(self).wf(),
            final(self)@ == merged(old(self)@, heartbeat@, now),
    {
        if heartbeat.ver != WIRE_VERSION {
            return;
        }
        let wid = heartbeat.wid.clone();
        let next = match self.workers.get(wid.as_str()) {
            Some(entry) => {
                if !heartbeat.newer_than(&entry.heartbeat) {
                    return;
                }
                WorkerEntry {
                    heartbeat,
                    seen: now,
                    penalty_until: entry.penalty_until,
                    inflight_mem_mib: entry.inflight_mem_mib,
                    counter: entry.counter,
                }
            },
            None => {
                let counter = self.next_counter;
                self.next_counter = self.next_counter.wrapping_add(1);
                WorkerEntry { heartbeat, seen: now, penalty_until: None, inflight_mem_mib: 0, counter }
            },
        };
        self.workers.insert(wid.as_str(), next);
    }

    /// Avoids a worker for a while, after it refused or failed a create.
    pub fn penalize(&mut self, wid: &str, now: u64, duration: u64)
        requires
            old(self).wf(),
            now + duration <= u64::MAX,
        ensures
            final(self).wf(),
            final(self)@ == avoided(old(self)@, wid@, (now + duration) as u64),
    {
        let next = match self.workers.get(wid) {
            None => return,
            Some(entry) => {
                let mut copy = entry.copy();
                copy.penalty_until = Some(now + duration);
                copy
            },
        };
        self.workers.insert(wid, next);
    }

    fn candidates(&self, now: u64, needs: &PlacementNeeds, exclude: &Vec<String>) -> (r: Vec<Candidate>)
        requires
            self.wf(),
        ensures
            ({
                let list = eligible(self@, self.order(), now, needs@, exclude@);
                &&& r@.len() == list.len()
                &&& forall|i: int|
                    0 <= i < r@.len() ==> weighs(#[trigger] r@[i], self@.workers[list[i]]) && r@[i].wid@ == list[i]
            }),
    {
        let mut out: Vec<Candidate> = Vec::new();
        let n = self.workers.len();
        let ghost order = self.order();
        let mut i: usize = 0;
        assert(order.take(0) =~= Seq::empty());
        while i < n
            invariant
                i <= n,
                n == order.len(),
                order == self.order(),
                self.wf(),
                out@.len() == eligible(self@, order.take(i as int), now, needs@, exclude@).len(),
                forall|j: int|
                    0 <= j < out@.len() ==> weighs(
                        #[trigger] out@[j],
                        self@.workers[eligible(self@, order.take(i as int), now, needs@, exclude@)[j]],
                    ) && out@[j].wid@ == eligible(self@, order.take(i as int), now, needs@, exclude@)[j],
            decreases n - i,
        {
            let ghost list = eligible(self@, order.take(i as int), now, needs@, exclude@);
            let entry = self.workers.value_at(i);
            assert(order.take(i + 1).drop_last() =~= order.take(i as int));
            assert(order.take(i + 1).last() == order[i as int]);
            assert(entry@ == self@.workers[order[i as int]]);
            if entry.is_eligible(self.config, now, needs, exclude) {
                let ghost before = out@;
                out.push(
                    Candidate {
                        wid: entry.heartbeat.wid.clone(),
                        reserved: entry.heartbeat.used.mem_mib + entry.inflight_mem_mib,
                        caps: entry.heartbeat.caps.mem_mib,
                    },
                );
                assert forall|j: int| 0 <= j < out@.len() implies weighs(
                    #[trigger] out@[j],
                    self@.workers[list.push(order[i as int])[j]],
                ) && out@[j].wid@ == list.push(order[i as int])[j] by {
                    if j < before.len() {
                        assert(out@[j] == before[j]);
                    }
                }
            }
            i = i + 1;
        }
        assert(order.take(i as int) =~= order);
        out
    }

    /// Places a sandbox on the worker that two draws lead to.
    pub fn pick_drawn(
        &mut self,
        now: u64,
        needs: &PlacementNeeds,
        exclude: &Vec<String>,
        first: u64,
        second: u64,
    ) -> (r: Option<Placement>)
        requires
            old(self).wf(),
        ensures
            final(self).wf(),
            ({
                let v = old(self)@;
                let list = eligible(v, old(self).order(), now, needs@, exclude@);
                let wid = drawn(v, list, first, second);
                match r {
                    Some(p) => list.len() > 0 && list.contains(wid) && v.workers.contains_key(wid)
                        && v.workers[wid].is_eligible(v.config, now, needs@, exclude@) && p@ == placement_on(
                        v,
                        wid,
                        needs@.mem_mib,
                    ) && p@.wid == wid && final(self)@ == with_reservation(v, wid, needs@.mem_mib),
                    None => list.len() == 0 && final(self)@ == v && forall|k: Seq<char>| #[trigger]
                        v.workers.contains_key(k) ==> !v.workers[k].is_eligible(v.config, now, needs@, exclude@),
                }
            }),
    {
        let candidates = self.candidates(now, needs, exclude);
        let count = self.workers.len();
        let ghost v = self@;
        let ghost list = eligible(v, self.order(), now, needs@, exclude@);
        proof {
            lemma_eligible(v, self.order(), now, needs@, exclude@);
        }
        if candidates.len() == 0 {
            assert forall|k: Seq<char>| #[trigger] v.workers.contains_key(k) implies !v.workers[k].is_eligible(
                v.config,
                now,
                needs@,
                exclude@,
            ) by {
                assert(self.order().contains(k));
                assert(!list.contains(k));
            }
            return None;
        }
        let at = choose_candidate(&candidates, first, second);
        proof {
            let n = list.len() as int;
            let a = first as int % n;
            let b = second as int % n;
            assert(0 <= a < n && 0 <= b < n);
            assert(weighs(candidates@[a], v.workers[list[a]]));
            assert(weighs(candidates@[b], v.workers[list[b]]));
            assert(list[at as int] == drawn(v, list, first, second));
            assert(list.contains(list[at as int]));
            assert(candidates@[at as int].wid@ == list[at as int]);
        }
        let wid = candidates[at].wid.clone();
        assert(self.order().contains(wid@));
        let (next, placement) = match self.workers.get(wid.as_str()) {
            None => return None,
            Some(entry) => {
                let mut next = entry.copy();
                next.inflight_mem_mib = next.inflight_mem_mib.wrapping_add(needs.mem_mib);
                let placement = Placement {
                    wid: entry.heartbeat.wid.clone(),
                    url: entry.heartbeat.url.clone(),
                    reserved_mib: needs.mem_mib,
                    counter: entry.counter,
                };
                (next, placement)
            },
        };
        self.workers.insert(wid.as_str(), next);
        Some(placement)
    }

    /// Places a sandbox: of two workers drawn at random among those that it may be
    /// placed on, the less loaded is taken.
    pub fn pick(&mut self, now: u64, needs: &PlacementNeeds, exclude: &Vec<String>) -> (r: Option<Placement>)
        requires
            old(self).wf(),
        ensures
            final(self).wf(),
            ({
                let v = old(self)@;
                match r {
                    Some(p) => v.workers.contains_key(p@.wid) && v.workers[p@.wid].is_eligible(
                        v.config,
                        now,
                        needs@,
                        exclude@,
                    ) && p@ == placement_on(v, p@.wid, needs@.mem_mib) && final(self)@ == with_reservation(
                        v,
                        p@.wid,
                        needs@.mem_mib,
                    ),
                    None => final(self)@ == v && forall|k: Seq<char>| #[trigger]
                        v.workers.contains_key(k) ==> !v.workers[k].is_eligible(v.config, now, needs@, exclude@),
                }
            }),
    {
        let first = random_u64();
        let second = random_u64();
        self.pick_drawn(now, needs, exclude, first, second)
    }

    /// Gives a placement's reservation back.
    pub fn release(&mut self, placement: Placement)
        requires
            old(self).wf(),
        ensures
            final(self).wf(),
            final(self)@ == without_reservation(old(self)@, placement@),
    {
        let next = match self.workers.get(placement.wid.as_str()) {
            None => return,
            Some(entry) => {
                if entry.counter != placement.counter {
                    return;
                }
                let mut copy = entry.copy();
                copy.inflight_mem_mib = copy.inflight_mem_mib.wrapping_sub(placement.reserved_mib);
                copy
            },
        };
        self.workers.insert(placement.wid.as_str(), next);
    }

    /// The heartbeats of the workers that are live.
    pub fn live(&self, now: u64) -> (r: Vec<WorkerHeartbeat>)
        requires
            self.wf(),
        ensures
            beats_view(r@) == live_beats(self@, self.order(), now),
    {
        let mut out: Vec<WorkerHeartbeat> = Vec::new();
        let n = self.workers.len();
        let ghost order = self.order();
        let mut i: usize = 0;
        assert(order.take(0) =~= Seq::empty());
        assert(beats_view(out@) =~= Seq::empty());
        while i < n
            invariant
                i <= n,
                n == order.len(),
                order == self.order(),
                self.wf(),
                beats_view(out@) == live_beats(self@, order.take(i as int), now),
            decreases n - i,
        {
            let entry = self.workers.value_at(i);
            assert(order.take(i + 1).drop_last() =~= order.take(i as int));
            assert(order.take(i + 1).last() == order[i as int]);
            assert(entry@ == self@.workers[order[i as int]]);
            if age_of(entry.seen, now) <= self.config.dead_after {
                let ghost before = beats_view(out@);
                let beat = entry.heartbeat.clone();
                let ghost b = beat@;
                out.push(beat);
                assert(beats_view(out@) =~= before.push(b));
            }
            i = i + 1;
        }
        assert(order.take(i as int) =~= order);
        out
    }

    /// Where a worker is reached, live or not.
    pub fn url_of(&self, wid: &str) -> (r: Option<String>)
        requires
            self.wf(),
        ensures
            match r {
                Some(url) => self@.workers.contains_key(wid@) && url@ == self@.workers[wid@].heartbeat.url,
                None => !self@.workers.contains_key(wid@),
            },
    {
        match self.workers.get(wid) {
            Some(entry) => Some(entry.heartbeat.url.clone()),
            None => None,
        }
    }

    fn overdue_names(&self, now: u64) -> (r: Vec<String>)
        requires
            self.wf(),
        ensures
            texts(r@) == overdue(self@, self.order(), now),
    {
        let mut out: Vec<String> = Vec::new();
        let n = self.workers.len();
        let ghost order = self.order();
        let mut i: usize = 0;
        assert(order.take(0) =~= Seq::empty());
        assert(texts(out@) =~= Seq::empty());
        while i < n
            invariant
                i <= n,
                n == order.len(),
                order == self.order(),
                self.wf(),
                texts(out@) == overdue(self@, order.take(i as int), now),
            decreases n - i,
        {
            let entry = self.workers.value_at(i);
            assert(order.take(i + 1).drop_last() =~= order.take(i as int));
            assert(order.take(i + 1).last() == order[i as int]);
            assert(entry@ == self@.workers[order[i as int]]);
            if age_of(entry.seen, now) > self.config.reap_after {
                let ghost before = texts(out@);
                let name = self.workers.key_at(i).clone();
                let ghost k = name@;
                out.push(name);
                assert(texts(out@) =~= before.push(k));
            }
            i = i + 1;
        }
        assert(order.take(i as int) =~= order);
        out
    }

    /// Forgets the workers that were not heard of for too long. Returns their last
    /// heartbeats.
    pub fn reap(&mut self, now: u64) -> (r: Vec<WorkerHeartbeat>)
        requires
            old(self).wf(),
        ensures
            final(self).wf(),
            final(self)@ == without_overdue(old(self)@, now),
            ({
                let names = overdue(old(self)@, old(self).order(), now);
                &&& r@.len() == names.len()
                &&& forall|i: int|
                    0 <= i < r@.len() ==> (#[trigger] r@[i])@ == old(self)@.workers[names[i]].heartbeat
                &&& names.no_duplicates()
                &&& forall|k: Seq<char>| #[trigger]
                    names.contains(k) <==> old(self)@.workers.contains_key(k) && age(
                        old(self)@.workers[k].seen,
                        now,
                    ) > old(self)@.config.reap_after
            }),
    {
        let names = self.overdue_names(now);
        let count = self.workers.len();
        let ghost v = self@;
        let ghost dead = texts(names@);
        proof {
            lemma_overdue(v, self.order(), now);
        }
        let mut out: Vec<WorkerHeartbeat> = Vec::new();
        let mut i: usize = 0;
        assert(v.workers.remove_keys(dead.take(0).to_set()) =~= v.workers);
        while i < names.len()
            invariant
                i <= names@.len(),
                dead == texts(names@),
                dead.no_duplicates(),
                forall|k: Seq<char>| #[trigger] dead.contains(k) ==> v.workers.contains_key(k),
                self.wf(),
                self@ == (TableView { workers: v.workers.remove_keys(dead.take(i as int).to_set()), ..v }),
                out@.len() == i,
                forall|j: int| 0 <= j < i ==> (#[trigger] out@[j])@ == v.workers[dead[j]].heartbeat,
            decreases names@.len() - i,
        {
            proof {
                let k = dead[i as int];
                assert(dead.contains(k));
                assert(!dead.take(i as int).contains(k)) by {
                    if dead.take(i as int).contains(k) {
                        let j = choose|j: int| 0 <= j < i && dead.take(i as int)[j] == k;
                        assert(dead[j] == dead[i as int]);
                    }
                }
                assert(self@.workers.contains_key(k));
                assert(names@[i as int]@ == k);
                assert(dead.take(i + 1) =~= dead.take(i as int).push(k));
            }
            match self.workers.remove(names[i].as_str()) {
                Some(entry) => {
                    out.push(entry.heartbeat);
                },
                None => {},
            }
            proof {
                let k = dead[i as int];
                let a = dead.take(i as int).to_set();
                let b = dead.take(i + 1).to_set();
                assert(b =~= a.insert(k)) by {
                    let t = dead.take(i as int);
                    let u = dead.take(i + 1);
                    assert forall|x: Seq<char>| u.contains(x) == (t.contains(x) || x == k) by {
                        if t.contains(x) {
                            let j = choose|j: int| 0 <= j < t.len() && t[j] == x;
                            assert(u[j] == x);
                        }
                        assert(u[i as int] == k);
                        if u.contains(x) {
                            let j = choose|j: int| 0 <= j < u.len() && u[j] == x;
                            if j < i {
                                assert(t[j] == x);
                            }
                        }
                    }
                }
                assert(v.workers.remove_keys(a).remove(k) =~= v.workers.remove_keys(b));
            }
            i = i + 1;
        }
        proof {
            assert(dead.take(i as int) =~= dead);
            assert(self@.workers =~= without_overdue(v, now).workers) by {
                assert forall|k: Seq<char>| self@.workers.contains_key(k) == without_overdue(
                    v,
                    now,
                ).workers.contains_key(k) by {
                    assert(dead.contains(k) == dead.to_set().contains(k));
                    assert(old(self).order().contains(k) <==> v.workers.contains_key(k));
                }
            }
        }
        out
    }

    /// How many workers are known, live or not.
    pub fn len(&self) -> (r: usize)
        requires
            self.wf(),
        ensures
            r == self@.workers.dom().len(),
            self@.workers.dom().finite(),
    {
        self.workers.len()
    }

    /// Whether no worker is known.
    pub fn is_empty(&self) -> (r: bool)
        requires
            self.wf(),
        ensures
            r == (self@.workers == Map::<Seq<char>, WorkerView>::empty()),
    {
        let n = self.workers.len();
        proof {
            if n == 0 {
                assert(self@.workers.dom() =~= Set::empty());
                assert(self@.workers =~= Map::<Seq<char>, WorkerView>::empty());
            } else {
                assert(self@.workers.dom() != Set::<Seq<char>>::empty());
            }
        }
        n == 0
    }
}

/// Giving a placement back leads to the state before it was made.
pub proof fn law_release_undoes_pick(v: TableView, wid: Seq<char>, mib: u64)
    requires
        v.workers.contains_key(wid),
        v.workers[wid].heartbeat.wid == wid,
    ensures
        without_reservation(with_reservation(v, wid, mib), placement_on(v, wid, mib)) == v,
{
    let w = without_reservation(with_reservation(v, wid, mib), placement_on(v, wid, mib));
    let n = v.workers[wid].inflight_mem_mib;
    assert(wrapped_difference(wrapped_sum(n, mib), mib) == n);
    assert(w.workers =~= v.workers);
}

/// A reservation keeps a second create of the same size away from a worker that
/// has room for one only.
pub proof fn law_reservation_gates(
    v: TableView,
    wid: Seq<char>,
    now: u64,
    needs: NeedsView,
    exclude: Seq<String>,
)
    requires
        v.workers.contains_key(wid),
        v.workers[wid].is_eligible(v.config, now, needs, exclude),
        v.workers[wid].reserved() + 2 * needs.mem_mib > v.workers[wid].heartbeat.caps.mem_mib,
    ensures
        !with_reservation(v, wid, needs.mem_mib).workers[wid].is_eligible(v.config, now, needs, exclude),
{
}

/// A heartbeat that arrives late never takes a worker back to an earlier state.
pub proof fn law_state_never_rolls_back(v: TableView, h: HeartbeatView, now: u64, wid: Seq<char>)
    requires
        v.workers.contains_key(wid),
        forall|k: Seq<char>| #[trigger] v.workers.contains_key(k) ==> v.workers[k].heartbeat.wid == k,
    ensures
        ({
            let before = v.workers[wid].heartbeat;
            let after = merged(v, h, now).workers[wid].heartbeat;
            after == before || after.supersedes(before)
        }),
{
}

/// A heartbeat touches nothing that creates under way have left on a worker: of every
/// worker that is known before, the memory reserved, the time until which it is
/// avoided and its counter are the same after; and of every other worker than the
/// sender, all of it is.
pub proof fn law_heartbeat_keeps_reservations(v: TableView, h: HeartbeatView, now: u64, wid: Seq<char>)
    requires
        v.workers.contains_key(wid),
    ensures
        ({
            let w = merged(v, h, now);
            &&& w.workers.contains_key(wid)
            &&& w.workers[wid].inflight_mem_mib == v.workers[wid].inflight_mem_mib
            &&& w.workers[wid].penalty_until == v.workers[wid].penalty_until
            &&& w.workers[wid].counter == v.workers[wid].counter
            &&& wid != h.wid ==> w.workers[wid] == v.workers[wid]
            &&& w.next_counter == v.next_counter || !v.workers.contains_key(h.wid)
            &&& w.config == v.config
        }),
{
}

/// A heartbeat of this version that is later than the last one of its worker, or the
/// first one, is what the table shows of the worker from then on, as heard of just
/// now. A new worker has nothing reserved on it and is not avoided.
pub proof fn law_newer_heartbeat_is_shown(v: TableView, h: HeartbeatView, now: u64)
    requires
        h.ver == WIRE_VERSION,
        v.workers.contains_key(h.wid) ==> h.ts_ms > v.workers[h.wid].heartbeat.ts_ms || (h.ts_ms
            == v.workers[h.wid].heartbeat.ts_ms && h.seq > v.workers[h.wid].heartbeat.seq),
    ensures
        ({
            let w = merged(v, h, now);
            &&& w.workers.contains_key(h.wid)
            &&& w.workers[h.wid].heartbeat == h
            &&& w.workers[h.wid].seen == now
            &&& w.workers.dom() == v.workers.dom().insert(h.wid)
            &&& !v.workers.contains_key(h.wid) ==> w.workers[h.wid].inflight_mem_mib == 0
                && w.workers[h.wid].penalty_until is None && w.workers[h.wid].counter == v.next_counter
                && w.next_counter != v.next_counter
        }),
{
    assert(merged(v, h, now).workers.dom() =~= v.workers.dom().insert(h.wid));
    assert(wrapped_sum(v.next_counter, 1) != v.next_counter);
}

/// A heartbeat of another version, or one that is not later than the last one of its
/// worker, changes nothing: the worker does not even count as heard of.
pub proof fn law_stale_heartbeat_is_ignored(v: TableView, h: HeartbeatView, now: u64)
    requires
        h.ver != WIRE_VERSION || (v.workers.contains_key(h.wid) && (h.ts_ms < v.workers[h.wid].heartbeat.ts_ms || (
        h.ts_ms == v.workers[h.wid].heartbeat.ts_ms && h.seq <= v.workers[h.wid].heartbeat.seq))),
    ensures
        merged(v, h, now) == v,
{
}

/// A placement adds what it needs to the memory reserved on its worker, and nothing
/// else of the table changes.
pub proof fn law_placement_reserves(v: TableView, wid: Seq<char>, mib: u64, other: Seq<char>)
    requires
        v.workers.contains_key(wid),
        v.workers[wid].inflight_mem_mib + mib <= u64::MAX,
    ensures
        ({
            let w = with_reservation(v, wid, mib);
            let p = placement_on(v, wid, mib);
            &&& w.workers[wid] == (WorkerView {
                inflight_mem_mib: (v.workers[wid].inflight_mem_mib + mib) as u64,
                ..v.workers[wid]
            })
            &&& w.workers.dom() == v.workers.dom()
            &&& other != wid ==> w.workers[other] == v.workers[other]
            &&& w.next_counter == v.next_counter
            &&& w.config == v.config
            &&& p.url == v.workers[wid].heartbeat.url
            &&& p.wid == v.workers[wid].heartbeat.wid
            &&& p.reserved_mib == mib
            &&& p.counter == v.workers[wid].counter
        }),
{
    assert(with_reservation(v, wid, mib).workers.dom() =~= v.workers.dom());
}

/// A placement that is given back takes what it had reserved off its worker, and
/// nothing else of the table changes; a worker that came under the name of a former
/// one owes nothing for placements on that one.
pub proof fn law_release_gives_back(v: TableView, p: PlacementView, other: Seq<char>)
    ensures
        ({
            let w = without_reservation(v, p);
            &&& w.workers.dom() == v.workers.dom()
            &&& other != p.wid ==> w.workers[other] == v.workers[other]
            &&& w.next_counter == v.next_counter
            &&& w.config == v.config
            &&& v.workers.contains_key(p.wid) && v.workers[p.wid].counter != p.counter ==> w.workers[p.wid]
                == v.workers[p.wid]
            &&& v.workers.contains_key(p.wid) && v.workers[p.wid].counter == p.counter && v.workers[p.wid].inflight_mem_mib
                >= p.reserved_mib ==> w.workers[p.wid] == (WorkerView {
                inflight_mem_mib: (v.workers[p.wid].inflight_mem_mib - p.reserved_mib) as u64,
                ..v.workers[p.wid]
            })
        }),
{
    assert(without_reservation(v, p).workers.dom() =~= v.workers.dom());
}

/// Avoiding a worker, and forgetting those that are overdue, leave the memory
/// reserved on every worker that stays as it is.
pub proof fn law_only_placements_move_reservations(
    v: TableView,
    wid: Seq<char>,
    until: u64,
    now: u64,
    other: Seq<char>,
)
    requires
        v.workers.contains_key(other),
    ensures
        ({
            let a = avoided(v, wid, until);
            let r = without_overdue(v, now);
            &&& a.workers.dom() == v.workers.dom()
            &&& a.workers[other] == (WorkerView { penalty_until: a.workers[other].penalty_until, ..v.workers[other] })
            &&& other != wid ==> a.workers[other] == v.workers[other]
            &&& a.workers.contains_key(wid) ==> a.workers[wid].penalty_until == Some(until)
            &&& r.workers.contains_key(other) ==> r.workers[other] == v.workers[other]
            &&& r.workers.contains_key(other) <==> now <= v.workers[other].seen + v.config.reap_after
            &&& r.workers.dom().subset_of(v.workers.dom())
            &&& a.next_counter == v.next_counter && r.next_counter == v.next_counter
        }),
{
    assert(avoided(v, wid, until).workers.dom() =~= v.workers.dom());
}

/// Whether `list` names `key`.
pub open spec fn named_in(list: Seq<String>, key: Seq<char>) -> bool {
    exists|i: int| 0 <= i < list.len() && (#[trigger] list[i])@ == key
}

/// Where a sandbox may be placed: on a worker that was heard of lately, takes new
/// sandboxes, is not being drained, is not avoided, is not one that the caller left
/// out, and whose memory holds what is used, what is reserved and what is needed; one
/// of the wanted kind of machine, where one is wanted.
pub proof fn law_placed_where_there_is_room(
    entry: WorkerView,
    config: TableConfig,
    now: u64,
    needs: NeedsView,
    exclude: Seq<String>,
)
    ensures
        entry.is_eligible(config, now, needs, exclude) ==> {
            &&& now <= entry.seen + config.dead_after
            &&& entry.heartbeat.accepting
            &&& !entry.heartbeat.draining
            &&& entry.penalty_until is None || entry.penalty_until->0 <= now
            &&& !named_in(exclude, entry.heartbeat.wid)
            &&& entry.heartbeat.used.mem_mib + entry.inflight_mem_mib + needs.mem_mib <= entry.heartbeat.caps.mem_mib
            &&& needs.arch is Some ==> needs.arch->0.len() == entry.heartbeat.arch.len()
        },
        now <= entry.seen + config.dead_after && entry.heartbeat.accepting && !entry.heartbeat.draining && (
        entry.penalty_until is None || entry.penalty_until->0 <= now) && !named_in(exclude, entry.heartbeat.wid)
            && entry.heartbeat.caps.mem_mib > 0 && entry.heartbeat.used.mem_mib + entry.inflight_mem_mib + needs.mem_mib
            <= entry.heartbeat.caps.mem_mib && (needs.arch is None || needs.arch->0 == entry.heartbeat.arch)
            ==> entry.is_eligible(config, now, needs, exclude),
{
    if named_in(exclude, entry.heartbeat.wid) {
        let i = choose|i: int| 0 <= i < exclude.len() && (#[trigger] exclude[i])@ == entry.heartbeat.wid;
        assert(exclude[i]@ == entry.heartbeat.wid);
        assert(lists(exclude, entry.heartbeat.wid));
    }
}

/// Texts that differ only in the case of ASCII letters, and no others, count as the
/// same kind of machine.
pub proof fn law_case_is_ignored(a: Seq<char>, b: Seq<char>, i: int)
    ensures
        same_but_case(a, b) == same_but_case(b, a),
        same_but_case(a, a),
        same_but_case(a, b) ==> a.len() == b.len(),
        same_but_case(a, b) && 0 <= i < a.len() ==> a[i] == b[i] || ('A' <= a[i] <= 'Z' && b[i] as int == a[i] as int + 32)
            || ('A' <= b[i] <= 'Z' && a[i] as int == b[i] as int + 32),
        a.len() == b.len() && 0 <= i < a.len() && 'A' <= a[i] <= 'Z' && b == a.update(i, (a[i] as int + 32) as char)
            ==> same_but_case(a, b),
{
    if same_but_case(a, b) {
        assert forall|k: int| 0 <= k < b.len() implies ascii_lower(#[trigger] b[k]) == ascii_lower(a[k]) by {
            assert(ascii_lower(a[k]) == ascii_lower(b[k]));
        }
        if 0 <= i < a.len() {
            assert(ascii_lower(a[i]) == ascii_lower(b[i]));
        }
    }
    if same_but_case(b, a) {
        assert forall|k: int| 0 <= k < a.len() implies ascii_lower(#[trigger] a[k]) == ascii_lower(b[k]) by {
            assert(ascii_lower(b[k]) == ascii_lower(a[k]));
        }
    }
}

/// Of the two workers that are drawn, neither has a smaller part of its memory used
/// and reserved than the one that is taken.
pub proof fn law_drawn_is_least_loaded(v: TableView, list: Seq<Seq<char>>, first: u64, second: u64)
    requires
        list.len() > 0,
    ensures
        ({
            let a = v.workers[list[first as int % list.len() as int]];
            let b = v.workers[list[second as int % list.len() as int]];
            let c = v.workers[drawn(v, list, first, second)];
            &&& list.contains(drawn(v, list, first, second))
            &&& c == a || c == b
            &&& (c.heartbeat.used.mem_mib + c.inflight_mem_mib) * a.heartbeat.caps.mem_mib <= (
            a.heartbeat.used.mem_mib + a.inflight_mem_mib) * c.heartbeat.caps.mem_mib
            &&& (c.heartbeat.used.mem_mib + c.inflight_mem_mib) * b.heartbeat.caps.mem_mib <= (
            b.heartbeat.used.mem_mib + b.inflight_mem_mib) * c.heartbeat.caps.mem_mib
        }),
{
    let n = list.len() as int;
    let x = first as int % n;
    let y = second as int % n;
    assert(0 <= x < n && 0 <= y < n);
    assert(list.contains(list[x]) && list.contains(list[y]) && list.contains(list[0]));
}

/// The live workers are those that were heard of lately: each of them is listed with
/// its last heartbeat, and no other is.
pub proof fn law_live_were_heard_of(v: TableView, order: Seq<Seq<char>>, now: u64, h: HeartbeatView)
    ensures
        live_beats(v, order, now).contains(h) <==> exists|i: int|
            0 <= i < order.len() && v.workers[#[trigger] order[i]].heartbeat == h && now <= v.workers[order[i]].seen
                + v.config.dead_after,
        live_beats(v, order, now).len() <= order.len(),
    decreases order.len(),
{
    if order.len() > 0 {
        let rest = order.drop_last();
        law_live_were_heard_of(v, rest, now, h);
        let a = live_beats(v, rest, now);
        let b = live_beats(v, order, now);
        assert(forall|i: int| 0 <= i < rest.len() ==> #[trigger] rest[i] == order[i]);
        if b.contains(h) {
            let i = choose|i: int| 0 <= i < b.len() && b[i] == h;
            if i < a.len() {
                assert(a[i] == h);
                let k = choose|k: int|
                    0 <= k < rest.len() && v.workers[#[trigger] rest[k]].heartbeat == h && now <= v.workers[rest[k]].seen
                        + v.config.dead_after;
                assert(v.workers[order[k]].heartbeat == h);
            } else {
                assert(v.workers[order[order.len() - 1]].heartbeat == h);
            }
        }
        if exists|i: int|
            0 <= i < order.len() && v.workers[#[trigger] order[i]].heartbeat == h && now <= v.workers[order[i]].seen
                + v.config.dead_after {
            let k = choose|i: int|
                0 <= i < order.len() && v.workers[#[trigger] order[i]].heartbeat == h && now <= v.workers[order[i]].seen
                    + v.config.dead_after;
            if k < rest.len() {
                assert(v.workers[rest[k]].heartbeat == h);
                let i = choose|i: int| 0 <= i < a.len() && a[i] == h;
                assert(b[i] == h);
            } else {
                assert(b[b.len() - 1] == h);
            }
        }
    }
}

/// A request that names positive numbers is placed by them; one that names none needs
/// one processor and half a gibibyte.
pub proof fn law_needs_follow_request(m: ObjectView, cpus: u64, mib: u64)
    ensures
        m.contains_key("memory"@) && m["memory"@] == JsonView::Int(mib as int) && mib > 0 ==> needs_of(
            JsonView::Object(m),
        ).mem_mib == mib,
        m.contains_key("cpus"@) && m["cpus"@] == JsonView::Int(cpus as int) && cpus > 0 ==> needs_of(
            JsonView::Object(m),
        ).cpus == cpus,
        !m.contains_key("memory"@) ==> needs_of(JsonView::Object(m)).mem_mib == 512,
        !m.contains_key("cpus"@) ==> needs_of(JsonView::Object(m)).cpus == 1,
        !m.contains_key("arch"@) ==> needs_of(JsonView::Object(m)).arch is None,
{
}

} // verus!
