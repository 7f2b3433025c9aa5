//! The worker's side of orchestration: what it publishes of itself and of its
//! sandboxes, and whether it takes another one.
use crate::decimal::{decimal, parse_u64, parsed, render_u64};
use crate::error::{failure, EngineError, ErrorCode, ErrorView};
use crate::json::{i64_of, members_of, text_at, u64_at, Json, JsonView, ObjectView};
use crate::orch::{is_live_state, live_state, HeartbeatView, Resources, RouteView, SandboxRoute, WorkerHeartbeat, WIRE_VERSION};
use crate::orch::table::{wrapped_difference, wrapped_sum};
use crate::sharded::Sharded;
use crate::split::{lines_of, split_lines, split_words, words_of};
use crate::text::{chars_of, starts_with, string_of, text_eq, texts, trim, trimmed};
use crate::textmap::TextSet;
use vstd::prelude::*;

verus! {

/// How many heartbeats the stream holds, about.
pub const STREAM_MAXLEN: u64 = 8192;

/// How many routes are written at a time.
pub const ROUTE_BATCH_MAX: usize = 512;

/// Who a worker is, how it reports, and what limits it has. It reports every
/// `heartbeat` and counts as dead `dead_after` its last report; both are in
/// nanoseconds.
#[derive(Debug)]
pub struct OrchWorkerOptions {
    pub redis_url: String,
    pub wid: String,
    pub url: String,
    pub arch: String,
    pub backend: String,
    pub caps: Resources,
    pub heartbeat: u64,
    pub dead_after: u64,
    pub max_sandboxes: u64,
    pub memory_reserve_mib: u64,
}

pub ghost struct WorkerOptionsView {
    pub redis_url: Seq<char>,
    pub wid: Seq<char>,
    pub url: Seq<char>,
    pub arch: Seq<char>,
    pub backend: Seq<char>,
    pub caps: Resources,
    pub heartbeat: u64,
    pub dead_after: u64,
    pub max_sandboxes: u64,
    pub memory_reserve_mib: u64,
}

impl View for OrchWorkerOptions {
    type V = WorkerOptionsView;

    open spec fn view(&self) -> WorkerOptionsView {
        WorkerOptionsView {
            redis_url: self.redis_url@,
            wid: self.wid@,
            url: self.url@,
            arch: self.arch@,
            backend: self.backend@,
            caps: self.caps,
            heartbeat: self.heartbeat,
            dead_after: self.dead_after,
            max_sandboxes: self.max_sandboxes,
            memory_reserve_mib: self.memory_reserve_mib,
        }
    }
}

/// The state and the exit code of a sandbox.
#[derive(Debug)]
pub struct SandboxFacts {
    pub state: String,
    pub result: Option<i64>,
}

pub ghost struct FactsView {
    pub state: Seq<char>,
    pub result: Option<i64>,
}

impl View for SandboxFacts {
    type V = FactsView;

    open spec fn view(&self) -> FactsView {
        FactsView { state: self.state@, result: self.result }
    }
}

/// What a worker keeps: what it published last of each sandbox, and the routes
/// that it has yet to write.
pub struct OrchWorker {
    options: OrchWorkerOptions,
    seq: u64,
    inflight: u64,
    draining: bool,
    last_states: Sharded<SandboxFacts>,
    route_queue: Sharded<SandboxFacts>,
}

pub ghost struct OrchWorkerView {
    pub options: WorkerOptionsView,
    pub seq: u64,
    pub inflight: u64,
    pub draining: bool,
    pub known: Map<Seq<char>, FactsView>,
    pub queue: Map<Seq<char>, FactsView>,
}

impl View for OrchWorker {
    type V = OrchWorkerView;

    closed spec fn view(&self) -> OrchWorkerView {
        OrchWorkerView {
            options: self.options@,
            seq: self.seq,
            inflight: self.inflight,
            draining: self.draining,
            known: self.last_states@,
            queue: self.route_queue@,
        }
    }
}

/// A place for one sandbox that is being created, until it is given back.
#[derive(Debug)]
pub struct AdmitGuard {
    _place: bool,
}

/// The sandboxes that were live when they were last published.
pub open spec fn live_sandboxes(known: Map<Seq<char>, FactsView>) -> Set<Seq<char>> {
    Set::new(|k: Seq<char>| known.contains_key(k) && live_state(known[k].state))
}

pub open spec fn busy(message: Seq<char>) -> ErrorView {
    failure(ErrorCode::Busy, message)
}

/// Why no further sandbox is taken, if so: the worker is drained, has as many as
/// it may have, or has too little memory left.
pub open spec fn admission_refusal(v: OrchWorkerView, available_mib: u64) -> Option<Seq<char>> {
    let max = v.options.max_sandboxes;
    let reserve = v.options.memory_reserve_mib;
    if v.draining {
        Some("worker is draining"@)
    } else if max > 0 && live_sandboxes(v.known).len() + v.inflight >= max {
        Some("worker at capacity ("@ + decimal(max as nat) + " sandboxes)"@)
    } else if available_mib <= reserve {
        Some(
            "worker memory reserve reached ("@ + decimal(available_mib as nat) + " MiB available, "@ + decimal(
                reserve as nat,
            ) + " MiB reserved)"@,
        )
    } else {
        None
    }
}

/// The members of a view; one that is no object has none.
pub open spec fn view_members(view: JsonView) -> ObjectView {
    match members_of(view) {
        Some(m) => m,
        None => Map::empty(),
    }
}

/// The name a sandbox is known by: its name, else its id.
pub open spec fn sid_of(view: JsonView) -> Seq<char> {
    let m = view_members(view);
    match text_at(m, "name"@) {
        Some(s) if s.len() > 0 => s,
        _ => match text_at(m, "id"@) {
            Some(s) => s,
            None => Seq::empty(),
        },
    }
}

/// The state of a sandbox.
pub open spec fn state_of(view: JsonView) -> Seq<char> {
    match text_at(view_members(view), "status"@) {
        Some(s) => s,
        None => Seq::empty(),
    }
}

/// The exit code of a sandbox.
pub open spec fn result_of(view: JsonView) -> Option<i64> {
    let m = view_members(view);
    if m.contains_key("returncode"@) {
        i64_of(m["returncode"@])
    } else {
        None
    }
}

/// The processors of a sandbox.
pub open spec fn cpus_of(view: JsonView) -> u64 {
    match u64_at(view_members(view), "cpus"@) {
        Some(n) => n,
        None => 0,
    }
}

fn empty_text() -> (r: String)
    ensures
        r@ == Seq::<char>::empty(),
{
    let r = String::new();
    assert(r@ =~= Seq::<char>::empty());
    r
}

fn view_sid(view: &Json) -> (r: String)
    ensures
        r@ == sid_of(view@),
{
    match view.as_object() {
        None => {
            assert(!Map::<Seq<char>, JsonView>::empty().contains_key("name"@));
            assert(!Map::<Seq<char>, JsonView>::empty().contains_key("id"@));
            empty_text()
        },
        Some(m) => match m.filled_at("name") {
            Some(s) => s,
            None => match m.text_at("id") {
                Some(s) => s,
                None => empty_text(),
            },
        },
    }
}

fn view_state(view: &Json) -> (r: String)
    ensures
        r@ == state_of(view@),
{
    match view.as_object() {
        None => {
            assert(!Map::<Seq<char>, JsonView>::empty().contains_key("status"@));
            empty_text()
        },
        Some(m) => match m.text_at("status") {
            Some(s) => s,
            None => empty_text(),
        },
    }
}

fn view_result(view: &Json) -> (r: Option<i64>)
    ensures
        r == result_of(view@),
{
    match view.as_object() {
        None => {
            assert(!Map::<Seq<char>, JsonView>::empty().contains_key("returncode"@));
            None
        },
        Some(m) => match m.get("returncode") {
            Some(v) => v.as_i64(),
            None => None,
        },
    }
}

fn view_cpus(view: &Json) -> (r: u64)
    ensures
        r == cpus_of(view@),
{
    match view.as_object() {
        None => {
            assert(!Map::<Seq<char>, JsonView>::empty().contains_key("cpus"@));
            0
        },
        Some(m) => match m.u64_at("cpus") {
            Some(n) => n,
            None => 0,
        },
    }
}

pub open spec fn views_of(views: Seq<Json>) -> Seq<JsonView> {
    views.map_values(|j: Json| j@)
}

/// How many sandboxes are live.
pub open spec fn live_views(views: Seq<JsonView>) -> nat
    decreases views.len(),
{
    if views.len() == 0 {
        0
    } else {
        live_views(views.drop_last()) + if live_state(state_of(views.last())) {
            1nat
        } else {
            0nat
        }
    }
}

/// The processors of the sandboxes that are live.
pub open spec fn live_cpus(views: Seq<JsonView>) -> nat
    decreases views.len(),
{
    if views.len() == 0 {
        0
    } else {
        live_cpus(views.drop_last()) + if live_state(state_of(views.last())) {
            cpus_of(views.last()) as nat
        } else {
            0nat
        }
    }
}

proof fn lemma_live_grow(views: Seq<JsonView>, n: int)
    requires
        0 <= n <= views.len(),
    ensures
        live_cpus(views.take(n)) <= live_cpus(views),
        live_views(views.take(n)) <= n,
    decreases views.len(),
{
    if views.len() > 0 {
        if n == views.len() {
            assert(views.take(n) =~= views);
            lemma_live_grow(views.drop_last(), n - 1);
            assert(views.drop_last().take(n - 1) =~= views.drop_last());
        } else {
            assert(views.drop_last().take(n) =~= views.take(n));
            lemma_live_grow(views.drop_last(), n);
        }
    }
}

/// How many sandboxes are live and how many processors they have, where that can
/// be told.
pub fn live_usage(views: &Vec<Json>) -> (r: Option<(u64, u64)>)
    ensures
        match r {
            Some((running, vcpus)) => running == live_views(views_of(views@)) && vcpus == live_cpus(
                views_of(views@),
            ),
            None => live_cpus(views_of(views@)) > u64::MAX,
        },
{
    let ghost all = views_of(views@);
    let mut running: u64 = 0;
    let mut vcpus: u64 = 0;
    let mut i: usize = 0;
    assert(all.take(0) =~= Seq::empty());
    while i < views.len()
        invariant
            i <= views@.len(),
            all == views_of(views@),
            running == live_views(all.take(i as int)),
            vcpus == live_cpus(all.take(i as int)),
            running <= i,
        decreases views@.len() - i,
    {
        assert(all.take(i + 1).drop_last() =~= all.take(i as int));
        assert(all.take(i + 1).last() == views@[i as int]@);
        proof {
            lemma_live_grow(all, i + 1);
        }
        let state = view_state(&views[i]);
        if is_live_state(state.as_str()) {
            let cpus = view_cpus(&views[i]);
            if vcpus > u64::MAX - cpus {
                return None;
            }
            running = running + 1;
            vcpus = vcpus + cpus;
        }
        i = i + 1;
    }
    assert(all.take(i as int) =~= all);
    Some((running, vcpus))
}

/// The heartbeat that a worker publishes next.
pub open spec fn next_heartbeat(
    v: OrchWorkerView,
    views: Seq<JsonView>,
    available_mib: Option<u64>,
    ts_ms: u64,
    net: Option<(u64, u64)>,
) -> HeartbeatView {
    let o = v.options;
    let running = live_views(views);
    HeartbeatView {
        ver: WIRE_VERSION,
        wid: o.wid,
        url: o.url,
        arch: o.arch,
        backend: o.backend,
        seq: (v.seq + 1) as u64,
        ts_ms,
        caps: o.caps,
        used: Resources {
            vcpus: live_cpus(views) as u64,
            mem_mib: match available_mib {
                Some(available) => if o.caps.mem_mib > available {
                    (o.caps.mem_mib - available) as u64
                } else {
                    0
                },
                None => o.caps.mem_mib,
            },
        },
        running: running as u64,
        accepting: !v.draining && (o.max_sandboxes == 0 || running + v.inflight < o.max_sandboxes) && (
        available_mib matches Some(available) && available > o.memory_reserve_mib),
        draining: v.draining,
        net_rx_bytes: match net {
            Some((rx, tx)) => Some(rx),
            None => None,
        },
        net_tx_bytes: match net {
            Some((rx, tx)) => Some(tx),
            None => None,
        },
    }
}

/// What is kept and queued after the views were gone through: a sandbox that is
/// new or in another state is queued.
pub open spec fn after_views(v: OrchWorkerView, views: Seq<JsonView>) -> OrchWorkerView
    decreases views.len(),
{
    if views.len() == 0 {
        v
    } else {
        let w = after_views(v, views.drop_last());
        let sid = sid_of(views.last());
        let now = FactsView { state: state_of(views.last()), result: result_of(views.last()) };
        let fresh = !w.known.contains_key(sid) || w.known[sid].state != now.state;
        OrchWorkerView {
            known: w.known.insert(sid, now),
            queue: if fresh {
                w.queue.insert(sid, now)
            } else {
                w.queue
            },
            ..w
        }
    }
}

/// Whether one of the views is of a sandbox that is new or in another state.
pub open spec fn views_change(v: OrchWorkerView, views: Seq<JsonView>) -> bool
    decreases views.len(),
{
    if views.len() == 0 {
        false
    } else {
        let w = after_views(v, views.drop_last());
        let sid = sid_of(views.last());
        views_change(v, views.drop_last()) || !w.known.contains_key(sid) || w.known[sid].state != state_of(
            views.last(),
        )
    }
}

/// The sandboxes of views.
pub open spec fn seen(views: Seq<JsonView>) -> Set<Seq<char>>
    decreases views.len(),
{
    if views.len() == 0 {
        Set::empty()
    } else {
        seen(views.drop_last()).insert(sid_of(views.last()))
    }
}

/// What is kept and queued after sandboxes that are no longer there were noted:
/// each is queued as terminated, with the exit code it had last.
pub open spec fn after_vanished(v: OrchWorkerView, present: Set<Seq<char>>) -> OrchWorkerView {
    OrchWorkerView {
        known: v.known.restrict(present),
        queue: v.queue.union_prefer_right(
            Map::new(
                |k: Seq<char>| v.known.contains_key(k) && !present.contains(k),
                |k: Seq<char>| FactsView { state: "terminated"@, result: v.known[k].result },
            ),
        ),
        ..v
    }
}

/// What is kept and queued after a publication.
pub open spec fn after_publication(v: OrchWorkerView, views: Seq<JsonView>) -> OrchWorkerView {
    after_vanished(after_views(v, views), seen(views))
}

/// The route that is written for a queued change.
pub open spec fn route_of(v: OrchWorkerView, sid: Seq<char>, ts_ms: u64) -> RouteView {
    RouteView {
        sid,
        wid: v.options.wid,
        url: v.options.url,
        state: v.queue[sid].state,
        ts_ms,
        result: v.queue[sid].result,
    }
}

/// The queue after routes that could not be written came back: what was queued
/// since is newer and stays.
pub open spec fn requeued(queue: Map<Seq<char>, FactsView>, routes: Seq<RouteView>) -> Map<Seq<char>, FactsView>
    decreases routes.len(),
{
    if routes.len() == 0 {
        queue
    } else {
        let q = requeued(queue, routes.drop_last());
        let r = routes.last();
        if q.contains_key(r.sid) {
            q
        } else {
            q.insert(r.sid, FactsView { state: r.state, result: r.result })
        }
    }
}

pub open spec fn routes_view(routes: Seq<SandboxRoute>) -> Seq<RouteView> {
    routes.map_values(|r: SandboxRoute| r@)
}

impl OrchWorker {
    /// Whether what is kept and queued is found at its place.
    pub closed spec fn wf(self) -> bool {
        self.last_states.wf() && self.route_queue.wf()
    }

    /// The queued sandboxes, in the order in which they are gone through.
    pub closed spec fn queue_order(self) -> Seq<Seq<char>> {
        self.route_queue.keys()
    }

    /// A worker that has published nothing yet.
    pub fn new(options: OrchWorkerOptions) -> (r: OrchWorker)
        ensures
            r.wf(),
            r@ == (OrchWorkerView {
                options: options@,
                seq: 0,
                inflight: 0,
                draining: false,
                known: Map::empty(),
                queue: Map::empty(),
            }),
    {
        OrchWorker {
            options,
            seq: 0,
            inflight: 0,
            draining: false,
            last_states: Sharded::new(),
            route_queue: Sharded::new(),
        }
    }

    /// The worker's name.
    pub fn wid(&self) -> (r: &str)
        ensures
            r@ == self@.options.wid,
    {
        self.options.wid.as_str()
    }

    /// Where the worker is reached.
    pub fn url(&self) -> (r: &str)
        ensures
            r@ == self@.options.url,
    {
        self.options.url.as_str()
    }

    /// Where the store is reached that the worker reports to.
    pub fn redis_url(&self) -> (r: &str)
        ensures
            r@ == self@.options.redis_url,
    {
        self.options.redis_url.as_str()
    }

    /// The number of the last report.
    pub fn seq(&self) -> (r: u64)
        ensures
            r == self@.seq,
    {
        self.seq
    }

    /// The time between two reports, in nanoseconds.
    pub fn heartbeat(&self) -> (r: u64)
        ensures
            r == self@.options.heartbeat,
    {
        self.options.heartbeat
    }

    /// How long a report lasts, in whole milliseconds: the worker's key is gone after
    /// it, and with it the worker counts as dead.
    pub fn key_lifetime_ms(&self) -> (r: u64)
        ensures
            r == self@.options.dead_after as int / 1000000,
    {
        self.options.dead_after / 1000000
    }

    /// How many creates are under way.
    pub fn inflight(&self) -> (r: u64)
        ensures
            r == self@.inflight,
    {
        self.inflight
    }

    /// How many routes are to be written.
    pub fn queued(&self) -> (r: usize)
        requires
            self.wf(),
        ensures
            r == self@.queue.dom().len(),
            self@.queue.dom().finite(),
    {
        self.route_queue.len()
    }

    /// Notes whether the worker is drained.
    pub fn set_draining(&mut self, draining: bool)
        requires
            old(self).wf(),
        ensures
            final(self).wf(),
            final(self)@ == (OrchWorkerView { draining, ..old(self)@ }),
    {
        self.draining = draining;
    }

    fn live_count(&self) -> (r: usize)
        requires
            self.wf(),
        ensures
            live_sandboxes(self@.known).finite(),
            r == live_sandboxes(self@.known).len(),
    {
        let n = self.last_states.len();
        let ghost keys = self.last_states.keys();
        let ghost known = self@.known;
        let mut count: usize = 0;
        let mut i: usize = 0;
        let ghost mut found: Set<Seq<char>> = Set::empty();
        while i < n
            invariant
                i <= n,
                n == keys.len(),
                self.wf(),
                keys == self.last_states.keys(),
                known == self@.known,
                keys.no_duplicates(),
                forall|k: Seq<char>| #[trigger] known.contains_key(k) <==> keys.contains(k),
                found.finite(),
                found.len() == count,
                count <= i,
                forall|k: Seq<char>| #[trigger]
                    found.contains(k) <==> keys.take(i as int).contains(k) && live_state(known[k].state),
            decreases n - i,
        {
            let entry = self.last_states.value_at(i);
            let ghost k = keys[i as int];
            let ghost before = found;
            proof {
                assert(!keys.take(i as int).contains(k)) by {
                    if keys.take(i as int).contains(k) {
                        let j = choose|j: int| 0 <= j < i && keys.take(i as int)[j] == k;
                        assert(keys[j] == keys[i as int]);
                    }
                }
            }
            if is_live_state(entry.state.as_str()) {
                count = count + 1;
                proof {
                    found = found.insert(k);
                }
            }
            proof {
                let a = keys.take(i as int);
                let b = keys.take(i + 1);
                assert forall|x: Seq<char>| #[trigger] found.contains(x) <==> b.contains(x) && live_state(
                    known[x].state,
                ) by {
                    assert(before.contains(x) <==> a.contains(x) && live_state(known[x].state));
                    if a.contains(x) {
                        let j = choose|j: int| 0 <= j < a.len() && a[j] == x;
                        assert(b[j] == x);
                    }
                    assert(b[i as int] == k);
                    if b.contains(x) {
                        let j = choose|j: int| 0 <= j < b.len() && b[j] == x;
                        if j < i {
                            assert(a[j] == x);
                        }
                    }
                }
            }
            i = i + 1;
        }
        proof {
            assert(keys.take(i as int) =~= keys);
            assert forall|k: Seq<char>| found.contains(k) == live_sandboxes(known).contains(k) by {
                assert(known.contains_key(k) <==> keys.contains(k));
            }
            assert(found =~= live_sandboxes(known));
        }
        count
    }

    /// Takes a place for a sandbox that is to be created, where the worker takes
    /// another one.
    pub fn admit_with_available(&mut self, available_mib: u64) -> (r: Result<AdmitGuard, EngineError>)
        requires
            old(self).wf(),
        ensures
            final(self).wf(),
            match r {
                Ok(_) => admission_refusal(old(self)@, available_mib) is None && final(self)@ == (OrchWorkerView {
                    inflight: wrapped_sum(old(self)@.inflight, 1),
                    ..old(self)@
                }),
                Err(e) => final(self)@ == old(self)@ && (admission_refusal(old(self)@, available_mib) matches Some(m)
                    && e@ == busy(m)),
            },
    {
        if self.draining {
            return Err(EngineError::busy("worker is draining".to_owned()));
        }
        let max = self.options.max_sandboxes;
        let live = self.live_count();
        if max > 0 && live as u128 + self.inflight as u128 >= max as u128 {
            let mut message = "worker at capacity (".to_owned();
            message.append(render_u64(max).as_str());
            message.append(" sandboxes)");
            return Err(EngineError::busy(message));
        }
        let reserve = self.options.memory_reserve_mib;
        if available_mib <= reserve {
            let mut message = "worker memory reserve reached (".to_owned();
            message.append(render_u64(available_mib).as_str());
            message.append(" MiB available, ");
            message.append(render_u64(reserve).as_str());
            message.append(" MiB reserved)");
            return Err(EngineError::busy(message));
        }
        self.inflight = self.inflight.wrapping_add(1);
        Ok(AdmitGuard { _place: true })
    }

    /// Takes a place for a sandbox, or says why the free memory is not known.
    pub fn admit_create(&mut self, available_mib: Result<u64, String>) -> (r: Result<AdmitGuard, EngineError>)
        requires
            old(self).wf(),
        ensures
            final(self).wf(),
            match available_mib {
                Err(reason) => final(self)@ == old(self)@ && (r matches Err(e) && e@ == busy(
                    "worker memory headroom unavailable: "@ + reason@,
                )),
                Ok(available) => match r {
                    Ok(_) => admission_refusal(old(self)@, available) is None && final(self)@ == (OrchWorkerView {
                        inflight: wrapped_sum(old(self)@.inflight, 1),
                        ..old(self)@
                    }),
                    Err(e) => final(self)@ == old(self)@ && (admission_refusal(old(self)@, available) matches Some(m)
                        && e@ == busy(m)),
                },
            },
    {
        match available_mib {
            Err(reason) => Err(
                EngineError::busy(crate::text::cat2("worker memory headroom unavailable: ", reason.as_str())),
            ),
            Ok(available) => self.admit_with_available(available),
        }
    }

    /// Gives a place back.
    pub fn leave(&mut self, guard: AdmitGuard)
        requires
            old(self).wf(),
        ensures
            final(self).wf(),
            final(self)@ == (OrchWorkerView { inflight: wrapped_difference(old(self)@.inflight, 1), ..old(self)@ }),
    {
        let _given_back = guard;
        self.inflight = self.inflight.wrapping_sub(1);
    }

    /// The heartbeat that is published next.
    pub fn build_heartbeat(
        &mut self,
        views: &Vec<Json>,
        available_mib: Option<u64>,
        ts_ms: u64,
        net: Option<(u64, u64)>,
    ) -> (r: WorkerHeartbeat)
        requires
            old(self).wf(),
            old(self)@.seq < u64::MAX,
            live_cpus(views_of(views@)) <= u64::MAX,
        ensures
            final(self).wf(),
            r@ == next_heartbeat(old(self)@, views_of(views@), available_mib, ts_ms, net),
            final(self)@ == (OrchWorkerView { seq: (old(self)@.seq + 1) as u64, ..old(self)@ }),
    {
        let (running, vcpus): (u64, u64) = match live_usage(views) {
            Some(usage) => usage,
            None => (0, 0),
        };
        let caps = self.options.caps;
        let mem_mib: u64 = match available_mib {
            Some(available) => if caps.mem_mib > available {
                caps.mem_mib - available
            } else {
                0
            },
            None => caps.mem_mib,
        };
        let max = self.options.max_sandboxes;
        let below_count_ceiling = max == 0 || running as u128 + (self.inflight as u128) < max as u128;
        let has_memory_headroom = match available_mib {
            Some(available) => available > self.options.memory_reserve_mib,
            None => false,
        };
        let (net_rx_bytes, net_tx_bytes) = match net {
            Some((rx, tx)) => (Some(rx), Some(tx)),
            None => (None, None),
        };
        self.seq = self.seq + 1;
        WorkerHeartbeat {
            ver: WIRE_VERSION,
            wid: self.options.wid.clone(),
            url: self.options.url.clone(),
            arch: self.options.arch.clone(),
            backend: self.options.backend.clone(),
            seq: self.seq,
            ts_ms,
            caps,
            used: Resources { vcpus, mem_mib },
            running,
            accepting: !self.draining && below_count_ceiling && has_memory_headroom,
            draining: self.draining,
            net_rx_bytes,
            net_tx_bytes,
        }
    }

    fn note_views(&mut self, views: &Vec<Json>) -> (r: (TextSet, bool))
        requires
            old(self).wf(),
        ensures
            final(self).wf(),
            final(self)@ == after_views(old(self)@, views_of(views@)),
            r.0@ == seen(views_of(views@)),
            r.1 == views_change(old(self)@, views_of(views@)),
    {
        let ghost start = self@;
        let ghost all = views_of(views@);
        let mut present = TextSet::new();
        let mut changed = false;
        let mut i: usize = 0;
        assert(all.take(0) =~= Seq::empty());
        while i < views.len()
            invariant
                i <= views@.len(),
                all == views_of(views@),
                self.wf(),
                self@ == after_views(start, all.take(i as int)),
                present@ == seen(all.take(i as int)),
                changed == views_change(start, all.take(i as int)),
            decreases views@.len() - i,
        {
            assert(all.take(i + 1).drop_last() =~= all.take(i as int));
            assert(all.take(i + 1).last() == views@[i as int]@);
            let sid = view_sid(&views[i]);
            let state = view_state(&views[i]);
            let result = view_result(&views[i]);
            let fresh = match self.last_states.get(sid.as_str()) {
                None => true,
                Some(known) => !text_eq(known.state.as_str(), state.as_str()),
            };
            self.last_states.insert(sid.as_str(), SandboxFacts { state: state.clone(), result });
            if fresh {
                self.route_queue.insert(sid.as_str(), SandboxFacts { state, result });
                changed = true;
            }
            present.insert(sid);
            i = i + 1;
        }
        assert(all.take(i as int) =~= all);
        (present, changed)
    }

    fn vanished(&self, present: &TextSet) -> (r: Vec<String>)
        requires
            self.wf(),
        ensures
            texts(r@).no_duplicates(),
            forall|k: Seq<char>| #[trigger]
                texts(r@).contains(k) <==> self@.known.contains_key(k) && !present@.contains(k),
    {
        let n = self.last_states.len();
        let ghost keys = self.last_states.keys();
        let mut out: Vec<String> = Vec::new();
        let mut i: usize = 0;
        while i < n
            invariant
                i <= n,
                n == keys.len(),
                self.wf(),
                keys == self.last_states.keys(),
                keys.no_duplicates(),
                forall|k: Seq<char>| #[trigger] self@.known.contains_key(k) <==> keys.contains(k),
                texts(out@).no_duplicates(),
                forall|k: Seq<char>| #[trigger]
                    texts(out@).contains(k) <==> keys.take(i as int).contains(k) && !present@.contains(k),
            decreases n - i,
        {
            let ghost before = texts(out@);
            let ghost k = keys[i as int];
            let name = self.last_states.key_at(i);
            if !present.contains(name.as_str()) {
                out.push(name.clone());
                assert(texts(out@) =~= before.push(k));
            }
            proof {
                let a = keys.take(i as int);
                let b = keys.take(i + 1);
                let after = texts(out@);
                assert(!a.contains(k)) by {
                    if a.contains(k) {
                        let j = choose|j: int| 0 <= j < a.len() && a[j] == k;
                        assert(keys[j] == keys[i as int]);
                    }
                }
                assert(!before.contains(k));
                assert forall|x: Seq<char>| #[trigger] after.contains(x) <==> b.contains(x) && !present@.contains(x) by {
                    assert(before.contains(x) <==> a.contains(x) && !present@.contains(x));
                    if a.contains(x) {
                        let j = choose|j: int| 0 <= j < a.len() && a[j] == x;
                        assert(b[j] == x);
                    }
                    assert(b[i as int] == k);
                    if b.contains(x) {
                        let j = choose|j: int| 0 <= j < b.len() && b[j] == x;
                        if j < i {
                            assert(a[j] == x);
                        }
                    }
                    if before.contains(x) {
                        let j = choose|j: int| 0 <= j < before.len() && before[j] == x;
                        assert(after[j] == x);
                    }
                    if after.contains(x) {
                        let j = choose|j: int| 0 <= j < after.len() && after[j] == x;
                        if j < before.len() {
                            assert(before[j] == x);
                        }
                    }
                    if after.len() > before.len() {
                        assert(after[before.len() as int] == k);
                    }
                }
                assert(after.no_duplicates()) by {
                    assert forall|x: int, y: int|
                        0 <= x < after.len() && 0 <= y < after.len() && x != y implies after[x] != after[y] by {
                        if x < before.len() && y < before.len() {
                            assert(before[x] != before[y]);
                        } else if x < before.len() {
                            assert(before.contains(before[x]));
                        } else if y < before.len() {
                            assert(before.contains(before[y]));
                        }
                    }
                }
            }
            i = i + 1;
        }
        assert(keys.take(i as int) =~= keys);
        out
    }

    /// Notes the sandboxes that there are now, and queues the routes that are to be
    /// written for it. Returns whether there are any.
    pub fn enqueue_route_changes(&mut self, views: &Vec<Json>) -> (r: bool)
        requires
            old(self).wf(),
        ensures
            final(self).wf(),
            final(self)@ == after_publication(old(self)@, views_of(views@)),
            r == (views_change(old(self)@, views_of(views@)) || exists|k: Seq<char>| #[trigger]
                old(self)@.known.contains_key(k) && !seen(views_of(views@)).contains(k)),
    {
        let ghost start = self@;
        let ghost all = views_of(views@);
        let (present, changed) = self.note_views(views);
        let gone = self.vanished(&present);
        let ghost mid = self@;
        let ghost names = texts(gone@);
        let mut i: usize = 0;
        assert(mid.known.remove_keys(names.take(0).to_set()) =~= mid.known);
        while i < gone.len()
            invariant
                i <= gone@.len(),
                names == texts(gone@),
                names.no_duplicates(),
                forall|k: Seq<char>| #[trigger]
                    names.contains(k) <==> mid.known.contains_key(k) && !present@.contains(k),
                self.wf(),
                self@ == (OrchWorkerView { known: self@.known, queue: self@.queue, ..mid }),
                forall|k: Seq<char>| #[trigger]
                    self@.known.contains_key(k) <==> mid.known.contains_key(k) && !names.take(i as int).contains(k),
                forall|k: Seq<char>| #[trigger] self@.known.contains_key(k) ==> self@.known[k] == mid.known[k],
                forall|k: Seq<char>| #[trigger]
                    self@.queue.contains_key(k) <==> mid.queue.contains_key(k) || names.take(i as int).contains(k),
                forall|k: Seq<char>| #[trigger]
                    self@.queue.contains_key(k) ==> self@.queue[k] == if names.take(i as int).contains(k) {
                        FactsView { state: "terminated"@, result: mid.known[k].result }
                    } else {
                        mid.queue[k]
                    },
            decreases gone@.len() - i,
        {
            let ghost before = self@;
            let ghost sid = names[i as int];
            proof {
                let a = names.take(i as int);
                let b = names.take(i + 1);
                assert(names.contains(sid));
                assert(!a.contains(sid)) by {
                    if a.contains(sid) {
                        let j = choose|j: int| 0 <= j < a.len() && a[j] == sid;
                        assert(names[j] == names[i as int]);
                    }
                }
                assert(gone@[i as int]@ == sid);
                assert forall|x: Seq<char>| #[trigger] b.contains(x) <==> a.contains(x) || x == sid by {
                    if a.contains(x) {
                        let j = choose|j: int| 0 <= j < a.len() && a[j] == x;
                        assert(b[j] == x);
                    }
                    assert(b[i as int] == sid);
                    if b.contains(x) {
                        let j = choose|j: int| 0 <= j < b.len() && b[j] == x;
                        if j < i {
                            assert(a[j] == x);
                        }
                    }
                }
                assert(before.known.contains_key(sid));
            }
            match self.last_states.remove(gone[i].as_str()) {
                None => {},
                Some(known) => {
                    self.route_queue.insert(
                        gone[i].as_str(),
                        SandboxFacts { state: "terminated".to_owned(), result: known.result },
                    );
                },
            }
            i = i + 1;
        }
        proof {
            assert(names.take(i as int) =~= names);
            let want = after_vanished(mid, present@);
            assert(self@.known =~= want.known);
            assert(self@.queue =~= want.queue);
            lemma_known_after_views(start, all);
            if gone@.len() > 0 {
                assert(names.contains(names[0]));
                assert(start.known.contains_key(names[0]));
            } else {
                assert forall|k: Seq<char>| start.known.contains_key(k) implies seen(all).contains(k) by {
                    if !seen(all).contains(k) {
                        assert(mid.known.contains_key(k));
                        assert(names.contains(k));
                    }
                }
            }
        }
        changed || gone.len() > 0
    }

    /// Takes queued changes out, at most as many as are written at a time, as the
    /// routes that are to be written.
    pub fn drain_batch(&mut self, ts_ms: u64) -> (r: Vec<SandboxRoute>)
        requires
            old(self).wf(),
        ensures
            final(self).wf(),
            ({
                let v = old(self)@;
                let order = old(self).queue_order();
                let n = if order.len() < ROUTE_BATCH_MAX {
                    order.len() as int
                } else {
                    ROUTE_BATCH_MAX as int
                };
                let batch = order.take(n);
                &&& order.no_duplicates()
                &&& forall|k: Seq<char>| #[trigger] v.queue.contains_key(k) <==> order.contains(k)
                &&& r@.len() == n
                &&& forall|i: int| 0 <= i < n ==> (#[trigger] r@[i])@ == route_of(v, batch[i], ts_ms)
                &&& final(self)@ == (OrchWorkerView { queue: v.queue.remove_keys(batch.to_set()), ..v })
            }),
    {
        let total = self.route_queue.len();
        let n: usize = if total < ROUTE_BATCH_MAX {
            total
        } else {
            ROUTE_BATCH_MAX
        };
        let ghost v = self@;
        let ghost order = self.queue_order();
        let ghost batch = order.take(n as int);
        let mut sids: Vec<String> = Vec::new();
        let mut i: usize = 0;
        while i < n
            invariant
                i <= n <= order.len(),
                order == self.queue_order(),
                sids@.len() == i,
                forall|j: int| 0 <= j < i ==> (#[trigger] sids@[j])@ == order[j],
            decreases n - i,
        {
            sids.push(self.route_queue.key_at(i).clone());
            i = i + 1;
        }
        let mut out: Vec<SandboxRoute> = Vec::new();
        let mut k: usize = 0;
        assert(v.queue.remove_keys(batch.take(0).to_set()) =~= v.queue);
        while k < n
            invariant
                k <= n <= order.len(),
                n == batch.len(),
                batch == order.take(n as int),
                order.no_duplicates(),
                forall|x: Seq<char>| #[trigger] v.queue.contains_key(x) <==> order.contains(x),
                sids@.len() == n,
                forall|j: int| 0 <= j < n ==> (#[trigger] sids@[j])@ == order[j],
                self.wf(),
                self@ == (OrchWorkerView { queue: v.queue.remove_keys(batch.take(k as int).to_set()), ..v }),
                out@.len() == k,
                forall|j: int| 0 <= j < k ==> (#[trigger] out@[j])@ == route_of(v, batch[j], ts_ms),
            decreases n - k,
        {
            let ghost sid = batch[k as int];
            proof {
                let a = batch.take(k as int);
                assert(order.contains(sid)) by {
                    assert(order[k as int] == sid);
                }
                assert(!a.contains(sid)) by {
                    if a.contains(sid) {
                        let j = choose|j: int| 0 <= j < a.len() && a[j] == sid;
                        assert(order[j] == order[k as int]);
                    }
                }
                assert(self@.queue.contains_key(sid));
                assert(sids@[k as int]@ == sid);
            }
            match self.route_queue.remove(sids[k].as_str()) {
                None => {},
                Some(change) => {
                    out.push(
                        SandboxRoute {
                            sid: sids[k].clone(),
                            wid: self.options.wid.clone(),
                            url: self.options.url.clone(),
                            state: change.state,
                            ts_ms,
                            result: change.result,
                        },
                    );
                },
            }
            proof {
                let a = batch.take(k as int);
                let b = batch.take(k + 1);
                assert(b.to_set() =~= a.to_set().insert(sid)) by {
                    assert forall|x: Seq<char>| b.contains(x) == (a.contains(x) || x == sid) by {
                        if a.contains(x) {
                            let j = choose|j: int| 0 <= j < a.len() && a[j] == x;
                            assert(b[j] == x);
                        }
                        assert(b[k as int] == sid);
                        if b.contains(x) {
                            let j = choose|j: int| 0 <= j < b.len() && b[j] == x;
                            if j < k {
                                assert(a[j] == x);
                            }
                        }
                    }
                }
                assert(v.queue.remove_keys(a.to_set()).remove(sid) =~= v.queue.remove_keys(b.to_set()));
            }
            k = k + 1;
        }
        assert(batch.take(k as int) =~= batch);
        out
    }

    /// Puts routes back that could not be written.
    pub fn requeue(&mut self, routes: &Vec<SandboxRoute>)
        requires
            old(self).wf(),
        ensures
            final(self).wf(),
            final(self)@ == (OrchWorkerView { queue: requeued(old(self)@.queue, routes_view(routes@)), ..old(self)@ }),
    {
        let ghost start = self@;
        let ghost all = routes_view(routes@);
        let mut i: usize = 0;
        assert(all.take(0) =~= Seq::empty());
        while i < routes.len()
            invariant
                i <= routes@.len(),
                all == routes_view(routes@),
                self.wf(),
                self@ == (OrchWorkerView { queue: requeued(start.queue, all.take(i as int)), ..start }),
            decreases routes@.len() - i,
        {
            assert(all.take(i + 1).drop_last() =~= all.take(i as int));
            assert(all.take(i + 1).last() == routes@[i as int]@);
            let route = &routes[i];
            if self.route_queue.get(route.sid.as_str()).is_none() {
                self.route_queue.insert(
                    route.sid.as_str(),
                    SandboxFacts { state: route.state.clone(), result: route.result },
                );
            }
            i = i + 1;
        }
        assert(all.take(i as int) =~= all);
    }
}

proof fn lemma_known_after_views(v: OrchWorkerView, views: Seq<JsonView>)
    ensures
        forall|k: Seq<char>| #[trigger]
            after_views(v, views).known.contains_key(k) <==> v.known.contains_key(k) || seen(views).contains(k),
    decreases views.len(),
{
    if views.len() > 0 {
        lemma_known_after_views(v, views.drop_last());
        assert forall|k: Seq<char>| #[trigger]
            after_views(v, views).known.contains_key(k) <==> v.known.contains_key(k) || seen(views).contains(k) by {
            assert(after_views(v, views.drop_last()).known.contains_key(k) <==> v.known.contains_key(k) || seen(
                views.drop_last(),
            ).contains(k));
        }
    }
}

/// The memory in KiB that a line says is available.
pub open spec fn line_memory(line: Seq<char>) -> Option<nat> {
    if "MemAvailable:"@.is_prefix_of(line) {
        let words = words_of(line.skip("MemAvailable:"@.len() as int));
        if words.len() > 0 {
            parsed(words[0], u64::MAX as nat)
        } else {
            None
        }
    } else {
        None
    }
}

/// The memory in MiB that the first line which tells it says is available.
pub open spec fn available_memory(lines: Seq<Seq<char>>) -> Option<nat>
    decreases lines.len(),
{
    if lines.len() == 0 {
        None
    } else {
        match line_memory(lines[0]) {
            Some(kib) => Some(kib / 1024),
            None => available_memory(lines.drop_first()),
        }
    }
}

/// The memory in MiB that is available.
pub fn parse_linux_available_memory_mib(meminfo: &str) -> (r: Option<u64>)
    ensures
        match r {
            Some(mib) => available_memory(lines_of(meminfo@)) == Some(mib as nat),
            None => available_memory(lines_of(meminfo@)) is None,
        },
{
    let lines = split_lines(meminfo);
    let ghost all = texts(lines@);
    let mut i: usize = 0;
    assert(all.skip(0) =~= all);
    while i < lines.len()
        invariant
            i <= lines@.len(),
            all == texts(lines@),
            all == lines_of(meminfo@),
            available_memory(all) == available_memory(all.skip(i as int)),
        decreases lines@.len() - i,
    {
        assert(all.skip(i as int)[0] == lines@[i as int]@);
        assert(all.skip(i as int).drop_first() =~= all.skip(i + 1));
        match parse_memory_line(lines[i].as_str()) {
            Some(kib) => return Some(kib / 1024),
            None => {},
        }
        i = i + 1;
    }
    assert(all.skip(i as int) =~= Seq::empty());
    None
}

fn parse_memory_line(line: &str) -> (r: Option<u64>)
    ensures
        match r {
            Some(kib) => line_memory(line@) == Some(kib as nat),
            None => line_memory(line@) is None,
        },
{
    if !starts_with(line, "MemAvailable:") {
        return None;
    }
    proof {
        reveal_strlit("MemAvailable:");
    }
    let chars = chars_of(line);
    let value = string_of(&chars, 13, chars.len());
    assert(value@ =~= line@.skip(13));
    let words = split_words(value.as_str());
    assert(texts(words@).len() == words@.len());
    if words.len() == 0 {
        return None;
    }
    assert(texts(words@)[0] == words@[0]@);
    parse_u64(words[0].as_str(), u64::MAX)
}

/// The worker's name that a file holds, where it holds one.
pub fn stored_worker_id(existing: Option<&String>) -> (r: Option<String>)
    ensures
        match r {
            Some(id) => existing matches Some(s) && id@ == trimmed(s@) && id@.len() > 0,
            None => existing matches Some(s) ==> trimmed(s@).len() == 0,
        },
{
    match existing {
        None => None,
        Some(s) => {
            let id = trim(s.as_str());
            if id.as_str().is_empty() {
                None
            } else {
                Some(id)
            }
        },
    }
}

/// Whether a worker takes another sandbox is what its heartbeat says, as long as
/// its memory and its sandboxes are as they were published.
pub proof fn law_heartbeat_tells_admission(
    v: OrchWorkerView,
    views: Seq<JsonView>,
    available: u64,
    ts_ms: u64,
    net: Option<(u64, u64)>,
)
    requires
        live_views(views) == live_sandboxes(v.known).len(),
    ensures
        next_heartbeat(v, views, Some(available), ts_ms, net).accepting == (admission_refusal(v, available) is None),
{
}

proof fn lemma_unchanged(v: OrchWorkerView, views: Seq<JsonView>, n: int)
    requires
        0 <= n <= views.len(),
        forall|i: int|
            0 <= i < views.len() ==> v.known.contains_key(sid_of(#[trigger] views[i])) && v.known[sid_of(
                views[i],
            )].state == state_of(views[i]),
    ensures
        ({
            let w = after_views(v, views.take(n));
            &&& w.queue == v.queue
            &&& !views_change(v, views.take(n))
            &&& forall|k: Seq<char>| #[trigger] w.known.contains_key(k) <==> v.known.contains_key(k)
            &&& forall|k: Seq<char>| #[trigger] w.known.contains_key(k) ==> w.known[k].state == v.known[k].state
        }),
    decreases n,
{
    let part = views.take(n);
    if n > 0 {
        lemma_unchanged(v, views, n - 1);
        assert(part.drop_last() =~= views.take(n - 1));
        assert(part.last() == views[n - 1]);
        let w = after_views(v, views.take(n - 1));
        assert(w.known.contains_key(sid_of(views[n - 1])));
    }
}

/// A publication of sandboxes that are all in the states they were published in
/// last queues nothing.
pub proof fn law_unchanged_sandboxes_are_not_rewritten(v: OrchWorkerView, views: Seq<JsonView>)
    requires
        forall|i: int|
            0 <= i < views.len() ==> v.known.contains_key(sid_of(#[trigger] views[i])) && v.known[sid_of(
                views[i],
            )].state == state_of(views[i]),
        forall|k: Seq<char>| #[trigger] v.known.contains_key(k) ==> seen(views).contains(k),
    ensures
        after_publication(v, views).queue == v.queue,
        !views_change(v, views),
{
    lemma_unchanged(v, views, views.len() as int);
    assert(views.take(views.len() as int) =~= views);
    assert(after_publication(v, views).queue =~= v.queue);
}

proof fn lemma_views_queue(v: OrchWorkerView, views: Seq<JsonView>, sid: Seq<char>)
    requires
        after_views(v, views).queue.contains_key(sid),
    ensures
        v.queue.contains_key(sid) || seen(views).contains(sid),
    decreases views.len(),
{
    if views.len() > 0 && sid != sid_of(views.last()) {
        lemma_views_queue(v, views.drop_last(), sid);
    }
}

proof fn lemma_views_known(v: OrchWorkerView, views: Seq<JsonView>, sid: Seq<char>)
    requires
        after_views(v, views).known.contains_key(sid),
    ensures
        v.known.contains_key(sid) || seen(views).contains(sid),
    decreases views.len(),
{
    if views.len() > 0 && sid != sid_of(views.last()) {
        lemma_views_known(v, views.drop_last(), sid);
    }
}

/// What waits to be written is bounded by the sandboxes: beside what waited before
/// there is at most one change for each sandbox that there is or that was known.
pub proof fn law_queue_is_bounded_by_sandboxes(v: OrchWorkerView, views: Seq<JsonView>, sid: Seq<char>)
    requires
        after_publication(v, views).queue.contains_key(sid),
    ensures
        v.queue.contains_key(sid) || seen(views).contains(sid) || v.known.contains_key(sid),
{
    let w = after_views(v, views);
    if w.queue.contains_key(sid) {
        lemma_views_queue(v, views, sid);
    } else {
        lemma_views_known(v, views, sid);
    }
}

/// A sandbox that is gone is queued as terminated with its last exit code, and is
/// no longer kept.
pub proof fn law_vanished_sandbox_is_terminated(v: OrchWorkerView, views: Seq<JsonView>, sid: Seq<char>)
    requires
        v.known.contains_key(sid),
        !seen(views).contains(sid),
    ensures
        ({
            let w = after_publication(v, views);
            &&& !w.known.contains_key(sid)
            &&& w.queue.contains_key(sid)
            &&& w.queue[sid] == (FactsView { state: "terminated"@, result: v.known[sid].result })
        }),
{
    lemma_unseen_untouched(v, views, sid);
}

proof fn lemma_unseen_untouched(v: OrchWorkerView, views: Seq<JsonView>, sid: Seq<char>)
    requires
        v.known.contains_key(sid),
        !seen(views).contains(sid),
    ensures
        after_views(v, views).known.contains_key(sid),
        after_views(v, views).known[sid] == v.known[sid],
    decreases views.len(),
{
    if views.len() > 0 {
        lemma_unseen_untouched(v, views.drop_last(), sid);
    }
}

proof fn lemma_requeue_keeps(queue: Map<Seq<char>, FactsView>, routes: Seq<RouteView>, sid: Seq<char>)
    requires
        queue.contains_key(sid),
    ensures
        requeued(queue, routes).contains_key(sid),
        requeued(queue, routes)[sid] == queue[sid],
    decreases routes.len(),
{
    if routes.len() > 0 {
        lemma_requeue_keeps(queue, routes.drop_last(), sid);
    }
}

/// A change that is queued while others are being written is newer than those, and
/// stays when they come back.
pub proof fn law_newer_change_wins(queue: Map<Seq<char>, FactsView>, routes: Seq<RouteView>, sid: Seq<char>)
    requires
        queue.contains_key(sid),
    ensures
        requeued(queue, routes).contains_key(sid),
        requeued(queue, routes)[sid] == queue[sid],
{
    lemma_requeue_keeps(queue, routes, sid);
}

proof fn lemma_requeue_restores(
    v: OrchWorkerView,
    rest: Map<Seq<char>, FactsView>,
    batch: Seq<Seq<char>>,
    routes: Seq<RouteView>,
    ts_ms: u64,
)
    requires
        routes.len() == batch.len(),
        forall|i: int| 0 <= i < batch.len() ==> #[trigger] routes[i] == route_of(v, batch[i], ts_ms),
        forall|k: Seq<char>| #[trigger] rest.contains_key(k) ==> v.queue.contains_key(k) && rest[k] == v.queue[k],
    ensures
        forall|k: Seq<char>| #[trigger]
            requeued(rest, routes).contains_key(k) <==> rest.contains_key(k) || batch.contains(k),
        forall|k: Seq<char>| #[trigger]
            requeued(rest, routes).contains_key(k) ==> requeued(rest, routes)[k].state == v.queue[k].state
                && requeued(rest, routes)[k].result == v.queue[k].result,
    decreases routes.len(),
{
    if routes.len() > 0 {
        let n = routes.len() - 1;
        let b = batch.drop_last();
        lemma_requeue_restores(v, rest, b, routes.drop_last(), ts_ms);
        assert(routes.last() == route_of(v, batch[n], ts_ms));
        assert forall|k: Seq<char>| batch.contains(k) == (b.contains(k) || k == batch[n]) by {
            if b.contains(k) {
                let i = choose|i: int| 0 <= i < b.len() && b[i] == k;
                assert(batch[i] == k);
            }
            if batch.contains(k) && k != batch[n] {
                let i = choose|i: int| 0 <= i < batch.len() && batch[i] == k;
                assert(b[i] == k);
            }
        }
    }
}

/// Routes that could not be written are queued again as they were: nothing that
/// is owed is lost.
pub proof fn law_failed_write_loses_nothing(
    v: OrchWorkerView,
    batch: Seq<Seq<char>>,
    routes: Seq<RouteView>,
    ts_ms: u64,
)
    requires
        routes.len() == batch.len(),
        forall|i: int| 0 <= i < batch.len() ==> #[trigger] routes[i] == route_of(v, batch[i], ts_ms),
        forall|k: Seq<char>| #[trigger] batch.contains(k) ==> v.queue.contains_key(k),
    ensures
        requeued(v.queue.remove_keys(batch.to_set()), routes) == v.queue,
{
    let rest = v.queue.remove_keys(batch.to_set());
    lemma_requeue_restores(v, rest, batch, routes, ts_ms);
    let end = requeued(rest, routes);
    assert forall|k: Seq<char>| end.contains_key(k) == v.queue.contains_key(k) by {
        assert(end.contains_key(k) <==> rest.contains_key(k) || batch.contains(k));
        assert(batch.contains(k) == batch.to_set().contains(k));
    }
    assert(end =~= v.queue);
}

/// A worker admits a create exactly where it is not drained, has a place left for
/// it beside its running and paused sandboxes and the creates under way, and has more
/// memory available than it keeps in reserve. Without a limit on sandboxes there is
/// always a place.
pub proof fn law_admits_within_limits(v: OrchWorkerView, available_mib: u64, places: Set<Seq<char>>)
    requires
        forall|k: Seq<char>| #[trigger]
            places.contains(k) <==> v.known.contains_key(k) && (v.known[k].state == "running"@ || v.known[k].state
                == "paused"@),
    ensures
        admission_refusal(v, available_mib) is None <==> {
            &&& !v.draining
            &&& v.options.max_sandboxes == 0 || places.len() + v.inflight < v.options.max_sandboxes
            &&& available_mib > v.options.memory_reserve_mib
        },
{
    assert(live_sandboxes(v.known) =~= places);
}

/// What a heartbeat says: who the worker is, the memory that it cannot give away, and
/// whether it takes creates. A worker whose memory is unknown counts as full.
pub proof fn law_heartbeat_reports_worker(
    v: OrchWorkerView,
    views: Seq<JsonView>,
    available_mib: Option<u64>,
    ts_ms: u64,
    net: Option<(u64, u64)>,
)
    requires
        v.seq < u64::MAX,
    ensures
        ({
            let h = next_heartbeat(v, views, available_mib, ts_ms, net);
            &&& h.wid == v.options.wid
            &&& h.url == v.options.url
            &&& h.arch == v.options.arch
            &&& h.backend == v.options.backend
            &&& h.caps == v.options.caps
            &&& h.ver == WIRE_VERSION
            &&& h.ts_ms == ts_ms
            &&& h.seq == v.seq + 1
            &&& h.draining == v.draining
            &&& available_mib is None ==> h.used.mem_mib == h.caps.mem_mib && !h.accepting
            &&& available_mib is Some && available_mib->0 <= h.caps.mem_mib ==> h.used.mem_mib + available_mib->0
                == h.caps.mem_mib
            &&& available_mib is Some && available_mib->0 > h.caps.mem_mib ==> h.used.mem_mib == 0
            &&& v.draining ==> !h.accepting
            &&& h.accepting ==> available_mib is Some && available_mib->0 > v.options.memory_reserve_mib
            &&& h.accepting && v.options.max_sandboxes > 0 ==> live_views(views) + v.inflight < v.options.max_sandboxes
            &&& net matches Some((rx, tx)) ==> h.net_rx_bytes == Some(rx) && h.net_tx_bytes == Some(tx)
            &&& net is None ==> h.net_rx_bytes is None && h.net_tx_bytes is None
        }),
{
}

/// The sandboxes that a heartbeat counts are those that run or are paused, and the
/// processors those that they have.
pub proof fn law_live_views_are_counted(views: Seq<JsonView>, view: JsonView)
    ensures
        ({
            let live = state_of(view) == "running"@ || state_of(view) == "paused"@;
            &&& live_views(Seq::empty()) == 0
            &&& live_cpus(Seq::empty()) == 0
            &&& live ==> live_views(views.push(view)) == live_views(views) + 1 && live_cpus(views.push(view))
                == live_cpus(views) + cpus_of(view)
            &&& !live ==> live_views(views.push(view)) == live_views(views) && live_cpus(views.push(view)) == live_cpus(
                views,
            )
        }),
{
    assert(views.push(view).drop_last() =~= views);
}

proof fn lemma_after_views(v: OrchWorkerView, views: Seq<JsonView>, sid: Seq<char>)
    ensures
        ({
            let w = after_views(v, views);
            &&& seen(views).contains(sid) <==> exists|i: int| 0 <= i < views.len() && sid_of(#[trigger] views[i]) == sid
            &&& !seen(views).contains(sid) ==> w.known.contains_key(sid) == v.known.contains_key(sid)
                && w.queue.contains_key(sid) == v.queue.contains_key(sid)
            &&& !seen(views).contains(sid) && v.known.contains_key(sid) ==> w.known[sid] == v.known[sid]
            &&& !seen(views).contains(sid) && v.queue.contains_key(sid) ==> w.queue[sid] == v.queue[sid]
            &&& w.options == v.options && w.seq == v.seq && w.inflight == v.inflight && w.draining == v.draining
        }),
    decreases views.len(),
{
    if views.len() > 0 {
        let rest = views.drop_last();
        lemma_after_views(v, rest, sid);
        if seen(views).contains(sid) {
            if seen(rest).contains(sid) {
                let i = choose|i: int| 0 <= i < rest.len() && sid_of(#[trigger] rest[i]) == sid;
                assert(sid_of(views[i]) == sid);
            } else {
                assert(sid_of(views[views.len() - 1]) == sid);
            }
        }
        if exists|i: int| 0 <= i < views.len() && sid_of(#[trigger] views[i]) == sid {
            let i = choose|i: int| 0 <= i < views.len() && sid_of(#[trigger] views[i]) == sid;
            if i < rest.len() {
                assert(sid_of(rest[i]) == sid);
            }
        }
    }
}

proof fn lemma_one_view(v: OrchWorkerView, views: Seq<JsonView>, i: int)
    requires
        0 <= i < views.len(),
        forall|j: int| 0 <= j < views.len() && j != i ==> sid_of(#[trigger] views[j]) != sid_of(views[i]),
    ensures
        ({
            let w = after_views(v, views);
            let sid = sid_of(views[i]);
            let now = FactsView { state: state_of(views[i]), result: result_of(views[i]) };
            let changed = !v.known.contains_key(sid) || v.known[sid].state != now.state;
            &&& w.known.contains_key(sid) && w.known[sid] == now
            &&& changed ==> w.queue.contains_key(sid) && w.queue[sid] == now
            &&& !changed ==> w.queue.contains_key(sid) == v.queue.contains_key(sid) && w.queue[sid] == v.queue[sid]
        }),
    decreases views.len(),
{
    let rest = views.drop_last();
    let sid = sid_of(views[i]);
    if i == rest.len() {
        lemma_after_views(v, rest, sid);
        if seen(rest).contains(sid) {
            let j = choose|j: int| 0 <= j < rest.len() && sid_of(#[trigger] rest[j]) == sid;
            assert(sid_of(views[j]) == sid);
        }
        lemma_queue_untouched(v, rest, sid);
    } else {
        assert forall|j: int| 0 <= j < rest.len() && j != i implies sid_of(#[trigger] rest[j]) != sid_of(rest[i]) by {
            assert(views[j] == rest[j]);
        }
        lemma_one_view(v, rest, i);
        assert(sid_of(views[views.len() - 1]) != sid);
    }
}

proof fn lemma_queue_untouched(v: OrchWorkerView, views: Seq<JsonView>, sid: Seq<char>)
    requires
        !seen(views).contains(sid),
    ensures
        after_views(v, views).queue[sid] == v.queue[sid],
    decreases views.len(),
{
    if views.len() > 0 {
        lemma_queue_untouched(v, views.drop_last(), sid);
    }
}

/// After the sandboxes were looked at, the worker knows each of them in the state it
/// has, and its route is written exactly where the state is new or other than before;
/// nothing else about the worker changes.
pub proof fn law_new_state_is_published(v: OrchWorkerView, views: Seq<JsonView>, i: int)
    requires
        0 <= i < views.len(),
        forall|j: int| 0 <= j < views.len() && j != i ==> sid_of(#[trigger] views[j]) != sid_of(views[i]),
    ensures
        ({
            let w = after_publication(v, views);
            let sid = sid_of(views[i]);
            let now = FactsView { state: state_of(views[i]), result: result_of(views[i]) };
            let changed = !v.known.contains_key(sid) || v.known[sid].state != now.state;
            &&& w.known.contains_key(sid) && w.known[sid] == now
            &&& changed ==> w.queue.contains_key(sid) && w.queue[sid] == now
            &&& !changed ==> w.queue.contains_key(sid) == v.queue.contains_key(sid) && (w.queue.contains_key(sid)
                ==> w.queue[sid] == v.queue[sid])
            &&& w.options == v.options
            &&& w.inflight == v.inflight
            &&& w.draining == v.draining
        }),
{
    let sid = sid_of(views[i]);
    lemma_one_view(v, views, i);
    lemma_after_views(v, views, sid);
    assert(seen(views).contains(sid));
}

/// A route that is written carries the worker's name and address, and the state and
/// result that were queued.
pub proof fn law_route_tells_queued_state(v: OrchWorkerView, sid: Seq<char>, ts_ms: u64)
    requires
        v.queue.contains_key(sid),
    ensures
        ({
            let r = route_of(v, sid, ts_ms);
            &&& r.sid == sid
            &&& r.wid == v.options.wid
            &&& r.url == v.options.url
            &&& r.ts_ms == ts_ms
            &&& (FactsView { state: r.state, result: r.result }) == v.queue[sid]
        }),
{
}

/// Of a sandbox's view, the name counts, or else the identifier.
pub proof fn law_sandbox_is_known_by_name(m: ObjectView, name: Seq<char>, id: Seq<char>)
    requires
        m.contains_key("id"@),
        m["id"@] == JsonView::Str(id),
    ensures
        m.contains_key("name"@) && m["name"@] == JsonView::Str(name) && name.len() > 0 ==> sid_of(JsonView::Object(m))
            == name,
        !m.contains_key("name"@) ==> sid_of(JsonView::Object(m)) == id,
        m.contains_key("name"@) && m["name"@] == JsonView::Str(Seq::empty()) ==> sid_of(JsonView::Object(m)) == id,
{
}

/// The memory available is told by the first line that states it, in whole mebibytes
/// of its kibibytes.
pub proof fn law_first_memory_line_counts(lines: Seq<Seq<char>>, i: int, kib: nat)
    requires
        0 <= i < lines.len(),
        line_memory(lines[i]) == Some(kib),
        forall|j: int| 0 <= j < i ==> line_memory(#[trigger] lines[j]) is None,
    ensures
        available_memory(lines) is Some,
        available_memory(lines)->0 * 1024 <= kib < (available_memory(lines)->0 + 1) * 1024,
    decreases i,
{
    if i > 0 {
        let rest = lines.drop_first();
        assert(line_memory(lines[0]) is None);
        assert forall|j: int| 0 <= j < i - 1 implies line_memory(#[trigger] rest[j]) is None by {
            assert(rest[j] == lines[j + 1]);
        }
        law_first_memory_line_counts(rest, i - 1, kib);
    }
}

} // verus!
