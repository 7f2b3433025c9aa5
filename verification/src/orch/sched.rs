//! The scheduler: placing creates on workers, and answering the requests that it
//! does not merely pass on.
use crate::decimal::{decimal, render_u64};
use crate::error::EngineError;
use crate::net::addr::invalid_input;
use crate::orch::routes::{
    annotate_view, annotated_text, remembered, told_sid, told_state, view_sid, view_state, RouteCache, RouteTarget,
    TargetView,
};
use crate::orch::server::{is_let_in, law_token_lets_in, RequestHead};
use crate::orch::status::{coded, coded_status, create_retryable, is_create_retryable, Code, Status, StatusView};
use crate::orch::table::{
    avoided, placement_on, with_reservation, without_reservation, wrapped_sum, NeedsView, Placement, PlacementNeeds,
    PlacementView, TableView, WorkerTable,
};
use crate::outside::{is_metadata_byte, metadata_accepts, show_text, shown};
use crate::text::{cat2, cat3, lists, opt_text, texts};
use vstd::prelude::*;
use vstd::utf8::encode_utf8;

verus! {

/// How long a worker that refused or failed a create is avoided, in nanoseconds.
pub const PENALTY: u64 = 2_000_000_000;

/// How long the hold of an idempotent create lasts, in milliseconds.
pub const IDEM_TTL_MS: u64 = 3_600_000;

/// How many route writes may wait, and how many are written at a time.
pub const ROUTE_WRITE_QUEUE_MAX: usize = 4096;

pub const ROUTE_WRITE_BATCH_MAX: usize = 128;

/// What a scheduler is told when it is started. Times are nanoseconds.
#[derive(Debug)]
pub struct SchedGrpcOptions {
    pub worker_token: Option<String>,
    pub create_timeout: u64,
    pub create_retries: usize,
}

impl Default for SchedGrpcOptions {
    fn default() -> (r: SchedGrpcOptions)
        ensures
            r.worker_token is None,
            r.create_timeout == 60_000_000_000u64,
            r.create_retries == 3,
    {
        SchedGrpcOptions { worker_token: None, create_timeout: 60_000_000_000, create_retries: 3 }
    }
}

/// The credential that goes with every request to a worker.
pub open spec fn bearer_text(token: Seq<char>) -> Seq<char> {
    "Bearer "@ + token
}

/// The credential that goes with every request to a worker.
pub fn worker_bearer(options: &SchedGrpcOptions) -> (r: Result<Option<String>, EngineError>)
    ensures
        match options.worker_token {
            None => r == Ok::<Option<String>, EngineError>(None),
            Some(token) => {
                let bytes = encode_utf8(bearer_text(token@));
                let fits = forall|i: int| 0 <= i < bytes.len() ==> is_metadata_byte(#[trigger] bytes[i]);
                match r {
                    Ok(b) => fits && opt_text(b) == Some(bearer_text(token@)),
                    Err(e) => !fits && e@ == invalid_input("worker token is not valid metadata"@),
                }
            },
        },
{
    match &options.worker_token {
        None => Ok(None),
        Some(token) => {
            let bearer = cat2("Bearer ", token.as_str());
            if metadata_accepts(bearer.as_str()) {
                Ok(Some(bearer))
            } else {
                Err(EngineError::invalid("worker token is not valid metadata".to_owned()))
            }
        },
    }
}

/// What a scheduler keeps.
pub struct SchedCore {
    pub table: WorkerTable,
    pub cache: RouteCache,
    pub created: u64,
}

impl SchedCore {
    /// How many sandboxes were placed since the scheduler was started.
    pub fn created_total(&self) -> (r: u64)
        ensures
            r == self.created,
    {
        self.created
    }
}

/// What a worker answered to a create.
pub enum CreateReply {
    /// The written view of the sandbox.
    Created(String),
    Refused(Status),
    TimedOut,
    /// The worker cannot be reached at all.
    NoChannel(Status),
}

/// What comes of an answer.
pub enum CreateOutcome {
    /// The create is over: the view, and the route that is to be written.
    Created { view: String, route: Option<(String, String)> },
    Failed(Status),
    /// Another worker is to be tried.
    Again,
}

/// A create under way: which workers were tried, and how often another may be.
pub struct CreateLoop {
    needs: PlacementNeeds,
    tried: Vec<String>,
    left: usize,
    last: Option<Status>,
    placement: Option<Placement>,
}

pub ghost struct CreateView {
    pub needs: NeedsView,
    pub tried: Seq<Seq<char>>,
    pub left: int,
    pub last: Option<StatusView>,
    pub placement: Option<PlacementView>,
}

impl View for CreateLoop {
    type V = CreateView;

    closed spec fn view(&self) -> CreateView {
        CreateView {
            needs: self.needs@,
            tried: texts(self.tried@),
            left: self.left as int,
            last: match self.last {
                Some(s) => Some(s@),
                None => None,
            },
            placement: match self.placement {
                Some(p) => Some(p@),
                None => None,
            },
        }
    }
}

pub open spec fn create_timed_out(wid: Seq<char>) -> StatusView {
    coded_status(Code::DeadlineExceeded, "deadline"@, true, "create on worker "@ + wid + " timed out"@)
}

/// A create after a worker did not take it.
pub open spec fn after_refusal(v: CreateView, status: StatusView) -> CreateView {
    CreateView {
        tried: v.tried.push(v.placement->0.wid),
        left: v.left - 1,
        last: Some(status),
        placement: None,
        ..v
    }
}

/// The table after a worker did not take a create: it is avoided for a while, and
/// its reservation is given back.
pub open spec fn table_after_refusal(t: TableView, p: PlacementView, now: u64) -> TableView {
    without_reservation(avoided(t, p.wid, (now + PENALTY) as u64), p)
}

/// The answer when no worker took a create.
pub open spec fn no_capacity(v: CreateView, live: nat) -> StatusView {
    match v.last {
        Some(s) => s,
        None => coded_status(
            Code::Aborted,
            "busy"@,
            true,
            "no worker with capacity for "@ + decimal(v.needs.mem_mib as nat) + " MiB (arch "@ + shown(v.needs.arch)
                + "); "@ + decimal(live) + " live workers"@,
        ),
    }
}

proof fn lemma_lists(list: Seq<String>, key: Seq<char>)
    ensures
        lists(list, key) == texts(list).contains(key),
{
    if lists(list, key) {
        let i = choose|i: int| 0 <= i < list.len() && list[i]@ == key;
        assert(texts(list)[i] == key);
    }
    if texts(list).contains(key) {
        let i = choose|i: int| 0 <= i < texts(list).len() && texts(list)[i] == key;
        assert(list[i]@ == key);
    }
}

impl CreateLoop {
    /// A create that begins; after the first worker, `retries` more may be tried.
    pub fn new(needs: PlacementNeeds, retries: usize) -> (r: CreateLoop)
        requires
            retries < usize::MAX,
        ensures
            r@ == (CreateView {
                needs: needs@,
                tried: Seq::empty(),
                left: retries + 1,
                last: None,
                placement: None,
            }),
    {
        let r = CreateLoop { needs, tried: Vec::new(), left: retries + 1, last: None, placement: None };
        assert(texts(r.tried@) =~= Seq::empty());
        r
    }

    /// The worker that is tried next: one that was not tried before and can take
    /// the sandbox, where there is one and another may be tried.
    pub fn next_worker(&mut self, table: &mut WorkerTable, now: u64) -> (r: Option<RouteTarget>)
        requires
            old(table).wf(),
            old(self)@.placement is None,
        ensures
            final(table).wf(),
            match r {
                Some(t) => {
                    let v = old(table)@;
                    let p = placement_on(v, t@.wid, old(self)@.needs.mem_mib);
                    &&& old(self)@.left > 0
                    &&& !old(self)@.tried.contains(t@.wid)
                    &&& v.workers.contains_key(t@.wid)
                    &&& v.workers[t@.wid].is_live(now, v.config.dead_after)
                    &&& v.workers[t@.wid].heartbeat.accepting
                    &&& !v.workers[t@.wid].heartbeat.draining
                    &&& !v.workers[t@.wid].is_penalized(now)
                    &&& v.workers[t@.wid].fits(old(self)@.needs)
                    &&& t@.wid == p.wid
                    &&& t@.url == p.url
                    &&& final(table)@ == with_reservation(v, t@.wid, old(self)@.needs.mem_mib)
                    &&& final(self)@ == (CreateView { placement: Some(p), ..old(self)@ })
                },
                None => final(table)@ == old(table)@ && final(self)@ == old(self)@ && (old(self)@.left == 0 || forall|
                    k: Seq<char>,
                | #[trigger]
                    old(table)@.workers.contains_key(k) ==> !(old(table)@.workers[k].is_live(
                        now,
                        old(table)@.config.dead_after,
                    ) && old(table)@.workers[k].heartbeat.accepting && !old(table)@.workers[k].heartbeat.draining
                        && !old(table)@.workers[k].is_penalized(now) && !old(self)@.tried.contains(
                        old(table)@.workers[k].heartbeat.wid,
                    ) && old(table)@.workers[k].fits(old(self)@.needs))),
            },
    {
        if self.left == 0 {
            return None;
        }
        proof {
            assert forall|k: Seq<char>| lists(self.tried@, k) == self@.tried.contains(k) by {
                lemma_lists(self.tried@, k);
            }
        }
        match table.pick(now, &self.needs, &self.tried) {
            None => None,
            Some(placement) => {
                let target = RouteTarget { wid: placement.wid().to_owned(), url: placement.url().to_owned() };
                self.placement = Some(placement);
                Some(target)
            },
        }
    }

    /// Notes what the worker answered.
    pub fn settle(&mut self, core: &mut SchedCore, reply: CreateReply, now: u64) -> (r: CreateOutcome)
        requires
            old(core).table.wf(),
            old(core).cache.wf(),
            old(self)@.placement is Some,
            old(self)@.left > 0,
            now + PENALTY <= u64::MAX,
        ensures
            final(core).table.wf(),
            final(core).cache.wf(),
            final(self)@.placement is None,
            ({
                let p = old(self)@.placement->0;
                let t = old(core).table@;
                let u = final(core).table@;
                let held = t.workers.contains_key(p.wid) && t.workers[p.wid].counter == p.counter;
                let refused = reply is TimedOut || (reply matches CreateReply::Refused(s) && is_create_retryable(s.code));
                &&& u.workers.dom() == t.workers.dom()
                &&& held && t.workers[p.wid].inflight_mem_mib >= p.reserved_mib ==> u.workers[p.wid].inflight_mem_mib
                    == t.workers[p.wid].inflight_mem_mib - p.reserved_mib
                &&& held && !refused ==> u.workers[p.wid].penalty_until == t.workers[p.wid].penalty_until
                &&& held && refused ==> u.workers[p.wid].penalty_until == Some((now + PENALTY) as u64)
                &&& r is Again <==> refused
                &&& r is Created <==> reply is Created
                &&& r is Failed ==> final(self)@.left == old(self)@.left
            }),
            ({
                let p = old(self)@.placement->0;
                let target = TargetView { wid: p.wid, url: p.url };
                match reply {
                    CreateReply::Created(view) => {
                        &&& final(core).created == wrapped_sum(old(core).created, 1)
                        &&& final(core).table@ == without_reservation(old(core).table@, p)
                        &&& final(self)@ == (CreateView { placement: None, ..old(self)@ })
                        &&& (r matches CreateOutcome::Created { view: shown_view, route } && shown_view@
                            == annotated_text(view@, target) && match told_sid(view@) {
                            Some(sid) => (route matches Some((s, state)) && s@ == sid && state@ == told_state(view@))
                                && final(core).cache@ == remembered(old(core).cache@, sid, target),
                            None => route is None && final(core).cache@ == old(core).cache@,
                        })
                    },
                    CreateReply::Refused(status) => {
                        &&& final(core).created == old(core).created
                        &&& final(core).cache@ == old(core).cache@
                        &&& if is_create_retryable(status.code) {
                            &&& r is Again
                            &&& final(core).table@ == table_after_refusal(old(core).table@, p, now)
                            &&& final(self)@ == after_refusal(old(self)@, status@)
                        } else {
                            &&& (r matches CreateOutcome::Failed(s) && s@ == status@)
                            &&& final(core).table@ == without_reservation(old(core).table@, p)
                            &&& final(self)@ == (CreateView { placement: None, ..old(self)@ })
                        }
                    },
                    CreateReply::TimedOut => {
                        &&& r is Again
                        &&& final(core).created == old(core).created
                        &&& final(core).cache@ == old(core).cache@
                        &&& final(core).table@ == table_after_refusal(old(core).table@, p, now)
                        &&& final(self)@ == after_refusal(old(self)@, create_timed_out(p.wid))
                    },
                    CreateReply::NoChannel(status) => {
                        &&& (r matches CreateOutcome::Failed(s) && s@ == status@)
                        &&& final(core).created == old(core).created
                        &&& final(core).cache@ == old(core).cache@
                        &&& final(core).table@ == without_reservation(old(core).table@, p)
                        &&& final(self)@ == (CreateView { placement: None, ..old(self)@ })
                    },
                }
            }),
    {
        let mut held: Option<Placement> = None;
        core::mem::swap(&mut self.placement, &mut held);
        let placement = match held {
            Some(p) => p,
            None => return CreateOutcome::Again,
        };
        match reply {
            CreateReply::Created(view) => {
                core.created = core.created.wrapping_add(1);
                let target = RouteTarget { wid: placement.wid().to_owned(), url: placement.url().to_owned() };
                let sid = view_sid(view.as_str());
                let state = view_state(view.as_str());
                let route = match sid {
                    Some(sid) => {
                        core.cache.cache_route(sid.as_str(), target.clone());
                        Some((sid, state))
                    },
                    None => None,
                };
                let view = annotate_view(view.as_str(), target.wid.as_str(), target.url.as_str());
                core.table.release(placement);
                CreateOutcome::Created { view, route }
            },
            CreateReply::Refused(status) => {
                if create_retryable(status.code) {
                    self.refuse(&mut core.table, placement, status, now);
                    CreateOutcome::Again
                } else {
                    core.table.release(placement);
                    CreateOutcome::Failed(status)
                }
            },
            CreateReply::TimedOut => {
                let status = coded(
                    Code::DeadlineExceeded,
                    "deadline",
                    true,
                    cat3("create on worker ", placement.wid(), " timed out"),
                );
                self.refuse(&mut core.table, placement, status, now);
                CreateOutcome::Again
            },
            CreateReply::NoChannel(status) => {
                core.table.release(placement);
                CreateOutcome::Failed(status)
            },
        }
    }

    fn refuse(&mut self, table: &mut WorkerTable, placement: Placement, status: Status, now: u64)
        requires
            old(table).wf(),
            old(self)@.left > 0,
            now + PENALTY <= u64::MAX,
        ensures
            final(table).wf(),
            final(table)@ == table_after_refusal(old(table)@, placement@, now),
            final(self)@ == (CreateView {
                tried: old(self)@.tried.push(placement@.wid),
                left: old(self)@.left - 1,
                last: Some(status@),
                ..old(self)@
            }),
    {
        let ghost before = texts(self.tried@);
        table.penalize(placement.wid(), now, PENALTY);
        self.tried.push(placement.wid().to_owned());
        assert(texts(self.tried@) =~= before.push(placement@.wid));
        self.left = self.left - 1;
        self.last = Some(status);
        table.release(placement);
    }

    /// The answer when no worker took the create.
    pub fn give_up(self, live: usize) -> (r: Status)
        ensures
            r@ == no_capacity(self@, live as nat),
    {
        match self.last {
            Some(status) => status,
            None => {
                let mut message = "no worker with capacity for ".to_owned();
                message.append(render_u64(self.needs.mem_mib).as_str());
                message.append(" MiB (arch ");
                message.append(show_text(&self.needs.arch).as_str());
                message.append("); ");
                message.append(render_u64(live as u64).as_str());
                message.append(" live workers");
                coded(Code::Aborted, "busy", true, message)
            },
        }
    }
}

/// Each worker that did not take a create brings it nearer to its end.
pub proof fn law_create_ends(v: CreateView, status: StatusView)
    requires
        v.left > 0,
        v.placement is Some,
    ensures
        0 <= after_refusal(v, status).left < v.left,
        after_refusal(v, status).tried.contains(v.placement->0.wid),
{
    let t = after_refusal(v, status).tried;
    assert(t[v.tried.len() as int] == v.placement->0.wid);
}

/// No worker is asked twice for the same create: the worker that is tried was not
/// tried before, and from then on it counts as tried.
pub proof fn law_no_worker_is_asked_twice(v: CreateView, status: StatusView)
    requires
        v.placement is Some,
        v.tried.no_duplicates(),
        !v.tried.contains(v.placement->0.wid),
    ensures
        after_refusal(v, status).tried.no_duplicates(),
        after_refusal(v, status).tried.contains(v.placement->0.wid),
{
    let t = after_refusal(v, status).tried;
    assert(t[v.tried.len() as int] == v.placement->0.wid);
}

/// A worker that did not take a create keeps no reservation for it; it is merely
/// avoided for a while.
pub proof fn law_refusal_leaves_no_reservation(t: TableView, wid: Seq<char>, mib: u64, now: u64)
    requires
        t.workers.contains_key(wid),
        t.workers[wid].heartbeat.wid == wid,
        now + PENALTY <= u64::MAX,
    ensures
        table_after_refusal(with_reservation(t, wid, mib), placement_on(t, wid, mib), now) == avoided(
            t,
            wid,
            (now + PENALTY) as u64,
        ),
{
    let a = table_after_refusal(with_reservation(t, wid, mib), placement_on(t, wid, mib), now);
    let b = avoided(t, wid, (now + PENALTY) as u64);
    let n = t.workers[wid].inflight_mem_mib;
    assert(crate::orch::table::wrapped_difference(wrapped_sum(n, mib), mib) == n);
    assert(a.workers =~= b.workers);
}

/// A worker that refuses a create or does not answer in time is avoided for two
/// seconds, and the create's reservation on it is given back; nothing of other workers
/// changes. The create goes on with one attempt fewer, past that worker.
pub proof fn law_refusing_worker_is_avoided(
    t: TableView,
    p: PlacementView,
    now: u64,
    other: Seq<char>,
    v: CreateView,
    status: StatusView,
)
    requires
        t.workers.contains_key(p.wid),
        t.workers[p.wid].counter == p.counter,
        t.workers[p.wid].inflight_mem_mib >= p.reserved_mib,
        other != p.wid,
        now + 2_000_000_000 <= u64::MAX,
        v.placement == Some(p),
    ensures
        ({
            let w = table_after_refusal(t, p, now);
            let next = after_refusal(v, status);
            &&& w.workers[p.wid].penalty_until == Some((now + 2_000_000_000) as u64)
            &&& w.workers[p.wid].inflight_mem_mib == t.workers[p.wid].inflight_mem_mib - p.reserved_mib
            &&& w.workers[p.wid].heartbeat == t.workers[p.wid].heartbeat
            &&& w.workers[p.wid].seen == t.workers[p.wid].seen
            &&& w.workers.dom() == t.workers.dom()
            &&& w.workers[other] == t.workers[other]
            &&& next.left == v.left - 1
            &&& next.tried == v.tried.push(p.wid)
            &&& next.last == Some(status)
            &&& next.placement is None
            &&& next.needs == v.needs
        }),
{
    assert(table_after_refusal(t, p, now).workers.dom() =~= t.workers.dom());
}

/// A create that finds no worker tells why the last one refused it, or that none had
/// room, in which case it may be tried again.
pub proof fn law_last_refusal_is_told(v: CreateView, live: nat)
    ensures
        v.last is Some ==> no_capacity(v, live) == v.last->0,
        v.last is None ==> no_capacity(v, live).code == Code::Aborted && no_capacity(v, live).retryable == Some(true),
{
}

/// A worker that expects a token lets the scheduler in that sends it.
pub proof fn law_worker_lets_its_scheduler_in(token: Seq<char>, head: RequestHead)
    requires
        head.authorization is Some,
        head.authorization->0@ == bearer_text(token),
    ensures
        is_let_in(Some(token), head),
{
    law_token_lets_in(token, head);
}

} // verus!
