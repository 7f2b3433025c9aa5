//! Orchestration of sandboxes over a fleet of workers: what workers publish of
//! themselves, and what is known of each sandbox.
pub mod answers;
pub mod autoscaler;
pub mod idem;
pub mod keys;
pub mod routes;
pub mod sched;
pub mod server;
pub mod status;
pub mod table;
pub mod worker;

use crate::json::{
    bool_at, i64_of, json_read, json_written, members_at, reads_back, text_at, u64_at, u64_of, Json, JsonMap, JsonView,
    ObjectView,
};
use crate::text::text_eq;
use vstd::prelude::*;

verus! {

/// The version that every heartbeat carries; others are skipped.
pub const WIRE_VERSION: u32 = 1;

/// How long a sandbox's route is kept, in milliseconds.
pub const ROUTE_TTL_MS: u64 = 86400000;

/// The state of a sandbox whose worker is gone.
pub const STATE_LOST: &'static str = "lost";

/// Processors and memory: what a worker has, or what it has handed out.
#[derive(Clone, Copy, PartialEq, Eq, Structural, Debug)]
pub struct Resources {
    pub vcpus: u64,
    pub mem_mib: u64,
}

impl Default for Resources {
    fn default() -> (r: Resources)
        ensures
            r == (Resources { vcpus: 0, mem_mib: 0 }),
    {
        Resources { vcpus: 0, mem_mib: 0 }
    }
}

/// What a worker publishes of itself from time to time.
#[derive(Debug)]
pub struct WorkerHeartbeat {
    pub ver: u32,
    pub wid: String,
    pub url: String,
    pub arch: String,
    pub backend: String,
    pub seq: u64,
    pub ts_ms: u64,
    pub caps: Resources,
    pub used: Resources,
    pub running: u64,
    pub accepting: bool,
    pub draining: bool,
    pub net_rx_bytes: Option<u64>,
    pub net_tx_bytes: Option<u64>,
}

pub ghost struct HeartbeatView {
    pub ver: u32,
    pub wid: Seq<char>,
    pub url: Seq<char>,
    pub arch: Seq<char>,
    pub backend: Seq<char>,
    pub seq: u64,
    pub ts_ms: u64,
    pub caps: Resources,
    pub used: Resources,
    pub running: u64,
    pub accepting: bool,
    pub draining: bool,
    pub net_rx_bytes: Option<u64>,
    pub net_tx_bytes: Option<u64>,
}

impl View for WorkerHeartbeat {
    type V = HeartbeatView;

    open spec fn view(&self) -> HeartbeatView {
        HeartbeatView {
            ver: self.ver,
            wid: self.wid@,
            url: self.url@,
            arch: self.arch@,
            backend: self.backend@,
            seq: self.seq,
            ts_ms: self.ts_ms,
            caps: self.caps,
            used: self.used,
            running: self.running,
            accepting: self.accepting,
            draining: self.draining,
            net_rx_bytes: self.net_rx_bytes,
            net_tx_bytes: self.net_tx_bytes,
        }
    }
}

impl Clone for WorkerHeartbeat {
    fn clone(&self) -> (r: WorkerHeartbeat)
        ensures
            r@ == self@,
    {
        WorkerHeartbeat {
            ver: self.ver,
            wid: self.wid.clone(),
            url: self.url.clone(),
            arch: self.arch.clone(),
            backend: self.backend.clone(),
            seq: self.seq,
            ts_ms: self.ts_ms,
            caps: self.caps,
            used: self.used,
            running: self.running,
            accepting: self.accepting,
            draining: self.draining,
            net_rx_bytes: self.net_rx_bytes,
            net_tx_bytes: self.net_tx_bytes,
        }
    }
}

impl HeartbeatView {
    /// Whether this heartbeat supersedes another: the later clock counts, at equal
    /// clocks the higher sequence number.
    pub open spec fn supersedes(self, previous: HeartbeatView) -> bool {
        self.ts_ms > previous.ts_ms || self.ts_ms == previous.ts_ms && self.seq > previous.seq
    }
}

impl WorkerHeartbeat {
    /// Whether this heartbeat supersedes another.
    pub fn newer_than(&self, previous: &WorkerHeartbeat) -> (r: bool)
        ensures
            r == self@.supersedes(previous@),
    {
        self.ts_ms > previous.ts_ms || (self.ts_ms == previous.ts_ms && self.seq > previous.seq)
    }
}

/// Of two heartbeats at most one supersedes the other, none supersedes itself, and
/// what supersedes a later one supersedes the earlier ones too.
pub proof fn law_heartbeats_are_ordered(a: HeartbeatView, b: HeartbeatView, c: HeartbeatView)
    ensures
        !a.supersedes(a),
        a.supersedes(b) ==> !b.supersedes(a),
        a.supersedes(b) && b.supersedes(c) ==> a.supersedes(c),
        a.supersedes(b) || b.supersedes(a) || (a.ts_ms == b.ts_ms && a.seq == b.seq),
{
}

/// Which worker has a sandbox, and the state it was last seen in.
#[derive(Debug)]
pub struct SandboxRoute {
    pub sid: String,
    pub wid: String,
    pub url: String,
    pub state: String,
    pub ts_ms: u64,
    pub result: Option<i64>,
}

pub ghost struct RouteView {
    pub sid: Seq<char>,
    pub wid: Seq<char>,
    pub url: Seq<char>,
    pub state: Seq<char>,
    pub ts_ms: u64,
    pub result: Option<i64>,
}

impl View for SandboxRoute {
    type V = RouteView;

    open spec fn view(&self) -> RouteView {
        RouteView {
            sid: self.sid@,
            wid: self.wid@,
            url: self.url@,
            state: self.state@,
            ts_ms: self.ts_ms,
            result: self.result,
        }
    }
}

impl Clone for SandboxRoute {
    fn clone(&self) -> (r: SandboxRoute)
        ensures
            r@ == self@,
    {
        SandboxRoute {
            sid: self.sid.clone(),
            wid: self.wid.clone(),
            url: self.url.clone(),
            state: self.state.clone(),
            ts_ms: self.ts_ms,
            result: self.result,
        }
    }
}

/// Whether a sandbox in this state takes up its worker's resources and is lost
/// with it.
pub open spec fn live_state(state: Seq<char>) -> bool {
    state == "running"@ || state == "paused"@
}

/// Whether a sandbox in this state takes up its worker's resources and is lost
/// with it.
pub fn is_live_state(state: &str) -> (r: bool)
    ensures
        r == live_state(state@),
{
    text_eq(state, "running") || text_eq(state, "paused")
}

/// The time in milliseconds, from what has passed since the epoch; zero where the
/// clock stands before it.
pub fn now_ms(elapsed_ms: Option<u128>) -> (r: u64)
    ensures
        r == match elapsed_ms {
            Some(ms) => (ms % 0x1_0000_0000_0000_0000) as u64,
            None => 0,
        },
{
    match elapsed_ms {
        Some(ms) => (ms % 0x1_0000_0000_0000_0000) as u64,
        None => 0,
    }
}

pub open spec fn resources_json(r: Resources) -> JsonView {
    JsonView::Object(
        Map::<Seq<char>, JsonView>::empty().insert("vcpus"@, JsonView::Int(r.vcpus as int)).insert(
            "mem_mib"@,
            JsonView::Int(r.mem_mib as int),
        ),
    )
}

/// The resources under a name.
pub open spec fn resources_at(m: ObjectView, k: Seq<char>) -> Option<Resources> {
    match members_at(m, k) {
        None => None,
        Some(o) => match (u64_at(o, "vcpus"@), u64_at(o, "mem_mib"@)) {
            (Some(vcpus), Some(mem_mib)) => Some(Resources { vcpus, mem_mib }),
            _ => None,
        },
    }
}

pub(crate) fn write_resources(r: Resources) -> (j: Json)
    ensures
        j@ == resources_json(r),
{
    let mut m = JsonMap::new();
    m.insert("vcpus".to_owned(), Json::Int(r.vcpus as i128));
    m.insert("mem_mib".to_owned(), Json::Int(r.mem_mib as i128));
    Json::Object(m)
}

fn parse_resources(m: &JsonMap, k: &str) -> (r: Option<Resources>)
    ensures
        r == resources_at(m@, k@),
{
    match m.get(k) {
        None => None,
        Some(v) => match v.as_object() {
            None => None,
            Some(o) => match (o.u64_at("vcpus"), o.u64_at("mem_mib")) {
                (Some(vcpus), Some(mem_mib)) => Some(Resources { vcpus, mem_mib }),
                _ => None,
            },
        },
    }
}

pub open spec fn opt_u64_json(n: Option<u64>) -> JsonView {
    match n {
        Some(v) => JsonView::Int(v as int),
        None => JsonView::Null,
    }
}

fn write_opt_u64(n: Option<u64>) -> (j: Json)
    ensures
        j@ == opt_u64_json(n),
{
    match n {
        Some(v) => Json::Int(v as i128),
        None => Json::Null,
    }
}

/// The number under a name that may be missing or null.
pub open spec fn opt_u64_at(m: ObjectView, k: Seq<char>) -> Option<Option<u64>> {
    if !m.contains_key(k) || m[k] is Null {
        Some(None)
    } else {
        match u64_of(m[k]) {
            Some(n) => Some(Some(n)),
            None => None,
        }
    }
}

fn parse_opt_u64(m: &JsonMap, k: &str) -> (r: Option<Option<u64>>)
    ensures
        r == opt_u64_at(m@, k@),
{
    match m.get(k) {
        None => Some(None),
        Some(Json::Null) => Some(None),
        Some(v) => match v.as_u64() {
            Some(n) => Some(Some(n)),
            None => None,
        },
    }
}

/// What is written of a heartbeat.
pub open spec fn heartbeat_object(h: HeartbeatView) -> ObjectView {
    Map::<Seq<char>, JsonView>::empty().insert("ver"@, JsonView::Int(h.ver as int)).insert(
        "wid"@,
        JsonView::Str(h.wid),
    ).insert("url"@, JsonView::Str(h.url)).insert("arch"@, JsonView::Str(h.arch)).insert(
        "backend"@,
        JsonView::Str(h.backend),
    ).insert("seq"@, JsonView::Int(h.seq as int)).insert("ts_ms"@, JsonView::Int(h.ts_ms as int)).insert(
        "caps"@,
        resources_json(h.caps),
    ).insert("used"@, resources_json(h.used)).insert("running"@, JsonView::Int(h.running as int)).insert(
        "accepting"@,
        JsonView::Bool(h.accepting),
    ).insert("draining"@, JsonView::Bool(h.draining)).insert("net_rx_bytes"@, opt_u64_json(h.net_rx_bytes)).insert(
        "net_tx_bytes"@,
        opt_u64_json(h.net_tx_bytes),
    )
}

/// A heartbeat names the same things, however much its worker runs.
pub proof fn law_heartbeat_shape_is_fixed(a: HeartbeatView, b: HeartbeatView)
    ensures
        heartbeat_object(a).dom() == heartbeat_object(b).dom(),
{
    assert(heartbeat_object(a).dom() =~= heartbeat_object(b).dom());
}

/// The heartbeat that an object stands for; what else it holds is ignored.
pub open spec fn read_heartbeat(m: ObjectView) -> Option<HeartbeatView> {
    match (
        u64_at(m, "ver"@),
        text_at(m, "wid"@),
        text_at(m, "url"@),
        text_at(m, "arch"@),
        text_at(m, "backend"@),
        u64_at(m, "seq"@),
        u64_at(m, "ts_ms"@),
        resources_at(m, "caps"@),
        resources_at(m, "used"@),
        u64_at(m, "running"@),
        bool_at(m, "accepting"@),
        bool_at(m, "draining"@),
        opt_u64_at(m, "net_rx_bytes"@),
        opt_u64_at(m, "net_tx_bytes"@),
    ) {
        (
            Some(ver),
            Some(wid),
            Some(url),
            Some(arch),
            Some(backend),
            Some(seq),
            Some(ts_ms),
            Some(caps),
            Some(used),
            Some(running),
            Some(accepting),
            Some(draining),
            Some(net_rx_bytes),
            Some(net_tx_bytes),
        ) => if ver <= u32::MAX {
            Some(
                HeartbeatView {
                    ver: ver as u32,
                    wid,
                    url,
                    arch,
                    backend,
                    seq,
                    ts_ms,
                    caps,
                    used,
                    running,
                    accepting,
                    draining,
                    net_rx_bytes,
                    net_tx_bytes,
                },
            )
        } else {
            None
        },
        _ => None,
    }
}

/// What is written of a heartbeat.
pub fn write_heartbeat(h: &WorkerHeartbeat) -> (r: JsonMap)
    ensures
        r@ == heartbeat_object(h@),
{
    let mut m = JsonMap::new();
    m.insert("ver".to_owned(), Json::Int(h.ver as i128));
    m.insert("wid".to_owned(), Json::Str(h.wid.clone()));
    m.insert("url".to_owned(), Json::Str(h.url.clone()));
    m.insert("arch".to_owned(), Json::Str(h.arch.clone()));
    m.insert("backend".to_owned(), Json::Str(h.backend.clone()));
    m.insert("seq".to_owned(), Json::Int(h.seq as i128));
    m.insert("ts_ms".to_owned(), Json::Int(h.ts_ms as i128));
    m.insert("caps".to_owned(), write_resources(h.caps));
    m.insert("used".to_owned(), write_resources(h.used));
    m.insert("running".to_owned(), Json::Int(h.running as i128));
    m.insert("accepting".to_owned(), Json::Bool(h.accepting));
    m.insert("draining".to_owned(), Json::Bool(h.draining));
    m.insert("net_rx_bytes".to_owned(), write_opt_u64(h.net_rx_bytes));
    m.insert("net_tx_bytes".to_owned(), write_opt_u64(h.net_tx_bytes));
    m
}

/// The heartbeat that an object stands for.
pub fn parse_heartbeat(m: &JsonMap) -> (r: Option<WorkerHeartbeat>)
    ensures
        match r {
            Some(h) => read_heartbeat(m@) == Some(h@),
            None => read_heartbeat(m@) is None,
        },
{
    match (
        m.u64_at("ver"),
        m.text_at("wid"),
        m.text_at("url"),
        m.text_at("arch"),
        m.text_at("backend"),
        m.u64_at("seq"),
        m.u64_at("ts_ms"),
        parse_resources(m, "caps"),
        parse_resources(m, "used"),
        m.u64_at("running"),
        m.bool_at("accepting"),
        m.bool_at("draining"),
        parse_opt_u64(m, "net_rx_bytes"),
        parse_opt_u64(m, "net_tx_bytes"),
    ) {
        (
            Some(ver),
            Some(wid),
            Some(url),
            Some(arch),
            Some(backend),
            Some(seq),
            Some(ts_ms),
            Some(caps),
            Some(used),
            Some(running),
            Some(accepting),
            Some(draining),
            Some(net_rx_bytes),
            Some(net_tx_bytes),
        ) => if ver <= u32::MAX as u64 {
            Some(
                WorkerHeartbeat {
                    ver: ver as u32,
                    wid,
                    url,
                    arch,
                    backend,
                    seq,
                    ts_ms,
                    caps,
                    used,
                    running,
                    accepting,
                    draining,
                    net_rx_bytes,
                    net_tx_bytes,
                },
            )
        } else {
            None
        },
        _ => None,
    }
}

/// The heartbeat that a text stands for.
pub open spec fn heartbeat_in(text: Seq<char>) -> Option<HeartbeatView> {
    match json_read(text) {
        Ok(JsonView::Object(m)) => read_heartbeat(m),
        _ => None,
    }
}

/// The text of a heartbeat. It reads back as the heartbeat.
pub fn heartbeat_text(h: &WorkerHeartbeat) -> (r: String)
    ensures
        r@ == json_written(JsonView::Object(heartbeat_object(h@))),
        heartbeat_in(r@) == Some(h@),
{
    proof {
        law_heartbeat_survives(h@);
    }
    Json::Object(write_heartbeat(h)).render()
}

/// The heartbeat that a text stands for.
pub fn read_heartbeat_text(text: &str) -> (r: Option<WorkerHeartbeat>)
    ensures
        match r {
            Some(h) => heartbeat_in(text@) == Some(h@),
            None => heartbeat_in(text@) is None,
        },
{
    match Json::parse(text) {
        Ok(Json::Object(m)) => parse_heartbeat(&m),
        _ => None,
    }
}

/// A heartbeat that is written and read back is the same heartbeat; each of its members
/// is written under its name.
pub proof fn law_heartbeat_survives(h: HeartbeatView)
    ensures
        read_heartbeat(heartbeat_object(h)) == Some(h),
        reads_back(JsonView::Object(heartbeat_object(h)), 127),
        heartbeat_object(h)["ver"@] == JsonView::Int(h.ver as int),
        heartbeat_object(h)["wid"@] == JsonView::Str(h.wid),
        heartbeat_object(h)["url"@] == JsonView::Str(h.url),
        heartbeat_object(h)["arch"@] == JsonView::Str(h.arch),
        heartbeat_object(h)["backend"@] == JsonView::Str(h.backend),
        heartbeat_object(h)["seq"@] == JsonView::Int(h.seq as int),
        heartbeat_object(h)["ts_ms"@] == JsonView::Int(h.ts_ms as int),
        heartbeat_object(h)["running"@] == JsonView::Int(h.running as int),
        heartbeat_object(h)["accepting"@] == JsonView::Bool(h.accepting),
        heartbeat_object(h)["draining"@] == JsonView::Bool(h.draining),
        heartbeat_object(h)["used"@] is Object,
        heartbeat_object(h)["used"@]->Object_0["mem_mib"@] == JsonView::Int(h.used.mem_mib as int),
        heartbeat_object(h)["used"@]->Object_0["vcpus"@] == JsonView::Int(h.used.vcpus as int),
        heartbeat_object(h)["caps"@]->Object_0["mem_mib"@] == JsonView::Int(h.caps.mem_mib as int),
        heartbeat_object(h)["caps"@]->Object_0["vcpus"@] == JsonView::Int(h.caps.vcpus as int),
{
    reveal_strlit("vcpus");
    reveal_strlit("mem_mib");
    assert("vcpus"@.len() == 5 && "mem_mib"@.len() == 7 && "vcpus"@[0] == 'v' && "mem_mib"@[0] == 'm');
    reveal_strlit("ver");
    reveal_strlit("wid");
    reveal_strlit("url");
    reveal_strlit("arch");
    reveal_strlit("backend");
    reveal_strlit("seq");
    reveal_strlit("ts_ms");
    reveal_strlit("caps");
    reveal_strlit("used");
    reveal_strlit("running");
    reveal_strlit("accepting");
    reveal_strlit("draining");
    reveal_strlit("net_rx_bytes");
    reveal_strlit("net_tx_bytes");
    assert("ver"@.len() == 3 && "ver"@[0] == 'v');
    assert("wid"@.len() == 3 && "wid"@[0] == 'w');
    assert("url"@.len() == 3 && "url"@[0] == 'u');
    assert("arch"@.len() == 4 && "arch"@[0] == 'a');
    assert("backend"@.len() == 7 && "backend"@[0] == 'b');
    assert("seq"@.len() == 3 && "seq"@[0] == 's');
    assert("ts_ms"@.len() == 5 && "ts_ms"@[0] == 't');
    assert("caps"@.len() == 4 && "caps"@[0] == 'c');
    assert("used"@.len() == 4 && "used"@[0] == 'u');
    assert("running"@.len() == 7 && "running"@[0] == 'r');
    assert("accepting"@.len() == 9 && "accepting"@[0] == 'a');
    assert("draining"@.len() == 8 && "draining"@[0] == 'd');
    assert("net_rx_bytes"@.len() == 12 && "net_rx_bytes"@[0] == 'n' && "net_rx_bytes"@[4] == 'r');
    assert("net_tx_bytes"@.len() == 12 && "net_tx_bytes"@[0] == 'n' && "net_tx_bytes"@[4] == 't');
    let m = heartbeat_object(h);
    reveal_with_fuel(reads_back, 3);
    assert forall|k: Seq<char>| #[trigger] m.contains_key(k) implies (k.len() > 0 ==> k[0] != '$') && reads_back(
        m[k],
        126,
    ) by {
        if k == "caps"@ || k == "used"@ {
            let inner = m[k]->Object_0;
            assert forall|j: Seq<char>| #[trigger] inner.contains_key(j) implies (j.len() > 0 ==> j[0] != '$')
                && reads_back(inner[j], 125) by {}
        }
    }
    assert(u64_at(m, "ver"@) == Some(h.ver as u64));
    assert(resources_at(m, "caps"@) == Some(h.caps));
    assert(resources_at(m, "used"@) == Some(h.used));
}

/// What is written of a route; a result that is not known is left out.
pub open spec fn route_object(v: RouteView) -> ObjectView {
    let m = Map::<Seq<char>, JsonView>::empty().insert("sid"@, JsonView::Str(v.sid)).insert(
        "wid"@,
        JsonView::Str(v.wid),
    ).insert("url"@, JsonView::Str(v.url)).insert("state"@, JsonView::Str(v.state)).insert(
        "ts_ms"@,
        JsonView::Int(v.ts_ms as int),
    );
    match v.result {
        Some(code) => m.insert("result"@, JsonView::Int(code as int)),
        None => m,
    }
}

pub open spec fn opt_i64_at(m: ObjectView, k: Seq<char>) -> Option<Option<i64>> {
    if !m.contains_key(k) || m[k] is Null {
        Some(None)
    } else {
        match i64_of(m[k]) {
            Some(n) => Some(Some(n)),
            None => None,
        }
    }
}

fn parse_opt_i64(m: &JsonMap, k: &str) -> (r: Option<Option<i64>>)
    ensures
        r == opt_i64_at(m@, k@),
{
    match m.get(k) {
        None => Some(None),
        Some(Json::Null) => Some(None),
        Some(v) => match v.as_i64() {
            Some(n) => Some(Some(n)),
            None => None,
        },
    }
}

/// The route that an object stands for; what else it holds is ignored.
pub open spec fn read_route(m: ObjectView) -> Option<RouteView> {
    match (
        text_at(m, "sid"@),
        text_at(m, "wid"@),
        text_at(m, "url"@),
        text_at(m, "state"@),
        u64_at(m, "ts_ms"@),
        opt_i64_at(m, "result"@),
    ) {
        (Some(sid), Some(wid), Some(url), Some(state), Some(ts_ms), Some(result)) => Some(
            RouteView { sid, wid, url, state, ts_ms, result },
        ),
        _ => None,
    }
}

/// What is written of a route.
pub fn write_route(v: &SandboxRoute) -> (r: JsonMap)
    ensures
        r@ == route_object(v@),
{
    let mut m = JsonMap::new();
    m.insert("sid".to_owned(), Json::Str(v.sid.clone()));
    m.insert("wid".to_owned(), Json::Str(v.wid.clone()));
    m.insert("url".to_owned(), Json::Str(v.url.clone()));
    m.insert("state".to_owned(), Json::Str(v.state.clone()));
    m.insert("ts_ms".to_owned(), Json::Int(v.ts_ms as i128));
    match v.result {
        Some(code) => {
            m.insert("result".to_owned(), Json::Int(code as i128));
        },
        None => {},
    }
    m
}

/// The route that an object stands for.
pub fn parse_route(m: &JsonMap) -> (r: Option<SandboxRoute>)
    ensures
        match r {
            Some(v) => read_route(m@) == Some(v@),
            None => read_route(m@) is None,
        },
{
    match (
        m.text_at("sid"),
        m.text_at("wid"),
        m.text_at("url"),
        m.text_at("state"),
        m.u64_at("ts_ms"),
        parse_opt_i64(m, "result"),
    ) {
        (Some(sid), Some(wid), Some(url), Some(state), Some(ts_ms), Some(result)) => Some(
            SandboxRoute { sid, wid, url, state, ts_ms, result },
        ),
        _ => None,
    }
}

/// The route that a text stands for.
pub open spec fn route_in(text: Seq<char>) -> Option<RouteView> {
    match json_read(text) {
        Ok(JsonView::Object(m)) => read_route(m),
        _ => None,
    }
}

/// The text of a route. It reads back as the route.
pub fn route_text(v: &SandboxRoute) -> (r: String)
    ensures
        r@ == json_written(JsonView::Object(route_object(v@))),
        route_in(r@) == Some(v@),
{
    proof {
        law_route_survives(v@);
    }
    Json::Object(write_route(v)).render()
}

/// The route that a text stands for.
pub fn read_route_text(text: &str) -> (r: Option<SandboxRoute>)
    ensures
        match r {
            Some(v) => route_in(text@) == Some(v@),
            None => route_in(text@) is None,
        },
{
    match Json::parse(text) {
        Ok(Json::Object(m)) => parse_route(&m),
        _ => None,
    }
}

/// A route that is written and read back is the same route, and an unknown result
/// is not written.
pub proof fn law_route_survives(v: RouteView)
    ensures
        read_route(route_object(v)) == Some(v),
        reads_back(JsonView::Object(route_object(v)), 127),
        route_object(v).contains_key("result"@) == (v.result is Some),
        route_object(v)["sid"@] == JsonView::Str(v.sid),
        route_object(v)["wid"@] == JsonView::Str(v.wid),
        route_object(v)["url"@] == JsonView::Str(v.url),
        route_object(v)["state"@] == JsonView::Str(v.state),
        route_object(v)["ts_ms"@] == JsonView::Int(v.ts_ms as int),
{
    reveal_strlit("sid");
    reveal_strlit("wid");
    reveal_strlit("url");
    reveal_strlit("state");
    reveal_strlit("ts_ms");
    reveal_strlit("result");
    assert("sid"@.len() == 3 && "sid"@[0] == 's');
    assert("wid"@.len() == 3 && "wid"@[0] == 'w');
    assert("url"@.len() == 3 && "url"@[0] == 'u');
    assert("state"@.len() == 5 && "state"@[0] == 's');
    assert("ts_ms"@.len() == 5 && "ts_ms"@[0] == 't');
    assert("result"@.len() == 6 && "result"@[0] == 'r');
    let m = route_object(v);
    assert forall|k: Seq<char>| #[trigger] m.contains_key(k) implies (k.len() > 0 ==> k[0] != '$') && reads_back(
        m[k],
        126,
    ) by {}
}

} // verus!
