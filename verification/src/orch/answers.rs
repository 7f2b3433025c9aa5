//! What a scheduler answers itself: lists that it merges, clones that it routes,
//! and what it tells of its workers.
use crate::json::{
    array_view, json_read, json_written, lemma_array_items, members_of, read_json, write_json, Json, JsonMap, JsonView,
    ObjectView,
};
use crate::orch::routes::{
    annotate_value, annotate_view, annotated_text, annotated_view, sid_in, state_in, value_sid, value_state, RouteTarget,
    TargetView,
};
use crate::orch::status::{coded, coded_status, Code, Status, StatusView};
use crate::orch::table::{beats_view, needs_of, NeedsView, PlacementNeeds};
use crate::orch::{HeartbeatView, WorkerHeartbeat};
use crate::text::{cat3, lists, lists_text, opt_text, texts, trim, trimmed};
use crate::textmap::{ascending, in_sequence, lemma_in_sequence, TextSet};
use vstd::prelude::*;

verus! {

/// The names in any of the lists.
pub open spec fn names_of(lists: Seq<Vec<String>>) -> Set<Seq<char>> {
    Set::new(|n: Seq<char>| exists|i: int| 0 <= i < lists.len() && #[trigger] texts(lists[i]@).contains(n))
}

/// The snapshots that any worker has, each once, in ascending order.
pub fn merged_snapshots(lists: &Vec<Vec<String>>) -> (r: Vec<String>)
    ensures
        texts(r@) == in_sequence(names_of(lists@)),
        ascending(texts(r@)),
        forall|n: Seq<char>| #[trigger] texts(r@).contains(n) <==> names_of(lists@).contains(n),
{
    let mut all = TextSet::new();
    let mut i: usize = 0;
    while i < lists.len()
        invariant
            i <= lists@.len(),
            forall|n: Seq<char>| #[trigger] all@.contains(n) <==> names_of(lists@.take(i as int)).contains(n),
        decreases lists@.len() - i,
    {
        let ghost before = all@;
        let list = &lists[i];
        let ghost names = texts(list@);
        let mut j: usize = 0;
        while j < list.len()
            invariant
                j <= list@.len(),
                names == texts(list@),
                forall|n: Seq<char>| #[trigger]
                    all@.contains(n) <==> before.contains(n) || names.take(j as int).contains(n),
            decreases list@.len() - j,
        {
            let ghost mid = all@;
            all.insert(list[j].clone());
            proof {
                let a = names.take(j as int);
                let b = names.take(j + 1);
                assert forall|n: Seq<char>| #[trigger] all@.contains(n) <==> before.contains(n) || b.contains(n) by {
                    assert(mid.contains(n) <==> before.contains(n) || a.contains(n));
                    if a.contains(n) {
                        let k = choose|k: int| 0 <= k < a.len() && a[k] == n;
                        assert(b[k] == n);
                    }
                    assert(b[j as int] == list@[j as int]@);
                    if b.contains(n) {
                        let k = choose|k: int| 0 <= k < b.len() && b[k] == n;
                        if k < j {
                            assert(a[k] == n);
                        }
                    }
                }
            }
            j = j + 1;
        }
        proof {
            assert(names.take(j as int) =~= names);
            let p = lists@.take(i as int);
            let q = lists@.take(i + 1);
            assert forall|n: Seq<char>| #[trigger] all@.contains(n) <==> names_of(q).contains(n) by {
                assert(before.contains(n) <==> names_of(p).contains(n));
                if names_of(p).contains(n) {
                    let k = choose|k: int| 0 <= k < p.len() && #[trigger] texts(p[k]@).contains(n);
                    assert(texts(q[k]@).contains(n));
                }
                if names.contains(n) {
                    assert(texts(q[i as int]@).contains(n));
                }
                if names_of(q).contains(n) {
                    let k = choose|k: int| 0 <= k < q.len() && #[trigger] texts(q[k]@).contains(n);
                    if k < i {
                        assert(texts(p[k]@).contains(n));
                    }
                }
            }
        }
        i = i + 1;
    }
    let out = all.list();
    proof {
        assert(lists@.take(i as int) =~= lists@);
        assert forall|n: Seq<char>| #[trigger] texts(out@).contains(n) <==> names_of(lists@).contains(n) by {
            assert(texts(out@).contains(n) <==> all@.contains(n));
        }
        lemma_in_sequence(texts(out@), names_of(lists@));
    }
    out
}

/// The answer when no live worker has a snapshot.
pub fn snapshot_missing(name: &str) -> (r: Status)
    ensures
        r@ == coded_status(
            Code::NotFound,
            "not_found"@,
            false,
            "snapshot "@ + name@ + " not found on any live worker"@,
        ),
{
    coded(Code::NotFound, "not_found", false, cat3("snapshot ", name, " not found on any live worker"))
}

/// Where a snapshot is: the first worker whose list holds it, in the order in which
/// they answered.
pub fn locate_snapshot(name: &str, answers: &Vec<Option<Vec<String>>>) -> (r: Option<usize>)
    ensures
        match r {
            Some(i) => i < answers@.len() && (answers@[i as int] matches Some(l) && lists(l@, name@)) && forall|j: int|
                0 <= j < i ==> !((#[trigger] answers@[j]) matches Some(l) && lists(l@, name@)),
            None => forall|j: int|
                0 <= j < answers@.len() ==> !((#[trigger] answers@[j]) matches Some(l) && lists(l@, name@)),
        },
{
    let mut i: usize = 0;
    while i < answers.len()
        invariant
            i <= answers@.len(),
            forall|j: int| 0 <= j < i ==> !((#[trigger] answers@[j]) matches Some(l) && lists(l@, name@)),
        decreases answers@.len() - i,
    {
        match &answers[i] {
            Some(l) => {
                if lists_text(l, name) {
                    return Some(i);
                }
            },
            None => {},
        }
        i = i + 1;
    }
    None
}

/// Views with their owner.
pub open spec fn annotated_views(views: Seq<JsonView>, target: TargetView) -> Seq<JsonView> {
    views.map_values(|v: JsonView| annotated_view(v, target))
}

/// The sandboxes and states that the objects among views tell.
pub open spec fn told_routes(views: Seq<JsonView>) -> Seq<(Seq<char>, Seq<char>)>
    decreases views.len(),
{
    if views.len() == 0 {
        Seq::empty()
    } else {
        let rest = told_routes(views.drop_last());
        match sid_in(views.last()) {
            Some(sid) => rest.push((sid, state_in(views.last()))),
            None => rest,
        }
    }
}

pub open spec fn routes_told(v: Seq<(String, String)>) -> Seq<(Seq<char>, Seq<char>)> {
    v.map_values(|p: (String, String)| (p.0@, p.1@))
}

pub open spec fn items_view(items: Seq<Json>) -> Seq<JsonView> {
    items.map_values(|j: Json| j@)
}

/// Views with their owner, and the routes that are to be written for them.
pub fn annotate_all(views: &Vec<Json>, target: &RouteTarget) -> (r: (Vec<Json>, Vec<(String, String)>))
    ensures
        items_view(r.0@) == annotated_views(items_view(views@), target@),
        routes_told(r.1@) == told_routes(items_view(views@)),
{
    let ghost all = items_view(views@);
    let mut out: Vec<Json> = Vec::new();
    let mut routes: Vec<(String, String)> = Vec::new();
    let n = views.len();
    let mut i: usize = 0;
    assert(all.take(0) =~= Seq::empty());
    assert(routes_told(routes@) =~= Seq::empty());
    while i < n
        invariant
            i <= n,
            n == all.len(),
            all == items_view(views@),
            out@.len() == i,
            forall|j: int| 0 <= j < i ==> (#[trigger] out@[j])@ == annotated_view(all[j], target@),
            routes_told(routes@) == told_routes(all.take(i as int)),
        decreases n - i,
    {
        let view = crate::json::clone_json(&views[i]);
        assert(all.take(i + 1).drop_last() =~= all.take(i as int));
        assert(all.take(i + 1).last() == view@);
        match value_sid(&view) {
            Some(sid) => {
                let ghost told = routes_told(routes@);
                let state = value_state(&view);
                let ghost pair = (sid@, state@);
                routes.push((sid, state));
                assert(routes_told(routes@) =~= told.push(pair));
            },
            None => {},
        }
        out.push(annotate_value(view, target));
        i = i + 1;
    }
    assert(all.take(i as int) =~= all);
    assert(items_view(out@) =~= annotated_views(all, target@));
    (out, routes)
}

/// The clones of a fork's answer.
pub open spec fn clones_of(body: ObjectView) -> Option<Seq<JsonView>> {
    if body.contains_key("clones"@) {
        match body["clones"@] {
            JsonView::Array(items) => Some(items),
            _ => None,
        }
    } else {
        None
    }
}

/// A fork's answer with the owner of each clone, and the routes that are to be
/// written for them. An answer without clones stays as it is.
pub fn annotate_clones(body: JsonMap, target: &RouteTarget) -> (r: (JsonMap, Vec<(String, String)>))
    ensures
        match clones_of(body@) {
            Some(clones) => r.0@ == body@.insert("clones"@, JsonView::Array(annotated_views(clones, target@)))
                && routes_told(r.1@) == told_routes(clones),
            None => r.0@ == body@ && r.1@.len() == 0,
        },
{
    let clones = match body.get("clones") {
        Some(Json::Array(items)) => {
            proof {
                lemma_array_items(items@);
            }
            let copy = crate::json::clone_items(items);
            proof {
                lemma_array_items(copy@);
                assert(items_view(copy@) =~= array_view(copy@, copy@.len()));
            }
            Some(copy)
        },
        _ => None,
    };
    match clones {
        None => (body, Vec::new()),
        Some(items) => {
            let (out, routes) = annotate_all(&items, target);
            proof {
                lemma_array_items(out@);
                assert(items_view(out@) =~= array_view(out@, out@.len()));
            }
            let mut body = body;
            body.insert("clones".to_owned(), Json::Array(out));
            (body, routes)
        },
    }
}

/// A written answer to a fork, with the owner of each clone, and the routes that are
/// to be written for them. What is no object, or no JSON at all, stays as it is.
pub fn annotate_fork(json: &str, target: &RouteTarget) -> (r: (String, Vec<(String, String)>))
    ensures
        match json_read(json@) {
            Ok(JsonView::Object(body)) => match clones_of(body) {
                Some(clones) => r.0@ == json_written(
                    JsonView::Object(body.insert("clones"@, JsonView::Array(annotated_views(clones, target@)))),
                ) && routes_told(r.1@) == told_routes(clones),
                None => r.0@ == json_written(JsonView::Object(body)) && r.1@.len() == 0,
            },
            _ => r.0@ == json@ && r.1@.len() == 0,
        },
{
    match read_json(json) {
        Ok(Json::Object(body)) => {
            let (body, routes) = annotate_clones(body, target);
            (write_json(&Json::Object(body)), routes)
        },
        _ => (json.to_owned(), Vec::new()),
    }
}

/// Written views with their owner.
pub fn annotate_list(views: &Vec<String>, target: &RouteTarget) -> (r: Vec<String>)
    ensures
        texts(r@) == texts(views@).map_values(|v: Seq<char>| annotated_text(v, target@)),
{
    let mut out: Vec<String> = Vec::new();
    let mut i: usize = 0;
    while i < views.len()
        invariant
            i <= views@.len(),
            out@.len() == i,
            forall|j: int| 0 <= j < i ==> (#[trigger] out@[j])@ == annotated_text(views@[j]@, target@),
        decreases views@.len() - i,
    {
        out.push(annotate_view(views[i].as_str(), target.wid.as_str(), target.url.as_str()));
        i = i + 1;
    }
    assert(texts(out@) =~= texts(views@).map_values(|v: Seq<char>| annotated_text(v, target@)));
    out
}

/// What is told of a worker in the roster.
pub open spec fn worker_doc(h: HeartbeatView) -> ObjectView {
    Map::<Seq<char>, JsonView>::empty().insert("id"@, JsonView::Str(h.wid)).insert("url"@, JsonView::Str(h.url)).insert(
        "arch"@,
        JsonView::Str(h.arch),
    ).insert("backend"@, JsonView::Str(h.backend)).insert("running"@, JsonView::Int(h.running as int)).insert(
        "accepting"@,
        JsonView::Bool(h.accepting),
    ).insert("draining"@, JsonView::Bool(h.draining)).insert("caps"@, crate::orch::resources_json(h.caps)).insert(
        "used"@,
        crate::orch::resources_json(h.used),
    )
}

fn write_worker(h: &WorkerHeartbeat) -> (r: Json)
    ensures
        r@ == JsonView::Object(worker_doc(h@)),
{
    let mut m = JsonMap::new();
    m.insert("id".to_owned(), Json::Str(h.wid.clone()));
    m.insert("url".to_owned(), Json::Str(h.url.clone()));
    m.insert("arch".to_owned(), Json::Str(h.arch.clone()));
    m.insert("backend".to_owned(), Json::Str(h.backend.clone()));
    m.insert("running".to_owned(), Json::Int(h.running as i128));
    m.insert("accepting".to_owned(), Json::Bool(h.accepting));
    m.insert("draining".to_owned(), Json::Bool(h.draining));
    m.insert("caps".to_owned(), crate::orch::write_resources(h.caps));
    m.insert("used".to_owned(), crate::orch::write_resources(h.used));
    Json::Object(m)
}

/// The roster: the scheduler and its live workers.
pub open spec fn roster_doc(instance: Seq<char>, live: Seq<HeartbeatView>) -> ObjectView {
    let workers = live.map_values(|h: HeartbeatView| JsonView::Object(worker_doc(h)));
    let orch = Map::<Seq<char>, JsonView>::empty().insert("scheduler"@, JsonView::Str(instance)).insert(
        "workers"@,
        JsonView::Array(workers),
    );
    Map::<Seq<char>, JsonView>::empty().insert("mesh"@, JsonView::Bool(false)).insert("orch"@, JsonView::Object(orch))
}

/// The roster: the scheduler and its live workers.
pub fn mesh_status(instance: &str, live: &Vec<WorkerHeartbeat>) -> (r: JsonMap)
    ensures
        r@ == roster_doc(instance@, beats_view(live@)),
{
    let mut workers: Vec<Json> = Vec::new();
    let mut i: usize = 0;
    while i < live.len()
        invariant
            i <= live@.len(),
            workers@.len() == i,
            forall|j: int| 0 <= j < i ==> (#[trigger] workers@[j])@ == JsonView::Object(worker_doc(live@[j]@)),
        decreases live@.len() - i,
    {
        workers.push(write_worker(&live[i]));
        i = i + 1;
    }
    proof {
        lemma_array_items(workers@);
        assert(array_view(workers@, workers@.len()) =~= beats_view(live@).map_values(
            |h: HeartbeatView| JsonView::Object(worker_doc(h)),
        ));
    }
    let mut orch = JsonMap::new();
    orch.insert("scheduler".to_owned(), Json::Str(instance.to_owned()));
    orch.insert("workers".to_owned(), Json::Array(workers));
    let mut doc = JsonMap::new();
    doc.insert("mesh".to_owned(), Json::Bool(false));
    doc.insert("orch".to_owned(), Json::Object(orch));
    doc
}

/// The sums over live workers.
pub ghost struct FleetView {
    pub caps_vcpus: int,
    pub caps_mem: int,
    pub used_vcpus: int,
    pub used_mem: int,
    pub running: int,
}

/// The sums over live workers.
pub open spec fn fleet(live: Seq<HeartbeatView>) -> FleetView
    decreases live.len(),
{
    if live.len() == 0 {
        FleetView { caps_vcpus: 0, caps_mem: 0, used_vcpus: 0, used_mem: 0, running: 0 }
    } else {
        let f = fleet(live.drop_last());
        let h = live.last();
        FleetView {
            caps_vcpus: f.caps_vcpus + h.caps.vcpus,
            caps_mem: f.caps_mem + h.caps.mem_mib,
            used_vcpus: f.used_vcpus + h.used.vcpus,
            used_mem: f.used_mem + h.used.mem_mib,
            running: f.running + h.running,
        }
    }
}

pub open spec fn sums_doc(vcpus: int, mem: int) -> JsonView {
    JsonView::Object(
        Map::<Seq<char>, JsonView>::empty().insert("vcpus"@, JsonView::Int(vcpus)).insert(
            "mem_mib"@,
            JsonView::Int(mem),
        ),
    )
}

/// What the scheduler tells of itself and its workers.
pub open spec fn info_doc(version: Seq<char>, instance: Seq<char>, live: Seq<HeartbeatView>, known: int) -> ObjectView {
    let f = fleet(live);
    Map::<Seq<char>, JsonView>::empty().insert("role"@, JsonView::Str("scheduler"@)).insert(
        "version"@,
        JsonView::Str(version),
    ).insert("instance"@, JsonView::Str(instance)).insert("workers_live"@, JsonView::Int(live.len() as int)).insert(
        "workers_known"@,
        JsonView::Int(known),
    ).insert("capacity"@, sums_doc(f.caps_vcpus, f.caps_mem)).insert("used"@, sums_doc(f.used_vcpus, f.used_mem)).insert(
        "running"@,
        JsonView::Int(f.running),
    )
}

fn write_sums(vcpus: u128, mem: u128) -> (r: Json)
    requires
        vcpus <= i128::MAX,
        mem <= i128::MAX,
    ensures
        r@ == sums_doc(vcpus as int, mem as int),
{
    let mut m = JsonMap::new();
    m.insert("vcpus".to_owned(), Json::Int(vcpus as i128));
    m.insert("mem_mib".to_owned(), Json::Int(mem as i128));
    Json::Object(m)
}

/// What the scheduler tells of itself and its workers.
pub fn info(version: &str, instance: &str, live: &Vec<WorkerHeartbeat>, known: usize) -> (r: JsonMap)
    requires
        live@.len() <= u32::MAX,
    ensures
        r@ == info_doc(version@, instance@, beats_view(live@), known as int),
{
    let ghost all = beats_view(live@);
    let mut caps_vcpus: u128 = 0;
    let mut caps_mem: u128 = 0;
    let mut used_vcpus: u128 = 0;
    let mut used_mem: u128 = 0;
    let mut running: u128 = 0;
    let mut i: usize = 0;
    assert(all.take(0) =~= Seq::empty());
    while i < live.len()
        invariant
            i <= live@.len(),
            live@.len() <= u32::MAX,
            all == beats_view(live@),
            caps_vcpus <= i * 0xffff_ffff_ffff_ffff,
            caps_mem <= i * 0xffff_ffff_ffff_ffff,
            used_vcpus <= i * 0xffff_ffff_ffff_ffff,
            used_mem <= i * 0xffff_ffff_ffff_ffff,
            running <= i * 0xffff_ffff_ffff_ffff,
            fleet(all.take(i as int)) == (FleetView {
                caps_vcpus: caps_vcpus as int,
                caps_mem: caps_mem as int,
                used_vcpus: used_vcpus as int,
                used_mem: used_mem as int,
                running: running as int,
            }),
        decreases live@.len() - i,
    {
        assert(all.take(i + 1).drop_last() =~= all.take(i as int));
        assert(all.take(i + 1).last() == live@[i as int]@);
        let h = &live[i];
        caps_vcpus = caps_vcpus + h.caps.vcpus as u128;
        caps_mem = caps_mem + h.caps.mem_mib as u128;
        used_vcpus = used_vcpus + h.used.vcpus as u128;
        used_mem = used_mem + h.used.mem_mib as u128;
        running = running + h.running as u128;
        i = i + 1;
    }
    assert(all.take(i as int) =~= all);
    assert(all.len() == live@.len());
    let mut m = JsonMap::new();
    m.insert("role".to_owned(), Json::Str("scheduler".to_owned()));
    m.insert("version".to_owned(), Json::Str(version.to_owned()));
    m.insert("instance".to_owned(), Json::Str(instance.to_owned()));
    m.insert("workers_live".to_owned(), Json::Int(live.len() as i128));
    m.insert("workers_known".to_owned(), Json::Int(known as i128));
    m.insert("capacity".to_owned(), write_sums(caps_vcpus, caps_mem));
    m.insert("used".to_owned(), write_sums(used_vcpus, used_mem));
    m.insert("running".to_owned(), Json::Int(running as i128));
    m
}

/// The streams whose first frame names a sandbox.
#[derive(Clone, Copy, PartialEq, Eq, Structural, Debug)]
pub enum StreamKind {
    Exec,
    PtyOpen,
    PtyAttach,
}

/// What is answered to a stream without frames.
pub open spec fn empty_stream(kind: StreamKind) -> Seq<char> {
    match kind {
        StreamKind::Exec => "empty exec stream"@,
        StreamKind::PtyOpen => "empty pty-open stream"@,
        StreamKind::PtyAttach => "empty pty-attach stream"@,
    }
}

/// What is answered to a stream whose first frame names no sandbox.
pub open spec fn unnamed_stream(kind: StreamKind) -> Seq<char> {
    match kind {
        StreamKind::Exec => "first exec frame must be a start payload naming a sandbox"@,
        StreamKind::PtyOpen => "first pty-open frame must be a pty_open payload naming a sandbox"@,
        StreamKind::PtyAttach => "first pty-attach frame must be a pty_attach payload naming a sandbox"@,
    }
}

pub open spec fn invalid_request(message: Seq<char>) -> StatusView {
    coded_status(Code::InvalidArgument, "invalid"@, false, message)
}

/// The first frame of a stream: none, one of another kind, or one that names a
/// sandbox.
pub enum FirstFrame {
    Missing,
    Other,
    Names(String),
}

/// The sandbox that a stream is for.
pub fn stream_sandbox(kind: StreamKind, first: FirstFrame) -> (r: Result<String, Status>)
    ensures
        match first {
            FirstFrame::Missing => r matches Err(s) && s@ == invalid_request(empty_stream(kind)),
            FirstFrame::Names(sid) if sid@.len() > 0 => r matches Ok(t) && t@ == sid@,
            _ => r matches Err(s) && s@ == invalid_request(unnamed_stream(kind)),
        },
{
    let unnamed = match kind {
        StreamKind::Exec => "first exec frame must be a start payload naming a sandbox",
        StreamKind::PtyOpen => "first pty-open frame must be a pty_open payload naming a sandbox",
        StreamKind::PtyAttach => "first pty-attach frame must be a pty_attach payload naming a sandbox",
    };
    match first {
        FirstFrame::Missing => {
            let empty = match kind {
                StreamKind::Exec => "empty exec stream",
                StreamKind::PtyOpen => "empty pty-open stream",
                StreamKind::PtyAttach => "empty pty-attach stream",
            };
            Err(coded(Code::InvalidArgument, "invalid", false, empty.to_owned()))
        },
        FirstFrame::Names(sid) => if sid.as_str().is_empty() {
            Err(coded(Code::InvalidArgument, "invalid", false, unnamed.to_owned()))
        } else {
            Ok(sid)
        },
        FirstFrame::Other => Err(coded(Code::InvalidArgument, "invalid", false, unnamed.to_owned())),
    }
}

/// The sandbox that a shell's parameters name.
pub open spec fn sandbox_named(params: JsonView) -> Option<Seq<char>> {
    match members_of(params) {
        Some(m) => crate::json::filled_at(m, "name"@),
        None => None,
    }
}

/// The sandbox that a shell is for; a shell that names none gets one of its own.
pub fn shell_sandbox(params: &Json) -> (r: Option<String>)
    ensures
        opt_text(r) == sandbox_named(params@),
{
    match params.as_object() {
        Some(m) => m.filled_at("name"),
        None => None,
    }
}

/// The first frame of a shell: none, one of another kind, or its parameters.
pub enum ShellFrame {
    Missing,
    Other,
    Params(String),
}

/// What a shell runs in: a sandbox that it names, or a fresh one with its needs.
pub enum ShellTarget {
    Sandbox(String),
    Fresh(PlacementNeeds),
}

pub ghost enum ShellView {
    Sandbox(Seq<char>),
    Fresh(NeedsView),
}

impl View for ShellTarget {
    type V = ShellView;

    open spec fn view(&self) -> ShellView {
        match self {
            ShellTarget::Sandbox(sid) => ShellView::Sandbox(sid@),
            ShellTarget::Fresh(needs) => ShellView::Fresh(needs@),
        }
    }
}

/// The parameters of a shell; blank ones are none.
pub open spec fn shell_params(text: Seq<char>) -> Result<JsonView, Seq<char>> {
    if trimmed(text).len() == 0 {
        Ok(JsonView::Object(Map::empty()))
    } else {
        json_read(text)
    }
}

/// What a shell runs in, by its first frame.
pub open spec fn shell_wanted(first: ShellFrame) -> Result<ShellView, StatusView> {
    match first {
        ShellFrame::Missing => Err(invalid_request("empty shell stream"@)),
        ShellFrame::Other => Err(invalid_request("first shell frame must carry shell params JSON"@)),
        ShellFrame::Params(text) => match shell_params(text@) {
            Err(_) => Err(invalid_request("invalid shell params JSON"@)),
            Ok(params) => match sandbox_named(params) {
                Some(sid) => Ok(ShellView::Sandbox(sid)),
                None => Ok(ShellView::Fresh(needs_of(params))),
            },
        },
    }
}

/// What a shell runs in: a named shell attaches to its sandbox, an anonymous one is
/// placed like a create.
pub fn shell_target(first: &ShellFrame) -> (r: Result<ShellTarget, Status>)
    ensures
        match r {
            Ok(t) => shell_wanted(*first) == Ok::<ShellView, StatusView>(t@),
            Err(s) => shell_wanted(*first) == Err::<ShellView, StatusView>(s@),
        },
{
    let params = match first {
        ShellFrame::Missing => {
            return Err(coded(Code::InvalidArgument, "invalid", false, "empty shell stream".to_owned()));
        },
        ShellFrame::Other => {
            return Err(
                coded(
                    Code::InvalidArgument,
                    "invalid",
                    false,
                    "first shell frame must carry shell params JSON".to_owned(),
                ),
            );
        },
        ShellFrame::Params(text) => if trim(text.as_str()).as_str().is_empty() {
            Ok(Json::Object(JsonMap::new()))
        } else {
            read_json(text.as_str())
        },
    };
    match params {
        Err(_) => Err(coded(Code::InvalidArgument, "invalid", false, "invalid shell params JSON".to_owned())),
        Ok(params) => match shell_sandbox(&params) {
            Some(sid) => Ok(ShellTarget::Sandbox(sid)),
            None => Ok(ShellTarget::Fresh(PlacementNeeds::from_create_json(&params))),
        },
    }
}

/// The answer to an anonymous shell that no worker has room for.
pub fn no_room_for_shell() -> (r: Status)
    ensures
        r@ == coded_status(Code::Aborted, "busy"@, true, "no worker with capacity for an ephemeral shell"@),
{
    coded(Code::Aborted, "busy", true, "no worker with capacity for an ephemeral shell".to_owned())
}

/// A worker adds to the fleet's numbers exactly what it has, uses and runs.
pub proof fn law_fleet_sums_workers(live: Seq<HeartbeatView>, h: HeartbeatView)
    ensures
        ({
            let a = fleet(live);
            let b = fleet(live.push(h));
            &&& b.caps_vcpus == a.caps_vcpus + h.caps.vcpus
            &&& b.caps_mem == a.caps_mem + h.caps.mem_mib
            &&& b.used_vcpus == a.used_vcpus + h.used.vcpus
            &&& b.used_mem == a.used_mem + h.used.mem_mib
            &&& b.running == a.running + h.running
        }),
        fleet(Seq::empty()) == (FleetView { caps_vcpus: 0, caps_mem: 0, used_vcpus: 0, used_mem: 0, running: 0 }),
{
    assert(live.push(h).drop_last() =~= live);
}

/// A route is told for every view that names a sandbox, in the views' order, and for
/// no other.
pub proof fn law_named_views_have_routes(views: Seq<JsonView>, view: JsonView)
    ensures
        sid_in(view) is Some ==> told_routes(views.push(view)) == told_routes(views).push(
            (sid_in(view)->0, state_in(view)),
        ),
        sid_in(view) is None ==> told_routes(views.push(view)) == told_routes(views),
        told_routes(Seq::empty()).len() == 0,
{
    assert(views.push(view).drop_last() =~= views);
}

/// A shell goes to the sandbox that it names, and to a fresh one where it names none.
pub proof fn law_shell_goes_where_it_is_told(m: ObjectView, name: Seq<char>)
    ensures
        m.contains_key("name"@) && m["name"@] == JsonView::Str(name) && name.len() > 0 ==> sandbox_named(
            JsonView::Object(m),
        ) == Some(name),
        !m.contains_key("name"@) ==> sandbox_named(JsonView::Object(m)) is None,
        m.contains_key("name"@) && m["name"@] == JsonView::Str(Seq::empty()) ==> sandbox_named(JsonView::Object(m)) is None,
{
}

} // verus!
