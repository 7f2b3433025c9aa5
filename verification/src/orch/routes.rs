//! Where sandboxes are: the routes that a scheduler remembers, and how it finds
//! the others.
use crate::json::{json_read, json_written, members_of, read_json, text_of, write_json, Json, JsonView, ObjectView};
use crate::orch::status::{coded, coded_status, Code, Status, StatusView};
use crate::orch::table::{TableView, WorkerTable};
use crate::orch::{RouteView, SandboxRoute};
use crate::sharded::Sharded;
use crate::text::{cat3, cat4, opt_text, text_eq};
use vstd::prelude::*;

verus! {

/// How many routes are remembered.
pub const ROUTE_CACHE_MAX: usize = 65536;

/// A worker and where it is reached.
#[derive(Debug)]
pub struct RouteTarget {
    pub wid: String,
    pub url: String,
}

pub ghost struct TargetView {
    pub wid: Seq<char>,
    pub url: Seq<char>,
}

impl View for RouteTarget {
    type V = TargetView;

    open spec fn view(&self) -> TargetView {
        TargetView { wid: self.wid@, url: self.url@ }
    }
}

impl Clone for RouteTarget {
    fn clone(&self) -> (r: RouteTarget)
        ensures
            r@ == self@,
    {
        RouteTarget { wid: self.wid.clone(), url: self.url.clone() }
    }
}

/// The routes that a scheduler remembers.
pub struct RouteCache {
    routes: Sharded<RouteTarget>,
}

impl View for RouteCache {
    type V = Map<Seq<char>, TargetView>;

    closed spec fn view(&self) -> Map<Seq<char>, TargetView> {
        self.routes@
    }
}

/// What is remembered after one more route; where there are too many, all the
/// others are forgotten.
pub open spec fn remembered(cache: Map<Seq<char>, TargetView>, sid: Seq<char>, target: TargetView) -> Map<
    Seq<char>,
    TargetView,
> {
    if cache.dom().len() >= ROUTE_CACHE_MAX {
        Map::<Seq<char>, TargetView>::empty().insert(sid, target)
    } else {
        cache.insert(sid, target)
    }
}

impl RouteCache {
    /// Whether every route is found at its place.
    pub closed spec fn wf(self) -> bool {
        self.routes.wf()
    }

    /// A cache without routes.
    pub fn new() -> (r: RouteCache)
        ensures
            r.wf(),
            r@ == Map::<Seq<char>, TargetView>::empty(),
    {
        RouteCache { routes: Sharded::new() }
    }

    /// The route of a sandbox.
    pub fn get(&self, sid: &str) -> (r: Option<RouteTarget>)
        requires
            self.wf(),
        ensures
            match r {
                Some(t) => self@.contains_key(sid@) && self@[sid@] == t@,
                None => !self@.contains_key(sid@),
            },
    {
        match self.routes.get(sid) {
            Some(t) => Some(t.clone()),
            None => None,
        }
    }

    /// Remembers a route.
    pub fn cache_route(&mut self, sid: &str, target: RouteTarget)
        requires
            old(self).wf(),
        ensures
            final(self).wf(),
            final(self)@ == remembered(old(self)@, sid@, target@),
    {
        if self.routes.len() >= ROUTE_CACHE_MAX {
            self.routes = Sharded::new();
        }
        self.routes.insert(sid, target);
    }

    /// Forgets a route.
    pub fn drop_route(&mut self, sid: &str)
        requires
            old(self).wf(),
        ensures
            final(self).wf(),
            final(self)@ == old(self)@.remove(sid@),
    {
        let _ = self.routes.remove(sid);
    }
}

/// The cache never remembers more routes than it may.
pub proof fn law_cache_is_bounded(cache: Map<Seq<char>, TargetView>, sid: Seq<char>, target: TargetView)
    requires
        cache.dom().finite(),
        cache.dom().len() <= ROUTE_CACHE_MAX,
    ensures
        remembered(cache, sid, target).dom().finite(),
        remembered(cache, sid, target).dom().len() <= ROUTE_CACHE_MAX,
        remembered(cache, sid, target)[sid] == target,
{
}

/// Where a worker is reached: what it advertised last, else what is known.
pub open spec fn freshest(table: TableView, target: TargetView) -> TargetView {
    TargetView {
        wid: target.wid,
        url: if table.workers.contains_key(target.wid) {
            table.workers[target.wid].heartbeat.url
        } else {
            target.url
        },
    }
}

fn refreshed(table: &WorkerTable, target: RouteTarget) -> (r: RouteTarget)
    requires
        table.wf(),
    ensures
        r@ == freshest(table@, target@),
{
    match table.url_of(target.wid.as_str()) {
        Some(url) => RouteTarget { wid: target.wid, url },
        None => target,
    }
}

/// What comes of looking for a sandbox.
pub enum Resolved {
    Owner(RouteTarget),
    Failed(Status),
    /// The stored route is to be looked up.
    LookUp,
    /// The live workers are to be asked.
    Probe,
}

pub ghost enum ResolvedView {
    Owner(TargetView),
    Failed(StatusView),
    LookUp,
    Probe,
}

impl View for Resolved {
    type V = ResolvedView;

    open spec fn view(&self) -> ResolvedView {
        match *self {
            Resolved::Owner(t) => ResolvedView::Owner(t@),
            Resolved::Failed(s) => ResolvedView::Failed(s@),
            Resolved::LookUp => ResolvedView::LookUp,
            Resolved::Probe => ResolvedView::Probe,
        }
    }
}

/// What the store says of a sandbox's route.
pub enum StoredRoute {
    Found(SandboxRoute),
    Unreadable,
    Missing,
    Unavailable,
}

pub open spec fn found_route(stored: StoredRoute) -> Option<RouteView> {
    match stored {
        StoredRoute::Found(r) => Some(r@),
        _ => None,
    }
}

/// Looking for a sandbox begins with what is remembered.
pub open spec fn resolve_first(cache: Map<Seq<char>, TargetView>, table: TableView, sid: Seq<char>) -> ResolvedView {
    if sid.len() == 0 {
        ResolvedView::Failed(coded_status(Code::InvalidArgument, "invalid"@, false, "sandbox id is required"@))
    } else if cache.contains_key(sid) {
        ResolvedView::Owner(freshest(table, cache[sid]))
    } else {
        ResolvedView::LookUp
    }
}

/// It goes on with the stored route: a sandbox that was lost is not looked for any
/// further.
pub open spec fn resolve_second(table: TableView, sid: Seq<char>, stored: Option<RouteView>) -> ResolvedView {
    match stored {
        None => ResolvedView::Probe,
        Some(route) => if route.state == "lost"@ {
            ResolvedView::Failed(
                coded_status(
                    Code::NotFound,
                    "not_found"@,
                    false,
                    "sandbox "@ + sid + " was lost with worker "@ + route.wid,
                ),
            )
        } else {
            ResolvedView::Owner(freshest(table, TargetView { wid: route.wid, url: route.url }))
        },
    }
}

pub open spec fn sandbox_missing(sid: Seq<char>) -> StatusView {
    coded_status(Code::NotFound, "not_found"@, false, "sandbox "@ + sid + " not found"@)
}

/// Looks for a sandbox in what is remembered.
pub fn resolve_cached(cache: &RouteCache, table: &WorkerTable, sid: &str) -> (r: Resolved)
    requires
        cache.wf(),
        table.wf(),
    ensures
        r@ == resolve_first(cache@, table@, sid@),
{
    if sid.is_empty() {
        return Resolved::Failed(
            coded(Code::InvalidArgument, "invalid", false, "sandbox id is required".to_owned()),
        );
    }
    match cache.get(sid) {
        Some(target) => Resolved::Owner(refreshed(table, target)),
        None => Resolved::LookUp,
    }
}

/// Looks for a sandbox in what is stored; a route that is found is remembered.
pub fn resolve_stored(cache: &mut RouteCache, table: &WorkerTable, sid: &str, stored: StoredRoute) -> (r: Resolved)
    requires
        old(cache).wf(),
        table.wf(),
    ensures
        final(cache).wf(),
        r@ == resolve_second(table@, sid@, found_route(stored)),
        final(cache)@ == match r@ {
            ResolvedView::Owner(t) => remembered(old(cache)@, sid@, t),
            _ => old(cache)@,
        },
{
    match stored {
        StoredRoute::Found(route) => {
            if text_eq(route.state.as_str(), "lost") {
                return Resolved::Failed(
                    coded(
                        Code::NotFound,
                        "not_found",
                        false,
                        cat4("sandbox ", sid, " was lost with worker ", route.wid.as_str()),
                    ),
                );
            }
            let target = refreshed(table, RouteTarget { wid: route.wid, url: route.url });
            cache.cache_route(sid, target.clone());
            Resolved::Owner(target)
        },
        _ => Resolved::Probe,
    }
}

/// Ends the search with what the live workers said.
pub fn resolve_probed(cache: &mut RouteCache, sid: &str, hit: Option<RouteTarget>) -> (r: Result<RouteTarget, Status>)
    requires
        old(cache).wf(),
    ensures
        final(cache).wf(),
        match hit {
            Some(t) => (r matches Ok(u) && u@ == t@) && final(cache)@ == remembered(old(cache)@, sid@, t@),
            None => (r matches Err(s) && s@ == sandbox_missing(sid@)) && final(cache)@ == old(cache)@,
        },
{
    match hit {
        Some(target) => {
            cache.cache_route(sid, target.clone());
            Ok(target)
        },
        None => Err(coded(Code::NotFound, "not_found", false, cat3("sandbox ", sid, " not found"))),
    }
}

/// A sandbox whose route was just remembered is found without being looked up.
pub proof fn law_remembered_route_is_found(
    cache: Map<Seq<char>, TargetView>,
    table: TableView,
    sid: Seq<char>,
    target: TargetView,
)
    requires
        sid.len() > 0,
    ensures
        resolve_first(remembered(cache, sid, target), table, sid) == ResolvedView::Owner(freshest(table, target)),
{
}

/// A sandbox that was lost with its worker is never answered with a worker.
pub proof fn law_lost_sandbox_is_not_routed(table: TableView, sid: Seq<char>, route: RouteView)
    requires
        route.state == "lost"@,
    ensures
        resolve_second(table, sid, Some(route)) is Failed,
{
}

/// Whether a watch that waits for its sandbox looks again for it: its route may
/// not be stored yet.
pub fn watch_looks_again(until_ready: bool, result: Option<Code>, past_deadline: bool) -> (r: bool)
    ensures
        r == (until_ready && result == Some(Code::NotFound) && !past_deadline),
{
    match result {
        Some(Code::NotFound) => until_ready && !past_deadline,
        _ => false,
    }
}

/// A view with its owner.
pub open spec fn annotated(view: ObjectView, target: TargetView) -> ObjectView {
    view.insert("node"@, JsonView::Str(target.wid)).insert("endpoint"@, JsonView::Str(target.url))
}

/// A view with its owner; what is no object stays as it is.
pub open spec fn annotated_view(view: JsonView, target: TargetView) -> JsonView {
    match view {
        JsonView::Object(m) => JsonView::Object(annotated(m, target)),
        other => other,
    }
}

/// A view with its owner.
pub fn annotate_value(view: Json, target: &RouteTarget) -> (r: Json)
    ensures
        r@ == annotated_view(view@, target@),
{
    match view {
        Json::Object(m) => {
            let mut m = m;
            m.insert("node".to_owned(), Json::Str(target.wid.clone()));
            m.insert("endpoint".to_owned(), Json::Str(target.url.clone()));
            Json::Object(m)
        },
        other => other,
    }
}

/// The sandbox that a view is of: its name, or its id where it has none.
pub open spec fn sid_in(view: JsonView) -> Option<Seq<char>> {
    match members_of(view) {
        None => None,
        Some(m) => if m.contains_key("name"@) {
            text_of(m["name"@])
        } else if m.contains_key("id"@) {
            text_of(m["id"@])
        } else {
            None
        },
    }
}

/// The state that a view tells.
pub open spec fn state_in(view: JsonView) -> Seq<char> {
    match members_of(view) {
        None => "running"@,
        Some(m) => crate::json::text_or(m, "status"@, "running"@),
    }
}

/// The sandbox that a view is of.
pub fn value_sid(view: &Json) -> (r: Option<String>)
    ensures
        opt_text(r) == sid_in(view@),
{
    match view.as_object() {
        None => None,
        Some(m) => match m.get("name") {
            Some(v) => match v.as_str() {
                Some(s) => Some(s.clone()),
                None => None,
            },
            None => match m.get("id") {
                Some(v) => match v.as_str() {
                    Some(s) => Some(s.clone()),
                    None => None,
                },
                None => None,
            },
        },
    }
}

/// The state that a view tells.
pub fn value_state(view: &Json) -> (r: String)
    ensures
        r@ == state_in(view@),
{
    match view.as_object() {
        None => "running".to_owned(),
        Some(m) => m.text_or("status", "running"),
    }
}

/// A written view with its owner. What is no object, or no JSON at all, stays as it
/// is.
pub open spec fn annotated_text(text: Seq<char>, target: TargetView) -> Seq<char> {
    match json_read(text) {
        Ok(JsonView::Object(m)) => json_written(JsonView::Object(annotated(m, target))),
        _ => text,
    }
}

/// The sandbox that a written view is of.
pub open spec fn told_sid(text: Seq<char>) -> Option<Seq<char>> {
    match json_read(text) {
        Ok(view) => sid_in(view),
        Err(_) => None,
    }
}

/// The state that a written view tells.
pub open spec fn told_state(text: Seq<char>) -> Seq<char> {
    match json_read(text) {
        Ok(view) => state_in(view),
        Err(_) => "running"@,
    }
}

/// A written view with its owner; a malformed one passes through untouched.
pub fn annotate_view(json: &str, wid: &str, url: &str) -> (r: String)
    ensures
        r@ == annotated_text(json@, TargetView { wid: wid@, url: url@ }),
{
    match read_json(json) {
        Ok(Json::Object(m)) => {
            let target = RouteTarget { wid: wid.to_owned(), url: url.to_owned() };
            write_json(&annotate_value(Json::Object(m), &target))
        },
        _ => json.to_owned(),
    }
}

/// The sandbox that a written view is of.
pub fn view_sid(json: &str) -> (r: Option<String>)
    ensures
        opt_text(r) == told_sid(json@),
{
    match read_json(json) {
        Ok(view) => value_sid(&view),
        Err(_) => None,
    }
}

/// The state that a written view tells.
pub fn view_state(json: &str) -> (r: String)
    ensures
        r@ == told_state(json@),
{
    match read_json(json) {
        Ok(view) => value_state(&view),
        Err(_) => "running".to_owned(),
    }
}

/// A view keeps everything but its owner when it is annotated, and tells the same
/// sandbox and state.
pub proof fn law_annotation_is_additive(view: JsonView, target: TargetView, k: Seq<char>)
    requires
        k != "node"@,
        k != "endpoint"@,
    ensures
        sid_in(annotated_view(view, target)) == sid_in(view),
        state_in(annotated_view(view, target)) == state_in(view),
        view matches JsonView::Object(m) ==> (annotated_view(view, target) matches JsonView::Object(n) && (n.contains_key(
            k,
        ) == m.contains_key(k)) && (m.contains_key(k) ==> n[k] == m[k])),
{
    reveal_strlit("node");
    reveal_strlit("endpoint");
    reveal_strlit("name");
    reveal_strlit("id");
    reveal_strlit("status");
    assert("node"@.len() == 4 && "node"@[1] == 'o');
    assert("name"@.len() == 4 && "name"@[1] == 'a');
    assert("endpoint"@.len() == 8 && "id"@.len() == 2 && "status"@.len() == 6);
}

/// A sandbox whose route is remembered or stored is asked for at the worker that the
/// route names: where that worker is known, at the address it last told of itself,
/// otherwise at the address of the route. What was lost with its worker is not found,
/// and only what has no stored route is probed for.
pub proof fn law_route_leads_to_its_worker(
    cache: Map<Seq<char>, TargetView>,
    table: TableView,
    sid: Seq<char>,
    route: RouteView,
)
    requires
        sid.len() > 0,
    ensures
        ({
            let first = resolve_first(cache, table, sid);
            &&& cache.contains_key(sid) <==> first is Owner
            &&& !cache.contains_key(sid) <==> first is LookUp
            &&& first is Owner ==> first->Owner_0.wid == cache[sid].wid
            &&& first is Owner && table.workers.contains_key(cache[sid].wid) ==> first->Owner_0.url
                == table.workers[cache[sid].wid].heartbeat.url
            &&& first is Owner && !table.workers.contains_key(cache[sid].wid) ==> first->Owner_0.url == cache[sid].url
        }),
        ({
            let second = resolve_second(table, sid, Some(route));
            &&& route.state == "lost"@ <==> second is Failed
            &&& route.state != "lost"@ <==> second is Owner
            &&& second is Failed ==> second->Failed_0.code == Code::NotFound && second->Failed_0.retryable == Some(
                false,
            )
            &&& second is Owner ==> second->Owner_0.wid == route.wid
            &&& second is Owner && table.workers.contains_key(route.wid) ==> second->Owner_0.url
                == table.workers[route.wid].heartbeat.url
            &&& second is Owner && !table.workers.contains_key(route.wid) ==> second->Owner_0.url == route.url
        }),
        resolve_second(table, sid, None) is Probe,
{
}

/// Remembering a route forgets no other one while there is room.
pub proof fn law_remembering_keeps_other_routes(
    cache: Map<Seq<char>, TargetView>,
    sid: Seq<char>,
    target: TargetView,
    other: Seq<char>,
)
    requires
        other != sid,
        cache.dom().len() < ROUTE_CACHE_MAX,
    ensures
        remembered(cache, sid, target).contains_key(sid),
        remembered(cache, sid, target)[sid] == target,
        remembered(cache, sid, target).contains_key(other) == cache.contains_key(other),
        cache.contains_key(other) ==> remembered(cache, sid, target)[other] == cache[other],
{
}

/// An annotated view tells the worker and its address.
pub proof fn law_annotation_tells_worker(m: ObjectView, target: TargetView)
    ensures
        annotated_view(JsonView::Object(m), target) is Object,
        annotated_view(JsonView::Object(m), target)->Object_0["node"@] == JsonView::Str(target.wid),
        annotated_view(JsonView::Object(m), target)->Object_0["endpoint"@] == JsonView::Str(target.url),
{
    reveal_strlit("node");
    reveal_strlit("endpoint");
    assert("node"@.len() == 4 && "endpoint"@.len() == 8);
}

} // verus!
