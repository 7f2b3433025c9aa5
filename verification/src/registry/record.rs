//! One sandbox of the registry, and what of it is shown and stored.
use super::codec::{json_lifecycle, json_opt_text, json_policy, lifecycle_json, opt_text_json, policy_json};
use super::identity::{
    identity_in, is_identity_json, json_identity, json_texts, no_identity, redacted, runtime_identity_of, texts_json,
    IdentityView, SafeRuntimeIdentity,
};
use super::lifecycle::{
    fresh_lifecycle, phase_of, phase_text, status_for_observed, status_of, LifecyclePhase, LifecycleState,
    LifecycleView, PersistencePolicy, StateGeneration,
};
use crate::floats::{is_positive, json_number, json_opt_number, number_json, opt_number_json, positive};
use crate::json::{Json, JsonMap, JsonView, ObjectView};
use crate::text::opt_text;
use crate::textmap::{copy_texts, TextMap};
use vstd::prelude::*;

verus! {

/// One sandbox registry entry shared by API and engine layers. Times and
/// durations are the bits of numbers of seconds.
pub struct VmRecord {
    /// Stable sandbox id.
    pub id: String,
    /// Human-facing sandbox name.
    pub name: String,
    /// Lifecycle status.
    pub status: String,
    /// Per-VM monitor process id.
    pub pid: Option<i32>,
    /// Image, template, fork, or restore source.
    pub source: Option<String>,
    /// Unix creation timestamp.
    pub created_at: u64,
    /// Timeout in seconds from last activity.
    pub timeout: Option<u64>,
    /// Raw metadata detail spread into API views.
    pub detail: Json,
    /// String tags used for filtering.
    pub tags: TextMap<String>,
    /// Unix timestamp of last activity.
    pub last_active: u64,
    /// Unix timestamp of the last qualifying network sample.
    pub last_network_active: u64,
    /// Stored-state retention and eviction behavior.
    pub persistence: PersistencePolicy,
    /// Unix termination timestamp.
    pub terminated_at: Option<u64>,
    /// Terminal error string.
    pub error: Option<String>,
    /// Desired/observed lifecycle state and its generation.
    pub lifecycle: LifecycleState,
    /// Stable production ownership incarnation, distinct from mutable owner
    /// epoch.
    pub incarnation_epoch: i64,
    /// The complete non-secret identity needed to rebuild runtime resources.
    pub runtime_identity: SafeRuntimeIdentity,
}

/// The value of a [`VmRecord`].
#[verifier::ext_equal]
pub struct VmView {
    pub id: Seq<char>,
    pub name: Seq<char>,
    pub status: Seq<char>,
    pub pid: Option<i32>,
    pub source: Option<Seq<char>>,
    pub created_at: u64,
    pub timeout: Option<u64>,
    pub detail: JsonView,
    pub tags: Map<Seq<char>, Seq<char>>,
    pub last_active: u64,
    pub last_network_active: u64,
    pub persistence: PersistencePolicy,
    pub terminated_at: Option<u64>,
    pub error: Option<Seq<char>>,
    pub lifecycle: LifecycleView,
    pub incarnation_epoch: i64,
    pub runtime_identity: IdentityView,
}

impl View for VmRecord {
    type V = VmView;

    open spec fn view(&self) -> VmView {
        VmView {
            id: self.id@,
            name: self.name@,
            status: self.status@,
            pid: self.pid,
            source: opt_text(self.source),
            created_at: self.created_at,
            timeout: self.timeout,
            detail: self.detail@,
            tags: self.tags@,
            last_active: self.last_active,
            last_network_active: self.last_network_active,
            persistence: self.persistence,
            terminated_at: self.terminated_at,
            error: opt_text(self.error),
            lifecycle: self.lifecycle@,
            incarnation_epoch: self.incarnation_epoch,
            runtime_identity: self.runtime_identity@,
        }
    }
}

fn clone_opt(o: &Option<String>) -> (r: Option<String>)
    ensures
        opt_text(r) == opt_text(*o),
{
    match o {
        Some(s) => Some(s.clone()),
        None => None,
    }
}

impl Clone for VmRecord {
    fn clone(&self) -> (r: VmRecord)
        ensures
            r@ == self@,
    {
        VmRecord {
            id: self.id.clone(),
            name: self.name.clone(),
            status: self.status.clone(),
            pid: self.pid,
            source: clone_opt(&self.source),
            created_at: self.created_at,
            timeout: self.timeout,
            detail: self.detail.clone(),
            tags: copy_texts(&self.tags),
            last_active: self.last_active,
            last_network_active: self.last_network_active,
            persistence: self.persistence,
            terminated_at: self.terminated_at,
            error: clone_opt(&self.error),
            lifecycle: self.lifecycle.clone(),
            incarnation_epoch: self.incarnation_epoch,
            runtime_identity: self.runtime_identity.clone(),
        }
    }
}

/// The members of a detail value; a value that is no object has none.
pub open spec fn detail_members(v: JsonView) -> ObjectView {
    match v {
        JsonView::Object(m) => m,
        _ => Map::empty(),
    }
}

pub(crate) fn detail_object(detail: &Json) -> (r: JsonMap)
    ensures
        r@ == detail_members(detail@),
{
    match detail {
        Json::Object(m) => m.clone(),
        _ => JsonMap::new(),
    }
}

/// The members of the API view: those of the detail, except the request key, with
/// the canonical ones in place of those of the same name.
pub open spec fn shown(r: VmView, expires_at: Option<u64>) -> ObjectView {
    let m = detail_members(r.detail);
    let returncode = if m.contains_key("returncode"@) {
        m["returncode"@]
    } else {
        JsonView::Null
    };
    m.remove("idempotency_key"@).insert("id"@, JsonView::Str(r.id)).insert("name"@, JsonView::Str(r.name)).insert(
        "status"@,
        JsonView::Str(r.status),
    ).insert("desired_state"@, JsonView::Str(phase_text(r.lifecycle.desired))).insert(
        "observed_state"@,
        JsonView::Str(phase_text(r.lifecycle.observed)),
    ).insert("state_generation"@, JsonView::Int(r.lifecycle.generation.0 as int)).insert(
        "lifecycle_failure"@,
        opt_text_json(r.lifecycle.failure),
    ).insert(
        "pid"@,
        match r.pid {
            Some(p) => JsonView::Int(p as int),
            None => JsonView::Null,
        },
    ).insert("source"@, opt_text_json(r.source)).insert("created_at"@, number_json(r.created_at)).insert(
        "last_active"@,
        number_json(r.last_active),
    ).insert("last_network_active"@, number_json(r.last_network_active)).insert(
        "persistence"@,
        policy_json(r.persistence),
    ).insert("expires_at"@, opt_number_json(expires_at)).insert(
        "terminated_at"@,
        opt_number_json(r.terminated_at),
    ).insert("error"@, opt_text_json(r.error)).insert("tags"@, texts_json(r.tags)).insert(
        "returncode"@,
        returncode,
    )
}

impl VmRecord {
    /// Build a record of a sandbox that was created, and active, at `now`.
    pub fn new(id: String, name: String, status: String, now: u64) -> (r: VmRecord)
        ensures
            r@ == (VmView {
                id: id@,
                name: name@,
                status: status@,
                pid: None,
                source: None,
                created_at: now,
                timeout: None,
                detail: JsonView::Object(Map::empty()),
                tags: Map::empty(),
                last_active: now,
                last_network_active: now,
                persistence: PersistencePolicy::Persistent,
                terminated_at: None,
                error: None,
                lifecycle: LifecycleView {
                    desired: phase_of(status@),
                    observed: phase_of(status@),
                    ..fresh_lifecycle()
                },
                incarnation_epoch: 0,
                runtime_identity: no_identity(),
            }),
    {
        let phase = LifecyclePhase::from_str(status.as_str());
        VmRecord {
            id,
            name,
            status,
            pid: None,
            source: None,
            created_at: now,
            timeout: None,
            detail: Json::Object(JsonMap::new()),
            tags: TextMap::new(),
            last_active: now,
            last_network_active: now,
            persistence: PersistencePolicy::Persistent,
            terminated_at: None,
            error: None,
            lifecycle: LifecycleState {
                desired: phase.clone(),
                observed: phase,
                generation: StateGeneration(0),
                operation: None,
                failure: None,
            },
            incarnation_epoch: 0,
            runtime_identity: SafeRuntimeIdentity::default(),
        }
    }

    /// The timeout, if one is armed; it runs from the last activity.
    pub fn armed_timeout(&self) -> (r: Option<u64>)
        ensures
            r == match self@.timeout {
                Some(t) => if positive(t) {
                    Some(t)
                } else {
                    None
                },
                None => None,
            },
    {
        match self.timeout {
            Some(t) => if is_positive(t) {
                Some(t)
            } else {
                None
            },
            None => None,
        }
    }

    /// Refresh `last_active` to `now`.
    pub fn touch(&mut self, now: u64)
        ensures
            final(self)@ == (VmView { last_active: now, ..old(self)@ }),
    {
        self.last_active = now;
    }

    /// Return the API view, with canonical keys overriding raw detail.
    /// `expires_at` is when the armed timeout runs out.
    pub fn api_view(&self, expires_at: Option<u64>) -> (r: Json)
        ensures
            r@ == JsonView::Object(shown(self@, expires_at)),
    {
        let mut out = detail_object(&self.detail);
        let returncode = match out.get("returncode") {
            Some(v) => v.clone(),
            None => Json::Null,
        };
        out.remove("idempotency_key");
        out.insert("id".to_owned(), Json::Str(self.id.clone()));
        out.insert("name".to_owned(), Json::Str(self.name.clone()));
        out.insert("status".to_owned(), Json::Str(self.status.clone()));
        out.insert("desired_state".to_owned(), Json::Str(self.lifecycle.desired.as_str().to_owned()));
        out.insert("observed_state".to_owned(), Json::Str(self.lifecycle.observed.as_str().to_owned()));
        out.insert("state_generation".to_owned(), Json::Int(self.lifecycle.generation.0 as i128));
        out.insert("lifecycle_failure".to_owned(), json_opt_text(&self.lifecycle.failure));
        out.insert(
            "pid".to_owned(),
            match self.pid {
                Some(p) => Json::Int(p as i128),
                None => Json::Null,
            },
        );
        out.insert("source".to_owned(), json_opt_text(&self.source));
        out.insert("created_at".to_owned(), json_number(self.created_at));
        out.insert("last_active".to_owned(), json_number(self.last_active));
        out.insert("last_network_active".to_owned(), json_number(self.last_network_active));
        out.insert("persistence".to_owned(), json_policy(self.persistence));
        out.insert("expires_at".to_owned(), json_opt_number(expires_at));
        out.insert("terminated_at".to_owned(), json_opt_number(self.terminated_at));
        out.insert("error".to_owned(), json_opt_text(&self.error));
        out.insert("tags".to_owned(), json_texts(&self.tags));
        out.insert("returncode".to_owned(), returncode);
        Json::Object(out)
    }
}

/// The request key of a sandbox never shows.
pub proof fn law_request_key_stays_private(r: VmView, expires_at: Option<u64>)
    ensures
        !shown(r, expires_at).contains_key("idempotency_key"@),
{
    reveal_strlit("idempotency_key");
    reveal_strlit("id");
    reveal_strlit("name");
    reveal_strlit("status");
    reveal_strlit("desired_state");
    reveal_strlit("observed_state");
    reveal_strlit("state_generation");
    reveal_strlit("lifecycle_failure");
    reveal_strlit("pid");
    reveal_strlit("source");
    reveal_strlit("created_at");
    reveal_strlit("last_active");
    reveal_strlit("last_network_active");
    reveal_strlit("persistence");
    reveal_strlit("expires_at");
    reveal_strlit("terminated_at");
    reveal_strlit("error");
    reveal_strlit("tags");
    reveal_strlit("returncode");
    assert("idempotency_key"@.len() == 15);
    assert("id"@.len() == 2 && "name"@.len() == 4 && "status"@.len() == 6 && "desired_state"@.len() == 13);
    assert("observed_state"@.len() == 14 && "state_generation"@.len() == 16 && "lifecycle_failure"@.len() == 17);
    assert("pid"@.len() == 3 && "source"@.len() == 6 && "created_at"@.len() == 10 && "last_active"@.len() == 11);
    assert("last_network_active"@.len() == 19 && "persistence"@.len() == 11 && "expires_at"@.len() == 10);
    assert("terminated_at"@.len() == 13 && "error"@.len() == 5 && "tags"@.len() == 4 && "returncode"@.len() == 10);
}

/// Metadata with the members that show a lifecycle.
pub open spec fn with_lifecycle_members(m: ObjectView, l: LifecycleView) -> ObjectView {
    m.insert("desired_state"@, JsonView::Str(phase_text(l.desired))).insert(
        "observed_state"@,
        JsonView::Str(phase_text(l.observed)),
    ).insert("state_generation"@, JsonView::Int(l.generation.0 as int)).insert(
        "lifecycle_failure"@,
        opt_text_json(l.failure),
    )
}

/// Metadata that holds a lifecycle: whole, and by the members that show it.
pub open spec fn with_lifecycle(m: ObjectView, l: LifecycleView) -> ObjectView {
    with_lifecycle_members(m.insert("lifecycle"@, lifecycle_json(l)), l)
}

pub fn set_lifecycle_detail(detail: &mut JsonMap, lifecycle: &LifecycleState)
    ensures
        final(detail)@ == with_lifecycle_members(old(detail)@, lifecycle@),
{
    detail.insert("desired_state".to_owned(), Json::Str(lifecycle.desired.as_str().to_owned()));
    detail.insert("observed_state".to_owned(), Json::Str(lifecycle.observed.as_str().to_owned()));
    detail.insert("state_generation".to_owned(), Json::Int(lifecycle.generation.0 as i128));
    detail.insert("lifecycle_failure".to_owned(), json_opt_text(&lifecycle.failure));
}

pub fn set_lifecycle_meta(meta: &mut JsonMap, lifecycle: &LifecycleState)
    ensures
        final(meta)@ == with_lifecycle(old(meta)@, lifecycle@),
{
    meta.insert("lifecycle".to_owned(), json_lifecycle(lifecycle));
    set_lifecycle_detail(meta, lifecycle);
}

/// A record with a new lifecycle, which its detail shows too.
pub open spec fn advanced(r: VmView, l: LifecycleView, status: Seq<char>) -> VmView {
    VmView {
        lifecycle: l,
        status,
        detail: JsonView::Object(
            with_lifecycle_members(detail_members(r.detail), l).insert("status"@, JsonView::Str(status)),
        ),
        ..r
    }
}

/// A record whose transition was given up for `reason`.
pub open spec fn given_up(r: VmView, l: LifecycleView, reason: Seq<char>) -> VmView {
    let status = status_of(l.observed);
    VmView {
        lifecycle: l,
        status,
        error: Some(reason),
        detail: JsonView::Object(
            with_lifecycle_members(detail_members(r.detail), l).insert("status"@, JsonView::Str(status)).insert(
                "error"@,
                JsonView::Str(reason),
            ),
        ),
        ..r
    }
}

impl VmRecord {
    /// The record with a new lifecycle and status.
    pub(crate) fn advance(&self, lifecycle: LifecycleState, status: String) -> (r: VmRecord)
        ensures
            r@ == advanced(self@, lifecycle@, status@),
    {
        let mut next = self.clone();
        let mut detail = detail_object(&next.detail);
        set_lifecycle_detail(&mut detail, &lifecycle);
        detail.insert("status".to_owned(), Json::Str(status.clone()));
        next.detail = Json::Object(detail);
        next.lifecycle = lifecycle;
        next.status = status;
        next
    }

    /// The record whose transition was given up.
    pub(crate) fn give_up(&self, lifecycle: LifecycleState, reason: String) -> (r: VmRecord)
        ensures
            r@ == given_up(self@, lifecycle@, reason@),
    {
        let status = status_for_observed(&lifecycle.observed).to_owned();
        let mut next = self.clone();
        let mut detail = detail_object(&next.detail);
        set_lifecycle_detail(&mut detail, &lifecycle);
        detail.insert("status".to_owned(), Json::Str(status.clone()));
        detail.insert("error".to_owned(), Json::Str(reason.clone()));
        next.detail = Json::Object(detail);
        next.status = status;
        next.lifecycle = lifecycle;
        next.error = Some(reason);
        next
    }
}

/// What is written to a sandbox's metadata when its lifecycle changes.
pub open spec fn lifecycle_written(meta: ObjectView, r: VmView) -> ObjectView {
    with_lifecycle(meta, r.lifecycle).insert("status"@, JsonView::Str(r.status))
}

/// The metadata to write for `record`, whose lifecycle changed; `meta` is what is
/// stored.
pub fn lifecycle_meta(meta: JsonMap, record: &VmRecord) -> (r: JsonMap)
    ensures
        r@ == lifecycle_written(meta@, record@),
{
    let mut out = meta;
    set_lifecycle_meta(&mut out, &record.lifecycle);
    out.insert("status".to_owned(), Json::Str(record.status.clone()));
    out
}

/// The metadata to write for `record`, whose transition was given up.
pub fn cancelled_meta(meta: JsonMap, record: &VmRecord) -> (r: JsonMap)
    ensures
        r@ == lifecycle_written(meta@, record@).insert("error"@, opt_text_json(record@.error)),
{
    let mut out = lifecycle_meta(meta, record);
    out.insert("error".to_owned(), json_opt_text(&record.error));
    out
}

/// Metadata with the canonical members of a record.
pub open spec fn with_canonical(meta: ObjectView, r: VmView) -> ObjectView {
    with_lifecycle(
        meta.insert("sandbox_id"@, JsonView::Str(r.id)).insert("created_at"@, number_json(r.created_at)).insert(
            "last_active"@,
            number_json(r.last_active),
        ).insert("last_network_active"@, number_json(r.last_network_active)).insert(
            "persistence"@,
            policy_json(r.persistence),
        ).insert("status"@, JsonView::Str(r.status)).insert(
            "terminated_at"@,
            opt_number_json(r.terminated_at),
        ).insert("error"@, opt_text_json(r.error)),
        r.lifecycle,
    )
}

/// What is written to a sandbox's metadata when it is first stored; `identity` is
/// the value of its runtime identity.
pub open spec fn first_written(meta: ObjectView, r: VmView, identity: JsonView) -> ObjectView {
    with_canonical(meta.insert("runtime_identity"@, identity), r)
}

fn canonical_meta(meta: JsonMap, rec: &VmRecord) -> (r: JsonMap)
    ensures
        r@ == with_canonical(meta@, rec@),
{
    let mut out = meta;
    out.insert("sandbox_id".to_owned(), Json::Str(rec.id.clone()));
    out.insert("created_at".to_owned(), json_number(rec.created_at));
    out.insert("last_active".to_owned(), json_number(rec.last_active));
    out.insert("last_network_active".to_owned(), json_number(rec.last_network_active));
    out.insert("persistence".to_owned(), json_policy(rec.persistence));
    out.insert("status".to_owned(), Json::Str(rec.status.clone()));
    out.insert("terminated_at".to_owned(), json_opt_number(rec.terminated_at));
    out.insert("error".to_owned(), json_opt_text(&rec.error));
    set_lifecycle_meta(&mut out, &rec.lifecycle);
    out
}

/// The runtime identity with which a sandbox is first stored: its own, or else the
/// one that the stored metadata describes. Without secrets.
pub open spec fn stored_identity(meta: ObjectView, r: VmView) -> IdentityView {
    if r.runtime_identity == no_identity() {
        redacted(identity_in(meta, r.source, r.timeout))
    } else {
        redacted(r.runtime_identity)
    }
}

/// The metadata to write for a sandbox that is first stored, and its record.
///
/// A record that says nothing of its runtime identity takes the one that the
/// stored metadata `meta` describes; an identity that is already written there
/// is kept, since it may hold members that are not known here.
pub fn insert_persisted(meta: JsonMap, record: VmRecord) -> (r: (JsonMap, VmRecord))
    ensures
        r.1@ == (VmView { runtime_identity: stored_identity(meta@, record@), ..record@ }),
        record@.runtime_identity == no_identity() && meta@.contains_key("runtime_identity"@) ==> r.0@
            == first_written(meta@, r.1@, meta@["runtime_identity"@]),
        !(record@.runtime_identity == no_identity() && meta@.contains_key("runtime_identity"@)) ==> exists|
            v: JsonView,
        | #[trigger] is_identity_json(v, stored_identity(meta@, record@)) && r.0@ == first_written(meta@, r.1@, v),
{
    let ghost given = record@;
    let ghost stored = meta@;
    let mut base = meta;
    let mut rec = record;
    let unknown = rec.runtime_identity.same(&SafeRuntimeIdentity::default());
    let identity = if unknown {
        runtime_identity_of(&base, clone_opt(&rec.source), rec.timeout).without_secret_values()
    } else {
        rec.runtime_identity.clone().without_secret_values()
    };
    assert(identity@ == stored_identity(stored, given));
    if unknown && base.contains_key("runtime_identity") {
        rec.runtime_identity = identity;
        assert(stored =~= stored.insert("runtime_identity"@, stored["runtime_identity"@]));
        let out = canonical_meta(base, &rec);
        return (out, rec);
    }
    let value = json_identity(&identity);
    let ghost v = value@;
    rec.runtime_identity = identity;
    base.insert("runtime_identity".to_owned(), value);
    let out = canonical_meta(base, &rec);
    assert(is_identity_json(v, stored_identity(stored, given)) && out@ == first_written(stored, rec@, v));
    (out, rec)
}

/// What a view of a sandbox tells is what its record holds.
pub proof fn law_view_tells_the_record(r: VmView, expires_at: Option<u64>)
    ensures
        ({
            let m = shown(r, expires_at);
            &&& m["id"@] == JsonView::Str(r.id)
            &&& m["name"@] == JsonView::Str(r.name)
            &&& m["status"@] == JsonView::Str(r.status)
            &&& m["desired_state"@] == JsonView::Str(phase_text(r.lifecycle.desired))
            &&& m["observed_state"@] == JsonView::Str(phase_text(r.lifecycle.observed))
            &&& m["state_generation"@] == JsonView::Int(r.lifecycle.generation.0 as int)
            &&& r.pid is Some ==> m["pid"@] == JsonView::Int(r.pid->0 as int)
            &&& r.pid is None ==> m["pid"@] is Null
            &&& r.source is Some ==> m["source"@] == JsonView::Str(r.source->0)
            &&& r.error is Some ==> m["error"@] == JsonView::Str(r.error->0)
            &&& r.error is None ==> m["error"@] is Null
            &&& m["created_at"@] == number_json(r.created_at)
            &&& m["last_active"@] == number_json(r.last_active)
            &&& m["last_network_active"@] == number_json(r.last_network_active)
            &&& expires_at is Some ==> m["expires_at"@] == number_json(expires_at->0)
            &&& r.terminated_at is Some ==> m["terminated_at"@] == number_json(r.terminated_at->0)
        }),
{
    lemma_view_names();
}

proof fn lemma_view_names()
    ensures
        "id"@.len() == 2,
        "pid"@.len() == 3,
        "name"@.len() == 4,
        "tags"@.len() == 4,
        "error"@.len() == 5,
        "status"@.len() == 6,
        "source"@.len() == 6,
        "created_at"@.len() == 10,
        "expires_at"@.len() == 10,
        "returncode"@.len() == 10,
        "last_active"@.len() == 11,
        "persistence"@.len() == 11,
        "desired_state"@.len() == 13,
        "terminated_at"@.len() == 13,
        "observed_state"@.len() == 14,
        "state_generation"@.len() == 16,
        "lifecycle_failure"@.len() == 17,
        "last_network_active"@.len() == 19,
        "name"@ != "tags"@,
        "status"@ != "source"@,
        "created_at"@ != "expires_at"@,
        "created_at"@ != "returncode"@,
        "expires_at"@ != "returncode"@,
        "last_active"@ != "persistence"@,
        "desired_state"@ != "terminated_at"@,
{
    reveal_strlit("id");
    reveal_strlit("pid");
    reveal_strlit("name");
    reveal_strlit("tags");
    reveal_strlit("error");
    reveal_strlit("status");
    reveal_strlit("source");
    reveal_strlit("created_at");
    reveal_strlit("expires_at");
    reveal_strlit("returncode");
    reveal_strlit("last_active");
    reveal_strlit("persistence");
    reveal_strlit("desired_state");
    reveal_strlit("terminated_at");
    reveal_strlit("observed_state");
    reveal_strlit("state_generation");
    reveal_strlit("lifecycle_failure");
    reveal_strlit("last_network_active");
    assert("name"@[0] == 'n' && "tags"@[0] == 't');
    assert("status"@[1] == 't' && "source"@[1] == 'o');
    assert("created_at"@[0] == 'c' && "expires_at"@[0] == 'e' && "returncode"@[0] == 'r');
    assert("last_active"@[0] == 'l' && "persistence"@[0] == 'p');
    assert("desired_state"@[0] == 'd' && "terminated_at"@[0] == 't');
}

/// A record that moves on, or is given up, changes in its lifecycle, its status and
/// what its view tells of them; a given-up one also holds why. Nothing else of it
/// changes.
pub proof fn law_moving_on_keeps_the_record(r: VmView, l: LifecycleView, status: Seq<char>, reason: Seq<char>)
    ensures
        ({
            let a = advanced(r, l, status);
            let b = given_up(r, l, reason);
            &&& a.lifecycle == l && b.lifecycle == l
            &&& a.status == status
            &&& b.error == Some(reason)
            &&& a == (VmView { lifecycle: l, status, detail: a.detail, ..r })
            &&& b == (VmView { lifecycle: l, status: b.status, error: Some(reason), detail: b.detail, ..r })
            &&& a.detail is Object && a.detail->Object_0["status"@] == JsonView::Str(status)
            &&& b.detail is Object && b.detail->Object_0["error"@] == JsonView::Str(reason)
            &&& l.observed == super::lifecycle::PhaseView::Stopped ==> b.status == "stopped"@
        }),
{
    lemma_view_names();
}

} // verus!
