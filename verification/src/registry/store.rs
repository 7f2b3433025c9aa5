//! The registry itself: its records, and the index of request keys.
//!
//! Changes that must be durable are made in two halves. The first plans the
//! change and yields the new record; once the caller has written the metadata,
//! [`Registry::commit`] makes the record the current one.
use super::lifecycle::{
    announces, begun, cancellation, describes, failing, next_generation, observation, opt_operation, resumed, stale,
    status_for_observed, status_of, transition_of, BeginOutcome, LifecycleOperation, LifecyclePhase, LifecycleState,
    LifecycleTransition, LifecycleView, StateGeneration, TransitionBegin, TransitionDisposition, converged, exhausted,
};
use super::record::{
    advanced, detail_members, detail_object, given_up, lifecycle_meta, lifecycle_written, VmRecord, VmView,
};
use super::identity::{redacted, SafeRuntimeIdentity};
use crate::error::{failure, EngineError, ErrorCode, ErrorView};
use crate::floats::{json_number, number_json};
use crate::json::{filled_at, members_at, Json, JsonMap, JsonView, ObjectView};
use crate::text::{cat3, opt_text, text_eq};
use crate::textmap::{ascending, text_before, text_lt, TextMap};
use vstd::prelude::*;

verus! {

/// A registry record requiring startup or background convergence.
pub struct ReconciliationInput {
    pub record: VmRecord,
    pub lifecycle: LifecycleState,
    pub pid_alive: bool,
}

/// In-memory sandbox registry plus create idempotency index.
pub struct Registry {
    records: TextMap<VmRecord>,
    idempotency: TextMap<String>,
}

/// The value of a [`Registry`]: the records by sandbox, and the sandboxes by
/// request key.
#[verifier::ext_equal]
pub struct RegistryView {
    pub records: Map<Seq<char>, VmView>,
    pub index: Map<Seq<char>, Seq<char>>,
}

impl View for Registry {
    type V = RegistryView;

    closed spec fn view(&self) -> RegistryView {
        RegistryView { records: self.records@, index: self.idempotency@ }
    }
}

/// A planned begin of a transition: the answer, and the record to store where it
/// changed.
pub struct PlannedBegin {
    pub begin: TransitionBegin,
    pub record: Option<VmRecord>,
}

/// A planned step of a transition: the answer, and the record to store where it
/// changed.
pub struct PlannedTransition {
    pub transition: LifecycleTransition,
    pub record: Option<VmRecord>,
}

/// The value of an optional record.
pub open spec fn opt_vm(o: Option<VmRecord>) -> Option<VmView> {
    match o {
        Some(r) => Some(r@),
        None => None,
    }
}

/// The error that no sandbox is called `id`.
pub open spec fn unknown(id: Seq<char>) -> ErrorView {
    failure(ErrorCode::NotFound, "unknown sandbox '"@ + id + "'"@)
}

fn unknown_sandbox(id: &str) -> (r: EngineError)
    ensures
        r@ == unknown(id@),
{
    EngineError::not_found(cat3("unknown sandbox '", id, "'"))
}

/// Whether `p` is the plan that `outcome` calls for on the record `r`.
pub open spec fn plans(p: PlannedBegin, r: VmView, outcome: BeginOutcome) -> bool {
    match outcome {
        BeginOutcome::Stays(disposition) => announces(p.begin, r.lifecycle, disposition) && p.record is None,
        BeginOutcome::Acquired(next) => announces(p.begin, next, TransitionDisposition::Acquired) && opt_vm(
            p.record,
        ) == Some(advanced(r, next, r.status)),
        BeginOutcome::Refused(_) => false,
    }
}

/// The request key that a record is found by: none once its sandbox terminated.
pub open spec fn request_key(r: VmView) -> Option<Seq<char>> {
    if r.status == "terminated"@ {
        None
    } else {
        filled_at(detail_members(r.detail), "idempotency_key"@)
    }
}

/// The index of request keys over the records `ids`, the later ones first served.
pub open spec fn index_over(records: Map<Seq<char>, VmView>, ids: Seq<Seq<char>>) -> Map<Seq<char>, Seq<char>>
    decreases ids.len(),
{
    if ids.len() == 0 {
        Map::empty()
    } else {
        let rest = index_over(records, ids.drop_last());
        match request_key(records[ids.last()]) {
            Some(key) => rest.insert(key, ids.last()),
            None => rest,
        }
    }
}

/// Whether `ids` are the sandboxes of `records`, in order.
pub open spec fn in_order(records: Map<Seq<char>, VmView>, ids: Seq<Seq<char>>) -> bool {
    ascending(ids) && forall|k: Seq<char>| #[trigger] ids.contains(k) <==> records.contains_key(k)
}

fn key_of(record: &VmRecord) -> (r: Option<String>)
    ensures
        opt_text(r) == request_key(record@),
{
    if text_eq(record.status.as_str(), "terminated") {
        return None;
    }
    match &record.detail {
        Json::Object(m) => m.filled_at("idempotency_key"),
        _ => None,
    }
}

/// The registry without a sandbox, and without the keys by which it was created.
pub open spec fn forgotten(v: RegistryView, id: Seq<char>) -> RegistryView {
    RegistryView {
        records: v.records.remove(id),
        index: v.index.restrict(Set::new(|k: Seq<char>| v.index.contains_key(k) && v.index[k] != id)),
    }
}

impl Registry {
    /// Create an empty registry.
    pub fn new() -> (r: Registry)
        ensures
            r@ == (RegistryView { records: Map::empty(), index: Map::empty() }),
    {
        Registry { records: TextMap::new(), idempotency: TextMap::new() }
    }

    pub(crate) fn replace(&mut self, records: TextMap<VmRecord>)
        ensures
            exists|ids: Seq<Seq<char>>| #[trigger]
                in_order(records@, ids) && final(self)@ == (RegistryView {
                    records: records@,
                    index: index_over(records@, ids),
                }),
    {
        self.records = records;
        self.rebuild_idempotency_index();
    }

    /// Return a cloned record by stable ID.
    pub fn get(&self, id: &str) -> (r: Option<VmRecord>)
        ensures
            match r {
                Some(x) => self@.records.contains_key(id@) && x@ == self@.records[id@],
                None => !self@.records.contains_key(id@),
            },
    {
        match self.records.get(id) {
            Some(x) => Some(x.clone()),
            None => None,
        }
    }

    /// Return the sandbox name previously recorded for an idempotency key.
    pub fn find_by_idempotency_key(&self, key: &str) -> (r: Option<String>)
        ensures
            match r {
                Some(x) => self@.index.contains_key(key@) && x@ == self@.index[key@],
                None => !self@.index.contains_key(key@),
            },
    {
        match self.idempotency.get(key) {
            Some(x) => Some(x.clone()),
            None => None,
        }
    }

    /// Record an idempotency key mapping for a stable sandbox ID.
    pub fn record_idempotency(&mut self, id: &str, key: &str)
        ensures
            final(self)@ == if key@.len() == 0 {
                old(self)@
            } else {
                RegistryView { index: old(self)@.index.insert(key@, id@), ..old(self)@ }
            },
    {
        if !key.is_empty() {
            self.idempotency.insert(key.to_owned(), id.to_owned());
        }
    }

    /// Insert or replace one record by stable ID.
    pub fn insert(&mut self, record: VmRecord)
        ensures
            final(self)@ == (RegistryView {
                records: old(self)@.records.insert(record@.id, record@),
                ..old(self)@
            }),
    {
        self.records.insert(record.id.clone(), record);
    }

    /// Makes a planned record the current one, once it is durable.
    pub fn commit(&mut self, record: VmRecord)
        ensures
            final(self)@ == (RegistryView {
                records: old(self)@.records.insert(record@.id, record@),
                ..old(self)@
            }),
    {
        self.insert(record);
    }

    /// Plan a state-only transition. Operations that need execution despite an
    /// equal desired/observed state must use [`Registry::begin_operation`].
    pub fn begin_transition(&self, id: &str, expected: StateGeneration, desired: LifecyclePhase) -> (r: Result<
        PlannedBegin,
        EngineError,
    >)
        ensures
            match r {
                Ok(p) => self@.records.contains_key(id@) && plans(
                    p,
                    self@.records[id@],
                    begun(id@, self@.records[id@].lifecycle, expected, desired@, None),
                ),
                Err(e) => if self@.records.contains_key(id@) {
                    begun(id@, self@.records[id@].lifecycle, expected, desired@, None) == BeginOutcome::Refused(
                        e@,
                    )
                } else {
                    e@ == unknown(id@)
                },
            },
    {
        self.begin_operation(id, expected, desired, None)
    }

    /// Plan a generation-guarded transition, with an operation that has to be
    /// executed.
    pub fn begin_operation(
        &self,
        id: &str,
        expected: StateGeneration,
        desired: LifecyclePhase,
        operation: Option<LifecycleOperation>,
    ) -> (r: Result<PlannedBegin, EngineError>)
        ensures
            match r {
                Ok(p) => self@.records.contains_key(id@) && plans(
                    p,
                    self@.records[id@],
                    begun(
                        id@,
                        self@.records[id@].lifecycle,
                        expected,
                        desired@,
                        opt_operation(operation),
                    ),
                ),
                Err(e) => if self@.records.contains_key(id@) {
                    begun(
                        id@,
                        self@.records[id@].lifecycle,
                        expected,
                        desired@,
                        opt_operation(operation),
                    ) == BeginOutcome::Refused(e@)
                } else {
                    e@ == unknown(id@)
                },
            },
    {
        let record = match self.records.get(id) {
            Some(r) => r,
            None => return Err(unknown_sandbox(id)),
        };
        match record.lifecycle.begin(id, expected, desired, operation) {
            Ok(b) => Ok(
                PlannedBegin {
                    begin: b.begin,
                    record: match b.lifecycle {
                        Some(l) => Some(record.advance(l, record.status.clone())),
                        None => None,
                    },
                },
            ),
            Err(e) => Err(e),
        }
    }

    /// Plan a generation-guarded observation. Duplicate completion is a no-op.
    pub fn observe_transition(&self, id: &str, generation: StateGeneration, observed: LifecyclePhase) -> (r: Result<
        PlannedTransition,
        EngineError,
    >)
        ensures
            match r {
                Ok(p) => self@.records.contains_key(id@) && {
                    let rec = self@.records[id@];
                    &&& rec.lifecycle.generation == generation
                    &&& match observation(rec.lifecycle, observed@) {
                        None => describes(p.transition, rec.lifecycle) && p.record is None,
                        Some(next) => describes(p.transition, next) && opt_vm(p.record) == Some(
                            advanced(rec, next, status_of(observed@)),
                        ),
                    }
                },
                Err(e) => e@ == if self@.records.contains_key(id@) {
                    stale(id@, generation, self@.records[id@].lifecycle.generation)
                } else {
                    unknown(id@)
                } && (self@.records.contains_key(id@) ==> self@.records[id@].lifecycle.generation
                    != generation),
            },
    {
        let record = match self.records.get(id) {
            Some(r) => r,
            None => return Err(unknown_sandbox(id)),
        };
        match record.lifecycle.observe(id, generation, observed) {
            Ok(Some(next)) => {
                let status = status_for_observed(&next.observed).to_owned();
                let transition = transition_of(&next);
                Ok(PlannedTransition { transition, record: Some(record.advance(next, status)) })
            },
            Ok(None) => Ok(PlannedTransition { transition: transition_of(&record.lifecycle), record: None }),
            Err(e) => Err(e),
        }
    }

    /// Plan to note a failed attempt without losing the desired state that must
    /// retry.
    pub fn fail_transition(&self, id: &str, generation: StateGeneration, error: String) -> (r: Result<
        PlannedTransition,
        EngineError,
    >)
        ensures
            match r {
                Ok(p) => self@.records.contains_key(id@) && {
                    let rec = self@.records[id@];
                    &&& rec.lifecycle.generation == generation
                    &&& match failing(rec.lifecycle, error@) {
                        None => describes(p.transition, rec.lifecycle) && p.record is None,
                        Some(next) => describes(p.transition, next) && opt_vm(p.record) == Some(
                            advanced(rec, next, rec.status),
                        ),
                    }
                },
                Err(e) => e@ == if self@.records.contains_key(id@) {
                    stale(id@, generation, self@.records[id@].lifecycle.generation)
                } else {
                    unknown(id@)
                } && (self@.records.contains_key(id@) ==> self@.records[id@].lifecycle.generation
                    != generation),
            },
    {
        let record = match self.records.get(id) {
            Some(r) => r,
            None => return Err(unknown_sandbox(id)),
        };
        match record.lifecycle.fail(id, generation, error) {
            Ok(Some(next)) => {
                let transition = transition_of(&next);
                Ok(PlannedTransition { transition, record: Some(record.advance(next, record.status.clone())) })
            },
            Ok(None) => Ok(PlannedTransition { transition: transition_of(&record.lifecycle), record: None }),
            Err(e) => Err(e),
        }
    }

    /// Plan to cancel an interrupted transition after preserving the observed
    /// runtime.
    ///
    /// This exact-generation step is idempotent for the same observed state and
    /// reason, and leaves a durable non-secret explanation for reconciliation.
    pub fn cancel_transition(
        &self,
        id: &str,
        generation: StateGeneration,
        observed: LifecyclePhase,
        reason: String,
    ) -> (r: Result<PlannedTransition, EngineError>)
        ensures
            match r {
                Ok(p) => self@.records.contains_key(id@) && {
                    let rec = self@.records[id@];
                    &&& rec.lifecycle.generation == generation
                    &&& match cancellation(rec.lifecycle, observed@, rec.error == Some(reason@)) {
                        None => describes(p.transition, rec.lifecycle) && p.record is None,
                        Some(next) => describes(p.transition, next) && opt_vm(p.record) == Some(
                            given_up(rec, next, reason@),
                        ),
                    }
                },
                Err(e) => e@ == if self@.records.contains_key(id@) {
                    stale(id@, generation, self@.records[id@].lifecycle.generation)
                } else {
                    unknown(id@)
                } && (self@.records.contains_key(id@) ==> self@.records[id@].lifecycle.generation
                    != generation),
            },
    {
        let record = match self.records.get(id) {
            Some(r) => r,
            None => return Err(unknown_sandbox(id)),
        };
        let known = match &record.error {
            Some(e) => text_eq(e.as_str(), reason.as_str()),
            None => false,
        };
        match record.lifecycle.cancel(id, generation, observed, known) {
            Ok(Some(next)) => {
                let transition = transition_of(&next);
                Ok(PlannedTransition { transition, record: Some(record.give_up(next, reason)) })
            },
            Ok(None) => Ok(PlannedTransition { transition: transition_of(&record.lifecycle), record: None }),
            Err(e) => Err(e),
        }
    }

    /// Plan to claim an interrupted persisted transition for reconciliation.
    ///
    /// A resumed generation fences delayed completers from the crashed owner,
    /// while retaining its desired state and pending operation payload.
    pub fn resume_transition(&self, id: &str, generation: StateGeneration) -> (r: Result<
        PlannedBegin,
        EngineError,
    >)
        ensures
            match r {
                Ok(p) => self@.records.contains_key(id@) && plans(
                    p,
                    self@.records[id@],
                    resumed(id@, self@.records[id@].lifecycle, generation),
                ),
                Err(e) => if self@.records.contains_key(id@) {
                    resumed(id@, self@.records[id@].lifecycle, generation) == BeginOutcome::Refused(e@)
                } else {
                    e@ == unknown(id@)
                },
            },
    {
        let record = match self.records.get(id) {
            Some(r) => r,
            None => return Err(unknown_sandbox(id)),
        };
        match record.lifecycle.resume(id, generation) {
            Ok(b) => Ok(
                PlannedBegin {
                    begin: b.begin,
                    record: match b.lifecycle {
                        Some(l) => Some(record.advance(l, record.status.clone())),
                        None => None,
                    },
                },
            ),
            Err(e) => Err(e),
        }
    }

    /// Plan the next generation for a previously failed desired transition.
    pub fn retry_transition(&self, id: &str, generation: StateGeneration) -> (r: Result<
        PlannedTransition,
        EngineError,
    >)
        ensures
            match r {
                Ok(p) => self@.records.contains_key(id@) && {
                    let rec = self@.records[id@];
                    &&& rec.lifecycle.generation == generation
                    &&& if rec.lifecycle.failure is None {
                        describes(p.transition, rec.lifecycle) && p.record is None
                    } else {
                        describes(p.transition, next_generation(rec.lifecycle)) && opt_vm(p.record) == Some(
                            advanced(rec, next_generation(rec.lifecycle), rec.status),
                        ) && generation.0 < u64::MAX
                    }
                },
                Err(e) => if !self@.records.contains_key(id@) {
                    e@ == unknown(id@)
                } else if self@.records[id@].lifecycle.generation != generation {
                    e@ == stale(id@, generation, self@.records[id@].lifecycle.generation)
                } else {
                    e@ == exhausted(id@) && self@.records[id@].lifecycle.failure is Some && generation.0
                        == u64::MAX
                },
            },
    {
        let record = match self.records.get(id) {
            Some(r) => r,
            None => return Err(unknown_sandbox(id)),
        };
        match record.lifecycle.retry(id, generation) {
            Ok(Some(next)) => {
                let transition = transition_of(&next);
                Ok(PlannedTransition { transition, record: Some(record.advance(next, record.status.clone())) })
            },
            Ok(None) => Ok(PlannedTransition { transition: transition_of(&record.lifecycle), record: None }),
            Err(e) => Err(e),
        }
    }

    /// Plan to store restart-safe runtime identity, never secret values. `None`
    /// says that it is stored already.
    pub fn persist_runtime_identity(&self, id: &str, identity: SafeRuntimeIdentity) -> (r: Result<
        Option<VmRecord>,
        EngineError,
    >)
        ensures
            match r {
                Ok(p) => self@.records.contains_key(id@) && opt_vm(p)
                    == if self@.records[id@].runtime_identity == redacted(identity@) {
                    None
                } else {
                    Some(VmView { runtime_identity: redacted(identity@), ..self@.records[id@] })
                },
                Err(e) => !self@.records.contains_key(id@) && e@ == unknown(id@),
            },
    {
        let record = match self.records.get(id) {
            Some(r) => r,
            None => return Err(unknown_sandbox(id)),
        };
        let safe = identity.without_secret_values();
        if record.runtime_identity.same(&safe) {
            return Ok(None);
        }
        let mut next = record.clone();
        next.runtime_identity = safe;
        Ok(Some(next))
    }

    /// Plan to replace a sandbox's idle policy and rearm its network-idle clock:
    /// the metadata to write in place of `meta`, and the record.
    pub fn set_idle_timeout_persisted(&self, id: &str, meta: JsonMap, timeout_secs: u64, rearmed_at: u64) -> (r:
        Result<(JsonMap, VmRecord), EngineError>)
        ensures
            match r {
                Ok((out, rec)) => self@.records.contains_key(id@) && {
                    let old_rec = self@.records[id@];
                    &&& out@ == lifecycle_written(idle_armed(meta@, timeout_secs, rearmed_at), old_rec)
                    &&& rec@ == (VmView {
                        last_network_active: rearmed_at,
                        detail: JsonView::Object(out@),
                        ..old_rec
                    })
                },
                Err(e) => !self@.records.contains_key(id@) && e@ == unknown(id@),
            },
    {
        let record = match self.records.get(id) {
            Some(r) => r,
            None => return Err(unknown_sandbox(id)),
        };
        let armed = arm_idle(meta, timeout_secs, rearmed_at);
        let out = lifecycle_meta(armed, record);
        let mut next = record.clone();
        next.last_network_active = rearmed_at;
        next.detail = Json::Object(out.clone());
        Ok((out, next))
    }

    /// Plan to merge non-lifecycle metadata without allowing a concurrent detail
    /// writer to erase the current lifecycle generation: `meta` is the metadata as
    /// the caller changed it; the metadata to write, and the record.
    pub fn update_detail_persisted(&self, id: &str, meta: JsonMap) -> (r: Result<(JsonMap, VmRecord), EngineError>)
        ensures
            match r {
                Ok((out, rec)) => self@.records.contains_key(id@) && out@ == lifecycle_written(
                    meta@,
                    self@.records[id@],
                ) && rec@ == (VmView { detail: JsonView::Object(out@), ..self@.records[id@] }),
                Err(e) => !self@.records.contains_key(id@) && e@ == unknown(id@),
            },
    {
        let record = match self.records.get(id) {
            Some(r) => r,
            None => return Err(unknown_sandbox(id)),
        };
        let out = lifecycle_meta(meta, record);
        let mut next = record.clone();
        next.detail = Json::Object(out.clone());
        Ok((out, next))
    }

    /// Remove one record by stable ID and clear its idempotency entries.
    pub fn remove(&mut self, id: &str) -> (r: Option<VmRecord>)
        ensures
            match r {
                Some(x) => old(self)@.records.contains_key(id@) && x@ == old(self)@.records[id@]
                    && final(self)@ == forgotten(old(self)@, id@),
                None => !old(self)@.records.contains_key(id@) && final(self)@ == old(self)@,
            },
    {
        let removed = match self.records.get(id) {
            Some(x) => x.clone(),
            None => return None,
        };
        self.records.remove(id);
        let ghost before = self.idempotency@;
        let ghost full = before.restrict(
            Set::new(|k: Seq<char>| before.contains_key(k) && before[k] != id@),
        );
        let mut kept: TextMap<String> = TextMap::new();
        let n = self.idempotency.len();
        let mut i: usize = 0;
        let ghost done: Set<Seq<char>> = Set::empty();
        assert(kept@ =~= full.restrict(done));
        while i < n
            invariant
                i <= n == self.idempotency.keys().len(),
                before == self.idempotency@,
                full == before.restrict(
                    Set::new(|k: Seq<char>| before.contains_key(k) && before[k] != id@),
                ),
                forall|k: Seq<char>| before.contains_key(k) <==> self.idempotency.keys().contains(k),
                forall|k: Seq<char>| #[trigger]
                    done.contains(k) <==> exists|j: int|
                        0 <= j < i && #[trigger] self.idempotency.keys()[j] == k,
                kept@ == full.restrict(done),
            decreases n - i,
        {
            let ghost key = self.idempotency.keys()[i as int];
            let value = self.idempotency.value_at(i);
            if !text_eq(value.as_str(), id) {
                kept.insert(self.idempotency.key_at(i).clone(), value.clone());
            }
            proof {
                let next = done.insert(key);
                assert forall|k: Seq<char>| #[trigger]
                    next.contains(k) <==> exists|j: int|
                        0 <= j < i + 1 && #[trigger] self.idempotency.keys()[j] == k by {
                    if next.contains(k) {
                        if k == key {
                            assert(self.idempotency.keys()[i as int] == k);
                        } else {
                            assert(done.contains(k));
                            let j = choose|j: int| 0 <= j < i && #[trigger] self.idempotency.keys()[j] == k;
                            assert(self.idempotency.keys()[j] == k);
                        }
                    }
                }
                assert(kept@ =~= full.restrict(next));
                done = next;
            }
            i = i + 1;
        }
        proof {
            assert forall|k: Seq<char>| before.contains_key(k) implies done.contains(k) by {
                assert(self.idempotency.keys().contains(k));
                let j = choose|j: int| 0 <= j < self.idempotency.keys().len() && self.idempotency.keys()[j] == k;
                assert(self.idempotency.keys()[j] == k);
            }
            assert(kept@ =~= full);
        }
        self.idempotency = kept;
        Some(removed)
    }

    /// Replaces the record of `id`, where there is one.
    pub fn update(&mut self, id: &str, record: VmRecord) -> (r: bool)
        ensures
            r == old(self)@.records.contains_key(id@),
            final(self)@ == if r {
                RegistryView { records: old(self)@.records.insert(id@, record@), ..old(self)@ }
            } else {
                old(self)@
            },
    {
        if !self.records.contains_key(id) {
            return false;
        }
        self.records.insert(id.to_owned(), record);
        true
    }

    /// Drop a stale idempotency mapping if it still points at `id`.
    pub fn remove_idempotency_for(&mut self, key: &str, id: &str)
        ensures
            final(self)@ == if old(self)@.index.contains_key(key@) && old(self)@.index[key@] == id@ {
                RegistryView { index: old(self)@.index.remove(key@), ..old(self)@ }
            } else {
                old(self)@
            },
    {
        let same = match self.idempotency.get(key) {
            Some(x) => text_eq(x.as_str(), id),
            None => false,
        };
        if same {
            self.idempotency.remove(key);
        }
    }

    /// Replace or add one field in the durable detail object; the updated record.
    pub fn set_detail_field(&mut self, id: &str, key: &str, value: Json) -> (r: Option<VmRecord>)
        ensures
            match r {
                Some(x) => old(self)@.records.contains_key(id@) && x@ == (VmView {
                    detail: JsonView::Object(
                        detail_members(old(self)@.records[id@].detail).insert(key@, value@),
                    ),
                    ..old(self)@.records[id@]
                }) && final(self)@ == (RegistryView {
                    records: old(self)@.records.insert(id@, x@),
                    ..old(self)@
                }),
                None => !old(self)@.records.contains_key(id@) && final(self)@ == old(self)@,
            },
    {
        let mut next = match self.records.get(id) {
            Some(x) => x.clone(),
            None => return None,
        };
        let mut detail = detail_object(&next.detail);
        detail.insert(key.to_owned(), value);
        next.detail = Json::Object(detail);
        self.records.insert(id.to_owned(), next.clone());
        Some(next)
    }

    /// Rebuild the idempotency index from current records.
    pub fn rebuild_idempotency_index(&mut self)
        ensures
            exists|ids: Seq<Seq<char>>| #[trigger]
                in_order(old(self)@.records, ids) && final(self)@ == (RegistryView {
                    index: index_over(old(self)@.records, ids),
                    ..old(self)@
                }),
    {
        let mut index: TextMap<String> = TextMap::new();
        let n = self.records.len();
        let ghost ids = self.records.keys();
        let mut i: usize = 0;
        assert(ids.take(0) =~= Seq::empty());
        while i < n
            invariant
                i <= n == ids.len(),
                ids == self.records.keys(),
                index@ == index_over(self.records@, ids.take(i as int)),
            decreases n - i,
        {
            assert(ids.take(i + 1).drop_last() =~= ids.take(i as int));
            assert(ids.take(i + 1).last() == ids[i as int]);
            if let Some(key) = key_of(self.records.value_at(i)) {
                index.insert(key, self.records.key_at(i).clone());
            }
            i = i + 1;
        }
        assert(ids.take(i as int) =~= ids);
        self.idempotency = index;
        assert(in_order(old(self)@.records, ids));
        assert(self@ =~= (RegistryView { index: index_over(old(self)@.records, ids), ..old(self)@ }));
    }

    /// Plan to set a sandbox's status: the metadata to write in place of `meta`,
    /// and the record, where there is one.
    pub fn persist_record_status(
        &self,
        id: &str,
        meta: JsonMap,
        status: &str,
        returncode: Option<i64>,
        terminated_at: Option<u64>,
    ) -> (r: (JsonMap, Option<VmRecord>))
        ensures
            ({
                let marked = status_marked(meta@, status@, returncode, terminated_at);
                if self@.records.contains_key(id@) {
                    let rec = self@.records[id@];
                    &&& r.0@ == crate::registry::record::with_lifecycle(marked, rec.lifecycle)
                    &&& opt_vm(r.1) == Some(
                        VmView {
                            status: status@,
                            terminated_at: if terminated_at is Some {
                                terminated_at
                            } else {
                                rec.terminated_at
                            },
                            detail: JsonView::Object(r.0@),
                            ..rec
                        },
                    )
                } else {
                    r.0@ == marked && r.1 is None
                }
            }),
    {
        let mut out = meta;
        out.insert("status".to_owned(), Json::Str(status.to_owned()));
        if let Some(code) = returncode {
            out.insert("returncode".to_owned(), Json::Int(code as i128));
        }
        if let Some(ts) = terminated_at {
            out.insert("terminated_at".to_owned(), json_number(ts));
        }
        match self.records.get(id) {
            Some(record) => {
                crate::registry::record::set_lifecycle_meta(&mut out, &record.lifecycle);
                let mut next = record.clone();
                next.status = status.to_owned();
                if terminated_at.is_some() {
                    next.terminated_at = terminated_at;
                }
                next.detail = Json::Object(out.clone());
                (out, Some(next))
            },
            None => (out, None),
        }
    }

    /// Return all records sorted by name for deterministic callers; of equal
    /// names, by id.
    pub fn list(&self) -> (r: Vec<VmRecord>)
        ensures
            by_name(views(r@)),
            exists|ids: Seq<Seq<char>>, order: Seq<int>|
                #![trigger in_order(self@.records, ids), order.len()]
                in_order(self@.records, ids) && order.len() == ids.len() && r@.len() == ids.len()
                    && order.no_duplicates() && (forall|i: int|
                    0 <= i < order.len() ==> 0 <= #[trigger] order[i] < ids.len() && views(r@)[i]
                        == self@.records[ids[order[i]]]),
    {
        let n = self.records.len();
        let ghost ids = self.records.keys();
        let mut out: Vec<VmRecord> = Vec::new();
        let ghost order: Seq<int> = Seq::empty();
        let mut i: usize = 0;
        while i < n
            invariant
                i <= n == ids.len(),
                ids == self.records.keys(),
                out@.len() == i,
                order.len() == i,
                order.no_duplicates(),
                by_name(views(out@)),
                forall|j: int|
                    0 <= j < order.len() ==> 0 <= #[trigger] order[j] < i && views(out@)[j]
                        == self.records@[ids[order[j]]],
            decreases n - i,
        {
            let record = self.records.value_at(i);
            let mut at: usize = out.len();
            while at > 0 && text_lt(record.name.as_str(), out[at - 1].name.as_str())
                invariant
                    at <= out@.len(),
                    by_name(views(out@)),
                    forall|j: int| at <= j < out@.len() ==> text_before(record@.name, (#[trigger] views(out@)[j]).name),
                decreases at,
            {
                assert(views(out@)[at - 1].name == out@[at - 1]@.name);
                at = at - 1;
            }
            let ghost before = views(out@);
            let ghost old_order = order;
            out.insert(at, record.clone());
            proof {
                let after = views(out@);
                assert(after =~= before.insert(at as int, record@));
                lemma_insert_by_name(before, at as int, record@);
                order = old_order.insert(at as int, i as int);
                assert forall|j: int| 0 <= j < order.len() implies 0 <= #[trigger] order[j] < i + 1 && after[j]
                    == self.records@[ids[order[j]]] by {
                    if j < at {
                        assert(order[j] == old_order[j]);
                        assert(after[j] == before[j]);
                    } else if j > at {
                        assert(order[j] == old_order[j - 1]);
                        assert(after[j] == before[j - 1]);
                    }
                }
                assert(order.no_duplicates()) by {
                    assert forall|x: int, y: int|
                        0 <= x < order.len() && 0 <= y < order.len() && x != y implies order[x] != order[y] by {
                        let bx = if x < at { x } else { x - 1 };
                        let by = if y < at { y } else { y - 1 };
                        if x != at && y != at {
                            assert(order[x] == old_order[bx] && order[y] == old_order[by]);
                        } else if x == at {
                            assert(order[y] == old_order[by]);
                        } else {
                            assert(order[x] == old_order[bx]);
                        }
                    }
                }
            }
            i = i + 1;
        }
        assert(in_order(self@.records, ids));
        assert(order.len() == ids.len());
        out
    }

    /// Return every record whose desired state has not durably converged; `live`
    /// are the processes that are alive.
    pub fn non_converged_transitions(&self, live: &Vec<i32>) -> (r: Vec<ReconciliationInput>)
        ensures
            exists|all: Seq<VmView>|
                #![trigger by_name(all)]
                by_name(all) && listed(self@.records, all) && inputs(r@) == unfinished(all, live@),
    {
        let all = self.list();
        let ghost shown = views(all@);
        proof {
            let (ids, order) = choose|ids: Seq<Seq<char>>, order: Seq<int>|
                #![trigger in_order(self@.records, ids), order.len()]
                in_order(self@.records, ids) && order.len() == ids.len() && all@.len() == ids.len()
                    && order.no_duplicates() && (forall|i: int|
                    0 <= i < order.len() ==> 0 <= #[trigger] order[i] < ids.len() && shown[i]
                        == self@.records[ids[order[i]]]);
            assert(listed(self@.records, shown)) by {
                assert(in_order(self@.records, ids) && order.len() == ids.len());
            }
        }
        let mut out: Vec<ReconciliationInput> = Vec::new();
        let mut i: usize = 0;
        assert(shown.take(0) =~= Seq::empty());
        assert(inputs(out@) =~= Seq::empty());
        while i < all.len()
            invariant
                i <= all@.len(),
                shown == views(all@),
                inputs(out@) == unfinished(shown.take(i as int), live@),
            decreases all@.len() - i,
        {
            let ghost before = out@;
            assert(shown.take(i + 1).drop_last() =~= shown.take(i as int));
            assert(shown.take(i + 1).last() == all@[i as int]@);
            if !all[i].lifecycle.is_converged() {
                let alive = match all[i].pid {
                    Some(p) => has_pid(live, p),
                    None => false,
                };
                let record = all[i].clone();
                let lifecycle = record.lifecycle.clone();
                out.push(ReconciliationInput { record, lifecycle, pid_alive: alive });
                assert(inputs(out@) =~= inputs(before).push((all@[i as int]@, alive)));
            }
            i = i + 1;
        }
        assert(shown.take(i as int) =~= shown);
        out
    }

    /// Inputs for startup reconciliation; deliberately identical to background
    /// reconciliation so an interrupted operation follows one convergence path.
    pub fn startup_reconciliation_inputs(&self, live: &Vec<i32>) -> (r: Vec<ReconciliationInput>)
        ensures
            exists|all: Seq<VmView>|
                #![trigger by_name(all)]
                by_name(all) && listed(self@.records, all) && inputs(r@) == unfinished(all, live@),
    {
        self.non_converged_transitions(live)
    }
}

fn has_pid(live: &Vec<i32>, pid: i32) -> (r: bool)
    ensures
        r == live@.contains(pid),
{
    let mut i: usize = 0;
    while i < live.len()
        invariant
            i <= live@.len(),
            forall|j: int| 0 <= j < i ==> live@[j] != pid,
        decreases live@.len() - i,
    {
        if live[i] == pid {
            assert(live@[i as int] == pid);
            return true;
        }
        i = i + 1;
    }
    false
}

/// The values of a list of records.
pub open spec fn views(v: Seq<VmRecord>) -> Seq<VmView> {
    Seq::new(v.len(), |i: int| v[i]@)
}

/// In order of their names.
pub open spec fn by_name(s: Seq<VmView>) -> bool {
    forall|i: int, j: int| 0 <= i < j < s.len() ==> !text_before((#[trigger] s[j]).name, (#[trigger] s[i]).name)
}

/// Whether `all` are the records, each once.
pub open spec fn listed(records: Map<Seq<char>, VmView>, all: Seq<VmView>) -> bool {
    exists|ids: Seq<Seq<char>>, order: Seq<int>|
        #![trigger in_order(records, ids), order.len()]
        in_order(records, ids) && order.len() == ids.len() && all.len() == ids.len() && order.no_duplicates() && (
        forall|i: int|
            0 <= i < order.len() ==> 0 <= #[trigger] order[i] < ids.len() && all[i] == records[ids[order[i]]])
}

/// The values of a list of inputs: the record, and whether its process lives.
pub open spec fn inputs(v: Seq<ReconciliationInput>) -> Seq<(VmView, bool)> {
    Seq::new(v.len(), |i: int| (v[i].record@, v[i].pid_alive))
}

/// The records that have not converged, each with whether its process lives.
pub open spec fn unfinished(all: Seq<VmView>, live: Seq<i32>) -> Seq<(VmView, bool)>
    decreases all.len(),
{
    if all.len() == 0 {
        Seq::empty()
    } else {
        let rest = unfinished(all.drop_last(), live);
        let last = all.last();
        if converged(last.lifecycle) {
            rest
        } else {
            rest.push((last, last.pid is Some && live.contains(last.pid->0)))
        }
    }
}

proof fn lemma_insert_by_name(before: Seq<VmView>, at: int, x: VmView)
    requires
        0 <= at <= before.len(),
        by_name(before),
        at > 0 ==> !text_before(x.name, before[at - 1].name),
        forall|j: int| at <= j < before.len() ==> text_before(x.name, (#[trigger] before[j]).name),
    ensures
        by_name(before.insert(at, x)),
{
    let after = before.insert(at, x);
    assert forall|i: int, j: int| 0 <= i < j < after.len() implies !text_before(
        (#[trigger] after[j]).name,
        (#[trigger] after[i]).name,
    ) by {
        let bi = if i < at { i } else { i - 1 };
        let bj = if j < at { j } else { j - 1 };
        if i != at && j != at {
            assert(after[i] == before[bi] && after[j] == before[bj]);
        } else if i == at {
            assert(after[j] == before[bj]);
            if text_before(before[bj].name, x.name) {
                crate::textmap::lemma_text_before_transitive(x.name, before[bj].name, x.name);
                crate::textmap::lemma_text_before_irreflexive(x.name);
            }
        } else {
            assert(after[i] == before[bi]);
            if i < at - 1 {
                assert(!text_before(before[at - 1].name, before[i].name));
                crate::textmap::lemma_not_before_transitive(before[i].name, before[at - 1].name, x.name);
            }
        }
    }
}

/// Metadata with a new idle policy, which a recorded relaunch uses too.
pub open spec fn idle_armed(m: ObjectView, timeout: u64, rearmed_at: u64) -> ObjectView {
    let base = m.insert("idle_timeout_secs"@, number_json(timeout)).insert(
        "last_network_active"@,
        number_json(rearmed_at),
    );
    match members_at(base, "relaunch_recipe"@) {
        Some(recipe) => match members_at(recipe, "params"@) {
            Some(params) => base.insert(
                "relaunch_recipe"@,
                JsonView::Object(
                    recipe.insert(
                        "params"@,
                        JsonView::Object(params.insert("idle_timeout_secs"@, number_json(timeout))),
                    ),
                ),
            ),
            None => base,
        },
        None => base,
    }
}

fn arm_idle(meta: JsonMap, timeout_secs: u64, rearmed_at: u64) -> (r: JsonMap)
    ensures
        r@ == idle_armed(meta@, timeout_secs, rearmed_at),
{
    let mut out = meta;
    out.insert("idle_timeout_secs".to_owned(), json_number(timeout_secs));
    out.insert("last_network_active".to_owned(), json_number(rearmed_at));
    let recipe = match out.get("relaunch_recipe") {
        Some(Json::Object(m)) => Some(m.clone()),
        _ => None,
    };
    if let Some(recipe_map) = recipe {
        let mut recipe = recipe_map;
        let params = match recipe.get("params") {
            Some(Json::Object(m)) => Some(m.clone()),
            _ => None,
        };
        if let Some(params_map) = params {
            let mut params = params_map;
            params.insert("idle_timeout_secs".to_owned(), json_number(timeout_secs));
            recipe.insert("params".to_owned(), Json::Object(params));
            out.insert("relaunch_recipe".to_owned(), Json::Object(recipe));
        }
    }
    out
}

/// Metadata with a new status, and the code and time of a termination where they
/// are known.
pub open spec fn status_marked(
    m: ObjectView,
    status: Seq<char>,
    returncode: Option<i64>,
    terminated_at: Option<u64>,
) -> ObjectView {
    let a = m.insert("status"@, JsonView::Str(status));
    let b = match returncode {
        Some(code) => a.insert("returncode"@, JsonView::Int(code as int)),
        None => a,
    };
    match terminated_at {
        Some(ts) => b.insert("terminated_at"@, number_json(ts)),
        None => b,
    }
}

/// A request key that the rebuilt index knows leads to a sandbox that has it and
/// has not terminated.
pub proof fn law_index_is_sound(records: Map<Seq<char>, VmView>, ids: Seq<Seq<char>>, key: Seq<char>)
    requires
        index_over(records, ids).contains_key(key),
    ensures
        ids.contains(index_over(records, ids)[key]),
        request_key(records[index_over(records, ids)[key]]) == Some(key),
        key.len() > 0,
    decreases ids.len(),
{
    let rest = ids.drop_last();
    if request_key(records[ids.last()]) == Some(key) {
        assert(ids[ids.len() - 1] == ids.last());
    } else {
        law_index_is_sound(records, rest, key);
        let id = index_over(records, rest)[key];
        let i = choose|i: int| 0 <= i < rest.len() && rest[i] == id;
        assert(ids[i] == id);
    }
}

/// Every sandbox that has not terminated is found by its request key, or another
/// sandbox with the same key is.
pub proof fn law_index_is_complete(records: Map<Seq<char>, VmView>, ids: Seq<Seq<char>>, id: Seq<char>)
    requires
        ids.contains(id),
        request_key(records[id]) is Some,
    ensures
        index_over(records, ids).contains_key(request_key(records[id])->0),
    decreases ids.len(),
{
    let rest = ids.drop_last();
    if ids.last() != id {
        let i = choose|i: int| 0 <= i < ids.len() && ids[i] == id;
        assert(rest[i] == id);
        law_index_is_complete(records, rest, id);
    }
}

/// A removed sandbox is no longer found by any request key, and every other one
/// still is.
pub proof fn law_removed_is_not_found(index: Map<Seq<char>, Seq<char>>, id: Seq<char>, key: Seq<char>)
    ensures
        ({
            let after = index.restrict(Set::new(|k: Seq<char>| index.contains_key(k) && index[k] != id));
            &&& after.contains_key(key) ==> after[key] != id
            &&& index.contains_key(key) && index[key] != id ==> after.contains_key(key) && after[key]
                == index[key]
        }),
{
}

/// A create is known by its key until its sandbox is terminated.
pub proof fn law_key_is_known_until_termination(r: VmView, m: ObjectView, key: Seq<char>)
    requires
        r.detail == JsonView::Object(m),
        m.contains_key("idempotency_key"@),
        m["idempotency_key"@] == JsonView::Str(key),
        key.len() > 0,
    ensures
        r.status != "terminated"@ ==> request_key(r) == Some(key),
        r.status == "terminated"@ ==> request_key(r) is None,
{
}

/// Of the records those are looked at again that have not converged, each with whether
/// its process is alive.
pub proof fn law_unsettled_records_are_looked_at(all: Seq<VmView>, r: VmView, live: Seq<i32>)
    ensures
        r.lifecycle.operation is None && r.lifecycle.failure is None && r.lifecycle.desired == r.lifecycle.observed
            ==> unfinished(all.push(r), live) == unfinished(all, live),
        r.lifecycle.operation is Some || r.lifecycle.failure is Some || r.lifecycle.desired != r.lifecycle.observed
            ==> unfinished(all.push(r), live) == unfinished(all, live).push(
            (r, r.pid is Some && live.contains(r.pid->0)),
        ),
        unfinished(Seq::empty(), live).len() == 0,
{
    assert(all.push(r).drop_last() =~= all);
}

/// An ended sandbox is told with its status, its return code and when it ended, where
/// they are known; everything else about it stays.
pub proof fn law_status_is_marked(
    m: ObjectView,
    status: Seq<char>,
    returncode: Option<i64>,
    terminated_at: Option<u64>,
    k: Seq<char>,
)
    ensures
        ({
            let w = status_marked(m, status, returncode, terminated_at);
            &&& w["status"@] == JsonView::Str(status)
            &&& returncode is Some ==> w["returncode"@] == JsonView::Int(returncode->0 as int)
            &&& terminated_at is Some ==> w["terminated_at"@] == number_json(terminated_at->0)
            &&& k != "status"@ && k != "returncode"@ && k != "terminated_at"@ ==> w.contains_key(k) == m.contains_key(k)
                && w[k] == m[k]
            &&& returncode is None ==> w.contains_key("returncode"@) == m.contains_key("returncode"@)
            &&& terminated_at is None ==> w.contains_key("terminated_at"@) == m.contains_key("terminated_at"@)
        }),
{
    reveal_strlit("status");
    reveal_strlit("returncode");
    reveal_strlit("terminated_at");
    assert("status"@.len() == 6 && "returncode"@.len() == 10 && "terminated_at"@.len() == 13);
}

/// Arming the idle timeout notes it, and that the network was active then, and leaves
/// the rest but the relaunch recipe as it is.
pub proof fn law_idle_timeout_is_armed(m: ObjectView, timeout: u64, rearmed_at: u64, k: Seq<char>)
    ensures
        ({
            let w = idle_armed(m, timeout, rearmed_at);
            &&& w["idle_timeout_secs"@] == number_json(timeout)
            &&& w["last_network_active"@] == number_json(rearmed_at)
            &&& k != "idle_timeout_secs"@ && k != "last_network_active"@ && k != "relaunch_recipe"@ ==> w.contains_key(k)
                == m.contains_key(k) && w[k] == m[k]
        }),
{
    reveal_strlit("idle_timeout_secs");
    reveal_strlit("last_network_active");
    reveal_strlit("relaunch_recipe");
    assert("idle_timeout_secs"@.len() == 17 && "last_network_active"@.len() == 19 && "relaunch_recipe"@.len() == 15);
}

/// A sandbox that is forgotten is found neither by its identifier nor by a key; every
/// other one is found as before.
pub proof fn law_forgotten_is_not_found(v: RegistryView, id: Seq<char>, other: Seq<char>, key: Seq<char>)
    requires
        other != id,
    ensures
        ({
            let w = forgotten(v, id);
            &&& !w.records.contains_key(id)
            &&& w.records.contains_key(other) == v.records.contains_key(other) && (v.records.contains_key(other)
                ==> w.records[other] == v.records[other])
            &&& w.index.contains_key(key) ==> w.index[key] != id && v.index.contains_key(key) && w.index[key]
                == v.index[key]
            &&& v.index.contains_key(key) && v.index[key] != id ==> w.index.contains_key(key)
        }),
{
}

} // verus!
