//! What a restarted monitor makes of the metadata that its sandboxes left.
use super::codec::{
    decode_lifecycle, decode_policy, lifecycle_json, named, opt_text_json, policy_json, read_lifecycle, read_policy,
};
use super::identity::{
    identity_in, is_identity_json, json_truthy, redacted, runtime_identity_of, source_in, source_of, tags_in, tags_of,
    truthy, IdentityView,
};
use super::lifecycle::{
    normalize_observed_for_pid, phase_of, seen_with_process, status_for_observed, status_of, LifecyclePhase,
    LifecycleState, LifecycleView, PersistencePolicy, PhaseView, StateGeneration,
};
use super::record::{
    first_written, lifecycle_written, set_lifecycle_detail, set_lifecycle_meta, with_lifecycle, with_lifecycle_members, VmRecord, VmView,
};
use super::store::{idle_armed, in_order, index_over, Registry, RegistryView};
use crate::error::{failure, EngineError, ErrorCode, ErrorView};
use crate::floats::{finite, number_at, number_field, number_json, number_of, opt_number_json, value_number};
use crate::json::{
    bool_at, filled_at, i64_of, json_read, members_at, read_json, text_or, u64_at, Json, JsonMap, JsonView, ObjectView,
};
use crate::text::{cat2, cat4, text_eq, texts};
use crate::textmap::{in_sequence, lemma_in_sequence, TextMap, TextSet};
use vstd::prelude::*;

verus! {

/// The text under `k` if it is not empty, or else `default`.
pub open spec fn filled_or(m: ObjectView, k: Seq<char>, default: Seq<char>) -> Seq<char> {
    match filled_at(m, k) {
        Some(s) => s,
        None => default,
    }
}

/// The lifecycle that metadata records: whole, or by single members, where those
/// that are missing follow the older status `legacy`.
pub open spec fn lifecycle_in(m: ObjectView, legacy: Seq<char>) -> LifecycleView {
    let recorded = if m.contains_key("lifecycle"@) {
        read_lifecycle(m["lifecycle"@])
    } else {
        None
    };
    match recorded {
        Some(l) => l,
        None => LifecycleView {
            desired: phase_of(filled_or(m, "desired_state"@, legacy)),
            observed: phase_of(filled_or(m, "observed_state"@, legacy)),
            generation: StateGeneration(
                match u64_at(m, "state_generation"@) {
                    Some(n) => n,
                    None => 0,
                },
            ),
            operation: None,
            failure: filled_at(m, "lifecycle_failure"@),
        },
    }
}

fn filled_text(meta: &JsonMap, key: &str, default: &str) -> (r: String)
    ensures
        r@ == filled_or(meta@, key@, default@),
{
    match meta.filled_at(key) {
        Some(s) => s,
        None => default.to_owned(),
    }
}

pub fn lifecycle_of(meta: &JsonMap, legacy_status: &str) -> (r: LifecycleState)
    ensures
        r@ == lifecycle_in(meta@, legacy_status@),
{
    if let Some(value) = meta.get("lifecycle") {
        if let Some(l) = decode_lifecycle(value) {
            return l;
        }
    }
    LifecycleState {
        desired: LifecyclePhase::from_str(filled_text(meta, "desired_state", legacy_status).as_str()),
        observed: LifecyclePhase::from_str(filled_text(meta, "observed_state", legacy_status).as_str()),
        generation: StateGeneration(
            match meta.u64_at("state_generation") {
                Some(n) => n,
                None => 0,
            },
        ),
        operation: None,
        failure: meta.filled_at("lifecycle_failure"),
    }
}

/// The process that metadata names.
pub open spec fn pid_in(m: ObjectView) -> Option<i32> {
    if m.contains_key("pid"@) {
        match i64_of(m["pid"@]) {
            Some(p) => if i32::MIN <= p <= i32::MAX {
                Some(p as i32)
            } else {
                None
            },
            None => None,
        }
    } else {
        None
    }
}

pub fn pid_of(meta: &JsonMap) -> (r: Option<i32>)
    ensures
        r == pid_in(meta@),
{
    match meta.get("pid") {
        Some(v) => match v.as_i64() {
            Some(p) => if i32::MIN as i64 <= p && p <= i32::MAX as i64 {
                Some(p as i32)
            } else {
                None
            },
            None => None,
        },
        None => None,
    }
}

/// Whether a mount description is of the volume `name`, and writable.
pub open spec fn mounts_writably(v: JsonView, name: Seq<char>) -> bool {
    v is Object && filled_at(v->Object_0, "name"@) == Some(name) && bool_at(v->Object_0, "read_only"@) != Some(true)
}

/// The volumes that metadata mounts writably.
pub open spec fn writable_in(m: ObjectView) -> Set<Seq<char>> {
    match members_at(m, "volumes"@) {
        Some(volumes) => Set::new(
            |name: Seq<char>|
                exists|k: Seq<char>| #[trigger] volumes.contains_key(k) && mounts_writably(volumes[k], name),
        ),
        None => Set::empty(),
    }
}

/// The volumes that metadata mounts writably, in order: a volume counts where any
/// of its mounts is writable.
pub fn volume_names(meta: &JsonMap) -> (r: Vec<String>)
    ensures
        texts(r@) == in_sequence(writable_in(meta@)),
{
    let mut out = TextSet::new();
    if let Some(Json::Object(volumes)) = meta.get("volumes") {
        let n = volumes.len();
        let mut i: usize = 0;
        while i < n
            invariant
                i <= n == volumes.pairs().len(),
                forall|name: Seq<char>| #[trigger]
                    out@.contains(name) <==> exists|j: int|
                        0 <= j < i && mounts_writably((#[trigger] volumes.pairs()[j]).1, name),
            decreases n - i,
        {
            let ghost before = out@;
            let value = volumes.value_at(i);
            if let Json::Object(info) = value {
                if let Some(name) = info.filled_at("name") {
                    if !matches!(info.bool_at("read_only"), Some(true)) {
                        out.insert(name);
                    }
                }
            }
            assert forall|name: Seq<char>| #[trigger]
                out@.contains(name) <==> exists|j: int|
                    0 <= j < i + 1 && mounts_writably((#[trigger] volumes.pairs()[j]).1, name) by {
                if out@.contains(name) {
                    if before.contains(name) {
                        let j = choose|j: int|
                            0 <= j < i && mounts_writably((#[trigger] volumes.pairs()[j]).1, name);
                        assert(mounts_writably(volumes.pairs()[j].1, name));
                    } else {
                        assert(mounts_writably(volumes.pairs()[i as int].1, name));
                    }
                }
                if exists|j: int| 0 <= j < i + 1 && mounts_writably((#[trigger] volumes.pairs()[j]).1, name) {
                    let j = choose|j: int|
                        0 <= j < i + 1 && mounts_writably((#[trigger] volumes.pairs()[j]).1, name);
                    if j < i {
                        assert(before.contains(name));
                    }
                }
            }
            i = i + 1;
        }
        proof {
            let goal = writable_in(meta@);
            assert forall|name: Seq<char>| out@.contains(name) == goal.contains(name) by {
                if out@.contains(name) {
                    let j = choose|j: int|
                        0 <= j < n && mounts_writably((#[trigger] volumes.pairs()[j]).1, name);
                    assert(volumes@.contains_key(volumes.pairs()[j].0));
                }
                if goal.contains(name) {
                    let k = choose|k: Seq<char>| #[trigger]
                        volumes@.contains_key(k) && mounts_writably(volumes@[k], name);
                    let j = choose|j: int| 0 <= j < volumes.pairs().len() && (#[trigger] volumes.pairs()[j]).0 == k;
                    assert(mounts_writably(volumes.pairs()[j].1, name));
                }
            }
            assert(out@ =~= goal);
        }
    } else {
        assert(out@ =~= writable_in(meta@));
    }
    let list = out.list();
    proof {
        lemma_in_sequence(texts(list@), out@);
    }
    list
}

/// Whether metadata says anything of desired and observed states.
pub open spec fn records_lifecycle(m: ObjectView) -> bool {
    m.contains_key("lifecycle"@) || m.contains_key("desired_state"@) || m.contains_key("observed_state"@)
}

/// The lifecycle that metadata records. Where it says nothing of desired and
/// observed states, what runs is what is wanted.
pub open spec fn recorded_lifecycle(m: ObjectView, running: bool) -> LifecycleView {
    let l = lifecycle_in(m, text_or(m, "status"@, "stopped"@));
    if records_lifecycle(m) {
        l
    } else {
        let actual = if running {
            PhaseView::Running
        } else {
            match l.observed {
                PhaseView::Suspended => PhaseView::Suspended,
                PhaseView::Terminated => PhaseView::Terminated,
                _ => PhaseView::Stopped,
            }
        };
        LifecycleView { desired: actual, observed: actual, ..l }
    }
}

/// The lifecycle of a sandbox after a restart of its monitor: what metadata
/// records, with the observed state in line with whether the process lives.
pub open spec fn recovered_lifecycle(m: ObjectView, running: bool) -> LifecycleView {
    let l = recorded_lifecycle(m, running);
    LifecycleView { observed: seen_with_process(l.observed, running), ..l }
}

/// Whether the metadata has to be written again.
pub open spec fn outdated(m: ObjectView, running: bool) -> bool {
    let l = recovered_lifecycle(m, running);
    l.observed != recorded_lifecycle(m, running).observed || text_or(m, "status"@, "stopped"@) != status_of(
        l.observed,
    )
}

/// The metadata of an outdated sandbox, brought up to date.
pub open spec fn refreshed(m: ObjectView, running: bool) -> ObjectView {
    let l = recovered_lifecycle(m, running);
    with_lifecycle(m, l).insert("status"@, JsonView::Str(status_of(l.observed)))
}

/// The detail of a sandbox after a restart of its monitor.
pub open spec fn recovered_detail(m: ObjectView, running: bool) -> ObjectView {
    let l = recovered_lifecycle(m, running);
    let a = if running && m.contains_key("tap"@) && truthy(m["tap"@]) {
        m.insert("tunnels_lost"@, JsonView::Bool(true))
    } else {
        m
    };
    if outdated(m, running) {
        with_lifecycle_members(a, l).insert("status"@, JsonView::Str(status_of(l.observed)))
    } else {
        a
    }
}

/// `o`, or else `default`.
pub open spec fn or_bits(o: Option<u64>, default: u64) -> u64 {
    match o {
        Some(x) => x,
        None => default,
    }
}

/// The timeout that metadata records.
pub open spec fn timeout_in(m: ObjectView) -> Option<u64> {
    if m.contains_key("timeout_secs"@) {
        number_of(m["timeout_secs"@])
    } else {
        None
    }
}

/// The record of the sandbox whose directory is called `name` and holds the
/// metadata `m`; `running` says whether its process lives.
pub open spec fn recovered(name: Seq<char>, m: ObjectView, running: bool, now: u64) -> VmView {
    let l = recovered_lifecycle(m, running);
    let created_at = or_bits(number_at(m, "created_at"@), now);
    VmView {
        id: filled_or(m, "sandbox_id"@, name),
        name,
        status: status_of(l.observed),
        pid: pid_in(m),
        source: source_in(m),
        created_at,
        timeout: timeout_in(m),
        detail: JsonView::Object(recovered_detail(m, running)),
        tags: tags_in(m),
        last_active: or_bits(number_at(m, "last_active"@), created_at),
        last_network_active: match number_at(m, "last_network_active"@) {
            Some(x) => x,
            None => or_bits(number_at(m, "last_active"@), created_at),
        },
        persistence: if m.contains_key("persistence"@) {
            match read_policy(m["persistence"@]) {
                Some(p) => p,
                None => PersistencePolicy::Persistent,
            }
        } else {
            PersistencePolicy::Persistent
        },
        terminated_at: number_at(m, "terminated_at"@),
        error: filled_at(m, "error"@),
        lifecycle: l,
        incarnation_epoch: if m.contains_key("incarnation_epoch"@) {
            match i64_of(m["incarnation_epoch"@]) {
                Some(e) => e,
                None => 0,
            }
        } else {
            0
        },
        runtime_identity: identity_in(m, source_in(m), timeout_in(m)),
    }
}

/// What a metadata file holds: `text` is its content, if it is there, and `path` is
/// where it is.
pub open spec fn meta_in(text: Option<Seq<char>>, path: Seq<char>) -> Result<ObjectView, ErrorView> {
    match text {
        None => Ok(Map::empty()),
        Some(t) => match json_read(t) {
            Err(e) => Err(failure(ErrorCode::Invalid, "could not parse "@ + path + ": "@ + e)),
            Ok(JsonView::Object(m)) => Ok(m),
            Ok(_) => Err(failure(ErrorCode::Invalid, path + " must contain a JSON object"@)),
        },
    }
}

/// What a metadata file holds; one that is not there holds nothing.
pub fn read_meta_map(text: Option<&str>, path: &str) -> (r: Result<JsonMap, EngineError>)
    ensures
        match r {
            Ok(m) => meta_in(
                match text {
                    Some(t) => Some(t@),
                    None => None,
                },
                path@,
            ) == Ok::<ObjectView, ErrorView>(m@),
            Err(e) => meta_in(
                match text {
                    Some(t) => Some(t@),
                    None => None,
                },
                path@,
            ) == Err::<ObjectView, ErrorView>(e@),
        },
{
    match text {
        None => Ok(JsonMap::new()),
        Some(t) => match read_json(t) {
            Err(e) => Err(EngineError::invalid(cat4("could not parse ", path, ": ", e.as_str()))),
            Ok(Json::Object(m)) => Ok(m),
            Ok(_) => Err(EngineError::invalid(cat2(path, " must contain a JSON object"))),
        },
    }
}

/// What a sandbox left: its metadata, and whether its process lives.
pub struct MetaEntry {
    pub meta: JsonMap,
    pub running: bool,
}

/// The value of a [`MetaEntry`].
pub struct EntryView {
    pub meta: ObjectView,
    pub running: bool,
}

impl View for MetaEntry {
    type V = EntryView;

    open spec fn view(&self) -> EntryView {
        EntryView { meta: self.meta@, running: self.running }
    }
}

fn timeout_of(meta: &JsonMap) -> (r: Option<u64>)
    ensures
        r == timeout_in(meta@),
{
    match meta.get("timeout_secs") {
        Some(v) => value_number(v),
        None => None,
    }
}

fn recover_lifecycle(entry: &MetaEntry) -> (r: (LifecycleState, bool))
    ensures
        r.0@ == recovered_lifecycle(entry@.meta, entry@.running),
        r.1 == outdated(entry@.meta, entry@.running),
{
    let meta = &entry.meta;
    let saved = meta.text_or("status", "stopped");
    let persisted = meta.contains_key("lifecycle") || meta.contains_key("desired_state") || meta.contains_key(
        "observed_state",
    );
    let mut lifecycle = lifecycle_of(meta, saved.as_str());
    if !persisted {
        let actual = if entry.running {
            LifecyclePhase::Running
        } else {
            match &lifecycle.observed {
                LifecyclePhase::Suspended => LifecyclePhase::Suspended,
                LifecyclePhase::Terminated => LifecyclePhase::Terminated,
                _ => LifecyclePhase::Stopped,
            }
        };
        lifecycle.desired = actual.clone();
        lifecycle.observed = actual;
    }
    assert(lifecycle@ == recorded_lifecycle(entry@.meta, entry@.running));
    let changed = normalize_observed_for_pid(&mut lifecycle, entry.running);
    let same = text_eq(saved.as_str(), status_for_observed(&lifecycle.observed));
    (lifecycle, changed || !same)
}

fn recover(name: &str, entry: &MetaEntry, now: u64) -> (r: VmRecord)
    ensures
        r@ == recovered(name@, entry@.meta, entry@.running, now),
{
    let meta = &entry.meta;
    let (lifecycle, changed) = recover_lifecycle(entry);
    let status = status_for_observed(&lifecycle.observed).to_owned();
    let mut detail = meta.clone();
    if entry.running {
        if let Some(tap) = meta.get("tap") {
            if json_truthy(tap) {
                detail.insert("tunnels_lost".to_owned(), Json::Bool(true));
            }
        }
    }
    if changed {
        set_lifecycle_detail(&mut detail, &lifecycle);
        detail.insert("status".to_owned(), Json::Str(status.clone()));
    }
    let created_at: u64 = match number_field(meta, "created_at") {
        Some(x) => x,
        None => now,
    };
    let last_active: u64 = match number_field(meta, "last_active") {
        Some(x) => x,
        None => created_at,
    };
    let last_network_active: u64 = match number_field(meta, "last_network_active") {
        Some(x) => x,
        None => last_active,
    };
    let persistence = match meta.get("persistence") {
        Some(v) => match decode_policy(v) {
            Some(p) => p,
            None => PersistencePolicy::Persistent,
        },
        None => PersistencePolicy::Persistent,
    };
    let incarnation_epoch: i64 = match meta.get("incarnation_epoch") {
        Some(v) => match v.as_i64() {
            Some(e) => e,
            None => 0,
        },
        None => 0,
    };
    VmRecord {
        id: filled_text(meta, "sandbox_id", name),
        name: name.to_owned(),
        status,
        pid: pid_of(meta),
        source: source_of(meta),
        created_at,
        timeout: timeout_of(meta),
        detail: Json::Object(detail),
        tags: tags_of(meta),
        last_active,
        last_network_active,
        persistence,
        terminated_at: number_field(meta, "terminated_at"),
        error: meta.filled_at("error"),
        lifecycle,
        incarnation_epoch,
        runtime_identity: runtime_identity_of(meta, source_of(meta), timeout_of(meta)),
    }
}

/// The records of the sandboxes `names`, by their stable identity; of two with the
/// same identity the later one counts.
pub open spec fn recovered_records(
    entries: Map<Seq<char>, EntryView>,
    names: Seq<Seq<char>>,
    now: u64,
) -> Map<Seq<char>, VmView>
    decreases names.len(),
{
    if names.len() == 0 {
        Map::empty()
    } else {
        let e = entries[names.last()];
        let r = recovered(names.last(), e.meta, e.running, now);
        recovered_records(entries, names.drop_last(), now).insert(r.id, r)
    }
}

/// The volume locks that running sandboxes hold, by the stable identity of their
/// records.
pub open spec fn lock_requests(
    entries: Map<Seq<char>, EntryView>,
    names: Seq<Seq<char>>,
    now: u64,
) -> Seq<(Seq<char>, Seq<Seq<char>>)>
    decreases names.len(),
{
    if names.len() == 0 {
        Seq::empty()
    } else {
        let rest = lock_requests(entries, names.drop_last(), now);
        let e = entries[names.last()];
        let volumes = in_sequence(writable_in(e.meta));
        if e.running && volumes.len() > 0 {
            rest.push((recovered(names.last(), e.meta, e.running, now).id, volumes))
        } else {
            rest
        }
    }
}

/// The metadata that has to be written again.
pub open spec fn meta_writes(entries: Map<Seq<char>, EntryView>, names: Seq<Seq<char>>) -> Seq<
    (Seq<char>, ObjectView),
>
    decreases names.len(),
{
    if names.len() == 0 {
        Seq::empty()
    } else {
        let rest = meta_writes(entries, names.drop_last());
        let e = entries[names.last()];
        if outdated(e.meta, e.running) {
            rest.push((names.last(), refreshed(e.meta, e.running)))
        } else {
            rest
        }
    }
}

/// What follows a rehydrate: the volume locks to take again, and the metadata to
/// write.
pub struct Rehydrated {
    pub locks: Vec<(String, Vec<String>)>,
    pub writes: Vec<(String, JsonMap)>,
}

/// The values of a list of lock requests.
pub open spec fn lock_views(v: Seq<(String, Vec<String>)>) -> Seq<(Seq<char>, Seq<Seq<char>>)> {
    Seq::new(v.len(), |i: int| (v[i].0@, texts(v[i].1@)))
}

/// The values of a list of writes.
pub open spec fn write_views(v: Seq<(String, JsonMap)>) -> Seq<(Seq<char>, ObjectView)> {
    Seq::new(v.len(), |i: int| (v[i].0@, v[i].1@))
}

impl Registry {
    /// Rebuild the records from the metadata of the sandboxes, by the name of
    /// their directory.
    ///
    /// Canonical identity and lifecycle timestamps are restored from metadata;
    /// legacy records without them keep their directory name as the stable ID.
    /// The returned locks carry the record's ID and the volumes that the engine
    /// must re-acquire for records still backed by a live process.
    pub fn rehydrate(&mut self, entries: &TextMap<MetaEntry>, now: u64) -> (r: Rehydrated)
        ensures
            ({
                let names = in_sequence(entries@.dom());
                let records = recovered_records(entries@, names, now);
                &&& exists|ids: Seq<Seq<char>>| #[trigger]
                    in_order(records, ids) && final(self)@ == (RegistryView {
                        records,
                        index: index_over(records, ids),
                    })
                &&& lock_views(r.locks@) == lock_requests(entries@, names, now)
                &&& write_views(r.writes@) == meta_writes(entries@, names)
            }),
    {
        let mut records: TextMap<VmRecord> = TextMap::new();
        let mut locks: Vec<(String, Vec<String>)> = Vec::new();
        let mut writes: Vec<(String, JsonMap)> = Vec::new();
        let n = entries.len();
        let ghost names = entries.keys();
        proof {
            assert forall|k: Seq<char>| #[trigger] names.contains(k) <==> entries@.dom().contains(k) by {
                assert(entries@.contains_key(k) <==> names.contains(k));
            }
            lemma_in_sequence(names, entries@.dom());
            assert(names.take(0) =~= Seq::empty());
            assert(lock_views(locks@) =~= Seq::empty());
            assert(write_views(writes@) =~= Seq::empty());
        }
        let mut i: usize = 0;
        while i < n
            invariant
                i <= n == names.len(),
                names == entries.keys(),
                records@ == recovered_records(entries@, names.take(i as int), now),
                lock_views(locks@) == lock_requests(entries@, names.take(i as int), now),
                write_views(writes@) == meta_writes(entries@, names.take(i as int)),
            decreases n - i,
        {
            let ghost some_locks = locks@;
            let ghost some_writes = writes@;
            proof {
                assert(names.take(i + 1).drop_last() =~= names.take(i as int));
                assert(names.take(i + 1).last() == names[i as int]);
            }
            let entry = entries.value_at(i);
            let name = entries.key_at(i);
            let record = recover(name.as_str(), entry, now);
            if entry.running {
                let volumes = volume_names(&entry.meta);
                assert(texts(volumes@).len() == volumes@.len());
                if volumes.len() > 0 {
                    locks.push((record.id.clone(), volumes));
                    assert(lock_views(locks@) =~= lock_views(some_locks).push((record.id@, texts(volumes@))));
                }
            }
            let (lifecycle, changed) = recover_lifecycle(entry);
            if changed {
                let mut meta = entry.meta.clone();
                set_lifecycle_meta(&mut meta, &lifecycle);
                meta.insert("status".to_owned(), Json::Str(status_for_observed(&lifecycle.observed).to_owned()));
                writes.push((name.clone(), meta));
                assert(write_views(writes@) =~= write_views(some_writes).push((name@, meta@)));
            }
            records.insert(record.id.clone(), record);
            i = i + 1;
        }
        assert(names.take(i as int) =~= names);
        self.replace(records);
        Rehydrated { locks, writes }
    }
}

/// What a sandbox desired, and in which generation, survives a crash of its
/// monitor: metadata that records a lifecycle yields it again, except that what is
/// observed follows the process.
pub proof fn law_desired_survives_crash(m: ObjectView, l: LifecycleView, running: bool)
    requires
        m.contains_key("lifecycle"@),
        read_lifecycle(m["lifecycle"@]) == Some(l),
    ensures
        recovered_lifecycle(m, running) == (LifecycleView {
            observed: seen_with_process(l.observed, running),
            ..l
        }),
{
}

/// Metadata that was written for a lifecycle records it.
pub proof fn law_written_lifecycle_is_recorded(meta: ObjectView, l: LifecycleView, status: Seq<char>)
    ensures
        ({
            let m = with_lifecycle(meta, l).insert("status"@, JsonView::Str(status));
            m.contains_key("lifecycle"@) && m["lifecycle"@] == super::codec::lifecycle_json(l)
        }),
{
    reveal_strlit("lifecycle");
    reveal_strlit("desired_state");
    reveal_strlit("observed_state");
    reveal_strlit("state_generation");
    reveal_strlit("lifecycle_failure");
    reveal_strlit("status");
    assert("lifecycle"@.len() == 9 && "desired_state"@.len() == 13 && "observed_state"@.len() == 14);
    assert("state_generation"@.len() == 16 && "lifecycle_failure"@.len() == 17 && "status"@.len() == 6);
}

proof fn lemma_stored_members(meta: ObjectView, r: VmView, identity: JsonView)
    ensures
        ({
            let m = first_written(meta, r, identity);
            &&& m.contains_key("sandbox_id"@) && m["sandbox_id"@] == JsonView::Str(r.id)
            &&& m.contains_key("created_at"@) && m["created_at"@] == number_json(r.created_at)
            &&& m.contains_key("last_active"@) && m["last_active"@] == number_json(r.last_active)
            &&& m.contains_key("last_network_active"@) && m["last_network_active"@] == number_json(
                r.last_network_active,
            )
            &&& m.contains_key("persistence"@) && m["persistence"@] == policy_json(r.persistence)
            &&& m.contains_key("terminated_at"@) && m["terminated_at"@] == opt_number_json(r.terminated_at)
            &&& m.contains_key("error"@) && m["error"@] == opt_text_json(r.error)
            &&& m.contains_key("lifecycle"@) && m["lifecycle"@] == lifecycle_json(r.lifecycle)
            &&& m.contains_key("runtime_identity"@) && m["runtime_identity"@] == identity
        }),
{
    reveal_strlit("sandbox_id");
    reveal_strlit("created_at");
    reveal_strlit("last_active");
    reveal_strlit("last_network_active");
    reveal_strlit("persistence");
    reveal_strlit("status");
    reveal_strlit("terminated_at");
    reveal_strlit("error");
    reveal_strlit("lifecycle");
    reveal_strlit("desired_state");
    reveal_strlit("observed_state");
    reveal_strlit("state_generation");
    reveal_strlit("lifecycle_failure");
    reveal_strlit("runtime_identity");
    assert("sandbox_id"@.len() == 10 && "sandbox_id"@[0] == 's');
    assert("created_at"@.len() == 10 && "created_at"@[0] == 'c');
    assert("last_active"@.len() == 11 && "last_active"@[0] == 'l');
    assert("persistence"@.len() == 11 && "persistence"@[0] == 'p');
    assert("terminated_at"@.len() == 13 && "terminated_at"@[0] == 't');
    assert("desired_state"@.len() == 13 && "desired_state"@[0] == 'd');
    assert("state_generation"@.len() == 16 && "state_generation"@[0] == 's');
    assert("runtime_identity"@.len() == 16 && "runtime_identity"@[0] == 'r');
    assert("last_network_active"@.len() == 19 && "status"@.len() == 6 && "error"@.len() == 5);
    assert("lifecycle"@.len() == 9 && "observed_state"@.len() == 14 && "lifecycle_failure"@.len() == 17);
}

/// A sandbox that was stored is found again by a restarted monitor: with its stable
/// identity, its times, its retention, its error and its lifecycle, except that what
/// is observed follows the process. (A number that is not finite, an empty identity
/// and an empty error are not told from absent ones.)
pub proof fn law_stored_record_survives_restart(
    meta: ObjectView,
    r: VmView,
    identity: JsonView,
    running: bool,
    now: u64,
)
    requires
        r.id.len() > 0,
        finite(r.created_at),
        finite(r.last_active),
        finite(r.last_network_active),
        r.terminated_at is Some ==> finite(r.terminated_at->0),
        r.error is Some ==> r.error->0.len() > 0,
        named(r.lifecycle.desired),
        named(r.lifecycle.observed),
    ensures
        ({
            let back = recovered(r.name, first_written(meta, r, identity), running, now);
            &&& back.id == r.id
            &&& back.name == r.name
            &&& back.created_at == r.created_at
            &&& back.last_active == r.last_active
            &&& back.last_network_active == r.last_network_active
            &&& back.persistence == r.persistence
            &&& back.terminated_at == r.terminated_at
            &&& back.error == r.error
            &&& back.lifecycle == (LifecycleView {
                observed: seen_with_process(r.lifecycle.observed, running),
                ..r.lifecycle
            })
        }),
{
    lemma_stored_members(meta, r, identity);
    super::codec::law_lifecycle_survives(r.lifecycle);
    super::codec::law_policy_survives(r.persistence);
    let m = first_written(meta, r, identity);
    law_desired_survives_crash(m, r.lifecycle, running);
}

/// With a stored sandbox its runtime identity is found again, none of its secret
/// values: what it leaves open is filled from the rest of the metadata.
pub proof fn law_stored_identity_survives_restart(
    meta: ObjectView,
    r: VmView,
    identity: JsonView,
    running: bool,
    now: u64,
)
    requires
        is_identity_json(identity, redacted(r.runtime_identity)),
        r.runtime_identity.timeout_secs is Some ==> finite(r.runtime_identity.timeout_secs->0),
        r.runtime_identity.network_policy != Some(JsonView::Null),
    ensures
        ({
            let id = redacted(r.runtime_identity);
            let back = recovered(r.name, first_written(meta, r, identity), running, now).runtime_identity;
            &&& back.environment == id.environment
            &&& back == (IdentityView {
                timeout_secs: back.timeout_secs,
                source: back.source,
                workdir: back.workdir,
                mounts: back.mounts,
                ..id
            })
            &&& id.timeout_secs is Some ==> back.timeout_secs == id.timeout_secs
            &&& id.source is Some ==> back.source == id.source
            &&& id.workdir is Some ==> back.workdir == id.workdir
            &&& id.mounts.len() > 0 ==> back.mounts == id.mounts
        }),
{
    lemma_stored_members(meta, r, identity);
    let id = redacted(r.runtime_identity);
    super::identity::law_identity_survives(identity, id);
    assert(redacted(id).environment =~= id.environment);
}

/// A new idle policy is found again by a restarted monitor, with the time at which
/// its clock was rearmed.
pub proof fn law_idle_policy_survives_restart(
    meta: ObjectView,
    r: VmView,
    timeout: u64,
    rearmed_at: u64,
    running: bool,
    now: u64,
)
    requires
        finite(timeout),
        finite(rearmed_at),
    ensures
        ({
            let m = lifecycle_written(idle_armed(meta, timeout, rearmed_at), r);
            &&& number_at(m, "idle_timeout_secs"@) == Some(timeout)
            &&& recovered(r.name, m, running, now).last_network_active == rearmed_at
        }),
{
    reveal_strlit("idle_timeout_secs");
    reveal_strlit("last_network_active");
    reveal_strlit("relaunch_recipe");
    reveal_strlit("status");
    reveal_strlit("lifecycle");
    reveal_strlit("desired_state");
    reveal_strlit("observed_state");
    reveal_strlit("state_generation");
    reveal_strlit("lifecycle_failure");
    assert("idle_timeout_secs"@.len() == 17 && "idle_timeout_secs"@[0] == 'i');
    assert("lifecycle_failure"@.len() == 17 && "lifecycle_failure"@[0] == 'l');
    assert("last_network_active"@.len() == 19 && "relaunch_recipe"@.len() == 15 && "status"@.len() == 6);
    assert("lifecycle"@.len() == 9 && "desired_state"@.len() == 13 && "observed_state"@.len() == 14);
    assert("state_generation"@.len() == 16);
}

/// A sandbox whose process is gone is never taken for a running one, and one whose
/// process lives is never taken for a stopped one.
pub proof fn law_observed_follows_process(m: ObjectView)
    ensures
        recovered_lifecycle(m, false).observed != PhaseView::Running,
        recovered_lifecycle(m, false).observed != PhaseView::Paused,
        recovered_lifecycle(m, true).observed != PhaseView::Stopped,
        recovered_lifecycle(m, true).observed != PhaseView::Suspended,
        recovered_lifecycle(m, true).observed != PhaseView::Terminated,
{
}

/// Metadata that was brought up to date is up to date: rehydrating again writes
/// nothing, provided that the recorded phases came from names.
pub proof fn law_refreshed_is_current(m: ObjectView, running: bool)
    requires
        named(recovered_lifecycle(m, running).desired),
        named(recovered_lifecycle(m, running).observed),
    ensures
        !outdated(refreshed(m, running), running),
        recovered_lifecycle(refreshed(m, running), running) == recovered_lifecycle(m, running),
{
    let l = recovered_lifecycle(m, running);
    let w = refreshed(m, running);
    law_written_lifecycle_is_recorded(m, l, status_of(l.observed));
    super::codec::law_lifecycle_survives(l);
    super::lifecycle::law_normalizing_is_idempotent(recorded_lifecycle(m, running).observed, running);
    assert(w["status"@] == JsonView::Str(status_of(l.observed)));
}

/// A record from before lifecycles were written takes its state from whether its
/// process runs, or else from its status: suspended and terminated stay, anything else
/// has stopped.
pub proof fn law_old_record_takes_its_state_from_the_process(m: ObjectView, status: Seq<char>)
    requires
        !m.contains_key("lifecycle"@),
        !m.contains_key("desired_state"@),
        !m.contains_key("observed_state"@),
        m.contains_key("status"@),
        m["status"@] == JsonView::Str(status),
    ensures
        recovered_lifecycle(m, true).observed == PhaseView::Running,
        recovered_lifecycle(m, true).desired == PhaseView::Running,
        status == "suspended"@ ==> recovered_lifecycle(m, false).observed == PhaseView::Suspended
            && recovered_lifecycle(m, false).desired == PhaseView::Suspended,
        status == "running"@ || status == "stopped"@ || status == "paused"@ ==> recovered_lifecycle(m, false).observed
            == PhaseView::Stopped && recovered_lifecycle(m, false).desired == PhaseView::Stopped,
        status == "terminated"@ ==> recovered_lifecycle(m, false).observed == PhaseView::Terminated,
{
    reveal_strlit("running");
    reveal_strlit("stopped");
    reveal_strlit("suspended");
    reveal_strlit("paused");
    reveal_strlit("terminated");
    assert("running"@.len() == 7 && "stopped"@.len() == 7 && "suspended"@.len() == 9 && "paused"@.len() == 6
        && "terminated"@.len() == 10);
    assert("running"@[0] == 'r' && "stopped"@[0] == 's');
}

/// What a record that tells little is taken for: it is known by its name, was made and
/// used now, and is kept; what it does tell is taken as it is.
pub proof fn law_record_is_recovered_as_told(name: Seq<char>, m: ObjectView, running: bool, now: u64, id: Seq<char>)
    ensures
        ({
            let r = recovered(name, m, running, now);
            &&& r.name == name
            &&& !m.contains_key("sandbox_id"@) ==> r.id == name
            &&& m.contains_key("sandbox_id"@) && m["sandbox_id"@] == JsonView::Str(id) && id.len() > 0 ==> r.id == id
            &&& !m.contains_key("created_at"@) ==> r.created_at == now
            &&& !m.contains_key("created_at"@) && !m.contains_key("last_active"@) ==> r.last_active == now
            &&& !m.contains_key("persistence"@) ==> r.persistence == PersistencePolicy::Persistent
            &&& !m.contains_key("pid"@) ==> r.pid is None
            &&& !m.contains_key("error"@) ==> r.error is None
            &&& !m.contains_key("tags"@) ==> r.tags == Map::<Seq<char>, Seq<char>>::empty()
            &&& !m.contains_key("incarnation_epoch"@) ==> r.incarnation_epoch == 0
            &&& forall|pid: i32| m.contains_key("pid"@) && m["pid"@] == JsonView::Int(pid as int) ==> r.pid == Some(pid)
        }),
{
}

/// The volumes that a recovered sandbox locks are those that it mounts and may write.
pub proof fn law_writable_volumes_are_locked(m: ObjectView, volumes: ObjectView, k: Seq<char>, v: ObjectView, name: Seq<char>)
    requires
        m.contains_key("volumes"@),
        m["volumes"@] == JsonView::Object(volumes),
        volumes.contains_key(k),
        volumes[k] == JsonView::Object(v),
        v.contains_key("name"@),
        v["name"@] == JsonView::Str(name),
        name.len() > 0,
    ensures
        !v.contains_key("read_only"@) || v["read_only"@] == JsonView::Bool(false) ==> writable_in(m).contains(name),
        v.contains_key("read_only"@) && v["read_only"@] == JsonView::Bool(true) ==> !mounts_writably(volumes[k], name),
        writable_in(m.remove("volumes"@)) == Set::<Seq<char>>::empty(),
{
    if !v.contains_key("read_only"@) || v["read_only"@] == JsonView::Bool(false) {
        assert(mounts_writably(volumes[k], name));
    }
    assert(writable_in(m.remove("volumes"@)) =~= Set::<Seq<char>>::empty());
}

/// Locks are asked for on behalf of the sandboxes that run and write to volumes, and
/// records are written anew where they are out of date.
pub proof fn law_recovery_asks_for_what_is_needed(
    entries: Map<Seq<char>, EntryView>,
    names: Seq<Seq<char>>,
    name: Seq<char>,
    now: u64,
)
    ensures
        ({
            let e = entries[name];
            let more = names.push(name);
            &&& !e.running ==> lock_requests(entries, more, now) == lock_requests(entries, names, now)
            &&& e.running && in_sequence(writable_in(e.meta)).len() > 0 ==> lock_requests(entries, more, now)
                == lock_requests(entries, names, now).push(
                (recovered(name, e.meta, e.running, now).id, in_sequence(writable_in(e.meta))),
            )
            &&& outdated(e.meta, e.running) ==> meta_writes(entries, more) == meta_writes(entries, names).push(
                (name, refreshed(e.meta, e.running)),
            )
            &&& !outdated(e.meta, e.running) ==> meta_writes(entries, more) == meta_writes(entries, names)
            &&& recovered_records(entries, more, now).contains_key(recovered(name, e.meta, e.running, now).id)
            &&& recovered_records(entries, more, now)[recovered(name, e.meta, e.running, now).id] == recovered(
                name,
                e.meta,
                e.running,
                now,
            )
        }),
{
    assert(names.push(name).drop_last() =~= names);
}

/// A running sandbox with a TAP has lost its tunnels over a restart, and says so.
pub proof fn law_tunnels_are_lost_over_a_restart(name: Seq<char>, m: ObjectView, now: u64, tap: Seq<char>)
    requires
        m.contains_key("tap"@),
        m["tap"@] == JsonView::Str(tap),
        tap.len() > 0,
    ensures
        ({
            let d = recovered(name, m, true, now).detail;
            d is Object && d->Object_0.contains_key("tunnels_lost"@) && d->Object_0["tunnels_lost"@] == JsonView::Bool(
                true,
            )
        }),
{
    reveal_strlit("tunnels_lost");
    reveal_strlit("status");
    reveal_strlit("desired_state");
    reveal_strlit("observed_state");
    reveal_strlit("state_generation");
    reveal_strlit("lifecycle_failure");
    assert("tunnels_lost"@.len() == 12 && "status"@.len() == 6 && "desired_state"@.len() == 13
        && "observed_state"@.len() == 14 && "state_generation"@.len() == 16 && "lifecycle_failure"@.len() == 17);
}

} // verus!
