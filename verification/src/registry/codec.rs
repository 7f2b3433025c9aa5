//! How registry values are written to and read from JSON.
//!
//! A structure is written as an object. It is read from an object or, by
//! position, from an array; members that are missing take their defaults.
use super::lifecycle::{
    opt_operation, phase_of, phase_text, LifecycleOperation, LifecyclePhase, LifecycleState, LifecycleView,
    OperationView, PersistencePolicy, PhaseView, StateGeneration,
};
use crate::json::{lemma_array_items, Json, JsonMap, JsonView};
use crate::text::{opt_text, text_eq};
use vstd::prelude::*;

verus! {

/// The JSON value of an optional text.
pub open spec fn opt_text_json(o: Option<Seq<char>>) -> JsonView {
    match o {
        Some(s) => JsonView::Str(s),
        None => JsonView::Null,
    }
}

pub fn json_opt_text(o: &Option<String>) -> (r: Json)
    ensures
        r@ == opt_text_json(opt_text(*o)),
{
    match o {
        Some(s) => Json::Str(s.clone()),
        None => Json::Null,
    }
}

/// The JSON value of an operation: an object with the operation's kind as its
/// only member.
pub open spec fn operation_json(o: Option<OperationView>) -> JsonView {
    match o {
        None => JsonView::Null,
        Some(OperationView::Rollback { recovery_point }) => JsonView::Object(
            Map::empty().insert(
                "Rollback"@,
                JsonView::Object(Map::empty().insert("recovery_point"@, JsonView::Str(recovery_point))),
            ),
        ),
        Some(OperationView::Other { kind }) => JsonView::Object(
            Map::empty().insert("Other"@, JsonView::Object(Map::empty().insert("kind"@, JsonView::Str(kind)))),
        ),
    }
}

fn json_operation(o: &Option<LifecycleOperation>) -> (r: Json)
    ensures
        r@ == operation_json(opt_operation(*o)),
{
    match o {
        None => Json::Null,
        Some(LifecycleOperation::Rollback { recovery_point }) => {
            let mut inner = JsonMap::new();
            inner.insert("recovery_point".to_owned(), Json::Str(recovery_point.clone()));
            let mut outer = JsonMap::new();
            outer.insert("Rollback".to_owned(), Json::Object(inner));
            Json::Object(outer)
        },
        Some(LifecycleOperation::Other { kind }) => {
            let mut inner = JsonMap::new();
            inner.insert("kind".to_owned(), Json::Str(kind.clone()));
            let mut outer = JsonMap::new();
            outer.insert("Other".to_owned(), Json::Object(inner));
            Json::Object(outer)
        },
    }
}

/// The JSON value of a lifecycle.
pub open spec fn lifecycle_json(l: LifecycleView) -> JsonView {
    JsonView::Object(
        Map::empty().insert("desired"@, JsonView::Str(phase_text(l.desired))).insert(
            "observed"@,
            JsonView::Str(phase_text(l.observed)),
        ).insert("generation"@, JsonView::Int(l.generation.0 as int)).insert(
            "operation"@,
            operation_json(l.operation),
        ).insert("failure"@, opt_text_json(l.failure)),
    )
}

pub fn json_lifecycle(l: &LifecycleState) -> (r: Json)
    ensures
        r@ == lifecycle_json(l@),
{
    let mut m = JsonMap::new();
    m.insert("desired".to_owned(), Json::Str(l.desired.as_str().to_owned()));
    m.insert("observed".to_owned(), Json::Str(l.observed.as_str().to_owned()));
    m.insert("generation".to_owned(), Json::Int(l.generation.0 as i128));
    m.insert("operation".to_owned(), json_operation(&l.operation));
    m.insert("failure".to_owned(), json_opt_text(&l.failure));
    Json::Object(m)
}

/// The member of a structure: by name in an object, by position in an array.
pub open spec fn member(v: JsonView, i: int, name: Seq<char>) -> Option<JsonView> {
    match v {
        JsonView::Object(m) => if m.contains_key(name) {
            Some(m[name])
        } else {
            None
        },
        JsonView::Array(items) => if 0 <= i < items.len() {
            Some(items[i])
        } else {
            None
        },
        _ => None,
    }
}

/// Whether a value can be a structure of `n` members.
pub open spec fn structure(v: JsonView, n: nat) -> bool {
    match v {
        JsonView::Object(_) => true,
        JsonView::Array(items) => items.len() <= n,
        _ => false,
    }
}

/// The value of an optional reference to a JSON value.
pub open spec fn opt_ref(o: Option<&Json>) -> Option<JsonView> {
    match o {
        Some(v) => Some(v@),
        None => None,
    }
}

pub fn member_of<'a>(value: &'a Json, i: usize, name: &str) -> (r: Option<&'a Json>)
    ensures
        opt_ref(r) == member(value@, i as int, name@),
{
    match value {
        Json::Object(m) => m.get(name),
        Json::Array(items) => {
            proof {
                lemma_array_items(items@);
            }
            if i < items.len() {
                Some(&items[i])
            } else {
                None
            }
        },
        _ => None,
    }
}

pub fn is_structure(value: &Json, n: usize) -> (r: bool)
    ensures
        r == structure(value@, n as nat),
{
    match value {
        Json::Object(_) => true,
        Json::Array(items) => {
            proof {
                lemma_array_items(items@);
            }
            items.len() <= n
        },
        _ => false,
    }
}

/// A phase that was read; `None` where the value is no text.
pub open spec fn read_phase(o: Option<JsonView>) -> Option<PhaseView> {
    match o {
        None => Some(PhaseView::Stopped),
        Some(JsonView::Str(s)) => Some(phase_of(s)),
        _ => None,
    }
}

fn decode_phase(o: Option<&Json>) -> (r: Option<LifecyclePhase>)
    ensures
        match r {
            Some(p) => read_phase(opt_ref(o)) == Some(p@),
            None => read_phase(opt_ref(o)) is None,
        },
{
    match o {
        None => Some(LifecyclePhase::Stopped),
        Some(Json::Str(s)) => Some(LifecyclePhase::from_str(s.as_str())),
        _ => None,
    }
}

/// A number that was read; `None` where the value is not one of the range.
pub open spec fn read_count(o: Option<JsonView>, max: int) -> Option<int> {
    match o {
        None => Some(0),
        Some(JsonView::Int(n)) => if 0 <= n <= max {
            Some(n)
        } else {
            None
        },
        _ => None,
    }
}

fn decode_count(o: Option<&Json>, max: u64) -> (r: Option<u64>)
    ensures
        match r {
            Some(n) => read_count(opt_ref(o), max as int) == Some(n as int),
            None => read_count(opt_ref(o), max as int) is None,
        },
{
    match o {
        None => Some(0),
        Some(Json::Int(n)) => if 0 <= *n && *n <= max as i128 {
            Some(*n as u64)
        } else {
            None
        },
        _ => None,
    }
}

/// An optional text that was read; `None` where the value is something else.
pub open spec fn read_opt_text(o: Option<JsonView>) -> Option<Option<Seq<char>>> {
    match o {
        None => Some(None),
        Some(JsonView::Null) => Some(None),
        Some(JsonView::Str(s)) => Some(Some(s)),
        _ => None,
    }
}

fn decode_opt_text(o: Option<&Json>) -> (r: Option<Option<String>>)
    ensures
        match r {
            Some(t) => read_opt_text(opt_ref(o)) == Some(opt_text(t)),
            None => read_opt_text(opt_ref(o)) is None,
        },
{
    match o {
        None => Some(None),
        Some(Json::Null) => Some(None),
        Some(Json::Str(s)) => Some(Some(s.clone())),
        _ => None,
    }
}

/// The only member that a one-member structure must have: a text.
pub open spec fn read_only_text(v: JsonView, name: Seq<char>) -> Option<Seq<char>> {
    if structure(v, 1) {
        match member(v, 0, name) {
            Some(JsonView::Str(s)) => Some(s),
            _ => None,
        }
    } else {
        None
    }
}

fn decode_only_text(value: &Json, name: &str) -> (r: Option<String>)
    ensures
        opt_text(r) == read_only_text(value@, name@),
{
    if !is_structure(value, 1) {
        return None;
    }
    match member_of(value, 0, name) {
        Some(Json::Str(s)) => Some(s.clone()),
        _ => None,
    }
}

/// An operation that was read; `None` where the value is something else.
pub open spec fn read_operation(o: Option<JsonView>) -> Option<Option<OperationView>> {
    match o {
        None => Some(None),
        Some(JsonView::Null) => Some(None),
        Some(JsonView::Object(m)) => if m.dom() == set!["Rollback"@] {
            match read_only_text(m["Rollback"@], "recovery_point"@) {
                Some(recovery_point) => Some(Some(OperationView::Rollback { recovery_point })),
                None => None,
            }
        } else if m.dom() == set!["Other"@] {
            match read_only_text(m["Other"@], "kind"@) {
                Some(kind) => Some(Some(OperationView::Other { kind })),
                None => None,
            }
        } else {
            None
        },
        _ => None,
    }
}

fn decode_operation(o: Option<&Json>) -> (r: Option<Option<LifecycleOperation>>)
    ensures
        match r {
            Some(t) => read_operation(opt_ref(o)) == Some(opt_operation(t)),
            None => read_operation(opt_ref(o)) is None,
        },
{
    match o {
        None => Some(None),
        Some(Json::Null) => Some(None),
        Some(Json::Object(m)) => {
            let ghost dom = m@.dom();
            let n = m.len();
            if n != 1 {
                proof {
                    reveal_strlit("Rollback");
                    reveal_strlit("Other");
                    if dom == set!["Rollback"@] {
                        lemma_single(m, "Rollback"@);
                    }
                    if dom == set!["Other"@] {
                        lemma_single(m, "Other"@);
                    }
                }
                return None;
            }
            let name = m.name_at(0);
            let ghost key = m.pairs()[0].0;
            proof {
                assert(dom =~= set![key]) by {
                    assert forall|k: Seq<char>| dom.contains(k) implies k == key by {
                        assert(m@.contains_key(k));
                    }
                    assert(m@.contains_key(key));
                }
                reveal_strlit("Rollback");
                reveal_strlit("Other");
                assert("Rollback"@.len() == 8 && "Other"@.len() == 5);
                assert(set!["Rollback"@].contains("Rollback"@));
                assert(set!["Other"@].contains("Other"@));
                assert(set![key].contains(key));
            }
            if text_eq(name.as_str(), "Rollback") {
                return match decode_only_text(m.value_at(0), "recovery_point") {
                    Some(recovery_point) => Some(Some(LifecycleOperation::Rollback { recovery_point })),
                    None => None,
                };
            }
            if text_eq(name.as_str(), "Other") {
                assert(!(dom == set!["Rollback"@])) by {
                    if dom == set!["Rollback"@] {
                        assert(dom.contains("Other"@));
                    }
                }
                return match decode_only_text(m.value_at(0), "kind") {
                    Some(kind) => Some(Some(LifecycleOperation::Other { kind })),
                    None => None,
                };
            }
            assert(dom.contains(key));
            None
        },
        _ => None,
    }
}

proof fn lemma_single(m: &JsonMap, k: Seq<char>)
    requires
        m@.dom() == set![k],
        forall|i: int|
            0 <= i < m.pairs().len() ==> m@.contains_key((#[trigger] m.pairs()[i]).0) && m@[m.pairs()[i].0]
                == m.pairs()[i].1,
        forall|i: int, j: int|
            0 <= i < j < m.pairs().len() ==> (#[trigger] m.pairs()[i]).0 != (#[trigger] m.pairs()[j]).0,
        forall|q: Seq<char>| #[trigger]
            m@.contains_key(q) ==> exists|i: int| 0 <= i < m.pairs().len() && (#[trigger] m.pairs()[i]).0 == q,
    ensures
        m.pairs().len() == 1,
{
    assert(set![k].contains(k));
    assert(m@.contains_key(k));
    if m.pairs().len() > 1 {
        assert(m@.contains_key(m.pairs()[0].0));
        assert(m@.contains_key(m.pairs()[1].0));
        assert(set![k].contains(m.pairs()[0].0));
        assert(set![k].contains(m.pairs()[1].0));
    }
}

/// The lifecycle that `v` describes; `None` where it describes none.
pub open spec fn read_lifecycle(v: JsonView) -> Option<LifecycleView> {
    if !structure(v, 5) {
        None
    } else {
        match (
            read_phase(member(v, 0, "desired"@)),
            read_phase(member(v, 1, "observed"@)),
            read_count(member(v, 2, "generation"@), u64::MAX as int),
            read_operation(member(v, 3, "operation"@)),
            read_opt_text(member(v, 4, "failure"@)),
        ) {
            (Some(desired), Some(observed), Some(generation), Some(operation), Some(failure)) => Some(
                LifecycleView {
                    desired,
                    observed,
                    generation: StateGeneration(generation as u64),
                    operation,
                    failure,
                },
            ),
            _ => None,
        }
    }
}

pub fn decode_lifecycle(value: &Json) -> (r: Option<LifecycleState>)
    ensures
        match r {
            Some(l) => read_lifecycle(value@) == Some(l@),
            None => read_lifecycle(value@) is None,
        },
{
    if !is_structure(value, 5) {
        return None;
    }
    let desired = decode_phase(member_of(value, 0, "desired"));
    let observed = decode_phase(member_of(value, 1, "observed"));
    let generation = decode_count(member_of(value, 2, "generation"), u64::MAX);
    let operation = decode_operation(member_of(value, 3, "operation"));
    let failure = decode_opt_text(member_of(value, 4, "failure"));
    match (desired, observed, generation, operation, failure) {
        (Some(desired), Some(observed), Some(generation), Some(operation), Some(failure)) => Some(
            LifecycleState { desired, observed, generation: StateGeneration(generation), operation, failure },
        ),
        _ => None,
    }
}

/// A phase that came from a name: not an unknown one with a known name.
pub open spec fn named(p: PhaseView) -> bool {
    phase_of(phase_text(p)) == p
}

proof fn lemma_operation_survives(o: Option<OperationView>)
    ensures
        read_operation(Some(operation_json(o))) == Some(o),
{
    reveal_strlit("Rollback");
    reveal_strlit("Other");
    assert("Rollback"@.len() == 8 && "Other"@.len() == 5);
    match o {
        None => {},
        Some(OperationView::Rollback { recovery_point }) => {
            let m = operation_json(o)->Object_0;
            assert(m.dom() =~= set!["Rollback"@]);
        },
        Some(OperationView::Other { kind }) => {
            let m = operation_json(o)->Object_0;
            assert(m.dom() =~= set!["Other"@]);
            assert(set!["Rollback"@].contains("Rollback"@));
            assert(!m.dom().contains("Rollback"@));
        },
    }
}

/// A lifecycle that was written reads back as it was, generation, operation,
/// failure and unknown phases included.
pub proof fn law_lifecycle_survives(l: LifecycleView)
    requires
        named(l.desired),
        named(l.observed),
    ensures
        read_lifecycle(lifecycle_json(l)) == Some(l),
        lifecycle_json(l) is Object,
        lifecycle_json(l)->Object_0["desired"@] == JsonView::Str(phase_text(l.desired)),
        lifecycle_json(l)->Object_0["observed"@] == JsonView::Str(phase_text(l.observed)),
        lifecycle_json(l)->Object_0["generation"@] == JsonView::Int(l.generation.0 as int),
{
    reveal_strlit("desired");
    reveal_strlit("observed");
    reveal_strlit("generation");
    reveal_strlit("operation");
    reveal_strlit("failure");
    assert("desired"@.len() == 7 && "desired"@[0] == 'd');
    assert("observed"@.len() == 8);
    assert("generation"@.len() == 10);
    assert("operation"@.len() == 9);
    assert("failure"@.len() == 7 && "failure"@[0] == 'f');
    lemma_operation_survives(l.operation);
    let v = lifecycle_json(l);
    assert(member(v, 0, "desired"@) == Some(JsonView::Str(phase_text(l.desired))));
    assert(member(v, 1, "observed"@) == Some(JsonView::Str(phase_text(l.observed))));
    assert(member(v, 2, "generation"@) == Some(JsonView::Int(l.generation.0 as int)));
    assert(member(v, 3, "operation"@) == Some(operation_json(l.operation)));
    assert(member(v, 4, "failure"@) == Some(opt_text_json(l.failure)));
}

/// The JSON value of a policy.
pub open spec fn policy_json(p: PersistencePolicy) -> JsonView {
    match p {
        PersistencePolicy::Persistent => JsonView::Object(
            Map::empty().insert("type"@, JsonView::Str("persistent"@)),
        ),
        PersistencePolicy::Sticky { priority } => JsonView::Object(
            Map::empty().insert("type"@, JsonView::Str("sticky"@)).insert(
                "priority"@,
                JsonView::Int(priority as int),
            ),
        ),
        PersistencePolicy::Ephemeral => JsonView::Object(
            Map::empty().insert("type"@, JsonView::Str("ephemeral"@)),
        ),
    }
}

pub fn json_policy(p: PersistencePolicy) -> (r: Json)
    ensures
        r@ == policy_json(p),
{
    let mut m = JsonMap::new();
    match p {
        PersistencePolicy::Persistent => m.insert("type".to_owned(), Json::Str("persistent".to_owned())),
        PersistencePolicy::Sticky { priority } => {
            m.insert("type".to_owned(), Json::Str("sticky".to_owned()));
            m.insert("priority".to_owned(), Json::Int(priority as i128));
        },
        PersistencePolicy::Ephemeral => m.insert("type".to_owned(), Json::Str("ephemeral".to_owned())),
    }
    Json::Object(m)
}

/// The priority that a sticky policy names; five where it names none.
pub open spec fn read_priority(o: Option<JsonView>) -> Option<u8> {
    match o {
        None => Some(5),
        Some(JsonView::Int(n)) => if 0 <= n <= 255 {
            Some(n as u8)
        } else {
            None
        },
        _ => None,
    }
}

/// The policy that `v` describes. A sticky one may have no members but its
/// priority.
pub open spec fn read_policy(v: JsonView) -> Option<PersistencePolicy> {
    match member(v, 0, "type"@) {
        Some(JsonView::Str(kind)) => if kind == "persistent"@ {
            Some(PersistencePolicy::Persistent)
        } else if kind == "ephemeral"@ {
            Some(PersistencePolicy::Ephemeral)
        } else if kind == "sticky"@ && (v is Array ==> v->Array_0.len() <= 2) && (v is Object ==> forall|k: Seq<
            char,
        >| #[trigger]
            v->Object_0.contains_key(k) ==> k == "type"@ || k == "priority"@) {
            match read_priority(member(v, 1, "priority"@)) {
                Some(priority) => Some(PersistencePolicy::Sticky { priority }),
                None => None,
            }
        } else {
            None
        },
        _ => None,
    }
}

pub fn decode_policy(value: &Json) -> (r: Option<PersistencePolicy>)
    ensures
        r == read_policy(value@),
{
    let kind = match member_of(value, 0, "type") {
        Some(Json::Str(s)) => s.as_str(),
        _ => return None,
    };
    if text_eq(kind, "persistent") {
        return Some(PersistencePolicy::Persistent);
    }
    if text_eq(kind, "ephemeral") {
        return Some(PersistencePolicy::Ephemeral);
    }
    if !text_eq(kind, "sticky") {
        return None;
    }
    match value {
        Json::Object(m) => {
            let n = m.len();
            let mut i: usize = 0;
            while i < n
                invariant
                    i <= n == m.pairs().len(),
                    forall|j: int|
                        0 <= j < m.pairs().len() ==> m@.contains_key((#[trigger] m.pairs()[j]).0),
                    value@ == JsonView::Object(m@),
                    member(value@, 0, "type"@) == Some(JsonView::Str(kind@)),
                    kind@ == "sticky"@,
                    kind@ != "persistent"@,
                    kind@ != "ephemeral"@,
                    forall|j: int|
                        0 <= j < i ==> (#[trigger] m.pairs()[j]).0 == "type"@ || m.pairs()[j].0 == "priority"@,
                decreases n - i,
            {
                let name = m.name_at(i).as_str();
                if !text_eq(name, "type") && !text_eq(name, "priority") {
                    assert(m@.contains_key(m.pairs()[i as int].0));
                    return None;
                }
                i = i + 1;
            }
            assert forall|k: Seq<char>| #[trigger] m@.contains_key(k) implies k == "type"@ || k == "priority"@ by {
                let j = choose|j: int| 0 <= j < m.pairs().len() && (#[trigger] m.pairs()[j]).0 == k;
                assert(m.pairs()[j].0 == k);
            }
        },
        Json::Array(items) => {
            proof {
                lemma_array_items(items@);
            }
            if items.len() > 2 {
                return None;
            }
        },
        _ => {},
    }
    match member_of(value, 1, "priority") {
        None => Some(PersistencePolicy::Sticky { priority: 5 }),
        Some(Json::Int(n)) => if 0 <= *n && *n <= 255 {
            Some(PersistencePolicy::Sticky { priority: *n as u8 })
        } else {
            None
        },
        _ => None,
    }
}

/// A policy that was written reads back as it was.
pub proof fn law_policy_survives(p: PersistencePolicy)
    ensures
        read_policy(policy_json(p)) == Some(p),
{
    reveal_strlit("type");
    reveal_strlit("priority");
    reveal_strlit("persistent");
    reveal_strlit("ephemeral");
    reveal_strlit("sticky");
    assert("type"@.len() == 4 && "priority"@.len() == 8);
    assert("persistent"@.len() == 10 && "ephemeral"@.len() == 9 && "sticky"@.len() == 6);
}

} // verus!
