//! What a sandbox needs to be started again, without its secrets.
use super::codec::{
    is_structure, json_opt_text, member, member_of, opt_ref, opt_text_json, read_count, read_opt_text, structure,
};
use crate::floats::{is_nonzero, json_opt_number, nonzero, number_of, opt_number_json, value_number};
use crate::json::{
    array_view, clone_items, filled_at, items_eq, json_eq, lemma_array_items, members_at, Json, JsonMap, JsonView,
    ObjectView,
};
use crate::text::{opt_text, text_eq, texts};
use crate::textmap::{ascending, copy_texts, same_texts, without_keys, TextMap, TextSet};
use vstd::prelude::*;

verus! {

/// Safe, restartable runtime inputs. This deliberately has no secret values.
pub struct SafeRuntimeIdentity {
    pub environment: TextMap<String>,
    pub workdir: Option<String>,
    pub network_policy: Option<Json>,
    /// Complete non-secret network inputs retained for older persisted records.
    pub network: Json,
    pub tunnels: Json,
    pub mounts: Vec<Json>,
    /// The bits of a number of seconds.
    pub timeout_secs: Option<u64>,
    pub source: Option<String>,
    pub template: Option<String>,
    pub pool: Option<String>,
    pub secret_names: TextSet,
    pub available_secret_names: TextSet,
    pub version: u32,
    pub identity_complete: bool,
}

/// The value of a [`SafeRuntimeIdentity`].
#[verifier::ext_equal]
pub struct IdentityView {
    pub environment: Map<Seq<char>, Seq<char>>,
    pub workdir: Option<Seq<char>>,
    pub network_policy: Option<JsonView>,
    pub network: JsonView,
    pub tunnels: JsonView,
    pub mounts: Seq<JsonView>,
    pub timeout_secs: Option<u64>,
    pub source: Option<Seq<char>>,
    pub template: Option<Seq<char>>,
    pub pool: Option<Seq<char>>,
    pub secret_names: Set<Seq<char>>,
    pub available_secret_names: Set<Seq<char>>,
    pub version: u32,
    pub identity_complete: bool,
}

/// The value of an optional JSON value.
pub open spec fn opt_value(o: Option<Json>) -> Option<JsonView> {
    match o {
        Some(v) => Some(v@),
        None => None,
    }
}

impl View for SafeRuntimeIdentity {
    type V = IdentityView;

    open spec fn view(&self) -> IdentityView {
        IdentityView {
            environment: self.environment@,
            workdir: opt_text(self.workdir),
            network_policy: opt_value(self.network_policy),
            network: self.network@,
            tunnels: self.tunnels@,
            mounts: array_view(self.mounts@, self.mounts@.len()),
            timeout_secs: self.timeout_secs,
            source: opt_text(self.source),
            template: opt_text(self.template),
            pool: opt_text(self.pool),
            secret_names: self.secret_names@,
            available_secret_names: self.available_secret_names@,
            version: self.version,
            identity_complete: self.identity_complete,
        }
    }
}

/// The identity that says nothing.
pub open spec fn no_identity() -> IdentityView {
    IdentityView {
        environment: Map::empty(),
        workdir: None,
        network_policy: None,
        network: JsonView::Null,
        tunnels: JsonView::Null,
        mounts: Seq::empty(),
        timeout_secs: None,
        source: None,
        template: None,
        pool: None,
        secret_names: Set::empty(),
        available_secret_names: Set::empty(),
        version: 0,
        identity_complete: false,
    }
}

/// The identity without the values of the environment that are named as secret.
pub open spec fn redacted(id: IdentityView) -> IdentityView {
    IdentityView {
        environment: id.environment.restrict(Set::new(|k: Seq<char>| !id.secret_names.contains(k))),
        ..id
    }
}

fn clone_text(o: &Option<String>) -> (r: Option<String>)
    ensures
        opt_text(r) == opt_text(*o),
{
    match o {
        Some(s) => Some(s.clone()),
        None => None,
    }
}

fn same_text(a: &Option<String>, b: &Option<String>) -> (r: bool)
    ensures
        r == (opt_text(*a) == opt_text(*b)),
{
    match (a, b) {
        (Some(x), Some(y)) => text_eq(x.as_str(), y.as_str()),
        (None, None) => true,
        _ => false,
    }
}

fn same_value(a: &Option<Json>, b: &Option<Json>) -> (r: bool)
    ensures
        r == (opt_value(*a) == opt_value(*b)),
{
    match (a, b) {
        (Some(x), Some(y)) => json_eq(x, y),
        (None, None) => true,
        _ => false,
    }
}

impl Default for SafeRuntimeIdentity {
    fn default() -> (r: SafeRuntimeIdentity)
        ensures
            r@ == no_identity(),
    {
        let r = SafeRuntimeIdentity {
            environment: TextMap::new(),
            workdir: None,
            network_policy: None,
            network: Json::Null,
            tunnels: Json::Null,
            mounts: Vec::new(),
            timeout_secs: None,
            source: None,
            template: None,
            pool: None,
            secret_names: TextSet::new(),
            available_secret_names: TextSet::new(),
            version: 0,
            identity_complete: false,
        };
        assert(r@ =~= no_identity());
        r
    }
}

impl Clone for SafeRuntimeIdentity {
    fn clone(&self) -> (r: SafeRuntimeIdentity)
        ensures
            r@ == self@,
    {
        SafeRuntimeIdentity {
            environment: copy_texts(&self.environment),
            workdir: clone_text(&self.workdir),
            network_policy: match &self.network_policy {
                Some(v) => Some(v.clone()),
                None => None,
            },
            network: self.network.clone(),
            tunnels: self.tunnels.clone(),
            mounts: clone_items(&self.mounts),
            timeout_secs: self.timeout_secs,
            source: clone_text(&self.source),
            template: clone_text(&self.template),
            pool: clone_text(&self.pool),
            secret_names: self.secret_names.copy(),
            available_secret_names: self.available_secret_names.copy(),
            version: self.version,
            identity_complete: self.identity_complete,
        }
    }
}

impl SafeRuntimeIdentity {
    /// Remove values associated with a declared secret name before persistence.
    pub fn without_secret_values(self) -> (r: SafeRuntimeIdentity)
        ensures
            r@ == redacted(self@),
    {
        let environment = without_keys(&self.environment, &self.secret_names);
        SafeRuntimeIdentity {
            environment,
            workdir: self.workdir,
            network_policy: self.network_policy,
            network: self.network,
            tunnels: self.tunnels,
            mounts: self.mounts,
            timeout_secs: self.timeout_secs,
            source: self.source,
            template: self.template,
            pool: self.pool,
            secret_names: self.secret_names,
            available_secret_names: self.available_secret_names,
            version: self.version,
            identity_complete: self.identity_complete,
        }
    }

    /// Whether both identities say the same.
    pub fn same(&self, other: &SafeRuntimeIdentity) -> (r: bool)
        ensures
            r == (self@ == other@),
    {
        let timeouts = match (self.timeout_secs, other.timeout_secs) {
            (Some(a), Some(b)) => a == b,
            (None, None) => true,
            _ => false,
        };
        let r = timeouts && same_texts(&self.environment, &other.environment) && same_text(
            &self.workdir,
            &other.workdir,
        ) && same_value(&self.network_policy, &other.network_policy) && json_eq(&self.network, &other.network)
            && json_eq(&self.tunnels, &other.tunnels) && items_eq(&self.mounts, &other.mounts) && same_text(
            &self.source,
            &other.source,
        ) && same_text(&self.template, &other.template) && same_text(&self.pool, &other.pool)
            && self.secret_names.same(&other.secret_names) && self.available_secret_names.same(
            &other.available_secret_names,
        ) && self.version == other.version && self.identity_complete == other.identity_complete;
        r
    }
}

/// No value of a name that is declared secret remains, and doing it again changes
/// nothing.
pub proof fn law_no_secret_value_remains(id: IdentityView)
    ensures
        forall|name: Seq<char>|
            id.secret_names.contains(name) ==> !(#[trigger] redacted(id).environment.contains_key(name)),
        forall|name: Seq<char>|
            !id.secret_names.contains(name) ==> (#[trigger] redacted(id).environment.contains_key(name)
                == id.environment.contains_key(name)),
        redacted(redacted(id)) == redacted(id),
{
    assert(redacted(redacted(id)).environment =~= redacted(id).environment);
}

/// A value that counts as true: not null, not false, not zero, not empty.
pub open spec fn truthy(v: JsonView) -> bool {
    match v {
        JsonView::Null => false,
        JsonView::Bool(b) => b,
        JsonView::Int(n) => n != 0,
        JsonView::Float(bits) => nonzero(bits),
        JsonView::Str(s) => s.len() > 0,
        JsonView::Array(items) => items.len() > 0,
        JsonView::Object(m) => exists|k: Seq<char>| m.contains_key(k),
    }
}

pub fn json_truthy(value: &Json) -> (r: bool)
    ensures
        r == truthy(value@),
{
    match value {
        Json::Null => false,
        Json::Bool(b) => *b,
        Json::Int(n) => *n != 0,
        Json::Float(bits) => is_nonzero(*bits),
        Json::Str(s) => !s.as_str().is_empty(),
        Json::Array(items) => {
            proof {
                lemma_array_items(items@);
            }
            items.len() > 0
        },
        Json::Object(m) => {
            let n = m.len();
            proof {
                let view = value@->Object_0;
                assert(view == m@);
                if n > 0 {
                    assert(view.contains_key(m.pairs()[0].0));
                } else {
                    assert forall|k: Seq<char>| !view.contains_key(k) by {
                        if m@.contains_key(k) {
                            let i = choose|i: int| 0 <= i < m.pairs().len() && (#[trigger] m.pairs()[i]).0 == k;
                            assert(0 <= i < 0);
                        }
                    }
                }
            }
            n > 0
        },
    }
}

/// The texts that are not empty among the items of an array.
pub open spec fn names_in(o: Option<JsonView>) -> Set<Seq<char>> {
    match o {
        Some(JsonView::Array(items)) => Set::new(
            |n: Seq<char>| n.len() > 0 && items.contains(JsonView::Str(n)),
        ),
        _ => Set::empty(),
    }
}

pub fn string_set(value: Option<&Json>) -> (r: TextSet)
    ensures
        r@ == names_in(opt_ref(value)),
{
    let mut out = TextSet::new();
    if let Some(Json::Array(items)) = value {
        proof {
            lemma_array_items(items@);
        }
        let ghost views = array_view(items@, items@.len());
        let mut i: usize = 0;
        while i < items.len()
            invariant
                i <= items@.len(),
                views == Seq::new(items@.len(), |i: int| items@[i]@),
                forall|n: Seq<char>| #[trigger]
                    out@.contains(n) <==> n.len() > 0 && exists|j: int|
                        0 <= j < i && #[trigger] views[j] == JsonView::Str(n),
            decreases items@.len() - i,
        {
            let ghost before = out@;
            assert(views[i as int] == items@[i as int]@);
            if let Json::Str(s) = &items[i] {
                if !s.as_str().is_empty() {
                    out.insert(s.clone());
                }
            }
            assert forall|n: Seq<char>| #[trigger]
                out@.contains(n) <==> n.len() > 0 && exists|j: int|
                    0 <= j < i + 1 && #[trigger] views[j] == JsonView::Str(n) by {
                if out@.contains(n) {
                    if before.contains(n) {
                        let j = choose|j: int| 0 <= j < i && #[trigger] views[j] == JsonView::Str(n);
                        assert(views[j] == JsonView::Str(n));
                    } else {
                        assert(views[i as int] == JsonView::Str(n));
                    }
                }
                if n.len() > 0 && exists|j: int| 0 <= j < i + 1 && #[trigger] views[j] == JsonView::Str(n) {
                    let j = choose|j: int| 0 <= j < i + 1 && #[trigger] views[j] == JsonView::Str(n);
                    if j < i {
                        assert(before.contains(n));
                    }
                }
            }
            i = i + 1;
        }
        proof {
            assert forall|n: Seq<char>| out@.contains(n) == names_in(opt_ref(value)).contains(n) by {
                if out@.contains(n) {
                    let j = choose|j: int| 0 <= j < i && #[trigger] views[j] == JsonView::Str(n);
                    assert(views.contains(views[j]));
                }
                if n.len() > 0 && views.contains(JsonView::Str(n)) {
                    let j = choose|j: int| 0 <= j < views.len() && views[j] == JsonView::Str(n);
                    assert(views[j] == JsonView::Str(n));
                }
            }
            assert(out@ =~= names_in(opt_ref(value)));
        }
    } else {
        assert(out@ =~= names_in(opt_ref(value)));
    }
    out
}

/// The secrets that are available: those that are listed, and those that the
/// availability object marks.
pub open spec fn available_names(names: Option<JsonView>, availability: Option<JsonView>) -> Set<Seq<char>> {
    match availability {
        Some(JsonView::Object(m)) => names_in(names).union(
            Set::new(|n: Seq<char>| m.contains_key(n) && truthy(m[n])),
        ),
        _ => names_in(names),
    }
}

pub fn available_secret_names_of(names: Option<&Json>, availability: Option<&Json>) -> (r: TextSet)
    ensures
        r@ == available_names(opt_ref(names), opt_ref(availability)),
{
    let mut out = string_set(names);
    if let Some(Json::Object(m)) = availability {
        let ghost base = out@;
        let n = m.len();
        let mut i: usize = 0;
        while i < n
            invariant
                i <= n == m.pairs().len(),
                forall|j: int|
                    0 <= j < m.pairs().len() ==> m@.contains_key((#[trigger] m.pairs()[j]).0)
                        && m@[m.pairs()[j].0] == m.pairs()[j].1,
                forall|k: Seq<char>| #[trigger]
                    out@.contains(k) <==> base.contains(k) || exists|j: int|
                        0 <= j < i && (#[trigger] m.pairs()[j]).0 == k && truthy(m.pairs()[j].1),
            decreases n - i,
        {
            let ghost before = out@;
            let value = m.value_at(i);
            if json_truthy(value) {
                out.insert(m.name_at(i).clone());
            }
            assert forall|k: Seq<char>| #[trigger]
                out@.contains(k) <==> base.contains(k) || exists|j: int|
                    0 <= j < i + 1 && (#[trigger] m.pairs()[j]).0 == k && truthy(m.pairs()[j].1) by {
                if out@.contains(k) && !base.contains(k) {
                    if before.contains(k) {
                        let j = choose|j: int|
                            0 <= j < i && (#[trigger] m.pairs()[j]).0 == k && truthy(m.pairs()[j].1);
                        assert(m.pairs()[j].0 == k);
                    } else {
                        assert(m.pairs()[i as int].0 == k);
                    }
                }
                if exists|j: int| 0 <= j < i + 1 && (#[trigger] m.pairs()[j]).0 == k && truthy(m.pairs()[j].1) {
                    let j = choose|j: int|
                        0 <= j < i + 1 && (#[trigger] m.pairs()[j]).0 == k && truthy(m.pairs()[j].1);
                    if j < i {
                        assert(before.contains(k));
                    }
                }
            }
            i = i + 1;
        }
        proof {
            let goal = available_names(opt_ref(names), opt_ref(availability));
            assert forall|k: Seq<char>| out@.contains(k) == goal.contains(k) by {
                if m@.contains_key(k) && truthy(m@[k]) {
                    let j = choose|j: int| 0 <= j < m.pairs().len() && (#[trigger] m.pairs()[j]).0 == k;
                    assert(m.pairs()[j].0 == k && truthy(m.pairs()[j].1));
                }
            }
            assert(out@ =~= goal);
        }
    }
    out
}

/// The members of an object that are texts and that `drop` does not name.
pub open spec fn texts_in(m: ObjectView, drop: Set<Seq<char>>) -> Map<Seq<char>, Seq<char>> {
    Map::new(
        |k: Seq<char>| m.contains_key(k) && m[k] is Str && !drop.contains(k),
        |k: Seq<char>| m[k]->Str_0,
    )
}

pub fn collect_texts(m: &JsonMap, drop: &TextSet) -> (r: TextMap<String>)
    ensures
        r@ == texts_in(m@, drop@),
{
    let mut out: TextMap<String> = TextMap::new();
    let n = m.len();
    let mut i: usize = 0;
    let ghost full = texts_in(m@, drop@);
    let ghost done: Set<Seq<char>> = Set::empty();
    assert(out@ =~= full.restrict(done));
    while i < n
        invariant
            i <= n == m.pairs().len(),
            full == texts_in(m@, drop@),
            forall|j: int|
                0 <= j < m.pairs().len() ==> m@.contains_key((#[trigger] m.pairs()[j]).0) && m@[m.pairs()[j].0]
                    == m.pairs()[j].1,
            forall|k: Seq<char>| #[trigger]
                done.contains(k) <==> exists|j: int| 0 <= j < i && (#[trigger] m.pairs()[j]).0 == k,
            out@ == full.restrict(done),
        decreases n - i,
    {
        let ghost key = m.pairs()[i as int].0;
        let name = m.name_at(i);
        if let Json::Str(s) = m.value_at(i) {
            if !drop.contains(name.as_str()) {
                out.insert(name.clone(), s.clone());
            }
        }
        proof {
            let next = done.insert(key);
            assert forall|k: Seq<char>| #[trigger]
                next.contains(k) <==> exists|j: int| 0 <= j < i + 1 && (#[trigger] m.pairs()[j]).0 == k by {
                if next.contains(k) {
                    if k == key {
                        assert(m.pairs()[i as int].0 == k);
                    } else {
                        assert(done.contains(k));
                        let j = choose|j: int| 0 <= j < i && (#[trigger] m.pairs()[j]).0 == k;
                        assert(m.pairs()[j].0 == k);
                    }
                }
            }
            assert(out@ =~= full.restrict(next));
            done = next;
        }
        i = i + 1;
    }
    proof {
        assert forall|k: Seq<char>| m@.contains_key(k) implies done.contains(k) by {
            let j = choose|j: int| 0 <= j < m.pairs().len() && (#[trigger] m.pairs()[j]).0 == k;
            assert(m.pairs()[j].0 == k);
        }
        assert(out@ =~= full);
    }
    out
}

/// The tags of a sandbox.
pub open spec fn tags_in(m: ObjectView) -> Map<Seq<char>, Seq<char>> {
    match members_at(m, "tags"@) {
        Some(tags) => texts_in(tags, Set::empty()),
        None => Map::empty(),
    }
}

pub fn tags_of(meta: &JsonMap) -> (r: TextMap<String>)
    ensures
        r@ == tags_in(meta@),
{
    match meta.get("tags") {
        Some(Json::Object(tags)) => collect_texts(tags, &TextSet::new()),
        _ => TextMap::new(),
    }
}

/// What a sandbox was made from.
pub open spec fn source_in(m: ObjectView) -> Option<Seq<char>> {
    if filled_at(m, "image"@) is Some {
        filled_at(m, "image"@)
    } else if filled_at(m, "restored_from"@) is Some {
        filled_at(m, "restored_from"@)
    } else if filled_at(m, "forked_from"@) is Some {
        filled_at(m, "forked_from"@)
    } else {
        filled_at(m, "restored_snapshot"@)
    }
}

pub fn source_of(meta: &JsonMap) -> (r: Option<String>)
    ensures
        opt_text(r) == source_in(meta@),
{
    if let Some(s) = meta.filled_at("image") {
        return Some(s);
    }
    if let Some(s) = meta.filled_at("restored_from") {
        return Some(s);
    }
    if let Some(s) = meta.filled_at("forked_from") {
        return Some(s);
    }
    meta.filled_at("restored_snapshot")
}

/// The warm pool that a sandbox came from.
pub open spec fn pool_in(m: ObjectView) -> Option<Seq<char>> {
    if filled_at(m, "pool"@) is Some {
        filled_at(m, "pool"@)
    } else if filled_at(m, "pool_id"@) is Some {
        filled_at(m, "pool_id"@)
    } else {
        filled_at(m, "warm_pool"@)
    }
}

fn pool_of(meta: &JsonMap) -> (r: Option<String>)
    ensures
        opt_text(r) == pool_in(meta@),
{
    if let Some(s) = meta.filled_at("pool") {
        return Some(s);
    }
    if let Some(s) = meta.filled_at("pool_id") {
        return Some(s);
    }
    meta.filled_at("warm_pool")
}

/// The mounts of a sandbox: those of volumes, then those of object storage.
pub open spec fn mounts_in(m: ObjectView) -> Seq<JsonView> {
    (if m.contains_key("volumes"@) {
        seq![m["volumes"@]]
    } else {
        Seq::empty()
    }) + (if m.contains_key("s3_mounts"@) {
        seq![m["s3_mounts"@]]
    } else {
        Seq::empty()
    })
}

fn mounts_of(meta: &JsonMap) -> (r: Vec<Json>)
    ensures
        array_view(r@, r@.len()) == mounts_in(meta@),
{
    let mut out: Vec<Json> = Vec::new();
    if let Some(v) = meta.get("volumes") {
        out.push(v.clone());
    }
    if let Some(v) = meta.get("s3_mounts") {
        out.push(v.clone());
    }
    proof {
        lemma_array_items(out@);
        assert(array_view(out@, out@.len()) =~= mounts_in(meta@));
    }
    out
}

/// A map of texts that was read; `None` where the value is something else.
pub open spec fn read_text_map(o: Option<JsonView>) -> Option<Map<Seq<char>, Seq<char>>> {
    match o {
        None => Some(Map::empty()),
        Some(JsonView::Object(m)) => if forall|k: Seq<char>| #[trigger] m.contains_key(k) ==> m[k] is Str {
            Some(texts_in(m, Set::empty()))
        } else {
            None
        },
        _ => None,
    }
}

fn decode_text_map(o: Option<&Json>) -> (r: Option<TextMap<String>>)
    ensures
        match r {
            Some(t) => read_text_map(opt_ref(o)) == Some(t@),
            None => read_text_map(opt_ref(o)) is None,
        },
{
    match o {
        None => Some(TextMap::new()),
        Some(Json::Object(m)) => {
            let n = m.len();
            let mut i: usize = 0;
            while i < n
                invariant
                    i <= n == m.pairs().len(),
                    forall|j: int|
                        0 <= j < m.pairs().len() ==> m@.contains_key((#[trigger] m.pairs()[j]).0)
                            && m@[m.pairs()[j].0] == m.pairs()[j].1,
                    forall|j: int| 0 <= j < i ==> (#[trigger] m.pairs()[j]).1 is Str,
                    opt_ref(o) == Some(JsonView::Object(m@)),
                decreases n - i,
            {
                let v = m.value_at(i);
                if v.as_str().is_none() {
                    assert(m@.contains_key(m.pairs()[i as int].0));
                    assert(!(m@[m.pairs()[i as int].0] is Str));
                    return None;
                }
                i = i + 1;
            }
            assert forall|k: Seq<char>| #[trigger] m@.contains_key(k) implies m@[k] is Str by {
                let j = choose|j: int| 0 <= j < m.pairs().len() && (#[trigger] m.pairs()[j]).0 == k;
                assert(m.pairs()[j].1 is Str);
            }
            Some(collect_texts(m, &TextSet::new()))
        },
        _ => None,
    }
}

/// A set of texts that was read; `None` where the value is something else.
pub open spec fn read_text_set(o: Option<JsonView>) -> Option<Set<Seq<char>>> {
    match o {
        None => Some(Set::empty()),
        Some(JsonView::Array(items)) => if forall|i: int| 0 <= i < items.len() ==> #[trigger] items[i] is Str {
            Some(Set::new(|n: Seq<char>| items.contains(JsonView::Str(n))))
        } else {
            None
        },
        _ => None,
    }
}

fn decode_text_set(o: Option<&Json>) -> (r: Option<TextSet>)
    ensures
        match r {
            Some(t) => read_text_set(opt_ref(o)) == Some(t@),
            None => read_text_set(opt_ref(o)) is None,
        },
{
    match o {
        None => Some(TextSet::new()),
        Some(Json::Array(items)) => {
            proof {
                lemma_array_items(items@);
            }
            let ghost views = array_view(items@, items@.len());
            let mut out = TextSet::new();
            let mut i: usize = 0;
            while i < items.len()
                invariant
                    i <= items@.len(),
                    opt_ref(o) == Some(JsonView::Array(views)),
                    views == Seq::new(items@.len(), |i: int| items@[i]@),
                    forall|j: int| 0 <= j < i ==> #[trigger] views[j] is Str,
                    forall|n: Seq<char>| #[trigger]
                        out@.contains(n) <==> exists|j: int|
                            0 <= j < i && #[trigger] views[j] == JsonView::Str(n),
                decreases items@.len() - i,
            {
                let ghost before = out@;
                assert(views[i as int] == items@[i as int]@);
                match &items[i] {
                    Json::Str(s) => {
                        out.insert(s.clone());
                        assert forall|n: Seq<char>| #[trigger]
                            out@.contains(n) <==> exists|j: int|
                                0 <= j < i + 1 && #[trigger] views[j] == JsonView::Str(n) by {
                            if out@.contains(n) {
                                if before.contains(n) {
                                    let j = choose|j: int| 0 <= j < i && #[trigger] views[j] == JsonView::Str(n);
                                    assert(views[j] == JsonView::Str(n));
                                } else {
                                    assert(views[i as int] == JsonView::Str(n));
                                }
                            }
                            if exists|j: int| 0 <= j < i + 1 && #[trigger] views[j] == JsonView::Str(n) {
                                let j = choose|j: int| 0 <= j < i + 1 && #[trigger] views[j] == JsonView::Str(n);
                                if j < i {
                                    assert(before.contains(n));
                                }
                            }
                        }
                    },
                    _ => {
                        assert(!(views[i as int] is Str));
                        return None;
                    },
                }
                i = i + 1;
            }
            proof {
                let goal = Set::new(|n: Seq<char>| views.contains(JsonView::Str(n)));
                assert forall|n: Seq<char>| out@.contains(n) == goal.contains(n) by {
                    if out@.contains(n) {
                        let j = choose|j: int| 0 <= j < i && #[trigger] views[j] == JsonView::Str(n);
                        assert(views.contains(views[j]));
                    }
                    if views.contains(JsonView::Str(n)) {
                        let j = choose|j: int| 0 <= j < views.len() && views[j] == JsonView::Str(n);
                        assert(views[j] == JsonView::Str(n));
                    }
                }
                assert(out@ =~= goal);
            }
            Some(out)
        },
        _ => None,
    }
}

/// An optional number that was read; `None` where the value is something else.
pub open spec fn read_opt_number(o: Option<JsonView>) -> Option<Option<u64>> {
    match o {
        None => Some(None),
        Some(JsonView::Null) => Some(None),
        Some(v) => match number_of(v) {
            Some(bits) => Some(Some(bits)),
            None => None,
        },
    }
}

/// A truth value that was read, false where it is missing; `None` where the
/// value is something else.
pub open spec fn read_flag(o: Option<JsonView>) -> Option<bool> {
    match o {
        None => Some(false),
        Some(JsonView::Bool(b)) => Some(b),
        _ => None,
    }
}

/// A list that was read; `None` where the value is something else.
pub open spec fn read_list(o: Option<JsonView>) -> Option<Seq<JsonView>> {
    match o {
        None => Some(Seq::empty()),
        Some(JsonView::Array(items)) => Some(items),
        _ => None,
    }
}

/// The environment of an identity, under its present or its older name.
pub open spec fn environment_member(v: JsonView) -> Option<JsonView> {
    match v {
        JsonView::Object(m) => if m.contains_key("environment"@) {
            Some(m["environment"@])
        } else if m.contains_key("env"@) {
            Some(m["env"@])
        } else {
            None
        },
        _ => member(v, 0, "environment"@),
    }
}

/// The identity that `v` describes; `None` where it describes none.
pub open spec fn read_identity(v: JsonView) -> Option<IdentityView> {
    let twice = v is Object && v->Object_0.contains_key("environment"@) && v->Object_0.contains_key("env"@);
    if !structure(v, 14) || twice {
        None
    } else {
        match (
            read_text_map(environment_member(v)),
            read_opt_text(member(v, 1, "workdir"@)),
            read_list(member(v, 5, "mounts"@)),
            read_opt_number(member(v, 6, "timeout_secs"@)),
            read_opt_text(member(v, 7, "source"@)),
            read_opt_text(member(v, 8, "template"@)),
            read_opt_text(member(v, 9, "pool"@)),
            read_text_set(member(v, 10, "secret_names"@)),
            read_text_set(member(v, 11, "available_secret_names"@)),
            read_count(member(v, 12, "version"@), u32::MAX as int),
            read_flag(member(v, 13, "identity_complete"@)),
        ) {
            (
                Some(environment),
                Some(workdir),
                Some(mounts),
                Some(timeout_secs),
                Some(source),
                Some(template),
                Some(pool),
                Some(secret_names),
                Some(available_secret_names),
                Some(version),
                Some(identity_complete),
            ) => Some(
                IdentityView {
                    environment,
                    workdir,
                    network_policy: match member(v, 2, "network_policy"@) {
                        Some(JsonView::Null) => None,
                        o => o,
                    },
                    network: match member(v, 3, "network"@) {
                        Some(x) => x,
                        None => JsonView::Null,
                    },
                    tunnels: match member(v, 4, "tunnels"@) {
                        Some(x) => x,
                        None => JsonView::Null,
                    },
                    mounts,
                    timeout_secs,
                    source,
                    template,
                    pool,
                    secret_names,
                    available_secret_names,
                    version: version as u32,
                    identity_complete,
                },
            ),
            _ => None,
        }
    }
}

fn decode_opt_text(o: Option<&Json>) -> (r: Option<Option<String>>)
    ensures
        match r {
            Some(t) => read_opt_text(opt_ref(o)) == Some(opt_text(t)),
            None => read_opt_text(opt_ref(o)) is None,
        },
{
    match o {
        None => Some(None),
        Some(Json::Null) => Some(None),
        Some(Json::Str(s)) => Some(Some(s.clone())),
        _ => None,
    }
}

fn decode_value(o: Option<&Json>) -> (r: Json)
    ensures
        r@ == match opt_ref(o) {
            Some(x) => x,
            None => JsonView::Null,
        },
{
    match o {
        Some(v) => v.clone(),
        None => Json::Null,
    }
}

pub fn decode_identity(value: &Json) -> (r: Option<SafeRuntimeIdentity>)
    ensures
        match r {
            Some(id) => read_identity(value@) == Some(id@),
            None => read_identity(value@) is None,
        },
{
    if !is_structure(value, 14) {
        return None;
    }
    let environment_value = match value {
        Json::Object(m) => {
            if m.contains_key("environment") && m.contains_key("env") {
                return None;
            }
            match m.get("environment") {
                Some(v) => Some(v),
                None => m.get("env"),
            }
        },
        _ => member_of(value, 0, "environment"),
    };
    let environment = match decode_text_map(environment_value) {
        Some(x) => x,
        None => return None,
    };
    let workdir = match decode_opt_text(member_of(value, 1, "workdir")) {
        Some(x) => x,
        None => return None,
    };
    let network_policy = match member_of(value, 2, "network_policy") {
        Some(Json::Null) => None,
        Some(v) => Some(v.clone()),
        None => None,
    };
    let network = decode_value(member_of(value, 3, "network"));
    let tunnels = decode_value(member_of(value, 4, "tunnels"));
    let mounts = match member_of(value, 5, "mounts") {
        None => Vec::new(),
        Some(Json::Array(items)) => clone_items(items),
        _ => return None,
    };
    let timeout_secs = match member_of(value, 6, "timeout_secs") {
        None => None,
        Some(Json::Null) => None,
        Some(v) => match value_number(v) {
            Some(bits) => Some(bits),
            None => return None,
        },
    };
    let source = match decode_opt_text(member_of(value, 7, "source")) {
        Some(x) => x,
        None => return None,
    };
    let template = match decode_opt_text(member_of(value, 8, "template")) {
        Some(x) => x,
        None => return None,
    };
    let pool = match decode_opt_text(member_of(value, 9, "pool")) {
        Some(x) => x,
        None => return None,
    };
    let secret_names = match decode_text_set(member_of(value, 10, "secret_names")) {
        Some(x) => x,
        None => return None,
    };
    let available_secret_names = match decode_text_set(member_of(value, 11, "available_secret_names")) {
        Some(x) => x,
        None => return None,
    };
    let version: u32 = match member_of(value, 12, "version") {
        None => 0,
        Some(Json::Int(n)) => if 0 <= *n && *n <= u32::MAX as i128 {
            *n as u32
        } else {
            return None;
        },
        _ => return None,
    };
    let identity_complete = match member_of(value, 13, "identity_complete") {
        None => false,
        Some(Json::Bool(b)) => *b,
        _ => return None,
    };
    proof {
        if member(value@, 5, "mounts"@) is None {
            lemma_array_items(mounts@);
            assert(array_view(mounts@, mounts@.len()) =~= Seq::empty());
        }
    }
    Some(
        SafeRuntimeIdentity {
            environment,
            workdir,
            network_policy,
            network,
            tunnels,
            mounts,
            timeout_secs,
            source,
            template,
            pool,
            secret_names,
            available_secret_names,
            version,
            identity_complete,
        },
    )
}

/// The identity that the metadata of a sandbox describes: the recorded one, with
/// gaps filled from the rest, or one made from the rest. Without secrets.
pub open spec fn identity_in(m: ObjectView, source: Option<Seq<char>>, timeout: Option<u64>) -> IdentityView {
    let recorded = if m.contains_key("runtime_identity"@) {
        read_identity(m["runtime_identity"@])
    } else {
        None
    };
    match recorded {
        Some(id) => redacted(
            IdentityView {
                timeout_secs: if id.timeout_secs is None {
                    timeout
                } else {
                    id.timeout_secs
                },
                source: if id.source is None {
                    source
                } else {
                    id.source
                },
                workdir: if id.workdir is None {
                    filled_at(m, "workdir"@)
                } else {
                    id.workdir
                },
                mounts: if id.mounts.len() == 0 {
                    mounts_in(m)
                } else {
                    id.mounts
                },
                ..id
            },
        ),
        None => {
            let secret_names = names_in(
                if m.contains_key("secret_names"@) {
                    Some(m["secret_names"@])
                } else {
                    None
                },
            );
            let network = members_at(m, "network"@);
            IdentityView {
                environment: match members_at(m, "env"@) {
                    Some(env) => texts_in(env, secret_names),
                    None => Map::empty(),
                },
                workdir: filled_at(m, "workdir"@),
                network_policy: match network {
                    Some(n) => if n.contains_key("policy"@) {
                        Some(n["policy"@])
                    } else {
                        None
                    },
                    None => None,
                },
                network: match network {
                    Some(n) => JsonView::Object(n),
                    None => JsonView::Null,
                },
                tunnels: match network {
                    Some(n) => if n.contains_key("tunnels"@) {
                        n["tunnels"@]
                    } else {
                        JsonView::Null
                    },
                    None => JsonView::Null,
                },
                mounts: mounts_in(m),
                timeout_secs: timeout,
                source,
                template: filled_at(m, "template"@),
                pool: pool_in(m),
                secret_names,
                available_secret_names: available_names(
                    if m.contains_key("available_secret_names"@) {
                        Some(m["available_secret_names"@])
                    } else {
                        None
                    },
                    if m.contains_key("secret_availability"@) {
                        Some(m["secret_availability"@])
                    } else {
                        None
                    },
                ),
                version: 1,
                identity_complete: false,
            }
        },
    }
}

pub fn runtime_identity_of(meta: &JsonMap, source: Option<String>, timeout_secs: Option<u64>) -> (r:
    SafeRuntimeIdentity)
    ensures
        r@ == identity_in(meta@, opt_text(source), timeout_secs),
{
    if let Some(value) = meta.get("runtime_identity") {
        if let Some(identity) = decode_identity(value) {
            let mut id = identity;
            if id.timeout_secs.is_none() {
                id.timeout_secs = timeout_secs;
            }
            if id.source.is_none() {
                id.source = source;
            }
            if id.workdir.is_none() {
                id.workdir = meta.filled_at("workdir");
            }
            proof {
                lemma_array_items(id.mounts@);
            }
            if id.mounts.len() == 0 {
                id.mounts = mounts_of(meta);
            }
            return id.without_secret_values();
        }
    }
    let secret_names = string_set(meta.get("secret_names"));
    let available_secret_names = available_secret_names_of(
        meta.get("available_secret_names"),
        meta.get("secret_availability"),
    );
    let environment = match meta.get("env") {
        Some(Json::Object(env)) => collect_texts(env, &secret_names),
        _ => TextMap::new(),
    };
    let network = match meta.get("network") {
        Some(Json::Object(n)) => Some(n),
        _ => None,
    };
    let network_policy = match network {
        Some(n) => match n.get("policy") {
            Some(p) => Some(p.clone()),
            None => None,
        },
        None => None,
    };
    let tunnels = match network {
        Some(n) => match n.get("tunnels") {
            Some(t) => t.clone(),
            None => Json::Null,
        },
        None => Json::Null,
    };
    let whole = match network {
        Some(n) => Json::Object(n.clone()),
        None => Json::Null,
    };
    SafeRuntimeIdentity {
        environment,
        workdir: meta.filled_at("workdir"),
        network_policy,
        network: whole,
        tunnels,
        mounts: mounts_of(meta),
        timeout_secs,
        source,
        template: meta.filled_at("template"),
        pool: pool_of(meta),
        secret_names,
        available_secret_names,
        version: 1,
        identity_complete: false,
    }
}

/// Whatever the metadata holds, the identity that it describes has no value of a
/// name that it declares secret.
pub proof fn law_identity_has_no_secret_values(m: ObjectView, source: Option<Seq<char>>, timeout: Option<u64>)
    ensures
        redacted(identity_in(m, source, timeout)) == identity_in(m, source, timeout),
{
    let id = identity_in(m, source, timeout);
    assert(redacted(id).environment =~= id.environment);
}

/// A map of texts as a JSON object.
pub open spec fn texts_json(t: Map<Seq<char>, Seq<char>>) -> JsonView {
    JsonView::Object(Map::new(|k: Seq<char>| t.contains_key(k), |k: Seq<char>| JsonView::Str(t[k])))
}

pub fn json_texts(map: &TextMap<String>) -> (r: Json)
    ensures
        r@ == texts_json(map@),
{
    let mut out = JsonMap::new();
    let n = map.len();
    let mut i: usize = 0;
    let ghost full = Map::new(|k: Seq<char>| map@.contains_key(k), |k: Seq<char>| JsonView::Str(map@[k]));
    let ghost done: Set<Seq<char>> = Set::empty();
    assert(out@ =~= full.restrict(done));
    while i < n
        invariant
            i <= n == map.keys().len(),
            full == Map::new(|k: Seq<char>| map@.contains_key(k), |k: Seq<char>| JsonView::Str(map@[k])),
            forall|k: Seq<char>| map@.contains_key(k) <==> map.keys().contains(k),
            forall|k: Seq<char>| #[trigger]
                done.contains(k) <==> exists|j: int| 0 <= j < i && #[trigger] map.keys()[j] == k,
            out@ == full.restrict(done),
        decreases n - i,
    {
        let ghost key = map.keys()[i as int];
        let value = map.value_at(i);
        out.insert(map.key_at(i).clone(), Json::Str(value.clone()));
        proof {
            let next = done.insert(key);
            assert forall|k: Seq<char>| #[trigger]
                next.contains(k) <==> exists|j: int| 0 <= j < i + 1 && #[trigger] map.keys()[j] == k by {
                if next.contains(k) {
                    if k == key {
                        assert(map.keys()[i as int] == k);
                    } else {
                        assert(done.contains(k));
                        let j = choose|j: int| 0 <= j < i && #[trigger] map.keys()[j] == k;
                        assert(map.keys()[j] == k);
                    }
                }
            }
            assert(out@ =~= full.restrict(next));
            done = next;
        }
        i = i + 1;
    }
    proof {
        assert forall|k: Seq<char>| map@.contains_key(k) implies done.contains(k) by {
            assert(map.keys().contains(k));
            let j = choose|j: int| 0 <= j < map.keys().len() && map.keys()[j] == k;
            assert(map.keys()[j] == k);
        }
        assert(out@ =~= full);
    }
    Json::Object(out)
}

/// Whether `v` is the JSON value of a set of texts: its members, in order.
pub open spec fn is_set_json(v: JsonView, names: Set<Seq<char>>) -> bool {
    exists|list: Seq<Seq<char>>|
        #[trigger] ascending(list) && (forall|n: Seq<char>| list.contains(n) <==> names.contains(n)) && v
            == JsonView::Array(Seq::new(list.len(), |i: int| JsonView::Str(list[i])))
}

fn json_set(set: &TextSet) -> (r: Json)
    ensures
        is_set_json(r@, set@),
{
    let list = set.list();
    let ghost names = texts(list@);
    let mut out: Vec<Json> = Vec::new();
    let mut i: usize = 0;
    while i < list.len()
        invariant
            i <= list@.len(),
            names == texts(list@),
            out@.len() == i,
            forall|j: int| 0 <= j < i ==> (#[trigger] out@[j])@ == JsonView::Str(names[j]),
        decreases list@.len() - i,
    {
        out.push(Json::Str(list[i].clone()));
        i = i + 1;
    }
    proof {
        lemma_array_items(out@);
        assert(array_view(out@, out@.len()) =~= Seq::new(names.len(), |i: int| JsonView::Str(names[i])));
        assert(ascending(names));
    }
    Json::Array(out)
}

/// The value of an optional JSON value, null where there is none.
pub open spec fn or_null(o: Option<JsonView>) -> JsonView {
    match o {
        Some(v) => v,
        None => JsonView::Null,
    }
}

/// The names of the members that an identity is written with.
pub open spec fn identity_members() -> Set<Seq<char>> {
    set![
        "environment"@,
        "workdir"@,
        "network_policy"@,
        "network"@,
        "tunnels"@,
        "mounts"@,
        "timeout_secs"@,
        "source"@,
        "template"@,
        "pool"@,
        "secret_names"@,
        "available_secret_names"@,
        "version"@,
        "identity_complete"@,
    ]
}

/// Whether `v` is how the identity `id` is written: with these members and no
/// others.
pub open spec fn is_identity_json(v: JsonView, id: IdentityView) -> bool {
    match v {
        JsonView::Object(m) => {
            &&& m.contains_key("environment"@) && m["environment"@] == texts_json(id.environment)
            &&& m.contains_key("workdir"@) && m["workdir"@] == opt_text_json(id.workdir)
            &&& m.contains_key("network_policy"@) && m["network_policy"@] == or_null(id.network_policy)
            &&& m.contains_key("network"@) && m["network"@] == id.network
            &&& m.contains_key("tunnels"@) && m["tunnels"@] == id.tunnels
            &&& m.contains_key("mounts"@) && m["mounts"@] == JsonView::Array(id.mounts)
            &&& m.contains_key("timeout_secs"@) && m["timeout_secs"@] == opt_number_json(id.timeout_secs)
            &&& m.contains_key("source"@) && m["source"@] == opt_text_json(id.source)
            &&& m.contains_key("template"@) && m["template"@] == opt_text_json(id.template)
            &&& m.contains_key("pool"@) && m["pool"@] == opt_text_json(id.pool)
            &&& m.contains_key("secret_names"@) && is_set_json(m["secret_names"@], id.secret_names)
            &&& m.contains_key("available_secret_names"@) && is_set_json(
                m["available_secret_names"@],
                id.available_secret_names,
            )
            &&& m.contains_key("version"@) && m["version"@] == JsonView::Int(id.version as int)
            &&& m.contains_key("identity_complete"@) && m["identity_complete"@] == JsonView::Bool(
                id.identity_complete,
            )
            &&& m.dom() == identity_members()
        },
        _ => false,
    }
}

proof fn lemma_identity_names()
    ensures
        ({
            let names = seq![
                "environment"@,
                "workdir"@,
                "network_policy"@,
                "network"@,
                "tunnels"@,
                "mounts"@,
                "timeout_secs"@,
                "source"@,
                "template"@,
                "pool"@,
                "secret_names"@,
                "available_secret_names"@,
                "version"@,
                "identity_complete"@,
                "env"@,
            ];
            forall|i: int, j: int| 0 <= i < j < 15 ==> #[trigger] names[i] != #[trigger] names[j]
        }),
{
    reveal_strlit("environment");
    reveal_strlit("workdir");
    reveal_strlit("network_policy");
    reveal_strlit("network");
    reveal_strlit("tunnels");
    reveal_strlit("mounts");
    reveal_strlit("timeout_secs");
    reveal_strlit("source");
    reveal_strlit("template");
    reveal_strlit("pool");
    reveal_strlit("secret_names");
    reveal_strlit("available_secret_names");
    reveal_strlit("version");
    reveal_strlit("identity_complete");
    reveal_strlit("env");
    assert("environment"@.len() == 11);
    assert("workdir"@.len() == 7 && "workdir"@[0] == 'w');
    assert("network_policy"@.len() == 14);
    assert("network"@.len() == 7 && "network"@[0] == 'n');
    assert("tunnels"@.len() == 7 && "tunnels"@[0] == 't');
    assert("mounts"@.len() == 6 && "mounts"@[0] == 'm');
    assert("timeout_secs"@.len() == 12 && "timeout_secs"@[0] == 't');
    assert("source"@.len() == 6 && "source"@[0] == 's');
    assert("template"@.len() == 8);
    assert("pool"@.len() == 4);
    assert("secret_names"@.len() == 12 && "secret_names"@[0] == 's');
    assert("available_secret_names"@.len() == 22);
    assert("version"@.len() == 7 && "version"@[0] == 'v');
    assert("identity_complete"@.len() == 17);
    assert("env"@.len() == 3);
}

proof fn lemma_env_is_no_member()
    ensures
        !identity_members().contains("env"@),
{
    lemma_identity_names();
    let names = seq![
        "environment"@,
        "workdir"@,
        "network_policy"@,
        "network"@,
        "tunnels"@,
        "mounts"@,
        "timeout_secs"@,
        "source"@,
        "template"@,
        "pool"@,
        "secret_names"@,
        "available_secret_names"@,
        "version"@,
        "identity_complete"@,
        "env"@,
    ];
    assert(names[0] != names[14] && names[1] != names[14] && names[2] != names[14] && names[3] != names[14]);
    assert(names[4] != names[14] && names[5] != names[14] && names[6] != names[14] && names[7] != names[14]);
    assert(names[8] != names[14] && names[9] != names[14] && names[10] != names[14] && names[11] != names[14]);
    assert(names[12] != names[14] && names[13] != names[14]);
}

/// How the identity is written.
pub fn json_identity(id: &SafeRuntimeIdentity) -> (r: Json)
    ensures
        is_identity_json(r@, id@),
{
    let mut m = JsonMap::new();
    let secret_names = json_set(&id.secret_names);
    let available = json_set(&id.available_secret_names);
    m.insert("environment".to_owned(), json_texts(&id.environment));
    m.insert("workdir".to_owned(), json_opt_text(&id.workdir));
    m.insert(
        "network_policy".to_owned(),
        match &id.network_policy {
            Some(v) => v.clone(),
            None => Json::Null,
        },
    );
    m.insert("network".to_owned(), id.network.clone());
    m.insert("tunnels".to_owned(), id.tunnels.clone());
    m.insert("mounts".to_owned(), Json::Array(clone_items(&id.mounts)));
    m.insert("timeout_secs".to_owned(), json_opt_number(id.timeout_secs));
    m.insert("source".to_owned(), json_opt_text(&id.source));
    m.insert("template".to_owned(), json_opt_text(&id.template));
    m.insert("pool".to_owned(), json_opt_text(&id.pool));
    m.insert("secret_names".to_owned(), secret_names);
    m.insert("available_secret_names".to_owned(), available);
    m.insert("version".to_owned(), Json::Int(id.version as i128));
    m.insert("identity_complete".to_owned(), Json::Bool(id.identity_complete));
    proof {
        lemma_identity_names();
        let names = seq![
            "environment"@,
            "workdir"@,
            "network_policy"@,
            "network"@,
            "tunnels"@,
            "mounts"@,
            "timeout_secs"@,
            "source"@,
            "template"@,
            "pool"@,
            "secret_names"@,
            "available_secret_names"@,
            "version"@,
            "identity_complete"@,
            "env"@,
        ];
        assert(names[0] == "environment"@ && names[1] == "workdir"@ && names[2] == "network_policy"@);
        assert(names[3] == "network"@ && names[4] == "tunnels"@ && names[5] == "mounts"@);
        assert(names[6] == "timeout_secs"@ && names[7] == "source"@ && names[8] == "template"@);
        assert(names[9] == "pool"@ && names[10] == "secret_names"@ && names[11] == "available_secret_names"@);
        assert(names[12] == "version"@ && names[13] == "identity_complete"@ && names[14] == "env"@);
        assert(m@.dom() =~= identity_members());
    }
    Json::Object(m)
}

/// An identity that was written reads back as it was: every input that a restart
/// needs survives, provided that its numbers are finite and no absent policy is
/// recorded as a null one.
pub proof fn law_identity_survives(v: JsonView, id: IdentityView)
    requires
        is_identity_json(v, id),
        id.timeout_secs is Some ==> crate::floats::finite(id.timeout_secs->0),
        id.network_policy != Some(JsonView::Null),
    ensures
        read_identity(v) == Some(id),
{
    let m = v->Object_0;
    lemma_env_is_no_member();
    let env = m["environment"@]->Object_0;
    assert(texts_in(env, Set::empty()) =~= id.environment);
    assert(read_text_map(environment_member(v)) == Some(id.environment));
    lemma_set_survives(m["secret_names"@], id.secret_names);
    lemma_set_survives(m["available_secret_names"@], id.available_secret_names);
    assert(member(v, 1, "workdir"@) == Some(opt_text_json(id.workdir)));
    assert(member(v, 5, "mounts"@) == Some(JsonView::Array(id.mounts)));
    assert(member(v, 6, "timeout_secs"@) == Some(opt_number_json(id.timeout_secs)));
    assert(member(v, 7, "source"@) == Some(opt_text_json(id.source)));
    assert(member(v, 8, "template"@) == Some(opt_text_json(id.template)));
    assert(member(v, 9, "pool"@) == Some(opt_text_json(id.pool)));
    assert(read_opt_text(member(v, 1, "workdir"@)) == Some(id.workdir));
    assert(read_opt_number(member(v, 6, "timeout_secs"@)) == Some(id.timeout_secs));
    assert(read_opt_text(member(v, 7, "source"@)) == Some(id.source));
    assert(read_opt_text(member(v, 8, "template"@)) == Some(id.template));
    assert(read_opt_text(member(v, 9, "pool"@)) == Some(id.pool));
    assert(read_count(member(v, 12, "version"@), u32::MAX as int) == Some(id.version as int));
    assert(read_flag(member(v, 13, "identity_complete"@)) == Some(id.identity_complete));
}

proof fn lemma_set_survives(v: JsonView, names: Set<Seq<char>>)
    requires
        is_set_json(v, names),
    ensures
        read_text_set(Some(v)) == Some(names),
{
    let list = choose|list: Seq<Seq<char>>|
        #[trigger] ascending(list) && (forall|n: Seq<char>| list.contains(n) <==> names.contains(n)) && v
            == JsonView::Array(Seq::new(list.len(), |i: int| JsonView::Str(list[i])));
    let items = v->Array_0;
    let read = Set::new(|n: Seq<char>| items.contains(JsonView::Str(n)));
    assert forall|n: Seq<char>| read.contains(n) == names.contains(n) by {
        if items.contains(JsonView::Str(n)) {
            let i = choose|i: int| 0 <= i < items.len() && items[i] == JsonView::Str(n);
            assert(list[i] == n);
            assert(list.contains(n));
        }
        if names.contains(n) {
            assert(list.contains(n));
            let i = choose|i: int| 0 <= i < list.len() && list[i] == n;
            assert(items[i] == JsonView::Str(n));
        }
    }
    assert(read =~= names);
}

/// Where a sandbox came from is told by its image, or else by what it was restored or
/// forked from.
pub proof fn law_source_is_told(m: ObjectView, image: Seq<char>, restored: Seq<char>, forked: Seq<char>)
    requires
        image.len() > 0,
        restored.len() > 0,
        forked.len() > 0,
    ensures
        m.contains_key("image"@) && m["image"@] == JsonView::Str(image) ==> source_in(m) == Some(image),
        !m.contains_key("image"@) && m.contains_key("restored_from"@) && m["restored_from"@] == JsonView::Str(restored)
            ==> source_in(m) == Some(restored),
        !m.contains_key("image"@) && !m.contains_key("restored_from"@) && m.contains_key("forked_from"@)
            && m["forked_from"@] == JsonView::Str(forked) ==> source_in(m) == Some(forked),
        !m.contains_key("image"@) && !m.contains_key("restored_from"@) && !m.contains_key("forked_from"@)
            && !m.contains_key("restored_snapshot"@) ==> source_in(m) is None,
{
}

/// A secret counts as available where it is listed, or marked as available.
pub proof fn law_available_secrets_are_listed(list: Seq<JsonView>, marks: ObjectView, name: Seq<char>)
    requires
        name.len() > 0,
    ensures
        list.contains(JsonView::Str(name)) ==> available_names(Some(JsonView::Array(list)), None).contains(name),
        marks.contains_key(name) && marks[name] == JsonView::Bool(true) ==> available_names(
            None,
            Some(JsonView::Object(marks)),
        ).contains(name),
        marks.contains_key(name) && marks[name] == JsonView::Bool(false) && !list.contains(JsonView::Str(name))
            ==> !available_names(Some(JsonView::Array(list)), Some(JsonView::Object(marks))).contains(name),
        !available_names(None, None).contains(name),
{
}

/// A record without a written identity has the environment that it tells, without the
/// values of its secrets, and counts as incomplete.
pub proof fn law_old_record_has_an_identity(
    m: ObjectView,
    env: ObjectView,
    source: Option<Seq<char>>,
    timeout: Option<u64>,
    name: Seq<char>,
    value: Seq<char>,
)
    requires
        !m.contains_key("runtime_identity"@),
        m.contains_key("env"@),
        m["env"@] == JsonView::Object(env),
        env.contains_key(name),
        env[name] == JsonView::Str(value),
    ensures
        ({
            let id = identity_in(m, source, timeout);
            &&& !m.contains_key("secret_names"@) ==> id.environment.contains_key(name) && id.environment[name] == value
            &&& id.secret_names.contains(name) ==> !id.environment.contains_key(name)
            &&& !id.identity_complete
            &&& id.source == source
            &&& id.timeout_secs == timeout
            &&& id.version == 1
        }),
{
}

} // verus!
