//! What the mesh reads from and writes to the JSON parameters of a sandbox.
use crate::error::{failure, EngineError, ErrorCode, MeshError};
use crate::json::{
    array_view, bool_at, bool_of, filled_at, i64_of, lemma_array_items, members_of, text_at, text_of, text_or,
     u64_of, Json, JsonMap, JsonView, ObjectView,
};
use crate::text::{opt_text, text_eq, texts};
use crate::textmap::{ascending, TextMap};
use vstd::arithmetic::power2::{lemma2_to64, lemma_pow2_strictly_increases, pow2};
use vstd::bits::{lemma_u64_shr_is_div, lemma_u64_shl_is_mul};
use vstd::prelude::*;

verus! {

/// A negative number becomes zero.
pub fn i64_to_u64(value: i64) -> (r: u64)
    ensures
        r == if value < 0 { 0int } else { value as int },
{
    if value < 0 {
        0
    } else {
        value as u64
    }
}

/// A number beyond the signed range becomes its largest number.
pub fn u64_to_i64(value: u64) -> (r: i64)
    ensures
        r == if value > i64::MAX { i64::MAX as int } else { value as int },
{
    if value > i64::MAX as u64 {
        i64::MAX
    } else {
        value as i64
    }
}

/// What `i64_to_u64` makes of `value`.
pub open spec fn unsigned(value: i64) -> u64 {
    if value < 0 {
        0
    } else {
        value as u64
    }
}

/// What `u64_to_i64` makes of `value`.
pub open spec fn signed(value: u64) -> i64 {
    if value > i64::MAX {
        i64::MAX
    } else {
        value as i64
    }
}

/// Epochs within the range that both sides share survive the way out and back.
pub proof fn law_epoch_round_trip(value: u64)
    requires
        value <= i64::MAX,
    ensures
        unsigned(signed(value)) == value,
{
}

/// A member that announces pending work: an object or `true`.
pub open spec fn marks_pending(p: ObjectView, k: Seq<char>) -> bool {
    p.contains_key(k) && (p[k] is Object || p[k] == JsonView::Bool(true))
}

/// Whether a migration claim was recorded but not committed.
pub open spec fn migration_pending(p: ObjectView) -> bool {
    p.contains_key("_mesh_migration_token"@) && bool_at(p, "_mesh_migration_committed"@) != Some(true)
}

/// Whether the parameters hold a restore, rollback or migration that was staged
/// and not committed.
pub open spec fn is_staging(p: ObjectView) -> bool {
    ||| migration_pending(p)
    ||| marks_pending(p, "_mesh_restore_pending"@)
    ||| marks_pending(p, "_mesh_rollback_pending"@)
    ||| marks_pending(p, "restore_pending"@)
    ||| marks_pending(p, "rollback_pending"@)
    ||| text_at(p, "lifecycle_operation"@) == Some("restore"@)
    ||| text_at(p, "lifecycle_operation"@) == Some("rollback"@)
}

fn pending_member(params: &JsonMap, key: &str) -> (r: bool)
    ensures
        r == marks_pending(params@, key@),
{
    match params.get(key) {
        Some(Json::Object(_)) => true,
        Some(Json::Bool(b)) => *b,
        _ => false,
    }
}

/// Durable restore and rollback intents must not become serving owners merely
/// because the process restarted between their staging and commit boundaries.
pub fn record_is_staging(params: &JsonMap) -> (r: bool)
    ensures
        r == is_staging(params@),
{
    let migration = params.contains_key("_mesh_migration_token") && !matches!(
        params.bool_at("_mesh_migration_committed"),
        Some(true)
    );
    let lifecycle = pending_member(params, "_mesh_restore_pending") || pending_member(
        params,
        "_mesh_rollback_pending",
    ) || pending_member(params, "restore_pending") || pending_member(params, "rollback_pending");
    let operation = match params.text_at("lifecycle_operation") {
        Some(op) => text_eq(op.as_str(), "restore") || text_eq(op.as_str(), "rollback"),
        None => false,
    };
    migration || lifecycle || operation
}

/// Whether the status that a migration target reports proves that it never took
/// the sandbox.
pub open spec fn target_absent(status: Option<ObjectView>) -> bool {
    match status {
        Some(s) => bool_at(s, "committed"@) != Some(true) && text_at(s, "state"@) == Some("absent"@),
        None => false,
    }
}

/// A source may take its sandbox back only where the target answered that it
/// does not have it; no answer (`None`) and every other answer are ambiguous.
pub fn source_migration_abort_allowed(status: Option<&JsonMap>) -> (r: bool)
    ensures
        r == target_absent(
            match status {
                Some(s) => Some(s@),
                None => None,
            },
        ),
{
    match status {
        Some(s) => !matches!(s.bool_at("committed"), Some(true)) && match s.text_at("state") {
            Some(state) => text_eq(state.as_str(), "absent"),
            None => false,
        },
        None => false,
    }
}

/// The whole part of the non-negative number with the IEEE 754 bits `bits`, at
/// most the largest 64-bit number; nothing for a negative number or a NaN.
pub open spec fn float_whole(bits: u64) -> Option<u64> {
    let negative = bits >= 0x8000_0000_0000_0000;
    let magnitude = bits as int % 0x8000_0000_0000_0000;
    let exponent = magnitude / 0x10_0000_0000_0000;
    let fraction = magnitude % 0x10_0000_0000_0000;
    if negative && magnitude != 0 {
        None
    } else if exponent == 0x7ff && fraction != 0 {
        None
    } else if exponent < 1023 {
        Some(0)
    } else if exponent >= 1087 {
        Some(u64::MAX)
    } else if exponent >= 1075 {
        Some(((0x10_0000_0000_0000 + fraction) * pow2((exponent - 1075) as nat)) as u64)
    } else {
        Some(((0x10_0000_0000_0000 + fraction) / pow2((1075 - exponent) as nat) as int) as u64)
    }
}

fn float_to_whole(bits: u64) -> (r: Option<u64>)
    ensures
        r == float_whole(bits),
{
    let negative = bits >= 0x8000_0000_0000_0000;
    let magnitude: u64 = bits % 0x8000_0000_0000_0000;
    let exponent: u64 = magnitude / 0x10_0000_0000_0000;
    let fraction: u64 = magnitude % 0x10_0000_0000_0000;
    if negative && magnitude != 0 {
        return None;
    }
    if exponent == 0x7ff && fraction != 0 {
        return None;
    }
    if exponent < 1023 {
        return Some(0);
    }
    if exponent >= 1087 {
        return Some(u64::MAX);
    }
    let significand: u64 = 0x10_0000_0000_0000 + fraction;
    if exponent >= 1075 {
        let shift: u64 = exponent - 1075;
        proof {
            lemma2_to64();
            if shift < 11 {
                lemma_pow2_strictly_increases(shift as nat, 11);
            }
            assert(significand * pow2(shift as nat) <= 0x1f_ffff_ffff_ffff * 2048) by (nonlinear_arith)
                requires
                    significand <= 0x1f_ffff_ffff_ffff,
                    pow2(shift as nat) <= 2048,
            ;
            lemma_u64_shl_is_mul(significand, shift);
        }
        Some(significand << shift)
    } else {
        let shift: u64 = 1075 - exponent;
        proof {
            lemma_u64_shr_is_div(significand, shift);
        }
        Some(significand >> shift)
    }
}

/// The non-negative whole number that a JSON number stands for.
pub open spec fn whole_of(v: JsonView) -> Option<u64> {
    match v {
        JsonView::Int(n) => u64_of(v),
        JsonView::Float(bits) => float_whole(bits),
        _ => None,
    }
}

/// The non-negative whole number that a JSON number stands for; a fraction is
/// cut off.
pub fn value_u64(value: &Json) -> (r: Option<u64>)
    ensures
        r == whole_of(value@),
{
    match value {
        Json::Float(bits) => float_to_whole(*bits),
        _ => value.as_u64(),
    }
}

/// The volume that a mount description names, and whether it is mounted
/// read-only. A bare name is a writable mount.
pub open spec fn volume_mode(v: JsonView) -> Option<(Seq<char>, bool)> {
    match v {
        JsonView::Str(name) => Some((name, false)),
        JsonView::Object(m) => match text_at(m, "name"@) {
            Some(name) => Some(
                (
                    name,
                    (if m.contains_key("read_only"@) {
                        bool_of(m["read_only"@])
                    } else {
                        bool_at(m, "ro"@)
                    }) == Some(true),
                ),
            ),
            None => None,
        },
        _ => None,
    }
}

pub fn volume_name_and_mode(value: &Json) -> (r: Option<(String, bool)>)
    ensures
        match r {
            Some((name, read_only)) => volume_mode(value@) == Some((name@, read_only)),
            None => volume_mode(value@) is None,
        },
{
    match value {
        Json::Str(name) => Some((name.clone(), false)),
        Json::Object(object) => match object.text_at("name") {
            Some(name) => {
                let flag = match object.get("read_only") {
                    Some(v) => v.as_bool(),
                    None => object.bool_at("ro"),
                };
                Some((name, matches!(flag, Some(true))))
            },
            None => None,
        },
        _ => None,
    }
}

/// Whether the mounts under `volumes` use the volume `name` writably.
pub open spec fn uses_writably(p: ObjectView, name: Seq<char>) -> bool {
    p.contains_key("volumes"@) && match p["volumes"@] {
        JsonView::Object(m) => exists|k: Seq<char>|
            #![trigger m.contains_key(k)]
            m.contains_key(k) && volume_mode(m[k]) == Some((name, false)),
        JsonView::Array(items) => exists|i: int|
            0 <= i < items.len() && volume_mode(#[trigger] items[i]) == Some((name, false)),
        _ => false,
    }
}

/// The volumes that the parameters mount writably: each once, in order.
pub fn writable_volumes(params: &JsonMap) -> (r: Vec<String>)
    ensures
        ascending(texts(r@)),
        forall|name: Seq<char>| texts(r@).contains(name) <==> uses_writably(params@, name),
{
    let mut found: TextMap<bool> = TextMap::new();
    match params.get("volumes") {
        Some(Json::Object(object)) => {
            let ghost m = object@;
            let n = object.len();
            let mut i: usize = 0;
            while i < n
                invariant
                    i <= n == object.pairs().len(),
                    m == object@,
                    forall|name: Seq<char>|
                        found@.contains_key(name) <==> exists|j: int|
                            0 <= j < i && volume_mode((#[trigger] object.pairs()[j]).1) == Some((name, false)),
                decreases n - i,
            {
                let ghost before = found@;
                let value = object.value_at(i);
                assert(value@ == object.pairs()[i as int].1);
                match volume_name_and_mode(value) {
                    Some((name, read_only)) => if !read_only {
                        found.insert(name, true);
                    },
                    None => {},
                }
                assert forall|name: Seq<char>|
                    found@.contains_key(name) <==> exists|j: int|
                        0 <= j < i + 1 && volume_mode((#[trigger] object.pairs()[j]).1) == Some((name, false)) by {
                    if found@.contains_key(name) {
                        if before.contains_key(name) {
                            let j = choose|j: int|
                                0 <= j < i && volume_mode((#[trigger] object.pairs()[j]).1) == Some((name, false));
                            assert(volume_mode(object.pairs()[j].1) == Some((name, false)));
                        } else {
                            assert(volume_mode(object.pairs()[i as int].1) == Some((name, false)));
                        }
                    }
                }
                i = i + 1;
            }
            proof {
                assert forall|name: Seq<char>| found@.contains_key(name) <==> uses_writably(params@, name) by {
                    if found@.contains_key(name) {
                        let j = choose|j: int|
                            0 <= j < n && volume_mode((#[trigger] object.pairs()[j]).1) == Some((name, false));
                        assert(m.contains_key(object.pairs()[j].0));
                    }
                    if uses_writably(params@, name) {
                        let k = choose|k: Seq<char>|
                            #![trigger m.contains_key(k)]
                            m.contains_key(k) && volume_mode(m[k]) == Some((name, false));
                        let j = choose|j: int| 0 <= j < n && (#[trigger] object.pairs()[j]).0 == k;
                        assert(volume_mode(object.pairs()[j].1) == Some((name, false)));
                    }
                }
            }
        },
        Some(Json::Array(items)) => {
            proof {
                lemma_array_items(items@);
            }
            let ghost views = array_view(items@, items@.len());
            let mut i: usize = 0;
            while i < items.len()
                invariant
                    i <= items@.len(),
                    views == Seq::new(items@.len(), |i: int| items@[i]@),
                    forall|name: Seq<char>|
                        found@.contains_key(name) <==> exists|j: int|
                            0 <= j < i && volume_mode(#[trigger] views[j]) == Some((name, false)),
                decreases items@.len() - i,
            {
                let ghost before = found@;
                assert(views[i as int] == items@[i as int]@);
                match volume_name_and_mode(&items[i]) {
                    Some((name, read_only)) => if !read_only {
                        found.insert(name, true);
                    },
                    None => {},
                }
                assert forall|name: Seq<char>|
                    found@.contains_key(name) <==> exists|j: int|
                        0 <= j < i + 1 && volume_mode(#[trigger] views[j]) == Some((name, false)) by {
                    if found@.contains_key(name) {
                        if before.contains_key(name) {
                            let j = choose|j: int|
                                0 <= j < i && volume_mode(#[trigger] views[j]) == Some((name, false));
                            assert(volume_mode(views[j]) == Some((name, false)));
                        } else {
                            assert(volume_mode(views[i as int]) == Some((name, false)));
                        }
                    }
                }
                i = i + 1;
            }
        },
        _ => {},
    }
    found.key_list()
}

/// What a recorded volume lease says: volume, holder and epoch.
pub open spec fn lease_of(v: JsonView) -> Option<(Seq<char>, Seq<char>, u64)> {
    match v {
        JsonView::Object(m) => {
            let holder = if m.contains_key("holder"@) {
                text_of(m["holder"@])
            } else {
                text_at(m, "holder_node"@)
            };
            let epoch = if m.contains_key("epoch"@) {
                whole_of(m["epoch"@])
            } else {
                None
            };
            match (text_at(m, "volume"@), holder, epoch) {
                (Some(v), Some(h), Some(e)) => Some((v, h, e)),
                _ => None,
            }
        },
        _ => None,
    }
}

pub fn lease_tuple(value: &Json) -> (r: Option<(String, String, u64)>)
    ensures
        match r {
            Some((volume, holder, epoch)) => lease_of(value@) == Some((volume@, holder@, epoch)),
            None => lease_of(value@) is None,
        },
{
    let object = match value.as_object() {
        Some(o) => o,
        None => return None,
    };
    let volume = match object.text_at("volume") {
        Some(v) => v,
        None => return None,
    };
    let holder = match object.get("holder") {
        Some(v) => match v.as_str() {
            Some(s) => s.clone(),
            None => return None,
        },
        None => match object.text_at("holder_node") {
            Some(s) => s,
            None => return None,
        },
    };
    match object.get("epoch") {
        Some(v) => match value_u64(v) {
            Some(epoch) => Some((volume, holder, epoch)),
            None => None,
        },
        None => None,
    }
}

/// The names of create parameters, the only ones that outlive a sandbox.
pub open spec fn create_param(k: Seq<char>) -> bool {
    ||| k == "image"@
    ||| k == "template"@
    ||| k == "dockerfile"@
    ||| k == "context"@
    ||| k == "name"@
    ||| k == "cpus"@
    ||| k == "memory"@
    ||| k == "disk_mb"@
    ||| k == "timeout"@
    ||| k == "timeout_secs"@
    ||| k == "idle_timeout_secs"@
    ||| k == "activity_threshold_bytes"@
    ||| k == "persistence"@
    ||| k == "workdir"@
    ||| k == "env"@
    ||| k == "credentials"@
    ||| k == "s3_mounts"@
    ||| k == "owner_tenant"@
    ||| k == "encryption_key_id"@
    ||| k == "secrets"@
    ||| k == "volumes"@
    ||| k == "tags"@
    ||| k == "fs_dir"@
    ||| k == "block_network"@
    ||| k == "ports"@
    ||| k == "egress_allow"@
    ||| k == "egress_allow_domains"@
    ||| k == "inbound_cidr_allowlist"@
    ||| k == "readiness_probe"@
    ||| k == "pool_size"@
    ||| k == "remote_page_url"@
    ||| k == "remote_page_token"@
    ||| k == "remote_page_digest"@
    ||| k == "ha"@
    ||| k == "arch"@
    ||| k == "idempotency_key"@
    ||| k == "command"@
}

fn is_create_param(k: &str) -> (r: bool)
    ensures
        r == create_param(k@),
{
    text_eq(k, "image")
        || text_eq(k, "template")
        || text_eq(k, "dockerfile")
        || text_eq(k, "context")
        || text_eq(k, "name")
        || text_eq(k, "cpus")
        || text_eq(k, "memory")
        || text_eq(k, "disk_mb")
        || text_eq(k, "timeout")
        || text_eq(k, "timeout_secs")
        || text_eq(k, "idle_timeout_secs")
        || text_eq(k, "activity_threshold_bytes")
        || text_eq(k, "persistence")
        || text_eq(k, "workdir")
        || text_eq(k, "env")
        || text_eq(k, "credentials")
        || text_eq(k, "s3_mounts")
        || text_eq(k, "owner_tenant")
        || text_eq(k, "encryption_key_id")
        || text_eq(k, "secrets")
        || text_eq(k, "volumes")
        || text_eq(k, "tags")
        || text_eq(k, "fs_dir")
        || text_eq(k, "block_network")
        || text_eq(k, "ports")
        || text_eq(k, "egress_allow")
        || text_eq(k, "egress_allow_domains")
        || text_eq(k, "inbound_cidr_allowlist")
        || text_eq(k, "readiness_probe")
        || text_eq(k, "pool_size")
        || text_eq(k, "remote_page_url")
        || text_eq(k, "remote_page_token")
        || text_eq(k, "remote_page_digest")
        || text_eq(k, "ha")
        || text_eq(k, "arch")
        || text_eq(k, "idempotency_key")
        || text_eq(k, "command")
}

/// The parameters that a sandbox can be created from; everything else that a
/// view holds is dropped.
pub fn sanitize_sandbox_params(params: &JsonMap) -> (r: JsonMap)
    ensures
        r@ == params@.restrict(Set::new(|k: Seq<char>| create_param(k))),
{
    let n = params.len();
    let mut keep: Vec<bool> = Vec::new();
    let mut i: usize = 0;
    while i < n
        invariant
            i <= n == params.pairs().len(),
            keep@.len() == i,
            forall|j: int| 0 <= j < i ==> keep@[j] == create_param((#[trigger] params.pairs()[j]).0),
        decreases n - i,
    {
        keep.push(is_create_param(params.name_at(i).as_str()));
        i = i + 1;
    }
    params.kept(&keep, Ghost(|k: Seq<char>| create_param(k)))
}

/// A sandbox as an engine view shows it.
pub struct SandboxRecord {
    pub name: String,
    pub detail: JsonMap,
}

/// The name that a view gives its sandbox: `name`, or else `id`.
pub open spec fn view_name(m: ObjectView) -> Seq<char> {
    if m.contains_key("name"@) {
        text_or(m, "name"@, Seq::empty())
    } else {
        text_or(m, "id"@, Seq::empty())
    }
}

/// The sandbox that `value` shows; a view must be an object.
pub fn sandbox_record(value: &Json) -> (r: Result<SandboxRecord, EngineError>)
    ensures
        match r {
            Ok(record) => members_of(value@) == Some(record.detail@) && record.name@ == view_name(
                record.detail@,
            ),
            Err(e) => members_of(value@) is None && e@ == failure(
                ErrorCode::Engine,
                "sandbox view must be an object"@,
            ),
        },
{
    match value.as_object() {
        Some(object) => {
            let name = if object.contains_key("name") {
                object.text_or("name", "")
            } else {
                object.text_or("id", "")
            };
            proof {
                reveal_strlit("");
                assert(""@ =~= Seq::<char>::empty());
            }
            Ok(SandboxRecord { name, detail: object.clone() })
        },
        None => Err(EngineError::engine("sandbox view must be an object".to_owned())),
    }
}

/// The members that mark a restore or rollback as under way.
pub open spec fn transition_mark(k: Seq<char>) -> bool {
    ||| k == "_mesh_restore_pending"@
    ||| k == "_mesh_rollback_pending"@
    ||| k == "restore_pending"@
    ||| k == "rollback_pending"@
    ||| k == "_mesh_lifecycle_operation"@
}

/// The part of a view that becomes durable when its sandbox was restored.
pub open spec fn durable_part(m: ObjectView) -> ObjectView {
    m.restrict(Set::new(|k: Seq<char>| create_param(k) && k != "secrets"@ && !transition_mark(k)))
}

/// Removes the members that mark a restore or rollback as under way.
pub fn clear_transition_marks(params: &mut JsonMap)
    ensures
        final(params)@ == old(params)@.restrict(Set::new(|k: Seq<char>| !transition_mark(k))),
{
    params.remove("_mesh_restore_pending");
    params.remove("_mesh_rollback_pending");
    params.remove("restore_pending");
    params.remove("rollback_pending");
    params.remove("_mesh_lifecycle_operation");
    assert(params@ =~= old(params)@.restrict(Set::new(|k: Seq<char>| !transition_mark(k))));
}

/// Select the durable portion of a freshly restored record: its create
/// parameters without secrets, its availability class and its restart policy.
/// Views also contain status and transient process fields, so they must not be
/// written back verbatim to ownership storage.
pub fn restored_metadata(record: &SandboxRecord) -> (r: Result<(JsonMap, String, String), EngineError>)
    ensures
        match r {
            Ok((params, ha, restart_policy)) => record.name@.len() > 0 && params@ == durable_part(
                record.detail@,
            ) && ha@ == text_or(record.detail@, "ha"@, "off"@) && restart_policy@ == text_or(
                record.detail@,
                "restart_policy"@,
                "none"@,
            ),
            Err(e) => record.name@.len() == 0 && e@ == failure(
                ErrorCode::Engine,
                "restored sandbox view has no name"@,
            ),
        },
{
    if record.name.as_str().is_empty() {
        return Err(EngineError::engine("restored sandbox view has no name".to_owned()));
    }
    let ha = record.detail.text_or("ha", "off");
    let restart_policy = record.detail.text_or("restart_policy", "none");
    let mut params = sanitize_sandbox_params(&record.detail);
    params.remove("secrets");
    clear_transition_marks(&mut params);
    assert(params@ =~= durable_part(record.detail@));
    Ok((params, ha, restart_policy))
}

/// What was restored is not pending, and holds no secrets: committing it makes
/// the sandbox serve.
pub proof fn law_restored_is_serving(m: ObjectView)
    ensures
        !is_staging(durable_part(m)),
        !durable_part(m).contains_key("secrets"@),
{
    lemma_create_param_shape();
    reveal_strlit("_mesh_migration_token");
    reveal_strlit("lifecycle_operation");
    assert("_mesh_migration_token"@[0] == '_');
    assert("lifecycle_operation"@[0] == 'l');
}

proof fn lemma_create_param_shape()
    ensures
        forall|k: Seq<char>| create_param(k) ==> k.len() > 0 && k[0] != '_' && k[0] != 'l',
{
    reveal_strlit("image");
    reveal_strlit("template");
    reveal_strlit("dockerfile");
    reveal_strlit("context");
    reveal_strlit("name");
    reveal_strlit("cpus");
    reveal_strlit("memory");
    reveal_strlit("disk_mb");
    reveal_strlit("timeout");
    reveal_strlit("timeout_secs");
    reveal_strlit("idle_timeout_secs");
    reveal_strlit("activity_threshold_bytes");
    reveal_strlit("persistence");
    reveal_strlit("workdir");
    reveal_strlit("env");
    reveal_strlit("credentials");
    reveal_strlit("s3_mounts");
    reveal_strlit("owner_tenant");
    reveal_strlit("encryption_key_id");
    reveal_strlit("secrets");
    reveal_strlit("volumes");
    reveal_strlit("tags");
    reveal_strlit("fs_dir");
    reveal_strlit("block_network");
    reveal_strlit("ports");
    reveal_strlit("egress_allow");
    reveal_strlit("egress_allow_domains");
    reveal_strlit("inbound_cidr_allowlist");
    reveal_strlit("readiness_probe");
    reveal_strlit("pool_size");
    reveal_strlit("remote_page_url");
    reveal_strlit("remote_page_token");
    reveal_strlit("remote_page_digest");
    reveal_strlit("ha");
    reveal_strlit("arch");
    reveal_strlit("idempotency_key");
    reveal_strlit("command");
    assert("image"@[0] == 'i');
    assert("template"@[0] == 't');
    assert("dockerfile"@[0] == 'd');
    assert("context"@[0] == 'c');
    assert("name"@[0] == 'n');
    assert("cpus"@[0] == 'c');
    assert("memory"@[0] == 'm');
    assert("disk_mb"@[0] == 'd');
    assert("timeout"@[0] == 't');
    assert("timeout_secs"@[0] == 't');
    assert("idle_timeout_secs"@[0] == 'i');
    assert("activity_threshold_bytes"@[0] == 'a');
    assert("persistence"@[0] == 'p');
    assert("workdir"@[0] == 'w');
    assert("env"@[0] == 'e');
    assert("credentials"@[0] == 'c');
    assert("s3_mounts"@[0] == 's');
    assert("owner_tenant"@[0] == 'o');
    assert("encryption_key_id"@[0] == 'e');
    assert("secrets"@[0] == 's');
    assert("volumes"@[0] == 'v');
    assert("tags"@[0] == 't');
    assert("fs_dir"@[0] == 'f');
    assert("block_network"@[0] == 'b');
    assert("ports"@[0] == 'p');
    assert("egress_allow"@[0] == 'e');
    assert("egress_allow_domains"@[0] == 'e');
    assert("inbound_cidr_allowlist"@[0] == 'i');
    assert("readiness_probe"@[0] == 'r');
    assert("pool_size"@[0] == 'p');
    assert("remote_page_url"@[0] == 'r');
    assert("remote_page_token"@[0] == 'r');
    assert("remote_page_digest"@[0] == 'r');
    assert("ha"@[0] == 'h');
    assert("arch"@[0] == 'a');
    assert("idempotency_key"@[0] == 'i');
    assert("command"@[0] == 'c');
}

/// The members of `value`, which must be an object.
pub fn params_object(value: &Json) -> (r: Result<JsonMap, EngineError>)
    ensures
        match r {
            Ok(m) => members_of(value@) == Some(m@),
            Err(e) => members_of(value@) is None && e@ == failure(
                ErrorCode::Invalid,
                "record params must be an object"@,
            ),
        },
{
    match value.as_object() {
        Some(m) => Ok(m.clone()),
        None => Err(EngineError::invalid("record params must be an object".to_owned())),
    }
}

/// The members of `value`, which must be an object.
pub fn value_object(value: Json) -> (r: Result<JsonMap, MeshError>)
    ensures
        match r {
            Ok(m) => members_of(value@) == Some(m@),
            Err(e) => members_of(value@) is None && e.code@ == "invalid"@ && e.message@
                == "expected JSON object"@,
        },
{
    match value {
        Json::Object(m) => Ok(m),
        _ => Err(MeshError::invalid("expected JSON object")),
    }
}

/// A key that can protect data outside its node: named, and not the default.
pub open spec fn portable(key: Seq<char>) -> bool {
    key.len() > 0 && key != "default"@
}

fn is_portable(key: &str) -> (r: bool)
    ensures
        r == portable(key@),
{
    !key.is_empty() && !text_eq(key, "default")
}

/// The key that a record written before keys were portable has to move to: none
/// where the sandbox is not kept available elsewhere or already has such a key;
/// else its tenant's key, or else the configured one.
pub open spec fn legacy_key(
    p: ObjectView,
    tenant_keys: Map<Seq<char>, Seq<char>>,
    configured: Option<Seq<char>>,
) -> Option<Seq<char>> {
    let current = text_at(p, "encryption_key_id"@);
    let tenant = text_at(p, "owner_tenant"@);
    if text_or(p, "ha"@, "off"@) == "off"@ {
        None
    } else if current is Some && portable(current->0) {
        None
    } else if tenant is Some && tenant_keys.contains_key(tenant->0) && portable(tenant_keys[tenant->0]) {
        Some(tenant_keys[tenant->0])
    } else if configured is Some && portable(configured->0) {
        configured
    } else {
        None
    }
}

pub fn legacy_portable_key(params: &JsonMap, tenant_keys: &TextMap<String>, configured: Option<&String>) -> (r:
    Option<String>)
    ensures
        opt_text(r) == legacy_key(
            params@,
            tenant_keys@,
            match configured {
                Some(k) => Some(k@),
                None => None,
            },
        ),
{
    if text_eq(params.text_or("ha", "off").as_str(), "off") {
        return None;
    }
    if let Some(key) = params.text_at("encryption_key_id") {
        if is_portable(key.as_str()) {
            return None;
        }
    }
    if let Some(tenant) = params.text_at("owner_tenant") {
        if let Some(key) = tenant_keys.get(tenant.as_str()) {
            if is_portable(key.as_str()) {
                return Some(key.clone());
            }
        }
    }
    match configured {
        Some(key) => if is_portable(key.as_str()) {
            Some(key.clone())
        } else {
            None
        },
        None => None,
    }
}

/// What a migration target tells the source when it takes a sandbox over.
pub struct MigrationClaim {
    pub source_url: String,
    pub source_owner: String,
    pub source_epoch: i64,
    pub migration_id: String,
}

/// The epoch under `_mesh_migration_source_epoch`, where it is one.
pub open spec fn source_epoch_of(p: ObjectView) -> Option<i64> {
    if p.contains_key("_mesh_migration_source_epoch"@) {
        match i64_of(p["_mesh_migration_source_epoch"@]) {
            Some(e) => if e >= 0 {
                Some(e)
            } else {
                None
            },
            None => None,
        }
    } else {
        None
    }
}

/// The first thing that a migration intent lacks for its claim.
pub open spec fn claim_gap(p: ObjectView) -> Option<Seq<char>> {
    if filled_at(p, "_mesh_migration_source_url"@) is None {
        Some("migration intent has no source URL"@)
    } else if filled_at(p, "_mesh_migration_source_owner"@) is None {
        Some("migration intent has no source owner"@)
    } else if source_epoch_of(p) is None {
        Some("migration intent has no source epoch"@)
    } else if filled_at(p, "_mesh_migration_id"@) is None {
        Some("migration intent has no token"@)
    } else {
        None
    }
}

/// The claim that the intent in `params` announces to its source.
pub fn migration_claim(params: &JsonMap) -> (r: Result<MigrationClaim, MeshError>)
    ensures
        match r {
            Ok(claim) => claim_gap(params@) is None && filled_at(params@, "_mesh_migration_source_url"@)
                == Some(claim.source_url@) && filled_at(params@, "_mesh_migration_source_owner"@) == Some(
                claim.source_owner@,
            ) && source_epoch_of(params@) == Some(claim.source_epoch) && filled_at(
                params@,
                "_mesh_migration_id"@,
            ) == Some(claim.migration_id@),
            Err(e) => e.code@ == "invalid"@ && claim_gap(params@) == Some(e.message@),
        },
{
    let source_url = match params.filled_at("_mesh_migration_source_url") {
        Some(v) => v,
        None => return Err(MeshError::invalid("migration intent has no source URL")),
    };
    let source_owner = match params.filled_at("_mesh_migration_source_owner") {
        Some(v) => v,
        None => return Err(MeshError::invalid("migration intent has no source owner")),
    };
    let epoch = match params.get("_mesh_migration_source_epoch") {
        Some(v) => v.as_i64(),
        None => None,
    };
    let source_epoch: i64 = match epoch {
        Some(e) => if e >= 0 {
            e
        } else {
            return Err(MeshError::invalid("migration intent has no source epoch"));
        },
        None => return Err(MeshError::invalid("migration intent has no source epoch")),
    };
    let migration_id = match params.filled_at("_mesh_migration_id") {
        Some(v) => v,
        None => return Err(MeshError::invalid("migration intent has no token")),
    };
    Ok(MigrationClaim { source_url, source_owner, source_epoch, migration_id })
}

/// What counts as staged: a pending restore or rollback under either of its names,
/// a lifecycle operation that is a restore or rollback, or a migration that holds a
/// token and is not committed. Parameters without any of these are not staged.
pub proof fn law_staging_is_marked(p: ObjectView, k: Seq<char>)
    ensures
        (k == "_mesh_restore_pending"@ || k == "_mesh_rollback_pending"@ || k == "restore_pending"@ || k
            == "rollback_pending"@) && p.contains_key(k) && (p[k] is Object || p[k] == JsonView::Bool(true))
            ==> is_staging(p),
        p.contains_key("_mesh_migration_token"@) && !p.contains_key("_mesh_migration_committed"@) ==> is_staging(p),
        p.contains_key("lifecycle_operation"@) && (p["lifecycle_operation"@] == JsonView::Str("restore"@)
            || p["lifecycle_operation"@] == JsonView::Str("rollback"@)) ==> is_staging(p),
        !p.contains_key("_mesh_restore_pending"@) && !p.contains_key("_mesh_rollback_pending"@) && !p.contains_key(
            "restore_pending"@,
        ) && !p.contains_key("rollback_pending"@) && !p.contains_key("lifecycle_operation"@) && (!p.contains_key(
            "_mesh_migration_token"@,
        ) || (p.contains_key("_mesh_migration_committed"@) && p["_mesh_migration_committed"@] == JsonView::Bool(true)))
            ==> !is_staging(p),
{
}

/// A source gives its migration up only where the target says that it has nothing of
/// it and did not commit.
pub proof fn law_abort_needs_an_absent_target(status: ObjectView)
    ensures
        !target_absent(None),
        target_absent(Some(status)) ==> status.contains_key("state"@) && status["state"@] == JsonView::Str("absent"@),
        target_absent(Some(status)) ==> !status.contains_key("committed"@) || status["committed"@] != JsonView::Bool(
            true,
        ),
        status.contains_key("state"@) && status["state"@] == JsonView::Str("absent"@) && !status.contains_key(
            "committed"@,
        ) ==> target_absent(Some(status)),
{
}

/// A volume is used writably unless it is marked as read-only, under either name; the
/// longer one counts where both are there.
pub proof fn law_volume_mode_is_read(name: Seq<char>, m: ObjectView)
    requires
        m.contains_key("name"@),
        m["name"@] == JsonView::Str(name),
    ensures
        volume_mode(JsonView::Str(name)) == Some((name, false)),
        volume_mode(JsonView::Object(m)) is Some,
        volume_mode(JsonView::Object(m)) matches Some((n, _)) && n == name,
        m.contains_key("read_only"@) && m["read_only"@] == JsonView::Bool(true) ==> volume_mode(JsonView::Object(m))
            == Some((name, true)),
        m.contains_key("read_only"@) && m["read_only"@] == JsonView::Bool(false) ==> volume_mode(JsonView::Object(m))
            == Some((name, false)),
        !m.contains_key("read_only"@) && m.contains_key("ro"@) && m["ro"@] == JsonView::Bool(true) ==> volume_mode(
            JsonView::Object(m),
        ) == Some((name, true)),
        !m.contains_key("read_only"@) && !m.contains_key("ro"@) ==> volume_mode(JsonView::Object(m)) == Some(
            (name, false),
        ),
{
}

/// A recorded lease is read as its volume, its holder and its epoch.
pub proof fn law_lease_is_read(m: ObjectView, volume: Seq<char>, holder: Seq<char>, epoch: u64)
    requires
        m.contains_key("volume"@),
        m["volume"@] == JsonView::Str(volume),
        m.contains_key("epoch"@),
        m["epoch"@] == JsonView::Int(epoch as int),
    ensures
        m.contains_key("holder"@) && m["holder"@] == JsonView::Str(holder) ==> lease_of(JsonView::Object(m)) == Some(
            (volume, holder, epoch),
        ),
        !m.contains_key("holder"@) && m.contains_key("holder_node"@) && m["holder_node"@] == JsonView::Str(holder)
            ==> lease_of(JsonView::Object(m)) == Some((volume, holder, epoch)),
        !m.contains_key("holder"@) && !m.contains_key("holder_node"@) ==> lease_of(JsonView::Object(m)) is None,
{
}

/// A sandbox that is kept elsewhere too gets a key that others can use: its own stays
/// where it is such a one; otherwise its tenant's, or the configured one. The default
/// key is of this host only.
pub proof fn law_replicated_sandbox_has_a_portable_key(
    p: ObjectView,
    tenant_keys: Map<Seq<char>, Seq<char>>,
    configured: Option<Seq<char>>,
)
    ensures
        legacy_key(p, tenant_keys, configured) matches Some(key) ==> {
            &&& key.len() > 0
            &&& key != "default"@
            &&& text_or(p, "ha"@, "off"@) != "off"@
            &&& configured == Some(key) || exists|tenant: Seq<char>| #[trigger] tenant_keys.contains_key(tenant)
                && tenant_keys[tenant] == key
        },
        !p.contains_key("ha"@) ==> legacy_key(p, tenant_keys, configured) is None,
{
}

/// A migration claim is told whole or not at all.
pub proof fn law_migration_claim_is_whole(p: ObjectView)
    ensures
        claim_gap(p) is None ==> p.contains_key("_mesh_migration_source_url"@) && p.contains_key(
            "_mesh_migration_source_owner"@,
        ) && p.contains_key("_mesh_migration_source_epoch"@) && p.contains_key("_mesh_migration_id"@),
        source_epoch_of(p) matches Some(e) ==> e >= 0 && p["_mesh_migration_source_epoch"@] == JsonView::Int(e as int),
{
}

} // verus!
