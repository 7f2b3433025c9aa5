//! Small questions that are answered from what a node knows of its peers and its
//! sandboxes.
use crate::error::MeshError;
use crate::json::{bool_at, text_at, JsonMap, ObjectView};
use crate::mesh::migration::invalid;
use crate::text::text_eq;
use crate::textmap::TextMap;
use vstd::prelude::*;

verus! {

/// Whether a sandbox is durably suspended, by the state of its marker.
pub fn has_suspended_marker(marker: Option<&String>) -> (r: bool)
    ensures
        r == (marker matches Some(s) && s@ == "suspended"@),
{
    match marker {
        Some(s) => text_eq(s.as_str(), "suspended"),
        None => false,
    }
}

/// Whether a sandbox is durably suspended and this node shows it as a placeholder
/// that does not serve.
pub fn passive_suspend_marker(marker: Option<&String>, view: &JsonMap) -> (r: bool)
    ensures
        r == ((marker matches Some(s) && s@ == "suspended"@) && text_at(view@, "status"@) == Some("suspended"@)
            && bool_at(view@, "_mesh_suspended_projection"@) == Some(true)),
{
    if !has_suspended_marker(marker) {
        return false;
    }
    let suspended = match view.text_at("status") {
        Some(s) => text_eq(s.as_str(), "suspended"),
        None => false,
    };
    let projected = match view.bool_at("_mesh_suspended_projection") {
        Some(b) => b,
        None => false,
    };
    suspended && projected
}

/// Whether the intent of a migration carries the token that it is claimed with.
pub fn claim_token_matches(params: &JsonMap, token: &str) -> (r: Result<(), MeshError>)
    ensures
        match r {
            Ok(_) => text_at(params@, "_mesh_migration_token"@) == Some(token@),
            Err(e) => text_at(params@, "_mesh_migration_token"@) != Some(token@) && e@ == invalid(
                "migration token does not match target intent"@,
            ),
        },
{
    let matched = match params.text_at("_mesh_migration_token") {
        Some(t) => text_eq(t.as_str(), token),
        None => false,
    };
    if matched {
        Ok(())
    } else {
        Err(MeshError::invalid("migration token does not match target intent"))
    }
}

/// A peer and the templates that it has.
pub struct TemplatePeer {
    pub healthy: bool,
    pub advertise: String,
    pub templates: TextMap<String>,
}

/// Whether a peer can provide a template.
pub open spec fn provides(peer: TemplatePeer, key: Seq<char>) -> bool {
    peer.healthy && peer.templates@.contains_key(key)
}

/// The first healthy peer that has a template: where it is reached, and the
/// template's digest.
pub fn find_template_provider(peers: &Vec<TemplatePeer>, key: &str) -> (r: Option<(String, String)>)
    ensures
        match r {
            Some((url, digest)) => exists|i: int|
                0 <= i < peers@.len() && provides(#[trigger] peers@[i], key@) && url@ == peers@[i].advertise@ && digest@
                    == peers@[i].templates@[key@] && forall|j: int| 0 <= j < i ==> !provides(#[trigger] peers@[j], key@),
            None => forall|j: int| 0 <= j < peers@.len() ==> !provides(#[trigger] peers@[j], key@),
        },
{
    let mut i: usize = 0;
    while i < peers.len()
        invariant
            i <= peers@.len(),
            forall|j: int| 0 <= j < i ==> !provides(#[trigger] peers@[j], key@),
        decreases peers@.len() - i,
    {
        if peers[i].healthy {
            match peers[i].templates.get(key) {
                Some(digest) => {
                    assert(provides(peers@[i as int], key@));
                    return Some((peers[i].advertise.clone(), digest.clone()));
                },
                None => {},
            }
        }
        i = i + 1;
    }
    None
}

/// The nodes that functions can be placed on: this one, and the others that are
/// healthy. Each node is given by whether it is this one and whether it is
/// healthy; the result is their places.
pub fn function_placement_nodes(nodes: &Vec<(bool, bool)>) -> (r: Vec<usize>)
    ensures
        forall|i: int|
            0 <= i < r@.len() ==> (#[trigger] r@[i]) < nodes@.len() && (nodes@[r@[i] as int].0 || nodes@[r@[i] as int].1),
        forall|j: int|
            0 <= j < nodes@.len() && ((#[trigger] nodes@[j]).0 || nodes@[j].1) ==> r@.contains(j as usize),
        forall|i: int, k: int| 0 <= i < k < r@.len() ==> #[trigger] r@[i] < #[trigger] r@[k],
{
    let mut out: Vec<usize> = Vec::new();
    let mut i: usize = 0;
    while i < nodes.len()
        invariant
            i <= nodes@.len(),
            forall|k: int|
                0 <= k < out@.len() ==> (#[trigger] out@[k]) < i && (nodes@[out@[k] as int].0
                    || nodes@[out@[k] as int].1),
            forall|j: int| 0 <= j < i && ((#[trigger] nodes@[j]).0 || nodes@[j].1) ==> out@.contains(j as usize),
            forall|a: int, b: int| 0 <= a < b < out@.len() ==> #[trigger] out@[a] < #[trigger] out@[b],
        decreases nodes@.len() - i,
    {
        let ghost before = out@;
        if nodes[i].0 || nodes[i].1 {
            out.push(i);
            proof {
                assert forall|j: int| 0 <= j < i + 1 && ((#[trigger] nodes@[j]).0 || nodes@[j].1) implies out@.contains(
                    j as usize,
                ) by {
                    if j < i {
                        assert(before.contains(j as usize));
                        let k = choose|k: int| 0 <= k < before.len() && before[k] == j as usize;
                        assert(out@[k] == j as usize);
                    } else {
                        assert(out@[before.len() as int] == i);
                    }
                }
            }
        }
        i = i + 1;
    }
    out
}

/// A replica that is kept here: its sandbox and its object, and whether it is in
/// use.
pub struct LocalReplica {
    pub sid: String,
    pub object_key: String,
    pub in_use: bool,
}

/// Whether a shared list names the same object for the sandbox.
pub open spec fn names_object(shared: Seq<(String, String)>, local: LocalReplica) -> bool {
    exists|i: int|
        0 <= i < shared.len() && (#[trigger] shared[i]).0@ == local.sid@ && shared[i].1@ == local.object_key@
}

/// Whether what is kept of a replica here is dropped: the shared list no longer
/// names it, and nobody uses it.
pub fn drops_local_replica(shared: &Vec<(String, String)>, local: &LocalReplica) -> (r: bool)
    ensures
        r == (!names_object(shared@, *local) && !local.in_use),
{
    if local.in_use {
        return false;
    }
    let mut i: usize = 0;
    while i < shared.len()
        invariant
            i <= shared@.len(),
            forall|j: int|
                0 <= j < i ==> !((#[trigger] shared@[j]).0@ == local.sid@ && shared@[j].1@ == local.object_key@),
        decreases shared@.len() - i,
    {
        if text_eq(shared[i].0.as_str(), local.sid.as_str()) && text_eq(
            shared[i].1.as_str(),
            local.object_key.as_str(),
        ) {
            return false;
        }
        i = i + 1;
    }
    true
}

/// The parameters of a restored sandbox without the leases that it had: it gets
/// new ones.
pub open spec fn without_leases(params: ObjectView) -> ObjectView {
    params.remove("volume_leases"@).remove("_mesh_volume_leases"@)
}

/// Takes the leases that a sandbox had out of its parameters.
pub fn drop_archived_leases(params: &mut JsonMap)
    ensures
        final(params)@ == without_leases(old(params)@),
{
    params.remove("volume_leases");
    params.remove("_mesh_volume_leases");
}

/// What is archived holds no leases, and otherwise what it held.
pub proof fn law_archive_holds_no_leases(params: ObjectView, k: Seq<char>)
    ensures
        !without_leases(params).contains_key("volume_leases"@),
        !without_leases(params).contains_key("_mesh_volume_leases"@),
        k != "volume_leases"@ && k != "_mesh_volume_leases"@ ==> without_leases(params).contains_key(k)
            == params.contains_key(k) && (params.contains_key(k) ==> without_leases(params)[k] == params[k]),
{
}

} // verus!
