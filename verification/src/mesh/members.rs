//! What a node knows of its peers, and what it tells them of itself.
use crate::error::MeshError;
use crate::json::{text_at, text_or, Json, JsonView, ObjectView};
use crate::mesh::migration::MeshErrorView;
use crate::mesh::params::{value_u64, whole_of};
use crate::mesh::leases::jsons;
use crate::outside::{hex_encode, hex_text, random_bytes};
use crate::text::{cat2, starts_with, text_eq, texts};
use crate::textmap::{ascending, sort_texts, sorted, TextMap};
use vstd::prelude::*;

verus! {

/// What a node can run.
#[derive(Clone, Copy, Debug, PartialEq, Eq, Structural)]
pub struct NodeCaps {
    pub vcpus: u64,
    pub mem_mib: u64,
}

/// What a node can run, as peers exchange it.
#[derive(Clone, Copy, Debug, PartialEq, Eq, Structural)]
pub struct NodeCapsWire {
    pub vcpus: u32,
    pub mem_mib: u64,
}

/// More processors than the exchanged form can hold become its largest number.
pub fn caps_wire(caps: NodeCaps) -> (r: NodeCapsWire)
    ensures
        r.mem_mib == caps.mem_mib,
        r.vcpus == if caps.vcpus > u32::MAX {
            u32::MAX as int
        } else {
            caps.vcpus as int
        },
{
    let vcpus: u32 = if caps.vcpus > u32::MAX as u64 {
        u32::MAX
    } else {
        caps.vcpus as u32
    };
    NodeCapsWire { vcpus, mem_mib: caps.mem_mib }
}

pub fn node_caps(caps: NodeCapsWire) -> (r: NodeCaps)
    ensures
        r.vcpus == caps.vcpus,
        r.mem_mib == caps.mem_mib,
{
    NodeCaps { vcpus: caps.vcpus as u64, mem_mib: caps.mem_mib }
}

/// A peer: where it is reached, and when it was heard of last (zero: never).
pub struct Peer {
    pub advertise: String,
    pub last_seen: u64,
}

/// The value of a [`Peer`].
pub struct PeerView {
    pub advertise: Seq<char>,
    pub last_seen: u64,
}

impl View for Peer {
    type V = PeerView;

    open spec fn view(&self) -> PeerView {
        PeerView { advertise: self.advertise@, last_seen: self.last_seen }
    }
}

/// Whether an identity stands for a seed whose real identity is not known yet.
pub open spec fn is_seed(id: Seq<char>) -> bool {
    "seed-"@.is_prefix_of(id)
}

/// Whether a report about `id` is taken up by the node `own`.
pub open spec fn counts_as_peer(own: Seq<char>, id: Seq<char>) -> bool {
    id.len() > 0 && !is_seed(id) && id != own
}

/// The known peers once `id` was heard of. The seed under whose address it is
/// reached is forgotten.
pub open spec fn peers_merged(
    peers: Map<Seq<char>, PeerView>,
    id: Seq<char>,
    peer: PeerView,
    now: u64,
) -> Map<Seq<char>, PeerView> {
    peers.restrict(
        Set::new(
            |k: Seq<char>|
                peers.contains_key(k) && !(is_seed(k) && peers[k].advertise == peer.advertise && k != id),
        ),
    ).insert(
        id,
        PeerView {
            last_seen: if peer.last_seen == 0 {
                now
            } else {
                peer.last_seen
            },
            ..peer
        },
    )
}

/// Takes up the report that `id` is reached as `peer` says; `false` where the
/// report does not count.
pub fn merge_peer(peers: &mut TextMap<Peer>, own: &str, id: String, peer: Peer, now: u64) -> (r: bool)
    ensures
        r == counts_as_peer(own@, id@),
        final(peers)@ == if counts_as_peer(own@, id@) {
            peers_merged(old(peers)@, id@, peer@, now)
        } else {
            old(peers)@
        },
{
    if id.as_str().is_empty() || starts_with(id.as_str(), "seed-") {
        return false;
    }
    if text_eq(id.as_str(), own) {
        return false;
    }
    let names = peers.key_list();
    let ghost before = peers@;
    let ghost keys = texts(names@);
    let ghost gone = |k: Seq<char>|
        before.contains_key(k) && is_seed(k) && before[k].advertise == peer@.advertise && k != id@;
    let ghost done: Set<Seq<char>> = Set::empty();
    let mut i: usize = 0;
    assert(peers@ =~= before.restrict(Set::new(|k: Seq<char>| !(done.contains(k) && gone(k)))));
    while i < names.len()
        invariant
            i <= names@.len(),
            keys == texts(names@),
            before == old(peers)@,
            forall|k: Seq<char>| before.contains_key(k) <==> keys.contains(k),
            forall|k: Seq<char>|
                #![trigger gone(k)]
                gone(k) == (before.contains_key(k) && is_seed(k) && before[k].advertise == peer@.advertise && k
                    != id@),
            forall|k: Seq<char>| done.contains(k) <==> exists|j: int| 0 <= j < i && keys[j] == k,
            peers@ == before.restrict(Set::new(|k: Seq<char>| !(done.contains(k) && gone(k)))),
        decreases names@.len() - i,
    {
        let name = names[i].as_str();
        let ghost key = name@;
        assert(keys[i as int] == key);
        assert(keys.contains(key));
        let same = match peers.get(name) {
            Some(p) => text_eq(p.advertise.as_str(), peer.advertise.as_str()),
            None => false,
        };
        if starts_with(name, "seed-") && same && !text_eq(name, id.as_str()) {
            peers.remove(name);
        }
        proof {
            let next = done.insert(key);
            assert forall|k: Seq<char>| next.contains(k) <==> exists|j: int| 0 <= j < i + 1 && keys[j] == k by {
                if next.contains(k) {
                    if k == key {
                        assert(keys[i as int] == k);
                    } else {
                        let j = choose|j: int| 0 <= j < i && keys[j] == k;
                        assert(keys[j] == k);
                    }
                }
            }
            assert(gone(key) == (before.contains_key(key) && is_seed(key) && before[key].advertise
                == peer@.advertise && key != id@));
            assert(peers@ =~= before.restrict(Set::new(|k: Seq<char>| !(next.contains(k) && gone(k)))));
            done = next;
        }
        i = i + 1;
    }
    proof {
        assert forall|k: Seq<char>| before.contains_key(k) implies done.contains(k) by {
            assert(keys.contains(k));
            let j = choose|j: int| 0 <= j < keys.len() && keys[j] == k;
            assert(keys[j] == k);
        }
    }
    let heard: u64 = if peer.last_seen == 0 {
        now
    } else {
        peer.last_seen
    };
    let ghost shown = peer@;
    peers.insert(id, Peer { advertise: peer.advertise, last_seen: heard });
    proof {
        assert forall|k: Seq<char>| before.contains_key(k) implies gone(k) == (is_seed(k) && before[k].advertise
            == shown.advertise && k != id@) by {}
        assert(peers@ =~= peers_merged(before, id@, shown, now));
    }
    true
}

/// Whether a peer was not heard of for longer than `limit`. One that was never
/// heard of is given time.
pub open spec fn silent(p: PeerView, now: u64, limit: u64) -> bool {
    p.last_seen > 0 && now - p.last_seen > limit
}

/// Drops the peers that were not heard of for longer than `limit`, and returns
/// them in order.
pub fn reap_stale_peers(peers: &mut TextMap<Peer>, now: u64, limit: u64) -> (r: Vec<String>)
    ensures
        ascending(texts(r@)),
        forall|k: Seq<char>| #[trigger]
            texts(r@).contains(k) <==> old(peers)@.contains_key(k) && silent(old(peers)@[k], now, limit),
        final(peers)@ == old(peers)@.restrict(
            Set::new(|k: Seq<char>| !(old(peers)@.contains_key(k) && silent(old(peers)@[k], now, limit))),
        ),
{
    let mut dead: TextMap<bool> = TextMap::new();
    let names = peers.key_list();
    let ghost before = peers@;
    let ghost keys = texts(names@);
    let ghost done: Set<Seq<char>> = Set::empty();
    let mut i: usize = 0;
    assert(peers@ =~= before.restrict(
        Set::new(|k: Seq<char>| !(done.contains(k) && before.contains_key(k) && silent(before[k], now, limit))),
    ));
    while i < names.len()
        invariant
            i <= names@.len(),
            keys == texts(names@),
            before == old(peers)@,
            forall|k: Seq<char>| before.contains_key(k) <==> keys.contains(k),
            forall|k: Seq<char>| done.contains(k) <==> exists|j: int| 0 <= j < i && keys[j] == k,
            peers@ == before.restrict(
                Set::new(
                    |k: Seq<char>|
                        !(done.contains(k) && before.contains_key(k) && silent(before[k], now, limit)),
                ),
            ),
            forall|k: Seq<char>| #[trigger]
                dead@.contains_key(k) <==> done.contains(k) && before.contains_key(k) && silent(
                    before[k],
                    now,
                    limit,
                ),
        decreases names@.len() - i,
    {
        let name = names[i].as_str();
        let ghost key = name@;
        assert(keys[i as int] == key);
        assert(keys.contains(key));
        let over = match peers.get(name) {
            Some(p) => p.last_seen > 0 && p.last_seen < now && now - p.last_seen > limit,
            None => false,
        };
        proof {
            if done.contains(key) && silent(before[key], now, limit) {
                assert(!over);
            } else {
                assert(over == silent(before[key], now, limit));
            }
        }
        let ghost found = dead@;
        if over {
            peers.remove(name);
            dead.insert(name.to_owned(), true);
        }
        proof {
            let next = done.insert(key);
            assert forall|k: Seq<char>| #[trigger]
                dead@.contains_key(k) <==> next.contains(k) && before.contains_key(k) && silent(
                    before[k],
                    now,
                    limit,
                ) by {
                assert(found.contains_key(k) <==> done.contains(k) && before.contains_key(k) && silent(
                    before[k],
                    now,
                    limit,
                ));
            }
            assert forall|k: Seq<char>| next.contains(k) <==> exists|j: int| 0 <= j < i + 1 && keys[j] == k by {
                if next.contains(k) {
                    if k == key {
                        assert(keys[i as int] == k);
                    } else {
                        let j = choose|j: int| 0 <= j < i && keys[j] == k;
                        assert(keys[j] == k);
                    }
                }
            }
            assert(peers@ =~= before.restrict(
                Set::new(
                    |k: Seq<char>|
                        !(next.contains(k) && before.contains_key(k) && silent(before[k], now, limit)),
                ),
            ));
            done = next;
        }
        i = i + 1;
    }
    proof {
        assert forall|k: Seq<char>| before.contains_key(k) implies done.contains(k) by {
            assert(keys.contains(k));
            let j = choose|j: int| 0 <= j < keys.len() && keys[j] == k;
            assert(keys[j] == k);
        }
        assert(peers@ =~= before.restrict(
            Set::new(|k: Seq<char>| !(before.contains_key(k) && silent(before[k], now, limit))),
        ));
    }
    let out = dead.key_list();
    proof {
        assert forall|k: Seq<char>| #[trigger]
            texts(out@).contains(k) <==> before.contains_key(k) && silent(before[k], now, limit) by {
            assert(dead@.contains_key(k) <==> dead.keys().contains(k));
        }
    }
    out
}

/// A peer as placement sees it.
pub struct PeerMember {
    pub node_id: String,
    pub advertise: String,
    pub healthy: bool,
}

/// The first peer called `node_id`; a migration to an unknown node is refused.
pub fn migration_target(peers: &Vec<PeerMember>, node_id: &str) -> (r: Result<usize, MeshError>)
    ensures
        match r {
            Ok(i) => i < peers@.len() && peers@[i as int].node_id@ == node_id@ && forall|j: int|
                0 <= j < i ==> (#[trigger] peers@[j]).node_id@ != node_id@,
            Err(e) => (forall|j: int| 0 <= j < peers@.len() ==> (#[trigger] peers@[j]).node_id@ != node_id@)
                && e@ == (MeshErrorView { code: "unreachable"@, message: "unknown mesh node "@ + node_id@ }),
        },
{
    let mut i: usize = 0;
    while i < peers.len()
        invariant
            i <= peers@.len(),
            forall|j: int| 0 <= j < i ==> (#[trigger] peers@[j]).node_id@ != node_id@,
        decreases peers@.len() - i,
    {
        if text_eq(peers[i].node_id.as_str(), node_id) {
            return Ok(i);
        }
        i = i + 1;
    }
    Err(MeshError::with_code(cat2("unknown mesh node ", node_id), "unreachable"))
}

/// The identities of the peers up to position `n`; only of the healthy ones where
/// `healthy` says so.
pub open spec fn member_ids(peers: Seq<PeerMember>, n: nat, healthy: bool) -> Seq<Seq<char>>
    decreases n,
{
    if n == 0 || n > peers.len() {
        Seq::empty()
    } else {
        let rest = member_ids(peers, (n - 1) as nat, healthy);
        if !healthy || peers[n - 1].healthy {
            rest.push(peers[n - 1].node_id@)
        } else {
            rest
        }
    }
}

fn collect_ids(peers: &Vec<PeerMember>, healthy: bool) -> (r: Vec<String>)
    ensures
        texts(r@) == member_ids(peers@, peers@.len(), healthy),
{
    let mut out: Vec<String> = Vec::new();
    let mut i: usize = 0;
    assert(texts(out@) =~= Seq::empty());
    while i < peers.len()
        invariant
            i <= peers@.len(),
            texts(out@) == member_ids(peers@, i as nat, healthy),
        decreases peers@.len() - i,
    {
        let ghost before = out@;
        if !healthy || peers[i].healthy {
            out.push(peers[i].node_id.clone());
            assert(texts(out@) =~= texts(before).push(peers@[i as int].node_id@));
        }
        i = i + 1;
    }
    out
}

/// Where replicas may go: to the healthy peers, or to all of them where none is.
pub fn replica_candidates(peers: &Vec<PeerMember>) -> (r: Vec<String>)
    ensures
        texts(r@) == if member_ids(peers@, peers@.len(), true).len() > 0 {
            member_ids(peers@, peers@.len(), true)
        } else {
            member_ids(peers@, peers@.len(), false)
        },
{
    let good = collect_ids(peers, true);
    assert(texts(good@).len() == good@.len());
    if good.len() > 0 {
        good
    } else {
        collect_ids(peers, false)
    }
}

/// What a sandbox view contributes to a node's own state.
pub struct ViewShare {
    /// The sandbox, where the view names it.
    pub id: Option<Seq<char>>,
    /// What it uses, where it runs.
    pub vcpus: nat,
    pub mem_mib: nat,
}

/// The number under `k`, or zero.
pub open spec fn count_at(m: ObjectView, k: Seq<char>) -> nat {
    if m.contains_key(k) {
        match whole_of(m[k]) {
            Some(n) => n as nat,
            None => 0,
        }
    } else {
        0
    }
}

/// What the view `v` contributes: nothing where it is no object or its sandbox
/// was terminated.
pub open spec fn view_share(v: JsonView) -> ViewShare {
    match v {
        JsonView::Object(m) => {
            let status = text_or(m, "status"@, ""@);
            if status == "terminated"@ {
                ViewShare { id: None, vcpus: 0, mem_mib: 0 }
            } else if status == "running"@ {
                ViewShare {
                    id: text_at(m, "id"@),
                    vcpus: count_at(m, "cpus"@),
                    mem_mib: count_at(m, "memory"@),
                }
            } else {
                ViewShare { id: text_at(m, "id"@), vcpus: 0, mem_mib: 0 }
            }
        },
        _ => ViewShare { id: None, vcpus: 0, mem_mib: 0 },
    }
}

/// The processors that the first `n` views use.
pub open spec fn vcpus_used(views: Seq<JsonView>, n: nat) -> nat
    decreases n,
{
    if n == 0 || n > views.len() {
        0
    } else {
        vcpus_used(views, (n - 1) as nat) + view_share(views[n - 1]).vcpus
    }
}

/// The memory that the first `n` views use.
pub open spec fn memory_used(views: Seq<JsonView>, n: nat) -> nat
    decreases n,
{
    if n == 0 || n > views.len() {
        0
    } else {
        memory_used(views, (n - 1) as nat) + view_share(views[n - 1]).mem_mib
    }
}

proof fn lemma_used_grows(views: Seq<JsonView>, n: nat, m: nat)
    requires
        n <= m <= views.len(),
    ensures
        vcpus_used(views, n) <= vcpus_used(views, m),
        memory_used(views, n) <= memory_used(views, m),
    decreases m,
{
    if n < m {
        lemma_used_grows(views, n, (m - 1) as nat);
    }
}

/// The sandboxes that the first `n` views name.
pub open spec fn ids_shown(views: Seq<JsonView>, n: nat) -> Seq<Seq<char>>
    decreases n,
{
    if n == 0 || n > views.len() {
        Seq::empty()
    } else {
        match view_share(views[n - 1]).id {
            Some(id) => ids_shown(views, (n - 1) as nat).push(id),
            None => ids_shown(views, (n - 1) as nat),
        }
    }
}

/// What a node owns and uses.
pub struct LocalInventory {
    /// The sandboxes, in order.
    pub owned: Vec<String>,
    pub committed_vcpus: u64,
    pub committed_mem_mib: u64,
}

fn share_number(object: &crate::json::JsonMap, key: &str) -> (r: u64)
    ensures
        r == count_at(object@, key@),
{
    match object.get(key) {
        Some(v) => match value_u64(v) {
            Some(n) => n,
            None => 0,
        },
        None => 0,
    }
}

/// What the node whose sandboxes show `views` owns and uses. The sums must be
/// ones that can be held.
pub fn local_inventory(views: &Vec<Json>) -> (r: LocalInventory)
    requires
        vcpus_used(jsons(views@), views@.len()) <= u64::MAX,
        memory_used(jsons(views@), views@.len()) <= u64::MAX,
    ensures
        r.committed_vcpus == vcpus_used(jsons(views@), views@.len()),
        r.committed_mem_mib == memory_used(jsons(views@), views@.len()),
        sorted(texts(r.owned@)),
        texts(r.owned@).to_multiset() == ids_shown(jsons(views@), views@.len()).to_multiset(),
{
    let ghost shown = jsons(views@);
    let mut owned: Vec<String> = Vec::new();
    let mut vcpus: u64 = 0;
    let mut memory: u64 = 0;
    let mut i: usize = 0;
    assert(texts(owned@) =~= Seq::empty());
    while i < views.len()
        invariant
            i <= views@.len(),
            shown == jsons(views@),
            vcpus == vcpus_used(shown, i as nat),
            memory == memory_used(shown, i as nat),
            vcpus_used(shown, views@.len()) <= u64::MAX,
            memory_used(shown, views@.len()) <= u64::MAX,
            texts(owned@) == ids_shown(shown, i as nat),
        decreases views@.len() - i,
    {
        let ghost before = owned@;
        proof {
            assert(shown[i as int] == views@[i as int]@);
            lemma_used_grows(shown, (i + 1) as nat, views@.len());
        }
        if let Json::Object(object) = &views[i] {
            let status = object.text_or("status", "");
            if !text_eq(status.as_str(), "terminated") {
                if let Some(id) = object.text_at("id") {
                    owned.push(id);
                    assert(texts(owned@) =~= texts(before).push(id@));
                }
                if text_eq(status.as_str(), "running") {
                    vcpus = vcpus + share_number(object, "cpus");
                    memory = memory + share_number(object, "memory");
                } else {
                    proof {
                        reveal_strlit("terminated");
                        reveal_strlit("running");
                    }
                }
            }
        }
        i = i + 1;
    }
    LocalInventory { owned: sort_texts(owned), committed_vcpus: vcpus, committed_mem_mib: memory }
}

/// The ready counts of the pools that `value` lists by name.
pub fn local_pools(value: &Json) -> (r: TextMap<u64>)
    ensures
        r@ == match value@ {
            JsonView::Object(m) => Map::new(
                |k: Seq<char>| m.contains_key(k),
                |k: Seq<char>| pool_ready(m[k]),
            ),
            _ => Map::<Seq<char>, u64>::empty(),
        },
{
    let mut out: TextMap<u64> = TextMap::new();
    if let Json::Object(object) = value {
        let ghost m = object@;
        let n = object.len();
        let mut i: usize = 0;
        let ghost full = Map::new(|k: Seq<char>| m.contains_key(k), |k: Seq<char>| pool_ready(m[k]));
        let ghost done: Set<Seq<char>> = Set::empty();
        assert(out@ =~= full.restrict(done));
        while i < n
            invariant
                i <= n == object.pairs().len(),
                m == object@,
                full == Map::new(|k: Seq<char>| m.contains_key(k), |k: Seq<char>| pool_ready(m[k])),
                forall|j: int|
                    0 <= j < object.pairs().len() ==> m.contains_key((#[trigger] object.pairs()[j]).0)
                        && m[object.pairs()[j].0] == object.pairs()[j].1,
                forall|k: Seq<char>|
                    done.contains(k) <==> exists|j: int| 0 <= j < i && (#[trigger] object.pairs()[j]).0 == k,
                out@ == full.restrict(done),
            decreases n - i,
        {
            let ghost key = object.pairs()[i as int].0;
            let value = object.value_at(i);
            let ready: u64 = match value {
                Json::Object(pool) => match pool.u64_at("ready") {
                    Some(x) => x,
                    None => 0,
                },
                _ => 0,
            };
            out.insert(object.name_at(i).clone(), ready);
            proof {
                let next = done.insert(key);
                assert forall|k: Seq<char>| next.contains(k) <==> exists|j: int|
                    0 <= j < i + 1 && (#[trigger] object.pairs()[j]).0 == k by {
                    if next.contains(k) {
                        if k == key {
                            assert(object.pairs()[i as int].0 == k);
                        } else {
                            let j = choose|j: int| 0 <= j < i && (#[trigger] object.pairs()[j]).0 == k;
                            assert(object.pairs()[j].0 == k);
                        }
                    }
                }
                assert(out@ =~= full.restrict(next));
                done = next;
            }
            i = i + 1;
        }
        proof {
            assert forall|k: Seq<char>| m.contains_key(k) implies done.contains(k) by {
                let j = choose|j: int| 0 <= j < object.pairs().len() && (#[trigger] object.pairs()[j]).0 == k;
                assert(object.pairs()[j].0 == k);
            }
            assert(out@ =~= full);
        }
    } else {
        assert(out@ =~= Map::<Seq<char>, u64>::empty());
    }
    out
}

/// How many members of a pool are ready, as its statistics say.
pub open spec fn pool_ready(v: JsonView) -> u64 {
    match v {
        JsonView::Object(m) => match crate::json::u64_at(m, "ready"@) {
            Some(n) => n,
            None => 0,
        },
        _ => 0,
    }
}

/// A request key for a caller that gave none: random, as hexadecimal text.
pub fn mesh_request_idempotency_key() -> (r: String)
    ensures
        exists|bytes: Seq<u8>| bytes.len() == 18 && r@ == #[trigger] hex_text(bytes),
{
    let bytes = random_bytes(18);
    hex_encode(bytes.as_slice())
}

/// The request key of a creation: what the caller gave, without surrounding
/// blanks; nothing where that leaves nothing.
pub fn given_idempotency_key(params: &crate::json::JsonMap) -> (r: Option<String>)
    ensures
        match r {
            Some(k) => text_at(params@, "idempotency_key"@) is Some && k@ == crate::text::trimmed(
                text_at(params@, "idempotency_key"@)->0,
            ) && k@.len() > 0,
            None => text_at(params@, "idempotency_key"@) is None || crate::text::trimmed(
                text_at(params@, "idempotency_key"@)->0,
            ).len() == 0,
        },
{
    match params.text_at("idempotency_key") {
        Some(text) => {
            let key = crate::text::trim(text.as_str());
            if key.as_str().is_empty() {
                None
            } else {
                Some(key)
            }
        },
        None => None,
    }
}

/// A peer that makes itself known is remembered under its name, as seen when it says
/// or else now. It takes the place of a placeholder for its address; every other peer
/// stays as it is.
pub proof fn law_named_peer_replaces_placeholder(
    peers: Map<Seq<char>, PeerView>,
    id: Seq<char>,
    peer: PeerView,
    now: u64,
    other: Seq<char>,
)
    requires
        other != id,
    ensures
        ({
            let w = peers_merged(peers, id, peer, now);
            &&& w.contains_key(id)
            &&& w[id].advertise == peer.advertise
            &&& peer.last_seen > 0 ==> w[id].last_seen == peer.last_seen
            &&& peer.last_seen == 0 ==> w[id].last_seen == now
            &&& w.contains_key(other) ==> peers.contains_key(other) && w[other] == peers[other]
            &&& peers.contains_key(other) && peers[other].advertise != peer.advertise ==> w.contains_key(other)
            &&& peers.contains_key(other) && !("seed-"@.is_prefix_of(other)) ==> w.contains_key(other)
            &&& "seed-"@.is_prefix_of(other) && peers.contains_key(other) && peers[other].advertise == peer.advertise
                ==> !w.contains_key(other)
        }),
{
}

/// The node itself, a placeholder and what has no name are no peers; everything else
/// is.
pub proof fn law_others_count_as_peers(own: Seq<char>, id: Seq<char>)
    ensures
        !counts_as_peer(own, own),
        !counts_as_peer(own, Seq::empty()),
        "seed-"@.is_prefix_of(id) ==> !counts_as_peer(own, id),
        id.len() > 0 && id != own && !("seed-"@.is_prefix_of(id)) ==> counts_as_peer(own, id),
{
}

/// The members that are listed are all of them, or the healthy ones.
pub proof fn law_members_are_listed(peers: Seq<PeerMember>, n: nat, id: Seq<char>)
    requires
        n <= peers.len(),
    ensures
        member_ids(peers, n, false).contains(id) <==> exists|i: int| 0 <= i < n && (#[trigger] peers[i]).node_id@ == id,
        member_ids(peers, n, true).contains(id) <==> exists|i: int|
            0 <= i < n && (#[trigger] peers[i]).node_id@ == id && peers[i].healthy,
        member_ids(peers, n, false).len() == n,
    decreases n,
{
    if n > 0 {
        let m = (n - 1) as nat;
        law_members_are_listed(peers, m, id);
        lemma_listed(peers, n, id, false);
        lemma_listed(peers, n, id, true);
    }
}

proof fn lemma_listed(peers: Seq<PeerMember>, n: nat, id: Seq<char>, healthy: bool)
    requires
        0 < n <= peers.len(),
    ensures
        member_ids(peers, n, healthy).contains(id) <==> member_ids(peers, (n - 1) as nat, healthy).contains(id) || (
        peers[n - 1].node_id@ == id && (!healthy || peers[n - 1].healthy)),
{
    let a = member_ids(peers, (n - 1) as nat, healthy);
    let b = member_ids(peers, n, healthy);
    if a.contains(id) {
        let i = choose|i: int| 0 <= i < a.len() && a[i] == id;
        assert(b[i] == id);
    }
    if b.contains(id) {
        let i = choose|i: int| 0 <= i < b.len() && b[i] == id;
        if i < a.len() {
            assert(a[i] == id);
        }
    }
    if b.len() > a.len() {
        assert(b[a.len() as int] == peers[n - 1].node_id@);
    }
}

/// What a sandbox commits of the node: a running one its processors and memory, any
/// other one nothing; one that is terminated is not even listed.
pub proof fn law_running_sandboxes_commit(m: ObjectView, cpus: u64, mib: u64, id: Seq<char>)
    requires
        m.contains_key("status"@),
        m.contains_key("cpus"@) && m["cpus"@] == JsonView::Int(cpus as int),
        m.contains_key("memory"@) && m["memory"@] == JsonView::Int(mib as int),
        m.contains_key("id"@) && m["id"@] == JsonView::Str(id),
    ensures
        ({
            let share = view_share(JsonView::Object(m));
            &&& m["status"@] == JsonView::Str("running"@) ==> share == (ViewShare {
                id: Some(id),
                vcpus: cpus as nat,
                mem_mib: mib as nat,
            })
            &&& m["status"@] == JsonView::Str("terminated"@) ==> share == (ViewShare { id: None, vcpus: 0, mem_mib: 0 })
            &&& m["status"@] == JsonView::Str("paused"@) || m["status"@] == JsonView::Str("suspended"@) ==> share == (
            ViewShare { id: Some(id), vcpus: 0, mem_mib: 0 })
        }),
{
    reveal_strlit("running");
    reveal_strlit("terminated");
    reveal_strlit("paused");
    reveal_strlit("suspended");
    assert("running"@.len() == 7 && "terminated"@.len() == 10 && "paused"@.len() == 6 && "suspended"@.len() == 9);
}

/// What the node has committed is the sum over its sandboxes.
pub proof fn law_commitments_add_up(views: Seq<JsonView>, n: nat)
    requires
        n < views.len(),
    ensures
        vcpus_used(views, n + 1) == vcpus_used(views, n) + view_share(views[n as int]).vcpus,
        memory_used(views, n + 1) == memory_used(views, n) + view_share(views[n as int]).mem_mib,
        vcpus_used(views, 0) == 0,
        memory_used(views, 0) == 0,
{
}

/// A peer is silent once it was seen, and that longer ago than the limit.
pub proof fn law_silence_is_measured(p: PeerView, now: u64, limit: u64)
    ensures
        silent(p, now, limit) <==> p.last_seen > 0 && p.last_seen + limit < now,
{
}

} // verus!
