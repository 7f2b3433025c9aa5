//! What a node tells the others of itself, what it takes up from their heartbeats,
//! and what it asks them about migrations.
use crate::error::MeshError;
use crate::json::{Json, JsonMap, JsonView, ObjectView};
use crate::mesh::leases::jsons;
use crate::mesh::members::{
    counts_as_peer, ids_shown, local_inventory, local_pools, memory_used, merge_peer, peers_merged, pool_ready,
    vcpus_used, Peer, PeerView,
};
use crate::mesh::params::MigrationClaim;
use crate::mesh::runtime::{MeshRuntime, RuntimeView};
use crate::mesh::takeback::MigrationCleanup;
use crate::text::{cat2, text_eq, texts};
use crate::textmap::{ascending, sorted, TextMap, TextSet};
use vstd::prelude::*;

verus! {

/// What a node tells of itself.
pub struct LocalState {
    /// The sandboxes that it shows, in order.
    pub owned: Vec<String>,
    /// The generation in which it serves each of them; zero where it does not.
    pub owned_epochs: TextMap<u64>,
    pub committed_vcpus: u64,
    pub committed_mem_mib: u64,
    /// How many members of each pool are ready.
    pub pools: TextMap<u64>,
    /// The templates that it offers, by pool key and by digest: each once, in order.
    pub templates: Vec<String>,
    /// The template that each digest stands for.
    pub template_index: TextMap<String>,
    /// How many creates are under way.
    pub inflight: u64,
}

/// The generation in which a node serves a sandbox; zero where it does not.
pub open spec fn served_epoch(v: RuntimeView, sid: Seq<char>) -> u64 {
    if v.owners.contains_key(sid) {
        v.owners[sid].epoch
    } else {
        0
    }
}

/// The generations in which a node serves the sandboxes that it shows.
pub open spec fn shown_epochs(v: RuntimeView, ids: Seq<Seq<char>>) -> Map<Seq<char>, u64> {
    Map::new(|k: Seq<char>| ids.contains(k), |k: Seq<char>| served_epoch(v, k))
}

pub open spec fn pool_counts(value: JsonView) -> Map<Seq<char>, u64> {
    match value {
        JsonView::Object(m) => Map::new(|k: Seq<char>| m.contains_key(k), |k: Seq<char>| pool_ready(m[k])),
        _ => Map::<Seq<char>, u64>::empty(),
    }
}

pub open spec fn pairs_view(digests: Seq<(String, String)>) -> Seq<(Seq<char>, Seq<char>)> {
    digests.map_values(|p: (String, String)| (p.0@, p.1@))
}

/// The template that each digest stands for; of several the last.
pub open spec fn indexed(digests: Seq<(Seq<char>, Seq<char>)>) -> Map<Seq<char>, Seq<char>>
    decreases digests.len(),
{
    if digests.len() == 0 {
        Map::empty()
    } else {
        indexed(digests.drop_last()).insert(digests.last().0, digests.last().1)
    }
}

fn index_digests(digests: &Vec<(String, String)>) -> (r: TextMap<String>)
    ensures
        r@ == indexed(pairs_view(digests@)),
{
    let ghost all = pairs_view(digests@);
    let mut out: TextMap<String> = TextMap::new();
    let mut i: usize = 0;
    assert(all.take(0) =~= Seq::empty());
    while i < digests.len()
        invariant
            i <= digests@.len() == all.len(),
            all == pairs_view(digests@),
            out@ == indexed(all.take(i as int)),
        decreases digests@.len() - i,
    {
        assert(all.take(i + 1).drop_last() =~= all.take(i as int));
        out.insert(digests[i].0.clone(), digests[i].1.clone());
        i = i + 1;
    }
    assert(all.take(i as int) =~= all);
    out
}

/// The names of two maps together, each once and in order.
fn names_of_both(pools: &TextMap<u64>, index: &TextMap<String>) -> (r: Vec<String>)
    ensures
        ascending(texts(r@)),
        forall|k: Seq<char>| #[trigger]
            texts(r@).contains(k) <==> pools@.contains_key(k) || index@.contains_key(k),
{
    let mut names = TextSet::new();
    let first = pools.key_list();
    let second = index.key_list();
    let ghost a = texts(first@);
    let ghost b = texts(second@);
    let mut i: usize = 0;
    while i < first.len()
        invariant
            i <= first@.len(),
            a == texts(first@),
            forall|k: Seq<char>| #[trigger] names@.contains(k) <==> a.take(i as int).contains(k),
        decreases first@.len() - i,
    {
        let ghost before = names@;
        names.insert(first[i].clone());
        proof {
            assert(a.take(i + 1) =~= a.take(i as int).push(a[i as int]));
            assert forall|k: Seq<char>| #[trigger] names@.contains(k) <==> a.take(i + 1).contains(k) by {
                lemma_push_contains(a.take(i as int), a[i as int], k);
                assert(before.contains(k) <==> a.take(i as int).contains(k));
            }
        }
        i = i + 1;
    }
    assert(a.take(i as int) =~= a);
    let mut j: usize = 0;
    assert(b.take(0) =~= Seq::empty());
    while j < second.len()
        invariant
            j <= second@.len(),
            b == texts(second@),
            forall|k: Seq<char>| #[trigger]
                names@.contains(k) <==> a.contains(k) || b.take(j as int).contains(k),
        decreases second@.len() - j,
    {
        let ghost before = names@;
        names.insert(second[j].clone());
        proof {
            assert(b.take(j + 1) =~= b.take(j as int).push(b[j as int]));
            assert forall|k: Seq<char>| #[trigger]
                names@.contains(k) <==> a.contains(k) || b.take(j + 1).contains(k) by {
                lemma_push_contains(b.take(j as int), b[j as int], k);
                assert(before.contains(k) <==> a.contains(k) || b.take(j as int).contains(k));
            }
        }
        j = j + 1;
    }
    assert(b.take(j as int) =~= b);
    let r = names.list();
    assert forall|k: Seq<char>| #[trigger] texts(r@).contains(k) <==> pools@.contains_key(k) || index@.contains_key(
        k,
    ) by {
        assert(names@.contains(k) <==> a.contains(k) || b.contains(k));
        assert(pools@.contains_key(k) <==> pools.keys().contains(k));
        assert(index@.contains_key(k) <==> index.keys().contains(k));
    }
    r
}

proof fn lemma_push_contains(s: Seq<Seq<char>>, last: Seq<char>, k: Seq<char>)
    ensures
        s.push(last).contains(k) <==> s.contains(k) || k == last,
{
    if s.contains(k) {
        let i = choose|i: int| 0 <= i < s.len() && s[i] == k;
        assert(s.push(last)[i] == k);
    }
    if k == last {
        assert(s.push(last)[s.len() as int] == k);
    }
    if s.push(last).contains(k) && k != last {
        let i = choose|i: int| 0 <= i < s.push(last).len() && s.push(last)[i] == k;
        assert(s[i] == k);
    }
}

fn epochs_of(runtime: &MeshRuntime, ids: &Vec<String>) -> (r: TextMap<u64>)
    ensures
        r@ == shown_epochs(runtime@, texts(ids@)),
{
    let ghost all = texts(ids@);
    let mut out: TextMap<u64> = TextMap::new();
    let mut i: usize = 0;
    assert(out@ =~= shown_epochs(runtime@, all.take(0)));
    while i < ids.len()
        invariant
            i <= ids@.len(),
            all == texts(ids@),
            out@ == shown_epochs(runtime@, all.take(i as int)),
        decreases ids@.len() - i,
    {
        out.insert(ids[i].clone(), runtime.local_epoch(ids[i].as_str()));
        proof {
            assert(all.take(i + 1) =~= all.take(i as int).push(all[i as int]));
            let added = all[i as int];
            assert(added == ids@[i as int]@);
            assert(out@ =~= shown_epochs(runtime@, all.take(i as int)).insert(added, served_epoch(runtime@, added)));
            let goal = shown_epochs(runtime@, all.take(i + 1));
            let before = shown_epochs(runtime@, all.take(i as int));
            assert forall|k: Seq<char>| #[trigger] goal.contains_key(k) <==> out@.contains_key(k) by {
                lemma_push_contains(all.take(i as int), added, k);
            }
            assert forall|k: Seq<char>| #[trigger] goal.contains_key(k) implies goal[k] == out@[k] by {
                lemma_push_contains(all.take(i as int), added, k);
                assert(k == added || before.contains_key(k));
            }
            assert(out@.dom() =~= goal.dom());
            assert(out@ =~= goal);
        }
        i = i + 1;
    }
    assert(all.take(i as int) =~= all);
    out
}

/// What a node tells of itself: `views` are those of its sandboxes, `pools` the
/// statistics of its pools, and `digests` the templates that it holds. The sums
/// must be ones that can be held.
pub fn local_state(
    runtime: &MeshRuntime,
    views: &Vec<Json>,
    pools: &Json,
    digests: &Vec<(String, String)>,
) -> (r: LocalState)
    requires
        vcpus_used(jsons(views@), views@.len()) <= u64::MAX,
        memory_used(jsons(views@), views@.len()) <= u64::MAX,
    ensures
        r.committed_vcpus == vcpus_used(jsons(views@), views@.len()),
        r.committed_mem_mib == memory_used(jsons(views@), views@.len()),
        sorted(texts(r.owned@)),
        texts(r.owned@).to_multiset() == ids_shown(jsons(views@), views@.len()).to_multiset(),
        r.owned_epochs@ == shown_epochs(runtime@, texts(r.owned@)),
        r.pools@ == pool_counts(pools@),
        r.template_index@ == indexed(pairs_view(digests@)),
        ascending(texts(r.templates@)),
        forall|k: Seq<char>| #[trigger]
            texts(r.templates@).contains(k) <==> r.pools@.contains_key(k) || r.template_index@.contains_key(k),
        r.inflight == runtime@.workers.dom().len(),
{
    let inventory = local_inventory(views);
    let owned_epochs = epochs_of(runtime, &inventory.owned);
    let pools = local_pools(pools);
    let template_index = index_digests(digests);
    let templates = names_of_both(&pools, &template_index);
    LocalState {
        owned: inventory.owned,
        owned_epochs,
        committed_vcpus: inventory.committed_vcpus,
        committed_mem_mib: inventory.committed_mem_mib,
        pools,
        templates,
        template_index,
        inflight: runtime.workers_running() as u64,
    }
}

/// Whether a node has a template under a key.
pub fn has_local_template_key(state: &LocalState, key: &str) -> (r: bool)
    ensures
        r == (texts(state.templates@).contains(key@) || state.template_index@.contains_key(key@)),
{
    if state.template_index.contains_key(key) {
        return true;
    }
    let mut i: usize = 0;
    while i < state.templates.len()
        invariant
            i <= state.templates@.len(),
            forall|j: int| 0 <= j < i ==> (#[trigger] texts(state.templates@)[j]) != key@,
        decreases state.templates@.len() - i,
    {
        if text_eq(state.templates[i].as_str(), key) {
            assert(texts(state.templates@)[i as int] == key@);
            return true;
        }
        i = i + 1;
    }
    false
}

/// A report about a peer: who it is and how it is reached.
pub struct PeerReport {
    pub id: String,
    pub peer: Peer,
}

pub ghost struct ReportView {
    pub id: Seq<char>,
    pub peer: PeerView,
}

impl View for PeerReport {
    type V = ReportView;

    open spec fn view(&self) -> ReportView {
        ReportView { id: self.id@, peer: self.peer@ }
    }
}

/// The known peers once a report was taken up, where it counts.
pub open spec fn reported(
    peers: Map<Seq<char>, PeerView>,
    own: Seq<char>,
    report: ReportView,
    now: u64,
) -> Map<Seq<char>, PeerView> {
    if counts_as_peer(own, report.id) {
        peers_merged(peers, report.id, report.peer, now)
    } else {
        peers
    }
}

/// The known peers once reports were taken up one after the other. Those that
/// could not be read are passed over.
pub open spec fn all_reported(
    peers: Map<Seq<char>, PeerView>,
    own: Seq<char>,
    known: Seq<Option<ReportView>>,
    now: u64,
) -> Map<Seq<char>, PeerView>
    decreases known.len(),
{
    if known.len() == 0 {
        peers
    } else {
        let before = all_reported(peers, own, known.drop_last(), now);
        match known.last() {
            Some(report) => reported(before, own, report, now),
            None => before,
        }
    }
}

pub open spec fn reports_view(known: Seq<Option<PeerReport>>) -> Seq<Option<ReportView>> {
    known.map_values(
        |o: Option<PeerReport>|
            match o {
                Some(r) => Some(r@),
                None => None,
            },
    )
}

/// Takes up a heartbeat: the sender's state, which must be one that could be read,
/// and what it knows of others.
pub fn merge_heartbeat(
    peers: &mut TextMap<Peer>,
    own: &str,
    state: Result<PeerReport, MeshError>,
    known: Vec<Option<PeerReport>>,
    now: u64,
) -> (r: Result<(), MeshError>)
    ensures
        match state {
            Err(e) => (r matches Err(f) && f@ == e@) && final(peers)@ == old(peers)@,
            Ok(report) => r is Ok && final(peers)@ == all_reported(
                reported(old(peers)@, own@, report@, now),
                own@,
                reports_view(known@),
                now,
            ),
        },
{
    let report = match state {
        Err(e) => return Err(e),
        Ok(report) => report,
    };
    merge_peer(peers, own, report.id, report.peer, now);
    let ghost first = peers@;
    let ghost all = reports_view(known@);
    let mut known = known;
    let mut rest: Vec<Option<PeerReport>> = Vec::new();
    let ghost given = known@;
    while known.len() > 0
        invariant
            given.len() == known@.len() + rest@.len(),
            known@ == given.take(known@.len() as int),
            forall|i: int| 0 <= i < rest@.len() ==> (#[trigger] rest@[i]) == given[given.len() - 1 - i],
        decreases known@.len(),
    {
        let ghost before = known@;
        let ghost held = rest@;
        match known.pop() {
            Some(item) => {
                rest.push(item);
                assert(known@ =~= given.take(known@.len() as int));
                assert forall|i: int| 0 <= i < rest@.len() implies (#[trigger] rest@[i]) == given[given.len() - 1 - i] by {
                    if i < held.len() {
                        assert(rest@[i] == held[i]);
                    }
                }
            },
            None => {},
        }
    }
    assert(all.take(0) =~= Seq::empty());
    while rest.len() > 0
        invariant
            rest@.len() <= given.len(),
            all == reports_view(given),
            forall|i: int| 0 <= i < rest@.len() ==> (#[trigger] rest@[i]) == given[given.len() - 1 - i],
            peers@ == all_reported(first, own@, all.take(given.len() - rest@.len()), now),
        decreases rest@.len(),
    {
        let ghost at = given.len() - rest@.len();
        let ghost held = rest@;
        match rest.pop() {
            Some(item) => {
                proof {
                    assert(all.take(at + 1).drop_last() =~= all.take(at));
                    assert(held[held.len() - 1] == given[at]);
                    assert forall|i: int| 0 <= i < rest@.len() implies (#[trigger] rest@[i]) == given[given.len() - 1 - i] by {
                        assert(rest@[i] == held[i]);
                    }
                }
                match item {
                    Some(report) => {
                        merge_peer(peers, own, report.id, report.peer, now);
                    },
                    None => {},
                }
            },
            None => {},
        }
    }
    assert(all.take(given.len() as int) =~= all);
    Ok(())
}

/// A node is never its own peer, whatever is reported to it.
pub proof fn law_node_is_not_its_own_peer(
    peers: Map<Seq<char>, PeerView>,
    own: Seq<char>,
    known: Seq<Option<ReportView>>,
    now: u64,
)
    requires
        !peers.contains_key(own),
    ensures
        !all_reported(peers, own, known, now).contains_key(own),
    decreases known.len(),
{
    if known.len() > 0 {
        law_node_is_not_its_own_peer(peers, own, known.drop_last(), now);
    }
}

/// What a node's status tells of its membership.
pub struct MembershipFacts {
    pub enabled: bool,
    pub node_id: String,
    pub advertise: String,
    pub region: String,
    pub expected_members: usize,
    pub quorum: usize,
}

/// The status document of a node.
pub open spec fn membership_doc(m: MembershipFacts, own: JsonView, peers: Seq<JsonView>) -> ObjectView {
    Map::<Seq<char>, JsonView>::empty().insert("enabled"@, JsonView::Bool(m.enabled)).insert(
        "node_id"@,
        JsonView::Str(m.node_id@),
    ).insert("advertise"@, JsonView::Str(m.advertise@)).insert("region"@, JsonView::Str(m.region@)).insert(
        "expected_members"@,
        JsonView::Int(m.expected_members as int),
    ).insert("quorum"@, JsonView::Int(m.quorum as int)).insert("self"@, own).insert("peers"@, JsonView::Array(peers))
}

/// The status document of a node: its membership, its own state and its peers'.
pub fn membership_status(m: &MembershipFacts, own: Json, peers: Vec<Json>) -> (r: JsonMap)
    ensures
        r@ == membership_doc(*m, own@, jsons(peers@)),
{
    let mut doc = JsonMap::new();
    doc.insert("enabled".to_owned(), Json::Bool(m.enabled));
    doc.insert("node_id".to_owned(), Json::Str(m.node_id.clone()));
    doc.insert("advertise".to_owned(), Json::Str(m.advertise.clone()));
    doc.insert("region".to_owned(), Json::Str(m.region.clone()));
    doc.insert("expected_members".to_owned(), Json::Int(m.expected_members as i128));
    doc.insert("quorum".to_owned(), Json::Int(m.quorum as i128));
    doc.insert("self".to_owned(), own);
    proof {
        crate::json::lemma_array_items(peers@);
        assert(crate::json::array_view(peers@, peers@.len()) =~= jsons(peers@));
    }
    doc.insert("peers".to_owned(), Json::Array(peers));
    doc
}

/// The answer to a node that joined through the peer at `peer_url`.
pub open spec fn joined_doc(node_id: Seq<char>, advertise: Seq<char>, peer_url: Seq<char>) -> ObjectView {
    Map::<Seq<char>, JsonView>::empty().insert("ok"@, JsonView::Bool(true)).insert(
        "node_id"@,
        JsonView::Str(node_id),
    ).insert("advertise"@, JsonView::Str(advertise)).insert("peers"@, JsonView::Array(seq![JsonView::Str(peer_url)]))
}

/// The answer to a node that joined through the peer at `peer_url`.
pub fn join_answer(node_id: &str, advertise: &str, peer_url: &str) -> (r: JsonMap)
    ensures
        r@ == joined_doc(node_id@, advertise@, peer_url@),
{
    let mut peers: Vec<Json> = Vec::new();
    peers.push(Json::Str(peer_url.to_owned()));
    let mut doc = JsonMap::new();
    doc.insert("ok".to_owned(), Json::Bool(true));
    doc.insert("node_id".to_owned(), Json::Str(node_id.to_owned()));
    doc.insert("advertise".to_owned(), Json::Str(advertise.to_owned()));
    proof {
        crate::json::lemma_array_items(peers@);
        assert(crate::json::array_view(peers@, peers@.len()) =~= seq![JsonView::Str(peer_url@)]);
    }
    doc.insert("peers".to_owned(), Json::Array(peers));
    doc
}

/// The identity of a seed: a peer whose own is not known yet.
pub fn seed_id(fresh: &str) -> (r: String)
    ensures
        r@ == "seed-"@ + fresh@,
        crate::mesh::members::is_seed(r@),
{
    let r = cat2("seed-", fresh);
    assert("seed-"@.is_prefix_of(r@)) by {
        assert(r@.take("seed-"@.len() as int) =~= "seed-"@);
    }
    r
}

/// The token of a node that joins with `given`: its own, where it has one.
pub fn joined_token(own: &str, given: &str) -> (r: String)
    ensures
        r@ == if own@.len() > 0 {
            own@
        } else {
            given@
        },
{
    if own.is_empty() {
        given.to_owned()
    } else {
        own.to_owned()
    }
}

/// Whether a setup leaves a membership as it is.
pub fn setup_keeps_membership(enabled: bool, advertise: &str, wanted: &str) -> (r: bool)
    ensures
        r == (enabled && advertise@ == wanted@),
{
    enabled && text_eq(advertise, wanted)
}

/// What a target tells the source when it takes a sandbox over.
pub open spec fn claim_doc(
    sid: Seq<char>,
    owner: Seq<char>,
    epoch: i64,
    claim: MigrationClaim,
) -> ObjectView {
    Map::<Seq<char>, JsonView>::empty().insert("sid"@, JsonView::Str(sid)).insert(
        "source_owner"@,
        JsonView::Str(claim.source_owner@),
    ).insert("source_epoch"@, JsonView::Int(claim.source_epoch as int)).insert(
        "target_owner"@,
        JsonView::Str(owner),
    ).insert("target_epoch"@, JsonView::Int(epoch as int)).insert(
        "migration_id"@,
        JsonView::Str(claim.migration_id@),
    )
}

/// What a target tells the source when it takes a sandbox over.
pub fn write_claim(sid: &str, owner: &str, epoch: i64, claim: &MigrationClaim) -> (r: JsonMap)
    ensures
        r@ == claim_doc(sid@, owner@, epoch, *claim),
{
    let mut doc = JsonMap::new();
    doc.insert("sid".to_owned(), Json::Str(sid.to_owned()));
    doc.insert("source_owner".to_owned(), Json::Str(claim.source_owner.clone()));
    doc.insert("source_epoch".to_owned(), Json::Int(claim.source_epoch as i128));
    doc.insert("target_owner".to_owned(), Json::Str(owner.to_owned()));
    doc.insert("target_epoch".to_owned(), Json::Int(epoch as i128));
    doc.insert("migration_id".to_owned(), Json::Str(claim.migration_id.clone()));
    doc
}

/// What a source asks a target about a migration.
pub fn write_status_query(cleanup: &MigrationCleanup) -> (r: JsonMap)
    ensures
        r@ == Map::<Seq<char>, JsonView>::empty().insert("sid"@, JsonView::Str(cleanup@.sid)).insert(
            "epoch"@,
            JsonView::Int(cleanup@.epoch as int),
        ).insert("migration_id"@, JsonView::Str(cleanup@.migration_id)),
{
    let mut doc = JsonMap::new();
    doc.insert("sid".to_owned(), Json::Str(cleanup.sid.clone()));
    doc.insert("epoch".to_owned(), Json::Int(cleanup.epoch as i128));
    doc.insert("migration_id".to_owned(), Json::Str(cleanup.migration_id.clone()));
    doc
}

/// Of several digests that are told for one name, the last counts.
pub proof fn law_last_digest_counts(digests: Seq<(Seq<char>, Seq<char>)>, name: Seq<char>, digest: Seq<char>, other: Seq<char>)
    requires
        other != name,
    ensures
        ({
            let before = indexed(digests);
            let after = indexed(digests.push((name, digest)));
            &&& after.contains_key(name) && after[name] == digest
            &&& after.contains_key(other) == before.contains_key(other)
            &&& before.contains_key(other) ==> after[other] == before[other]
        }),
{
    assert(digests.push((name, digest)).drop_last() =~= digests);
}

/// A sandbox is shown in the generation in which it is served here.
pub proof fn law_served_generation_is_shown(v: RuntimeView, ids: Seq<Seq<char>>, sid: Seq<char>)
    ensures
        shown_epochs(v, ids).contains_key(sid) <==> ids.contains(sid),
        ids.contains(sid) && v.owners.contains_key(sid) ==> shown_epochs(v, ids)[sid] == v.owners[sid].epoch,
        ids.contains(sid) && !v.owners.contains_key(sid) ==> shown_epochs(v, ids)[sid] == 0,
{
}

} // verus!
