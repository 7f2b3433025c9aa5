//! The vote on one lease: of a majority of the members, the node's own vote among
//! them, or by a store that all nodes share.
use crate::decimal::{decimal, render_u64};
use crate::error::MeshError;
use crate::floats::{json_number, number_json};
use crate::json::{Json, JsonMap, JsonView, ObjectView};
use crate::mesh::members::PeerMember;
use crate::mesh::migration::{invalid, opt_error, MeshErrorView};
use crate::text::{cat3, cat5, texts};
use vstd::prelude::*;

verus! {

/// What a vote does next.
#[derive(Clone, Copy, Debug, PartialEq, Eq, Structural)]
pub enum VoteStep {
    /// Acquire the lease from the shared store (`Lease` or `Error`).
    AskStore,
    /// Cast the node's own vote (`Decision` or `Error`).
    AskOwn,
    /// Tell how many votes are needed, and which peers there are (`Members` or
    /// `Error`).
    CountMembers,
    /// Ask the peer at this position among those to ask (`Decision`; `Silent` where
    /// it gave no answer; `Error` where its answer cannot be read).
    Ask(usize),
    /// Take the node's own vote back (`Done` or `Error`).
    ReleaseOwn,
    /// Tell which peers there are (`Peers`).
    ListPeers,
    /// Take back the vote of the known peer at this position (`Done` or `Error`).
    ReleaseAt(usize),
    /// The lease is held.
    Granted,
    /// It is not; see the error.
    Failed,
}

/// What came of a step.
pub enum VoteReply {
    Lease(Json),
    Decision(bool, Option<Json>),
    Members(usize, Vec<PeerMember>),
    Peers(Vec<PeerMember>),
    Silent,
    Done,
    Error(MeshError),
}

/// A peer: where it is reached, and whether it is healthy.
pub ghost struct PeerView {
    pub advertise: Seq<char>,
    pub healthy: bool,
}

pub open spec fn peers_view(peers: Seq<PeerMember>) -> Seq<PeerView> {
    Seq::new(peers.len(), |i: int| PeerView { advertise: peers[i].advertise@, healthy: peers[i].healthy })
}

/// The value of a [`VoteReply`].
pub ghost enum VoteReplyView {
    Lease(JsonView),
    Decision(bool, Option<JsonView>),
    Members(nat, Seq<PeerView>),
    Peers(Seq<PeerView>),
    Silent,
    Done,
    Error(MeshErrorView),
}

/// The value of an optional JSON value.
pub open spec fn opt_json(o: Option<Json>) -> Option<JsonView> {
    match o {
        Some(v) => Some(v@),
        None => None,
    }
}

impl View for VoteReply {
    type V = VoteReplyView;

    open spec fn view(&self) -> VoteReplyView {
        match *self {
            VoteReply::Lease(l) => VoteReplyView::Lease(l@),
            VoteReply::Decision(granted, record) => VoteReplyView::Decision(granted, opt_json(record)),
            VoteReply::Members(needed, peers) => VoteReplyView::Members(needed as nat, peers_view(peers@)),
            VoteReply::Peers(peers) => VoteReplyView::Peers(peers_view(peers@)),
            VoteReply::Silent => VoteReplyView::Silent,
            VoteReply::Done => VoteReplyView::Done,
            VoteReply::Error(e) => VoteReplyView::Error(e@),
        }
    }
}

/// The lease that is voted on: a new one, or the renewal of one that is held. How
/// long it is to last, in seconds, is a floating-point number.
pub struct LeaseRequest {
    pub renewal: bool,
    pub volume: String,
    pub holder: String,
    pub epoch: u64,
    pub ttl: u64,
}

/// The value of a [`LeaseRequest`].
pub ghost struct RequestView {
    pub renewal: bool,
    pub volume: Seq<char>,
    pub holder: Seq<char>,
    pub epoch: u64,
    pub ttl: u64,
}

impl View for LeaseRequest {
    type V = RequestView;

    open spec fn view(&self) -> RequestView {
        RequestView {
            renewal: self.renewal,
            volume: self.volume@,
            holder: self.holder@,
            epoch: self.epoch,
            ttl: self.ttl,
        }
    }
}

/// A vote on one lease.
pub struct LeaseVote {
    request: LeaseRequest,
    unavailable: String,
    step: VoteStep,
    needed: usize,
    asked: Vec<String>,
    known: Vec<String>,
    own: bool,
    votes: usize,
    lease: Option<Json>,
    error: Option<MeshError>,
}

/// The value of a [`LeaseVote`]: `asked` are the peers to ask, `known` those whose
/// votes are taken back, `own` whether the node itself granted, `votes` how many
/// did, `lease` the lease as the first vote that carried it describes it.
pub ghost struct VoteView {
    pub request: RequestView,
    pub unavailable: Seq<char>,
    pub step: VoteStep,
    pub needed: nat,
    pub asked: Seq<Seq<char>>,
    pub known: Seq<Seq<char>>,
    pub own: bool,
    pub votes: nat,
    pub lease: Option<JsonView>,
    pub error: Option<MeshErrorView>,
}

impl View for LeaseVote {
    type V = VoteView;

    closed spec fn view(&self) -> VoteView {
        VoteView {
            request: self.request@,
            unavailable: self.unavailable@,
            step: self.step,
            needed: self.needed as nat,
            asked: texts(self.asked@),
            known: texts(self.known@),
            own: self.own,
            votes: self.votes as nat,
            lease: opt_json(self.lease),
            error: opt_error(self.error),
        }
    }
}

/// Where the peers are reached; only the healthy ones where `healthy` says so.
pub open spec fn addresses(peers: Seq<PeerView>, healthy: bool) -> Seq<Seq<char>>
    decreases peers.len(),
{
    if peers.len() == 0 {
        Seq::empty()
    } else {
        let rest = addresses(peers.drop_last(), healthy);
        if !healthy || peers.last().healthy {
            rest.push(peers.last().advertise)
        } else {
            rest
        }
    }
}

fn collect_addresses(peers: &Vec<PeerMember>, healthy: bool) -> (r: Vec<String>)
    ensures
        texts(r@) == addresses(peers_view(peers@), healthy),
        r@.len() <= peers@.len(),
{
    let ghost all = peers_view(peers@);
    let mut out: Vec<String> = Vec::new();
    let mut i: usize = 0;
    assert(all.take(0) =~= Seq::empty());
    assert(texts(out@) =~= Seq::empty());
    while i < peers.len()
        invariant
            i <= peers@.len(),
            out@.len() <= i,
            all == peers_view(peers@),
            texts(out@) == addresses(all.take(i as int), healthy),
        decreases peers@.len() - i,
    {
        let ghost before = texts(out@);
        assert(all.take(i + 1).drop_last() =~= all.take(i as int));
        assert(all.take(i + 1).last() == all[i as int]);
        if !healthy || peers[i].healthy {
            out.push(peers[i].advertise.clone());
            assert(texts(out@) =~= before.push(peers@[i as int].advertise@));
        }
        i = i + 1;
    }
    assert(all.take(i as int) =~= all);
    out
}

/// Whether `reply` is one that `step` can have.
pub open spec fn vote_accepts(step: VoteStep, reply: VoteReplyView) -> bool {
    match step {
        VoteStep::AskStore => reply is Lease || reply is Error,
        VoteStep::AskOwn => reply is Decision || reply is Error,
        VoteStep::CountMembers => reply is Error || (reply matches VoteReplyView::Members(_, peers) && peers.len()
            < usize::MAX),
        VoteStep::Ask(_) => reply is Decision || reply is Silent || reply is Error,
        VoteStep::ReleaseOwn | VoteStep::ReleaseAt(_) => reply is Done || reply is Error,
        VoteStep::ListPeers => reply is Peers,
        VoteStep::Granted | VoteStep::Failed => false,
    }
}

/// What a vote is about, in words.
pub open spec fn deed(r: RequestView) -> Seq<char> {
    if r.renewal {
        "renew"@
    } else {
        "grant"@
    }
}

/// The error of a vote that did not carry.
pub open spec fn lost(v: VoteView) -> MeshErrorView {
    MeshErrorView {
        code: v.unavailable,
        message: "lease "@ + deed(v.request) + " for volume '"@ + v.request.volume + "' got "@ + (decimal(v.votes)
            + "/"@ + decimal(v.needed) + " votes"@),
    }
}

/// Whether a vote carries: the node itself granted, and enough did.
pub open spec fn carried(v: VoteView) -> bool {
    v.votes >= v.needed && v.own
}

/// A vote once every peer was asked. The votes for a new lease that did not carry
/// are taken back; a failed renewal leaves them, and the holder goes on until its
/// deadline.
pub open spec fn counted(v: VoteView) -> VoteView {
    if carried(v) {
        if v.lease is Some {
            VoteView { step: VoteStep::Granted, ..v }
        } else {
            VoteView {
                step: VoteStep::Failed,
                error: Some(invalid("lease "@ + deed(v.request) + " missing record"@)),
                ..v
            }
        }
    } else {
        VoteView {
            step: if v.request.renewal {
                VoteStep::Failed
            } else {
                VoteStep::ReleaseOwn
            },
            error: Some(lost(v)),
            ..v
        }
    }
}

/// A vote once the first `i` peers were asked.
pub open spec fn asked_to(v: VoteView, i: nat) -> VoteView {
    if i < v.asked.len() {
        VoteView { step: VoteStep::Ask(i as usize), ..v }
    } else {
        counted(v)
    }
}

/// A vote with one more ballot.
pub open spec fn with_ballot(v: VoteView, granted: bool, record: Option<JsonView>) -> VoteView {
    if granted {
        VoteView {
            votes: v.votes + 1,
            lease: if v.lease is None {
                record
            } else {
                v.lease
            },
            ..v
        }
    } else {
        v
    }
}

/// What is next once the votes of the first `i` known peers were taken back.
pub open spec fn released_to(v: VoteView, i: nat) -> VoteView {
    VoteView {
        step: if i < v.known.len() {
            VoteStep::ReleaseAt(i as usize)
        } else {
            VoteStep::Failed
        },
        ..v
    }
}

/// The vote once its step had `reply`. An error ends it as it is, except while votes
/// are taken back: then it goes on.
pub open spec fn vote_moved(v: VoteView, reply: VoteReplyView) -> VoteView {
    match v.step {
        VoteStep::ReleaseOwn => VoteView { step: VoteStep::ListPeers, ..v },
        VoteStep::ReleaseAt(i) => released_to(v, (i + 1) as nat),
        _ => match reply {
            VoteReplyView::Error(e) => VoteView { step: VoteStep::Failed, error: Some(e), ..v },
            VoteReplyView::Lease(l) => VoteView { step: VoteStep::Granted, lease: Some(l), ..v },
            VoteReplyView::Members(needed, peers) => asked_to(
                VoteView { needed, asked: addresses(peers, true), ..v },
                0,
            ),
            VoteReplyView::Peers(peers) => released_to(VoteView { known: addresses(peers, false), ..v }, 0),
            VoteReplyView::Decision(granted, record) => match v.step {
                VoteStep::Ask(i) => asked_to(with_ballot(v, granted, record), (i + 1) as nat),
                _ => VoteView {
                    step: VoteStep::CountMembers,
                    own: granted,
                    ..with_ballot(v, granted, record)
                },
            },
            _ => match v.step {
                VoteStep::Ask(i) => asked_to(v, (i + 1) as nat),
                _ => v,
            },
        },
    }
}

/// What holds of a vote between its steps.
pub open spec fn voting(v: VoteView) -> bool {
    &&& v.asked.len() < usize::MAX
    &&& (v.step == VoteStep::AskStore || v.step == VoteStep::AskOwn) ==> v.votes == 0 && v.lease is None
    &&& v.step == VoteStep::CountMembers ==> v.votes <= 1
    &&& v.step matches VoteStep::Ask(i) ==> i < v.asked.len() && v.votes <= i + 1
    &&& v.step matches VoteStep::ReleaseAt(i) ==> i < v.known.len()
    &&& v.step == VoteStep::Granted ==> v.lease is Some
    &&& (v.step == VoteStep::ReleaseOwn || v.step == VoteStep::ListPeers || v.step is ReleaseAt || v.step
        == VoteStep::Failed) ==> v.error is Some
}

proof fn lemma_addresses_len(peers: Seq<PeerView>, healthy: bool)
    ensures
        addresses(peers, healthy).len() <= peers.len(),
    decreases peers.len(),
{
    if peers.len() > 0 {
        lemma_addresses_len(peers.drop_last(), healthy);
    }
}

proof fn lemma_voting_kept(v: VoteView, reply: VoteReplyView)
    requires
        voting(v),
        vote_accepts(v.step, reply),
    ensures
        voting(vote_moved(v, reply)),
{
    if let VoteReplyView::Members(_, peers) = reply {
        lemma_addresses_len(peers, true);
    }
}

/// What is asked of a peer: the lease, and how long it is to last unless a vote is
/// taken back.
pub open spec fn vote_request(v: VoteView) -> ObjectView {
    let named = Map::<Seq<char>, JsonView>::empty().insert("volume"@, JsonView::Str(v.request.volume)).insert(
        "holder_node"@,
        JsonView::Str(v.request.holder),
    ).insert("epoch"@, JsonView::Int(v.request.epoch as int));
    if v.step is ReleaseAt {
        named
    } else {
        named.insert("ttl"@, number_json(v.request.ttl))
    }
}

/// Where it is asked.
pub open spec fn vote_path(v: VoteView) -> Seq<char> {
    if v.step is ReleaseAt {
        "/v1/mesh/lease/release"@
    } else if v.request.renewal {
        "/v1/mesh/lease/renew"@
    } else {
        "/v1/mesh/lease/grant"@
    }
}

impl LeaseVote {
    /// The vote on a lease; `unavailable` is the code of the error that it did not
    /// carry. A new lease is the shared store's to give, where there is one.
    pub fn new(request: LeaseRequest, unavailable: String, shared_store: bool) -> (r: LeaseVote)
        ensures
            voting(r@),
            r@ == (VoteView {
                request: request@,
                unavailable: unavailable@,
                step: if shared_store && !request.renewal {
                    VoteStep::AskStore
                } else {
                    VoteStep::AskOwn
                },
                needed: 0,
                asked: Seq::empty(),
                known: Seq::empty(),
                own: false,
                votes: 0,
                lease: None,
                error: None,
            }),
    {
        let step = if shared_store && !request.renewal {
            VoteStep::AskStore
        } else {
            VoteStep::AskOwn
        };
        let r = LeaseVote {
            request,
            unavailable,
            step,
            needed: 0,
            asked: Vec::new(),
            known: Vec::new(),
            own: false,
            votes: 0,
            lease: None,
            error: None,
        };
        assert(texts(r.asked@) =~= Seq::empty());
        assert(texts(r.known@) =~= Seq::empty());
        r
    }

    /// The step to perform.
    pub fn step(&self) -> (r: VoteStep)
        ensures
            r == self@.step,
    {
        self.step
    }

    /// The lease that is voted on.
    pub fn lease_request(&self) -> (r: &LeaseRequest)
        ensures
            r@ == self@.request,
    {
        &self.request
    }

    /// Where the peer is reached that this step asks.
    pub fn peer(&self) -> (r: &String)
        requires
            voting(self@),
            self@.step is Ask || self@.step is ReleaseAt,
        ensures
            r@ == match self@.step {
                VoteStep::Ask(i) => self@.asked[i as int],
                VoteStep::ReleaseAt(i) => self@.known[i as int],
                _ => r@,
            },
    {
        match self.step {
            VoteStep::ReleaseAt(i) => &self.known[i],
            VoteStep::Ask(i) => &self.asked[i],
            _ => &self.unavailable,
        }
    }

    /// What this step asks of a peer.
    pub fn body(&self) -> (r: JsonMap)
        ensures
            r@ == vote_request(self@),
    {
        let mut body = JsonMap::new();
        body.insert("volume".to_owned(), Json::Str(self.request.volume.clone()));
        body.insert("holder_node".to_owned(), Json::Str(self.request.holder.clone()));
        body.insert("epoch".to_owned(), Json::Int(self.request.epoch as i128));
        match self.step {
            VoteStep::ReleaseAt(_) => {},
            _ => {
                body.insert("ttl".to_owned(), json_number(self.request.ttl));
            },
        }
        body
    }

    /// Where this step asks it.
    pub fn path(&self) -> (r: String)
        ensures
            r@ == vote_path(self@),
    {
        match self.step {
            VoteStep::ReleaseAt(_) => "/v1/mesh/lease/release".to_owned(),
            _ => if self.request.renewal {
                "/v1/mesh/lease/renew".to_owned()
            } else {
                "/v1/mesh/lease/grant".to_owned()
            },
        }
    }

    fn deed(&self) -> (r: &'static str)
        ensures
            r@ == deed(self@.request),
    {
        if self.request.renewal {
            "renew"
        } else {
            "grant"
        }
    }

    fn ballot(&mut self, granted: bool, record: Option<Json>)
        requires
            old(self)@.votes < usize::MAX,
        ensures
            final(self)@ == with_ballot(old(self)@, granted, opt_json(record)),
    {
        if granted {
            self.votes = self.votes + 1;
            if self.lease.is_none() {
                self.lease = record;
            }
        }
    }

    fn count(&mut self)
        ensures
            final(self)@ == counted(old(self)@),
    {
        if self.votes >= self.needed && self.own {
            if self.lease.is_some() {
                self.step = VoteStep::Granted;
            } else {
                self.error = Some(MeshError::invalid(cat3("lease ", self.deed(), " missing record").as_str()));
                self.step = VoteStep::Failed;
            }
        } else {
            let mut message = cat5("lease ", self.deed(), " for volume '", self.request.volume.as_str(), "' got ");
            let mut tally = cat3(
                render_u64(self.votes as u64).as_str(),
                "/",
                render_u64(self.needed as u64).as_str(),
            );
            tally.append(" votes");
            message.append(tally.as_str());
            self.error = Some(MeshError::with_code(message, self.unavailable.as_str()));
            self.step = if self.request.renewal {
                VoteStep::Failed
            } else {
                VoteStep::ReleaseOwn
            };
        }
    }

    fn ask_from(&mut self, i: usize)
        ensures
            final(self)@ == asked_to(old(self)@, i as nat),
    {
        if i < self.asked.len() {
            self.step = VoteStep::Ask(i);
        } else {
            self.count();
        }
    }

    /// Takes what came of the step and moves on.
    pub fn resume(&mut self, reply: VoteReply)
        requires
            voting(old(self)@),
            vote_accepts(old(self)@.step, reply@),
        ensures
            voting(final(self)@),
            final(self)@ == vote_moved(old(self)@, reply@),
    {
        let step = self.step;
        proof {
            lemma_voting_kept(self@, reply@);
            assert(texts(self.known@).len() == self.known@.len());
        }
        match step {
            VoteStep::ReleaseOwn => {
                self.step = VoteStep::ListPeers;
                return ;
            },
            VoteStep::ReleaseAt(i) => {
                let known: usize = self.known.len();
                self.step = if i + 1 < known {
                    VoteStep::ReleaseAt(i + 1)
                } else {
                    VoteStep::Failed
                };
                return ;
            },
            _ => {},
        }
        match reply {
            VoteReply::Error(e) => {
                self.error = Some(e);
                self.step = VoteStep::Failed;
            },
            VoteReply::Lease(lease) => {
                self.lease = Some(lease);
                self.step = VoteStep::Granted;
            },
            VoteReply::Members(needed, peers) => {
                self.needed = needed;
                self.asked = collect_addresses(&peers, true);
                self.ask_from(0);
            },
            VoteReply::Peers(peers) => {
                self.known = collect_addresses(&peers, false);
                self.step = if self.known.len() > 0 {
                    VoteStep::ReleaseAt(0)
                } else {
                    VoteStep::Failed
                };
                assert(texts(self.known@).len() == self.known@.len());
            },
            VoteReply::Decision(granted, record) => {
                self.ballot(granted, record);
                match step {
                    VoteStep::Ask(i) => self.ask_from(i + 1),
                    _ => {
                        self.own = granted;
                        self.step = VoteStep::CountMembers;
                    },
                }
            },
            _ => {
                if let VoteStep::Ask(i) = step {
                    self.ask_from(i + 1);
                }
            },
        }
    }

    /// What came of the vote.
    pub fn outcome(self) -> (r: Result<Json, MeshError>)
        requires
            voting(self@),
            self@.step == VoteStep::Granted || self@.step == VoteStep::Failed,
        ensures
            match r {
                Ok(lease) => self@.step == VoteStep::Granted && self@.lease == Some(lease@),
                Err(e) => self@.step == VoteStep::Failed && self@.error == Some(e@),
            },
    {
        match (self.step, self.lease, self.error) {
            (VoteStep::Granted, Some(lease), _) => Ok(lease),
            (_, _, Some(e)) => Err(e),
            (_, _, None) => Err(MeshError::invalid("")),
        }
    }
}

/// A vote once its steps had `replies`.
pub open spec fn vote_after(v: VoteView, replies: Seq<VoteReplyView>) -> VoteView
    decreases replies.len(),
{
    if replies.len() == 0 {
        v
    } else {
        vote_moved(vote_after(v, replies.drop_last()), replies.last())
    }
}

/// Whether each reply is one that its step can have.
pub open spec fn vote_run(v: VoteView, replies: Seq<VoteReplyView>) -> bool
    decreases replies.len(),
{
    replies.len() == 0 || (vote_run(v, replies.drop_last()) && vote_accepts(
        vote_after(v, replies.drop_last()).step,
        replies.last(),
    ))
}

/// A vote as it begins.
pub open spec fn fresh_vote(v: VoteView) -> bool {
    (v.step == VoteStep::AskOwn || (v.step == VoteStep::AskStore && !v.request.renewal)) && v.votes == 0 && !v.own
        && v.lease is None && v.error is None && v.asked.len() == 0 && v.known.len() == 0
}

/// Two holders cannot both carry a vote in which each member votes once and more
/// than half of the members are needed.
pub proof fn law_majority_is_exclusive(a: VoteView, b: VoteView, members: nat)
    requires
        2 * a.needed > members,
        2 * b.needed > members,
        a.votes + b.votes <= members,
    ensures
        !(carried(a) && carried(b)),
{
}

/// A vote among the members ends well only where it carried.
pub proof fn law_granted_vote_carried(v: VoteView, replies: Seq<VoteReplyView>)
    requires
        fresh_vote(v),
        v.step == VoteStep::AskOwn,
        vote_run(v, replies),
    ensures
        vote_after(v, replies).step != VoteStep::AskStore,
        vote_after(v, replies).step == VoteStep::Granted ==> carried(vote_after(v, replies)),
    decreases replies.len(),
{
    if replies.len() > 0 {
        law_granted_vote_carried(v, replies.drop_last());
    }
}

proof fn lemma_vote_run(v: VoteView, replies: Seq<VoteReplyView>)
    requires
        fresh_vote(v),
        vote_run(v, replies),
    ensures
        ({
            let w = vote_after(v, replies);
            &&& w.request == v.request
            &&& w.unavailable == v.unavailable
            &&& (w.step == VoteStep::ReleaseOwn || w.step == VoteStep::ListPeers || w.step is ReleaseAt)
                ==> !w.request.renewal && w.error == Some(lost(w)) && !carried(w)
        }),
    decreases replies.len(),
{
    if replies.len() > 0 {
        lemma_vote_run(v, replies.drop_last());
    }
}

/// A failed renewal takes no vote back: the holder goes on until its deadline.
pub proof fn law_failed_renewal_releases_nothing(v: VoteView, replies: Seq<VoteReplyView>)
    requires
        fresh_vote(v),
        v.request.renewal,
        vote_run(v, replies),
    ensures
        vote_after(v, replies).step != VoteStep::ReleaseOwn,
        !(vote_after(v, replies).step is ReleaseAt),
{
    lemma_vote_run(v, replies);
}

/// Whether every reply is one that taking a vote back can have.
pub open spec fn releases(replies: Seq<VoteReplyView>) -> bool {
    forall|i: int| 0 <= i < replies.len() ==> (#[trigger] replies[i]) is Done || replies[i] is Error
}

proof fn lemma_releases(w: VoteView, replies: Seq<VoteReplyView>)
    requires
        w.known.len() <= usize::MAX,
        w == released_to(w, 0),
        replies.len() <= w.known.len(),
    ensures
        vote_after(w, replies) == released_to(w, replies.len()),
    decreases replies.len(),
{
    if replies.len() > 0 {
        lemma_releases(w, replies.drop_last());
    }
}

/// Where the vote on a new lease did not carry, the node takes its own vote back and
/// then that of every peer it knows, healthy or not, whatever came of each; and the
/// vote fails with the error that the lease cannot be had.
pub proof fn law_lost_vote_is_released_everywhere(
    v: VoteView,
    replies: Seq<VoteReplyView>,
    own: VoteReplyView,
    peers: Seq<PeerView>,
    released: Seq<VoteReplyView>,
)
    requires
        fresh_vote(v),
        vote_run(v, replies),
        vote_after(v, replies).step == VoteStep::ReleaseOwn,
        own is Done || own is Error,
        addresses(peers, false).len() <= usize::MAX,
        released.len() <= addresses(peers, false).len(),
        releases(released),
    ensures
        ({
            let w = vote_after(v, replies);
            let listed = vote_moved(vote_moved(w, own), VoteReplyView::Peers(peers));
            let x = vote_after(listed, released);
            &&& !carried(w)
            &&& vote_moved(w, own).step == VoteStep::ListPeers
            &&& x.known == addresses(peers, false)
            &&& released.len() < x.known.len() ==> x.step == VoteStep::ReleaseAt(released.len() as usize)
            &&& released.len() == x.known.len() ==> x.step == VoteStep::Failed
            &&& x.error == Some(lost(w))
        }),
{
    lemma_vote_run(v, replies);
    let w = vote_after(v, replies);
    let listed = vote_moved(vote_moved(w, own), VoteReplyView::Peers(peers));
    lemma_releases(listed, released);
}

proof fn lemma_addresses_all(peers: Seq<PeerView>)
    ensures
        addresses(peers, false) == Seq::new(peers.len(), |i: int| peers[i].advertise),
    decreases peers.len(),
{
    if peers.len() > 0 {
        lemma_addresses_all(peers.drop_last());
    }
    assert(addresses(peers, false) =~= Seq::new(peers.len(), |i: int| peers[i].advertise));
}

/// The peers that are asked are the healthy ones, each in its place.
pub proof fn law_healthy_peers_are_asked_in_order(peers: Seq<PeerView>)
    ensures
        addresses(peers, true) == peers.filter(|p: PeerView| p.healthy).map_values(|p: PeerView| p.advertise),
    decreases peers.len(),
{
    reveal(Seq::filter);
    if peers.len() > 0 {
        law_healthy_peers_are_asked_in_order(peers.drop_last());
    }
    assert(addresses(peers, true) =~= peers.filter(|p: PeerView| p.healthy).map_values(
        |p: PeerView| p.advertise,
    ));
}

/// Votes are taken back at every peer, and asked for at the healthy ones only.
pub proof fn law_healthy_peers_are_asked(peers: Seq<PeerView>, url: Seq<char>)
    ensures
        addresses(peers, false) == Seq::new(peers.len(), |i: int| peers[i].advertise),
        addresses(peers, true).contains(url) <==> exists|i: int|
            0 <= i < peers.len() && (#[trigger] peers[i]).healthy && peers[i].advertise == url,
    decreases peers.len(),
{
    lemma_addresses_all(peers);
    if peers.len() > 0 {
        let rest = peers.drop_last();
        law_healthy_peers_are_asked(rest, url);
        let some = addresses(rest, true);
        let all = addresses(peers, true);
        assert(forall|i: int| 0 <= i < rest.len() ==> #[trigger] rest[i] == peers[i]);
        if all.contains(url) {
            let j = choose|j: int| 0 <= j < all.len() && all[j] == url;
            if j < some.len() {
                assert(some[j] == url);
                let i = choose|i: int| 0 <= i < rest.len() && (#[trigger] rest[i]).healthy && rest[i].advertise == url;
                assert(peers[i].healthy);
            } else {
                assert(peers[peers.len() - 1].healthy);
            }
        }
        if exists|i: int| 0 <= i < peers.len() && (#[trigger] peers[i]).healthy && peers[i].advertise == url {
            let i = choose|i: int|
                0 <= i < peers.len() && (#[trigger] peers[i]).healthy && peers[i].advertise == url;
            if i < rest.len() {
                assert(rest[i].healthy);
                let j = choose|j: int| 0 <= j < some.len() && some[j] == url;
                assert(all[j] == url);
            } else {
                assert(all[all.len() - 1] == url);
            }
        }
    }
}

/// Whether a reply is a member's answer that it grants.
pub open spec fn grants(reply: VoteReplyView) -> bool {
    reply matches VoteReplyView::Decision(granted, _) && granted
}

/// How many of the replies say that a member grants.
pub open spec fn granting(replies: Seq<VoteReplyView>) -> nat {
    replies.filter(|reply: VoteReplyView| grants(reply)).len()
}

proof fn lemma_granting(replies: Seq<VoteReplyView>)
    requires
        replies.len() > 0,
    ensures
        granting(replies) == granting(replies.drop_last()) + if grants(replies.last()) {
            1nat
        } else {
            0
        },
{
    reveal(Seq::filter);
}

/// The votes of a run are the answers in it, the node's own and the peers', that say
/// granted. A refusal, a silent peer or anything else that is replied adds none.
pub proof fn law_votes_are_grants(v: VoteView, replies: Seq<VoteReplyView>)
    requires
        fresh_vote(v),
        vote_run(v, replies),
    ensures
        vote_after(v, replies).votes == granting(replies),
    decreases replies.len(),
{
    if replies.len() == 0 {
        assert(replies =~= Seq::empty());
        reveal(Seq::filter);
    } else {
        law_votes_are_grants(v, replies.drop_last());
        lemma_granting(replies);
    }
}

/// Whether no reply is an error.
pub open spec fn faultless(replies: Seq<VoteReplyView>) -> bool {
    forall|i: int| 0 <= i < replies.len() ==> !((#[trigger] replies[i]) is Error)
}

/// Where a vote among the members stands after a run.
spec fn tallied(replies: Seq<VoteReplyView>, w: VoteView) -> bool {
    let n = replies.len() as int;
    &&& w.step == VoteStep::AskOwn <==> n == 0
    &&& w.step != VoteStep::AskStore
    &&& w.step == VoteStep::CountMembers ==> n == 1 && w.own == grants(replies[0])
    &&& w.step matches VoteStep::Ask(i) ==> n == i + 2
    &&& w.step is Ask || w.step == VoteStep::Granted || w.step == VoteStep::ReleaseOwn ==> n >= 2 && w.own == grants(
        replies[0],
    ) && (replies[1] matches VoteReplyView::Members(needed, peers) && w.needed == needed && w.asked == addresses(
        peers,
        true,
    ))
    &&& w.step == VoteStep::Granted || w.step == VoteStep::ReleaseOwn ==> n == w.asked.len() + 2
}

proof fn lemma_tallied(v: VoteView, replies: Seq<VoteReplyView>)
    requires
        fresh_vote(v),
        v.step == VoteStep::AskOwn,
        vote_run(v, replies),
    ensures
        tallied(replies, vote_after(v, replies)),
        voting(vote_after(v, replies)),
    decreases replies.len(),
{
    if replies.len() > 0 {
        let before = replies.drop_last();
        lemma_tallied(v, before);
        lemma_voting_kept(vote_after(v, before), replies.last());
        assert(before.len() > 0 ==> before[0] == replies[0]);
        assert(before.len() > 1 ==> before[1] == replies[1]);
    }
}

/// A vote among the members ends with the lease only where the node itself answered
/// that it grants, and at least as many members did as were said to be needed.
pub proof fn law_granted_vote_had_its_majority(v: VoteView, replies: Seq<VoteReplyView>)
    requires
        fresh_vote(v),
        v.step == VoteStep::AskOwn,
        vote_run(v, replies),
        vote_after(v, replies).step == VoteStep::Granted,
    ensures
        replies.len() >= 2,
        replies[0] matches VoteReplyView::Decision(granted, _) && granted,
        replies[1] matches VoteReplyView::Members(needed, _) && granting(replies) >= needed,
{
    lemma_tallied(v, replies);
    law_votes_are_grants(v, replies);
    law_granted_vote_carried(v, replies);
}

/// Once the node itself and every healthy peer were asked, whether they answered or
/// not, the vote is decided: the lease is held exactly where the node granted, enough
/// members did, and one of them sent the lease's record. A new lease that too few
/// granted is taken back; a renewal that too few granted has failed.
pub proof fn law_vote_is_decided_by_grants(
    v: VoteView,
    replies: Seq<VoteReplyView>,
    needed: nat,
    peers: Seq<PeerView>,
)
    requires
        fresh_vote(v),
        v.step == VoteStep::AskOwn,
        vote_run(v, replies),
        faultless(replies),
        replies.len() >= 2,
        replies[1] == VoteReplyView::Members(needed, peers),
        replies.len() == 2 + addresses(peers, true).len(),
    ensures
        ({
            let w = vote_after(v, replies);
            let enough = grants(replies[0]) && granting(replies) >= needed;
            let recorded = exists|i: int| 0 <= i < replies.len() && holds_record(#[trigger] replies[i]);
            &&& enough && recorded <==> w.step == VoteStep::Granted
            &&& enough && !recorded ==> w.step == VoteStep::Failed
            &&& !enough && v.request.renewal ==> w.step == VoteStep::Failed
            &&& !enough && !v.request.renewal ==> w.step == VoteStep::ReleaseOwn
        }),
{
    law_votes_are_grants(v, replies);
    lemma_lease_of_run(v, replies);
    lemma_vote_run(v, replies);
    lemma_faultless(v, replies);
}

/// What a run without errors has told the vote so far.
spec fn told(replies: Seq<VoteReplyView>, w: VoteView) -> bool {
    let n = replies.len() as int;
    &&& n == 0 ==> w.step == VoteStep::AskOwn
    &&& n == 1 ==> w.step == VoteStep::CountMembers && w.own == grants(replies[0])
    &&& n >= 2 ==> (replies[1] matches VoteReplyView::Members(needed, peers) && {
        &&& w.needed == needed
        &&& w.asked == addresses(peers, true)
        &&& w.own == grants(replies[0])
        &&& n < 2 + w.asked.len() ==> w.step == VoteStep::Ask((n - 2) as usize)
        &&& n == 2 + w.asked.len() ==> w == counted(VoteView { error: None, ..w })
    })
}

proof fn lemma_faultless(v: VoteView, replies: Seq<VoteReplyView>)
    requires
        fresh_vote(v),
        v.step == VoteStep::AskOwn,
        vote_run(v, replies),
        faultless(replies),
        replies.len() >= 2 ==> (replies[1] matches VoteReplyView::Members(_, peers) ==> replies.len() <= 2 + addresses(
            peers,
            true,
        ).len()),
    ensures
        told(replies, vote_after(v, replies)),
        vote_after(v, replies).error is None || (replies.len() >= 2 && replies.len() == 2 + vote_after(
            v,
            replies,
        ).asked.len()),
    decreases replies.len(),
{
    if replies.len() > 0 {
        let before = replies.drop_last();
        assert(forall|i: int| 0 <= i < before.len() ==> #[trigger] before[i] == replies[i]);
        assert(!(replies[replies.len() - 1] is Error));
        lemma_faultless(v, before);
        lemma_tallied(v, before);
    }
}

/// Whether a reply is a member's answer that it grants, with the lease's record.
pub open spec fn holds_record(reply: VoteReplyView) -> bool {
    reply matches VoteReplyView::Decision(granted, record) && granted && record is Some
}

proof fn lemma_lease_of_run(v: VoteView, replies: Seq<VoteReplyView>)
    requires
        fresh_vote(v),
        v.step == VoteStep::AskOwn,
        vote_run(v, replies),
    ensures
        ({
            let w = vote_after(v, replies);
            &&& w.lease is None ==> forall|i: int| 0 <= i < replies.len() ==> !holds_record(#[trigger] replies[i])
            &&& w.lease is Some ==> exists|i: int|
                0 <= i < replies.len() && holds_record(#[trigger] replies[i]) && replies[i]->Decision_1 == w.lease
                    && forall|j: int| 0 <= j < i ==> !holds_record(#[trigger] replies[j])
        }),
    decreases replies.len(),
{
    if replies.len() > 0 {
        let before = replies.drop_last();
        let last = replies.len() - 1;
        lemma_lease_of_run(v, before);
        lemma_tallied(v, before);
        let u = vote_after(v, before);
        let w = vote_after(v, replies);
        assert(forall|i: int| 0 <= i < before.len() ==> #[trigger] before[i] == replies[i]);
        if u.lease is Some {
            let i = choose|i: int|
                0 <= i < before.len() && holds_record(#[trigger] before[i]) && before[i]->Decision_1 == u.lease
                    && forall|j: int| 0 <= j < i ==> !holds_record(#[trigger] before[j]);
            assert(holds_record(replies[i]));
            assert forall|j: int| 0 <= j < i implies !holds_record(#[trigger] replies[j]) by {
                assert(!holds_record(before[j]));
            }
            assert(w.lease == u.lease);
        } else {
            assert forall|j: int| 0 <= j < last implies !holds_record(#[trigger] replies[j]) by {
                assert(!holds_record(before[j]));
            }
            if holds_record(replies[last]) {
                assert(w.lease == replies[last]->Decision_1);
            }
        }
    }
}

/// The lease of a vote that the members granted is described by the first of them
/// that granted and sent a record.
pub proof fn law_first_record_describes_lease(v: VoteView, replies: Seq<VoteReplyView>)
    requires
        fresh_vote(v),
        v.step == VoteStep::AskOwn,
        vote_run(v, replies),
        vote_after(v, replies).step == VoteStep::Granted,
    ensures
        exists|i: int|
            0 <= i < replies.len() && holds_record(#[trigger] replies[i]) && replies[i]->Decision_1 == vote_after(
                v,
                replies,
            ).lease && forall|j: int| 0 <= j < i ==> !holds_record(#[trigger] replies[j]),
{
    lemma_tallied(v, replies);
    lemma_lease_of_run(v, replies);
}

/// Where the shared store is asked, its answer is the outcome.
pub proof fn law_store_decides(v: VoteView, lease: JsonView, error: MeshErrorView)
    requires
        v.step == VoteStep::AskStore,
    ensures
        vote_moved(v, VoteReplyView::Lease(lease)).step == VoteStep::Granted,
        vote_moved(v, VoteReplyView::Lease(lease)).lease == Some(lease),
        vote_moved(v, VoteReplyView::Error(error)).step == VoteStep::Failed,
        vote_moved(v, VoteReplyView::Error(error)).error == Some(error),
{
}

/// An error before the vote is decided ends it with that error, and no vote is taken
/// back.
pub proof fn law_error_ends_vote(v: VoteView, error: MeshErrorView)
    requires
        v.step == VoteStep::AskOwn || v.step == VoteStep::CountMembers || v.step is Ask,
    ensures
        ({
            let w = vote_moved(v, VoteReplyView::Error(error));
            &&& w.step == VoteStep::Failed
            &&& w.error == Some(error)
            &&& w.votes == v.votes
        }),
{
}

/// Every peer that is asked, in its turn, is asked for the volume and holder and
/// epoch that the vote is on.
pub proof fn law_peers_are_asked_for_the_lease(v: VoteView)
    ensures
        vote_request(v)["volume"@] == JsonView::Str(v.request.volume),
        vote_request(v)["holder_node"@] == JsonView::Str(v.request.holder),
        vote_request(v)["epoch"@] == JsonView::Int(v.request.epoch as int),
        vote_request(v).contains_key("ttl"@) <==> !(v.step is ReleaseAt),
        !(v.step is ReleaseAt) ==> vote_request(v)["ttl"@] == number_json(v.request.ttl),
{
    reveal_strlit("volume");
    reveal_strlit("holder_node");
    reveal_strlit("epoch");
    reveal_strlit("ttl");
    assert("volume"@.len() == 6 && "holder_node"@.len() == 11 && "epoch"@.len() == 5 && "ttl"@.len() == 3);
}

} // verus!
