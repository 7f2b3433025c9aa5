//! Claiming a member of a pool: it is renamed and brought into the state that is
//! wanted; one that cannot be is torn down, and the next is tried.
use crate::error::{EngineError, ErrorView};
use crate::pools::{counted, MemberView, PooledVm, WarmPool, WarmView};
use crate::text::{opt_text, text_eq};
use vstd::prelude::*;

verus! {

/// What is to be done next for a claim.
#[derive(Clone, Copy, PartialEq, Eq, Structural, Debug)]
pub enum ClaimStep {
    /// The oldest member is to be taken.
    Take,
    Rename,
    Resume,
    Pause,
    /// The member is to be torn down; another may then be tried.
    TearDownAndRetry,
    /// The member is to be torn down; the claim then fails.
    TearDownAndFail,
    Claimed,
    Missed,
    Failed,
}

/// A claim under way.
pub struct Claim {
    wanted: Option<String>,
    want_paused: bool,
    step: ClaimStep,
    member: Option<PooledVm>,
    error: Option<EngineError>,
}

pub ghost struct ClaimView {
    pub wanted: Option<Seq<char>>,
    pub want_paused: bool,
    pub step: ClaimStep,
    pub member: Option<MemberView>,
    pub error: Option<ErrorView>,
}

impl View for Claim {
    type V = ClaimView;

    closed spec fn view(&self) -> ClaimView {
        ClaimView {
            wanted: opt_text(self.wanted),
            want_paused: self.want_paused,
            step: self.step,
            member: match self.member {
                Some(m) => Some(m@),
                None => None,
            },
            error: match self.error {
                Some(e) => Some(e@),
                None => None,
            },
        }
    }
}

/// What is done with a member that has its name.
pub open spec fn transition(paused: bool, want_paused: bool) -> ClaimStep {
    if paused && !want_paused {
        ClaimStep::Resume
    } else if !paused && want_paused {
        ClaimStep::Pause
    } else {
        ClaimStep::Claimed
    }
}

/// What is done with a member that was taken: it is renamed unless it has the name
/// that is wanted, or none is.
pub open spec fn first_step(v: ClaimView, m: MemberView) -> ClaimStep {
    match v.wanted {
        Some(name) if m.name != name => ClaimStep::Rename,
        _ => transition(m.paused, v.want_paused),
    }
}

/// The claim after the oldest member was taken, or none was there.
pub open spec fn after_take(v: ClaimView, pool: WarmView) -> ClaimView {
    if pool.ready.len() == 0 {
        ClaimView { step: ClaimStep::Missed, member: None, ..v }
    } else {
        ClaimView { step: first_step(v, pool.ready[0]), member: Some(pool.ready[0]), ..v }
    }
}

/// The claim after a step that was done for it.
pub open spec fn after_step(v: ClaimView, error: Option<ErrorView>) -> ClaimView {
    match (v.step, v.member) {
        (ClaimStep::Rename, Some(m)) => match error {
            Some(e) => ClaimView { step: ClaimStep::TearDownAndFail, error: Some(e), ..v },
            None => ClaimView {
                step: transition(m.paused, v.want_paused),
                member: Some(MemberView { name: v.wanted->0, ..m }),
                ..v
            },
        },
        (ClaimStep::Resume, Some(m)) => if error is Some {
            ClaimView { step: ClaimStep::TearDownAndRetry, ..v }
        } else {
            ClaimView { step: ClaimStep::Claimed, member: Some(MemberView { paused: false, ..m }), ..v }
        },
        (ClaimStep::Pause, Some(m)) => if error is Some {
            ClaimView { step: ClaimStep::TearDownAndRetry, ..v }
        } else {
            ClaimView { step: ClaimStep::Claimed, member: Some(MemberView { paused: true, ..m }), ..v }
        },
        (ClaimStep::TearDownAndRetry, _) => ClaimView { step: ClaimStep::Take, member: None, ..v },
        (ClaimStep::TearDownAndFail, _) => ClaimView { step: ClaimStep::Failed, member: None, ..v },
        _ => v,
    }
}

/// Whether a claim can be in this state.
pub open spec fn claim_sound(v: ClaimView) -> bool {
    &&& v.step == ClaimStep::Rename ==> v.wanted is Some
    &&& v.member is Some <==> !(v.step == ClaimStep::Take || v.step == ClaimStep::Missed || v.step
        == ClaimStep::Failed)
    &&& v.step == ClaimStep::Resume ==> v.member->0.paused && !v.want_paused
    &&& v.step == ClaimStep::Pause ==> !v.member->0.paused && v.want_paused
    &&& v.step == ClaimStep::Claimed ==> v.member->0.paused == v.want_paused && (v.wanted matches Some(name)
        ==> v.member->0.name == name)
    &&& v.step == ClaimStep::Resume || v.step == ClaimStep::Pause ==> (v.wanted matches Some(name)
        ==> v.member->0.name == name)
    &&& v.error is Some <==> v.step == ClaimStep::TearDownAndFail || v.step == ClaimStep::Failed
}

impl Claim {
    /// A claim that begins.
    pub fn new(wanted: Option<String>, want_paused: bool) -> (r: Claim)
        ensures
            r@ == (ClaimView {
                wanted: opt_text(wanted),
                want_paused,
                step: ClaimStep::Take,
                member: None,
                error: None,
            }),
            claim_sound(r@),
    {
        Claim { wanted, want_paused, step: ClaimStep::Take, member: None, error: None }
    }

    /// What is to be done next.
    pub fn step(&self) -> (r: ClaimStep)
        ensures
            r == self@.step,
    {
        self.step
    }

    /// The member that it is to be done with.
    pub fn member(&self) -> (r: Option<&PooledVm>)
        ensures
            match r {
                Some(m) => self@.member == Some(m@),
                None => self@.member is None,
            },
    {
        self.member.as_ref()
    }

    /// Takes the oldest member of the pool.
    pub fn take_member(&mut self, pool: &mut WarmPool)
        requires
            claim_sound(old(self)@),
            old(self)@.step == ClaimStep::Take,
        ensures
            claim_sound(final(self)@),
            final(self)@ == after_take(old(self)@, old(pool)@),
            final(pool)@ == if old(pool)@.ready.len() == 0 {
                WarmView { misses: counted(old(pool)@.misses), ..old(pool)@ }
            } else if final(self)@.step == ClaimStep::Claimed {
                WarmView {
                    ready: old(pool)@.ready.drop_first(),
                    hits: counted(old(pool)@.hits),
                    ..old(pool)@
                }
            } else {
                WarmView { ready: old(pool)@.ready.drop_first(), ..old(pool)@ }
            },
    {
        match pool.take_ready() {
            None => {
                self.step = ClaimStep::Missed;
            },
            Some(member) => {
                let renames = match &self.wanted {
                    Some(name) => !text_eq(member.name.as_str(), name.as_str()),
                    None => false,
                };
                self.step = if renames {
                    ClaimStep::Rename
                } else if member.paused && !self.want_paused {
                    ClaimStep::Resume
                } else if !member.paused && self.want_paused {
                    ClaimStep::Pause
                } else {
                    ClaimStep::Claimed
                };
                self.member = Some(member);
                match self.step {
                    ClaimStep::Claimed => {
                        pool.count_hit();
                    },
                    _ => {},
                }
            },
        }
    }

    /// Notes how a step went that was done for the claim.
    pub fn resume(&mut self, pool: &mut WarmPool, error: Option<EngineError>)
        requires
            claim_sound(old(self)@),
            old(self)@.step != ClaimStep::Take,
        ensures
            claim_sound(final(self)@),
            final(self)@ == after_step(
                old(self)@,
                match error {
                    Some(e) => Some(e@),
                    None => None,
                },
            ),
            final(pool)@ == if final(self)@.step == ClaimStep::Claimed && old(self)@.step != ClaimStep::Claimed {
                WarmView { hits: counted(old(pool)@.hits), ..old(pool)@ }
            } else {
                old(pool)@
            },
    {
        let mut held: Option<PooledVm> = None;
        core::mem::swap(&mut self.member, &mut held);
        match self.step {
            ClaimStep::Rename => {
                match error {
                    Some(e) => {
                        self.step = ClaimStep::TearDownAndFail;
                        self.error = Some(e);
                        self.member = held;
                    },
                    None => {
                        match (held, &self.wanted) {
                            (Some(m), Some(name)) => {
                                self.step = if m.paused && !self.want_paused {
                                    ClaimStep::Resume
                                } else if !m.paused && self.want_paused {
                                    ClaimStep::Pause
                                } else {
                                    ClaimStep::Claimed
                                };
                                self.member = Some(PooledVm { name: name.clone(), paused: m.paused });
                                match self.step {
                                    ClaimStep::Claimed => {
                                        pool.count_hit();
                                    },
                                    _ => {},
                                }
                            },
                            _ => {},
                        }
                    },
                }
            },
            ClaimStep::Resume => {
                match (error, held) {
                    (None, Some(m)) => {
                        self.step = ClaimStep::Claimed;
                        self.member = Some(PooledVm { name: m.name, paused: false });
                        pool.count_hit();
                    },
                    (_, held) => {
                        self.step = ClaimStep::TearDownAndRetry;
                        self.member = held;
                    },
                }
            },
            ClaimStep::Pause => {
                match (error, held) {
                    (None, Some(m)) => {
                        self.step = ClaimStep::Claimed;
                        self.member = Some(PooledVm { name: m.name, paused: true });
                        pool.count_hit();
                    },
                    (_, held) => {
                        self.step = ClaimStep::TearDownAndRetry;
                        self.member = held;
                    },
                }
            },
            ClaimStep::TearDownAndRetry => {
                self.step = ClaimStep::Take;
            },
            ClaimStep::TearDownAndFail => {
                self.step = ClaimStep::Failed;
            },
            _ => {
                self.member = held;
            },
        }
    }

    /// What became of the claim: the member, none, or why it failed.
    pub fn outcome(self) -> (r: Result<Option<PooledVm>, EngineError>)
        requires
            claim_sound(self@),
            self@.step == ClaimStep::Claimed || self@.step == ClaimStep::Missed || self@.step == ClaimStep::Failed,
        ensures
            match r {
                Ok(Some(m)) => self@.step == ClaimStep::Claimed && self@.member == Some(m@) && m@.paused
                    == self@.want_paused && (self@.wanted matches Some(name) ==> m@.name == name),
                Ok(None) => self@.step == ClaimStep::Missed,
                Err(e) => self@.step == ClaimStep::Failed && self@.error == Some(e@),
            },
    {
        match self.error {
            Some(e) => Err(e),
            None => Ok(self.member),
        }
    }
}

/// Each step brings a claim nearer to its end: a member that is taken leaves the
/// pool, and no step puts one back.
pub open spec fn claim_rank(v: ClaimView, ready: nat) -> nat {
    ready * 5 + match v.step {
        ClaimStep::Rename => 4nat,
        ClaimStep::Resume => 3,
        ClaimStep::Pause => 3,
        ClaimStep::TearDownAndRetry => 2,
        ClaimStep::TearDownAndFail => 2,
        ClaimStep::Take => 1,
        _ => 0,
    }
}

/// Every claim ends.
pub proof fn law_claim_ends(v: ClaimView, pool: WarmView, error: Option<ErrorView>)
    requires
        claim_sound(v),
    ensures
        v.step == ClaimStep::Take ==> claim_rank(
            after_take(v, pool),
            if pool.ready.len() > 0 {
                (pool.ready.len() - 1) as nat
            } else {
                0
            },
        ) < claim_rank(v, pool.ready.len()),
        v.step != ClaimStep::Take && v.step != ClaimStep::Claimed && v.step != ClaimStep::Missed && v.step
            != ClaimStep::Failed ==> claim_rank(after_step(v, error), pool.ready.len()) < claim_rank(
            v,
            pool.ready.len(),
        ),
{
}

/// A member whose state cannot be changed is torn down before another is tried,
/// and one that cannot be renamed before the claim fails.
pub proof fn law_useless_member_is_torn_down(v: ClaimView, error: ErrorView)
    requires
        claim_sound(v),
    ensures
        v.step == ClaimStep::Resume || v.step == ClaimStep::Pause ==> after_step(v, Some(error)).step
            == ClaimStep::TearDownAndRetry && after_step(v, Some(error)).member == v.member,
        v.step == ClaimStep::Rename ==> after_step(v, Some(error)).step == ClaimStep::TearDownAndFail && after_step(
            v,
            Some(error),
        ).member == v.member,
{
}

/// A claim misses only where no member is left to try; and a member that is claimed
/// has the name and the state that are wanted.
pub proof fn law_claim_misses_only_an_empty_pool(v: ClaimView, pool: WarmView, error: Option<ErrorView>)
    requires
        claim_sound(v),
    ensures
        v.step == ClaimStep::Take ==> (after_take(v, pool).step == ClaimStep::Missed <==> pool.ready.len() == 0),
        v.step != ClaimStep::Missed ==> after_step(v, error).step != ClaimStep::Missed,
        v.step == ClaimStep::Claimed ==> v.member->0.paused == v.want_paused && (v.wanted matches Some(name)
            ==> v.member->0.name == name),
{
}

/// A claim takes the oldest member, renames it where it does not have the wanted name,
/// and then brings it into the wanted state where it is not in it.
pub proof fn law_claim_takes_the_oldest_member(v: ClaimView, pool: WarmView)
    requires
        pool.ready.len() > 0,
    ensures
        ({
            let w = after_take(v, pool);
            let m = pool.ready[0];
            let renames = v.wanted is Some && v.wanted->0 != m.name;
            &&& w.member == Some(m)
            &&& renames ==> w.step == ClaimStep::Rename
            &&& !renames && m.paused && !v.want_paused ==> w.step == ClaimStep::Resume
            &&& !renames && !m.paused && v.want_paused ==> w.step == ClaimStep::Pause
            &&& !renames && m.paused == v.want_paused ==> w.step == ClaimStep::Claimed
        }),
{
}

/// A member that was renamed has the wanted name and keeps its state; one that was
/// resumed runs, one that was paused is paused, under its name; both are then claimed.
pub proof fn law_claimed_member_is_as_wanted(v: ClaimView, m: MemberView)
    requires
        v.member == Some(m),
    ensures
        v.step == ClaimStep::Rename && v.wanted is Some ==> ({
            let w = after_step(v, None);
            &&& w.member == Some(MemberView { name: v.wanted->0, paused: m.paused })
            &&& m.paused && !v.want_paused ==> w.step == ClaimStep::Resume
            &&& !m.paused && v.want_paused ==> w.step == ClaimStep::Pause
            &&& m.paused == v.want_paused ==> w.step == ClaimStep::Claimed
        }),
        v.step == ClaimStep::Resume ==> after_step(v, None).step == ClaimStep::Claimed && after_step(v, None).member
            == Some(MemberView { name: m.name, paused: false }),
        v.step == ClaimStep::Pause ==> after_step(v, None).step == ClaimStep::Claimed && after_step(v, None).member
            == Some(MemberView { name: m.name, paused: true }),
{
}

/// After a useless member was torn down another one is tried, or the claim has failed
/// with the error that made it useless.
pub proof fn law_torn_down_member_is_replaced(v: ClaimView, error: Option<ErrorView>)
    ensures
        v.step == ClaimStep::TearDownAndRetry ==> after_step(v, error).step == ClaimStep::Take && after_step(
            v,
            error,
        ).member is None,
        v.step == ClaimStep::TearDownAndFail ==> after_step(v, error).step == ClaimStep::Failed && after_step(
            v,
            error,
        ).error == v.error,
        v.step == ClaimStep::Rename && v.member is Some && error is Some ==> after_step(v, error).error == error,
{
}

} // verus!
