//! Idempotent creates: of several schedulers that are asked for the same sandbox
//! one creates it, and the others wait for it.
use crate::json::{filled_at, json_read, members_of, read_json, Json, JsonView, ObjectView};
use crate::orch::routes::{told_sid, view_sid};
use crate::orch::status::{coded, coded_status, Code, Status, StatusView};
use crate::orch::table::{needs_of, NeedsView, PlacementNeeds};
use crate::text::{cat2, chars_of, opt_text, starts_with, string_of};
use vstd::prelude::*;

verus! {

/// The key of an idempotent create's hold.
pub open spec fn hold_key(key: Seq<char>) -> Seq<char> {
    "vmon:o:idem:"@ + key
}

/// The key of an idempotent create's hold.
pub fn idem_key(key: &str) -> (r: String)
    ensures
        r@ == hold_key(key@),
{
    cat2("vmon:o:idem:", key)
}

/// What stands in the hold while a scheduler creates the sandbox.
pub open spec fn pending_text(instance: Seq<char>) -> Seq<char> {
    "pending:"@ + instance
}

/// What stands in the hold once the sandbox is created.
pub open spec fn winner_text(sid: Seq<char>) -> Seq<char> {
    "sid:"@ + sid
}

/// What stands in the hold while a scheduler creates the sandbox.
pub fn pending_marker(instance: &str) -> (r: String)
    ensures
        r@ == pending_text(instance@),
{
    cat2("pending:", instance)
}

/// The key under which a request is idempotent.
pub open spec fn key_in(spec_value: JsonView) -> Option<Seq<char>> {
    match members_of(spec_value) {
        Some(m) => filled_at(m, "idempotency_key"@),
        None => None,
    }
}

/// The key under which a request is idempotent.
pub fn idempotency_key(spec_value: &Json) -> (r: Option<String>)
    ensures
        opt_text(r) == key_in(spec_value@),
{
    match spec_value.as_object() {
        Some(m) => m.filled_at("idempotency_key"),
        None => None,
    }
}

/// What a written request asks for: its needs, and the key under which it is
/// idempotent.
pub open spec fn asked_for(spec_json: Seq<char>) -> Result<(NeedsView, Option<Seq<char>>), StatusView> {
    match json_read(spec_json) {
        Ok(v) => Ok((needs_of(v), key_in(v))),
        Err(_) => Err(coded_status(Code::InvalidArgument, "invalid"@, false, "invalid create spec JSON"@)),
    }
}

/// What a written request asks for.
pub fn read_request(spec_json: &str) -> (r: Result<(PlacementNeeds, Option<String>), Status>)
    ensures
        match r {
            Ok((needs, key)) => asked_for(spec_json@) == Ok::<(NeedsView, Option<Seq<char>>), StatusView>(
                (needs@, opt_text(key)),
            ),
            Err(s) => asked_for(spec_json@) == Err::<(NeedsView, Option<Seq<char>>), StatusView>(s@),
        },
{
    match read_json(spec_json) {
        Ok(v) => Ok((PlacementNeeds::from_create_json(&v), idempotency_key(&v))),
        Err(_) => Err(coded(Code::InvalidArgument, "invalid", false, "invalid create spec JSON".to_owned())),
    }
}

/// What came of the attempt to take the hold.
#[derive(Clone, Copy, PartialEq, Eq, Structural, Debug)]
pub enum HoldReply {
    Taken,
    HeldElsewhere,
    Unavailable,
}

/// How a create goes on.
#[derive(Clone, Copy, PartialEq, Eq, Structural, Debug)]
pub enum HoldStep {
    /// The sandbox is created here, and the hold is kept up.
    CreateAsWinner,
    /// The sandbox is waited for.
    AwaitWinner,
    /// The sandbox is created without a hold.
    CreateFreely,
}

/// How a create goes on: without a key or a store there is no hold.
pub open spec fn hold_step(keyed: bool, reply: HoldReply) -> HoldStep {
    if !keyed {
        HoldStep::CreateFreely
    } else {
        match reply {
            HoldReply::Taken => HoldStep::CreateAsWinner,
            HoldReply::HeldElsewhere => HoldStep::AwaitWinner,
            HoldReply::Unavailable => HoldStep::CreateFreely,
        }
    }
}

/// How a create goes on.
pub fn after_hold(keyed: bool, reply: HoldReply) -> (r: HoldStep)
    ensures
        r == hold_step(keyed, reply),
{
    if !keyed {
        HoldStep::CreateFreely
    } else {
        match reply {
            HoldReply::Taken => HoldStep::CreateAsWinner,
            HoldReply::HeldElsewhere => HoldStep::AwaitWinner,
            HoldReply::Unavailable => HoldStep::CreateFreely,
        }
    }
}

/// What becomes of the hold after the create.
pub enum HoldUpdate {
    /// The hold tells the sandbox.
    Record(String),
    /// The hold is given up, so that another attempt can take it.
    Release,
    /// The hold stays as it is.
    Keep,
}

/// What becomes of the hold after the create: a view that names no sandbox leaves
/// it as it is.
pub fn after_create(view: Option<&str>) -> (r: HoldUpdate)
    ensures
        match view {
            None => r is Release,
            Some(v) => match told_sid(v@) {
                Some(sid) => r matches HoldUpdate::Record(t) && t@ == winner_text(sid),
                None => r is Keep,
            },
        },
{
    match view {
        None => HoldUpdate::Release,
        Some(v) => match view_sid(v) {
            Some(sid) => HoldUpdate::Record(cat2("sid:", sid.as_str())),
            None => HoldUpdate::Keep,
        },
    }
}

/// What the hold says while it is waited for.
pub enum HoldPoll {
    Value(String),
    Absent,
    Unavailable,
}

/// What is done next while a sandbox is waited for.
pub enum WaitStep {
    /// The sandbox is there.
    Fetch(String),
    Fail(Status),
    /// The hold is asked again after a while.
    Sleep,
}

pub open spec fn released_elsewhere() -> StatusView {
    coded_status(Code::Aborted, "busy"@, true, "idempotent create released by another scheduler; retry"@)
}

pub open spec fn still_elsewhere() -> StatusView {
    coded_status(Code::Aborted, "busy"@, true, "idempotent create still in progress elsewhere"@)
}

/// The sandbox that the hold tells.
pub open spec fn told_sandbox(value: Seq<char>) -> Option<Seq<char>> {
    if "sid:"@.is_prefix_of(value) {
        Some(value.skip(4))
    } else {
        None
    }
}

/// What is done next while a sandbox is waited for. A hold that is gone tells that
/// the create failed; one that cannot be read, or tells no sandbox yet, is asked
/// until the deadline.
pub fn await_winner(poll: HoldPoll, past_deadline: bool) -> (r: WaitStep)
    ensures
        match poll {
            HoldPoll::Absent => r matches WaitStep::Fail(s) && s@ == released_elsewhere(),
            HoldPoll::Value(v) if told_sandbox(v@) is Some => r matches WaitStep::Fetch(sid) && Some(sid@)
                == told_sandbox(v@),
            _ => if past_deadline {
                r matches WaitStep::Fail(s) && s@ == still_elsewhere()
            } else {
                r is Sleep
            },
        },
{
    match poll {
        HoldPoll::Absent => {
            return WaitStep::Fail(
                coded(
                    Code::Aborted,
                    "busy",
                    true,
                    "idempotent create released by another scheduler; retry".to_owned(),
                ),
            );
        },
        HoldPoll::Value(v) => {
            if starts_with(v.as_str(), "sid:") {
                proof {
                    reveal_strlit("sid:");
                }
                let chars = chars_of(v.as_str());
                let sid = string_of(&chars, 4, chars.len());
                assert(sid@ =~= v@.skip(4));
                return WaitStep::Fetch(sid);
            }
        },
        HoldPoll::Unavailable => {},
    }
    if past_deadline {
        WaitStep::Fail(
            coded(Code::Aborted, "busy", true, "idempotent create still in progress elsewhere".to_owned()),
        )
    } else {
        WaitStep::Sleep
    }
}

/// Whoever waits finds the sandbox that was recorded, and does not take the mark
/// of a create under way for one.
pub proof fn law_waiting_finds_the_winner(sid: Seq<char>, instance: Seq<char>)
    ensures
        told_sandbox(winner_text(sid)) == Some(sid),
        told_sandbox(pending_text(instance)) is None,
{
    reveal_strlit("sid:");
    reveal_strlit("pending:");
    let w = winner_text(sid);
    assert("sid:"@ =~= w.take(4));
    assert("sid:"@.is_prefix_of(w));
    assert(w.skip(4) =~= sid);
    let p = pending_text(instance);
    assert(p[0] == 'p' && "sid:"@[0] == 's');
    if "sid:"@.is_prefix_of(p) {
        assert("sid:"@[0] == p[0]);
    }
}

/// Of two schedulers that are asked for the same create, where the store gives the
/// hold to one of them only, the one that has it creates and the other one waits. A
/// request without a key, or a store that cannot be asked, holds nothing up.
pub proof fn law_holder_creates_and_other_waits(keyed: bool, reply: HoldReply)
    ensures
        hold_step(keyed, reply) == HoldStep::AwaitWinner <==> keyed && reply == HoldReply::HeldElsewhere,
        hold_step(keyed, reply) == HoldStep::CreateAsWinner <==> keyed && reply == HoldReply::Taken,
        !keyed || reply == HoldReply::Unavailable ==> hold_step(keyed, reply) == HoldStep::CreateFreely,
{
}

/// The holds of two keys are apart.
pub proof fn law_holds_are_apart(a: Seq<char>, b: Seq<char>)
    ensures
        hold_key(a) == hold_key(b) ==> a == b,
{
    let head = "vmon:o:idem:"@;
    if hold_key(a) == hold_key(b) {
        assert(a =~= hold_key(a).skip(head.len() as int));
        assert(b =~= hold_key(b).skip(head.len() as int));
    }
}

/// A request's key is the text it gives, if it is not empty.
pub proof fn law_key_is_read(m: ObjectView, key: Seq<char>)
    requires
        m.contains_key("idempotency_key"@),
        m["idempotency_key"@] == JsonView::Str(key),
    ensures
        key_in(JsonView::Object(m)) == if key.len() > 0 {
            Some(key)
        } else {
            None
        },
        key_in(JsonView::Object(m.remove("idempotency_key"@))) is None,
{
}

} // verus!
