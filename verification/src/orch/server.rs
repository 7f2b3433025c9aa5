//! Who may talk to a scheduler, and what it does in the background.
use crate::error::EngineError;
use crate::net::addr::invalid_input;
use crate::orch::autoscaler::AutoscalerOptions;
use crate::orch::table::{age, eq_but_case, same_but_case};
use crate::outside::{hex_encode, hex_text, random_bytes};
use crate::split::{halves_at_last, split_last};
use crate::text::{cat2, chars_of, opt_text, starts_with, string_of, text_eq};
use vstd::prelude::*;

verus! {

/// How long the leader's lease lasts, in nanoseconds.
pub const LEADER_TTL: u64 = 10_000_000_000;

/// How often the leader's lease is renewed, in nanoseconds.
pub const LEADER_TICK: u64 = 2_000_000_000;

/// What a scheduler is started with. Times are nanoseconds.
#[derive(Debug)]
pub struct SchedulerOptions {
    pub listen: String,
    pub redis_url: Option<String>,
    pub token: Option<String>,
    pub worker_token: Option<String>,
    pub dead_after: u64,
    pub create_timeout: u64,
    pub create_retries: usize,
    pub autoscaler: Option<AutoscalerOptions>,
}

impl Default for SchedulerOptions {
    fn default() -> (r: SchedulerOptions)
        ensures
            r.listen@ == "127.0.0.1:8100"@,
            r.redis_url is None,
            r.token is None,
            r.worker_token is None,
            r.dead_after == 5_000_000_000u64,
            r.create_timeout == 120_000_000_000u64,
            r.create_retries == 3,
            r.autoscaler is None,
    {
        SchedulerOptions {
            listen: "127.0.0.1:8100".to_owned(),
            redis_url: None,
            token: None,
            worker_token: None,
            dead_after: 5_000_000_000,
            create_timeout: 120_000_000_000,
            create_retries: 3,
            autoscaler: None,
        }
    }
}

/// The host that an address to listen on names.
pub open spec fn host_part(listen: Seq<char>) -> Seq<char> {
    match halves_at_last(listen, ':') {
        Some((host, port)) => host,
        None => listen,
    }
}

/// Whether only this machine reaches a host.
pub open spec fn is_loopback(host: Seq<char>) -> bool {
    host == "127.0.0.1"@ || host == "::1"@ || host == "[::1]"@ || host == "localhost"@
}

/// Whether a scheduler may be started: without a token only where no other
/// machine reaches it.
pub open spec fn may_start(token: Option<Seq<char>>, listen: Seq<char>) -> bool {
    token is Some || is_loopback(host_part(listen))
}

/// Refuses a scheduler that anyone could talk to.
pub fn validate_auth(options: &SchedulerOptions) -> (r: Result<(), EngineError>)
    ensures
        match r {
            Ok(_) => may_start(opt_text(options.token), options.listen@),
            Err(e) => !may_start(opt_text(options.token), options.listen@) && e@ == invalid_input(
                "refusing token-less scheduler on a non-loopback bind; pass --token"@,
            ),
        },
{
    if options.token.is_some() {
        return Ok(());
    }
    let host = match split_last(options.listen.as_str(), ':') {
        Some((host, _)) => host,
        None => options.listen.clone(),
    };
    if text_eq(host.as_str(), "127.0.0.1") || text_eq(host.as_str(), "::1") || text_eq(host.as_str(), "[::1]")
        || text_eq(host.as_str(), "localhost") {
        Ok(())
    } else {
        Err(
            EngineError::invalid(
                "refusing token-less scheduler on a non-loopback bind; pass --token".to_owned(),
            ),
        )
    }
}

/// What of a request tells who sent it: whether it is a GET, its path, the values
/// of two headers that are text, and the token in its query.
pub struct RequestHead {
    pub is_get: bool,
    pub path: String,
    pub authorization: Option<String>,
    pub upgrade: Option<String>,
    pub query_token: Option<String>,
}

/// Whether anyone may make a request.
pub open spec fn is_public(is_get: bool, path: Seq<char>) -> bool {
    is_get && (path == "/healthz"@ || path == "/"@ || path == "/api/dashboard"@)
}

/// The token in the query of a request, which counts only where a socket is being
/// opened.
pub open spec fn query_token_of(head: RequestHead) -> Option<Seq<char>> {
    if head.is_get && head.path@ == "/grpc"@ && (head.upgrade matches Some(u) && same_but_case(u@, "websocket"@)) {
        opt_text(head.query_token)
    } else {
        None
    }
}

/// The token that a request brings: in its header, else in its query.
pub open spec fn token_of(head: RequestHead) -> Option<Seq<char>> {
    match head.authorization {
        Some(a) if "Bearer "@.is_prefix_of(a@) => Some(a@.skip(7)),
        _ => query_token_of(head),
    }
}

/// Whether a request is let in.
pub open spec fn is_let_in(expected: Option<Seq<char>>, head: RequestHead) -> bool {
    match expected {
        None => true,
        Some(t) => is_public(head.is_get, head.path@) || token_of(head) == Some(t),
    }
}

/// The token in the query of a request, where it counts.
pub fn bridge_query_token(head: &RequestHead) -> (r: Option<String>)
    ensures
        opt_text(r) == query_token_of(*head),
{
    if !head.is_get || !text_eq(head.path.as_str(), "/grpc") {
        return None;
    }
    let upgrading = match &head.upgrade {
        Some(u) => eq_but_case(u.as_str(), "websocket"),
        None => false,
    };
    if !upgrading {
        return None;
    }
    match &head.query_token {
        Some(t) => Some(t.clone()),
        None => None,
    }
}

fn supplied_token(head: &RequestHead) -> (r: Option<String>)
    ensures
        opt_text(r) == token_of(*head),
{
    match &head.authorization {
        Some(a) => {
            if starts_with(a.as_str(), "Bearer ") {
                proof {
                    reveal_strlit("Bearer ");
                }
                let chars = chars_of(a.as_str());
                let token = string_of(&chars, 7, chars.len());
                assert(token@ =~= a@.skip(7));
                return Some(token);
            }
        },
        None => {},
    }
    bridge_query_token(head)
}

/// Whether a request is let in.
pub fn require_bearer(expected: Option<&String>, head: &RequestHead) -> (r: bool)
    ensures
        r == is_let_in(
            match expected {
                Some(t) => Some(t@),
                None => None,
            },
            *head,
        ),
{
    let expected = match expected {
        None => return true,
        Some(t) => t,
    };
    if head.is_get && (text_eq(head.path.as_str(), "/healthz") || text_eq(head.path.as_str(), "/") || text_eq(
        head.path.as_str(),
        "/api/dashboard",
    )) {
        return true;
    }
    match supplied_token(head) {
        Some(t) => text_eq(t.as_str(), expected.as_str()),
        None => false,
    }
}

/// A token in a query lets nothing in but the opening of a socket.
pub proof fn law_query_token_opens_sockets_only(expected: Seq<char>, head: RequestHead)
    requires
        head.authorization is None,
        !is_public(head.is_get, head.path@),
        is_let_in(Some(expected), head),
    ensures
        head.is_get,
        head.path@ == "/grpc"@,
        head.upgrade is Some,
        opt_text(head.query_token) == Some(expected),
{
}

/// A request with the wrong token is refused wherever it is not public.
pub proof fn law_wrong_token_is_refused(expected: Seq<char>, head: RequestHead)
    requires
        !is_public(head.is_get, head.path@),
        token_of(head) != Some(expected),
    ensures
        !is_let_in(Some(expected), head),
{
}

/// The name of a scheduler: any that is made of six random bytes.
pub fn instance_name() -> (r: String)
    ensures
        exists|bytes: Seq<u8>| bytes.len() == 6 && r@ == "sched-"@ + #[trigger] hex_text(bytes),
{
    let bytes = random_bytes(6);
    instance_of(&bytes)
}

/// The name of a scheduler that six bytes make.
pub fn instance_of(bytes: &Vec<u8>) -> (r: String)
    requires
        bytes@.len() == 6,
    ensures
        r@ == "sched-"@ + hex_text(bytes@),
{
    let hex = hex_encode(bytes.as_slice());
    cat2("sched-", hex.as_str())
}

/// Whether the leader scales the fleet in this round.
pub fn scales_now(is_leader: bool, last_scale: u64, interval: u64, now: u64) -> (r: bool)
    ensures
        r == (is_leader && age(last_scale, now) >= interval),
{
    if !is_leader {
        return false;
    }
    if now >= last_scale {
        now - last_scale >= interval
    } else {
        interval == 0
    }
}

/// How many creates there were since the last sample.
pub fn creates_since(total: u64, previous: u64) -> (r: u64)
    ensures
        r == if total >= previous {
            total - previous
        } else {
            0
        },
{
    if total >= previous {
        total - previous
    } else {
        0
    }
}

/// Whoever sends the expected token in the header is let in everywhere. Another token
/// there lets nobody in, whatever else is sent; nor does no token at all, but for the
/// public pages, which are only read. Without an expected token everybody is let in.
pub proof fn law_token_lets_in(expected: Seq<char>, head: RequestHead)
    ensures
        is_let_in(None, head),
        head.authorization is Some && head.authorization->0@ == "Bearer "@ + expected ==> is_let_in(
            Some(expected),
            head,
        ),
        forall|other: Seq<char>|
            head.authorization is Some && other != expected && head.authorization->0@ == #[trigger] ("Bearer "@ + other)
                && !(head.is_get && (head.path@ == "/healthz"@ || head.path@ == "/"@ || head.path@ == "/api/dashboard"@))
                ==> !is_let_in(Some(expected), head),
        head.authorization is None && head.query_token is None && is_let_in(Some(expected), head) ==> head.is_get && (
        head.path@ == "/healthz"@ || head.path@ == "/"@ || head.path@ == "/api/dashboard"@),
{
    reveal_strlit("Bearer ");
    let scheme = "Bearer "@;
    assert(scheme.len() == 7);
    assert((scheme + expected).skip(7) =~= expected);
    assert(scheme.is_prefix_of(scheme + expected)) by {
        assert((scheme + expected).subrange(0, 7) =~= scheme);
    }
    assert forall|other: Seq<char>|
        head.authorization is Some && other != expected && head.authorization->0@ == #[trigger] ("Bearer "@ + other)
            && !(head.is_get && (head.path@ == "/healthz"@ || head.path@ == "/"@ || head.path@ == "/api/dashboard"@))
            implies !is_let_in(Some(expected), head) by {
        assert((scheme + other).skip(7) =~= other);
        assert((scheme + other).subrange(0, 7) =~= scheme);
        assert(scheme.is_prefix_of(scheme + other));
    }
}

/// Without a token a scheduler serves the machine itself only.
pub proof fn law_tokenless_scheduler_stays_local(host: Seq<char>, port: Seq<char>, token: Seq<char>)
    requires
        !port.contains(':'),
    ensures
        may_start(Some(token), host + seq![':'] + port),
        may_start(None, host + seq![':'] + port) <==> host == "127.0.0.1"@ || host == "::1"@ || host == "[::1]"@ || host
            == "localhost"@,
{
    let s = host + seq![':'] + port;
    assert forall|j: int| host.len() < j < s.len() implies s[j] != ':' by {
        assert(s[j] == port[j - host.len() - 1]);
    }
    crate::split::lemma_halves(s, ':', host.len() as int);
    assert(s.take(host.len() as int) =~= host);
}

} // verus!
