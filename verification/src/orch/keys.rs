//! The keys under which the orchestration layer stores its state.
use crate::text::cat2;
use vstd::prelude::*;

verus! {

/// The stream that every heartbeat is appended to.
pub const WORKERS_STREAM: &'static str = "vmon:o:workers";

/// The lease of the one scheduler that sweeps and scales.
pub const LEADER: &'static str = "vmon:o:leader";

/// The prefix of the keys of workers.
pub const WORKER_PREFIX: &'static str = "vmon:o:w:";

/// The prefix of the keys of sandboxes.
pub const SANDBOX_PREFIX: &'static str = "vmon:o:sb:";

/// The key of a worker's state, which is there as long as the worker is live.
pub open spec fn worker_key(wid: Seq<char>) -> Seq<char> {
    "vmon:o:w:"@ + wid
}

/// The key of a sandbox's route.
pub open spec fn sandbox_key(sid: Seq<char>) -> Seq<char> {
    "vmon:o:sb:"@ + sid
}

/// The key that tells a worker to take no more sandboxes.
pub open spec fn drain_key(wid: Seq<char>) -> Seq<char> {
    "vmon:o:drain:"@ + wid
}

/// The key of a worker's state.
pub fn worker(wid: &str) -> (r: String)
    ensures
        r@ == worker_key(wid@),
{
    cat2("vmon:o:w:", wid)
}

/// The key of a sandbox's route.
pub fn sandbox(sid: &str) -> (r: String)
    ensures
        r@ == sandbox_key(sid@),
{
    cat2("vmon:o:sb:", sid)
}

/// The key that tells a worker to take no more sandboxes.
pub fn drain(wid: &str) -> (r: String)
    ensures
        r@ == drain_key(wid@),
{
    cat2("vmon:o:drain:", wid)
}

proof fn lemma_key_injective(prefix: Seq<char>, a: Seq<char>, b: Seq<char>)
    requires
        prefix + a == prefix + b,
    ensures
        a == b,
{
    assert((prefix + a).skip(prefix.len() as int) =~= a);
    assert((prefix + b).skip(prefix.len() as int) =~= b);
}

/// No two workers, sandboxes or drains share a key, neither among themselves nor
/// with one another.
pub proof fn law_keys_are_distinct(a: Seq<char>, b: Seq<char>)
    ensures
        worker_key(a) == worker_key(b) ==> a == b,
        sandbox_key(a) == sandbox_key(b) ==> a == b,
        drain_key(a) == drain_key(b) ==> a == b,
        worker_key(a) != sandbox_key(b),
        worker_key(a) != drain_key(b),
        sandbox_key(a) != drain_key(b),
{
    reveal_strlit("vmon:o:w:");
    reveal_strlit("vmon:o:sb:");
    reveal_strlit("vmon:o:drain:");
    if worker_key(a) == worker_key(b) {
        lemma_key_injective("vmon:o:w:"@, a, b);
    }
    if sandbox_key(a) == sandbox_key(b) {
        lemma_key_injective("vmon:o:sb:"@, a, b);
    }
    if drain_key(a) == drain_key(b) {
        lemma_key_injective("vmon:o:drain:"@, a, b);
    }
    assert(worker_key(a)[7] == 'w');
    assert(sandbox_key(b)[7] == 's');
    assert(sandbox_key(a)[7] == 's');
    assert(drain_key(b)[7] == 'd');
}

} // verus!
