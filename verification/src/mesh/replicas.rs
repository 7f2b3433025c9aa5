//! Replicas of sandboxes in shared object storage: their keys, how they are
//! published so that only verified content is ever found under a final key, and
//! how they are brought back.
use crate::error::{failure, EngineError, ErrorCode, ErrorView};
use crate::outside::{is_lower_hex, random_uuid};
use crate::text::{cat2, cat3, cat5, chars_of, find_text, first_at, string_of, text_eq};
use vstd::prelude::*;

verus! {

/// Whether `c` is a hexadecimal digit, of either case.
pub open spec fn is_hex(c: char) -> bool {
    '0' <= c <= '9' || 'a' <= c <= 'f' || 'A' <= c <= 'F'
}

/// Whether `s` holds hexadecimal digits only.
pub open spec fn all_hex(s: Seq<char>) -> bool {
    forall|i: int| 0 <= i < s.len() ==> is_hex(#[trigger] s[i])
}

/// Whether `s` holds hexadecimal digits only.
pub fn is_all_hex(s: &str) -> (r: bool)
    ensures
        r == all_hex(s@),
{
    let chars = chars_of(s);
    let mut i: usize = 0;
    while i < chars.len()
        invariant
            i <= chars@.len(),
            chars@ == s@,
            forall|j: int| 0 <= j < i ==> is_hex(#[trigger] s@[j]),
        decreases chars@.len() - i,
    {
        let c = chars[i];
        assert(c == s@[i as int]);
        if !((c >= '0' && c <= '9') || (c >= 'a' && c <= 'f') || (c >= 'A' && c <= 'F')) {
            return false;
        }
        i = i + 1;
    }
    true
}

/// The key of a replica: its digest, within the domain of the key that protects
/// it.
pub open spec fn object_key(namespace: Seq<char>, scope: Seq<char>, digest: Seq<char>) -> Seq<char> {
    namespace + "/replicas/by-key/"@ + scope + "/"@ + (digest + ".vbundle"@)
}

/// The key under which the replica with `digest` is shared; `scope` stands for
/// the encryption key.
pub fn replica_object_key(namespace: &str, digest: &str, scope: &str) -> (r: Result<String, EngineError>)
    ensures
        match r {
            Ok(key) => digest@.len() > 0 && all_hex(digest@) && key@ == object_key(namespace@, scope@, digest@),
            Err(e) => (digest@.len() == 0 || !all_hex(digest@)) && e@ == failure(
                ErrorCode::Invalid,
                "replica digest is invalid"@,
            ),
        },
{
    if digest.is_empty() || !is_all_hex(digest) {
        return Err(EngineError::invalid("replica digest is invalid".to_owned()));
    }
    let name = cat2(digest, ".vbundle");
    Ok(cat5(namespace, "/replicas/by-key/", scope, "/", name.as_str()))
}

/// Where the parts of an object key lie: the marker after the namespace, and the
/// slash after the scope.
pub open spec fn key_parts(key: Seq<char>, at: int, slash: int) -> bool {
    let marker = "/replicas/by-key/"@;
    first_at(key, marker, at) && at + marker.len() <= slash < key.len() && key[slash] == '/' && forall|j: int|
        at + marker.len() <= j < slash ==> key[j] != '/'
}

/// The scope within an object key.
pub open spec fn key_scope(key: Seq<char>, at: int, slash: int) -> Seq<char> {
    key.subrange(at + "/replicas/by-key/"@.len(), slash)
}

/// Whether the parts of an object key are those of the replica with `digest`.
pub open spec fn key_fits(key: Seq<char>, at: int, slash: int, digest: Seq<char>) -> bool {
    let scope = key_scope(key, at, slash);
    scope.len() == 64 && all_hex(scope) && key.skip(slash + 1) == digest + ".vbundle"@
}

/// The key under which a replica is staged before it is published under `key`.
pub open spec fn staging_key(key: Seq<char>, at: int, slash: int, digest: Seq<char>, nonce: Seq<char>) -> Seq<
    char,
> {
    key.take(at) + "/replicas/.staging/by-key/"@ + key_scope(key, at, slash) + "/"@ + (digest + "-"@ + nonce
        + ".vbundle"@)
}

/// The staging key that belongs to `key`, told apart by `nonce`, or what is wrong with
/// the key.
pub open spec fn staged_under(key: Seq<char>, digest: Seq<char>, nonce: Seq<char>) -> Result<Seq<char>, ErrorView> {
    if forall|at: int| !first_at(key, "/replicas/by-key/"@, at) {
        Err(failure(ErrorCode::Invalid, "replica object key is outside the scoped replica domain"@))
    } else if forall|at: int, slash: int| !key_parts(key, at, slash) {
        Err(failure(ErrorCode::Invalid, "replica object key has no key scope"@))
    } else {
        let (at, slash) = choose|at: int, slash: int| key_parts(key, at, slash);
        if key_fits(key, at, slash, digest) {
            Ok(staging_key(key, at, slash, digest, nonce))
        } else {
            Err(failure(ErrorCode::Invalid, "replica object key is malformed"@))
        }
    }
}

/// The staging key that belongs to `final_key`, told apart by `nonce`.
pub fn staging_key_for(final_key: &str, digest: &str, nonce: &str) -> (r: Result<String, EngineError>)
    ensures
        match r {
            Ok(key) => staged_under(final_key@, digest@, nonce@) == Ok::<Seq<char>, ErrorView>(key@),
            Err(e) => staged_under(final_key@, digest@, nonce@) == Err::<Seq<char>, ErrorView>(e@),
        },
{
    let marker = "/replicas/by-key/";
    let at: usize = match find_text(final_key, marker) {
        Some(i) => i,
        None => {
            return Err(
                EngineError::invalid("replica object key is outside the scoped replica domain".to_owned()),
            );
        },
    };
    let key = chars_of(final_key);
    let n = key.len();
    let width = chars_of(marker).len();
    assert(at + width <= n);
    let from: usize = at + width;
    let mut slash: usize = from;
    while slash < key.len() && key[slash] != '/'
        invariant
            from <= slash <= key@.len(),
            key@ == final_key@,
            forall|j: int| from <= j < slash ==> key@[j] != '/',
        decreases key@.len() - slash,
    {
        slash = slash + 1;
    }
    if slash == key.len() {
        assert forall|a: int, s: int| !key_parts(final_key@, a, s) by {
            if key_parts(final_key@, a, s) {
                assert(a == at);
                assert(key@[s] == '/');
            }
        }
        assert(first_at(final_key@, "/replicas/by-key/"@, at as int));
        return Err(EngineError::invalid("replica object key has no key scope".to_owned()));
    }
    assert(key_parts(final_key@, at as int, slash as int));
    assert forall|a: int, s: int| key_parts(final_key@, a, s) implies a == at && s == slash by {
        assert(a == at);
        if s < slash {
            assert(key@[s] != '/');
        }
    }
    assert(!(forall|a: int, s: int| !key_parts(final_key@, a, s)));
    assert(!(forall|a: int| !first_at(final_key@, "/replicas/by-key/"@, a)));
    assert({
        let (a, s) = choose|a: int, s: int| key_parts(final_key@, a, s);
        a == at && s == slash
    });
    let namespace = string_of(&key, 0, at);
    let scope = string_of(&key, from, slash);
    let name = string_of(&key, slash + 1, n);
    let expected = cat2(digest, ".vbundle");
    assert(final_key@.subrange(slash + 1, n as int) =~= final_key@.skip(slash + 1));
    assert(final_key@.subrange(0, at as int) =~= final_key@.take(at as int));
    if slash - from != 64 || !is_all_hex(scope.as_str()) || !text_eq(name.as_str(), expected.as_str()) {
        return Err(EngineError::invalid("replica object key is malformed".to_owned()));
    }
    let mut file = cat3(digest, "-", nonce);
    file.append(".vbundle");
    Ok(cat5(namespace.as_str(), "/replicas/.staging/by-key/", scope.as_str(), "/", file.as_str()))
}

/// A staging key that belongs to `final_key`; no two are alike, as far as chance
/// allows.
pub fn replica_staging_key(final_key: &str, digest: &str) -> (r: Result<String, EngineError>)
    ensures
        exists|nonce: Seq<char>|
            #![trigger staged_under(final_key@, digest@, nonce)]
            nonce.len() == 36 && (forall|i: int|
                0 <= i < nonce.len() ==> is_lower_hex(#[trigger] nonce[i]) || nonce[i] == '-') && match r {
                Ok(key) => staged_under(final_key@, digest@, nonce) == Ok::<Seq<char>, ErrorView>(key@),
                Err(e) => staged_under(final_key@, digest@, nonce) == Err::<Seq<char>, ErrorView>(e@),
            },
{
    let nonce = random_uuid();
    staging_key_for(final_key, digest, nonce.as_str())
}

/// What is staged never lies under the key that it will be published under.
pub proof fn law_staging_is_elsewhere(
    key: Seq<char>,
    at: int,
    slash: int,
    digest: Seq<char>,
    nonce: Seq<char>,
)
    requires
        key_parts(key, at, slash),
    ensures
        staging_key(key, at, slash, digest, nonce) != key,
{
    reveal_strlit("/replicas/by-key/");
    reveal_strlit("/replicas/.staging/by-key/");
    let staged = staging_key(key, at, slash, digest, nonce);
    let marker = "/replicas/by-key/"@;
    assert(marker.len() == 17);
    assert("/replicas/.staging/by-key/"@.len() == 26);
    assert(key.subrange(at, at + marker.len()) == marker);
    assert(key[at + 10] == key.subrange(at, at + marker.len())[10]);
    assert(key[at + 10] == 'b');
    assert(staged[at + 10] == "/replicas/.staging/by-key/"@[10]);
    assert(staged[at + 10] == '.');
}

/// A checkpoint is what it claims to be only where its digest says so.
pub fn verify_replica_digest(actual: &str, expected: &str) -> (r: Result<(), EngineError>)
    ensures
        match r {
            Ok(_) => actual@ == expected@,
            Err(e) => actual@ != expected@ && e@ == failure(
                ErrorCode::Invalid,
                "shared replica checkpoint digest mismatch: expected "@ + expected@ + ", got "@ + actual@,
            ),
        },
{
    if text_eq(actual, expected) {
        Ok(())
    } else {
        let mut message = cat3("shared replica checkpoint digest mismatch: expected ", expected, ", got ");
        message.append(actual);
        Err(EngineError::invalid(message))
    }
}

/// A replica is staged beside the replicas, under its scope, its digest and a word of its
/// own.
pub proof fn law_replica_is_staged_under_its_scope(
    namespace: Seq<char>,
    scope: Seq<char>,
    digest: Seq<char>,
    nonce: Seq<char>,
)
    requires
        scope.len() == 64,
        forall|i: int| 0 <= i < scope.len() ==> is_hex(#[trigger] scope[i]),
        forall|j: int|
            0 <= j < namespace.len() ==> !crate::text::occurs_at(
                object_key(namespace, scope, digest),
                "/replicas/by-key/"@,
                j,
            ),
    ensures
        staged_under(object_key(namespace, scope, digest), digest, nonce) == Ok::<Seq<char>, ErrorView>(
            namespace + "/replicas/.staging/by-key/"@ + scope + "/"@ + (digest + "-"@ + nonce + ".vbundle"@),
        ),
{
    reveal_strlit("/");
    let marker = "/replicas/by-key/"@;
    let key = object_key(namespace, scope, digest);
    let at = namespace.len() as int;
    let slash = at + marker.len() + 64;
    assert(key.subrange(at, at + marker.len()) =~= marker);
    assert(first_at(key, marker, at));
    assert(key[slash] == '/');
    assert forall|j: int| at + marker.len() <= j < slash implies key[j] != '/' by {
        assert(key[j] == scope[j - at - marker.len()]);
        assert(is_hex(scope[j - at - marker.len()]));
    }
    assert(key_parts(key, at, slash));
    let (a, b) = choose|a: int, b: int| key_parts(key, a, b);
    assert(key_parts(key, a, b));
    assert(a == at) by {
        if a < at {
            assert(!crate::text::occurs_at(key, marker, a));
        } else if a > at {
            assert(!crate::text::occurs_at(key, marker, at));
        }
    }
    assert(b == slash) by {
        if b < slash {
            assert(key[b] != '/');
        } else if b > slash {
            assert(key[slash] != '/');
        }
    }
    assert(key_scope(key, at, slash) =~= scope);
    assert(key.skip(slash + 1) =~= digest + ".vbundle"@);
    assert(key.take(at) =~= namespace);
    assert(key_fits(key, at, slash, digest));
}

} // verus!
