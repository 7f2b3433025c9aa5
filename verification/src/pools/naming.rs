//! The names of pool members, and what is kept of one when it is renamed.
use crate::error::EngineError;
use crate::json::{Json, JsonMap, JsonView, ObjectView};
use crate::net::addr::{hex_of, invalid_input};
use crate::outside::hex_digit;
use crate::paths::{file_name, final_component, join_path, joined_path};
use crate::text::{cat3, chars_of};
use vstd::prelude::*;

verus! {

/// Whether `c` is an ASCII letter or digit.
pub open spec fn is_alphanumeric(c: char) -> bool {
    'a' <= c <= 'z' || 'A' <= c <= 'Z' || '0' <= c <= '9'
}

/// The first characters of a text, with a dash for each that is no ASCII letter or
/// digit.
pub open spec fn stem_text(name: Seq<char>) -> Seq<char> {
    Seq::new(
        if name.len() < 32 {
            name.len()
        } else {
            32
        },
        |i: int|
            if is_alphanumeric(name[i]) {
                name[i]
            } else {
                '-'
            },
    )
}

/// Hexadecimal digits, at least eight of them.
pub open spec fn hex_padded(n: nat) -> Seq<char> {
    let digits = hex_of(n);
    if digits.len() < 8 {
        Seq::new((8 - digits.len()) as nat, |i: int| '0') + digits
    } else {
        digits
    }
}

/// The name of a pool member: what is left of its template's name, its number, and
/// the time.
pub open spec fn member_name(template: Seq<char>, seq: u64, nanos: u64) -> Seq<char> {
    let base = match final_component(template) {
        Some(name) => name,
        None => "template"@,
    };
    "_pool-"@ + stem_text(base) + "-"@ + hex_padded(seq as nat) + hex_padded((nanos % 0x1_0000_0000) as nat)
}

fn hex_char(n: u64) -> (r: char)
    requires
        n < 16,
    ensures
        r == hex_digit(n as int),
{
    if n < 10 {
        (48u8 + n as u8) as char
    } else {
        (97u8 + (n as u8 - 10u8)) as char
    }
}

fn render_hex(n: u64) -> (r: String)
    ensures
        r@ == hex_of(n as nat),
    decreases n,
{
    if n < 16 {
        let mut out = String::new();
        out.push(hex_char(n));
        out
    } else {
        let mut out = render_hex(n / 16);
        out.push(hex_char(n % 16));
        out
    }
}

fn render_padded(n: u64) -> (r: String)
    ensures
        r@ == hex_padded(n as nat),
{
    let digits = render_hex(n);
    let len = chars_of(digits.as_str()).len();
    let mut out = String::new();
    let mut i: usize = len;
    while i < 8
        invariant
            len <= i,
            len < 8 ==> i <= 8,
            len >= 8 ==> i == len,
            out@ =~= Seq::new((i - len) as nat, |j: int| '0'),
        decreases 8 - i,
    {
        out.push('0');
        i = i + 1;
    }
    out.append(digits.as_str());
    assert(out@ =~= hex_padded(n as nat));
    out
}

fn stem_of(name: &str) -> (r: String)
    ensures
        r@ == stem_text(name@),
{
    let chars = chars_of(name);
    let mut out = String::new();
    let mut i: usize = 0;
    while i < chars.len() && i < 32
        invariant
            i <= chars@.len(),
            i <= 32,
            chars@ == name@,
            out@.len() == i,
            forall|j: int| 0 <= j < i ==> #[trigger] out@[j] == stem_text(name@)[j],
        decreases chars@.len() - i,
    {
        let c = chars[i];
        let keep = ('a' <= c && c <= 'z') || ('A' <= c && c <= 'Z') || ('0' <= c && c <= '9');
        out.push(
            if keep {
                c
            } else {
                '-'
            },
        );
        i = i + 1;
    }
    assert(out@ =~= stem_text(name@));
    out
}

/// The name of a pool member.
pub fn pooled_name(template: &str, seq: u64, nanos: u64) -> (r: String)
    ensures
        r@ == member_name(template@, seq, nanos),
{
    let base = match file_name(template) {
        Some(name) => name,
        None => "template".to_owned(),
    };
    let mut out = "_pool-".to_owned();
    out.append(stem_of(base.as_str()).as_str());
    out.append("-");
    out.append(render_padded(seq).as_str());
    out.append(render_padded(nanos % 0x1_0000_0000).as_str());
    out
}

/// A pool member's name is a plain one: it names no other directory, whatever its
/// template is called.
pub proof fn law_member_name_is_plain(template: Seq<char>, seq: u64, nanos: u64)
    ensures
        !member_name(template, seq, nanos).contains('/'),
        member_name(template, seq, nanos).len() > 0,
        member_name(template, seq, nanos)[0] == '_',
{
    reveal_strlit("_pool-");
    reveal_strlit("-");
    let base = match final_component(template) {
        Some(name) => name,
        None => "template"@,
    };
    let a = "_pool-"@;
    let b = stem_text(base);
    let c = "-"@;
    let d = hex_padded(seq as nat);
    let e = hex_padded((nanos % 0x1_0000_0000) as nat);
    let s = member_name(template, seq, nanos);
    lemma_padded_plain(seq as nat);
    lemma_padded_plain((nanos % 0x1_0000_0000) as nat);
    assert(s =~= a + b + c + d + e);
    assert(s[0] == a[0]);
    if s.contains('/') {
        let i = choose|i: int| 0 <= i < s.len() && s[i] == '/';
        let n1 = a.len() as int;
        let n2 = n1 + b.len();
        let n3 = n2 + c.len();
        let n4 = n3 + d.len();
        if i < n1 {
            assert(s[i] == a[i]);
        } else if i < n2 {
            assert(s[i] == b[i - n1]);
        } else if i < n3 {
            assert(s[i] == c[i - n2]);
        } else if i < n4 {
            assert(s[i] == d[i - n3]);
            assert(d.contains('/'));
        } else {
            assert(s[i] == e[i - n4]);
            assert(e.contains('/'));
        }
    }
}

proof fn lemma_hex_plain(n: nat)
    ensures
        !hex_of(n).contains('/'),
    decreases n,
{
    if n >= 16 {
        lemma_hex_plain(n / 16);
        let s = hex_of(n);
        if s.contains('/') {
            let i = choose|i: int| 0 <= i < s.len() && s[i] == '/';
            if i < s.len() - 1 {
                assert(hex_of(n / 16)[i] == '/');
            }
        }
    } else {
        let s = hex_of(n);
        if s.contains('/') {
            let i = choose|i: int| 0 <= i < s.len() && s[i] == '/';
            assert(s[0] == hex_digit(n as int));
        }
    }
}

proof fn lemma_padded_plain(n: nat)
    ensures
        !hex_padded(n).contains('/'),
{
    lemma_hex_plain(n);
    let s = hex_padded(n);
    let digits = hex_of(n);
    if s.contains('/') {
        let i = choose|i: int| 0 <= i < s.len() && s[i] == '/';
        let pad = s.len() - digits.len();
        if i >= pad {
            assert(digits[i - pad] == '/');
        }
    }
}

/// What a path becomes when its member is renamed: a path that is not there stays
/// so.
pub open spec fn renamed_path(value: JsonView, replacement: Seq<char>) -> Option<JsonView> {
    match value {
        JsonView::Null => Some(JsonView::Null),
        JsonView::Bool(b) => if b {
            None
        } else {
            Some(JsonView::Null)
        },
        JsonView::Str(s) => Some(
            if s.len() == 0 {
                JsonView::Null
            } else {
                JsonView::Str(replacement)
            },
        ),
        _ => None,
    }
}

/// What a path becomes when its member is renamed.
pub fn renamed_path_meta(value: &Json, replacement: &str) -> (r: Result<Json, EngineError>)
    ensures
        match r {
            Ok(j) => renamed_path(value@, replacement@) == Some(j@),
            Err(e) => renamed_path(value@, replacement@) is None && e@ == invalid_input(
                "metadata path must be str or null"@,
            ),
        },
{
    match value {
        Json::Null => Ok(Json::Null),
        Json::Bool(b) => if *b {
            Err(EngineError::invalid("metadata path must be str or null".to_owned()))
        } else {
            Ok(Json::Null)
        },
        Json::Str(s) => if s.as_str().is_empty() {
            Ok(Json::Null)
        } else {
            Ok(Json::Str(replacement.to_owned()))
        },
        _ => Err(EngineError::invalid("metadata path must be str or null".to_owned())),
    }
}

/// What a path under a name becomes, where there is one.
pub open spec fn moved_field(old: ObjectView, k: Seq<char>, replacement: Seq<char>) -> Option<Option<JsonView>> {
    if old.contains_key(k) {
        match renamed_path(old[k], replacement) {
            Some(v) => Some(Some(v)),
            None => None,
        }
    } else {
        Some(None)
    }
}

/// What is written of a member before it is moved: where its sockets and its disk
/// will be. `None` where one of the paths is none.
pub open spec fn moved_meta(old: ObjectView, new_dir: Seq<char>) -> Option<ObjectView> {
    let sock = Map::<Seq<char>, JsonView>::empty().insert(
        "sock"@,
        JsonView::Str(joined_path(new_dir, "api.sock"@)),
    );
    match (
        moved_field(old, "agent_sock"@, joined_path(new_dir, "agent.sock"@)),
        moved_field(old, "rootfs"@, joined_path(new_dir, "rootfs.img"@)),
    ) {
        (Some(agent), Some(rootfs)) => {
            let with_agent = match agent {
                Some(v) => sock.insert("agent_sock"@, v),
                None => sock,
            };
            Some(
                match rootfs {
                    Some(v) => with_agent.insert("rootfs"@, v),
                    None => with_agent,
                },
            )
        },
        _ => None,
    }
}

/// What is written of a member before it is moved to another directory.
pub fn rename_meta(old: &JsonMap, new_dir: &str) -> (r: Result<JsonMap, EngineError>)
    ensures
        match r {
            Ok(m) => moved_meta(old@, new_dir@) == Some(m@),
            Err(e) => moved_meta(old@, new_dir@) is None && e@ == invalid_input("metadata path must be str or null"@),
        },
{
    proof {
        reveal_strlit("api.sock");
        reveal_strlit("agent.sock");
        reveal_strlit("rootfs.img");
    }
    let mut m = JsonMap::new();
    let sock = join_path(new_dir, "api.sock");
    m.insert("sock".to_owned(), Json::Str(sock));
    match old.get("agent_sock") {
        Some(value) => {
            let path = join_path(new_dir, "agent.sock");
            match renamed_path_meta(value, path.as_str()) {
                Ok(v) => {
                    m.insert("agent_sock".to_owned(), v);
                },
                Err(e) => return Err(e),
            }
        },
        None => {},
    }
    match old.get("rootfs") {
        Some(value) => {
            let path = join_path(new_dir, "rootfs.img");
            match renamed_path_meta(value, path.as_str()) {
                Ok(v) => {
                    m.insert("rootfs".to_owned(), v);
                },
                Err(e) => return Err(e),
            }
        },
        None => {},
    }
    Ok(m)
}

/// The answer when a sandbox of that name is there.
pub fn name_taken(name: &str) -> (r: EngineError)
    ensures
        r@ == crate::error::failure(crate::error::ErrorCode::Busy, "sandbox '"@ + name@ + "' already exists"@),
{
    EngineError::busy(cat3("sandbox '", name, "' already exists"))
}

/// A member that moves has its sockets and its disk in the new directory; what it did
/// not have it does not get.
pub proof fn law_moved_member_points_at_its_directory(old: ObjectView, new_dir: Seq<char>, agent: Seq<char>)
    requires
        old.contains_key("agent_sock"@),
        old["agent_sock"@] == JsonView::Str(agent),
        agent.len() > 0,
        !old.contains_key("rootfs"@),
    ensures
        moved_meta(old, new_dir) is Some,
        ({
            let m = moved_meta(old, new_dir)->0;
            &&& m["sock"@] == JsonView::Str(joined_path(new_dir, "api.sock"@))
            &&& m["agent_sock"@] == JsonView::Str(joined_path(new_dir, "agent.sock"@))
            &&& !m.contains_key("rootfs"@)
        }),
{
    reveal_strlit("sock");
    reveal_strlit("agent_sock");
    reveal_strlit("rootfs");
    assert("sock"@.len() == 4 && "agent_sock"@.len() == 10 && "rootfs"@.len() == 6);
}

/// The stem of a member's name is at most thirty-two letters, digits and hyphens long,
/// and keeps the letters and digits in their places.
pub proof fn law_stem_is_short_and_plain(name: Seq<char>, i: int)
    requires
        0 <= i < stem_text(name).len(),
    ensures
        stem_text(name).len() <= 32,
        stem_text(name).len() <= name.len(),
        name.len() <= 32 ==> stem_text(name).len() == name.len(),
        ('a' <= name[i] <= 'z' || 'A' <= name[i] <= 'Z' || '0' <= name[i] <= '9') ==> stem_text(name)[i] == name[i],
        !('a' <= name[i] <= 'z' || 'A' <= name[i] <= 'Z' || '0' <= name[i] <= '9') ==> stem_text(name)[i] == '-',
{
}

} // verus!
