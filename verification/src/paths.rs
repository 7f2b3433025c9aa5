//! File paths as text.
use crate::text::{cat2, chars_of, string_of, text_eq, opt_text};
use vstd::prelude::*;

verus! {

/// Where the last component of `s` begins: after its last slash.
pub open spec fn last_start(s: Seq<char>) -> int
    decreases s.len(),
{
    if s.len() == 0 || s.last() == '/' {
        s.len() as int
    } else {
        last_start(s.drop_last())
    }
}

/// The name that a path ends in. Empty components and references to the current
/// directory at the end do not count; a path that ends in a reference to the
/// parent directory has no such name.
pub open spec fn final_component(s: Seq<char>) -> Option<Seq<char>>
    decreases s.len(),
{
    let start = last_start(s);
    let part = s.skip(start);
    if s.len() == 0 || start < 0 || start > s.len() {
        None
    } else if part.len() == 0 || part == "."@ {
        if start == 0 {
            None
        } else {
            final_component(s.take(start - 1))
        }
    } else if part == ".."@ {
        None
    } else {
        Some(part)
    }
}

proof fn lemma_last_start(s: Seq<char>)
    ensures
        0 <= last_start(s) <= s.len(),
        last_start(s) > 0 ==> s[last_start(s) - 1] == '/',
        forall|j: int| last_start(s) <= j < s.len() ==> s[j] != '/',
    decreases s.len(),
{
    if s.len() > 0 && s.last() != '/' {
        lemma_last_start(s.drop_last());
        assert forall|j: int| last_start(s) <= j < s.len() implies s[j] != '/' by {
            if j < s.len() - 1 {
                assert(s.drop_last()[j] == s[j]);
            }
        }
    }
}

proof fn lemma_last_start_unique(s: Seq<char>, at: int)
    requires
        0 <= at <= s.len(),
        at > 0 ==> s[at - 1] == '/',
        forall|j: int| at <= j < s.len() ==> s[j] != '/',
    ensures
        last_start(s) == at,
    decreases s.len(),
{
    if at < s.len() {
        lemma_last_start_unique(s.drop_last(), at);
    }
}

/// The name that the path `path` ends in.
pub fn file_name(path: &str) -> (r: Option<String>)
    ensures
        opt_text(r) == final_component(path@),
{
    let chars = chars_of(path);
    let mut end: usize = chars.len();
    assert(chars@.take(end as int) =~= chars@);
    loop
        invariant
            end <= chars@.len(),
            chars@ == path@,
            final_component(path@) == final_component(chars@.take(end as int)),
        decreases end,
    {
        if end == 0 {
            return None;
        }
        let mut start: usize = end;
        while start > 0 && chars[start - 1] != '/'
            invariant
                start <= end <= chars@.len(),
                forall|j: int| start <= j < end ==> chars@[j] != '/',
            decreases start,
        {
            start = start - 1;
        }
        let ghost s = chars@.take(end as int);
        proof {
            lemma_last_start_unique(s, start as int);
            assert(s.skip(start as int) =~= chars@.subrange(start as int, end as int));
        }
        let part = string_of(&chars, start, end);
        if part.as_str().is_empty() || text_eq(part.as_str(), ".") {
            if start == 0 {
                return None;
            }
            assert(s.take(start - 1) =~= chars@.take(start - 1));
            end = start - 1;
        } else if text_eq(part.as_str(), "..") {
            return None;
        } else {
            return Some(part);
        }
    }
}

/// `name` inside the directory `dir`.
pub open spec fn joined_path(dir: Seq<char>, name: Seq<char>) -> Seq<char> {
    if dir.len() == 0 {
        name
    } else if dir.last() == '/' {
        dir + name
    } else {
        dir + "/"@ + name
    }
}

/// The path of `name` inside the directory `dir`; `name` must be relative.
pub fn join_path(dir: &str, name: &str) -> (r: String)
    requires
        name@.len() > 0 ==> name@[0] != '/',
    ensures
        r@ == joined_path(dir@, name@),
{
    let chars = chars_of(dir);
    if chars.len() == 0 {
        return name.to_owned();
    }
    if chars[chars.len() - 1] == '/' {
        return cat2(dir, name);
    }
    let mut out = cat2(dir, "/");
    out.append(name);
    out
}

/// A name that a path ends in holds no slash and names no directory relation.
pub proof fn law_final_component_is_plain(s: Seq<char>)
    ensures
        match final_component(s) {
            Some(name) => name.len() > 0 && !name.contains('/') && name != "."@ && name != ".."@,
            None => true,
        },
    decreases s.len(),
{
    lemma_last_start(s);
    let start = last_start(s);
    if s.len() > 0 {
        let part = s.skip(start);
        if part.len() == 0 || part == "."@ {
            if start > 0 {
                law_final_component_is_plain(s.take(start - 1));
            }
        } else {
            assert(!part.contains('/')) by {
                if part.contains('/') {
                    let i = choose|i: int| 0 <= i < part.len() && part[i] == '/';
                    assert(s[start + i] == '/');
                }
            }
        }
    }
}

proof fn lemma_last_start_behind(x: Seq<char>, name: Seq<char>)
    requires
        !name.contains('/'),
    ensures
        last_start(x + seq!['/'] + name) == x.len() + 1,
    decreases name.len(),
{
    let s = x + seq!['/'] + name;
    if name.len() == 0 {
        assert(s.last() == '/');
    } else {
        let rest = name.drop_last();
        assert(s.last() == name.last());
        assert(name.contains(name[name.len() - 1]));
        assert(!rest.contains('/')) by {
            if rest.contains('/') {
                let i = choose|i: int| 0 <= i < rest.len() && rest[i] == '/';
                assert(name[i] == '/');
            }
        }
        assert(s.drop_last() =~= x + seq!['/'] + rest);
        lemma_last_start_behind(x, rest);
    }
}

/// The path of a name inside a directory ends in that name.
pub proof fn law_path_ends_in_its_name(dir: Seq<char>, name: Seq<char>)
    requires
        name.len() > 0,
        !name.contains('/'),
        name != "."@,
        name != ".."@,
        dir.len() > 0,
    ensures
        final_component(joined_path(dir, name)) == Some(name),
        dir.is_prefix_of(joined_path(dir, name)),
{
    reveal_strlit("/");
    assert("/"@ =~= seq!['/']);
    let x = if dir.last() == '/' {
        dir.drop_last()
    } else {
        dir
    };
    let s = joined_path(dir, name);
    assert(s =~= x + seq!['/'] + name);
    lemma_last_start_behind(x, name);
    assert(s.skip(x.len() as int + 1) =~= name);
    assert(s.subrange(0, dir.len() as int) =~= dir);
}

} // verus!
