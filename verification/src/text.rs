//! Text primitives: what the rest of the library needs from `String` and `str`,
//! stated over sequences of characters.
use vstd::prelude::*;

verus! {

/// `String::push` appends one character at the end.
pub assume_specification[ String::push ](s: &mut String, c: char)
    ensures
        final(s)@ == old(s)@.push(c),
;

/// The characters of an optional string.
pub open spec fn opt_text(o: Option<String>) -> Option<Seq<char>> {
    match o {
        Some(s) => Some(s@),
        None => None,
    }
}

/// The characters of each string of a list.
pub open spec fn texts(v: Seq<String>) -> Seq<Seq<char>> {
    Seq::new(v.len(), |i: int| v[i]@)
}

/// The characters of `s`, in order.
pub fn chars_of(s: &str) -> (r: Vec<char>)
    ensures
        r@ == s@,
{
    let mut out: Vec<char> = Vec::new();
    for c in it: s.chars()
        invariant
            out@ == it.seq().take(it.index() as int),
            it.seq() == s@,
    {
        out.push(c);
    }
    out
}

/// The string made of the characters `chars[from..to]`.
pub fn string_of(chars: &Vec<char>, from: usize, to: usize) -> (r: String)
    requires
        from <= to <= chars@.len(),
    ensures
        r@ == chars@.subrange(from as int, to as int),
{
    let mut out = String::new();
    let mut i: usize = from;
    while i < to
        invariant
            from <= i <= to <= chars@.len(),
            out@ == chars@.subrange(from as int, i as int),
        decreases to - i,
    {
        out.push(chars[i]);
        assert(chars@.subrange(from as int, i + 1) =~= chars@.subrange(from as int, i as int).push(chars@[i as int]));
        i = i + 1;
    }
    out
}

/// Whether two strings hold the same characters.
pub fn text_eq(a: &str, b: &str) -> (r: bool)
    ensures
        r == (a@ == b@),
{
    let x: String = a.to_owned();
    let y: String = b.to_owned();
    x == y
}

/// Whether `s` begins with the characters of `prefix`.
pub fn starts_with(s: &str, prefix: &str) -> (r: bool)
    ensures
        r == prefix@.is_prefix_of(s@),
{
    let a = chars_of(s);
    let b = chars_of(prefix);
    if b.len() > a.len() {
        return false;
    }
    let mut i: usize = 0;
    while i < b.len()
        invariant
            i <= b@.len() <= a@.len(),
            a@ == s@,
            b@ == prefix@,
            forall|j: int| 0 <= j < i ==> a@[j] == b@[j],
        decreases b@.len() - i,
    {
        if a[i] != b[i] {
            assert(a@.subrange(0, b@.len() as int)[i as int] != b@[i as int]);
            return false;
        }
        i = i + 1;
    }
    assert(a@.subrange(0, b@.len() as int) =~= b@);
    true
}

pub fn cat2(a: &str, b: &str) -> (r: String)
    ensures
        r@ == a@ + b@,
{
    let mut out = a.to_owned();
    out.append(b);
    out
}

pub fn cat3(a: &str, b: &str, c: &str) -> (r: String)
    ensures
        r@ == a@ + b@ + c@,
{
    let mut out = a.to_owned();
    out.append(b);
    out.append(c);
    out
}

pub fn cat4(a: &str, b: &str, c: &str, d: &str) -> (r: String)
    ensures
        r@ == a@ + b@ + c@ + d@,
{
    let mut out = cat3(a, b, c);
    out.append(d);
    out
}

pub fn cat5(a: &str, b: &str, c: &str, d: &str, e: &str) -> (r: String)
    ensures
        r@ == a@ + b@ + c@ + d@ + e@,
{
    let mut out = cat4(a, b, c, d);
    out.append(e);
    out
}

/// The index of the first occurrence of `key` in `list`, if there is one.
pub fn position(list: &Vec<String>, key: &str) -> (r: Option<usize>)
    ensures
        match r {
            Some(i) => i < list@.len() && list@[i as int]@ == key@ && forall|j: int|
                0 <= j < i ==> list@[j]@ != key@,
            None => forall|j: int| 0 <= j < list@.len() ==> list@[j]@ != key@,
        },
{
    let mut i: usize = 0;
    while i < list.len()
        invariant
            i <= list@.len(),
            forall|j: int| 0 <= j < i ==> list@[j]@ != key@,
        decreases list@.len() - i,
    {
        if text_eq(list[i].as_str(), key) {
            return Some(i);
        }
        i = i + 1;
    }
    None
}

/// Whether some string of `list` holds exactly `key`.
pub open spec fn lists(list: Seq<String>, key: Seq<char>) -> bool {
    exists|i: int| 0 <= i < list.len() && list[i]@ == key
}

pub fn lists_text(list: &Vec<String>, key: &str) -> (r: bool)
    ensures
        r == lists(list@, key@),
{
    match position(list, key) {
        Some(_) => true,
        None => false,
    }
}

/// Whether `part` occurs in `s` at `at`.
pub open spec fn occurs_at(s: Seq<char>, part: Seq<char>, at: int) -> bool {
    0 <= at && at + part.len() <= s.len() && s.subrange(at, at + part.len()) == part
}

/// Whether `at` is where `part` occurs first in `s`.
pub open spec fn first_at(s: Seq<char>, part: Seq<char>, at: int) -> bool {
    occurs_at(s, part, at) && forall|j: int| 0 <= j < at ==> !occurs_at(s, part, j)
}

/// Where `part` occurs first in `s`, in characters.
pub fn find_text(s: &str, part: &str) -> (r: Option<usize>)
    ensures
        match r {
            Some(i) => first_at(s@, part@, i as int) && i + part@.len() <= s@.len() && forall|a: int|
                first_at(s@, part@, a) ==> a == i,
            None => forall|a: int| !occurs_at(s@, part@, a),
        },
{
    let text = chars_of(s);
    let key = chars_of(part);
    if key.len() > text.len() {
        return None;
    }
    let last: usize = text.len() - key.len();
    let mut i: usize = 0;
    while i <= last
        invariant
            i <= last + 1,
            last + key@.len() == text@.len(),
            text@ == s@,
            key@ == part@,
            text@.len() <= usize::MAX,
            forall|j: int| 0 <= j < i ==> !occurs_at(s@, part@, j),
        decreases last + 1 - i,
    {
        let mut k: usize = 0;
        while k < key.len() && text[i + k] == key[k]
            invariant
                k <= key@.len(),
                i <= last,
                last + key@.len() == text@.len(),
                text@.len() <= usize::MAX,
                forall|j: int| 0 <= j < k ==> text@[i + j] == key@[j],
            decreases key@.len() - k,
        {
            k = k + 1;
        }
        if k == key.len() {
            assert(s@.subrange(i as int, i + key@.len()) =~= part@);
            assert(occurs_at(s@, part@, i as int));
            assert forall|a: int| first_at(s@, part@, a) implies a == i by {
                if a < i {
                    assert(!occurs_at(s@, part@, a));
                } else if a > i {
                    assert(!occurs_at(s@, part@, i as int));
                }
            }
            return Some(i);
        }
        assert(!occurs_at(s@, part@, i as int)) by {
            assert(s@.subrange(i as int, i + key@.len())[k as int] == text@[i + k]);
        }
        if i == last {
            return None;
        }
        i = i + 1;
    }
    None
}

/// Whether `c` has the Unicode property White_Space.
pub open spec fn is_space(c: char) -> bool {
    ||| '\u{9}' <= c <= '\u{d}'
    ||| c == ' '
    ||| c == '\u{85}'
    ||| c == '\u{a0}'
    ||| c == '\u{1680}'
    ||| '\u{2000}' <= c <= '\u{200a}'
    ||| c == '\u{2028}'
    ||| c == '\u{2029}'
    ||| c == '\u{202f}'
    ||| c == '\u{205f}'
    ||| c == '\u{3000}'
}

/// Whether `c` has the Unicode property White_Space.
pub fn space(c: char) -> (r: bool)
    ensures
        r == is_space(c),
{
    (c >= '\u{9}' && c <= '\u{d}') || c == ' ' || c == '\u{85}' || c == '\u{a0}' || c == '\u{1680}' || (c
        >= '\u{2000}' && c <= '\u{200a}') || c == '\u{2028}' || c == '\u{2029}' || c == '\u{202f}' || c
        == '\u{205f}' || c == '\u{3000}'
}

/// `s` without the blanks at its beginning.
pub open spec fn trimmed_left(s: Seq<char>) -> Seq<char>
    decreases s.len(),
{
    if s.len() > 0 && is_space(s[0]) {
        trimmed_left(s.drop_first())
    } else {
        s
    }
}

/// `s` without the blanks at its end.
pub open spec fn trimmed_right(s: Seq<char>) -> Seq<char>
    decreases s.len(),
{
    if s.len() > 0 && is_space(s.last()) {
        trimmed_right(s.drop_last())
    } else {
        s
    }
}

/// `s` without the blanks at its beginning and end.
pub open spec fn trimmed(s: Seq<char>) -> Seq<char> {
    trimmed_right(trimmed_left(s))
}

/// The bounds between which `chars[from..to]` has no blanks at its ends.
pub fn trim_bounds(chars: &Vec<char>, from: usize, to: usize) -> (r: (usize, usize))
    requires
        from <= to <= chars@.len(),
    ensures
        from <= r.0 <= r.1 <= to,
        trimmed(chars@.subrange(from as int, to as int)) == chars@.subrange(r.0 as int, r.1 as int),
{
    let mut a: usize = from;
    while a < to && space(chars[a])
        invariant
            from <= a <= to <= chars@.len(),
            trimmed_left(chars@.subrange(from as int, to as int)) == trimmed_left(
                chars@.subrange(a as int, to as int),
            ),
        decreases to - a,
    {
        assert(chars@.subrange(a as int, to as int).drop_first() =~= chars@.subrange(a + 1, to as int));
        a = a + 1;
    }
    let mut b: usize = to;
    assert(trimmed_left(chars@.subrange(from as int, to as int)) == chars@.subrange(a as int, to as int));
    while b > a && space(chars[b - 1])
        invariant
            from <= a <= b <= to <= chars@.len(),
            trimmed_right(chars@.subrange(a as int, to as int)) == trimmed_right(
                chars@.subrange(a as int, b as int),
            ),
        decreases b,
    {
        assert(chars@.subrange(a as int, b as int).drop_last() =~= chars@.subrange(a as int, b - 1));
        b = b - 1;
    }
    (a, b)
}

/// `s` without the blanks at its beginning and end.
pub fn trim(s: &str) -> (r: String)
    ensures
        r@ == trimmed(s@),
{
    let chars = chars_of(s);
    let n = chars.len();
    assert(chars@.subrange(0, n as int) =~= s@);
    let (a, b) = trim_bounds(&chars, 0, n);
    string_of(&chars, a, b)
}

/// A copy of a list of texts.
pub fn copy_list(list: &Vec<String>) -> (r: Vec<String>)
    ensures
        texts(r@) == texts(list@),
{
    let mut out: Vec<String> = Vec::new();
    let mut i: usize = 0;
    while i < list.len()
        invariant
            i <= list@.len(),
            out@.len() == i,
            forall|j: int| 0 <= j < i ==> (#[trigger] out@[j])@ == list@[j]@,
        decreases list@.len() - i,
    {
        out.push(list[i].clone());
        i = i + 1;
    }
    assert(texts(out@) =~= texts(list@));
    out
}

/// Literal texts as a list.
pub fn strings<const N: usize>(items: [&str; N]) -> (r: Vec<String>)
    ensures
        texts(r@) == Seq::new(N as nat, |i: int| items@[i]@),
{
    let mut out: Vec<String> = Vec::new();
    let mut i: usize = 0;
    while i < N
        invariant
            i <= N,
            out@.len() == i,
            forall|j: int| 0 <= j < i ==> (#[trigger] out@[j])@ == items@[j]@,
        decreases N - i,
    {
        out.push(items[i].to_owned());
        i = i + 1;
    }
    assert(texts(out@) =~= Seq::new(N as nat, |i: int| items@[i]@));
    out
}

proof fn lemma_trimmed_left(s: Seq<char>) -> (i: int)
    ensures
        0 <= i <= s.len(),
        trimmed_left(s) == s.skip(i),
        forall|k: int| 0 <= k < i ==> is_space(#[trigger] s[k]),
        i < s.len() ==> !is_space(s[i]),
    decreases s.len(),
{
    if s.len() > 0 && is_space(s[0]) {
        let rest = s.drop_first();
        let j = lemma_trimmed_left(rest);
        assert(rest.skip(j) =~= s.skip(j + 1));
        assert forall|k: int| 0 <= k < j + 1 implies is_space(#[trigger] s[k]) by {
            if k > 0 {
                assert(rest[k - 1] == s[k]);
            }
        }
        if j + 1 < s.len() {
            assert(rest[j] == s[j + 1]);
        }
        j + 1
    } else {
        assert(s.skip(0) =~= s);
        0
    }
}

proof fn lemma_trimmed_right(s: Seq<char>) -> (j: int)
    ensures
        0 <= j <= s.len(),
        trimmed_right(s) == s.take(j),
        forall|k: int| j <= k < s.len() ==> is_space(#[trigger] s[k]),
        j > 0 ==> !is_space(s[j - 1]),
    decreases s.len(),
{
    if s.len() > 0 && is_space(s.last()) {
        let rest = s.drop_last();
        let j = lemma_trimmed_right(rest);
        assert(rest.take(j) =~= s.take(j));
        assert forall|k: int| j <= k < s.len() implies is_space(#[trigger] s[k]) by {
            if k < rest.len() {
                assert(rest[k] == s[k]);
            }
        }
        j
    } else {
        assert(s.take(s.len() as int) =~= s);
        s.len() as int
    }
}

/// Trimming cuts the blanks at both ends of a text off, and nothing else.
pub proof fn law_trimming_cuts_blanks(s: Seq<char>)
    ensures
        exists|i: int, j: int|
            0 <= i <= j <= s.len() && trimmed(s) == #[trigger] s.subrange(i, j) && (forall|k: int|
                0 <= k < i ==> is_space(#[trigger] s[k])) && (forall|k: int| j <= k < s.len() ==> is_space(
                #[trigger] s[k],
            )),
        trimmed(s).len() > 0 ==> !is_space(trimmed(s)[0]) && !is_space(trimmed(s).last()),
{
    let i = lemma_trimmed_left(s);
    let t = s.skip(i);
    let n = lemma_trimmed_right(t);
    let j = i + n;
    assert(t.take(n) =~= s.subrange(i, j));
    assert forall|k: int| j <= k < s.len() implies is_space(#[trigger] s[k]) by {
        assert(t[k - i] == s[k]);
    }
    if n > 0 {
        assert(t[0] == s[i]);
        assert(t.take(n)[0] == t[0]);
        assert(t.take(n).last() == t[n - 1]);
    }
}

} // verus!
