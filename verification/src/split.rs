//! Text in parts: split at a character, into lines, into words.
use crate::text::{chars_of, is_space, space, string_of, texts};
use vstd::prelude::*;

verus! {

/// The parts of `s` between the occurrences of `sep`; a text without one is its
/// only part.
pub open spec fn split_on(s: Seq<char>, sep: char) -> Seq<Seq<char>>
    decreases s.len(),
{
    if s.len() == 0 {
        seq![Seq::empty()]
    } else {
        let rest = split_on(s.drop_last(), sep);
        if s.last() == sep {
            rest.push(Seq::empty())
        } else {
            rest.drop_last().push(rest.last().push(s.last()))
        }
    }
}

/// The parts of `s` between the occurrences of `sep`.
pub fn split_text(s: &str, sep: char) -> (r: Vec<String>)
    ensures
        texts(r@) == split_on(s@, sep),
        r@.len() >= 1,
{
    let chars = chars_of(s);
    let mut out: Vec<String> = Vec::new();
    let mut part = String::new();
    let mut i: usize = 0;
    let ghost all = s@;
    assert(all.take(0) =~= Seq::empty());
    assert(texts(out@).push(part@) =~= seq![Seq::<char>::empty()]);
    while i < chars.len()
        invariant
            i <= chars@.len(),
            chars@ == all,
            texts(out@).push(part@) == split_on(all.take(i as int), sep),
        decreases chars@.len() - i,
    {
        let ghost before = texts(out@);
        let ghost piece = part@;
        let c = chars[i];
        proof {
            assert(all.take(i + 1).drop_last() =~= all.take(i as int));
            assert(all.take(i + 1).last() == c);
        }
        if c == sep {
            out.push(part);
            assert(texts(out@) =~= before.push(piece));
            part = String::new();
            assert(part@ =~= Seq::empty());
        } else {
            part.push(c);
            assert(before.push(piece).drop_last() =~= before);
        }
        i = i + 1;
    }
    let ghost before = texts(out@);
    let ghost piece = part@;
    out.push(part);
    assert(texts(out@) =~= before.push(piece));
    assert(all.take(i as int) =~= all);
    out
}

/// A line without the carriage return that its end may carry.
pub open spec fn without_return(s: Seq<char>) -> Seq<char> {
    if s.len() > 0 && s.last() == '\r' {
        s.drop_last()
    } else {
        s
    }
}

/// The lines of `s`: what stands before each line feed, without a carriage return
/// at its end, and what follows the last one, if anything.
pub open spec fn lines_of(s: Seq<char>) -> Seq<Seq<char>> {
    let parts = split_on(s, '\n');
    let ended = Seq::new((parts.len() - 1) as nat, |i: int| without_return(parts[i]));
    if parts.last().len() == 0 {
        ended
    } else {
        ended.push(parts.last())
    }
}

fn strip_return(s: &str) -> (r: String)
    ensures
        r@ == without_return(s@),
{
    let chars = chars_of(s);
    let n = chars.len();
    if n > 0 && chars[n - 1] == '\r' {
        let r = string_of(&chars, 0, n - 1);
        assert(r@ =~= s@.drop_last());
        r
    } else {
        s.to_owned()
    }
}

/// The lines of `s`.
pub fn split_lines(s: &str) -> (r: Vec<String>)
    ensures
        texts(r@) == lines_of(s@),
{
    let parts = split_text(s, '\n');
    let ghost all = texts(parts@);
    let last = parts.len() - 1;
    let mut out: Vec<String> = Vec::new();
    let mut i: usize = 0;
    while i < last
        invariant
            i <= last,
            last == parts@.len() - 1,
            all == texts(parts@),
            out@.len() == i,
            forall|j: int| 0 <= j < i ==> (#[trigger] out@[j])@ == without_return(all[j]),
        decreases last - i,
    {
        out.push(strip_return(parts[i].as_str()));
        i = i + 1;
    }
    let ghost ended = Seq::new((all.len() - 1) as nat, |i: int| without_return(all[i]));
    assert(texts(out@) =~= ended);
    assert(all.last() == parts@[last as int]@);
    if !parts[last].as_str().is_empty() {
        out.push(parts[last].clone());
        assert(texts(out@) =~= ended.push(all.last()));
    }
    out
}

/// The words of `s`: its longest parts without blanks.
pub open spec fn words_of(s: Seq<char>) -> Seq<Seq<char>>
    decreases s.len(),
{
    if s.len() == 0 {
        Seq::empty()
    } else {
        let rest = words_of(s.drop_last());
        let c = s.last();
        if is_space(c) {
            rest
        } else if s.len() >= 2 && !is_space(s[s.len() - 2]) {
            rest.drop_last().push(rest.last().push(c))
        } else {
            rest.push(seq![c])
        }
    }
}

/// The words of `s`.
pub fn split_words(s: &str) -> (r: Vec<String>)
    ensures
        texts(r@) == words_of(s@),
{
    let chars = chars_of(s);
    let mut out: Vec<String> = Vec::new();
    let mut word = String::new();
    let mut i: usize = 0;
    let ghost all = s@;
    assert(all.take(0) =~= Seq::empty());
    assert(texts(out@) =~= Seq::empty());
    while i < chars.len()
        invariant
            i <= chars@.len(),
            chars@ == all,
            word@.len() > 0 <==> i > 0 && !is_space(all[i - 1]),
            words_of(all.take(i as int)) == if word@.len() > 0 {
                texts(out@).push(word@)
            } else {
                texts(out@)
            },
        decreases chars@.len() - i,
    {
        let ghost before = texts(out@);
        let ghost open = word@;
        let c = chars[i];
        proof {
            assert(all.take(i + 1).drop_last() =~= all.take(i as int));
            assert(all.take(i + 1).last() == c);
            if i > 0 {
                assert(all.take(i + 1)[i - 1] == all[i - 1]);
            }
        }
        if space(c) {
            if !word.as_str().is_empty() {
                out.push(word);
                assert(texts(out@) =~= before.push(open));
                word = String::new();
            }
        } else {
            word.push(c);
            proof {
                if open.len() > 0 {
                    assert(before.push(open).drop_last() =~= before);
                } else {
                    assert(word@ =~= seq![c]);
                }
            }
        }
        i = i + 1;
    }
    assert(all.take(i as int) =~= all);
    if !word.as_str().is_empty() {
        let ghost before = texts(out@);
        let ghost open = word@;
        out.push(word);
        assert(texts(out@) =~= before.push(open));
    }
    out
}

/// What stands before and after the last occurrence of `sep`.
pub open spec fn halves_at_last(s: Seq<char>, sep: char) -> Option<(Seq<char>, Seq<char>)>
    decreases s.len(),
{
    if s.len() == 0 {
        None
    } else if s.last() == sep {
        Some((s.drop_last(), Seq::empty()))
    } else {
        match halves_at_last(s.drop_last(), sep) {
            Some((a, b)) => Some((a, b.push(s.last()))),
            None => None,
        }
    }
}

pub proof fn lemma_halves(s: Seq<char>, sep: char, at: int)
    requires
        0 <= at < s.len(),
        s[at] == sep,
        forall|j: int| at < j < s.len() ==> s[j] != sep,
    ensures
        halves_at_last(s, sep) == Some((s.take(at), s.skip(at + 1))),
    decreases s.len(),
{
    if at == s.len() - 1 {
        assert(s.take(at) =~= s.drop_last());
        assert(s.skip(at + 1) =~= Seq::empty());
    } else {
        lemma_halves(s.drop_last(), sep, at);
        assert(s.drop_last().take(at) =~= s.take(at));
        assert(s.drop_last().skip(at + 1).push(s.last()) =~= s.skip(at + 1));
    }
}

proof fn lemma_no_halves(s: Seq<char>, sep: char)
    requires
        forall|j: int| 0 <= j < s.len() ==> s[j] != sep,
    ensures
        halves_at_last(s, sep) is None,
    decreases s.len(),
{
    if s.len() > 0 {
        lemma_no_halves(s.drop_last(), sep);
    }
}

/// What stands before and after the last occurrence of `sep`.
pub fn split_last(s: &str, sep: char) -> (r: Option<(String, String)>)
    ensures
        match r {
            Some((a, b)) => halves_at_last(s@, sep) == Some((a@, b@)),
            None => halves_at_last(s@, sep) is None,
        },
{
    let chars = chars_of(s);
    let n = chars.len();
    let mut at: usize = n;
    while at > 0 && chars[at - 1] != sep
        invariant
            at <= n == chars@.len(),
            forall|j: int| at <= j < n ==> chars@[j] != sep,
        decreases at,
    {
        at = at - 1;
    }
    if at == 0 {
        proof {
            lemma_no_halves(s@, sep);
        }
        return None;
    }
    let a = string_of(&chars, 0, at - 1);
    let b = string_of(&chars, at, n);
    proof {
        lemma_halves(s@, sep, at - 1);
        assert(a@ =~= s@.take(at - 1));
        assert(b@ =~= s@.skip(at as int));
    }
    Some((a, b))
}

/// What stands before and after the first occurrence of `sep`.
pub open spec fn halves_at_first(s: Seq<char>, sep: char) -> Option<(Seq<char>, Seq<char>)>
    decreases s.len(),
{
    if s.len() == 0 {
        None
    } else if s[0] == sep {
        Some((Seq::empty(), s.drop_first()))
    } else {
        match halves_at_first(s.drop_first(), sep) {
            Some((a, b)) => Some((seq![s[0]] + a, b)),
            None => None,
        }
    }
}

pub proof fn lemma_first_halves(s: Seq<char>, sep: char, at: int)
    requires
        0 <= at < s.len(),
        s[at] == sep,
        forall|j: int| 0 <= j < at ==> s[j] != sep,
    ensures
        halves_at_first(s, sep) == Some((s.take(at), s.skip(at + 1))),
    decreases s.len(),
{
    if at == 0 {
        assert(s.take(0) =~= Seq::empty());
        assert(s.skip(1) =~= s.drop_first());
    } else {
        let t = s.drop_first();
        lemma_first_halves(t, sep, at - 1);
        assert(seq![s[0]] + t.take(at - 1) =~= s.take(at));
        assert(t.skip(at) =~= s.skip(at + 1));
    }
}

proof fn lemma_no_first_halves(s: Seq<char>, sep: char)
    requires
        forall|j: int| 0 <= j < s.len() ==> s[j] != sep,
    ensures
        halves_at_first(s, sep) is None,
    decreases s.len(),
{
    if s.len() > 0 {
        let t = s.drop_first();
        assert forall|j: int| 0 <= j < t.len() implies t[j] != sep by {
            assert(t[j] == s[j + 1]);
        }
        lemma_no_first_halves(t, sep);
    }
}

/// What stands before and after the first occurrence of `sep`.
pub fn split_first(s: &str, sep: char) -> (r: Option<(String, String)>)
    ensures
        match r {
            Some((a, b)) => halves_at_first(s@, sep) == Some((a@, b@)),
            None => halves_at_first(s@, sep) is None,
        },
{
    let chars = chars_of(s);
    let n = chars.len();
    let mut at: usize = 0;
    while at < n && chars[at] != sep
        invariant
            at <= n == chars@.len(),
            forall|j: int| 0 <= j < at ==> chars@[j] != sep,
        decreases n - at,
    {
        at = at + 1;
    }
    if at == n {
        proof {
            lemma_no_first_halves(s@, sep);
        }
        return None;
    }
    let a = string_of(&chars, 0, at);
    let b = string_of(&chars, at + 1, n);
    proof {
        lemma_first_halves(s@, sep, at as int);
        assert(a@ =~= s@.take(at as int));
        assert(b@ =~= s@.skip(at + 1));
    }
    Some((a, b))
}

proof fn lemma_split_parts(s: Seq<char>, sep: char)
    ensures
        split_on(s, sep).len() >= 1,
    decreases s.len(),
{
    if s.len() > 0 {
        lemma_split_parts(s.drop_last(), sep);
    }
}

proof fn lemma_split_joined(a: Seq<char>, b: Seq<char>, sep: char)
    ensures
        split_on(a + b, sep) == split_on(a, sep).drop_last() + seq![split_on(a, sep).last() + split_on(b, sep)[0]]
            + split_on(b, sep).drop_first(),
    decreases b.len(),
{
    let x = split_on(a, sep);
    lemma_split_parts(a, sep);
    lemma_split_parts(b, sep);
    if b.len() == 0 {
        assert(a + b =~= a);
        assert(x.last() + Seq::<char>::empty() =~= x.last());
        assert(split_on(b, sep).drop_first() =~= Seq::empty());
        assert(x =~= x.drop_last() + seq![x.last()] + Seq::<Seq<char>>::empty());
    } else {
        let c = b.drop_last();
        let y = split_on(c, sep);
        let whole = split_on(b, sep);
        lemma_split_parts(c, sep);
        lemma_split_joined(a, c, sep);
        assert((a + b).drop_last() =~= a + c);
        assert((a + b).last() == b.last());
        let before = x.drop_last() + seq![x.last() + y[0]] + y.drop_first();
        if b.last() == sep {
            assert(before.push(Seq::empty()) =~= x.drop_last() + seq![x.last() + whole[0]] + whole.drop_first());
        } else if y.len() == 1 {
            assert(before.last() == x.last() + y[0]);
            assert((x.last() + y[0]).push(b.last()) =~= x.last() + y[0].push(b.last()));
            assert(before.drop_last().push(before.last().push(b.last())) =~= x.drop_last() + seq![x.last() + whole[0]]
                + whole.drop_first());
        } else {
            assert(before.last() == y.last());
            assert(before.drop_last().push(before.last().push(b.last())) =~= x.drop_last() + seq![x.last() + whole[0]]
                + whole.drop_first());
        }
    }
}

/// The lines of a text that ends with a line feed, followed by another text, are
/// those of both.
pub proof fn law_lines_of_joined_texts(a: Seq<char>, b: Seq<char>)
    requires
        a.len() == 0 || a.last() == '\n',
    ensures
        lines_of(a + b) == lines_of(a) + lines_of(b),
{
    let x = split_on(a, '\n');
    let y = split_on(b, '\n');
    let z = split_on(a + b, '\n');
    lemma_split_parts(a, '\n');
    lemma_split_parts(b, '\n');
    lemma_split_joined(a, b, '\n');
    assert(x.last() =~= Seq::empty());
    assert(x.last() + y[0] =~= y[0]);
    assert(z =~= x.drop_last() + y);
    assert(lines_of(a + b) =~= lines_of(a) + lines_of(b));
}

/// A text is cut at the first occurrence of a character, or not at all where it does not
/// have it.
pub proof fn law_first_cut(s: Seq<char>, sep: char)
    ensures
        halves_at_first(s, sep) matches Some((a, b)) ==> s == a + seq![sep] + b && !a.contains(sep),
        halves_at_first(s, sep) is None ==> !s.contains(sep),
    decreases s.len(),
{
    if s.len() > 0 {
        let rest = s.drop_first();
        if s[0] == sep {
            assert(s =~= Seq::<char>::empty() + seq![sep] + rest);
        } else {
            law_first_cut(rest, sep);
            match halves_at_first(rest, sep) {
                Some((a, b)) => {
                    let c = seq![s[0]] + a;
                    let joined = a + seq![sep] + b;
                    assert(rest == joined);
                    assert(s =~= seq![s[0]] + joined);
                    assert(seq![s[0]] + joined =~= c + seq![sep] + b);
                    if c.contains(sep) {
                        let i = choose|i: int| 0 <= i < c.len() && c[i] == sep;
                        assert(a[i - 1] == sep);
                    }
                },
                None => {
                    if s.contains(sep) {
                        let i = choose|i: int| 0 <= i < s.len() && s[i] == sep;
                        assert(rest[i - 1] == sep);
                    }
                },
            }
        }
    }
}

/// A text is cut at the last occurrence of a character, or not at all where it does not
/// have it.
pub proof fn law_last_cut(s: Seq<char>, sep: char)
    ensures
        halves_at_last(s, sep) matches Some((a, b)) ==> s == a + seq![sep] + b && !b.contains(sep),
        halves_at_last(s, sep) is None ==> !s.contains(sep),
    decreases s.len(),
{
    if s.len() > 0 {
        let rest = s.drop_last();
        if s.last() == sep {
            assert(s =~= rest + seq![sep] + Seq::<char>::empty());
        } else {
            law_last_cut(rest, sep);
            match halves_at_last(rest, sep) {
                Some((a, b)) => {
                    let c = b.push(s.last());
                    let joined = a + seq![sep] + b;
                    assert(rest == joined);
                    assert(s =~= joined.push(s.last()));
                    assert(joined.push(s.last()) =~= a + seq![sep] + c);
                    if c.contains(sep) {
                        let i = choose|i: int| 0 <= i < c.len() && c[i] == sep;
                        assert(b[i] == sep);
                    }
                },
                None => {
                    if s.contains(sep) {
                        let i = choose|i: int| 0 <= i < s.len() && s[i] == sep;
                        assert(rest[i] == sep);
                    }
                },
            }
        }
    }
}

/// The words of a text are not empty and hold no blanks; a text without blanks is one
/// word.
pub proof fn law_words_hold_no_blanks(s: Seq<char>, i: int)
    ensures
        0 <= i < words_of(s).len() ==> words_of(s)[i].len() > 0 && forall|k: int|
            0 <= k < words_of(s)[i].len() ==> !is_space(#[trigger] words_of(s)[i][k]),
        s.len() > 0 && (forall|k: int| 0 <= k < s.len() ==> !is_space(#[trigger] s[k])) ==> words_of(s) == seq![s],
        s.len() > 0 && !is_space(s.last()) ==> words_of(s).len() > 0,
    decreases s.len(),
{
    if s.len() > 0 {
        let rest = s.drop_last();
        let c = s.last();
        law_words_hold_no_blanks(rest, i);
        law_words_hold_no_blanks(rest, words_of(rest).len() - 1);
        if s.len() >= 2 {
            assert(rest.last() == s[s.len() - 2]);
        }
        if forall|k: int| 0 <= k < s.len() ==> !is_space(#[trigger] s[k]) {
            assert(!is_space(s[s.len() - 1]));
            assert forall|k: int| 0 <= k < rest.len() implies !is_space(#[trigger] rest[k]) by {
                assert(rest[k] == s[k]);
            }
            if s.len() >= 2 {
                assert(!is_space(s[s.len() - 2]));
                assert(words_of(rest) == seq![rest]);
                assert(rest.push(c) =~= s);
                assert(words_of(s) =~= seq![s]);
            } else {
                assert(rest =~= Seq::empty());
                assert(seq![c] =~= s);
                assert(words_of(s) =~= seq![s]);
            }
        }
    }
}

} // verus!
