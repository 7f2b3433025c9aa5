//! Maps keyed by text, kept in ascending key order.
use crate::text::{chars_of, text_eq, texts};
use vstd::prelude::*;

verus! {

/// The order of texts: by the first character that differs, the shorter text
/// first where one begins with the other.
pub open spec fn text_before(a: Seq<char>, b: Seq<char>) -> bool
    decreases a.len(),
{
    if b.len() == 0 {
        false
    } else if a.len() == 0 {
        true
    } else if a[0] != b[0] {
        a[0] < b[0]
    } else {
        text_before(a.drop_first(), b.drop_first())
    }
}

/// No text comes before itself.
pub proof fn lemma_text_before_irreflexive(a: Seq<char>)
    ensures
        !text_before(a, a),
    decreases a.len(),
{
    if a.len() > 0 {
        lemma_text_before_irreflexive(a.drop_first());
    }
}

/// Of two different texts one comes before the other.
pub proof fn lemma_text_before_total(a: Seq<char>, b: Seq<char>)
    ensures
        a == b || text_before(a, b) || text_before(b, a),
    decreases a.len(),
{
    if a.len() == 0 {
        if b.len() == 0 {
            assert(a =~= b);
        }
    } else if b.len() > 0 && a[0] == b[0] {
        lemma_text_before_total(a.drop_first(), b.drop_first());
        if a.drop_first() == b.drop_first() {
            assert(a =~= seq![a[0]] + a.drop_first());
            assert(b =~= seq![b[0]] + b.drop_first());
        }
    }
}

/// The order of texts is transitive.
pub proof fn lemma_text_before_transitive(a: Seq<char>, b: Seq<char>, c: Seq<char>)
    requires
        text_before(a, b),
        text_before(b, c),
    ensures
        text_before(a, c),
    decreases a.len(),
{
    if a.len() > 0 && b.len() > 0 && c.len() > 0 && a[0] == b[0] && b[0] == c[0] {
        lemma_text_before_transitive(a.drop_first(), b.drop_first(), c.drop_first());
    }
}

/// Whether `a` comes before `b`.
pub fn text_lt(a: &str, b: &str) -> (r: bool)
    ensures
        r == text_before(a@, b@),
{
    let x = chars_of(a);
    let y = chars_of(b);
    let mut i: usize = 0;
    assert(a@.skip(0) =~= a@);
    assert(b@.skip(0) =~= b@);
    while i < x.len() && i < y.len()
        invariant
            i <= x@.len(),
            i <= y@.len(),
            x@ == a@,
            y@ == b@,
            text_before(a@, b@) == text_before(x@.skip(i as int), y@.skip(i as int)),
        decreases x@.len() - i,
    {
        let ghost sx = x@.skip(i as int);
        let ghost sy = y@.skip(i as int);
        assert(sx[0] == x@[i as int] && sy[0] == y@[i as int]);
        if x[i] != y[i] {
            return x[i] < y[i];
        }
        assert(sx.drop_first() =~= x@.skip(i + 1));
        assert(sy.drop_first() =~= y@.skip(i + 1));
        i = i + 1;
    }
    i < y.len()
}

/// Strictly ascending.
pub open spec fn ascending(s: Seq<Seq<char>>) -> bool {
    forall|i: int, j: int| 0 <= i < j < s.len() ==> text_before(#[trigger] s[i], #[trigger] s[j])
}

/// Two strictly ascending lists with the same members are the same list.
pub proof fn lemma_ascending_unique(a: Seq<Seq<char>>, b: Seq<Seq<char>>)
    requires
        ascending(a),
        ascending(b),
        forall|x: Seq<char>| a.contains(x) <==> b.contains(x),
    ensures
        a == b,
    decreases a.len(),
{
    if a.len() == 0 {
        if b.len() > 0 {
            assert(b.contains(b[0]));
        }
        assert(a =~= b);
    } else {
        assert(a.contains(a.last()));
        let jb = choose|j: int| 0 <= j < b.len() && b[j] == a.last();
        assert(b.contains(b.last()));
        let ja = choose|j: int| 0 <= j < a.len() && a[j] == b.last();
        if a.last() != b.last() {
            assert(text_before(b[jb], b.last()));
            assert(text_before(a[ja], a.last()));
            lemma_text_before_transitive(a.last(), b.last(), a.last());
            lemma_text_before_irreflexive(a.last());
        }
        let a1 = a.drop_last();
        let b1 = b.drop_last();
        assert forall|x: Seq<char>| a1.contains(x) <==> b1.contains(x) by {
            if a1.contains(x) {
                let i = choose|i: int| 0 <= i < a1.len() && a1[i] == x;
                assert(a[i] == x && text_before(a[i], a.last()));
                lemma_text_before_irreflexive(x);
                assert(a.contains(x));
                let j = choose|j: int| 0 <= j < b.len() && b[j] == x;
                assert(b1[j] == x);
            }
            if b1.contains(x) {
                let i = choose|i: int| 0 <= i < b1.len() && b1[i] == x;
                assert(b[i] == x && text_before(b[i], b.last()));
                lemma_text_before_irreflexive(x);
                assert(b.contains(x));
                let j = choose|j: int| 0 <= j < a.len() && a[j] == x;
                assert(a1[j] == x);
            }
        }
        lemma_ascending_unique(a1, b1);
        assert(a =~= a1.push(a.last()));
        assert(b =~= b1.push(b.last()));
    }
}

/// The members of a finite set of texts, in ascending order.
pub open spec fn in_sequence(names: Set<Seq<char>>) -> Seq<Seq<char>> {
    choose|list: Seq<Seq<char>>|
        ascending(list) && forall|n: Seq<char>| #[trigger] list.contains(n) <==> names.contains(n)
}

/// The ascending list of a set's members is the only one.
pub proof fn lemma_in_sequence(list: Seq<Seq<char>>, names: Set<Seq<char>>)
    requires
        ascending(list),
        forall|n: Seq<char>| #[trigger] list.contains(n) <==> names.contains(n),
    ensures
        in_sequence(names) == list,
{
    lemma_ascending_unique(in_sequence(names), list);
}

spec fn placed(list: Seq<Seq<char>>, x: Seq<char>) -> Seq<Seq<char>>
    decreases list.len(),
{
    if list.len() == 0 {
        seq![x]
    } else if text_before(list.last(), x) {
        list.push(x)
    } else {
        placed(list.drop_last(), x).push(list.last())
    }
}

proof fn lemma_placed(list: Seq<Seq<char>>, x: Seq<char>)
    requires
        ascending(list),
        !list.contains(x),
    ensures
        ascending(placed(list, x)),
        forall|n: Seq<char>| #[trigger] placed(list, x).contains(n) <==> list.contains(n) || n == x,
    decreases list.len(),
{
    let after = placed(list, x);
    if list.len() == 0 {
        assert(after[0] == x);
    } else if text_before(list.last(), x) {
        assert forall|i: int, j: int| 0 <= i < j < after.len() implies text_before(
            #[trigger] after[i],
            #[trigger] after[j],
        ) by {
            if j == list.len() && i < list.len() - 1 {
                lemma_text_before_transitive(list[i], list.last(), x);
            }
        }
        assert forall|n: Seq<char>| #[trigger] after.contains(n) <==> list.contains(n) || n == x by {
            if list.contains(n) {
                let i = choose|i: int| 0 <= i < list.len() && list[i] == n;
                assert(after[i] == n);
            }
            assert(after[list.len() as int] == x);
        }
    } else {
        let rest = list.drop_last();
        let inner = placed(rest, x);
        assert(!rest.contains(x)) by {
            if rest.contains(x) {
                let i = choose|i: int| 0 <= i < rest.len() && rest[i] == x;
                assert(list[i] == x);
            }
        }
        lemma_placed(rest, x);
        lemma_text_before_total(list.last(), x);
        assert(list.contains(list.last()));
        assert forall|i: int, j: int| 0 <= i < j < after.len() implies text_before(
            #[trigger] after[i],
            #[trigger] after[j],
        ) by {
            if j == inner.len() {
                assert(inner.contains(inner[i]));
                if inner[i] != x {
                    let k = choose|k: int| 0 <= k < rest.len() && rest[k] == inner[i];
                    assert(text_before(list[k], list[list.len() - 1]));
                }
            }
        }
        assert forall|n: Seq<char>| #[trigger] after.contains(n) <==> list.contains(n) || n == x by {
            if after.contains(n) {
                let i = choose|i: int| 0 <= i < after.len() && after[i] == n;
                if i < inner.len() {
                    assert(inner.contains(n));
                    if n != x {
                        let k = choose|k: int| 0 <= k < rest.len() && rest[k] == n;
                        assert(list[k] == n);
                    }
                } else {
                    assert(n == list.last());
                }
            }
            if list.contains(n) {
                let i = choose|i: int| 0 <= i < list.len() && list[i] == n;
                if i < rest.len() {
                    assert(rest[i] == n);
                    assert(inner.contains(n));
                    let k = choose|k: int| 0 <= k < inner.len() && inner[k] == n;
                    assert(after[k] == n);
                } else {
                    assert(after[inner.len() as int] == n);
                }
            }
            if n == x {
                assert(inner.contains(x));
                let k = choose|k: int| 0 <= k < inner.len() && inner[k] == x;
                assert(after[k] == x);
            }
        }
    }
}

/// A finite set's members can be put in ascending order.
pub proof fn lemma_in_sequence_members(names: Set<Seq<char>>)
    requires
        names.finite(),
    ensures
        ascending(in_sequence(names)),
        forall|n: Seq<char>| #[trigger] in_sequence(names).contains(n) <==> names.contains(n),
    decreases names.len(),
{
    if names.len() == 0 {
        let list = Seq::<Seq<char>>::empty();
        assert forall|n: Seq<char>| #[trigger] list.contains(n) <==> names.contains(n) by {
            if names.contains(n) {
                assert(names.remove(n).len() < names.len());
            }
        }
        lemma_in_sequence(list, names);
    } else {
        let x = names.choose();
        let rest = names.remove(x);
        lemma_in_sequence_members(rest);
        let list = in_sequence(rest);
        lemma_placed(list, x);
        lemma_in_sequence(placed(list, x), names);
    }
}

/// Ascending; equal texts stand side by side.
pub open spec fn sorted(s: Seq<Seq<char>>) -> bool {
    forall|i: int, j: int| 0 <= i < j < s.len() ==> !text_before(#[trigger] s[j], #[trigger] s[i])
}

pub proof fn lemma_not_before_transitive(a: Seq<char>, b: Seq<char>, c: Seq<char>)
    requires
        !text_before(b, a),
        !text_before(c, b),
    ensures
        !text_before(c, a),
{
    lemma_text_before_total(a, b);
    lemma_text_before_total(b, c);
    if text_before(c, a) {
        if a == b {
        } else if b == c {
        } else {
            lemma_text_before_transitive(a, b, c);
            lemma_text_before_transitive(a, c, a);
            lemma_text_before_irreflexive(a);
        }
    }
}

/// The texts of `list`, in order.
pub fn sort_texts(list: Vec<String>) -> (r: Vec<String>)
    ensures
        sorted(texts(r@)),
        texts(r@).to_multiset() == texts(list@).to_multiset(),
{
    let mut out: Vec<String> = Vec::new();
    let mut i: usize = 0;
    let ghost all = texts(list@);
    assert(all.take(0) =~= Seq::empty());
    assert(texts(out@) =~= Seq::empty());
    while i < list.len()
        invariant
            i <= list@.len(),
            all == texts(list@),
            sorted(texts(out@)),
            texts(out@).to_multiset() == all.take(i as int).to_multiset(),
        decreases list@.len() - i,
    {
        let item = list[i].as_str();
        let mut at: usize = out.len();
        while at > 0 && text_lt(item, out[at - 1].as_str())
            invariant
                at <= out@.len(),
                sorted(texts(out@)),
                forall|j: int| at <= j < out@.len() ==> text_before(item@, #[trigger] texts(out@)[j]),
            decreases at,
        {
            assert(texts(out@)[at - 1] == out@[at - 1]@);
            at = at - 1;
        }
        let ghost before = texts(out@);
        out.insert(at, list[i].clone());
        proof {
            let after = texts(out@);
            assert(after =~= before.insert(at as int, item@));
            assert forall|x: int, y: int| 0 <= x < y < after.len() implies !text_before(
                #[trigger] after[y],
                #[trigger] after[x],
            ) by {
                let bx = if x < at { x } else { x - 1 };
                let by = if y < at { y } else { y - 1 };
                if x != at && y != at {
                    assert(after[x] == before[bx] && after[y] == before[by]);
                } else if x == at {
                    assert(after[y] == before[by]);
                    assert(text_before(item@, before[by]));
                    if text_before(before[by], item@) {
                        lemma_text_before_transitive(item@, before[by], item@);
                        lemma_text_before_irreflexive(item@);
                    }
                } else {
                    assert(after[x] == before[bx]);
                    assert(!text_before(item@, before[at - 1]));
                    if x < at - 1 {
                        assert(!text_before(before[at - 1], before[x]));
                        lemma_not_before_transitive(before[x], before[at - 1], item@);
                    }
                }
            }
            before.to_multiset_ensures();
            after.to_multiset_ensures();
            lemma_insert_multiset(before, at as int, item@);
            assert(all.take(i + 1) =~= all.take(i as int).push(item@));
            all.take(i as int).to_multiset_ensures();
            assert(all.take(i as int).push(item@).to_multiset() =~= all.take(i as int).to_multiset().insert(item@));
        }
        i = i + 1;
    }
    assert(all.take(i as int) =~= all);
    out
}

proof fn lemma_insert_multiset(s: Seq<Seq<char>>, at: int, x: Seq<char>)
    requires
        0 <= at <= s.len(),
    ensures
        s.insert(at, x).to_multiset() == s.to_multiset().insert(x),
    decreases s.len() - at,
{
    s.to_multiset_ensures();
    let t = s.insert(at, x);
    t.to_multiset_ensures();
    assert(t.remove(at) =~= s);
    assert(t.remove(at).to_multiset() =~= t.to_multiset().remove(x)) by {
        assert(t[at] == x);
    }
    assert(t.contains(x)) by {
        assert(t[at] == x);
    }
    assert(t.to_multiset().count(x) > 0);
    assert(t.to_multiset() =~= t.to_multiset().remove(x).insert(x));
}

/// A map from texts to values, in ascending key order.
pub struct TextMap<V> {
    entries: Vec<(String, V)>,
}

impl<V: View> View for TextMap<V> {
    type V = Map<Seq<char>, V::V>;

    closed spec fn view(&self) -> Map<Seq<char>, V::V> {
        Map::new(
            |k: Seq<char>| exists|i: int| 0 <= i < self.entries@.len() && (#[trigger] self.entries@[i]).0@ == k,
            |k: Seq<char>| self.entries@[index_of(self.entries@, k)].1@,
        )
    }
}

spec fn index_of<V>(entries: Seq<(String, V)>, k: Seq<char>) -> int {
    choose|i: int| 0 <= i < entries.len() && (#[trigger] entries[i]).0@ == k
}

spec fn ordered<V>(entries: Seq<(String, V)>) -> bool {
    forall|i: int, j: int|
        0 <= i < j < entries.len() ==> text_before((#[trigger] entries[i]).0@, (#[trigger] entries[j]).0@)
}

proof fn lemma_index_of<V>(entries: Seq<(String, V)>, i: int)
    requires
        ordered(entries),
        0 <= i < entries.len(),
    ensures
        index_of(entries, entries[i].0@) == i,
{
    let k = entries[i].0@;
    let j = index_of(entries, k);
    assert(0 <= j < entries.len() && entries[j].0@ == k);
    lemma_text_before_irreflexive(k);
}

impl<V> TextMap<V> {
    #[verifier::type_invariant]
    spec fn inv(self) -> bool {
        ordered(self.entries@)
    }
}

impl<V: View> TextMap<V> {
    /// The keys, in ascending order.
    pub closed spec fn keys(self) -> Seq<Seq<char>> {
        Seq::new(self.entries@.len(), |i: int| self.entries@[i].0@)
    }

    /// The map without entries.
    pub fn new() -> (r: TextMap<V>)
        ensures
            r@ == Map::<Seq<char>, V::V>::empty(),
    {
        let r = TextMap { entries: Vec::new() };
        assert(r@ =~= Map::<Seq<char>, V::V>::empty());
        r
    }

    /// The position of `key`: the number of keys before it, and whether it is there.
    fn seek(&self, key: &str) -> (r: (usize, bool))
        ensures
            r.0 <= self.entries@.len(),
            forall|j: int| 0 <= j < r.0 ==> text_before((#[trigger] self.entries@[j]).0@, key@),
            r.1 ==> r.0 < self.entries@.len() && self.entries@[r.0 as int].0@ == key@,
            !r.1 ==> forall|j: int|
                r.0 <= j < self.entries@.len() ==> text_before(key@, (#[trigger] self.entries@[j]).0@),
            r.1 == self@.contains_key(key@),
            r.1 ==> self@[key@] == self.entries@[r.0 as int].1@,
    {
        proof {
            use_type_invariant(self);
        }
        let mut i: usize = 0;
        let mut hi: usize = self.entries.len();
        while i < hi
            invariant
                i <= hi <= self.entries@.len(),
                ordered(self.entries@),
                forall|j: int| 0 <= j < i ==> text_before((#[trigger] self.entries@[j]).0@, key@),
                forall|j: int| hi <= j < self.entries@.len() ==> !text_before((#[trigger] self.entries@[j]).0@, key@),
            decreases hi - i,
        {
            let mid = i + (hi - i) / 2;
            let before = text_lt(self.entries[mid].0.as_str(), key);
            proof {
                let m = self.entries@[mid as int].0@;
                assert forall|j: int| 0 <= j < mid && before implies text_before(
                    (#[trigger] self.entries@[j]).0@,
                    key@,
                ) by {
                    assert(text_before(self.entries@[j].0@, m));
                    lemma_text_before_transitive(self.entries@[j].0@, m, key@);
                }
                assert forall|j: int| mid < j < self.entries@.len() && !before implies !text_before(
                    (#[trigger] self.entries@[j]).0@,
                    key@,
                ) by {
                    assert(text_before(m, self.entries@[j].0@));
                    if text_before(self.entries@[j].0@, key@) {
                        lemma_text_before_transitive(m, self.entries@[j].0@, key@);
                    }
                }
            }
            if before {
                i = mid + 1;
            } else {
                hi = mid;
            }
        }
        let found = i < self.entries.len() && text_eq(self.entries[i].0.as_str(), key);
        proof {
            if found {
                assert(self.entries@[i as int].0@ == key@);
                lemma_index_of(self.entries@, i as int);
            } else {
                assert forall|j: int| i <= j < self.entries@.len() implies text_before(
                    key@,
                    (#[trigger] self.entries@[j]).0@,
                ) by {
                    lemma_text_before_total(self.entries@[i as int].0@, key@);
                    if j > i {
                        assert(text_before(self.entries@[i as int].0@, self.entries@[j].0@));
                        lemma_text_before_transitive(key@, self.entries@[i as int].0@, self.entries@[j].0@);
                    }
                }
                if self@.contains_key(key@) {
                    let j = choose|j: int| 0 <= j < self.entries@.len() && (#[trigger] self.entries@[j]).0@ == key@;
                    lemma_text_before_irreflexive(key@);
                    if j < i {
                        assert(text_before(self.entries@[j].0@, key@));
                    } else {
                        assert(text_before(key@, self.entries@[j].0@));
                    }
                }
            }
        }
        (i, found)
    }

    /// What `key` is mapped to, if anything.
    pub fn get(&self, key: &str) -> (r: Option<&V>)
        ensures
            match r {
                Some(v) => self@.contains_key(key@) && self@[key@] == v@,
                None => !self@.contains_key(key@),
            },
    {
        let (i, found) = self.seek(key);
        if found {
            Some(&self.entries[i].1)
        } else {
            None
        }
    }

    /// Whether `key` is mapped to anything.
    pub fn contains_key(&self, key: &str) -> (r: bool)
        ensures
            r == self@.contains_key(key@),
    {
        self.seek(key).1
    }

    /// Maps `key` to `value`, in place of what it was mapped to before.
    pub fn insert(&mut self, key: String, value: V)
        ensures
            final(self)@ == old(self)@.insert(key@, value@),
    {
        let (i, found) = self.seek(key.as_str());
        let ghost before = self.entries@;
        let ghost k = key@;
        let ghost v = value@;
        proof {
            use_type_invariant(&*self);
        }
        let mut taken = TextMap::new();
        core::mem::swap(self, &mut taken);
        let mut entries = taken.entries;
        if found {
            entries.set(i, (key, value));
            proof {
                assert forall|x: int, y: int| 0 <= x < y < entries@.len() implies text_before(
                    (#[trigger] entries@[x]).0@,
                    (#[trigger] entries@[y]).0@,
                ) by {
                    assert(text_before(before[x].0@, before[y].0@));
                }
            }
        } else {
            entries.insert(i, (key, value));
            proof {
                assert forall|x: int, y: int| 0 <= x < y < entries@.len() implies text_before(
                    (#[trigger] entries@[x]).0@,
                    (#[trigger] entries@[y]).0@,
                ) by {
                    let bx = if x < i { x } else { x - 1 };
                    let by = if y < i { y } else { y - 1 };
                    if x != i && y != i {
                        assert(entries@[x] == before[bx] && entries@[y] == before[by]);
                        assert(text_before(before[bx].0@, before[by].0@));
                    } else if x == i {
                        assert(entries@[y] == before[by]);
                    } else {
                        assert(entries@[x] == before[bx]);
                    }
                }
            }
        }
        *self = TextMap { entries };
        proof {
            let after = entries@;
            assert(after[i as int].0@ == k && after[i as int].1@ == v);
            assert forall|q: Seq<char>| self@.contains_key(q) == old(self)@.insert(k, v).contains_key(q) by {
                if self@.contains_key(q) && q != k {
                    let x = choose|x: int| 0 <= x < after.len() && (#[trigger] after[x]).0@ == q;
                    let bx = if found || x < i { x } else { x - 1 };
                    assert(before[bx].0@ == q);
                }
                if old(self)@.contains_key(q) {
                    let x = choose|x: int| 0 <= x < before.len() && (#[trigger] before[x]).0@ == q;
                    let ax = if found || x < i { x } else { x + 1 };
                    if q != k {
                        assert(after[ax].0@ == q);
                    }
                }
            }
            assert forall|q: Seq<char>| self@.contains_key(q) implies self@[q] == old(self)@.insert(
                k,
                v,
            )[q] by {
                let x = choose|x: int| 0 <= x < after.len() && (#[trigger] after[x]).0@ == q;
                lemma_index_of(after, x);
                if q == k {
                    lemma_index_of(after, i as int);
                } else {
                    let bx = if found || x < i { x } else { x - 1 };
                    assert(before[bx] == after[x]);
                    lemma_index_of(before, bx);
                }
            }
            assert(self@ =~= old(self)@.insert(k, v));
        }
    }

    /// Removes what `key` is mapped to, if anything.
    pub fn remove(&mut self, key: &str)
        ensures
            final(self)@ == old(self)@.remove(key@),
    {
        let (i, found) = self.seek(key);
        let ghost before = self.entries@;
        proof {
            use_type_invariant(&*self);
        }
        if !found {
            assert(old(self)@.remove(key@) =~= old(self)@);
            return;
        }
        let mut taken = TextMap::new();
        core::mem::swap(self, &mut taken);
        let mut entries = taken.entries;
        entries.remove(i);
        proof {
            assert forall|x: int, y: int| 0 <= x < y < entries@.len() implies text_before(
                (#[trigger] entries@[x]).0@,
                (#[trigger] entries@[y]).0@,
            ) by {
                let bx = if x < i { x } else { x + 1 };
                let by = if y < i { y } else { y + 1 };
                assert(entries@[x] == before[bx] && entries@[y] == before[by]);
                assert(text_before(before[bx].0@, before[by].0@));
            }
        }
        *self = TextMap { entries };
        proof {
            let after = entries@;
            assert forall|q: Seq<char>| self@.contains_key(q) == old(self)@.remove(key@).contains_key(q) by {
                if self@.contains_key(q) {
                    let x = choose|x: int| 0 <= x < after.len() && (#[trigger] after[x]).0@ == q;
                    let bx = if x < i { x } else { x + 1 };
                    assert(before[bx].0@ == q);
                    lemma_index_of(before, bx);
                    lemma_index_of(before, i as int);
                }
                if old(self)@.contains_key(q) && q != key@ {
                    let x = choose|x: int| 0 <= x < before.len() && (#[trigger] before[x]).0@ == q;
                    let ax = if x < i { x } else { x - 1 };
                    assert(after[ax].0@ == q);
                }
            }
            assert forall|q: Seq<char>| self@.contains_key(q) implies self@[q] == old(self)@[q] by {
                let x = choose|x: int| 0 <= x < after.len() && (#[trigger] after[x]).0@ == q;
                let bx = if x < i { x } else { x + 1 };
                lemma_index_of(after, x);
                lemma_index_of(before, bx);
            }
            assert(self@ =~= old(self)@.remove(key@));
        }
    }

    /// How many keys the map has.
    pub fn len(&self) -> (r: usize)
        ensures
            r == self.keys().len(),
            r == self@.dom().len(),
            self@.dom().finite(),
            ascending(self.keys()),
            forall|k: Seq<char>| self@.contains_key(k) <==> self.keys().contains(k),
    {
        proof {
            use_type_invariant(self);
            assert forall|k: Seq<char>| self@.contains_key(k) <==> self.keys().contains(k) by {
                if self@.contains_key(k) {
                    let x = choose|x: int|
                        0 <= x < self.entries@.len() && (#[trigger] self.entries@[x]).0@ == k;
                    assert(self.keys()[x] == k);
                }
                if self.keys().contains(k) {
                    let x = choose|x: int| 0 <= x < self.keys().len() && self.keys()[x] == k;
                    assert(self.entries@[x].0@ == k);
                }
            }
            assert(self.keys().no_duplicates()) by {
                assert forall|x: int, y: int|
                    0 <= x < self.keys().len() && 0 <= y < self.keys().len() && x != y implies self.keys()[x]
                    != self.keys()[y] by {
                    lemma_text_before_irreflexive(self.keys()[x]);
                    if x < y {
                        assert(text_before(self.entries@[x].0@, self.entries@[y].0@));
                    } else {
                        assert(text_before(self.entries@[y].0@, self.entries@[x].0@));
                    }
                }
            }
            self.keys().unique_seq_to_set();
            assert(self.keys().to_set() =~= self@.dom());
        }
        self.entries.len()
    }

    /// The key at position `i`.
    pub fn key_at(&self, i: usize) -> (r: &String)
        requires
            i < self.keys().len(),
        ensures
            r@ == self.keys()[i as int],
    {
        &self.entries[i].0
    }

    /// The value at position `i`.
    pub fn value_at(&self, i: usize) -> (r: &V)
        requires
            i < self.keys().len(),
        ensures
            self@.contains_key(self.keys()[i as int]),
            r@ == self@[self.keys()[i as int]],
    {
        proof {
            use_type_invariant(self);
            lemma_index_of(self.entries@, i as int);
            assert(self.entries@[i as int].0@ == self.keys()[i as int]);
        }
        &self.entries[i].1
    }

    /// The keys, in ascending order.
    pub fn key_list(&self) -> (r: Vec<String>)
        ensures
            texts(r@) == self.keys(),
            ascending(self.keys()),
            forall|k: Seq<char>| self@.contains_key(k) <==> self.keys().contains(k),
    {
        let n = self.len();
        let mut out: Vec<String> = Vec::new();
        let mut i: usize = 0;
        while i < n
            invariant
                i <= n == self.keys().len(),
                out@.len() == i,
                forall|j: int| 0 <= j < i ==> (#[trigger] out@[j])@ == self.keys()[j],
            decreases n - i,
        {
            out.push(self.key_at(i).clone());
            i = i + 1;
        }
        assert(texts(out@) =~= self.keys());
        out
    }
}

/// Whether two maps to texts are the same.
pub fn same_texts(a: &TextMap<String>, b: &TextMap<String>) -> (r: bool)
    ensures
        r == (a@ == b@),
{
    let n = a.len();
    let m = b.len();
    let mut i: usize = 0;
    while i < n
        invariant
            i <= n == a.keys().len(),
            forall|k: Seq<char>| a@.contains_key(k) <==> a.keys().contains(k),
            forall|j: int|
                0 <= j < i ==> b@.contains_key(#[trigger] a.keys()[j]) && b@[a.keys()[j]] == a@[a.keys()[j]],
        decreases n - i,
    {
        let v = a.value_at(i);
        match b.get(a.key_at(i).as_str()) {
            Some(w) => {
                if !text_eq(v.as_str(), w.as_str()) {
                    return false;
                }
            },
            None => {
                return false;
            },
        }
        i = i + 1;
    }
    let mut j: usize = 0;
    while j < m
        invariant
            j <= m == b.keys().len(),
            forall|k: Seq<char>| b@.contains_key(k) <==> b.keys().contains(k),
            forall|x: int| 0 <= x < j ==> a@.contains_key(#[trigger] b.keys()[x]),
        decreases m - j,
    {
        let v = b.value_at(j);
        if !a.contains_key(b.key_at(j).as_str()) {
            return false;
        }
        j = j + 1;
    }
    proof {
        assert forall|k: Seq<char>| a@.contains_key(k) == b@.contains_key(k) by {
            if a@.contains_key(k) {
                assert(a.keys().contains(k));
                let x = choose|x: int| 0 <= x < a.keys().len() && a.keys()[x] == k;
                assert(b@.contains_key(a.keys()[x]));
            }
            if b@.contains_key(k) {
                assert(b.keys().contains(k));
                let x = choose|x: int| 0 <= x < b.keys().len() && b.keys()[x] == k;
                assert(a@.contains_key(b.keys()[x]));
            }
        }
        assert forall|k: Seq<char>| a@.contains_key(k) implies a@[k] == b@[k] by {
            assert(a.keys().contains(k));
            let x = choose|x: int| 0 <= x < a.keys().len() && a.keys()[x] == k;
            assert(b@[a.keys()[x]] == a@[a.keys()[x]]);
        }
        assert(a@ =~= b@);
    }
    true
}

/// The entries of `map` whose key `drop` does not have.
pub fn without_keys(map: &TextMap<String>, drop: &TextSet) -> (r: TextMap<String>)
    ensures
        r@ == map@.restrict(Set::new(|k: Seq<char>| !drop@.contains(k))),
{
    let mut out: TextMap<String> = TextMap::new();
    let n = map.len();
    let mut i: usize = 0;
    let ghost full = map@.restrict(Set::new(|k: Seq<char>| !drop@.contains(k)));
    let ghost done: Set<Seq<char>> = Set::empty();
    assert(out@ =~= full.restrict(done));
    while i < n
        invariant
            i <= n == map.keys().len(),
            full == map@.restrict(Set::new(|k: Seq<char>| !drop@.contains(k))),
            forall|k: Seq<char>| map@.contains_key(k) <==> map.keys().contains(k),
            forall|k: Seq<char>| #[trigger]
                done.contains(k) <==> exists|j: int| 0 <= j < i && #[trigger] map.keys()[j] == k,
            out@ == full.restrict(done),
        decreases n - i,
    {
        let ghost key = map.keys()[i as int];
        let value = map.value_at(i);
        let name = map.key_at(i);
        if !drop.contains(name.as_str()) {
            out.insert(name.clone(), value.clone());
        }
        proof {
            let next = done.insert(key);
            assert forall|k: Seq<char>| #[trigger]
                next.contains(k) <==> exists|j: int| 0 <= j < i + 1 && #[trigger] map.keys()[j] == k by {
                if next.contains(k) {
                    if k == key {
                        assert(map.keys()[i as int] == k);
                    } else {
                        assert(done.contains(k));
                        let j = choose|j: int| 0 <= j < i && #[trigger] map.keys()[j] == k;
                        assert(map.keys()[j] == k);
                    }
                }
            }
            assert(out@ =~= full.restrict(next));
            done = next;
        }
        i = i + 1;
    }
    proof {
        assert forall|k: Seq<char>| map@.contains_key(k) implies done.contains(k) by {
            assert(map.keys().contains(k));
            let j = choose|j: int| 0 <= j < map.keys().len() && map.keys()[j] == k;
            assert(map.keys()[j] == k);
        }
        assert(out@ =~= full);
    }
    out
}

/// A copy of `map`.
pub fn copy_texts(map: &TextMap<String>) -> (r: TextMap<String>)
    ensures
        r@ == map@,
{
    let none = TextSet::new();
    let r = without_keys(map, &none);
    assert(r@ =~= map@);
    r
}

/// A set of texts, in ascending order.
pub struct TextSet {
    map: TextMap<bool>,
}

impl View for TextSet {
    type V = Set<Seq<char>>;

    closed spec fn view(&self) -> Set<Seq<char>> {
        self.map@.dom()
    }
}

impl TextSet {
    /// The set without members.
    pub fn new() -> (r: TextSet)
        ensures
            r@ == Set::<Seq<char>>::empty(),
    {
        let r = TextSet { map: TextMap::new() };
        assert(r@ =~= Set::<Seq<char>>::empty());
        r
    }

    /// Adds a member.
    pub fn insert(&mut self, key: String)
        ensures
            final(self)@ == old(self)@.insert(key@),
    {
        self.map.insert(key, true);
        assert(self@ =~= old(self)@.insert(key@));
    }

    /// Whether `key` is a member.
    pub fn contains(&self, key: &str) -> (r: bool)
        ensures
            r == self@.contains(key@),
    {
        self.map.contains_key(key)
    }

    /// The members, in ascending order.
    pub fn list(&self) -> (r: Vec<String>)
        ensures
            ascending(texts(r@)),
            forall|k: Seq<char>| #[trigger] texts(r@).contains(k) <==> self@.contains(k),
    {
        let r = self.map.key_list();
        assert forall|k: Seq<char>| #[trigger] texts(r@).contains(k) <==> self@.contains(k) by {
            assert(self.map@.contains_key(k) <==> self.map.keys().contains(k));
        }
        r
    }

    /// A copy of the set.
    pub fn copy(&self) -> (r: TextSet)
        ensures
            r@ == self@,
    {
        let names = self.list();
        let mut out = TextSet::new();
        let ghost all = texts(names@);
        let mut i: usize = 0;
        while i < names.len()
            invariant
                i <= names@.len(),
                all == texts(names@),
                forall|k: Seq<char>| #[trigger]
                    out@.contains(k) <==> exists|j: int| 0 <= j < i && #[trigger] all[j] == k,
            decreases names@.len() - i,
        {
            let ghost before = out@;
            out.insert(names[i].clone());
            assert forall|k: Seq<char>| #[trigger]
                out@.contains(k) <==> exists|j: int| 0 <= j < i + 1 && #[trigger] all[j] == k by {
                if out@.contains(k) {
                    if before.contains(k) {
                        let j = choose|j: int| 0 <= j < i && #[trigger] all[j] == k;
                        assert(all[j] == k);
                    } else {
                        assert(all[i as int] == k);
                    }
                }
            }
            i = i + 1;
        }
        assert forall|k: Seq<char>| out@.contains(k) == self@.contains(k) by {
            assert(all.contains(k) <==> self@.contains(k));
            if self@.contains(k) {
                let j = choose|j: int| 0 <= j < all.len() && all[j] == k;
                assert(all[j] == k);
            }
            if out@.contains(k) {
                let j = choose|j: int| 0 <= j < i && #[trigger] all[j] == k;
                assert(all.contains(all[j]));
            }
        }
        assert(out@ =~= self@);
        out
    }

    /// Whether both sets have the same members.
    pub fn same(&self, other: &TextSet) -> (r: bool)
        ensures
            r == (self@ == other@),
    {
        let a = self.list();
        let b = other.list();
        let mut i: usize = 0;
        while i < a.len()
            invariant
                i <= a@.len(),
                forall|k: Seq<char>| #[trigger] texts(a@).contains(k) <==> self@.contains(k),
                forall|j: int| 0 <= j < i ==> other@.contains(#[trigger] texts(a@)[j]),
            decreases a@.len() - i,
        {
            if !other.contains(a[i].as_str()) {
                assert(texts(a@).contains(texts(a@)[i as int]));
                assert(self@.contains(a@[i as int]@));
                return false;
            }
            i = i + 1;
        }
        let mut j: usize = 0;
        while j < b.len()
            invariant
                j <= b@.len(),
                forall|k: Seq<char>| #[trigger] texts(b@).contains(k) <==> other@.contains(k),
                forall|x: int| 0 <= x < j ==> self@.contains(#[trigger] texts(b@)[x]),
            decreases b@.len() - j,
        {
            if !self.contains(b[j].as_str()) {
                assert(texts(b@).contains(texts(b@)[j as int]));
                assert(other@.contains(b@[j as int]@));
                return false;
            }
            j = j + 1;
        }
        assert forall|k: Seq<char>| self@.contains(k) == other@.contains(k) by {
            if self@.contains(k) {
                assert(texts(a@).contains(k));
                let x = choose|x: int| 0 <= x < texts(a@).len() && texts(a@)[x] == k;
                assert(other@.contains(texts(a@)[x]));
            }
            if other@.contains(k) {
                assert(texts(b@).contains(k));
                let x = choose|x: int| 0 <= x < texts(b@).len() && texts(b@)[x] == k;
                assert(self@.contains(texts(b@)[x]));
            }
        }
        assert(self@ =~= other@);
        true
    }
}

/// The members of a list.
pub fn set_of(list: &Vec<String>) -> (r: TextSet)
    ensures
        r@ == texts(list@).to_set(),
{
    let mut out = TextSet::new();
    let ghost all = texts(list@);
    let mut i: usize = 0;
    assert(all.take(0).to_set() =~= Set::empty());
    while i < list.len()
        invariant
            i <= list@.len(),
            all == texts(list@),
            out@ == all.take(i as int).to_set(),
        decreases list@.len() - i,
    {
        out.insert(list[i].clone());
        proof {
            let a = all.take(i as int);
            let b = all.take(i + 1);
            assert(b =~= a.push(all[i as int]));
            assert forall|k: Seq<char>| a.to_set().insert(all[i as int]).contains(k) == b.to_set().contains(k) by {
                if a.contains(k) {
                    let j = choose|j: int| 0 <= j < a.len() && a[j] == k;
                    assert(b[j] == k);
                }
                assert(b[i as int] == all[i as int]);
                if b.contains(k) {
                    let j = choose|j: int| 0 <= j < b.len() && b[j] == k;
                    if j < i {
                        assert(a[j] == k);
                    }
                }
            }
            assert(a.to_set().insert(all[i as int]) =~= b.to_set());
        }
        i = i + 1;
    }
    assert(all.take(i as int) =~= all);
    out
}

/// The members of `a` that `b` lacks, in ascending order.
pub fn difference(a: &TextSet, b: &TextSet) -> (r: Vec<String>)
    ensures
        texts(r@) == in_sequence(a@.difference(b@)),
        ascending(texts(r@)),
        forall|k: Seq<char>| #[trigger] texts(r@).contains(k) <==> a@.contains(k) && !b@.contains(k),
{
    let list = a.list();
    let mut out: Vec<String> = Vec::new();
    let ghost all = texts(list@);
    let mut i: usize = 0;
    while i < list.len()
        invariant
            i <= list@.len(),
            all == texts(list@),
            ascending(all),
            ascending(texts(out@)),
            forall|k: Seq<char>| #[trigger]
                texts(out@).contains(k) <==> all.take(i as int).contains(k) && !b@.contains(k),
        decreases list@.len() - i,
    {
        let ghost before = texts(out@);
        let ghost x = all[i as int];
        if !b.contains(list[i].as_str()) {
            out.push(list[i].clone());
            proof {
                let after = texts(out@);
                assert(after =~= before.push(x));
                assert forall|p: int, q: int| 0 <= p < q < after.len() implies text_before(
                    #[trigger] after[p],
                    #[trigger] after[q],
                ) by {
                    if q == before.len() {
                        assert(before.contains(before[p]));
                        let t = all.take(i as int);
                        let j = choose|j: int| 0 <= j < t.len() && t[j] == before[p];
                        assert(text_before(all[j], all[i as int]));
                    }
                }
            }
        }
        proof {
            let after = texts(out@);
            let t = all.take(i as int);
            let u = all.take(i + 1);
            assert forall|k: Seq<char>| #[trigger] after.contains(k) <==> u.contains(k) && !b@.contains(k) by {
                if after.contains(k) {
                    let p = choose|p: int| 0 <= p < after.len() && after[p] == k;
                    if p < before.len() {
                        assert(before[p] == k);
                        assert(before.contains(k));
                        let j = choose|j: int| 0 <= j < t.len() && t[j] == k;
                        assert(u[j] == k);
                    } else {
                        assert(u[i as int] == k);
                    }
                }
                if u.contains(k) && !b@.contains(k) {
                    let j = choose|j: int| 0 <= j < u.len() && u[j] == k;
                    if j < i {
                        assert(t[j] == k);
                        assert(before.contains(k));
                        let p = choose|p: int| 0 <= p < before.len() && before[p] == k;
                        assert(after[p] == k);
                    } else {
                        assert(after[before.len() as int] == k);
                    }
                }
            }
        }
        i = i + 1;
    }
    proof {
        assert(all.take(i as int) =~= all);
        let want = a@.difference(b@);
        assert forall|k: Seq<char>| #[trigger] texts(out@).contains(k) <==> want.contains(k) by {
            assert(all.contains(k) <==> a@.contains(k));
        }
        lemma_in_sequence(texts(out@), want);
    }
    out
}

} // verus!
