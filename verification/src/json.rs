//! JSON values as the library reads them: the variants of a parsed document,
//! with objects keyed by distinct names.
use crate::text::{lists, lists_text, opt_text, starts_with, text_eq};
use vstd::prelude::*;
use vstd::std_specs::vec::*;

verus! {

/// A JSON value. `Int` holds every integral number; `Float` holds the IEEE 754
/// bits of a number written with a fraction or an exponent.
pub enum Json {
    Null,
    Bool(bool),
    Int(i128),
    Float(u64),
    Str(String),
    Array(Vec<Json>),
    Object(JsonMap),
}

/// A JSON object. Each name occurs once.
pub struct JsonMap {
    entries: Vec<(String, Json)>,
}

/// The mathematical value of a [`Json`].
#[verifier::ext_equal]
pub enum JsonView {
    Null,
    Bool(bool),
    Int(int),
    Float(u64),
    Str(Seq<char>),
    Array(Seq<JsonView>),
    Object(Map<Seq<char>, JsonView>),
}

pub type ObjectView = Map<Seq<char>, JsonView>;

/// The mathematical value of a JSON value.
pub open spec fn json_view(value: Json) -> JsonView
    decreases value,
{
    match value {
        Json::Null => JsonView::Null,
        Json::Bool(b) => JsonView::Bool(b),
        Json::Int(n) => JsonView::Int(n as int),
        Json::Float(bits) => JsonView::Float(bits),
        Json::Str(s) => JsonView::Str(s@),
        Json::Array(items) => JsonView::Array(array_view(items@, items@.len())),
        Json::Object(object) => JsonView::Object(object_view(object)),
    }
}

/// The values of the first `n` items.
pub open spec fn array_view(items: Seq<Json>, n: nat) -> Seq<JsonView>
    decreases items, n,
{
    if n == 0 || n > items.len() {
        Seq::empty()
    } else {
        array_view(items, (n - 1) as nat).push(json_view(items[n - 1]))
    }
}

/// What the first `n` entries map names to.
pub closed spec fn entries_view(entries: Seq<(String, Json)>, n: nat) -> ObjectView
    decreases entries, n,
{
    if n == 0 || n > entries.len() {
        Map::empty()
    } else {
        entries_view(entries, (n - 1) as nat).insert(
            entries[n - 1].0@,
            json_view(entries[n - 1].1),
        )
    }
}

/// What an object maps names to.
pub closed spec fn object_view(object: JsonMap) -> ObjectView
    decreases object,
{
    entries_view(object.entries@, object.entries@.len())
}

impl View for Json {
    type V = JsonView;

    open spec fn view(&self) -> JsonView {
        json_view(*self)
    }
}

impl View for JsonMap {
    type V = ObjectView;

    open spec fn view(&self) -> ObjectView {
        object_view(*self)
    }
}

spec fn distinct_names(entries: Seq<(String, Json)>) -> bool {
    forall|i: int, j: int|
        0 <= i < j < entries.len() ==> (#[trigger] entries[i]).0@ != (#[trigger] entries[j]).0@
}

proof fn lemma_array_view(items: Seq<Json>, n: nat)
    requires
        n <= items.len(),
    ensures
        array_view(items, n).len() == n,
        forall|i: int| 0 <= i < n ==> #[trigger] array_view(items, n)[i] == json_view(items[i]),
    decreases n,
{
    if n > 0 {
        lemma_array_view(items, (n - 1) as nat);
    }
}

/// The value of an array is the sequence of its items' values.
pub proof fn lemma_array_items(items: Seq<Json>)
    ensures
        array_view(items, items.len()) == Seq::new(items.len(), |i: int| items[i]@),
{
    lemma_array_view(items, items.len());
    assert(array_view(items, items.len()) =~= Seq::new(items.len(), |i: int| items[i]@));
}

proof fn lemma_entries_keys(entries: Seq<(String, Json)>, n: nat, key: Seq<char>)
    requires
        n <= entries.len(),
    ensures
        entries_view(entries, n).contains_key(key) <==> exists|i: int|
            0 <= i < n && (#[trigger] entries[i]).0@ == key,
    decreases n,
{
    if n > 0 {
        lemma_entries_keys(entries, (n - 1) as nat, key);
        if entries_view(entries, n).contains_key(key) {
            if entries[n - 1].0@ != key {
                let i = choose|i: int| 0 <= i < n - 1 && (#[trigger] entries[i]).0@ == key;
                assert(entries[i].0@ == key);
            } else {
                assert(entries[n - 1].0@ == key);
            }
        }
    }
}

proof fn lemma_entries_value(entries: Seq<(String, Json)>, n: nat, i: int)
    requires
        0 <= i < n <= entries.len(),
        distinct_names(entries),
    ensures
        entries_view(entries, n).contains_key(entries[i].0@),
        entries_view(entries, n)[entries[i].0@] == entries[i].1@,
    decreases n,
{
    if i < n - 1 {
        lemma_entries_value(entries, (n - 1) as nat, i);
        assert(entries[i].0@ != entries[n - 1].0@);
    }
}

proof fn lemma_entries_prefix(a: Seq<(String, Json)>, b: Seq<(String, Json)>, n: nat)
    requires
        n <= a.len(),
        n <= b.len(),
        forall|i: int| 0 <= i < n ==> (#[trigger] a[i]).0@ == b[i].0@ && a[i].1@ == b[i].1@,
    ensures
        entries_view(a, n) == entries_view(b, n),
    decreases n,
{
    if n > 0 {
        lemma_entries_prefix(a, b, (n - 1) as nat);
        assert(a[n - 1].0@ == b[n - 1].0@ && a[n - 1].1@ == b[n - 1].1@);
    }
}

impl JsonMap {
    #[verifier::type_invariant]
    spec fn inv(self) -> bool {
        distinct_names(self.entries@)
    }

    /// The entries in the order in which they are kept.
    pub closed spec fn pairs(self) -> Seq<(Seq<char>, JsonView)> {
        Seq::new(self.entries@.len(), |i: int| (self.entries@[i].0@, self.entries@[i].1@))
    }

    /// The object without entries.
    pub fn new() -> (r: JsonMap)
        ensures
            r@ == Map::<Seq<char>, JsonView>::empty(),
    {
        JsonMap { entries: Vec::new() }
    }

    fn find(&self, key: &str) -> (r: Option<usize>)
        ensures
            match r {
                Some(i) => i < self.entries@.len() && self.entries@[i as int].0@ == key@
                    && self@.contains_key(key@) && self@[key@] == self.entries@[i as int].1@,
                None => !self@.contains_key(key@) && forall|i: int|
                    0 <= i < self.entries@.len() ==> (#[trigger] self.entries@[i]).0@ != key@,
            },
    {
        proof {
            use_type_invariant(self);
            lemma_entries_keys(self.entries@, self.entries@.len(), key@);
        }
        let mut i: usize = 0;
        while i < self.entries.len()
            invariant
                i <= self.entries@.len(),
                forall|j: int| 0 <= j < i ==> (#[trigger] self.entries@[j]).0@ != key@,
                distinct_names(self.entries@),
            decreases self.entries@.len() - i,
        {
            if text_eq(self.entries[i].0.as_str(), key) {
                proof {
                    lemma_entries_value(self.entries@, self.entries@.len(), i as int);
                }
                return Some(i);
            }
            i = i + 1;
        }
        None
    }

    /// The value under `key`, if the object has one.
    pub fn get(&self, key: &str) -> (r: Option<&Json>)
        ensures
            match r {
                Some(v) => self@.contains_key(key@) && self@[key@] == v@,
                None => !self@.contains_key(key@),
            },
    {
        match self.find(key) {
            Some(i) => Some(&self.entries[i].1),
            None => None,
        }
    }

    /// Whether the object has a value under `key`.
    pub fn contains_key(&self, key: &str) -> (r: bool)
        ensures
            r == self@.contains_key(key@),
    {
        match self.find(key) {
            Some(_) => true,
            None => false,
        }
    }
    /// Maps `key` to `value`, in place of what it was mapped to before.
    pub fn insert(&mut self, key: String, value: Json)
        ensures
            final(self)@ == old(self)@.insert(key@, value@),
    {
        proof {
            use_type_invariant(&*self);
        }
        let at = self.find(key.as_str());
        let ghost k = key@;
        let ghost v = value@;
        let mut taken = JsonMap::new();
        core::mem::swap(self, &mut taken);
        let mut entries = taken.entries;
        let ghost before = entries@;
        match at {
            Some(i) => {
                entries.set(i, (key, value));
                proof {
                    lemma_entries_update(before, entries@, i as int, k, v);
                }
            },
            None => {
                entries.push((key, value));
                proof {
                    lemma_entries_push(before, entries@, k, v);
                }
            },
        }
        *self = JsonMap { entries };
    }

    /// Removes what `key` is mapped to, if anything.
    pub fn remove(&mut self, key: &str)
        ensures
            final(self)@ == old(self)@.remove(key@),
    {
        proof {
            use_type_invariant(&*self);
        }
        let mut keep: Vec<bool> = Vec::new();
        let mut i: usize = 0;
        while i < self.entries.len()
            invariant
                i <= self.entries@.len(),
                keep@.len() == i,
                *self == *old(self),
                forall|j: int| 0 <= j < i ==> keep@[j] == ((#[trigger] self.entries@[j]).0@ != key@),
            decreases self.entries@.len() - i,
        {
            keep.push(!text_eq(self.entries[i].0.as_str(), key));
            i = i + 1;
        }
        let out = self.kept(&keep, Ghost(|k: Seq<char>| k != key@));
        assert(out@ =~= old(self)@.remove(key@));
        *self = out;
    }

    /// The object with only those entries that `keep` marks; `rule` says which
    /// names those are.
    pub(crate) fn kept(&self, keep: &Vec<bool>, rule: Ghost<spec_fn(Seq<char>) -> bool>) -> (r: JsonMap)
        requires
            keep@.len() == self.pairs().len(),
            forall|j: int| 0 <= j < keep@.len() ==> keep@[j] == rule@((#[trigger] self.pairs()[j]).0),
        ensures
            r@ == self@.restrict(Set::new(rule@)),
    {
        proof {
            use_type_invariant(self);
            assert forall|j: int| 0 <= j < keep@.len() implies keep@[j] == rule@((#[trigger] self.entries@[j]).0@) by {
                assert(self.pairs()[j].0 == self.entries@[j].0@);
            }
        }
        let mut out: Vec<(String, Json)> = Vec::new();
        let mut i: usize = 0;
        while i < self.entries.len()
            invariant
                i <= self.entries@.len(),
                keep@.len() == self.entries@.len(),
                distinct_names(self.entries@),
                distinct_names(out@),
                forall|j: int| 0 <= j < keep@.len() ==> keep@[j] == rule@((#[trigger] self.entries@[j]).0@),
                forall|o: int|
                    0 <= o < out@.len() ==> exists|j: int|
                        0 <= j < i && (#[trigger] self.entries@[j]).0@ == (#[trigger] out@[o]).0@,
                entries_view(out@, out@.len()) == entries_view(self.entries@, i as nat).restrict(
                    Set::new(rule@),
                ),
            decreases self.entries@.len() - i,
        {
            let ghost before = out@;
            if keep[i] {
                let name = self.entries[i].0.clone();
                let value = clone_json(&self.entries[i].1);
                out.push((name, value));
                proof {
                    assert forall|o: int| 0 <= o < before.len() implies (#[trigger] before[o]).0@
                        != self.entries@[i as int].0@ by {
                        let j = choose|j: int|
                            0 <= j < i && (#[trigger] self.entries@[j]).0@ == before[o].0@;
                        assert(self.entries@[j].0@ != self.entries@[i as int].0@);
                    }
                    lemma_entries_push(before, out@, name@, value@);
                    assert forall|o: int| 0 <= o < out@.len() implies exists|j: int|
                        0 <= j < i + 1 && (#[trigger] self.entries@[j]).0@ == (#[trigger] out@[o]).0@ by {
                        if o < before.len() {
                            assert(out@[o] == before[o]);
                            let j = choose|j: int|
                                0 <= j < i && (#[trigger] self.entries@[j]).0@ == before[o].0@;
                            assert(self.entries@[j].0@ == out@[o].0@);
                        } else {
                            assert(self.entries@[i as int].0@ == out@[o].0@);
                        }
                    }
                }
            } else {
                proof {
                    assert forall|o: int| 0 <= o < out@.len() implies exists|j: int|
                        0 <= j < i + 1 && (#[trigger] self.entries@[j]).0@ == (#[trigger] out@[o]).0@ by {
                        let j = choose|j: int|
                            0 <= j < i && (#[trigger] self.entries@[j]).0@ == out@[o].0@;
                        assert(self.entries@[j].0@ == out@[o].0@);
                    }
                }
            }
            proof {
                let a = entries_view(self.entries@, i as nat);
                let b = entries_view(self.entries@, (i + 1) as nat);
                assert(b == a.insert(self.entries@[i as int].0@, self.entries@[i as int].1@));
                lemma_entries_keys(self.entries@, i as nat, self.entries@[i as int].0@);
                assert(!a.contains_key(self.entries@[i as int].0@)) by {
                    if exists|j: int| 0 <= j < i && (#[trigger] self.entries@[j]).0@ == self.entries@[i as int].0@ {
                        let j = choose|j: int|
                            0 <= j < i && (#[trigger] self.entries@[j]).0@ == self.entries@[i as int].0@;
                        assert(self.entries@[j].0@ != self.entries@[i as int].0@);
                    }
                }
                assert(entries_view(out@, out@.len()) =~= b.restrict(Set::new(rule@)));
            }
            i = i + 1;
        }
        JsonMap { entries: out }
    }

    /// The object without the names that start with `prefix`.
    pub fn without_prefix(&self, prefix: &str) -> (r: JsonMap)
        ensures
            r@ == self@.restrict(Set::new(|k: Seq<char>| !prefix@.is_prefix_of(k))),
    {
        let mut keep: Vec<bool> = Vec::new();
        let mut i: usize = 0;
        while i < self.entries.len()
            invariant
                i <= self.entries@.len(),
                keep@.len() == i,
                forall|j: int|
                    0 <= j < i ==> keep@[j] == !prefix@.is_prefix_of((#[trigger] self.entries@[j]).0@),
            decreases self.entries@.len() - i,
        {
            keep.push(!starts_with(self.entries[i].0.as_str(), prefix));
            i = i + 1;
        }
        self.kept(&keep, Ghost(|k: Seq<char>| !prefix@.is_prefix_of(k)))
    }

    /// The object with only those names that `names` lists.
    pub fn only(&self, names: &Vec<String>) -> (r: JsonMap)
        ensures
            r@ == self@.restrict(Set::new(|k: Seq<char>| lists(names@, k))),
    {
        let mut keep: Vec<bool> = Vec::new();
        let mut i: usize = 0;
        while i < self.entries.len()
            invariant
                i <= self.entries@.len(),
                keep@.len() == i,
                forall|j: int|
                    0 <= j < i ==> keep@[j] == lists(names@, (#[trigger] self.entries@[j]).0@),
            decreases self.entries@.len() - i,
        {
            keep.push(lists_text(names, self.entries[i].0.as_str()));
            i = i + 1;
        }
        self.kept(&keep, Ghost(|k: Seq<char>| lists(names@, k)))
    }

    /// How many entries the object has.
    pub fn len(&self) -> (r: usize)
        ensures
            r == self.pairs().len(),
            forall|i: int|
                0 <= i < self.pairs().len() ==> self@.contains_key((#[trigger] self.pairs()[i]).0)
                    && self@[self.pairs()[i].0] == self.pairs()[i].1,
            forall|i: int, j: int|
                0 <= i < j < self.pairs().len() ==> (#[trigger] self.pairs()[i]).0 != (
                #[trigger] self.pairs()[j]).0,
            forall|k: Seq<char>| #[trigger]
                self@.contains_key(k) ==> exists|i: int|
                    0 <= i < self.pairs().len() && (#[trigger] self.pairs()[i]).0 == k,
    {
        proof {
            use_type_invariant(self);
            assert forall|i: int| 0 <= i < self.pairs().len() implies self@.contains_key(
                (#[trigger] self.pairs()[i]).0,
            ) && self@[self.pairs()[i].0] == self.pairs()[i].1 by {
                lemma_entries_value(self.entries@, self.entries@.len(), i);
            }
            assert forall|i: int, j: int| 0 <= i < j < self.pairs().len() implies (#[trigger] self.pairs()[i]).0
                != (#[trigger] self.pairs()[j]).0 by {
                assert(self.entries@[i].0@ != self.entries@[j].0@);
            }
            assert forall|k: Seq<char>| #[trigger] self@.contains_key(k) implies exists|i: int|
                0 <= i < self.pairs().len() && (#[trigger] self.pairs()[i]).0 == k by {
                lemma_entries_keys(self.entries@, self.entries@.len(), k);
                let i = choose|i: int|
                    0 <= i < self.entries@.len() && (#[trigger] self.entries@[i]).0@ == k;
                assert(self.pairs()[i].0 == k);
            }
        }
        self.entries.len()
    }

    /// The name of entry `i`.
    pub fn name_at(&self, i: usize) -> (r: &String)
        requires
            i < self.pairs().len(),
        ensures
            r@ == self.pairs()[i as int].0,
    {
        &self.entries[i].0
    }

    /// The value of entry `i`.
    pub fn value_at(&self, i: usize) -> (r: &Json)
        requires
            i < self.pairs().len(),
        ensures
            r@ == self.pairs()[i as int].1,
            self@.contains_key(self.pairs()[i as int].0),
            self@[self.pairs()[i as int].0] == r@,
    {
        proof {
            use_type_invariant(self);
            lemma_entries_value(self.entries@, self.entries@.len(), i as int);
        }
        &self.entries[i].1
    }
}

proof fn lemma_entries_push(
    before: Seq<(String, Json)>,
    after: Seq<(String, Json)>,
    k: Seq<char>,
    v: JsonView,
)
    requires
        after.len() == before.len() + 1,
        forall|i: int| 0 <= i < before.len() ==> after[i] == before[i],
        after.last().0@ == k,
        after.last().1@ == v,
        distinct_names(before),
        forall|i: int| 0 <= i < before.len() ==> (#[trigger] before[i]).0@ != k,
    ensures
        distinct_names(after),
        entries_view(after, after.len()) == entries_view(before, before.len()).insert(k, v),
{
    lemma_entries_prefix(before, after, before.len());
}

proof fn lemma_entries_update(
    before: Seq<(String, Json)>,
    after: Seq<(String, Json)>,
    at: int,
    k: Seq<char>,
    v: JsonView,
)
    requires
        0 <= at < before.len() == after.len(),
        forall|i: int| 0 <= i < before.len() && i != at ==> after[i] == before[i],
        before[at].0@ == k,
        after[at].0@ == k,
        after[at].1@ == v,
        distinct_names(before),
    ensures
        distinct_names(after),
        entries_view(after, after.len()) == entries_view(before, before.len()).insert(k, v),
{
    assert forall|i: int, j: int| 0 <= i < j < after.len() implies (#[trigger] after[i]).0@ != (
    #[trigger] after[j]).0@ by {
        assert(before[i].0@ != before[j].0@);
    }
    let a = entries_view(before, before.len());
    let b = entries_view(after, after.len());
    lemma_entries_value(after, after.len(), at);
    lemma_entries_value(before, before.len(), at);
    assert forall|key: Seq<char>| b.contains_key(key) == a.contains_key(key) by {
        lemma_entries_keys(before, before.len(), key);
        lemma_entries_keys(after, after.len(), key);
        if exists|i: int| 0 <= i < before.len() && (#[trigger] before[i]).0@ == key {
            let i = choose|i: int| 0 <= i < before.len() && (#[trigger] before[i]).0@ == key;
            assert(after[i].0@ == key);
        }
        if exists|i: int| 0 <= i < after.len() && (#[trigger] after[i]).0@ == key {
            let i = choose|i: int| 0 <= i < after.len() && (#[trigger] after[i]).0@ == key;
            assert(before[i].0@ == key);
        }
    }
    assert forall|key: Seq<char>| b.contains_key(key) && key != k implies b[key] == a[key] by {
        lemma_entries_keys(before, before.len(), key);
        let i = choose|i: int| 0 <= i < before.len() && (#[trigger] before[i]).0@ == key;
        lemma_entries_value(before, before.len(), i);
        lemma_entries_value(after, after.len(), i);
        assert(after[i] == before[i]);
    }
    assert(b =~= a.insert(k, v));
}

/// A copy of `value`.
pub fn clone_json(value: &Json) -> (r: Json)
    ensures
        r@ == value@,
    decreases value,
{
    match value {
        Json::Null => Json::Null,
        Json::Bool(b) => Json::Bool(*b),
        Json::Int(n) => Json::Int(*n),
        Json::Float(bits) => Json::Float(*bits),
        Json::Str(s) => Json::Str(s.clone()),
        Json::Array(items) => Json::Array(clone_items(items)),
        Json::Object(object) => Json::Object(clone_object(object)),
    }
}

/// A copy of `items`.
pub fn clone_items(items: &Vec<Json>) -> (r: Vec<Json>)
    ensures
        array_view(r@, r@.len()) == array_view(items@, items@.len()),
    decreases items,
{
    let mut out: Vec<Json> = Vec::new();
    let mut i: usize = 0;
    while i < items.len()
        invariant
            i <= items@.len(),
            out@.len() == i,
            forall|j: int| 0 <= j < i ==> (#[trigger] out@[j])@ == items@[j]@,
        decreases items@.len() - i,
    {
        out.push(clone_json(&items[i]));
        i = i + 1;
    }
    proof {
        lemma_array_items(items@);
        lemma_array_items(out@);
        assert(Seq::new(items@.len(), |i: int| items@[i]@) =~= Seq::new(out@.len(), |i: int| out@[i]@));
    }
    out
}

/// A copy of `object`.
pub fn clone_object(object: &JsonMap) -> (r: JsonMap)
    ensures
        r@ == object@,
    decreases object,
{
    proof {
        use_type_invariant(object);
    }
    let mut out: Vec<(String, Json)> = Vec::new();
    let mut i: usize = 0;
    while i < object.entries.len()
        invariant
            i <= object.entries@.len(),
            out@.len() == i,
            distinct_names(object.entries@),
            forall|j: int|
                0 <= j < i ==> (#[trigger] out@[j]).0@ == object.entries@[j].0@ && out@[j].1@
                    == object.entries@[j].1@,
        decreases object.entries@.len() - i,
    {
        out.push((object.entries[i].0.clone(), clone_json(&object.entries[i].1)));
        i = i + 1;
    }
    proof {
        lemma_entries_prefix(out@, object.entries@, out@.len());
        assert forall|i: int, j: int| 0 <= i < j < out@.len() implies (#[trigger] out@[i]).0@ != (
        #[trigger] out@[j]).0@ by {
            assert(object.entries@[i].0@ != object.entries@[j].0@);
        }
    }
    JsonMap { entries: out }
}

/// Whether two values are the same.
pub fn json_eq(a: &Json, b: &Json) -> (r: bool)
    ensures
        r == (a@ == b@),
    decreases a,
{
    match (a, b) {
        (Json::Null, Json::Null) => true,
        (Json::Bool(x), Json::Bool(y)) => *x == *y,
        (Json::Int(x), Json::Int(y)) => *x == *y,
        (Json::Float(x), Json::Float(y)) => *x == *y,
        (Json::Str(x), Json::Str(y)) => text_eq(x.as_str(), y.as_str()),
        (Json::Array(x), Json::Array(y)) => items_eq(x, y),
        (Json::Object(x), Json::Object(y)) => object_eq(x, y),
        _ => false,
    }
}

/// Whether two lists of values are the same.
pub fn items_eq(a: &Vec<Json>, b: &Vec<Json>) -> (r: bool)
    ensures
        r == (array_view(a@, a@.len()) == array_view(b@, b@.len())),
    decreases a,
{
    proof {
        lemma_array_items(a@);
        lemma_array_items(b@);
    }
    let ghost x = array_view(a@, a@.len());
    let ghost y = array_view(b@, b@.len());
    if a.len() != b.len() {
        assert(x.len() != y.len());
        return false;
    }
    let mut i: usize = 0;
    while i < a.len()
        invariant
            i <= a@.len() == b@.len(),
            x == array_view(a@, a@.len()),
            y == array_view(b@, b@.len()),
            x == Seq::new(a@.len(), |i: int| a@[i]@),
            y == Seq::new(b@.len(), |i: int| b@[i]@),
            forall|j: int| 0 <= j < i ==> x[j] == y[j],
        decreases a@.len() - i,
    {
        if !json_eq(&a[i], &b[i]) {
            assert(x[i as int] != y[i as int]);
            return false;
        }
        i = i + 1;
    }
    assert(x =~= y);
    true
}

/// Whether two objects have the same members, in whatever order.
pub fn object_eq(a: &JsonMap, b: &JsonMap) -> (r: bool)
    ensures
        r == (a@ == b@),
    decreases a,
{
    proof {
        use_type_invariant(a);
        use_type_invariant(b);
    }
    let n = a.entries.len();
    let mut i: usize = 0;
    while i < n
        invariant
            i <= n == a.entries@.len(),
            distinct_names(a.entries@),
            forall|j: int|
                0 <= j < i ==> b@.contains_key((#[trigger] a.entries@[j]).0@) && b@[a.entries@[j].0@]
                    == a.entries@[j].1@,
        decreases n - i,
    {
        proof {
            lemma_entries_value(a.entries@, a.entries@.len(), i as int);
        }
        match b.get(a.entries[i].0.as_str()) {
            Some(v) => {
                if !json_eq(&a.entries[i].1, v) {
                    return false;
                }
            },
            None => {
                return false;
            },
        }
        i = i + 1;
    }
    let m = b.entries.len();
    let mut j: usize = 0;
    while j < m
        invariant
            j <= m == b.entries@.len(),
            distinct_names(b.entries@),
            forall|k: int| 0 <= k < j ==> a@.contains_key((#[trigger] b.entries@[k]).0@),
        decreases m - j,
    {
        proof {
            lemma_entries_value(b.entries@, b.entries@.len(), j as int);
        }
        if !a.contains_key(b.entries[j].0.as_str()) {
            return false;
        }
        j = j + 1;
    }
    proof {
        assert forall|k: Seq<char>| a@.contains_key(k) == b@.contains_key(k) by {
            lemma_entries_keys(a.entries@, a.entries@.len(), k);
            lemma_entries_keys(b.entries@, b.entries@.len(), k);
            if a@.contains_key(k) {
                let x = choose|x: int| 0 <= x < a.entries@.len() && (#[trigger] a.entries@[x]).0@ == k;
                assert(b@.contains_key(a.entries@[x].0@));
            }
            if b@.contains_key(k) {
                let x = choose|x: int| 0 <= x < b.entries@.len() && (#[trigger] b.entries@[x]).0@ == k;
                assert(a@.contains_key(b.entries@[x].0@));
            }
        }
        assert forall|k: Seq<char>| a@.contains_key(k) implies a@[k] == b@[k] by {
            lemma_entries_keys(a.entries@, a.entries@.len(), k);
            let x = choose|x: int| 0 <= x < a.entries@.len() && (#[trigger] a.entries@[x]).0@ == k;
            lemma_entries_value(a.entries@, a.entries@.len(), x);
            assert(b@[a.entries@[x].0@] == a.entries@[x].1@);
        }
        assert(a@ =~= b@);
    }
    true
}

impl Clone for Json {
    fn clone(&self) -> (r: Json)
        ensures
            r@ == self@,
    {
        clone_json(self)
    }
}

impl Clone for JsonMap {
    fn clone(&self) -> (r: JsonMap)
        ensures
            r@ == self@,
    {
        clone_object(self)
    }
}

/// The text of a JSON string.
pub open spec fn text_of(v: JsonView) -> Option<Seq<char>> {
    match v {
        JsonView::Str(s) => Some(s),
        _ => None,
    }
}

/// The truth value of a JSON boolean.
pub open spec fn bool_of(v: JsonView) -> Option<bool> {
    match v {
        JsonView::Bool(b) => Some(b),
        _ => None,
    }
}

/// The value of an integral JSON number that fits in 64 unsigned bits.
pub open spec fn u64_of(v: JsonView) -> Option<u64> {
    match v {
        JsonView::Int(n) => if 0 <= n <= u64::MAX {
            Some(n as u64)
        } else {
            None
        },
        _ => None,
    }
}

/// The value of an integral JSON number that fits in 64 signed bits.
pub open spec fn i64_of(v: JsonView) -> Option<i64> {
    match v {
        JsonView::Int(n) => if i64::MIN <= n <= i64::MAX {
            Some(n as i64)
        } else {
            None
        },
        _ => None,
    }
}

/// The members of a JSON object.
pub open spec fn members_of(v: JsonView) -> Option<ObjectView> {
    match v {
        JsonView::Object(m) => Some(m),
        _ => None,
    }
}

/// The text under `k`, where that is a JSON string.
pub open spec fn text_at(m: ObjectView, k: Seq<char>) -> Option<Seq<char>> {
    if m.contains_key(k) {
        text_of(m[k])
    } else {
        None
    }
}

/// The truth value under `k`, where that is a JSON boolean.
pub open spec fn bool_at(m: ObjectView, k: Seq<char>) -> Option<bool> {
    if m.contains_key(k) {
        bool_of(m[k])
    } else {
        None
    }
}

/// The number under `k`, where that is an integer of 64 unsigned bits.
pub open spec fn u64_at(m: ObjectView, k: Seq<char>) -> Option<u64> {
    if m.contains_key(k) {
        u64_of(m[k])
    } else {
        None
    }
}

/// The members of the object under `k`, where that is an object.
pub open spec fn members_at(m: ObjectView, k: Seq<char>) -> Option<ObjectView> {
    if m.contains_key(k) {
        members_of(m[k])
    } else {
        None
    }
}

/// The text under `k`, or `default` where there is no JSON string.
pub open spec fn text_or(m: ObjectView, k: Seq<char>, default: Seq<char>) -> Seq<char> {
    match text_at(m, k) {
        Some(s) => s,
        None => default,
    }
}

/// The text under `k`, where that is a JSON string that is not empty.
pub open spec fn filled_at(m: ObjectView, k: Seq<char>) -> Option<Seq<char>> {
    match text_at(m, k) {
        Some(s) => if s.len() > 0 {
            Some(s)
        } else {
            None
        },
        None => None,
    }
}

impl Json {
    pub fn as_str(&self) -> (r: Option<&String>)
        ensures
            match r {
                Some(s) => text_of(self@) == Some(s@),
                None => text_of(self@) is None,
            },
    {
        match self {
            Json::Str(s) => Some(s),
            _ => None,
        }
    }

    pub fn as_bool(&self) -> (r: Option<bool>)
        ensures
            r == bool_of(self@),
    {
        match self {
            Json::Bool(b) => Some(*b),
            _ => None,
        }
    }

    pub fn as_u64(&self) -> (r: Option<u64>)
        ensures
            r == u64_of(self@),
    {
        match self {
            Json::Int(n) => if 0 <= *n && *n <= u64::MAX as i128 {
                Some(*n as u64)
            } else {
                None
            },
            _ => None,
        }
    }

    pub fn as_i64(&self) -> (r: Option<i64>)
        ensures
            r == i64_of(self@),
    {
        match self {
            Json::Int(n) => if i64::MIN as i128 <= *n && *n <= i64::MAX as i128 {
                Some(*n as i64)
            } else {
                None
            },
            _ => None,
        }
    }

    pub fn as_object(&self) -> (r: Option<&JsonMap>)
        ensures
            match r {
                Some(o) => members_of(self@) == Some(o@),
                None => members_of(self@) is None,
            },
    {
        match self {
            Json::Object(o) => Some(o),
            _ => None,
        }
    }
}

impl JsonMap {
    pub fn text_at(&self, key: &str) -> (r: Option<String>)
        ensures
            opt_text(r) == text_at(self@, key@),
    {
        match self.get(key) {
            Some(v) => match v.as_str() {
                Some(s) => Some(s.clone()),
                None => None,
            },
            None => None,
        }
    }

    pub fn filled_at(&self, key: &str) -> (r: Option<String>)
        ensures
            opt_text(r) == filled_at(self@, key@),
    {
        match self.text_at(key) {
            Some(s) => if s.as_str().is_empty() {
                None
            } else {
                Some(s)
            },
            None => None,
        }
    }

    pub fn text_or(&self, key: &str, default: &str) -> (r: String)
        ensures
            r@ == text_or(self@, key@, default@),
    {
        match self.text_at(key) {
            Some(s) => s,
            None => default.to_owned(),
        }
    }

    pub fn bool_at(&self, key: &str) -> (r: Option<bool>)
        ensures
            r == bool_at(self@, key@),
    {
        match self.get(key) {
            Some(v) => v.as_bool(),
            None => None,
        }
    }

    pub fn u64_at(&self, key: &str) -> (r: Option<u64>)
        ensures
            r == u64_at(self@, key@),
    {
        match self.get(key) {
            Some(v) => v.as_u64(),
            None => None,
        }
    }
}

/// The value that a text stands for in JSON, or what is wrong with the text.
pub uninterp spec fn json_read(text: Seq<char>) -> Result<JsonView, Seq<char>>;

/// The text in which a value is written in JSON.
pub uninterp spec fn json_written(value: JsonView) -> Seq<char>;

/// Whether the text of a value is known to read back as the value: every number in it
/// is an integer of sixty-four bits, with a sign or without, no name in it begins with
/// a dollar sign, and it is nested at most `depth` deep.
pub open spec fn reads_back(value: JsonView, depth: nat) -> bool
    decreases depth,
{
    match value {
        JsonView::Null | JsonView::Bool(_) | JsonView::Str(_) => true,
        JsonView::Int(n) => i64::MIN <= n <= u64::MAX,
        JsonView::Float(_) => false,
        JsonView::Array(items) => depth > 0 && forall|i: int|
            0 <= i < items.len() ==> reads_back(#[trigger] items[i], (depth - 1) as nat),
        JsonView::Object(m) => depth > 0 && forall|k: Seq<char>| #[trigger]
            m.contains_key(k) ==> (k.len() > 0 ==> k[0] != '$') && reads_back(m[k], (depth - 1) as nat),
    }
}

/// `serde_json::Value`: what a parsed text is before it is taken in, and what a value
/// is given out as before it is written.
#[verifier::external_type_specification]
#[verifier::external_body]
pub struct ExJsonValue(serde_json::Value);

/// A `serde_json::Value`, variant by variant. A number that is no integer is kept
/// by its bits; the names in a `serde_json::Map` are distinct.
#[verifier::external_body]
fn taken_in(value: serde_json::Value) -> (r: Json) {
    match value {
        serde_json::Value::Null => Json::Null,
        serde_json::Value::Bool(b) => Json::Bool(b),
        serde_json::Value::Number(n) => match n.as_i128() {
            Some(i) => Json::Int(i),
            None => Json::Float(n.as_f64().unwrap_or_default().to_bits()),
        },
        serde_json::Value::String(s) => Json::Str(s),
        serde_json::Value::Array(a) => Json::Array(a.into_iter().map(taken_in).collect()),
        serde_json::Value::Object(m) => Json::Object(JsonMap {
            entries: m.into_iter().map(|(k, v)| (k, taken_in(v))).collect(),
        }),
    }
}

/// A value as a `serde_json::Value`, variant by variant. A number that JSON cannot
/// hold becomes null.
#[verifier::external_body]
fn given_out(value: &Json) -> (r: serde_json::Value) {
    match value {
        Json::Null => serde_json::Value::Null,
        Json::Bool(b) => serde_json::Value::Bool(*b),
        Json::Int(n) => serde_json::Number::from_i128(*n).into(),
        Json::Float(bits) => bytes::Buf::get_f64(&mut &bits.to_be_bytes()[..]).into(),
        Json::Str(s) => serde_json::Value::String(s.clone()),
        Json::Array(items) => items.iter().map(given_out).collect(),
        Json::Object(m) => m.entries.iter().map(|(k, v)| (k.clone(), given_out(v))).collect(),
    }
}

/// `serde_json::from_str`, for a `serde_json::Value`: the value that the text
/// stands for, or the text of its error where it is not JSON.
#[verifier::external_body]
pub(crate) fn read_json(text: &str) -> (r: Result<Json, String>)
    ensures
        match r {
            Ok(value) => json_read(text@) == Ok::<JsonView, Seq<char>>(value@),
            Err(e) => json_read(text@) == Err::<JsonView, Seq<char>>(e@),
        },
{
    serde_json::from_str(text).map(taken_in).map_err(|e| e.to_string())
}

/// The `Display` of `serde_json::Value`: the text in which the value is written,
/// without blanks and with the names of an object in order. `serde_json::from_str`
/// reads that text as the same value, where the value has integers only, of the size
/// that a `serde_json::Number` holds, where it is nested less deep than the parser's
/// limit of a hundred and twenty-eight, and where no name is one that the parser
/// treats apart (those begin with a dollar sign). Of other numbers nothing is said:
/// what is read may differ in the last place from what was written.
#[verifier::external_body]
pub(crate) fn write_json(value: &Json) -> (r: String)
    ensures
        r@ == json_written(value@),
        match json_read(r@) {
            Ok(v) => reads_back(value@, 127) ==> v == value@,
            Err(_) => !reads_back(value@, 127),
        },
{
    given_out(value).to_string()
}

impl Json {
    /// The value that a text stands for, or what is wrong with the text.
    pub fn parse(text: &str) -> (r: Result<Json, String>)
        ensures
            match r {
                Ok(value) => json_read(text@) == Ok::<JsonView, Seq<char>>(value@),
                Err(e) => json_read(text@) == Err::<JsonView, Seq<char>>(e@),
            },
    {
        read_json(text)
    }

    /// The text in which the value is written. It reads back as the value, where
    /// [`reads_back`] says so.
    pub fn render(&self) -> (r: String)
        ensures
            r@ == json_written(self@),
            match json_read(r@) {
                Ok(v) => reads_back(self@, 127) ==> v == self@,
                Err(_) => !reads_back(self@, 127),
            },
    {
        write_json(self)
    }
}

} // verus!
