//! Maps from texts to values that grow and shrink: the place of each value is
//! found through a concurrent map.
use vstd::prelude::*;

verus! {

/// `dashmap::DashMap`, a concurrent map.
#[verifier::external_type_specification]
#[verifier::external_body]
#[verifier::reject_recursive_types(K)]
#[verifier::reject_recursive_types(V)]
#[verifier::reject_recursive_types(S)]
pub struct ExDashMap<K, V, S>(dashmap::DashMap<K, V, S>);

/// What a concurrent map holds.
pub uninterp spec fn places_of(map: dashmap::DashMap<String, usize>) -> Map<Seq<char>, usize>;

/// `dashmap::DashMap::new`: a map that holds nothing.
#[verifier::external_body]
fn no_places() -> (r: dashmap::DashMap<String, usize>)
    ensures
        forall|k: Seq<char>| !places_of(r).contains_key(k),
{
    dashmap::DashMap::new()
}

/// `dashmap::DashMap::get`: what the key is mapped to, if anything.
#[verifier::external_body]
fn place_of(map: &dashmap::DashMap<String, usize>, key: &str) -> (r: Option<usize>)
    ensures
        match r {
            Some(place) => places_of(*map).contains_key(key@) && places_of(*map)[key@] == place,
            None => !places_of(*map).contains_key(key@),
        },
{
    map.get(key).map(|place| *place)
}

/// `dashmap::DashMap::insert`: the key is mapped to the value, in place of what it
/// was mapped to before.
#[verifier::external_body]
fn set_place(map: &mut dashmap::DashMap<String, usize>, key: String, place: usize)
    ensures
        places_of(*final(map)) == places_of(*old(map)).insert(key@, place),
{
    map.insert(key, place);
}

/// `dashmap::DashMap::remove`: the key is no longer mapped to anything.
#[verifier::external_body]
fn drop_place(map: &mut dashmap::DashMap<String, usize>, key: &str)
    ensures
        places_of(*final(map)) == places_of(*old(map)).remove(key@),
{
    map.remove(key);
}

/// A map from texts to values.
pub struct Sharded<V> {
    places: dashmap::DashMap<String, usize>,
    slots: Vec<(String, V)>,
}

impl<V: View> View for Sharded<V> {
    type V = Map<Seq<char>, V::V>;

    closed spec fn view(&self) -> Map<Seq<char>, V::V> {
        Map::new(
            |k: Seq<char>| places_of(self.places).contains_key(k),
            |k: Seq<char>| self.slots@[places_of(self.places)[k] as int].1@,
        )
    }
}

spec fn placed<V>(places: Map<Seq<char>, usize>, slots: Seq<(String, V)>) -> bool {
    &&& forall|i: int|
        0 <= i < slots.len() ==> places.contains_key((#[trigger] slots[i]).0@) && places[slots[i].0@] == i
    &&& forall|k: Seq<char>| #[trigger]
        places.contains_key(k) ==> places[k] < slots.len() && slots[places[k] as int].0@ == k
}

impl<V: View> Sharded<V> {
    /// Whether every value is found at its place.
    pub closed spec fn wf(self) -> bool {
        placed(places_of(self.places), self.slots@)
    }

    /// The keys, in the order of their places.
    pub closed spec fn keys(self) -> Seq<Seq<char>> {
        Seq::new(self.slots@.len(), |i: int| self.slots@[i].0@)
    }

    /// The map without entries.
    pub fn new() -> (r: Sharded<V>)
        ensures
            r.wf(),
            r@ == Map::<Seq<char>, V::V>::empty(),
    {
        let r = Sharded { places: no_places(), slots: Vec::new() };
        assert(forall|k: Seq<char>| !places_of(r.places).contains_key(k));
        assert(r@ =~= Map::<Seq<char>, V::V>::empty());
        r
    }

    /// What `key` is mapped to, if anything.
    pub fn get(&self, key: &str) -> (r: Option<&V>)
        requires
            self.wf(),
        ensures
            match r {
                Some(v) => self@.contains_key(key@) && self@[key@] == v@,
                None => !self@.contains_key(key@),
            },
    {
        match place_of(&self.places, key) {
            Some(place) => Some(&self.slots[place].1),
            None => None,
        }
    }

    /// Maps `key` to `value`, in place of what it was mapped to before.
    pub fn insert(&mut self, key: &str, value: V)
        requires
            old(self).wf(),
        ensures
            final(self).wf(),
            final(self)@ == old(self)@.insert(key@, value@),
    {
        let ghost before = self.slots@;
        let ghost map = places_of(self.places);
        match place_of(&self.places, key) {
            Some(place) => {
                self.slots.set(place, (key.to_owned(), value));
                proof {
                    assert forall|i: int| 0 <= i < self.slots@.len() implies map.contains_key(
                        (#[trigger] self.slots@[i]).0@,
                    ) && map[self.slots@[i].0@] == i by {
                        if i != place {
                            assert(self.slots@[i] == before[i]);
                        }
                    }
                    assert(self@ =~= old(self)@.insert(key@, value@));
                }
            },
            None => {
                let place = self.slots.len();
                self.slots.push((key.to_owned(), value));
                set_place(&mut self.places, key.to_owned(), place);
                proof {
                    let after = self.slots@;
                    let now = places_of(self.places);
                    assert forall|i: int| 0 <= i < after.len() implies now.contains_key((#[trigger] after[i]).0@)
                        && now[after[i].0@] == i by {
                        if i < before.len() {
                            assert(after[i] == before[i]);
                        }
                    }
                    assert forall|k: Seq<char>| #[trigger] now.contains_key(k) implies now[k] < after.len()
                        && after[now[k] as int].0@ == k by {
                        if k != key@ {
                            assert(map.contains_key(k));
                        }
                    }
                    assert(self@ =~= old(self)@.insert(key@, value@)) by {
                        assert forall|k: Seq<char>| self@.contains_key(k) implies self@[k] == old(self)@.insert(
                            key@,
                            value@,
                        )[k] by {
                            if k != key@ {
                                assert(map.contains_key(k));
                            }
                        }
                    }
                }
            },
        }
    }

    /// Removes what `key` is mapped to.
    pub fn remove(&mut self, key: &str) -> (r: Option<V>)
        requires
            old(self).wf(),
        ensures
            final(self).wf(),
            final(self)@ == old(self)@.remove(key@),
            match r {
                Some(v) => old(self)@.contains_key(key@) && v@ == old(self)@[key@],
                None => !old(self)@.contains_key(key@),
            },
    {
        let ghost before = self.slots@;
        let ghost map = places_of(self.places);
        match place_of(&self.places, key) {
            None => {
                assert(self@ =~= old(self)@.remove(key@));
                None
            },
            Some(place) => {
                let last = self.slots.len() - 1;
                let (_, value) = self.slots.swap_remove(place);
                drop_place(&mut self.places, key);
                if place < last {
                    let moved = self.slots[place].0.clone();
                    set_place(&mut self.places, moved, place);
                }
                proof {
                    let after = self.slots@;
                    let now = places_of(self.places);
                    assert(before[place as int].0@ == key@);
                    assert(value@ == before[place as int].1@);
                    assert(after =~= before.update(place as int, before.last()).drop_last());
                    let tail = before[last as int].0@;
                    assert forall|i: int| 0 <= i < after.len() implies now.contains_key((#[trigger] after[i]).0@)
                        && now[after[i].0@] == i by {
                        if i == place {
                            assert(after[i] == before[last as int]);
                        } else {
                            assert(after[i] == before[i]);
                            assert(map[before[i].0@] == i);
                        }
                    }
                    assert forall|k: Seq<char>| #[trigger] now.contains_key(k) implies now[k] < after.len()
                        && after[now[k] as int].0@ == k by {
                        assert(map.contains_key(k));
                        if place < last && k == tail {
                            assert(map[tail] == last);
                        } else {
                            assert(map[tail] == last) by {
                                assert(before[last as int].0@ == tail);
                            }
                            assert(k != key@);
                            assert(map[k] != place);
                            assert(map[k] != last);
                            assert(after[map[k] as int] == before[map[k] as int]);
                        }
                    }
                    assert forall|k: Seq<char>| self@.contains_key(k) == old(self)@.remove(key@).contains_key(k) by {
                        if place < last {
                            assert(map.contains_key(tail));
                            if k == tail && tail == key@ {
                                assert(map[tail] == last);
                            }
                        }
                    }
                    assert forall|k: Seq<char>| self@.contains_key(k) implies self@[k] == old(self)@[k] by {
                        assert(now.contains_key(k));
                        assert(map.contains_key(k));
                        if place < last && k == tail {
                            assert(map[tail] == last);
                        } else {
                            assert(map[k] != last) by {
                                assert(before[last as int].0@ == tail);
                                if map[k] == last {
                                    assert(before[map[k] as int].0@ == k);
                                }
                            }
                            assert(after[map[k] as int] == before[map[k] as int]);
                        }
                    }
                    assert(self@ =~= old(self)@.remove(key@));
                }
                Some(value)
            },
        }
    }

    /// How many keys the map has.
    pub fn len(&self) -> (r: usize)
        requires
            self.wf(),
        ensures
            r == self.keys().len(),
            r == self@.dom().len(),
            self@.dom().finite(),
            self.keys().no_duplicates(),
            forall|k: Seq<char>| #[trigger] self@.contains_key(k) <==> self.keys().contains(k),
    {
        proof {
            let keys = self.keys();
            let map = places_of(self.places);
            assert forall|k: Seq<char>| #[trigger] self@.contains_key(k) <==> keys.contains(k) by {
                if self@.contains_key(k) {
                    assert(keys[map[k] as int] == k);
                }
                if keys.contains(k) {
                    let i = choose|i: int| 0 <= i < keys.len() && keys[i] == k;
                    assert(self.slots@[i].0@ == k);
                }
            }
            assert(keys.no_duplicates()) by {
                assert forall|i: int, j: int|
                    0 <= i < keys.len() && 0 <= j < keys.len() && i != j implies keys[i] != keys[j] by {
                    assert(map[self.slots@[i].0@] == i);
                    assert(map[self.slots@[j].0@] == j);
                }
            }
            keys.unique_seq_to_set();
            assert(keys.to_set() =~= self@.dom());
        }
        self.slots.len()
    }

    /// The key at place `i`.
    pub fn key_at(&self, i: usize) -> (r: &String)
        requires
            i < self.keys().len(),
        ensures
            r@ == self.keys()[i as int],
    {
        &self.slots[i].0
    }

    /// The value at place `i`.
    pub fn value_at(&self, i: usize) -> (r: &V)
        requires
            self.wf(),
            i < self.keys().len(),
        ensures
            self@.contains_key(self.keys()[i as int]),
            r@ == self@[self.keys()[i as int]],
    {
        proof {
            assert(self.slots@[i as int].0@ == self.keys()[i as int]);
        }
        &self.slots[i].1
    }
}

} // verus!
