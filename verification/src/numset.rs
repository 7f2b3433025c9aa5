//! A set of numbers in ascending order.
use vstd::prelude::*;

verus! {

/// A set of numbers, kept in ascending order.
pub struct NumSet {
    items: Vec<u32>,
}

pub open spec fn increasing(s: Seq<u32>) -> bool {
    forall|i: int, j: int| 0 <= i < j < s.len() ==> #[trigger] s[i] < #[trigger] s[j]
}

impl View for NumSet {
    type V = Set<u32>;

    closed spec fn view(&self) -> Set<u32> {
        Set::new(|n: u32| self.items@.contains(n))
    }
}

/// The lowest number of a set that has one.
pub open spec fn lowest(s: Set<u32>) -> u32 {
    choose|n: u32| #[trigger] s.contains(n) && forall|m: u32| #[trigger] s.contains(m) ==> n <= m
}

pub proof fn lemma_lowest(s: Set<u32>, n: u32)
    requires
        s.contains(n),
        forall|m: u32| #[trigger] s.contains(m) ==> n <= m,
    ensures
        lowest(s) == n,
{
    let l = lowest(s);
    assert(s.contains(l) && n <= l && l <= n);
}

impl NumSet {
    #[verifier::type_invariant]
    spec fn inv(self) -> bool {
        increasing(self.items@)
    }

    /// The empty set.
    pub fn new() -> (r: NumSet)
        ensures
            r@ == Set::<u32>::empty(),
    {
        let r = NumSet { items: Vec::new() };
        assert(r@ =~= Set::empty());
        r
    }

    fn seek(&self, n: u32) -> (r: (usize, bool))
        ensures
            r.0 <= self.items@.len(),
            r.1 == self@.contains(n),
            r.1 ==> r.0 < self.items@.len() && self.items@[r.0 as int] == n,
            forall|j: int| 0 <= j < r.0 ==> #[trigger] self.items@[j] < n,
            forall|j: int| r.0 <= j < self.items@.len() ==> #[trigger] self.items@[j] >= n,
    {
        proof {
            use_type_invariant(self);
        }
        let ghost s = self.items@;
        let mut lo: usize = 0;
        let mut hi: usize = self.items.len();
        while lo < hi
            invariant
                lo <= hi <= s.len(),
                s == self.items@,
                increasing(s),
                forall|j: int| 0 <= j < lo ==> #[trigger] s[j] < n,
                forall|j: int| hi <= j < s.len() ==> #[trigger] s[j] >= n,
            decreases hi - lo,
        {
            let mid = lo + (hi - lo) / 2;
            if self.items[mid] < n {
                lo = mid + 1;
            } else {
                hi = mid;
            }
        }
        let found = lo < self.items.len() && self.items[lo] == n;
        proof {
            if found {
                assert(s.contains(n));
            } else if s.contains(n) {
                let j = choose|j: int| 0 <= j < s.len() && s[j] == n;
                assert(j >= lo);
                if j > lo {
                    assert(s[lo as int] < s[j]);
                }
            }
        }
        (lo, found)
    }

    /// Whether `n` is in the set.
    pub fn contains(&self, n: u32) -> (r: bool)
        ensures
            r == self@.contains(n),
    {
        self.seek(n).1
    }

    /// Puts `n` into the set.
    pub fn insert(&mut self, n: u32)
        ensures
            final(self)@ == old(self)@.insert(n),
    {
        let (at, found) = self.seek(n);
        proof {
            use_type_invariant(&*self);
        }
        if found {
            assert(old(self)@.insert(n) =~= old(self)@);
            return;
        }
        let ghost before = self.items@;
        let mut taken = NumSet::new();
        core::mem::swap(self, &mut taken);
        let mut items = taken.items;
        items.insert(at, n);
        proof {
            let after = items@;
            assert(after =~= before.insert(at as int, n));
            assert forall|i: int, j: int| 0 <= i < j < after.len() implies #[trigger] after[i] < #[trigger] after[j] by {
                let bi = if i < at { i } else { i - 1 };
                let bj = if j < at { j } else { j - 1 };
                if i == at {
                    assert(after[j] == before[bj]);
                    assert(before[bj] != n) by {
                        if before[bj] == n {
                            assert(before.contains(n));
                        }
                    }
                } else if j == at {
                    assert(after[i] == before[bi]);
                } else {
                    assert(after[i] == before[bi] && after[j] == before[bj]);
                }
            }
        }
        *self = NumSet { items };
        proof {
            let after = items@;
            assert forall|m: u32| self@.contains(m) == old(self)@.insert(n).contains(m) by {
                if after.contains(m) && m != n {
                    let i = choose|i: int| 0 <= i < after.len() && after[i] == m;
                    let bi = if i < at { i } else { i - 1 };
                    assert(before[bi] == m);
                }
                if before.contains(m) {
                    let i = choose|i: int| 0 <= i < before.len() && before[i] == m;
                    let ai = if i < at { i } else { i + 1 };
                    assert(after[ai] == m);
                }
                assert(after[at as int] == n);
            }
            assert(self@ =~= old(self)@.insert(n));
        }
    }

    /// Takes the lowest number out of the set.
    pub fn pop_lowest(&mut self) -> (r: Option<u32>)
        ensures
            match r {
                Some(n) => old(self)@.contains(n) && n == lowest(old(self)@) && final(self)@ == old(self)@.remove(n) && (
                forall|m: u32| #[trigger] old(self)@.contains(m) ==> n <= m),
                None => final(self)@ == old(self)@ && old(self)@ == Set::<u32>::empty(),
            },
    {
        proof {
            use_type_invariant(&*self);
        }
        if self.items.len() == 0 {
            assert(self@ =~= Set::empty());
            return None;
        }
        let ghost before = self.items@;
        let ghost was = self@;
        let mut taken = NumSet::new();
        core::mem::swap(self, &mut taken);
        let mut items = taken.items;
        let n = items.remove(0);
        proof {
            assert(items@ =~= before.remove(0));
            assert forall|i: int, j: int| 0 <= i < j < items@.len() implies #[trigger] items@[i] < #[trigger] items@[j] by {
                assert(before[i + 1] < before[j + 1]);
            }
        }
        *self = NumSet { items };
        proof {
            let after = items@;
            assert(before[0] == n);
            assert(was.contains(n));
            assert forall|m: u32| #[trigger] was.contains(m) implies n <= m by {
                let i = choose|i: int| 0 <= i < before.len() && before[i] == m;
                if i > 0 {
                    assert(before[0] < before[i]);
                }
            }
            lemma_lowest(was, n);
            assert forall|m: u32| self@.contains(m) == was.remove(n).contains(m) by {
                if after.contains(m) {
                    let i = choose|i: int| 0 <= i < after.len() && after[i] == m;
                    assert(before[i + 1] == m);
                    assert(before[0] < before[i + 1]);
                }
                if before.contains(m) && m != n {
                    let i = choose|i: int| 0 <= i < before.len() && before[i] == m;
                    assert(after[i - 1] == m);
                }
            }
            assert(self@ =~= was.remove(n));
        }
        Some(n)
    }

    /// How many numbers the set has.
    pub fn len(&self) -> (r: usize)
        ensures
            self@.finite(),
            r == self@.len(),
    {
        proof {
            use_type_invariant(self);
            let s = self.items@;
            assert(s.no_duplicates());
            s.unique_seq_to_set();
            assert(s.to_set() =~= self@);
        }
        self.items.len()
    }

    /// The numbers, in ascending order.
    pub fn list(&self) -> (r: Vec<u32>)
        ensures
            increasing(r@),
            r@.to_set() == self@,
    {
        proof {
            use_type_invariant(self);
        }
        let mut out: Vec<u32> = Vec::new();
        let mut i: usize = 0;
        while i < self.items.len()
            invariant
                i <= self.items@.len(),
                out@ =~= self.items@.take(i as int),
            decreases self.items@.len() - i,
        {
            out.push(self.items[i]);
            i = i + 1;
        }
        assert(out@ =~= self.items@);
        assert(out@.to_set() =~= self@);
        out
    }
}

} // verus!
