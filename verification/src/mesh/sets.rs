//! Sets of claims on sandboxes.
use crate::text::text_eq;
use vstd::prelude::*;

verus! {

/// Who holds a sandbox, and in which generation of ownership.
#[derive(Debug)]
pub struct Owner {
    pub node: String,
    pub epoch: u64,
}

/// The value of an [`Owner`].
pub struct OwnerView {
    pub node: Seq<char>,
    pub epoch: u64,
}

impl View for Owner {
    type V = OwnerView;

    open spec fn view(&self) -> OwnerView {
        OwnerView { node: self.node@, epoch: self.epoch }
    }
}

impl Owner {
    pub fn new(node: &str, epoch: u64) -> (r: Owner)
        ensures
            r@ == (OwnerView { node: node@, epoch }),
    {
        Owner { node: node.to_owned(), epoch }
    }

    pub fn copy(&self) -> (r: Owner)
        ensures
            r@ == self@,
    {
        Owner { node: self.node.clone(), epoch: self.epoch }
    }

    /// Whether this is the claim of `node` in generation `epoch`.
    pub fn is(&self, node: &str, epoch: u64) -> (r: bool)
        ensures
            r == (self@ == OwnerView { node: node@, epoch }),
    {
        text_eq(self.node.as_str(), node) && self.epoch == epoch
    }
}

/// A claim on one generation of a sandbox: sandbox, claimant, generation.
pub struct Claim {
    sid: String,
    node: String,
    epoch: u64,
}

pub type ClaimView = (Seq<char>, Seq<char>, u64);

impl View for Claim {
    type V = ClaimView;

    closed spec fn view(&self) -> ClaimView {
        (self.sid@, self.node@, self.epoch)
    }
}

/// A finite set of claims.
pub struct ClaimSet {
    items: Vec<Claim>,
}

spec fn holds(items: Seq<Claim>, n: int, c: ClaimView) -> bool {
    exists|i: int| 0 <= i < n && (#[trigger] items[i])@ == c
}

impl View for ClaimSet {
    type V = Set<ClaimView>;

    closed spec fn view(&self) -> Set<ClaimView> {
        Set::new(|c: ClaimView| holds(self.items@, self.items@.len() as int, c))
    }
}

impl ClaimSet {
    pub fn new() -> (r: ClaimSet)
        ensures
            r@ == Set::<ClaimView>::empty(),
    {
        let r = ClaimSet { items: Vec::new() };
        assert(r@ =~= Set::<ClaimView>::empty());
        r
    }

    pub fn contains(&self, sid: &str, node: &str, epoch: u64) -> (r: bool)
        ensures
            r == self@.contains((sid@, node@, epoch)),
    {
        let mut i: usize = 0;
        while i < self.items.len()
            invariant
                i <= self.items@.len(),
                forall|j: int| 0 <= j < i ==> (#[trigger] self.items@[j])@ != (sid@, node@, epoch),
            decreases self.items@.len() - i,
        {
            let item = &self.items[i];
            if text_eq(item.sid.as_str(), sid) && text_eq(item.node.as_str(), node) && item.epoch == epoch {
                assert(self.items@[i as int]@ == (sid@, node@, epoch));
                return true;
            }
            i = i + 1;
        }
        false
    }

    /// Adds a claim; says whether it is new.
    pub fn insert(&mut self, sid: &str, node: &str, epoch: u64) -> (r: bool)
        ensures
            final(self)@ == old(self)@.insert((sid@, node@, epoch)),
            r == !old(self)@.contains((sid@, node@, epoch)),
    {
        if self.contains(sid, node, epoch) {
            assert(self@ =~= old(self)@.insert((sid@, node@, epoch)));
            return false;
        }
        let ghost before = self.items@;
        self.items.push(Claim { sid: sid.to_owned(), node: node.to_owned(), epoch });
        proof {
            let c = (sid@, node@, epoch);
            assert(self.items@[before.len() as int]@ == c);
            assert forall|x: ClaimView| self@.contains(x) == old(self)@.insert(c).contains(x) by {
                if old(self)@.contains(x) {
                    let i = choose|i: int| 0 <= i < before.len() && (#[trigger] before[i])@ == x;
                    assert(self.items@[i]@ == x);
                }
                if self@.contains(x) && x != c {
                    let i = choose|i: int| 0 <= i < self.items@.len() && (#[trigger] self.items@[i])@ == x;
                    assert(before[i]@ == x);
                }
            }
            assert(self@ =~= old(self)@.insert(c));
        }
        true
    }

    /// Drops a claim.
    pub fn remove(&mut self, sid: &str, node: &str, epoch: u64)
        ensures
            final(self)@ == old(self)@.remove((sid@, node@, epoch)),
    {
        let mut out: Vec<Claim> = Vec::new();
        let mut i: usize = 0;
        while i < self.items.len()
            invariant
                i <= self.items@.len(),
                *self == *old(self),
                forall|c: ClaimView| #[trigger]
                    holds(out@, out@.len() as int, c) <==> (c != (sid@, node@, epoch) && holds(
                        self.items@,
                        i as int,
                        c,
                    )),
            decreases self.items@.len() - i,
        {
            let ghost kept = out@;
            let item = &self.items[i];
            let hit = text_eq(item.sid.as_str(), sid) && text_eq(item.node.as_str(), node) && item.epoch == epoch;
            if !hit {
                out.push(Claim { sid: item.sid.clone(), node: item.node.clone(), epoch: item.epoch });
            }
            proof {
                let gone = (sid@, node@, epoch);
                let here = self.items@[i as int]@;
                assert(hit == (here == gone));
                assert forall|c: ClaimView| #[trigger]
                    holds(out@, out@.len() as int, c) <==> (c != gone && holds(self.items@, i + 1, c)) by {
                    assert(holds(kept, kept.len() as int, c) <==> (c != gone && holds(self.items@, i as int, c)));
                    if holds(out@, out@.len() as int, c) {
                        let o = choose|o: int| 0 <= o < out@.len() && (#[trigger] out@[o])@ == c;
                        if o < kept.len() {
                            assert(kept[o]@ == c);
                            let j = choose|j: int| 0 <= j < i && (#[trigger] self.items@[j])@ == c;
                            assert(self.items@[j]@ == c);
                        } else {
                            assert(self.items@[i as int]@ == c);
                        }
                    }
                    if c != gone && holds(self.items@, i + 1, c) {
                        let j = choose|j: int| 0 <= j < i + 1 && (#[trigger] self.items@[j])@ == c;
                        if j < i {
                            assert(holds(self.items@, i as int, c));
                            let o = choose|o: int| 0 <= o < kept.len() && (#[trigger] kept[o])@ == c;
                            assert(out@[o]@ == c);
                        } else {
                            assert(out@[kept.len() as int]@ == c);
                        }
                    }
                }
            }
            i = i + 1;
        }
        self.items = out;
        assert(self@ =~= old(self)@.remove((sid@, node@, epoch)));
    }
}

} // verus!
