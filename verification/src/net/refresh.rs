//! The addresses that allowed domains resolve to: numbering their rules, and
//! keeping the rules up with later resolutions.
use crate::net::addr::{render_v4, render_v6, v4_text, v6_text, IpAddr};
use crate::net::plan::{OpView, RuleView, TapOp, TapRule};
use crate::net::rules::IptablesAction;
use crate::text::texts;
use crate::textmap::{ascending, difference, in_sequence, lemma_in_sequence, set_of, TextMap, TextSet};
use vstd::prelude::*;

verus! {

/// The text of an address.
pub open spec fn ip_text(a: IpAddr) -> Seq<char> {
    match a {
        IpAddr::V4(n) => v4_text(n as nat),
        IpAddr::V6(n) => v6_text(n as nat),
    }
}

/// The text of an address.
pub fn render_ip(a: IpAddr) -> (r: String)
    ensures
        r@ == ip_text(a),
{
    match a {
        IpAddr::V4(n) => render_v4(n),
        IpAddr::V6(n) => render_v6(n),
    }
}

/// The numbers of addresses: each gets, where it first occurs, the next one.
pub open spec fn numbering(ips: Seq<Seq<char>>) -> Map<Seq<char>, usize>
    decreases ips.len(),
{
    if ips.len() == 0 {
        Map::empty()
    } else {
        let rest = numbering(ips.drop_last());
        if rest.contains_key(ips.last()) {
            rest
        } else {
            rest.insert(ips.last(), rest.dom().len() as usize)
        }
    }
}

/// The numbers of addresses, and the next one.
pub fn number_addresses(ips: &Vec<String>) -> (r: (TextMap<usize>, usize))
    ensures
        r.0@ == numbering(texts(ips@)),
        r.0@.dom().finite(),
        r.1 == r.0@.dom().len(),
{
    let mut rules: TextMap<usize> = TextMap::new();
    let mut next: usize = 0;
    let ghost all = texts(ips@);
    let mut i: usize = 0;
    assert(all.take(0) =~= Seq::empty());
    assert(rules@ =~= Map::empty());
    while i < ips.len()
        invariant
            i <= ips@.len(),
            all == texts(ips@),
            rules@ == numbering(all.take(i as int)),
            rules@.dom().finite(),
            next == rules@.dom().len(),
            next <= i,
        decreases ips@.len() - i,
    {
        assert(all.take(i + 1).drop_last() =~= all.take(i as int));
        assert(all.take(i + 1).last() == ips@[i as int]@);
        if !rules.contains_key(ips[i].as_str()) {
            rules.insert(ips[i].clone(), next);
            next = next + 1;
        }
        i = i + 1;
    }
    assert(all.take(i as int) =~= all);
    (rules, next)
}

/// The rules that a teardown takes away: those that were seen, and with number
/// zero those of addresses that were resolved since.
pub open spec fn with_resolved(seen: Map<Seq<char>, usize>, ips: Seq<Seq<char>>) -> Map<Seq<char>, usize>
    decreases ips.len(),
{
    if ips.len() == 0 {
        seen
    } else {
        let rest = with_resolved(seen, ips.drop_last());
        if rest.contains_key(ips.last()) {
            rest
        } else {
            rest.insert(ips.last(), 0)
        }
    }
}

/// Adds addresses that were resolved since to the rules that were seen.
pub fn add_resolved(seen: &mut TextMap<usize>, ips: &Vec<String>)
    ensures
        final(seen)@ == with_resolved(old(seen)@, texts(ips@)),
{
    let ghost all = texts(ips@);
    let ghost start = seen@;
    let mut i: usize = 0;
    assert(all.take(0) =~= Seq::empty());
    while i < ips.len()
        invariant
            i <= ips@.len(),
            all == texts(ips@),
            seen@ == with_resolved(start, all.take(i as int)),
        decreases ips@.len() - i,
    {
        assert(all.take(i + 1).drop_last() =~= all.take(i as int));
        assert(all.take(i + 1).last() == ips@[i as int]@);
        if !seen.contains_key(ips[i].as_str()) {
            seen.insert(ips[i].clone(), 0);
        }
        i = i + 1;
    }
    assert(all.take(i as int) =~= all);
}

/// Where the addresses of domains are applied: in rules of their own, or as the
/// elements of one set.
#[derive(Debug)]
pub enum RefreshTarget {
    Iptables { guest_cidr: String },
    NftSet { set: String },
}

pub ghost enum TargetView {
    Iptables { guest_cidr: Seq<char> },
    NftSet { set: Seq<char> },
}

impl View for RefreshTarget {
    type V = TargetView;

    open spec fn view(&self) -> TargetView {
        match *self {
            RefreshTarget::Iptables { guest_cidr } => TargetView::Iptables { guest_cidr: guest_cidr@ },
            RefreshTarget::NftSet { set } => TargetView::NftSet { set: set@ },
        }
    }
}

/// A step of a round of refreshing: one rule is put in place or taken away, or the
/// elements of a set are changed in one batch.
#[derive(Debug)]
pub enum RefreshStep {
    Rule(TapOp),
    Batch { set: String, adds: Vec<String>, drops: Vec<String> },
}

pub ghost enum RefreshStepView {
    Rule(OpView),
    Batch { set: Seq<char>, adds: Seq<Seq<char>>, drops: Seq<Seq<char>> },
}

impl View for RefreshStep {
    type V = RefreshStepView;

    open spec fn view(&self) -> RefreshStepView {
        match *self {
            RefreshStep::Rule(op) => RefreshStepView::Rule(op@),
            RefreshStep::Batch { set, adds, drops } => RefreshStepView::Batch {
                set: set@,
                adds: texts(adds@),
                drops: texts(drops@),
            },
        }
    }
}

/// The steps of a list.
pub open spec fn steps_view(steps: Seq<RefreshStep>) -> Seq<RefreshStepView> {
    steps.map_values(|s: RefreshStep| s@)
}

/// The step that puts the rule of an address in place.
pub open spec fn put_step(ip: Seq<char>, index: usize) -> RefreshStepView {
    RefreshStepView::Rule(OpView::Ensure(IptablesAction::Insert, RuleView::Domain(ip, index)))
}

/// The step that takes the rule of an address away.
pub open spec fn drop_step(ip: Seq<char>, index: usize) -> RefreshStepView {
    RefreshStepView::Rule(OpView::Delete(RuleView::Domain(ip, index)))
}

/// The rules of the addresses that a sandbox's domains resolved to.
pub struct DomainRefresher {
    rules: TextMap<usize>,
    next_idx: usize,
}

/// The numbers of the rules in place, and the next number.
pub ghost struct RefreshView {
    pub rules: Map<Seq<char>, usize>,
    pub next_idx: usize,
}

impl View for DomainRefresher {
    type V = RefreshView;

    closed spec fn view(&self) -> RefreshView {
        RefreshView { rules: self.rules@, next_idx: self.next_idx }
    }
}

/// The addresses that a resolution adds.
pub open spec fn added(v: RefreshView, current: Set<Seq<char>>) -> Seq<Seq<char>> {
    in_sequence(current.difference(v.rules.dom()))
}

/// The addresses that a resolution leaves out.
pub open spec fn dropped(v: RefreshView, current: Set<Seq<char>>) -> Seq<Seq<char>> {
    in_sequence(v.rules.dom().difference(current))
}

/// The state after new rules were tried, one after the other: each takes a number,
/// and is kept where it could be put in place.
pub open spec fn with_added(v: RefreshView, ips: Seq<Seq<char>>, done: Seq<bool>) -> RefreshView
    decreases ips.len(),
{
    if ips.len() == 0 {
        v
    } else {
        let w = with_added(v, ips.drop_last(), done);
        RefreshView {
            rules: if done[ips.len() - 1] {
                w.rules.insert(ips.last(), w.next_idx)
            } else {
                w.rules
            },
            next_idx: (w.next_idx + 1) as usize,
        }
    }
}

/// The state after rules were tried to be taken away: those that could are gone.
pub open spec fn with_dropped(v: RefreshView, ips: Seq<Seq<char>>, done: Seq<bool>) -> RefreshView
    decreases ips.len(),
{
    if ips.len() == 0 {
        v
    } else {
        let w = with_dropped(v, ips.drop_last(), done);
        RefreshView {
            rules: if done[ips.len() - 1] {
                w.rules.remove(ips.last())
            } else {
                w.rules
            },
            ..w
        }
    }
}

/// The steps of a round after which the addresses are those of a resolution. Where
/// they have rules of their own, the new rules go in before the stale ones go out; a
/// set is changed in one batch, and not at all where nothing changed.
pub open spec fn round(v: RefreshView, target: TargetView, current: Set<Seq<char>>) -> Seq<RefreshStepView> {
    let ins = added(v, current);
    let outs = dropped(v, current);
    match target {
        TargetView::Iptables { .. } => Seq::new(
            ins.len(),
            |i: int| put_step(ins[i], (v.next_idx + i) as usize),
        ) + Seq::new(outs.len(), |i: int| drop_step(outs[i], v.rules[outs[i]])),
        TargetView::NftSet { set } => if ins.len() == 0 && outs.len() == 0 {
            Seq::empty()
        } else {
            seq![RefreshStepView::Batch { set, adds: ins, drops: outs }]
        },
    }
}

/// The state after a round whose steps went as `done` says.
pub open spec fn settled(v: RefreshView, target: TargetView, current: Set<Seq<char>>, done: Seq<bool>) -> RefreshView {
    let ins = added(v, current);
    let outs = dropped(v, current);
    match target {
        TargetView::Iptables { .. } => with_dropped(
            with_added(v, ins, done.take(ins.len() as int)),
            outs,
            done.skip(ins.len() as int),
        ),
        TargetView::NftSet { .. } => if done.len() > 0 && done[0] {
            with_dropped(
                with_added(v, ins, Seq::new(ins.len(), |i: int| true)),
                outs,
                Seq::new(outs.len(), |i: int| true),
            )
        } else {
            v
        },
    }
}

/// The steps that take every address away that is in place.
pub open spec fn purge(rules: Map<Seq<char>, usize>, target: TargetView) -> Seq<RefreshStepView> {
    let all = in_sequence(rules.dom());
    match target {
        TargetView::Iptables { .. } => all.map_values(|ip: Seq<char>| drop_step(ip, rules[ip])),
        TargetView::NftSet { set } => if all.len() == 0 {
            Seq::empty()
        } else {
            seq![RefreshStepView::Batch { set, adds: Seq::empty(), drops: all }]
        },
    }
}

/// The steps that take every address away that is in place.
pub fn purge_steps(rules: &TextMap<usize>, target: &RefreshTarget) -> (r: Vec<RefreshStep>)
    ensures
        steps_view(r@) == purge(rules@, target@),
{
    let mut out: Vec<RefreshStep> = Vec::new();
    let n = rules.len();
    let ghost all = rules.keys();
    proof {
        lemma_in_sequence(rules.keys(), rules@.dom());
    }
    match target {
        RefreshTarget::NftSet { set } => {
            if n > 0 {
                let adds: Vec<String> = Vec::new();
                let drops = rules.key_list();
                assert(texts(adds@) =~= Seq::empty());
                assert(texts(drops@) =~= all);
                out.push(RefreshStep::Batch { set: set.clone(), adds, drops });
            }
        },
        RefreshTarget::Iptables { .. } => {
            let mut i: usize = 0;
            while i < n
                invariant
                    i <= n == all.len(),
                    all == rules.keys(),
                    out@.len() == i,
                    forall|k: int| 0 <= k < i ==> (#[trigger] out@[k])@ == drop_step(all[k], rules@[all[k]]),
                decreases n - i,
            {
                let rule = TapRule::Domain(rules.key_at(i).clone(), *rules.value_at(i));
                out.push(RefreshStep::Rule(TapOp::Delete(rule)));
                i = i + 1;
            }
        },
    }
    assert(steps_view(out@) =~= purge(rules@, target@));
    out
}

/// The steps that follow the end of a refresher: rules of their own are taken away;
/// a set is emptied by what its slot is used for next.
pub fn stop_steps(rules: &TextMap<usize>, target: &RefreshTarget) -> (r: Vec<RefreshStep>)
    ensures
        steps_view(r@) == if target@ is Iptables {
            purge(rules@, target@)
        } else {
            Seq::empty()
        },
{
    match target {
        RefreshTarget::Iptables { .. } => purge_steps(rules, target),
        RefreshTarget::NftSet { .. } => {
            let none: Vec<RefreshStep> = Vec::new();
            assert(steps_view(none@) =~= Seq::empty());
            none
        },
    }
}

impl DomainRefresher {
    /// A refresher of rules that are in place.
    pub fn new(rules: TextMap<usize>, next_idx: usize) -> (r: DomainRefresher)
        ensures
            r@ == (RefreshView { rules: rules@, next_idx }),
    {
        DomainRefresher { rules, next_idx }
    }

    /// The number of the rule of an address.
    pub fn index_of(&self, ip: &str) -> (r: Option<usize>)
        ensures
            match r {
                Some(i) => self@.rules.contains_key(ip@) && self@.rules[ip@] == i,
                None => !self@.rules.contains_key(ip@),
            },
    {
        match self.rules.get(ip) {
            Some(i) => Some(*i),
            None => None,
        }
    }

    /// The number that the next new rule takes.
    pub fn next_index(&self) -> (r: usize)
        ensures
            r == self@.next_idx,
    {
        self.next_idx
    }

    /// What a resolution adds and what it leaves out, each in ascending order.
    pub fn compare(&self, current: &TextSet) -> (r: (Vec<String>, Vec<String>))
        ensures
            texts(r.0@) == added(self@, current@),
            texts(r.1@) == dropped(self@, current@),
            ascending(texts(r.0@)),
            ascending(texts(r.1@)),
            forall|k: Seq<char>| #[trigger]
                texts(r.0@).contains(k) <==> current@.contains(k) && !self@.rules.contains_key(k),
            forall|k: Seq<char>| #[trigger]
                texts(r.1@).contains(k) <==> self@.rules.contains_key(k) && !current@.contains(k),
    {
        let keys = self.rules.key_list();
        let applied = set_of(&keys);
        let count = self.rules.len();
        assert(applied@ =~= self.rules@.dom()) by {
            assert forall|k: Seq<char>| applied@.contains(k) == self.rules@.dom().contains(k) by {
                assert(self.rules@.contains_key(k) <==> self.rules.keys().contains(k));
                assert(texts(keys@).contains(k) <==> applied@.contains(k));
            }
        }
        (difference(current, &applied), difference(&applied, current))
    }

    /// Notes which of the new rules could be put in place and which of the former
    /// ones could be taken away.
    pub fn settle(&mut self, adds: &Vec<String>, put: &Vec<bool>, drops: &Vec<String>, gone: &Vec<bool>)
        requires
            put@.len() == adds@.len(),
            gone@.len() == drops@.len(),
            old(self)@.next_idx + adds@.len() <= usize::MAX,
        ensures
            final(self)@ == with_dropped(
                with_added(old(self)@, texts(adds@), put@),
                texts(drops@),
                gone@,
            ),
    {
        let ghost start = self@;
        let ghost ins = texts(adds@);
        let ghost outs = texts(drops@);
        let mut i: usize = 0;
        assert(ins.take(0) =~= Seq::empty());
        while i < adds.len()
            invariant
                i <= adds@.len(),
                put@.len() == adds@.len(),
                ins == texts(adds@),
                start.next_idx + adds@.len() <= usize::MAX,
                self@ == with_added(start, ins.take(i as int), put@),
                self@.next_idx == start.next_idx + i,
            decreases adds@.len() - i,
        {
            assert(ins.take(i + 1).drop_last() =~= ins.take(i as int));
            assert(ins.take(i + 1).last() == adds@[i as int]@);
            if put[i] {
                self.rules.insert(adds[i].clone(), self.next_idx);
            }
            self.next_idx = self.next_idx + 1;
            i = i + 1;
        }
        assert(ins.take(i as int) =~= ins);
        let ghost mid = self@;
        let mut j: usize = 0;
        assert(outs.take(0) =~= Seq::empty());
        while j < drops.len()
            invariant
                j <= drops@.len(),
                gone@.len() == drops@.len(),
                outs == texts(drops@),
                self@ == with_dropped(mid, outs.take(j as int), gone@),
            decreases drops@.len() - j,
        {
            assert(outs.take(j + 1).drop_last() =~= outs.take(j as int));
            assert(outs.take(j + 1).last() == drops@[j as int]@);
            if gone[j] {
                self.rules.remove(drops[j].as_str());
            }
            j = j + 1;
        }
        assert(outs.take(j as int) =~= outs);
    }

    /// Whether there are numbers left for the rules that a resolution adds.
    pub fn has_numbers_for(&self, current: &TextSet) -> (r: bool)
        ensures
            r == (self@.next_idx + added(self@, current@).len() <= usize::MAX),
    {
        let (adds, _) = self.compare(current);
        assert(texts(adds@).len() == adds@.len());
        adds.len() <= usize::MAX - self.next_idx
    }

    /// The steps of a round of refreshing, in the order in which they are performed.
    pub fn round_steps(&self, target: &RefreshTarget, current: &TextSet) -> (r: Vec<RefreshStep>)
        requires
            self@.next_idx + added(self@, current@).len() <= usize::MAX,
        ensures
            steps_view(r@) == round(self@, target@, current@),
    {
        let (adds, drops) = self.compare(current);
        let ghost ins = texts(adds@);
        let ghost outs = texts(drops@);
        assert(ins.len() == adds@.len() && outs.len() == drops@.len());
        let mut out: Vec<RefreshStep> = Vec::new();
        match target {
            RefreshTarget::NftSet { set } => {
                if adds.len() > 0 || drops.len() > 0 {
                    out.push(RefreshStep::Batch { set: set.clone(), adds, drops });
                }
                assert(steps_view(out@) =~= round(self@, target@, current@));
            },
            RefreshTarget::Iptables { guest_cidr } => {
                let mut i: usize = 0;
                while i < adds.len()
                    invariant
                        i <= adds@.len(),
                        ins == texts(adds@),
                        self@.next_idx + adds@.len() <= usize::MAX,
                        out@.len() == i,
                        forall|k: int|
                            0 <= k < i ==> (#[trigger] out@[k])@ == put_step(ins[k], (self@.next_idx + k) as usize),
                    decreases adds@.len() - i,
                {
                    out.push(RefreshStep::Rule(add_step(self, adds[i].as_str(), i)));
                    i = i + 1;
                }
                let mut j: usize = 0;
                while j < drops.len()
                    invariant
                        j <= drops@.len(),
                        ins == texts(adds@),
                        outs == texts(drops@),
                        outs == dropped(self@, current@),
                        forall|k: Seq<char>| #[trigger]
                            outs.contains(k) <==> self@.rules.contains_key(k) && !current@.contains(k),
                        out@.len() == ins.len() + j,
                        forall|k: int|
                            0 <= k < ins.len() ==> (#[trigger] out@[k])@ == put_step(
                                ins[k],
                                (self@.next_idx + k) as usize,
                            ),
                        forall|k: int|
                            ins.len() <= k < ins.len() + j ==> (#[trigger] out@[k])@ == drop_step(
                                outs[k - ins.len()],
                                self@.rules[outs[k - ins.len()]],
                            ),
                    decreases drops@.len() - j,
                {
                    assert(outs[j as int] == drops@[j as int]@);
                    assert(outs.contains(outs[j as int]));
                    if let Some(index) = self.index_of(drops[j].as_str()) {
                        out.push(RefreshStep::Rule(TapOp::Delete(TapRule::Domain(drops[j].clone(), index))));
                    }
                    j = j + 1;
                }
                assert(steps_view(out@) =~= round(self@, target@, current@));
            },
        }
        out
    }

    /// Notes which steps of a round succeeded. A batch succeeds or fails as a whole:
    /// one that failed leaves the rules and their numbers as they were.
    pub fn settle_round(&mut self, target: &RefreshTarget, current: &TextSet, done: &Vec<bool>)
        requires
            old(self)@.next_idx + added(old(self)@, current@).len() <= usize::MAX,
            done@.len() == round(old(self)@, target@, current@).len(),
        ensures
            final(self)@ == settled(old(self)@, target@, current@, done@),
    {
        let ghost start = self@;
        let (adds, drops) = self.compare(current);
        let ghost ins = texts(adds@);
        let ghost outs = texts(drops@);
        assert(ins.len() == adds@.len() && outs.len() == drops@.len());
        let batch = match target {
            RefreshTarget::NftSet { .. } => true,
            RefreshTarget::Iptables { .. } => false,
        };
        if batch && (done.len() == 0 || !done[0]) {
            return ;
        }
        let mut put: Vec<bool> = Vec::new();
        let mut gone: Vec<bool> = Vec::new();
        let mut i: usize = 0;
        while i < adds.len()
            invariant
                i <= adds@.len(),
                put@.len() == i,
                !batch ==> done@.len() == adds@.len() + drops@.len(),
                forall|k: int| 0 <= k < i ==> #[trigger] put@[k] == (batch || done@[k]),
            decreases adds@.len() - i,
        {
            put.push(batch || done[i]);
            i = i + 1;
        }
        let mut j: usize = 0;
        while j < drops.len()
            invariant
                j <= drops@.len(),
                gone@.len() == j,
                adds.len() == adds@.len(),
                !batch ==> done@.len() == adds@.len() + drops@.len(),
                forall|k: int| 0 <= k < j ==> #[trigger] gone@[k] == (batch || done@[adds@.len() + k]),
            decreases drops@.len() - j,
        {
            let ok = if batch {
                true
            } else {
                let total: usize = done.len();
                assert(adds@.len() + j < total);
                done[adds.len() + j]
            };
            gone.push(ok);
            j = j + 1;
        }
        self.settle(&adds, &put, &drops, &gone);
        proof {
            if batch {
                assert(put@ =~= Seq::new(ins.len(), |k: int| true));
                assert(gone@ =~= Seq::new(outs.len(), |k: int| true));
            } else {
                assert(put@ =~= done@.take(ins.len() as int));
                assert(gone@ =~= done@.skip(ins.len() as int));
            }
        }
    }

    /// A resolution failed: no address stays allowed. Returns the rules that were
    /// in place.
    pub fn fail_closed(&mut self) -> (r: TextMap<usize>)
        ensures
            r@ == old(self)@.rules,
            final(self)@ == (RefreshView { rules: Map::empty(), ..old(self)@ }),
    {
        let mut taken: TextMap<usize> = TextMap::new();
        core::mem::swap(&mut self.rules, &mut taken);
        assert(self@.rules =~= Map::empty());
        taken
    }

    /// Ends the refresher. Returns the rules that are in place.
    pub fn stop(self) -> (r: TextMap<usize>)
        ensures
            r@ == self@.rules,
    {
        self.rules
    }
}

/// The step that puts an added address's rule in place: the `i`-th of a round
/// takes the `i`-th number from the next one on.
fn add_step(refresher: &DomainRefresher, ip: &str, i: usize) -> (r: TapOp)
    requires
        refresher@.next_idx + i <= usize::MAX,
    ensures
        r@ == OpView::Ensure(
            IptablesAction::Insert,
            RuleView::Domain(ip@, (refresher@.next_idx + i) as usize),
        ),
{
    TapOp::Ensure(IptablesAction::Insert, TapRule::Domain(ip.to_owned(), refresher.next_index() + i))
}

proof fn lemma_with_added_all(v: RefreshView, ips: Seq<Seq<char>>, done: Seq<bool>)
    requires
        done.len() >= ips.len(),
        forall|i: int| 0 <= i < ips.len() ==> done[i],
    ensures
        forall|k: Seq<char>| #[trigger]
            with_added(v, ips, done).rules.contains_key(k) <==> v.rules.contains_key(k) || ips.contains(k),
    decreases ips.len(),
{
    if ips.len() > 0 {
        let rest = ips.drop_last();
        lemma_with_added_all(v, rest, done);
        assert(ips[ips.len() - 1] == ips.last());
        assert forall|k: Seq<char>| #[trigger]
            with_added(v, ips, done).rules.contains_key(k) <==> v.rules.contains_key(k) || ips.contains(k) by {
            assert(done[ips.len() - 1]);
            assert(with_added(v, rest, done).rules.contains_key(k) <==> v.rules.contains_key(k) || rest.contains(k));
            if rest.contains(k) {
                let i = choose|i: int| 0 <= i < rest.len() && rest[i] == k;
                assert(ips[i] == k);
            }
            if ips.contains(k) && k != ips.last() {
                let i = choose|i: int| 0 <= i < ips.len() && ips[i] == k;
                assert(rest[i] == k);
            }
        }
    }
}

proof fn lemma_with_dropped_all(v: RefreshView, ips: Seq<Seq<char>>, done: Seq<bool>)
    requires
        done.len() >= ips.len(),
        forall|i: int| 0 <= i < ips.len() ==> done[i],
    ensures
        forall|k: Seq<char>| #[trigger]
            with_dropped(v, ips, done).rules.contains_key(k) <==> v.rules.contains_key(k) && !ips.contains(k),
    decreases ips.len(),
{
    if ips.len() > 0 {
        let rest = ips.drop_last();
        lemma_with_dropped_all(v, rest, done);
        assert(ips[ips.len() - 1] == ips.last());
        assert forall|k: Seq<char>| #[trigger]
            with_dropped(v, ips, done).rules.contains_key(k) <==> v.rules.contains_key(k) && !ips.contains(k) by {
            assert(done[ips.len() - 1]);
            assert(with_dropped(v, rest, done).rules.contains_key(k) <==> v.rules.contains_key(k) && !rest.contains(k));
            if rest.contains(k) {
                let i = choose|i: int| 0 <= i < rest.len() && rest[i] == k;
                assert(ips[i] == k);
            }
            if ips.contains(k) && k != ips.last() {
                let i = choose|i: int| 0 <= i < ips.len() && ips[i] == k;
                assert(rest[i] == k);
            }
        }
    }
}

/// A refresh whose steps all succeed leaves rules for exactly the addresses that
/// the domains resolve to now.
pub proof fn law_refresh_follows_resolution(
    v: RefreshView,
    current: Set<Seq<char>>,
    put: Seq<bool>,
    gone: Seq<bool>,
)
    requires
        v.rules.dom().finite(),
        current.finite(),
        put.len() == added(v, current).len(),
        gone.len() == dropped(v, current).len(),
        forall|i: int| 0 <= i < put.len() ==> put[i],
        forall|i: int| 0 <= i < gone.len() ==> gone[i],
    ensures
        with_dropped(with_added(v, added(v, current), put), dropped(v, current), gone).rules.dom() == current,
{
    let ins = added(v, current);
    let outs = dropped(v, current);
    crate::textmap::lemma_in_sequence_members(current.difference(v.rules.dom()));
    crate::textmap::lemma_in_sequence_members(v.rules.dom().difference(current));
    lemma_with_added_all(v, ins, put);
    let mid = with_added(v, ins, put);
    lemma_with_dropped_all(mid, outs, gone);
    let end = with_dropped(mid, outs, gone);
    assert forall|k: Seq<char>| end.rules.dom().contains(k) == current.contains(k) by {
        assert(end.rules.contains_key(k) <==> mid.rules.contains_key(k) && !outs.contains(k));
        assert(mid.rules.contains_key(k) <==> v.rules.contains_key(k) || ins.contains(k));
        assert(ins.contains(k) <==> current.difference(v.rules.dom()).contains(k));
        assert(outs.contains(k) <==> v.rules.dom().difference(current).contains(k));
    }
    assert(end.rules.dom() =~= current);
}

/// No stale rule goes out before every new one went in.
pub proof fn law_new_rules_come_first(v: RefreshView, target: TargetView, current: Set<Seq<char>>, i: int, j: int)
    requires
        0 <= i < j < round(v, target, current).len(),
        round(v, target, current)[i] matches RefreshStepView::Rule(OpView::Delete(_)),
    ensures
        round(v, target, current)[j] matches RefreshStepView::Rule(OpView::Delete(_)),
{
}

/// A round of a set is one batch at most, and one that failed changes nothing.
pub proof fn law_set_is_changed_as_a_whole(v: RefreshView, set: Seq<char>, current: Set<Seq<char>>)
    requires
        v.rules.dom().finite(),
        current.finite(),
    ensures
        ({
            let target = TargetView::NftSet { set };
            let steps = round(v, target, current);
            &&& steps.len() <= 1
            &&& steps.len() == 0 <==> v.rules.dom() == current
            &&& settled(v, target, current, seq![false]) == v
        }),
{
    let ins = added(v, current);
    let outs = dropped(v, current);
    crate::textmap::lemma_in_sequence_members(current.difference(v.rules.dom()));
    crate::textmap::lemma_in_sequence_members(v.rules.dom().difference(current));
    if ins.len() == 0 && outs.len() == 0 {
        assert forall|k: Seq<char>| v.rules.dom().contains(k) == current.contains(k) by {
            assert(!ins.contains(k) && !outs.contains(k));
            assert(ins.contains(k) <==> current.difference(v.rules.dom()).contains(k));
            assert(outs.contains(k) <==> v.rules.dom().difference(current).contains(k));
        }
        assert(v.rules.dom() =~= current);
    }
    if v.rules.dom() == current {
        if ins.len() > 0 {
            assert(ins.contains(ins[0]));
        }
        if outs.len() > 0 {
            assert(outs.contains(outs[0]));
        }
    }
}

/// A round whose steps all succeed leaves exactly the addresses that the domains
/// resolve to now, whatever they are applied in.
pub proof fn law_round_follows_resolution(
    v: RefreshView,
    target: TargetView,
    current: Set<Seq<char>>,
    done: Seq<bool>,
)
    requires
        v.rules.dom().finite(),
        current.finite(),
        done.len() == round(v, target, current).len(),
        forall|i: int| 0 <= i < done.len() ==> done[i],
    ensures
        settled(v, target, current, done).rules.dom() == current,
{
    let ins = added(v, current);
    let outs = dropped(v, current);
    match target {
        TargetView::Iptables { .. } => {
            law_refresh_follows_resolution(v, current, done.take(ins.len() as int), done.skip(ins.len() as int));
        },
        TargetView::NftSet { set } => {
            law_set_is_changed_as_a_whole(v, set, current);
            if done.len() > 0 {
                law_refresh_follows_resolution(
                    v,
                    current,
                    Seq::new(ins.len(), |i: int| true),
                    Seq::new(outs.len(), |i: int| true),
                );
            }
        },
    }
}

/// Whether the rules have different numbers, all below the next one.
pub open spec fn well_numbered(v: RefreshView) -> bool {
    &&& forall|k: Seq<char>| #[trigger] v.rules.contains_key(k) ==> v.rules[k] < v.next_idx
    &&& forall|k: Seq<char>, l: Seq<char>|
        #![trigger v.rules.contains_key(k), v.rules.contains_key(l)]
        v.rules.contains_key(k) && v.rules.contains_key(l) && k != l ==> v.rules[k] != v.rules[l]
}

/// No two rules ever have the same number.
pub proof fn law_numbers_stay_distinct(
    v: RefreshView,
    ins: Seq<Seq<char>>,
    put: Seq<bool>,
    outs: Seq<Seq<char>>,
    gone: Seq<bool>,
)
    requires
        well_numbered(v),
        v.next_idx + ins.len() <= usize::MAX,
    ensures
        well_numbered(with_dropped(with_added(v, ins, put), outs, gone)),
{
    lemma_added_numbers(v, ins, put);
    lemma_dropped_numbers(with_added(v, ins, put), outs, gone);
}

proof fn lemma_added_numbers(v: RefreshView, ins: Seq<Seq<char>>, put: Seq<bool>)
    requires
        well_numbered(v),
        v.next_idx + ins.len() <= usize::MAX,
    ensures
        well_numbered(with_added(v, ins, put)),
        with_added(v, ins, put).next_idx == v.next_idx + ins.len(),
    decreases ins.len(),
{
    if ins.len() > 0 {
        lemma_added_numbers(v, ins.drop_last(), put);
        let w = with_added(v, ins.drop_last(), put);
        let x = with_added(v, ins, put);
        assert forall|k: Seq<char>, l: Seq<char>|
            #![trigger x.rules.contains_key(k), x.rules.contains_key(l)]
            x.rules.contains_key(k) && x.rules.contains_key(l) && k != l implies x.rules[k] != x.rules[l] by {
            if k != ins.last() {
                assert(w.rules.contains_key(k));
            }
            if l != ins.last() {
                assert(w.rules.contains_key(l));
            }
            if k == ins.last() || l == ins.last() {
                if !put[ins.len() - 1] {
                    assert(w.rules.contains_key(k) && w.rules.contains_key(l));
                }
            }
        }
        assert forall|k: Seq<char>| #[trigger] x.rules.contains_key(k) implies x.rules[k] < x.next_idx by {
            if k != ins.last() || !put[ins.len() - 1] {
                assert(w.rules.contains_key(k));
            }
        }
    }
}

proof fn lemma_dropped_numbers(v: RefreshView, outs: Seq<Seq<char>>, gone: Seq<bool>)
    requires
        well_numbered(v),
    ensures
        well_numbered(with_dropped(v, outs, gone)),
    decreases outs.len(),
{
    if outs.len() > 0 {
        lemma_dropped_numbers(v, outs.drop_last(), gone);
        let w = with_dropped(v, outs.drop_last(), gone);
        let x = with_dropped(v, outs, gone);
        assert forall|k: Seq<char>, l: Seq<char>|
            #![trigger x.rules.contains_key(k), x.rules.contains_key(l)]
            x.rules.contains_key(k) && x.rules.contains_key(l) && k != l implies x.rules[k] != x.rules[l] by {
            assert(w.rules.contains_key(k) && w.rules.contains_key(l));
        }
        assert forall|k: Seq<char>| #[trigger] x.rules.contains_key(k) implies x.rules[k] < x.next_idx by {
            assert(w.rules.contains_key(k));
        }
    }
}

/// A round puts a rule in place for each address that is new, lets it in before all
/// other rules, and takes away that of each address which is not resolved any more; no
/// other rule is touched.
pub proof fn law_round_touches_what_changed(
    v: RefreshView,
    guest_cidr: Seq<char>,
    current: Set<Seq<char>>,
    ip: Seq<char>,
    k: int,
)
    requires
        v.rules.dom().finite(),
        current.finite(),
    ensures
        ({
            let steps = round(v, TargetView::Iptables { guest_cidr }, current);
            &&& v.rules.contains_key(ip) && !current.contains(ip) ==> steps.contains(
                RefreshStepView::Rule(OpView::Delete(RuleView::Domain(ip, v.rules[ip]))),
            )
            &&& current.contains(ip) && !v.rules.contains_key(ip) ==> exists|i: int|
                0 <= i < steps.len() && (#[trigger] steps[i] matches RefreshStepView::Rule(
                    OpView::Ensure(action, RuleView::Domain(x, _)),
                ) && action == IptablesAction::Insert && x == ip)
            &&& 0 <= k < steps.len() ==> match steps[k] {
                RefreshStepView::Rule(OpView::Ensure(action, RuleView::Domain(x, _))) => action
                    == IptablesAction::Insert && current.contains(x) && !v.rules.contains_key(x),
                RefreshStepView::Rule(OpView::Delete(RuleView::Domain(x, index))) => v.rules.contains_key(x)
                    && v.rules[x] == index && !current.contains(x),
                _ => false,
            }
        }),
{
    let ins = added(v, current);
    let outs = dropped(v, current);
    crate::textmap::lemma_in_sequence_members(current.difference(v.rules.dom()));
    crate::textmap::lemma_in_sequence_members(v.rules.dom().difference(current));
    let steps = round(v, TargetView::Iptables { guest_cidr }, current);
    if v.rules.contains_key(ip) && !current.contains(ip) {
        assert(outs.contains(ip));
        let j = choose|j: int| 0 <= j < outs.len() && outs[j] == ip;
        assert(steps[ins.len() + j] == drop_step(ip, v.rules[ip]));
    }
    if current.contains(ip) && !v.rules.contains_key(ip) {
        assert(ins.contains(ip));
        let j = choose|j: int| 0 <= j < ins.len() && ins[j] == ip;
        let index = (v.next_idx + j) as usize;
        assert(steps[j] == put_step(ip, index));
        assert(steps[j] == RefreshStepView::Rule(
            OpView::Ensure(IptablesAction::Insert, RuleView::Domain(ip, index)),
        ));
    }
    if 0 <= k < steps.len() {
        if k < ins.len() {
            assert(steps[k] == put_step(ins[k], (v.next_idx + k) as usize));
            assert(ins.contains(ins[k]));
        } else {
            let j = k - ins.len();
            assert(steps[k] == drop_step(outs[j], v.rules[outs[j]]));
            assert(outs.contains(outs[j]));
        }
    }
}

/// Each address has one number, and no two have the same.
pub proof fn law_addresses_are_numbered_apart(ips: Seq<Seq<char>>, a: Seq<char>, b: Seq<char>)
    requires
        ips.len() <= usize::MAX,
    ensures
        ({
            let n = numbering(ips);
            &&& n.contains_key(a) <==> ips.contains(a)
            &&& n.contains_key(a) ==> n[a] < n.dom().len()
            &&& n.contains_key(a) && n.contains_key(b) && a != b ==> n[a] != n[b]
            &&& n.dom().finite()
            &&& n.dom().len() <= ips.len()
        }),
    decreases ips.len(),
{
    if ips.len() > 0 {
        let rest = ips.drop_last();
        let last = ips.last();
        law_addresses_are_numbered_apart(rest, a, b);
        law_addresses_are_numbered_apart(rest, b, a);
        law_addresses_are_numbered_apart(rest, last, a);
        assert(ips =~= rest.push(last));
        assert(ips.contains(a) <==> rest.contains(a) || a == last) by {
            if rest.contains(a) {
                let i = choose|i: int| 0 <= i < rest.len() && rest[i] == a;
                assert(ips[i] == a);
            }
            if ips.contains(a) {
                let i = choose|i: int| 0 <= i < ips.len() && ips[i] == a;
                if i < rest.len() {
                    assert(rest[i] == a);
                }
            }
            assert(ips[ips.len() - 1] == last);
        }
        if !numbering(rest).contains_key(last) {
            assert(numbering(ips).dom() =~= numbering(rest).dom().insert(last));
        }
    }
}

} // verus!
