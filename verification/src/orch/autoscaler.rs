//! The autoscaler: how many workers there should be, and which of them are
//! drained. Times are nanoseconds on one clock.
use crate::decimal::{decimal, render_u64};
use crate::net::rules::{join_spaced, spaced};
use crate::orch::keys::{drain as drain_key_of, drain_key};
use crate::orch::table::{age, beats_view};
use crate::orch::{HeartbeatView, WorkerHeartbeat};
use crate::text::{lists_text, opt_text, texts};
use crate::textmap::{sort_texts, sorted, text_before, text_lt};
use vstd::prelude::*;

verus! {

/// A share of a whole: `num` parts out of `den`.
#[derive(Clone, Copy, Debug, PartialEq, Eq, Structural)]
pub struct Ratio {
    pub num: u64,
    pub den: u64,
}

/// What the autoscaler aims at. `max` zero turns it off; the target is the share of
/// the memory of all live workers that is to be in use.
#[derive(Debug)]
pub struct AutoscalerOptions {
    pub min: u64,
    pub max: u64,
    pub target_util: Ratio,
    pub interval: u64,
    pub cooldown_up: u64,
    pub cooldown_down: u64,
    pub drain_ttl: u64,
    pub scale_up_cmd: Option<String>,
    pub scale_down_cmd: Option<String>,
}

pub ghost struct OptionsView {
    pub min: u64,
    pub max: u64,
    pub target_util: Ratio,
    pub interval: u64,
    pub cooldown_up: u64,
    pub cooldown_down: u64,
    pub drain_ttl: u64,
    pub scale_up_cmd: Option<Seq<char>>,
    pub scale_down_cmd: Option<Seq<char>>,
}

impl View for AutoscalerOptions {
    type V = OptionsView;

    open spec fn view(&self) -> OptionsView {
        OptionsView {
            min: self.min,
            max: self.max,
            target_util: self.target_util,
            interval: self.interval,
            cooldown_up: self.cooldown_up,
            cooldown_down: self.cooldown_down,
            drain_ttl: self.drain_ttl,
            scale_up_cmd: opt_text(self.scale_up_cmd),
            scale_down_cmd: opt_text(self.scale_down_cmd),
        }
    }
}

impl Default for AutoscalerOptions {
    fn default() -> (r: AutoscalerOptions)
        ensures
            r@ == (OptionsView {
                min: 0,
                max: 0,
                target_util: Ratio { num: 7, den: 10 },
                interval: 15_000_000_000,
                cooldown_up: 30_000_000_000,
                cooldown_down: 300_000_000_000,
                drain_ttl: 900_000_000_000,
                scale_up_cmd: None,
                scale_down_cmd: None,
            }),
    {
        AutoscalerOptions {
            min: 0,
            max: 0,
            target_util: Ratio { num: 7, den: 10 },
            interval: 15_000_000_000,
            cooldown_up: 30_000_000_000,
            cooldown_down: 300_000_000_000,
            drain_ttl: 900_000_000_000,
            scale_up_cmd: None,
            scale_down_cmd: None,
        }
    }
}

/// What is to be done.
#[derive(Debug)]
pub enum Plan {
    Hold,
    Up { desired: u64, delta: u64 },
    Down { desired: u64, drain: Vec<String> },
}

pub ghost enum PlanView {
    Hold,
    Up { desired: u64, delta: u64 },
    Down { desired: u64, drain: Seq<Seq<char>> },
}

impl View for Plan {
    type V = PlanView;

    open spec fn view(&self) -> PlanView {
        match *self {
            Plan::Hold => PlanView::Hold,
            Plan::Up { desired, delta } => PlanView::Up { desired, delta },
            Plan::Down { desired, drain } => PlanView::Down { desired, drain: texts(drain@) },
        }
    }
}

pub open spec fn lesser(a: int, b: int) -> int {
    if a < b {
        a
    } else {
        b
    }
}

pub open spec fn greater(a: int, b: int) -> int {
    if a > b {
        a
    } else {
        b
    }
}

/// The target; the default where it is not above nothing and at most the whole.
pub open spec fn target_of(target: Ratio) -> Ratio {
    if 0 < target.num <= target.den {
        target
    } else {
        Ratio { num: 7, den: 10 }
    }
}

/// A quotient, rounded up.
pub open spec fn quotient_up(p: int, q: int) -> int {
    (p + q - 1) / q
}

/// The smallest number of workers of the same size that brings the use of memory
/// back to the target.
pub open spec fn needed(live: int, used: int, caps: int, target: Ratio) -> int {
    quotient_up(live * used * target.den, caps * target.num)
}

/// How many workers there should be. Without live workers or memory nothing is
/// known, and at least one is wanted.
pub open spec fn desired(live: int, used: int, caps: int, o: OptionsView) -> int {
    let max = greater(o.max as int, 1);
    if live == 0 || caps == 0 {
        lesser(greater(o.min as int, 1), max)
    } else {
        let wanted = lesser(needed(live, used, caps, target_of(o.target_util)), max);
        greater(wanted, lesser(o.min as int, max))
    }
}

proof fn lemma_quotient_up(p: int, q: int, a: int, b: int)
    requires
        q > 0,
        p == a * q + b,
        0 <= b < q,
    ensures
        quotient_up(p, q) == if b > 0 {
            a + 1
        } else {
            a
        },
{
    if b > 0 {
        assert(p + q - 1 == (a + 1) * q + (b - 1)) by (nonlinear_arith)
            requires
                p == a * q + b,
        ;
        vstd::arithmetic::div_mod::lemma_fundamental_div_mod_converse(p + q - 1, q, a + 1, b - 1);
    } else {
        vstd::arithmetic::div_mod::lemma_fundamental_div_mod_converse(p + q - 1, q, a, q - 1);
    }
}

proof fn lemma_quotient_up_reaches(p: int, q: int, bound: int)
    requires
        q > 0,
        p >= bound * q,
    ensures
        quotient_up(p, q) >= bound,
{
    vstd::arithmetic::div_mod::lemma_div_is_ordered(bound * q, p + q - 1, q);
    vstd::arithmetic::div_mod::lemma_div_multiples_vanish(bound, q);
    assert(bound * q == q * bound) by (nonlinear_arith);
}

/// The quotient and the remainder of `p * d` by `q`, where the quotient is below
/// `bound`.
fn scaled_quotient(p: u128, q: u128, d: u64, bound: u64) -> (r: Option<(u128, u128)>)
    requires
        q > 0,
        bound > 0,
    ensures
        match r {
            Some((a, b)) => p * d == a * q + b && b < q && a < bound,
            None => p * d >= bound * q,
        },
    decreases d,
{
    if d == 0 {
        assert(p * d == 0 * q + 0) by (nonlinear_arith)
            requires
                d == 0,
        ;
        return Some((0, 0));
    }
    let whole: u128 = p / q;
    let rest: u128 = p % q;
    assert(p == whole * q + rest) by {
        vstd::arithmetic::div_mod::lemma_fundamental_div_mod(p as int, q as int);
        assert(q * whole == whole * q) by (nonlinear_arith);
    }
    if whole >= bound as u128 {
        assert(p * d >= bound * q) by (nonlinear_arith)
            requires
                p == whole * q + rest,
                rest >= 0,
                q > 0,
                whole >= bound,
                d >= 1,
                bound >= 0,
        ;
        return None;
    }
    let half: u64 = d / 2;
    let odd: u64 = d % 2;
    match scaled_quotient(p, q, half, bound) {
        None => {
            assert(p * d >= bound * q) by (nonlinear_arith)
                requires
                    p * half >= bound * q,
                    d >= half,
                    p >= 0,
            ;
            None
        },
        Some((a, b)) => {
            let (mut x, mut y): (u128, u128) = if b >= q - b {
                (a + a + 1, b - (q - b))
            } else {
                (a + a, b + b)
            };
            assert(p * (2 * half) == x * q + y) by (nonlinear_arith)
                requires
                    p * half == a * q + b,
                    (x == a + a + 1 && y == b - (q - b)) || (x == a + a && y == b + b),
            ;
            let ghost even = x;
            let ghost low = y;
            if odd == 1 {
                if y >= q - rest {
                    x = x + whole + 1;
                    y = y - (q - rest);
                } else {
                    x = x + whole;
                    y = y + rest;
                }
            }
            assert(p * d == x * q + y) by (nonlinear_arith)
                requires
                    p * (2 * half) == even * q + low,
                    p == whole * q + rest,
                    d == 2 * half + odd,
                    (odd == 0 && x == even && y == low) || (odd == 1 && x == even + whole + 1 && y == low - (q - rest))
                        || (odd == 1 && x == even + whole && y == low + rest),
            ;
            if x < bound as u128 {
                Some((x, y))
            } else {
                assert(p * d >= bound * q) by (nonlinear_arith)
                    requires
                        p * d == x * q + y,
                        x >= bound,
                        q > 0,
                        y >= 0,
                ;
                None
            }
        },
    }
}

/// How many workers there should be.
pub fn desired_workers(live: usize, used_mem_mib: u64, caps_mem_mib: u64, options: &AutoscalerOptions) -> (r: u64)
    ensures
        r == desired(live as int, used_mem_mib as int, caps_mem_mib as int, options@),
{
    let max: u64 = if options.max > 1 {
        options.max
    } else {
        1
    };
    if live == 0 || caps_mem_mib == 0 {
        let floor: u64 = if options.min > 1 {
            options.min
        } else {
            1
        };
        return if floor < max {
            floor
        } else {
            max
        };
    }
    let target = if options.target_util.num > 0 && options.target_util.num <= options.target_util.den {
        options.target_util
    } else {
        Ratio { num: 7, den: 10 }
    };
    assert(0 <= live * used_mem_mib <= 0xffff_ffff_ffff_ffff * 0xffff_ffff_ffff_ffff) by (nonlinear_arith)
        requires
            0 <= live <= 0xffff_ffff_ffff_ffff,
            0 <= used_mem_mib <= 0xffff_ffff_ffff_ffff,
    ;
    let num: u64 = target.num;
    assert(0 < caps_mem_mib * num <= 0xffff_ffff_ffff_ffff * 0xffff_ffff_ffff_ffff) by (nonlinear_arith)
        requires
            0 < caps_mem_mib <= 0xffff_ffff_ffff_ffff,
            0 < num <= 0xffff_ffff_ffff_ffff,
    ;
    let p: u128 = live as u128 * used_mem_mib as u128;
    let q: u128 = caps_mem_mib as u128 * num as u128;
    let wanted: u64 = match scaled_quotient(p, q, target.den, max) {
        Some((a, b)) => {
            proof {
                lemma_quotient_up(p * target.den, q as int, a as int, b as int);
            }
            if b > 0 {
                a as u64 + 1
            } else {
                a as u64
            }
        },
        None => {
            proof {
                lemma_quotient_up_reaches(p * target.den, q as int, max as int);
            }
            max
        },
    };
    let floor: u64 = if options.min < max {
        options.min
    } else {
        max
    };
    if wanted > floor {
        wanted
    } else {
        floor
    }
}

/// Whether the time since a decision is over.
pub open spec fn is_cooled(last: Option<u64>, cooldown: u64, now: u64) -> bool {
    match last {
        None => true,
        Some(at) => age(at, now) >= cooldown,
    }
}

fn cooled(last: Option<u64>, cooldown: u64, now: u64) -> (r: bool)
    ensures
        r == is_cooled(last, cooldown, now),
{
    match last {
        None => true,
        Some(at) => if now >= at {
            now - at >= cooldown
        } else {
            cooldown == 0
        },
    }
}

/// Whether a worker is drained before another: the one with fewer sandboxes, at
/// equal numbers the one whose name comes first.
pub open spec fn drains_before(a: (u64, Seq<char>), b: (u64, Seq<char>)) -> bool {
    a.0 < b.0 || a.0 == b.0 && text_before(a.1, b.1)
}

/// A list in the order of draining, with one more worker.
pub open spec fn placed_in(list: Seq<(u64, Seq<char>)>, x: (u64, Seq<char>)) -> Seq<(u64, Seq<char>)>
    decreases list.len(),
{
    if list.len() > 0 && drains_before(x, list.last()) {
        placed_in(list.drop_last(), x).push(list.last())
    } else {
        list.push(x)
    }
}

/// The workers in the order of draining.
pub open spec fn drain_order(workers: Seq<HeartbeatView>) -> Seq<(u64, Seq<char>)>
    decreases workers.len(),
{
    if workers.len() == 0 {
        Seq::empty()
    } else {
        placed_in(drain_order(workers.drop_last()), (workers.last().running, workers.last().wid))
    }
}

/// The names of the first `count` workers in the order of draining.
pub open spec fn victims(workers: Seq<HeartbeatView>, count: int) -> Seq<Seq<char>> {
    let order = drain_order(workers);
    let n = lesser(count, order.len() as int);
    Seq::new(n as nat, |i: int| order[i].1)
}

proof fn lemma_placed_in(list: Seq<(u64, Seq<char>)>, x: (u64, Seq<char>), at: int)
    requires
        0 <= at <= list.len(),
        forall|j: int| at <= j < list.len() ==> drains_before(x, #[trigger] list[j]),
        at > 0 ==> !drains_before(x, list[at - 1]),
    ensures
        placed_in(list, x) == list.insert(at, x),
    decreases list.len(),
{
    if at == list.len() {
        assert(list.insert(at, x) =~= list.push(x));
    } else {
        assert(drains_before(x, list[list.len() - 1]));
        lemma_placed_in(list.drop_last(), x, at);
        assert(list.drop_last().insert(at, x).push(list.last()) =~= list.insert(at, x));
    }
}

pub open spec fn pairs_view(v: Seq<(u64, String)>) -> Seq<(u64, Seq<char>)> {
    v.map_values(|p: (u64, String)| (p.0, p.1@))
}

pub open spec fn chosen_view(v: Seq<&WorkerHeartbeat>) -> Seq<HeartbeatView> {
    v.map_values(|h: &WorkerHeartbeat| h@)
}

/// The names of the first `count` workers in the order of draining.
pub fn pick_drain(workers: &Vec<&WorkerHeartbeat>, count: u64) -> (r: Vec<String>)
    ensures
        texts(r@) == victims(chosen_view(workers@), count as int),
{
    let ghost all = chosen_view(workers@);
    let mut order: Vec<(u64, String)> = Vec::new();
    let mut i: usize = 0;
    assert(all.take(0) =~= Seq::empty());
    assert(pairs_view(order@) =~= Seq::empty());
    while i < workers.len()
        invariant
            i <= workers@.len(),
            all == chosen_view(workers@),
            pairs_view(order@) == drain_order(all.take(i as int)),
        decreases workers@.len() - i,
    {
        let ghost list = pairs_view(order@);
        assert(all.take(i + 1).drop_last() =~= all.take(i as int));
        assert(all.take(i + 1).last() == workers@[i as int]@);
        let running = workers[i].running;
        let wid = workers[i].wid.clone();
        let ghost x = (running, wid@);
        let mut at: usize = order.len();
        while at > 0 && (running < order[at - 1].0 || (running == order[at - 1].0 && text_lt(
            wid.as_str(),
            order[at - 1].1.as_str(),
        )))
            invariant
                at <= order@.len(),
                list == pairs_view(order@),
                x == (running, wid@),
                forall|j: int| at <= j < list.len() ==> drains_before(x, #[trigger] list[j]),
            decreases at,
        {
            assert(list[at - 1] == (order@[at - 1].0, order@[at - 1].1@));
            at = at - 1;
        }
        proof {
            if at > 0 {
                assert(list[at - 1] == (order@[at - 1].0, order@[at - 1].1@));
            }
            lemma_placed_in(list, x, at as int);
        }
        order.insert(at, (running, wid));
        assert(pairs_view(order@) =~= list.insert(at as int, x));
        i = i + 1;
    }
    assert(all.take(i as int) =~= all);
    let ghost full = drain_order(all);
    let mut out: Vec<String> = Vec::new();
    let mut k: usize = 0;
    assert(order@.len() == full.len());
    while k < order.len() && (k as u64) < count
        invariant
            k <= order@.len(),
            k <= count,
            order@.len() == full.len(),
            full == pairs_view(order@),
            out@.len() == k,
            forall|j: int| 0 <= j < k ==> (#[trigger] out@[j])@ == full[j].1,
        decreases order@.len() - k,
    {
        assert(full[k as int] == (order@[k as int].0, order@[k as int].1@));
        out.push(order[k].1.clone());
        k = k + 1;
    }
    assert(texts(out@) =~= victims(all, count as int));
    out
}

/// The workers that are being drained, or those that are not.
pub open spec fn workers_in(workers: Seq<HeartbeatView>, draining: bool) -> Seq<HeartbeatView>
    decreases workers.len(),
{
    if workers.len() == 0 {
        Seq::empty()
    } else {
        let rest = workers_in(workers.drop_last(), draining);
        if workers.last().draining == draining {
            rest.push(workers.last())
        } else {
            rest
        }
    }
}

fn choose_workers(workers: &Vec<WorkerHeartbeat>, draining: bool) -> (r: Vec<&WorkerHeartbeat>)
    ensures
        chosen_view(r@) == workers_in(beats_view(workers@), draining),
{
    let ghost all = beats_view(workers@);
    let mut out: Vec<&WorkerHeartbeat> = Vec::new();
    let mut i: usize = 0;
    assert(all.take(0) =~= Seq::empty());
    assert(chosen_view(out@) =~= Seq::empty());
    while i < workers.len()
        invariant
            i <= workers@.len(),
            all == beats_view(workers@),
            chosen_view(out@) == workers_in(all.take(i as int), draining),
        decreases workers@.len() - i,
    {
        assert(all.take(i + 1).drop_last() =~= all.take(i as int));
        assert(all.take(i + 1).last() == workers@[i as int]@);
        if workers[i].draining == draining {
            let ghost before = chosen_view(out@);
            out.push(&workers[i]);
            assert(chosen_view(out@) =~= before.push(workers@[i as int]@));
        }
        i = i + 1;
    }
    assert(all.take(i as int) =~= all);
    out
}

/// The names of the workers to drain when `count` are too many: those that are
/// being drained come first and have their time extended, before any other is
/// asked to go.
pub open spec fn drained(workers: Seq<HeartbeatView>, count: int) -> Seq<Seq<char>> {
    let again = victims(workers_in(workers, true), count);
    again + victims(workers_in(workers, false), count - again.len())
}

fn drain_for(workers: &Vec<WorkerHeartbeat>, count: u64) -> (r: Vec<String>)
    ensures
        texts(r@) == drained(beats_view(workers@), count as int),
{
    let mut out = pick_drain(&choose_workers(workers, true), count);
    let ghost again = texts(out@);
    assert(again.len() == out@.len());
    assert(again.len() == victims(workers_in(beats_view(workers@), true), count as int).len());
    let more = pick_drain(&choose_workers(workers, false), count - out.len() as u64);
    let mut i: usize = 0;
    assert(again + texts(more@).take(0) =~= again);
    while i < more.len()
        invariant
            i <= more@.len(),
            texts(out@) == again + texts(more@).take(i as int),
        decreases more@.len() - i,
    {
        let ghost before = texts(out@);
        out.push(more[i].clone());
        assert(texts(out@) =~= before.push(more@[i as int]@));
        assert(before.push(more@[i as int]@) =~= again + texts(more@).take(i + 1));
        i = i + 1;
    }
    assert(texts(more@).take(i as int) =~= texts(more@));
    out
}

/// The memory that workers have handed out, and what they have.
pub open spec fn totals(workers: Seq<HeartbeatView>) -> (int, int)
    decreases workers.len(),
{
    if workers.len() == 0 {
        (0, 0)
    } else {
        let (used, caps) = totals(workers.drop_last());
        (used + workers.last().used.mem_mib, caps + workers.last().caps.mem_mib)
    }
}

proof fn lemma_totals_grow(workers: Seq<HeartbeatView>, n: int)
    requires
        0 <= n <= workers.len(),
    ensures
        0 <= totals(workers.take(n)).0 <= totals(workers).0,
        0 <= totals(workers.take(n)).1 <= totals(workers).1,
    decreases workers.len(),
{
    if workers.len() > 0 {
        if n == workers.len() {
            assert(workers.take(n) =~= workers);
            lemma_totals_grow(workers.drop_last(), n - 1);
        } else {
            assert(workers.drop_last().take(n) =~= workers.take(n));
            lemma_totals_grow(workers.drop_last(), n);
        }
    }
}

/// The memory that workers have handed out and what they have, where both can be
/// told.
pub fn fleet_totals(workers: &Vec<WorkerHeartbeat>) -> (r: Option<(u64, u64)>)
    ensures
        match r {
            Some((used, caps)) => totals(beats_view(workers@)) == (used as int, caps as int),
            None => totals(beats_view(workers@)).0 > u64::MAX || totals(beats_view(workers@)).1 > u64::MAX,
        },
{
    let ghost all = beats_view(workers@);
    let mut used: u64 = 0;
    let mut caps: u64 = 0;
    let mut i: usize = 0;
    assert(all.take(0) =~= Seq::empty());
    while i < workers.len()
        invariant
            i <= workers@.len(),
            all == beats_view(workers@),
            totals(all.take(i as int)) == (used as int, caps as int),
        decreases workers@.len() - i,
    {
        assert(all.take(i + 1).drop_last() =~= all.take(i as int));
        assert(all.take(i + 1).last() == workers@[i as int]@);
        proof {
            lemma_totals_grow(all, i + 1);
        }
        if used > u64::MAX - workers[i].used.mem_mib || caps > u64::MAX - workers[i].caps.mem_mib {
            return None;
        }
        used = used + workers[i].used.mem_mib;
        caps = caps + workers[i].caps.mem_mib;
        i = i + 1;
    }
    assert(all.take(i as int) =~= all);
    Some((used, caps))
}

/// When the autoscaler last decided in each direction.
pub ghost struct ScalerView {
    pub options: OptionsView,
    pub last_up: Option<u64>,
    pub last_down: Option<u64>,
}

/// The autoscaler.
pub struct Autoscaler {
    options: AutoscalerOptions,
    last_up: Option<u64>,
    last_down: Option<u64>,
}

impl View for Autoscaler {
    type V = ScalerView;

    closed spec fn view(&self) -> ScalerView {
        ScalerView { options: self.options@, last_up: self.last_up, last_down: self.last_down }
    }
}

/// What is to be done for the live workers at a time.
pub open spec fn plan_for(v: ScalerView, workers: Seq<HeartbeatView>, now: u64) -> PlanView {
    let live = workers.len() as int;
    let (used, caps) = totals(workers);
    let want = desired(live, used, caps, v.options);
    if v.options.max == 0 {
        PlanView::Hold
    } else if want > live && is_cooled(v.last_up, v.options.cooldown_up, now) {
        PlanView::Up { desired: want as u64, delta: (want - live) as u64 }
    } else if want < live && is_cooled(v.last_down, v.options.cooldown_down, now) {
        PlanView::Down { desired: want as u64, drain: drained(workers, live - want) }
    } else {
        PlanView::Hold
    }
}

/// Whether a worker that is drained, or is to be, has no sandboxes left.
pub open spec fn is_idle(h: HeartbeatView, drain: Seq<Seq<char>>) -> bool {
    h.running == 0 && (h.draining || drain.contains(h.wid))
}

/// The names of the workers that can be stopped at once.
pub open spec fn idle_names(workers: Seq<HeartbeatView>, drain: Seq<Seq<char>>) -> Seq<Seq<char>>
    decreases workers.len(),
{
    if workers.len() == 0 {
        Seq::empty()
    } else {
        let rest = idle_names(workers.drop_last(), drain);
        if is_idle(workers.last(), drain) {
            rest.push(workers.last().wid)
        } else {
            rest
        }
    }
}

/// What a scaling hook is told in its environment.
pub struct Hook {
    pub cmd: String,
    pub desired: String,
    pub delta: String,
    pub live: String,
    pub drain_wids: Option<String>,
    pub idle_wids: Option<String>,
}

/// What one round of the autoscaler does: the drain keys it sets, for how long,
/// and the hook it runs, where there is one.
pub struct Tick {
    pub plan: Plan,
    pub drain_keys: Vec<String>,
    pub drain_ttl_ms: u64,
    pub hook: Option<Hook>,
}

/// How long drain keys last, in milliseconds.
pub open spec fn ttl_ms(drain_ttl: u64) -> u64 {
    greater(drain_ttl as int / 1000000, 1) as u64
}

/// The autoscaler after a round.
pub open spec fn latched(v: ScalerView, plan: PlanView, now: u64) -> ScalerView {
    match plan {
        PlanView::Hold => v,
        PlanView::Up { desired, delta } => ScalerView { last_up: Some(now), ..v },
        PlanView::Down { desired, drain } => ScalerView { last_down: Some(now), ..v },
    }
}

/// Whether a hook is told what a plan says.
pub open spec fn hook_says(hook: Option<Hook>, v: ScalerView, plan: PlanView, workers: Seq<HeartbeatView>) -> bool {
    match plan {
        PlanView::Hold => hook is None,
        PlanView::Up { desired, delta } => match v.options.scale_up_cmd {
            None => hook is None,
            Some(cmd) => hook matches Some(h) && h.cmd@ == cmd && h.desired@ == decimal(desired as nat) && h.delta@
                == decimal(delta as nat) && h.live@ == decimal(workers.len()) && h.drain_wids is None
                && h.idle_wids is None,
        },
        PlanView::Down { desired, drain } => match v.options.scale_down_cmd {
            None => hook is None,
            Some(cmd) => hook matches Some(h) && h.cmd@ == cmd && h.desired@ == decimal(desired as nat) && h.delta@
                == seq!['-'] + decimal(drain.len()) && h.live@ == decimal(workers.len()) && opt_text(h.drain_wids)
                == Some(spaced(drain)) && (h.idle_wids matches Some(w) && exists|names: Seq<Seq<char>>|
                #![trigger spaced(names)]
                w@ == spaced(names) && sorted(names) && names.to_multiset() == idle_names(
                    workers,
                    drain,
                ).to_multiset()),
        },
    }
}

impl Autoscaler {
    /// An autoscaler that has not decided yet.
    pub fn new(options: AutoscalerOptions) -> (r: Autoscaler)
        ensures
            r@ == (ScalerView { options: options@, last_up: None, last_down: None }),
    {
        Autoscaler { options, last_up: None, last_down: None }
    }

    /// What it aims at.
    pub fn options(&self) -> (r: &AutoscalerOptions)
        ensures
            r@ == self@.options,
    {
        &self.options
    }

    /// What is to be done for the live workers at a time.
    pub fn plan(&self, workers: &Vec<WorkerHeartbeat>, now: u64) -> (r: Plan)
        requires
            totals(beats_view(workers@)).0 <= u64::MAX,
            totals(beats_view(workers@)).1 <= u64::MAX,
        ensures
            r@ == plan_for(self@, beats_view(workers@), now),
    {
        if self.options.max == 0 {
            return Plan::Hold;
        }
        let live = workers.len();
        let ghost all = beats_view(workers@);
        assert(all.len() == live);
        let (used, caps) = match fleet_totals(workers) {
            Some(t) => t,
            None => return Plan::Hold,
        };
        let want = desired_workers(live, used, caps, &self.options);
        let live_count = live as u64;
        if want > live_count && cooled(self.last_up, self.options.cooldown_up, now) {
            Plan::Up { desired: want, delta: want - live_count }
        } else if want < live_count && cooled(self.last_down, self.options.cooldown_down, now) {
            Plan::Down { desired: want, drain: drain_for(workers, live_count - want) }
        } else {
            Plan::Hold
        }
    }

    /// One round: decides, notes when it decided, and says what is to be done.
    pub fn tick(&mut self, workers: &Vec<WorkerHeartbeat>, now: u64) -> (r: Tick)
        requires
            totals(beats_view(workers@)).0 <= u64::MAX,
            totals(beats_view(workers@)).1 <= u64::MAX,
        ensures
            ({
                let all = beats_view(workers@);
                let plan = plan_for(old(self)@, all, now);
                &&& final(self)@ == latched(old(self)@, plan, now)
                &&& r.plan@ == plan
                &&& r.drain_ttl_ms == ttl_ms(old(self)@.options.drain_ttl)
                &&& texts(r.drain_keys@) == match plan {
                    PlanView::Down { desired, drain } => drain.map_values(|w: Seq<char>| drain_key(w)),
                    _ => Seq::empty(),
                }
                &&& hook_says(r.hook, old(self)@, plan, all)
            }),
    {
        let plan = self.plan(workers, now);
        let ghost all = beats_view(workers@);
        let live = render_u64(workers.len() as u64);
        assert(all.len() == workers@.len());
        let ms: u64 = self.options.drain_ttl / 1000000;
        let drain_ttl_ms: u64 = if ms > 1 {
            ms
        } else {
            1
        };
        match &plan {
            Plan::Hold => {
                let drain_keys: Vec<String> = Vec::new();
                assert(texts(drain_keys@) =~= Seq::empty());
                Tick { plan, drain_keys, drain_ttl_ms, hook: None }
            },
            Plan::Up { desired, delta } => {
                self.last_up = Some(now);
                let drain_keys: Vec<String> = Vec::new();
                assert(texts(drain_keys@) =~= Seq::empty());
                let hook = match &self.options.scale_up_cmd {
                    None => None,
                    Some(cmd) => Some(
                        Hook {
                            cmd: cmd.clone(),
                            desired: render_u64(*desired),
                            delta: render_u64(*delta),
                            live,
                            drain_wids: None,
                            idle_wids: None,
                        },
                    ),
                };
                Tick { plan, drain_keys, drain_ttl_ms, hook }
            },
            Plan::Down { desired, drain } => {
                self.last_down = Some(now);
                let drain_keys = keys_for(drain);
                let hook = match &self.options.scale_down_cmd {
                    None => None,
                    Some(cmd) => {
                        let mut delta = String::new();
                        delta.push('-');
                        delta.append(render_u64(drain.len() as u64).as_str());
                        assert(texts(drain@).len() == drain@.len());
                        assert(delta@ =~= seq!['-'] + decimal(texts(drain@).len()));
                        let idle = idle_workers(workers, drain);
                        let idle = sort_texts(idle);
                        let idle_wids = join_spaced(&idle);
                        assert(idle_wids@ == spaced(texts(idle@)));
                        Some(
                            Hook {
                                cmd: cmd.clone(),
                                desired: render_u64(*desired),
                                delta,
                                live,
                                drain_wids: Some(join_spaced(drain)),
                                idle_wids: Some(idle_wids),
                            },
                        )
                    },
                };
                Tick { plan, drain_keys, drain_ttl_ms, hook }
            },
        }
    }
}

fn keys_for(drain: &Vec<String>) -> (r: Vec<String>)
    ensures
        texts(r@) == texts(drain@).map_values(|w: Seq<char>| drain_key(w)),
{
    let mut out: Vec<String> = Vec::new();
    let mut i: usize = 0;
    while i < drain.len()
        invariant
            i <= drain@.len(),
            out@.len() == i,
            forall|j: int| 0 <= j < i ==> (#[trigger] out@[j])@ == drain_key(drain@[j]@),
        decreases drain@.len() - i,
    {
        out.push(drain_key_of(drain[i].as_str()));
        i = i + 1;
    }
    assert(texts(out@) =~= texts(drain@).map_values(|w: Seq<char>| drain_key(w)));
    out
}

fn idle_workers(workers: &Vec<WorkerHeartbeat>, drain: &Vec<String>) -> (r: Vec<String>)
    ensures
        texts(r@) == idle_names(beats_view(workers@), texts(drain@)),
{
    let ghost all = beats_view(workers@);
    let ghost names = texts(drain@);
    let mut out: Vec<String> = Vec::new();
    let mut i: usize = 0;
    assert(all.take(0) =~= Seq::empty());
    assert(texts(out@) =~= Seq::empty());
    while i < workers.len()
        invariant
            i <= workers@.len(),
            all == beats_view(workers@),
            names == texts(drain@),
            texts(out@) == idle_names(all.take(i as int), names),
        decreases workers@.len() - i,
    {
        assert(all.take(i + 1).drop_last() =~= all.take(i as int));
        assert(all.take(i + 1).last() == workers@[i as int]@);
        let worker = &workers[i];
        let listed = lists_text(drain, worker.wid.as_str());
        proof {
            if listed {
                let j = choose|j: int| 0 <= j < drain@.len() && drain@[j]@ == worker.wid@;
                assert(names[j] == worker.wid@);
            } else if names.contains(worker.wid@) {
                let j = choose|j: int| 0 <= j < names.len() && names[j] == worker.wid@;
                assert(drain@[j]@ == worker.wid@);
            }
        }
        if worker.running == 0 && (worker.draining || listed) {
            let ghost before = texts(out@);
            out.push(worker.wid.clone());
            assert(texts(out@) =~= before.push(worker.wid@));
        }
        i = i + 1;
    }
    assert(all.take(i as int) =~= all);
    out
}

/// The number of workers wanted lies between the limits.
pub proof fn law_desired_is_clamped(live: nat, used: nat, caps: nat, o: OptionsView)
    ensures
        lesser(o.min as int, greater(o.max as int, 1)) <= desired(live as int, used as int, caps as int, o) <= greater(
            o.max as int,
            1,
        ),
{
}

proof fn lemma_placed_len(list: Seq<(u64, Seq<char>)>, x: (u64, Seq<char>))
    ensures
        placed_in(list, x).len() == list.len() + 1,
    decreases list.len(),
{
    if list.len() > 0 && drains_before(x, list.last()) {
        lemma_placed_len(list.drop_last(), x);
    }
}

proof fn lemma_drain_order_len(workers: Seq<HeartbeatView>)
    ensures
        drain_order(workers).len() == workers.len(),
    decreases workers.len(),
{
    if workers.len() > 0 {
        lemma_drain_order_len(workers.drop_last());
        lemma_placed_len(
            drain_order(workers.drop_last()),
            (workers.last().running, workers.last().wid),
        );
    }
}

proof fn lemma_workers_in_len(workers: Seq<HeartbeatView>)
    ensures
        workers_in(workers, true).len() + workers_in(workers, false).len() == workers.len(),
    decreases workers.len(),
{
    if workers.len() > 0 {
        lemma_workers_in_len(workers.drop_last());
    }
}

/// While workers are being drained, a plan to shrink turns to others only when
/// more have to go than are being drained already.
pub proof fn law_draining_go_first(workers: Seq<HeartbeatView>, count: nat)
    ensures
        count <= workers_in(workers, true).len() ==> drained(workers, count as int) == victims(
            workers_in(workers, true),
            count as int,
        ),
        count >= workers_in(workers, true).len() ==> drained(workers, count as int) == victims(
            workers_in(workers, true),
            workers_in(workers, true).len() as int,
        ) + victims(workers_in(workers, false), count - workers_in(workers, true).len()),
{
    lemma_drain_order_len(workers_in(workers, true));
    let again = victims(workers_in(workers, true), count as int);
    if count <= workers_in(workers, true).len() {
        assert(victims(workers_in(workers, false), 0) =~= Seq::empty());
        assert(again + Seq::<Seq<char>>::empty() =~= again);
    }
}

/// A plan to shrink drains exactly as many workers as are too many, so the fleet
/// is never drained below the number that is wanted.
pub proof fn law_never_drained_below_desired(v: ScalerView, workers: Seq<HeartbeatView>, now: u64)
    ensures
        plan_for(v, workers, now) matches PlanView::Down { desired, drain } ==> drain.len() + desired
            == workers.len(),
{
    lemma_drain_order_len(workers_in(workers, true));
    lemma_drain_order_len(workers_in(workers, false));
    lemma_workers_in_len(workers);
    let (used, caps) = totals(workers);
    lemma_totals_grow(workers, 0);
    law_desired_is_clamped(workers.len(), used as nat, caps as nat, v.options);
}

pub open spec fn in_drain_order(list: Seq<(u64, Seq<char>)>) -> bool {
    forall|i: int, j: int| 0 <= i < j < list.len() ==> !drains_before(#[trigger] list[j], #[trigger] list[i])
}

proof fn lemma_drain_transitive(a: (u64, Seq<char>), b: (u64, Seq<char>), c: (u64, Seq<char>))
    requires
        !drains_before(b, a),
        !drains_before(c, b),
    ensures
        !drains_before(c, a),
{
    if a.0 == b.0 && b.0 == c.0 {
        crate::textmap::lemma_not_before_transitive(a.1, b.1, c.1);
    }
}

proof fn lemma_placed_sorted(list: Seq<(u64, Seq<char>)>, x: (u64, Seq<char>))
    requires
        in_drain_order(list),
    ensures
        in_drain_order(placed_in(list, x)),
        forall|y: (u64, Seq<char>)| #[trigger] placed_in(list, x).contains(y) ==> list.contains(y) || y == x,
    decreases list.len(),
{
    let after = placed_in(list, x);
    if list.len() > 0 && drains_before(x, list.last()) {
        let rest = list.drop_last();
        lemma_placed_sorted(rest, x);
        let inner = placed_in(rest, x);
        assert forall|i: int, j: int| 0 <= i < j < after.len() implies !drains_before(
            #[trigger] after[j],
            #[trigger] after[i],
        ) by {
            if j == inner.len() {
                assert(inner.contains(inner[i]));
                if inner[i] == x {
                    if x.0 == list.last().0 {
                        if text_before(list.last().1, x.1) {
                            crate::textmap::lemma_text_before_transitive(x.1, list.last().1, x.1);
                            crate::textmap::lemma_text_before_irreflexive(x.1);
                        }
                    }
                } else {
                    let k = choose|k: int| 0 <= k < rest.len() && rest[k] == inner[i];
                    assert(list[k] == inner[i]);
                    assert(!drains_before(list[list.len() - 1], list[k]));
                }
            }
        }
        assert forall|y: (u64, Seq<char>)| #[trigger] after.contains(y) implies list.contains(y) || y == x by {
            let i = choose|i: int| 0 <= i < after.len() && after[i] == y;
            if i < inner.len() {
                assert(inner.contains(y));
                if y != x {
                    let k = choose|k: int| 0 <= k < rest.len() && rest[k] == y;
                    assert(list[k] == y);
                }
            } else {
                assert(list[list.len() - 1] == y);
            }
        }
    } else {
        assert forall|i: int, j: int| 0 <= i < j < after.len() implies !drains_before(
            #[trigger] after[j],
            #[trigger] after[i],
        ) by {
            if j == list.len() {
                if i < list.len() - 1 {
                    lemma_drain_transitive(list[i], list.last(), x);
                }
            }
        }
        assert forall|y: (u64, Seq<char>)| #[trigger] after.contains(y) implies list.contains(y) || y == x by {
            let i = choose|i: int| 0 <= i < after.len() && after[i] == y;
            if i < list.len() {
                assert(list[i] == y);
            }
        }
    }
}

proof fn lemma_placed_members(list: Seq<(u64, Seq<char>)>, x: (u64, Seq<char>))
    ensures
        placed_in(list, x).to_multiset() == list.to_multiset().insert(x),
    decreases list.len(),
{
    broadcast use vstd::seq_lib::group_to_multiset_ensures;

    if list.len() > 0 && drains_before(x, list.last()) {
        lemma_placed_members(list.drop_last(), x);
        assert(list =~= list.drop_last().push(list.last()));
        assert(placed_in(list, x).to_multiset() =~= list.to_multiset().insert(x));
    } else {
        assert(placed_in(list, x).to_multiset() =~= list.to_multiset().insert(x));
    }
}

/// By what a worker is ordered: how many sandboxes it has, and its name.
pub open spec fn drain_rank(w: HeartbeatView) -> (u64, Seq<char>) {
    (w.running, w.wid)
}

/// Those workers are drained first that have the fewest sandboxes: none that is
/// kept would come before one that is drained; and the workers in that order are the
/// workers, each as often as it was there.
pub proof fn law_emptiest_are_drained(workers: Seq<HeartbeatView>)
    ensures
        in_drain_order(drain_order(workers)),
        drain_order(workers).len() == workers.len(),
        drain_order(workers).to_multiset() == workers.map_values(|w: HeartbeatView| drain_rank(w)).to_multiset(),
    decreases workers.len(),
{
    broadcast use vstd::seq_lib::group_to_multiset_ensures;

    lemma_drain_order_len(workers);
    let ranks = workers.map_values(|w: HeartbeatView| drain_rank(w));
    if workers.len() == 0 {
        assert(ranks =~= drain_order(workers));
    } else {
        let rest = workers.drop_last();
        let before = rest.map_values(|w: HeartbeatView| drain_rank(w));
        assert(ranks =~= before.push(drain_rank(workers.last())));
        lemma_placed_members(drain_order(rest), drain_rank(workers.last()));
        law_emptiest_are_drained(workers.drop_last());
        lemma_placed_sorted(
            drain_order(workers.drop_last()),
            (workers.last().running, workers.last().wid),
        );
    }
}

/// Right after a decision the autoscaler holds back in the same direction.
pub proof fn law_cooldown_holds(v: ScalerView, workers: Seq<HeartbeatView>, now: u64, later: u64)
    requires
        now <= later,
        later - now < v.options.cooldown_up,
        later - now < v.options.cooldown_down,
    ensures
        ({
            let plan = plan_for(v, workers, now);
            let next = plan_for(latched(v, plan, now), workers, later);
            &&& plan is Up ==> next is Hold
            &&& plan is Down ==> next is Hold
        }),
{
}

/// The totals are sums over all the workers, whatever else their heartbeats say.
pub proof fn law_totals_sum_all_workers(workers: Seq<HeartbeatView>)
    ensures
        totals(workers).0 == workers.fold_left(0int, |sum: int, w: HeartbeatView| sum + w.used.mem_mib),
        totals(workers).1 == workers.fold_left(0int, |sum: int, w: HeartbeatView| sum + w.caps.mem_mib),
    decreases workers.len(),
{
    if workers.len() > 0 {
        law_totals_sum_all_workers(workers.drop_last());
    }
}

/// A worker that joins raises the totals by exactly what it uses and has.
pub proof fn law_worker_raises_totals(workers: Seq<HeartbeatView>, joined: HeartbeatView)
    ensures
        totals(workers.push(joined)).0 == totals(workers).0 + joined.used.mem_mib,
        totals(workers.push(joined)).1 == totals(workers).1 + joined.caps.mem_mib,
{
    assert(workers.push(joined).drop_last() =~= workers);
}

/// The totals of two fleets together are the sums of theirs.
pub proof fn law_totals_add_up(a: Seq<HeartbeatView>, b: Seq<HeartbeatView>)
    ensures
        totals(a + b).0 == totals(a).0 + totals(b).0,
        totals(a + b).1 == totals(a).1 + totals(b).1,
    decreases b.len(),
{
    if b.len() == 0 {
        assert(a + b =~= a);
    } else {
        law_totals_add_up(a, b.drop_last());
        assert((a + b).drop_last() =~= a + b.drop_last());
    }
}

/// Whether two fleets have the same numbers of memory, worker by worker.
pub open spec fn same_memory(a: Seq<HeartbeatView>, b: Seq<HeartbeatView>) -> bool {
    &&& a.len() == b.len()
    &&& forall|i: int|
        0 <= i < a.len() ==> (#[trigger] a[i]).used.mem_mib == b[i].used.mem_mib && a[i].caps.mem_mib
            == b[i].caps.mem_mib
}

/// Whether workers accept or are being drained does not change the totals, nor does
/// anything else but their memory; nor how many workers a plan asks for.
pub proof fn law_totals_ignore_flags(
    v: ScalerView,
    a: Seq<HeartbeatView>,
    b: Seq<HeartbeatView>,
    now: u64,
)
    requires
        same_memory(a, b),
    ensures
        totals(a) == totals(b),
        plan_for(v, a, now) is Hold <==> plan_for(v, b, now) is Hold,
        plan_for(v, a, now) is Up ==> plan_for(v, a, now) == plan_for(v, b, now),
        plan_for(v, a, now) is Down ==> plan_for(v, b, now) is Down && plan_for(v, a, now)->Down_desired == plan_for(
            v,
            b,
            now,
        )->Down_desired,
{
    lemma_same_totals(a, b);
}

proof fn lemma_same_totals(a: Seq<HeartbeatView>, b: Seq<HeartbeatView>)
    requires
        same_memory(a, b),
    ensures
        totals(a) == totals(b),
    decreases a.len(),
{
    if a.len() > 0 {
        assert(a[a.len() - 1].used.mem_mib == b[a.len() - 1].used.mem_mib);
        assert(a[a.len() - 1].caps.mem_mib == b[a.len() - 1].caps.mem_mib);
        assert(same_memory(a.drop_last(), b.drop_last()));
        lemma_same_totals(a.drop_last(), b.drop_last());
    }
}

/// The number of workers wanted is the least that keeps the fleet at its target
/// utilisation, within the limits: a fleet of that many workers, each of the average
/// size, is not over the target unless the upper limit cuts it off, and one worker
/// fewer would be over it unless the lower limit holds it up.
pub proof fn law_desired_meets_target(live: nat, used: nat, caps: nat, o: OptionsView)
    requires
        live > 0,
        caps > 0,
        0 < o.target_util.num <= o.target_util.den,
    ensures
        ({
            let d = desired(live as int, used as int, caps as int, o);
            let num = o.target_util.num;
            let den = o.target_util.den;
            &&& d < o.max ==> live * used * den <= d * (caps * num)
            &&& d > o.min ==> (d - 1) * (caps * num) < live * used * den
            &&& 0 <= d
            &&& d <= o.max || d <= 1
            &&& d >= o.min || d >= o.max
        }),
{
    let num = o.target_util.num as int;
    let den = o.target_util.den as int;
    let p = live * used * den;
    let q = caps * num;
    assert(p >= 0) by (nonlinear_arith)
        requires
            p == live * used * den,
            live > 0,
            used >= 0,
            den > 0,
    ;
    assert(q > 0) by (nonlinear_arith)
        requires
            q == caps * num,
            caps > 0,
            num > 0,
    ;
    let n = quotient_up(p, q);
    lemma_quotient_is_least(p, q);
    let d = desired(live as int, used as int, caps as int, o);
    if d < o.max {
        assert(d >= n);
        assert(d * q >= n * q) by (nonlinear_arith)
            requires
                d >= n,
                q > 0,
        ;
    }
    if d > o.min {
        assert(d <= n);
        assert((d - 1) * q <= (n - 1) * q) by (nonlinear_arith)
            requires
                d <= n,
                q > 0,
        ;
    }
}

proof fn lemma_quotient_is_least(p: int, q: int)
    requires
        q > 0,
        p >= 0,
    ensures
        0 <= quotient_up(p, q),
        p <= quotient_up(p, q) * q,
        (quotient_up(p, q) - 1) * q < p,
{
    vstd::arithmetic::div_mod::lemma_fundamental_div_mod(p + q - 1, q);
    vstd::arithmetic::div_mod::lemma_mod_bound(p + q - 1, q);
    let n = quotient_up(p, q);
    assert(q * n == n * q && (n - 1) * q == n * q - q) by (nonlinear_arith);
    vstd::arithmetic::div_mod::lemma_div_pos_is_pos(p + q - 1, q);
}

/// A target that is no part of a whole stands for seven tenths.
pub proof fn law_odd_target_is_default(live: nat, used: nat, caps: nat, o: OptionsView)
    requires
        o.target_util.num == 0 || o.target_util.num > o.target_util.den,
    ensures
        desired(live as int, used as int, caps as int, o) == desired(
            live as int,
            used as int,
            caps as int,
            (OptionsView { target_util: Ratio { num: 7, den: 10 }, ..o }),
        ),
{
}

/// A fleet without workers, or without memory, begins with one worker, or with the
/// lower limit; never with more than the upper limit.
pub proof fn law_empty_fleet_begins(live: nat, used: nat, caps: nat, o: OptionsView)
    requires
        live == 0 || caps == 0,
    ensures
        ({
            let d = desired(live as int, used as int, caps as int, o);
            &&& d >= 1
            &&& o.min <= 1 ==> d == 1
            &&& 1 <= o.min <= o.max ==> d == o.min
            &&& 1 <= o.max < o.min ==> d == o.max
        }),
{
}

/// A fleet that uses more never wants fewer workers.
pub proof fn law_more_use_wants_no_fewer(live: nat, used: nat, more: nat, caps: nat, o: OptionsView)
    requires
        used <= more,
    ensures
        desired(live as int, used as int, caps as int, o) <= desired(live as int, more as int, caps as int, o),
{
    if live > 0 && caps > 0 {
        let t = target_of(o.target_util);
        let q = caps * t.num;
        assert(q > 0) by (nonlinear_arith)
            requires
                q == caps * t.num,
                caps > 0,
                t.num > 0,
        ;
        assert(live * used * t.den <= live * more * t.den) by (nonlinear_arith)
            requires
                used <= more,
                live >= 0,
                used >= 0,
                t.den >= 0,
        ;
        vstd::arithmetic::div_mod::lemma_div_is_ordered(
            live * used * t.den + q - 1,
            live * more * t.den + q - 1,
            q,
        );
    }
}

/// What a plan says: it grows or shrinks the fleet to the wanted number, by the
/// difference, and only when the last move in that direction is long enough ago; an
/// autoscaler without an upper limit does nothing.
pub proof fn law_plan_moves_to_desired(v: ScalerView, workers: Seq<HeartbeatView>, now: u64)
    ensures
        ({
            let want = desired(workers.len() as int, totals(workers).0, totals(workers).1, v.options);
            let plan = plan_for(v, workers, now);
            let up = v.last_up is None || v.last_up->0 + v.options.cooldown_up <= now || (v.options.cooldown_up
                == 0);
            let down = v.last_down is None || v.last_down->0 + v.options.cooldown_down <= now || (
            v.options.cooldown_down == 0);
            &&& plan is Up <==> v.options.max > 0 && want > workers.len() && up
            &&& plan is Down <==> v.options.max > 0 && want < workers.len() && down
            &&& plan is Up ==> plan->Up_desired == want && plan->Up_desired == workers.len() + plan->Up_delta
            &&& plan is Down ==> plan->Down_desired == want && plan->Down_drain.len() + want == workers.len()
        }),
{
    let (used, caps) = totals(workers);
    lemma_totals_grow(workers, 0);
    law_desired_is_clamped(workers.len(), used as nat, caps as nat, v.options);
    law_never_drained_below_desired(v, workers, now);
    let want = desired(workers.len() as int, used, caps, v.options);
    if workers.len() > 0 && caps > 0 {
        let t = target_of(v.options.target_util);
        let q = caps * t.num;
        let p = workers.len() * used * t.den;
        assert(q > 0) by (nonlinear_arith)
            requires
                q == caps * t.num,
                caps > 0,
                t.num > 0,
        ;
        assert(p >= 0) by (nonlinear_arith)
            requires
                p == workers.len() * used * t.den,
                workers.len() >= 0,
                used >= 0,
                t.den >= 0,
        ;
        lemma_quotient_is_least(p, q);
    }
    assert(0 <= want <= u64::MAX);
}

/// A round notes its time for the direction in which it moved, and changes nothing
/// else of the autoscaler.
pub proof fn law_move_is_noted(v: ScalerView, plan: PlanView, now: u64)
    ensures
        ({
            let w = latched(v, plan, now);
            &&& w.options == v.options
            &&& w.last_up == if plan is Up {
                Some(now)
            } else {
                v.last_up
            }
            &&& w.last_down == if plan is Down {
                Some(now)
            } else {
                v.last_down
            }
        }),
{
}

/// Of a list of workers those are drained first that have the fewest sandboxes: as
/// many as are asked for, or all, and each is a worker of the list.
pub proof fn law_fewest_sandboxes_go(workers: Seq<HeartbeatView>, count: nat, i: int, j: int)
    requires
        0 <= i < j < workers.len(),
    ensures
        ({
            let order = drain_order(workers);
            &&& order[i].0 <= order[j].0
            &&& victims(workers, count as int).len() == if count < workers.len() {
                count
            } else {
                workers.len()
            }
            &&& i < count ==> victims(workers, count as int)[i] == order[i].1
            &&& exists|k: int| 0 <= k < workers.len() && (#[trigger] workers[k]).running == order[i].0 && workers[k].wid
                == order[i].1
        }),
{
    broadcast use vstd::seq_lib::group_to_multiset_ensures;

    law_emptiest_are_drained(workers);
    let order = drain_order(workers);
    assert(!drains_before(order[j], order[i]));
    let ranks = workers.map_values(|w: HeartbeatView| drain_rank(w));
    assert(order.contains(order[i]));
    assert(order.to_multiset().contains(order[i]));
    assert(ranks.to_multiset().contains(order[i]));
    assert(ranks.contains(order[i]));
    let k = choose|k: int| 0 <= k < ranks.len() && ranks[k] == order[i];
    assert(workers[k].running == order[i].0);
}

/// The workers that are being drained, or are not, are those of the fleet.
pub proof fn law_workers_are_told_apart(workers: Seq<HeartbeatView>, h: HeartbeatView, draining: bool)
    ensures
        workers_in(workers, draining).contains(h) <==> workers.contains(h) && h.draining == draining,
    decreases workers.len(),
{
    if workers.len() > 0 {
        let rest = workers.drop_last();
        law_workers_are_told_apart(rest, h, draining);
        let a = workers_in(rest, draining);
        let b = workers_in(workers, draining);
        assert(workers =~= rest.push(workers.last()));
        if a.contains(h) {
            let i = choose|i: int| 0 <= i < a.len() && a[i] == h;
            assert(b[i] == h);
        }
        if b.contains(h) {
            let i = choose|i: int| 0 <= i < b.len() && b[i] == h;
            if i < a.len() {
                assert(a[i] == h);
            } else {
                assert(workers[workers.len() - 1] == h);
            }
        }
        if rest.contains(h) {
            let i = choose|i: int| 0 <= i < rest.len() && rest[i] == h;
            assert(workers[i] == h);
        }
        if workers.contains(h) && !rest.contains(h) {
            let i = choose|i: int| 0 <= i < workers.len() && workers[i] == h;
            if i < rest.len() {
                assert(rest[i] == h);
            }
            assert(h == workers.last());
            if h.draining == draining {
                assert(b[b.len() - 1] == h);
            }
        }
    }
}

/// A worker can be stopped at once exactly where it has no sandboxes and is being
/// drained, or is to be.
pub proof fn law_idle_workers_can_stop(workers: Seq<HeartbeatView>, drain: Seq<Seq<char>>, wid: Seq<char>)
    ensures
        idle_names(workers, drain).contains(wid) <==> exists|i: int|
            0 <= i < workers.len() && (#[trigger] workers[i]).wid == wid && workers[i].running == 0 && (
            workers[i].draining || drain.contains(wid)),
    decreases workers.len(),
{
    if workers.len() > 0 {
        let rest = workers.drop_last();
        let last = workers.last();
        law_idle_workers_can_stop(rest, drain, wid);
        let a = idle_names(rest, drain);
        let b = idle_names(workers, drain);
        assert(forall|i: int| 0 <= i < rest.len() ==> #[trigger] rest[i] == workers[i]);
        if b.contains(wid) {
            let i = choose|i: int| 0 <= i < b.len() && b[i] == wid;
            if i < a.len() {
                assert(a[i] == wid);
                let k = choose|k: int|
                    0 <= k < rest.len() && (#[trigger] rest[k]).wid == wid && rest[k].running == 0 && (rest[k].draining
                        || drain.contains(wid));
                assert(workers[k].wid == wid);
            } else {
                assert(workers[workers.len() - 1].wid == wid);
            }
        }
        if exists|i: int|
            0 <= i < workers.len() && (#[trigger] workers[i]).wid == wid && workers[i].running == 0 && (
            workers[i].draining || drain.contains(wid)) {
            let k = choose|i: int|
                0 <= i < workers.len() && (#[trigger] workers[i]).wid == wid && workers[i].running == 0 && (
                workers[i].draining || drain.contains(wid));
            if k < rest.len() {
                assert(rest[k].wid == wid);
                let i = choose|i: int| 0 <= i < a.len() && a[i] == wid;
                assert(b[i] == wid);
            } else {
                assert(b[b.len() - 1] == wid);
            }
        }
    }
}

/// Drain keys last as long as is set, in whole milliseconds, and at least one.
pub proof fn law_drain_keys_last(drain_ttl: u64)
    ensures
        ttl_ms(drain_ttl) >= 1,
        drain_ttl >= 1000000 ==> ttl_ms(drain_ttl) * 1000000 <= drain_ttl < (ttl_ms(drain_ttl) + 1) * 1000000,
{
}

/// A hook is told the number that is wanted, the number that is live, and the difference
/// between them, with a minus sign where workers go; and, where workers go, which.
pub proof fn law_hook_is_told_the_difference(v: ScalerView, workers: Seq<HeartbeatView>, now: u64, hook: Hook)
    requires
        hook_says(Some(hook), v, plan_for(v, workers, now), workers),
    ensures
        ({
            let want = desired(workers.len() as int, totals(workers).0, totals(workers).1, v.options);
            let plan = plan_for(v, workers, now);
            &&& hook.desired@ == decimal(want as nat)
            &&& hook.live@ == decimal(workers.len())
            &&& plan is Up || plan is Down
            &&& want > workers.len() ==> hook.delta@ == decimal((want - workers.len()) as nat) && hook.drain_wids is None
                && Some(hook.cmd@) == v.options.scale_up_cmd
            &&& want < workers.len() ==> hook.delta@ == seq!['-'] + decimal((workers.len() - want) as nat)
                && hook.drain_wids is Some && Some(hook.cmd@) == v.options.scale_down_cmd
        }),
{
    law_plan_moves_to_desired(v, workers, now);
}

} // verus!
