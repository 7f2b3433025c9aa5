//! Filling the slot pool, and the policies of slots.
use crate::error::{EngineError, ErrorView};
use crate::net::addr::{invalid_input, render_v4, v4_text, IpAddr};
use crate::net::allocator::{
    addressable, config_at, entry_config, pool_exhausted, with_lease, AllocView, LeaseAllocator,
};
use crate::net::cidr::{read_cidr, CidrNet};
use crate::net::host::{default_dns, default_dns_texts, BrokerRequest, RequestView};
use crate::net::lease::{ConfigView, GuestConfig, LEASE_PREFIX};
use crate::net::slots::{slots_view, SlotSpec, SlotView};
use crate::numset::lowest;
use crate::text::texts;
use vstd::prelude::*;

verus! {

/// How many slots one request makes.
pub const SLOT_BATCH: usize = 200;

/// What comes of asking for a lease under a given TAP name.
#[verifier::opaque]
pub open spec fn leased(v: AllocView, name: Seq<char>, tap: Seq<char>) -> (Result<ConfigView, ErrorView>, AllocView) {
    let base = lowest(v.free);
    if v.leases.contains_key(name) {
        match entry_config(name, v.leases[name], default_dns_texts()) {
            Ok(c) => (Ok(c), v),
            Err(m) => (Err(invalid_input(m)), v),
        }
    } else if v.free == Set::<u32>::empty() {
        (Err(pool_exhausted()), v)
    } else {
        (
            Ok(config_at(tap, base as nat, LEASE_PREFIX, default_dns_texts())),
            with_lease(v, name, base, tap),
        )
    }
}

pub open spec fn slot_of(index: int, tap: Seq<char>, config: ConfigView) -> SlotView {
    SlotView {
        index: index as u32,
        name: tap,
        guest_ip: config.guest_ip,
        host_ip: config.host_ip,
        prefix: config.prefix,
    }
}

/// The slots that the first `n` names and TAPs make, one lease after the other;
/// the first that fails ends it.
pub open spec fn reserved(v: AllocView, names: Seq<Seq<char>>, taps: Seq<Seq<char>>, n: nat) -> (
    Result<Seq<SlotView>, ErrorView>,
    AllocView,
)
    decreases n,
{
    if n == 0 {
        (Ok(Seq::empty()), v)
    } else {
        let (slots, w) = reserved(v, names, taps, (n - 1) as nat);
        match slots {
            Err(e) => (Err(e), w),
            Ok(slots) => {
                let (config, x) = leased(w, names[n - 1], taps[n - 1]);
                match config {
                    Err(e) => (Err(e), x),
                    Ok(config) => (Ok(slots.push(slot_of(n - 1, taps[n - 1], config))), x),
                }
            },
        }
    }
}

proof fn lemma_reserved_stops(v: AllocView, names: Seq<Seq<char>>, taps: Seq<Seq<char>>, n: nat, m: nat)
    requires
        n <= m,
        reserved(v, names, taps, n).0 is Err,
    ensures
        reserved(v, names, taps, m) == reserved(v, names, taps, n),
    decreases m,
{
    if n < m {
        lemma_reserved_stops(v, names, taps, n, (m - 1) as nat);
    }
}

/// Whether every kept lease has room for its addresses.
pub open spec fn all_addressable(v: AllocView) -> bool {
    forall|n: Seq<char>| #[trigger] v.leases.contains_key(n) ==> addressable(v.leases[n].network)
}

fn take_lease(leases: &mut LeaseAllocator, name: &str, tap: &String, dns: &Vec<String>) -> (r: Result<
    GuestConfig,
    EngineError,
>)
    requires
        texts(dns@) == default_dns_texts(),
        all_addressable(old(leases)@),
    ensures
        all_addressable(final(leases)@),
        final(leases)@ == leased(old(leases)@, name@, tap@).1,
        match r {
            Ok(c) => leased(old(leases)@, name@, tap@).0 == Ok::<ConfigView, ErrorView>(c@),
            Err(e) => leased(old(leases)@, name@, tap@).0 == Err::<ConfigView, ErrorView>(e@),
        },
{
    let ghost before = leases@;
    proof {
        reveal(leased);
    }
    let got = leases.allocate(name, dns, Some(tap));
    proof {
        let base = lowest(before.free);
        if !before.leases.contains_key(name@) && before.free != Set::<u32>::empty() {
            crate::net::allocator::law_allocation_is_repeatable(before, name@, base, tap@, default_dns_texts());
            assert forall|n: Seq<char>| #[trigger] leases@.leases.contains_key(n) implies addressable(
                leases@.leases[n].network,
            ) by {
                if n != name@ {
                    assert(before.leases.contains_key(n));
                }
            }
        }
    }
    match got {
        Ok((config, _)) => Ok(config),
        Err(e) => Err(e),
    }
}

/// Takes leases for slots.
pub fn reserve_slots(leases: &mut LeaseAllocator, names: &Vec<String>, taps: &Vec<String>) -> (r: Result<
    Vec<SlotSpec>,
    EngineError,
>)
    requires
        names@.len() == taps@.len(),
        names@.len() <= u32::MAX,
        all_addressable(old(leases)@),
    ensures
        ({
            let (slots, after) = reserved(old(leases)@, texts(names@), texts(taps@), names@.len());
            &&& final(leases)@ == after
            &&& match r {
                Ok(v) => slots == Ok::<Seq<SlotView>, ErrorView>(slots_view(v@)),
                Err(e) => slots == Err::<Seq<SlotView>, ErrorView>(e@),
            }
        }),
{
    let ghost start = leases@;
    let ghost ns = texts(names@);
    let ghost ts = texts(taps@);
    let dns = default_dns();
    let mut out: Vec<SlotSpec> = Vec::new();
    let mut i: usize = 0;
    assert(slots_view(out@) =~= Seq::empty());
    while i < names.len()
        invariant
            i <= names@.len(),
            names@.len() == taps@.len(),
            names@.len() <= u32::MAX,
            ns == texts(names@),
            ts == texts(taps@),
            texts(dns@) == default_dns_texts(),
            all_addressable(leases@),
            start == old(leases)@,
            reserved(start, ns, ts, i as nat) == (
                Ok::<Seq<SlotView>, ErrorView>(slots_view(out@)),
                leases@,
            ),
        decreases names@.len() - i,
    {
        let ghost have = slots_view(out@);
        assert(ns[i as int] == names@[i as int]@);
        assert(ts[i as int] == taps@[i as int]@);
        let got = take_lease(leases, names[i].as_str(), &taps[i], &dns);
        match got {
            Err(e) => {
                proof {
                    lemma_reserved_stops(start, ns, ts, (i + 1) as nat, names@.len());
                }
                return Err(e);
            },
            Ok(config) => {
                let slot = SlotSpec {
                    index: i as u32,
                    name: taps[i].clone(),
                    guest_ip: config.guest_ip,
                    host_ip: config.host_ip,
                    prefix: config.prefix,
                };
                out.push(slot);
                assert(slots_view(out@) =~= have.push(slot@));
            },
        }
        i = i + 1;
    }
    Ok(out)
}

pub open spec fn batch_end(i: int, len: int) -> int {
    if (i + 1) * SLOT_BATCH <= len {
        (i + 1) * SLOT_BATCH
    } else {
        len
    }
}

/// The requests that make slots, a batch at a time; the first one also clears
/// what is there.
pub open spec fn batches(slots: Seq<SlotView>) -> Seq<RequestView> {
    Seq::new(
        ((slots.len() + SLOT_BATCH - 1) / SLOT_BATCH as int) as nat,
        |i: int|
            RequestView::PreallocateSlots {
                slots: slots.subrange(i * SLOT_BATCH, batch_end(i, slots.len() as int)),
                reset: i == 0,
            },
    )
}

pub open spec fn requests_view(v: Seq<BrokerRequest>) -> Seq<RequestView> {
    v.map_values(|r: BrokerRequest| r@)
}

/// The requests that make slots.
pub fn slot_batches(slots: &Vec<SlotSpec>) -> (r: Vec<BrokerRequest>)
    requires
        slots@.len() <= u32::MAX,
    ensures
        requests_view(r@) == batches(slots_view(slots@)),
{
    let n = slots.len();
    let ghost all = slots_view(slots@);
    let mut out: Vec<BrokerRequest> = Vec::new();
    let mut start: usize = 0;
    while start < n
        invariant
            n == slots@.len(),
            n <= u32::MAX,
            all == slots_view(slots@),
            start <= n,
            start == n || start == out@.len() * SLOT_BATCH,
            out@.len() * SLOT_BATCH < n + SLOT_BATCH,
            start < n ==> out@.len() * SLOT_BATCH == start,
            start == n ==> out@.len() * SLOT_BATCH >= n,
            forall|i: int| 0 <= i < out@.len() ==> (#[trigger] out@[i])@ == batches(all)[i],
        decreases n - start,
    {
        let end: usize = if n - start > SLOT_BATCH {
            start + SLOT_BATCH
        } else {
            n
        };
        let mut part: Vec<SlotSpec> = Vec::new();
        let mut k: usize = start;
        while k < end
            invariant
                start <= k <= end <= n,
                n == slots@.len(),
                all == slots_view(slots@),
                slots_view(part@) =~= all.subrange(start as int, k as int),
            decreases end - k,
        {
            let ghost have = slots_view(part@);
            let slot = slots[k].clone();
            part.push(slot);
            assert(slots_view(part@) =~= have.push(slot@));
            assert(all.subrange(start as int, k + 1) =~= all.subrange(start as int, k as int).push(all[k as int]));
            k = k + 1;
        }
        let ghost idx = out@.len() as int;
        let reset = start == 0;
        let request = BrokerRequest::PreallocateSlots { slots: part, reset };
        proof {
            assert(end == batch_end(idx, n as int));
            assert(idx < batches(all).len());
            assert(request@ == batches(all)[idx]);
        }
        let ghost before = out@;
        out.push(request);
        assert forall|i: int| 0 <= i < out@.len() implies (#[trigger] out@[i])@ == batches(all)[i] by {
            if i < before.len() {
                assert(out@[i] == before[i]);
            }
        }
        start = end;
    }
    assert(requests_view(out@) =~= batches(all));
    out
}

/// Every slot is made by exactly the batch at its place.
pub proof fn law_batches_cover_slots(slots: Seq<SlotView>, j: int)
    requires
        0 <= j < slots.len(),
    ensures
        ({
            let i = j / SLOT_BATCH as int;
            &&& 0 <= i < batches(slots).len()
            &&& batches(slots)[i] matches RequestView::PreallocateSlots { slots: part, reset } && part[j
                % SLOT_BATCH as int] == slots[j] && part.len() <= SLOT_BATCH
        }),
{
    let i = j / SLOT_BATCH as int;
    let part = slots.subrange(i * SLOT_BATCH, batch_end(i, slots.len() as int));
    assert(part[j % SLOT_BATCH as int] == slots[j]);
}

/// The blocks of a slot's policy, or what is wrong with the first that is wrong:
/// a slot's set holds four-byte addresses.
pub open spec fn slot_blocks(cidrs: Seq<Seq<char>>) -> Result<Seq<Seq<char>>, Seq<char>>
    decreases cidrs.len(),
{
    if cidrs.len() == 0 {
        Ok(Seq::empty())
    } else {
        match slot_blocks(cidrs.drop_last()) {
            Err(m) => Err(m),
            Ok(rest) => match read_cidr(cidrs.last()) {
                Err(m) => Err(m),
                Ok(CidrNet::V6 { network, prefix }) => Err("pooled slot egress allows IPv4 CIDRs only"@),
                Ok(net) => Ok(rest.push(net.text())),
            },
        }
    }
}

proof fn lemma_slot_blocks_prefix(cidrs: Seq<Seq<char>>, n: int)
    requires
        0 <= n <= cidrs.len(),
        slot_blocks(cidrs.take(n)) is Err,
    ensures
        slot_blocks(cidrs) == slot_blocks(cidrs.take(n)),
    decreases cidrs.len(),
{
    if n == cidrs.len() {
        assert(cidrs.take(n) =~= cidrs);
    } else {
        assert(cidrs.drop_last().take(n) =~= cidrs.take(n));
        lemma_slot_blocks_prefix(cidrs.drop_last(), n);
    }
}

/// The blocks of a slot's policy.
pub fn slot_policy_blocks(cidrs: &Vec<String>) -> (r: Result<Vec<String>, EngineError>)
    ensures
        match r {
            Ok(v) => slot_blocks(texts(cidrs@)) == Ok::<Seq<Seq<char>>, Seq<char>>(texts(v@)),
            Err(e) => slot_blocks(texts(cidrs@)) matches Err(m) && e@ == invalid_input(m),
        },
{
    let ghost all = texts(cidrs@);
    let mut out: Vec<String> = Vec::new();
    let mut i: usize = 0;
    assert(all.take(0) =~= Seq::empty());
    assert(texts(out@) =~= Seq::empty());
    while i < cidrs.len()
        invariant
            i <= cidrs@.len(),
            all == texts(cidrs@),
            slot_blocks(all.take(i as int)) == Ok::<Seq<Seq<char>>, Seq<char>>(texts(out@)),
        decreases cidrs@.len() - i,
    {
        let ghost before = texts(out@);
        assert(all.take(i + 1).drop_last() =~= all.take(i as int));
        assert(all.take(i + 1).last() == cidrs@[i as int]@);
        match CidrNet::parse(cidrs[i].as_str()) {
            Err(e) => {
                proof {
                    lemma_slot_blocks_prefix(all, i + 1);
                }
                return Err(e);
            },
            Ok(net) => {
                match net {
                    CidrNet::V6 { network, prefix } => {
                        proof {
                            lemma_slot_blocks_prefix(all, i + 1);
                        }
                        return Err(EngineError::invalid("pooled slot egress allows IPv4 CIDRs only".to_owned()));
                    },
                    CidrNet::V4 { network, prefix } => {
                        let text = net.render();
                        let ghost t = text@;
                        out.push(text);
                        assert(texts(out@) =~= before.push(t));
                    },
                }
            },
        }
        i = i + 1;
    }
    assert(all.take(i as int) =~= all);
    Ok(out)
}

/// The texts of the four-byte addresses among resolved ones.
pub open spec fn v4_texts(ips: Seq<IpAddr>) -> Seq<Seq<char>>
    decreases ips.len(),
{
    if ips.len() == 0 {
        Seq::empty()
    } else {
        match ips.last() {
            IpAddr::V4(a) => v4_texts(ips.drop_last()).push(v4_text(a as nat)),
            IpAddr::V6(_) => v4_texts(ips.drop_last()),
        }
    }
}

/// The texts of the four-byte addresses among resolved ones.
pub fn v4_addresses(ips: &Vec<IpAddr>) -> (r: Vec<String>)
    ensures
        texts(r@) == v4_texts(ips@),
{
    let mut out: Vec<String> = Vec::new();
    let mut i: usize = 0;
    assert(ips@.take(0) =~= Seq::empty());
    assert(texts(out@) =~= Seq::empty());
    while i < ips.len()
        invariant
            i <= ips@.len(),
            texts(out@) == v4_texts(ips@.take(i as int)),
        decreases ips@.len() - i,
    {
        let ghost before = texts(out@);
        assert(ips@.take(i + 1).drop_last() =~= ips@.take(i as int));
        assert(ips@.take(i + 1).last() == ips@[i as int]);
        match ips[i] {
            IpAddr::V4(a) => {
                let text = render_v4(a);
                let ghost t = text@;
                out.push(text);
                assert(texts(out@) =~= before.push(t));
            },
            IpAddr::V6(_) => {},
        }
        i = i + 1;
    }
    assert(ips@.take(i as int) =~= ips@);
    out
}

/// A list's texts, each where it first occurs.
pub open spec fn first_occurrences(list: Seq<Seq<char>>) -> Seq<Seq<char>>
    decreases list.len(),
{
    if list.len() == 0 {
        Seq::empty()
    } else {
        let rest = first_occurrences(list.drop_last());
        if rest.contains(list.last()) {
            rest
        } else {
            rest.push(list.last())
        }
    }
}

/// A list's texts, each where it first occurs.
pub fn distinct_texts(list: &Vec<String>) -> (r: Vec<String>)
    ensures
        texts(r@) == first_occurrences(texts(list@)),
{
    let ghost all = texts(list@);
    let mut out: Vec<String> = Vec::new();
    let mut i: usize = 0;
    assert(all.take(0) =~= Seq::empty());
    assert(texts(out@) =~= Seq::empty());
    while i < list.len()
        invariant
            i <= list@.len(),
            all == texts(list@),
            texts(out@) == first_occurrences(all.take(i as int)),
        decreases list@.len() - i,
    {
        let ghost before = texts(out@);
        assert(all.take(i + 1).drop_last() =~= all.take(i as int));
        assert(all.take(i + 1).last() == list@[i as int]@);
        let known = crate::text::lists_text(&out, list[i].as_str());
        proof {
            let x = list@[i as int]@;
            if known {
                let j = choose|j: int| 0 <= j < out@.len() && (#[trigger] out@[j])@ == x;
                assert(before[j] == x);
            } else if before.contains(x) {
                let j = choose|j: int| 0 <= j < before.len() && before[j] == x;
                assert(out@[j]@ == x);
            }
        }
        if !known {
            out.push(list[i].clone());
            assert(texts(out@) =~= before.push(list@[i as int]@));
        }
        i = i + 1;
    }
    assert(all.take(i as int) =~= all);
    out
}

/// Each of a list is kept once, at its first place.
pub proof fn law_first_occurrences_are_kept(list: Seq<Seq<char>>, x: Seq<char>)
    ensures
        first_occurrences(list).contains(x) <==> list.contains(x),
        first_occurrences(list).no_duplicates(),
        first_occurrences(list).len() <= list.len(),
    decreases list.len(),
{
    if list.len() > 0 {
        let rest = list.drop_last();
        let last = list.last();
        law_first_occurrences_are_kept(rest, x);
        let a = first_occurrences(rest);
        let b = first_occurrences(list);
        assert(list =~= rest.push(last));
        if a.contains(x) {
            let i = choose|i: int| 0 <= i < a.len() && a[i] == x;
            assert(b[i] == x);
        }
        if b.contains(x) {
            let i = choose|i: int| 0 <= i < b.len() && b[i] == x;
            if i < a.len() {
                assert(a[i] == x);
            } else {
                assert(list[list.len() - 1] == x);
            }
        }
        if rest.contains(x) {
            let i = choose|i: int| 0 <= i < rest.len() && rest[i] == x;
            assert(list[i] == x);
        }
        if list.contains(x) && !rest.contains(x) {
            let i = choose|i: int| 0 <= i < list.len() && list[i] == x;
            if i < rest.len() {
                assert(rest[i] == x);
            }
            assert(x == last);
            assert(!a.contains(last));
            assert(b[b.len() - 1] == x);
        }
        if !a.contains(last) {
            assert forall|i: int, j: int| 0 <= i < b.len() && 0 <= j < b.len() && i != j implies b[i] != b[j] by {
                if i < a.len() && j < a.len() {
                    assert(a[i] != a[j]);
                } else if i < a.len() {
                    assert(a.contains(a[i]));
                } else {
                    assert(a.contains(a[j]));
                }
            }
        }
    }
}

/// Of resolved addresses the four-byte ones count.
pub proof fn law_four_byte_addresses_count(ips: Seq<IpAddr>, ip: IpAddr)
    ensures
        ip matches IpAddr::V4(a) ==> v4_texts(ips.push(ip)) == v4_texts(ips).push(v4_text(a as nat)),
        ip is V6 ==> v4_texts(ips.push(ip)) == v4_texts(ips),
        v4_texts(Seq::empty()).len() == 0,
{
    assert(ips.push(ip).drop_last() =~= ips);
}

/// The rules of slots that were there before are dropped once, with the first batch.
pub proof fn law_first_batch_resets(slots: Seq<SlotView>, i: int)
    requires
        0 <= i < batches(slots).len(),
    ensures
        batches(slots)[i] matches RequestView::PreallocateSlots { slots: part, reset } && (reset <==> i == 0) && 0
            < part.len() <= 200,
{
    let n = slots.len() as int;
    assert((n + 199) / 200 * 200 <= n + 199) by (nonlinear_arith);
    assert(i * 200 < n);
}

/// A slot has the device it was reserved with and the addresses of its block.
pub proof fn law_slot_has_its_block(v: AllocView, name: Seq<char>, tap: Seq<char>, index: int)
    requires
        !v.leases.contains_key(name),
        v.free != Set::<u32>::empty(),
        0 <= index <= u32::MAX,
    ensures
        ({
            let (c, w) = leased(v, name, tap);
            let base = lowest(v.free);
            let slot = slot_of(index, tap, c->Ok_0);
            &&& c is Ok
            &&& slot.name == tap
            &&& slot.index == index
            &&& slot.host_ip == v4_text((base + 1) as nat)
            &&& slot.guest_ip == v4_text((base + 2) as nat)
            &&& slot.prefix == 30
            &&& w.leases.contains_key(name)
            &&& !w.free.contains(base)
        }),
        leased(AllocView { free: Set::empty(), ..v }, name, tap).0 is Err,
{
    reveal(leased);
}

} // verus!
