//! The allocator of sandbox networks: blocks of four addresses out of one range.
use crate::error::{failure, EngineError, ErrorCode, ErrorView};
use crate::net::addr::{invalid_input, law_v4_reads_back, read_ip, read_v4, render_v4, v4_text, IpAddr};
use crate::net::cidr::{block_of, law_v4_block_reads_back, read_cidr, read_cidrs, CidrNet};
use crate::net::lease::{
    tap_address, tap_lease, tap_placement, ConfigView, GuestConfig, LEASE_PREFIX, LEASE_STEP, POOL_BASE, POOL_SIZE,
};
use crate::numset::{lowest, NumSet};
use crate::outside::{hex_encode, hex_text, sha1_digest, sha1_of};
use crate::text::{cat2, copy_list, opt_text, string_of, chars_of, texts};
use crate::textmap::TextMap;
use vstd::arithmetic::power2::pow2;
use vstd::prelude::*;
use vstd::utf8::encode_utf8;

verus! {

/// The TAP name of a sandbox: the beginning of its name's digest.
pub open spec fn tap_name_of(name: Seq<char>) -> Seq<char> {
    "tv"@ + hex_text(sha1_of(encode_utf8(name))).take(10)
}

/// The TAP name of a sandbox.
pub fn tap_name(name: &str) -> (r: String)
    ensures
        r@ == tap_name_of(name@),
        r@.len() == 12,
        vstd::utf8::is_ascii_chars(r@),
{
    let digest = sha1_digest(name.as_bytes());
    let hex = hex_encode(digest.as_slice());
    let chars = chars_of(hex.as_str());
    let start = string_of(&chars, 0, 10);
    let r = cat2("tv", start.as_str());
    proof {
        reveal_strlit("tv");
        assert(start@ =~= hex_text(digest@).take(10));
        assert forall|i: int| 0 <= i < r@.len() implies (#[trigger] r@[i]) as nat <= 127 by {
            if i >= 2 {
                assert(r@[i] == hex_text(digest@)[i - 2]);
            }
        }
    }
    r
}

/// What is kept of one sandbox's network.
#[derive(Debug)]
pub struct LeaseEntry {
    pub network: String,
    pub tap: Option<String>,
}

pub ghost struct EntryView {
    pub network: Seq<char>,
    pub tap: Option<Seq<char>>,
}

impl View for LeaseEntry {
    type V = EntryView;

    open spec fn view(&self) -> EntryView {
        EntryView { network: self.network@, tap: opt_text(self.tap) }
    }
}

/// Whether a network leaves room above its lowest address for a host and a guest.
pub open spec fn addressable(network: Seq<char>) -> bool {
    read_cidr(network) matches Ok(CidrNet::V4 { network, prefix }) ==> network <= u32::MAX - 2
}

/// The configuration of a network at `base`.
pub open spec fn config_at(tap: Seq<char>, base: nat, prefix: u8, dns: Seq<Seq<char>>) -> ConfigView {
    ConfigView {
        tap,
        host_ip: v4_text(base + 1),
        guest_ip: v4_text(base + 2),
        prefix,
        network: v4_text(base) + "/"@ + crate::decimal::decimal(prefix as nat),
        dns,
    }
}

/// The configuration that an entry stands for, or what is wrong with it.
pub open spec fn entry_config(name: Seq<char>, entry: EntryView, dns: Seq<Seq<char>>) -> Result<
    ConfigView,
    Seq<char>,
> {
    match read_cidr(entry.network) {
        Err(m) => Err(m),
        Ok(CidrNet::V6 { network, prefix }) => Err("sandbox TAP networking supports IPv4 only"@),
        Ok(CidrNet::V4 { network, prefix }) => Ok(
            config_at(entry.tap.unwrap_or(tap_name_of(name)), network as nat, prefix, dns),
        ),
    }
}

/// The configuration that an entry stands for.
pub fn config_from_entry(name: &str, entry: &LeaseEntry, dns: &Vec<String>) -> (r: Result<GuestConfig, EngineError>)
    requires
        addressable(entry@.network),
    ensures
        match r {
            Ok(c) => entry_config(name@, entry@, texts(dns@)) == Ok::<ConfigView, Seq<char>>(c@),
            Err(e) => entry_config(name@, entry@, texts(dns@)) matches Err(m) && e@ == invalid_input(m),
        },
{
    match CidrNet::parse(entry.network.as_str()) {
        Err(e) => Err(e),
        Ok(CidrNet::V6 { network, prefix }) => Err(
            EngineError::invalid("sandbox TAP networking supports IPv4 only".to_owned()),
        ),
        Ok(CidrNet::V4 { network, prefix }) => {
            let tap = match &entry.tap {
                Some(t) => t.clone(),
                None => tap_name(name),
            };
            let net = CidrNet::V4 { network, prefix };
            Ok(
                GuestConfig {
                    tap,
                    host_ip: render_v4(network + 1),
                    guest_ip: render_v4(network + 2),
                    prefix,
                    network: net.render(),
                    dns: copy_list(dns),
                },
            )
        },
    }
}

/// The lowest address of a network of a sandbox's size.
pub open spec fn lease_base(network: Seq<char>) -> Option<u32> {
    match read_cidr(network) {
        Ok(CidrNet::V4 { network, prefix }) => if prefix == LEASE_PREFIX {
            Some(network)
        } else {
            None
        },
        _ => None,
    }
}

/// The lowest address of a network of a sandbox's size.
pub fn lease_network_base(network: &str) -> (r: Option<u32>)
    ensures
        r == lease_base(network@),
        r matches Some(b) ==> b % 4 == 0,
{
    match CidrNet::parse(network) {
        Ok(CidrNet::V4 { network: base, prefix }) => if prefix == LEASE_PREFIX {
            proof {
                lemma_base_aligned(network@);
            }
            Some(base)
        } else {
            None
        },
        _ => None,
    }
}

proof fn lemma_block_of_four(a: nat)
    ensures
        block_of(a, 32, 30) == a - a % 4,
{
    vstd::arithmetic::power2::lemma2_to64();
}

proof fn lemma_base_aligned(network: Seq<char>)
    ensures
        lease_base(network) matches Some(b) ==> b % 4 == 0,
{
    reveal(read_cidr);
    if lease_base(network) is Some {
        let s = crate::text::trimmed(network);
        let addr = match crate::split::halves_at_first(s, '/') {
            Some((a, p)) => a,
            None => s,
        };
        match read_ip(addr) {
            Some(IpAddr::V4(a)) => {
                lemma_block_of_four(a as nat);
            },
            _ => {},
        }
    }
}

/// The blocks of the range.
pub open spec fn pool_blocks() -> Set<u32> {
    Set::new(|b: u32| POOL_BASE <= b < POOL_BASE + POOL_SIZE && b % 4 == 0)
}

/// The blocks that leases take.
pub open spec fn leased_blocks(leases: Map<Seq<char>, EntryView>) -> Set<u32> {
    Set::new(|b: u32| exists|n: Seq<char>| #[trigger] leases.contains_key(n) && lease_base(leases[n].network) == Some(b))
}

/// The leases by sandbox name, and the blocks that are free.
pub ghost struct AllocView {
    pub leases: Map<Seq<char>, EntryView>,
    pub free: Set<u32>,
}

/// The allocator of sandbox networks.
pub struct LeaseAllocator {
    leases: TextMap<LeaseEntry>,
    free: NumSet,
}

impl View for LeaseAllocator {
    type V = AllocView;

    closed spec fn view(&self) -> AllocView {
        AllocView { leases: self.leases@, free: self.free@ }
    }
}

/// The state that kept leases give.
pub open spec fn loaded(leases: Map<Seq<char>, EntryView>) -> AllocView {
    AllocView { leases, free: pool_blocks() - leased_blocks(leases) }
}

/// The state in which `name` has the block at `base`.
pub open spec fn with_lease(v: AllocView, name: Seq<char>, base: u32, tap: Seq<char>) -> AllocView {
    AllocView {
        leases: v.leases.insert(name, EntryView { network: v4_text(base as nat) + "/30"@, tap: Some(tap) }),
        free: v.free.remove(base),
    }
}

/// The state in which `name` has no lease.
pub open spec fn without_lease(v: AllocView, name: Seq<char>) -> AllocView {
    if !v.leases.contains_key(name) {
        v
    } else {
        AllocView {
            leases: v.leases.remove(name),
            free: match lease_base(v.leases[name].network) {
                Some(b) => v.free.insert(b),
                None => v.free,
            },
        }
    }
}

pub open spec fn pool_exhausted() -> ErrorView {
    failure(ErrorCode::Engine, "no free /30 networks left in 172.20.0.0/16"@)
}

pub open spec fn opt_str(o: Option<&String>) -> Option<Seq<char>> {
    match o {
        Some(s) => Some(s@),
        None => None,
    }
}

proof fn lemma_fresh_entry(base: u32)
    requires
        base % 4 == 0,
    ensures
        read_cidr(v4_text(base as nat) + "/30"@) == Ok::<CidrNet, Seq<char>>(
            CidrNet::V4 { network: base, prefix: LEASE_PREFIX },
        ),
        v4_text(base as nat) + "/"@ + crate::decimal::decimal(30) == v4_text(base as nat) + "/30"@,
{
    lemma_block_of_four(base as nat);
    law_v4_block_reads_back(base, 30);
    reveal_strlit("/");
    reveal_strlit("/30");
    reveal_with_fuel(crate::decimal::decimal, 2);
    assert(crate::decimal::decimal(30) =~= seq!['3', '0']);
    assert("/30"@ =~= "/"@ + crate::decimal::decimal(30));
    assert(v4_text(base as nat) + "/"@ + crate::decimal::decimal(30) =~= v4_text(base as nat) + "/30"@);
}

fn fresh_lease(name: &str, base: u32, dns: &Vec<String>, tap: Option<&String>) -> (r: (LeaseEntry, GuestConfig))
    requires
        base % 4 == 0,
    ensures
        ({
            let named = opt_str(tap).unwrap_or(tap_name_of(name@));
            &&& r.0@ == (EntryView { network: v4_text(base as nat) + "/30"@, tap: Some(named) })
            &&& r.1@ == config_at(named, base as nat, LEASE_PREFIX, texts(dns@))
        }),
{
    let named = match tap {
        Some(t) => t.clone(),
        None => tap_name(name),
    };
    let network = cat2(render_v4(base).as_str(), "/30");
    proof {
        lemma_fresh_entry(base);
    }
    let config = GuestConfig {
        tap: named.clone(),
        host_ip: render_v4(base + 1),
        guest_ip: render_v4(base + 2),
        prefix: LEASE_PREFIX,
        network: network.clone(),
        dns: copy_list(dns),
    };
    (LeaseEntry { network, tap: Some(named) }, config)
}

/// Whether one of the first leases takes a block.
spec fn takes(leases: TextMap<LeaseEntry>, n: int, b: u32) -> bool {
    exists|j: int| 0 <= j < n && lease_base(leases@[#[trigger] leases.keys()[j]].network) == Some(b)
}

fn taken_blocks(leases: &TextMap<LeaseEntry>) -> (r: NumSet)
    ensures
        r@ == leased_blocks(leases@),
{
    let mut taken = NumSet::new();
    let n = leases.len();
    let mut i: usize = 0;
    while i < n
        invariant
            i <= n,
            n == leases.keys().len(),
            forall|k: Seq<char>| leases@.contains_key(k) <==> leases.keys().contains(k),
            forall|b: u32| #[trigger] taken@.contains(b) <==> takes(*leases, i as int, b),
        decreases n - i,
    {
        let ghost was = taken@;
        let entry = leases.value_at(i);
        let base = lease_network_base(entry.network.as_str());
        match base {
            Some(b) => {
                taken.insert(b);
            },
            None => {},
        }
        proof {
            let k = leases.keys()[i as int];
            assert(lease_base(leases@[k].network) == base);
            assert forall|b: u32| #[trigger] taken@.contains(b) <==> takes(*leases, i + 1, b) by {
                assert(was.contains(b) == takes(*leases, i as int, b));
                if takes(*leases, i as int, b) {
                    let j = choose|j: int|
                        0 <= j < i && lease_base(leases@[#[trigger] leases.keys()[j]].network) == Some(b);
                    assert(0 <= j < i + 1 && lease_base(leases@[leases.keys()[j]].network) == Some(b));
                }
            }
        }
        i = i + 1;
    }
    let ghost all = leased_blocks(leases@);
    proof {
        assert forall|b: u32| taken@.contains(b) == all.contains(b) by {
            if taken@.contains(b) {
                let j = choose|j: int|
                    0 <= j < n && lease_base(leases@[#[trigger] leases.keys()[j]].network) == Some(b);
                assert(leases.keys().contains(leases.keys()[j]));
                assert(leases@.contains_key(leases.keys()[j]));
            }
            if all.contains(b) {
                let k = choose|k: Seq<char>| #[trigger]
                    leases@.contains_key(k) && lease_base(leases@[k].network) == Some(b);
                assert(leases.keys().contains(k));
                let j = choose|j: int| 0 <= j < leases.keys().len() && leases.keys()[j] == k;
                assert(lease_base(leases@[leases.keys()[j]].network) == Some(b));
                assert(takes(*leases, n as int, b));
            }
        }
        assert(taken@ =~= all);
    }
    taken
}

impl LeaseAllocator {
    #[verifier::type_invariant]
    spec fn inv(self) -> bool {
        forall|b: u32| #[trigger] self.free@.contains(b) ==> b % 4 == 0
    }

    fn blank() -> (r: LeaseAllocator)
        ensures
            r.free@ == Set::<u32>::empty(),
    {
        LeaseAllocator { leases: TextMap::new(), free: NumSet::new() }
    }

    /// The allocator that holds the kept leases; a block that none of them takes
    /// is free.
    pub fn load(leases: TextMap<LeaseEntry>) -> (r: LeaseAllocator)
        ensures
            r@ == loaded(leases@),
    {
        let taken = taken_blocks(&leases);
        let mut free = NumSet::new();
        let mut offset: u32 = 0;
        while offset < POOL_SIZE
            invariant
                offset <= POOL_SIZE,
                offset % 4 == 0,
                forall|b: u32| #[trigger]
                    free@.contains(b) <==> (POOL_BASE <= b < POOL_BASE + offset && b % 4 == 0 && !taken@.contains(b)),
            decreases POOL_SIZE - offset,
        {
            let base: u32 = POOL_BASE + offset;
            if !taken.contains(base) {
                free.insert(base);
            }
            offset = offset + LEASE_STEP;
        }
        assert(free@ =~= pool_blocks() - leased_blocks(leases@));
        LeaseAllocator { leases, free }
    }

    /// Whether the kept lease of `name`, if there is one, has room for its
    /// addresses.
    pub fn is_addressable(&self, name: &str) -> (r: bool)
        ensures
            r == (self@.leases.contains_key(name@) ==> addressable(self@.leases[name@].network)),
    {
        match self.leases.get(name) {
            None => true,
            Some(entry) => match CidrNet::parse(entry.network.as_str()) {
                Ok(CidrNet::V4 { network, prefix }) => network <= u32::MAX - 2,
                _ => true,
            },
        }
    }

    /// The configuration of `name`, which keeps the network it has, or gets the
    /// lowest block that is free; and whether anything changed.
    pub fn allocate(&mut self, name: &str, dns: &Vec<String>, tap: Option<&String>) -> (r: Result<
        (GuestConfig, bool),
        EngineError,
    >)
        requires
            old(self)@.leases.contains_key(name@) ==> addressable(old(self)@.leases[name@].network),
        ensures
            ({
                let v = old(self)@;
                let base = lowest(v.free);
                let named = opt_str(tap).unwrap_or(tap_name_of(name@));
                if v.leases.contains_key(name@) {
                    &&& final(self)@ == v
                    &&& match r {
                        Ok((c, changed)) => !changed && entry_config(name@, v.leases[name@], texts(dns@)) == Ok::<
                            ConfigView,
                            Seq<char>,
                        >(c@),
                        Err(e) => entry_config(name@, v.leases[name@], texts(dns@)) matches Err(m) && e@
                            == invalid_input(m),
                    }
                } else if v.free == Set::<u32>::empty() {
                    &&& final(self)@ == v
                    &&& r matches Err(e) && e@ == pool_exhausted()
                } else {
                    &&& v.free.contains(base)
                    &&& base % 4 == 0
                    &&& forall|b: u32| #[trigger] v.free.contains(b) ==> base <= b
                    &&& final(self)@ == with_lease(v, name@, base, named)
                    &&& r matches Ok((c, changed)) && changed && c@ == config_at(
                        named,
                        base as nat,
                        LEASE_PREFIX,
                        texts(dns@),
                    )
                }
            }),
    {
        proof {
            use_type_invariant(&*self);
        }
        match self.leases.get(name) {
            Some(entry) => {
                return match config_from_entry(name, entry, dns) {
                    Ok(config) => Ok((config, false)),
                    Err(e) => Err(e),
                };
            },
            None => {},
        }
        let mut taken = LeaseAllocator::blank();
        core::mem::swap(self, &mut taken);
        let mut leases = taken.leases;
        let mut free = taken.free;
        match free.pop_lowest() {
            None => {
                *self = LeaseAllocator { leases, free };
                Err(EngineError::engine("no free /30 networks left in 172.20.0.0/16".to_owned()))
            },
            Some(base) => {
                let (entry, config) = fresh_lease(name, base, dns, tap);
                leases.insert(name.to_owned(), entry);
                *self = LeaseAllocator { leases, free };
                Ok((config, true))
            },
        }
    }

    /// The leases.
    pub fn leases(&self) -> (r: &TextMap<LeaseEntry>)
        ensures
            r@ == self@.leases,
    {
        &self.leases
    }

    /// Gives up the lease of `name`; whether there was one.
    pub fn release(&mut self, name: &str) -> (r: bool)
        ensures
            r == old(self)@.leases.contains_key(name@),
            final(self)@ == without_lease(old(self)@, name@),
    {
        proof {
            use_type_invariant(&*self);
        }
        let base = match self.leases.get(name) {
            None => return false,
            Some(entry) => lease_network_base(entry.network.as_str()),
        };
        let mut taken = LeaseAllocator::blank();
        core::mem::swap(self, &mut taken);
        let mut leases = taken.leases;
        let mut free = taken.free;
        leases.remove(name);
        match base {
            Some(b) => {
                free.insert(b);
            },
            None => {},
        }
        *self = LeaseAllocator { leases, free };
        true
    }

    /// The configuration of `name`, where it has a lease that stands for one.
    pub fn lease_for(&self, name: &str, dns: &Vec<String>) -> (r: Option<GuestConfig>)
        requires
            self@.leases.contains_key(name@) ==> addressable(self@.leases[name@].network),
        ensures
            match r {
                Some(c) => self@.leases.contains_key(name@) && entry_config(name@, self@.leases[name@], texts(dns@))
                    == Ok::<ConfigView, Seq<char>>(c@),
                None => self@.leases.contains_key(name@) ==> entry_config(
                    name@,
                    self@.leases[name@],
                    texts(dns@),
                ) is Err,
            },
    {
        match self.leases.get(name) {
            None => None,
            Some(entry) => match config_from_entry(name, entry, dns) {
                Ok(config) => Some(config),
                Err(_) => None,
            },
        }
    }
}

/// Whether the leases take distinct blocks of the range, none of which is free.
pub open spec fn consistent(v: AllocView) -> bool {
    &&& forall|n: Seq<char>| #[trigger]
        v.leases.contains_key(n) ==> (lease_base(v.leases[n].network) matches Some(b) && pool_blocks().contains(b)
            && !v.free.contains(b))
    &&& forall|n: Seq<char>, m: Seq<char>|
        #![trigger v.leases.contains_key(n), v.leases.contains_key(m)]
        v.leases.contains_key(n) && v.leases.contains_key(m) && n != m ==> lease_base(v.leases[n].network)
            != lease_base(v.leases[m].network)
    &&& v.free.subset_of(pool_blocks())
}

/// What is loaded from leases of distinct blocks is consistent, and every block
/// of the range is either leased or free.
pub proof fn law_loaded_is_consistent(leases: Map<Seq<char>, EntryView>)
    requires
        forall|n: Seq<char>| #[trigger]
            leases.contains_key(n) ==> (lease_base(leases[n].network) matches Some(b) && pool_blocks().contains(b)),
        forall|n: Seq<char>, m: Seq<char>|
            #![trigger leases.contains_key(n), leases.contains_key(m)]
            leases.contains_key(n) && leases.contains_key(m) && n != m ==> lease_base(leases[n].network)
                != lease_base(leases[m].network),
    ensures
        consistent(loaded(leases)),
        forall|b: u32| #[trigger]
            pool_blocks().contains(b) ==> (loaded(leases).free.contains(b) <==> !leased_blocks(leases).contains(b)),
{
    let v = loaded(leases);
    assert forall|n: Seq<char>| #[trigger] v.leases.contains_key(n) implies (lease_base(
        v.leases[n].network,
    ) matches Some(b) && pool_blocks().contains(b) && !v.free.contains(b)) by {
        let b = lease_base(leases[n].network)->0;
        assert(leased_blocks(leases).contains(b));
    }
}

/// An entry made for a block stands for the configuration that was handed out
/// with it: asking again for the same name gives the same network.
pub proof fn law_allocation_is_repeatable(
    v: AllocView,
    name: Seq<char>,
    base: u32,
    tap: Seq<char>,
    dns: Seq<Seq<char>>,
)
    requires
        base % 4 == 0,
    ensures
        ({
            let after = with_lease(v, name, base, tap);
            &&& after.leases.contains_key(name)
            &&& addressable(after.leases[name].network)
            &&& lease_base(after.leases[name].network) == Some(base)
            &&& entry_config(name, after.leases[name], dns) == Ok::<ConfigView, Seq<char>>(
                config_at(tap, base as nat, LEASE_PREFIX, dns),
            )
        }),
{
    lemma_fresh_entry(base);
}

/// Handing out a free block keeps the networks apart.
pub proof fn law_allocation_keeps_networks_apart(v: AllocView, name: Seq<char>, base: u32, tap: Seq<char>)
    requires
        consistent(v),
        !v.leases.contains_key(name),
        v.free.contains(base),
    ensures
        consistent(with_lease(v, name, base, tap)),
{
    assert(pool_blocks().contains(base));
    lemma_fresh_entry(base);
    let w = with_lease(v, name, base, tap);
    assert(lease_base(w.leases[name].network) == Some(base));
    assert forall|n: Seq<char>, m: Seq<char>|
        #![trigger w.leases.contains_key(n), w.leases.contains_key(m)]
        w.leases.contains_key(n) && w.leases.contains_key(m) && n != m implies lease_base(w.leases[n].network)
        != lease_base(w.leases[m].network) by {
        if n != name {
            assert(v.leases.contains_key(n));
        }
        if m != name {
            assert(v.leases.contains_key(m));
        }
    }
    assert forall|n: Seq<char>| #[trigger] w.leases.contains_key(n) implies (lease_base(
        w.leases[n].network,
    ) matches Some(b) && pool_blocks().contains(b) && !w.free.contains(b)) by {
        if n != name {
            assert(v.leases.contains_key(n));
        }
    }
}

/// Giving up a lease keeps the networks apart, and frees its block.
pub proof fn law_release_keeps_networks_apart(v: AllocView, name: Seq<char>)
    requires
        consistent(v),
    ensures
        consistent(without_lease(v, name)),
        v.leases.contains_key(name) ==> without_lease(v, name).free.contains(
            lease_base(v.leases[name].network)->0,
        ),
{
    let w = without_lease(v, name);
    if v.leases.contains_key(name) {
        assert forall|n: Seq<char>| #[trigger] w.leases.contains_key(n) implies (lease_base(
            w.leases[n].network,
        ) matches Some(b) && pool_blocks().contains(b) && !w.free.contains(b)) by {
            assert(v.leases.contains_key(n));
        }
        assert forall|n: Seq<char>, m: Seq<char>|
            #![trigger w.leases.contains_key(n), w.leases.contains_key(m)]
            w.leases.contains_key(n) && w.leases.contains_key(m) && n != m implies lease_base(w.leases[n].network)
            != lease_base(w.leases[m].network) by {
            assert(v.leases.contains_key(n) && v.leases.contains_key(m));
        }
    }
}

/// Handing out a free block leaves free exactly the blocks of the range that no lease
/// takes.
pub proof fn law_allocation_keeps_free_blocks_exact(v: AllocView, name: Seq<char>, base: u32, tap: Seq<char>)
    requires
        v == loaded(v.leases),
        !v.leases.contains_key(name),
        v.free.contains(base),
    ensures
        with_lease(v, name, base, tap) == loaded(with_lease(v, name, base, tap).leases),
{
    assert(pool_blocks().contains(base));
    lemma_fresh_entry(base);
    let w = with_lease(v, name, base, tap);
    assert(lease_base(w.leases[name].network) == Some(base));
    let before = leased_blocks(v.leases);
    let after = leased_blocks(w.leases);
    assert forall|b: u32| #[trigger] after.contains(b) <==> before.contains(b) || b == base by {
        if after.contains(b) {
            let n = choose|n: Seq<char>| #[trigger] w.leases.contains_key(n) && lease_base(w.leases[n].network) == Some(b);
            if n != name {
                assert(v.leases.contains_key(n) && lease_base(v.leases[n].network) == Some(b));
            }
        }
        if before.contains(b) {
            let n = choose|n: Seq<char>| #[trigger] v.leases.contains_key(n) && lease_base(v.leases[n].network) == Some(b);
            assert(w.leases.contains_key(n) && lease_base(w.leases[n].network) == Some(b));
        }
        if b == base {
            assert(w.leases.contains_key(name));
        }
    }
    assert(w.free =~= pool_blocks() - after);
}

/// Giving up a lease leaves free exactly the blocks of the range that no lease takes,
/// where no two leases take the same block.
pub proof fn law_release_keeps_free_blocks_exact(v: AllocView, name: Seq<char>)
    requires
        consistent(v),
        v == loaded(v.leases),
    ensures
        without_lease(v, name) == loaded(without_lease(v, name).leases),
{
    if v.leases.contains_key(name) {
        let w = without_lease(v, name);
        let base = lease_base(v.leases[name].network)->0;
        let before = leased_blocks(v.leases);
        let after = leased_blocks(w.leases);
        assert forall|b: u32| #[trigger] after.contains(b) <==> before.contains(b) && b != base by {
            if after.contains(b) {
                let n = choose|n: Seq<char>| #[trigger]
                    w.leases.contains_key(n) && lease_base(w.leases[n].network) == Some(b);
                assert(v.leases.contains_key(n) && lease_base(v.leases[n].network) == Some(b));
                assert(v.leases.contains_key(name) && n != name);
            }
            if before.contains(b) && b != base {
                let n = choose|n: Seq<char>| #[trigger]
                    v.leases.contains_key(n) && lease_base(v.leases[n].network) == Some(b);
                assert(w.leases.contains_key(n) && lease_base(w.leases[n].network) == Some(b));
            }
        }
        assert(pool_blocks().contains(base));
        assert(w.free =~= pool_blocks() - after);
    }
}

/// Giving up a lease that was just handed out leads back to the state before.
pub proof fn law_release_undoes_allocation(v: AllocView, name: Seq<char>, base: u32, tap: Seq<char>)
    requires
        !v.leases.contains_key(name),
        v.free.contains(base),
        base % 4 == 0,
    ensures
        without_lease(with_lease(v, name, base, tap), name) == v,
{
    lemma_fresh_entry(base);
    let w = without_lease(with_lease(v, name, base, tap), name);
    assert(w.leases =~= v.leases);
    assert(w.free =~= v.free);
}

/// No address belongs to the networks of two sandboxes.
pub proof fn law_networks_are_disjoint(v: AllocView, n: Seq<char>, m: Seq<char>, addr: nat)
    requires
        consistent(v),
        v.leases.contains_key(n),
        v.leases.contains_key(m),
        n != m,
    ensures
        ({
            let a = lease_base(v.leases[n].network)->0;
            let b = lease_base(v.leases[m].network)->0;
            !(a <= addr < a + 4 && b <= addr < b + 4)
        }),
{
}

/// A block of the range and a TAP name make a valid lease, with the network that
/// the configuration names.
pub proof fn law_configuration_is_a_lease(tap: Seq<char>, base: u32, dns: Seq<Seq<char>>)
    requires
        pool_blocks().contains(base),
        0 < tap.len() < 16,
        vstd::utf8::is_ascii_chars(tap),
    ensures
        ({
            let c = config_at(tap, base as nat, LEASE_PREFIX, dns);
            tap_lease(c.tap, c.guest_ip, c.host_ip, c.prefix, None) matches Ok(lease) && lease.network == c.network
                && lease.guest_ip == c.guest_ip && lease.host_ip == c.host_ip
        }),
{
    let c = config_at(tap, base as nat, LEASE_PREFIX, dns);
    vstd::utf8::is_ascii_chars_encode_utf8(tap);
    let host: u32 = (base + 1) as u32;
    let guest: u32 = (base + 2) as u32;
    lemma_address_text(host);
    lemma_address_text(guest);
    lemma_fresh_entry(base);
    lemma_placement(base);
    assert(read_cidrs(Seq::<Seq<char>>::empty()) == Ok::<Seq<CidrNet>, Seq<char>>(Seq::empty()));
    assert(None::<Seq<Seq<char>>>.unwrap_or(Seq::empty()) == Seq::<Seq<char>>::empty());
}

proof fn lemma_address_text(a: u32)
    ensures
        tap_address(v4_text(a as nat)) == Ok::<u32, Seq<char>>(a),
{
    law_v4_reads_back(a);
    let s = v4_text(a as nat);
    assert(read_v4(s) == Some(a as nat));
}

proof fn lemma_placement(base: u32)
    requires
        pool_blocks().contains(base),
    ensures
        tap_placement((base + 2) as u32, (base + 1) as u32) == Ok::<u32, Seq<char>>(base),
{
    lemma_block_of_four((base + 1) as nat);
    lemma_block_of_four((base + 2) as nat);
    assert(block_of(base as nat, 32, 16) == POOL_BASE) by {
        vstd::arithmetic::power2::lemma2_to64();
        assert(pow2(16) == 65536);
    }
}

/// The block that is handed out next is the lowest free one.
pub proof fn law_lowest_block_is_next(free: Set<u32>, b: u32)
    requires
        free.contains(b),
    ensures
        free.contains(lowest(free)),
        lowest(free) <= b,
{
    lemma_has_lowest(free, b);
}

proof fn lemma_has_lowest(free: Set<u32>, b: u32)
    requires
        free.contains(b),
    ensures
        free.contains(lowest(free)),
        forall|m: u32| #[trigger] free.contains(m) ==> lowest(free) <= m,
    decreases b,
{
    if forall|m: u32| #[trigger] free.contains(m) ==> b <= m {
        crate::numset::lemma_lowest(free, b);
    } else {
        let m = choose|m: u32| #[trigger] free.contains(m) && m < b;
        lemma_has_lowest(free, m);
    }
}

/// The blocks of the pool are those of four addresses in 172.20.0.0/16, in which the
/// host has the second address and the guest the third.
pub proof fn law_blocks_hold_host_and_guest(base: u32, tap: Seq<char>, dns: Seq<Seq<char>>)
    ensures
        pool_blocks().contains(base) <==> base as nat / 65536 == 172 * 256 + 20 && base % 4 == 0,
        ({
            let c = config_at(tap, base as nat, 30, dns);
            &&& c.tap == tap
            &&& c.host_ip == v4_text((base + 1) as nat)
            &&& c.guest_ip == v4_text((base + 2) as nat)
            &&& c.network == v4_text(base as nat) + "/"@ + crate::decimal::decimal(30)
            &&& c.prefix == 30
            &&& c.dns == dns
        }),
{
}

/// An allocation takes its block and no other, and gives nobody else's lease away; a
/// release gives the block back.
pub proof fn law_allocation_concerns_one_name(
    v: AllocView,
    name: Seq<char>,
    base: u32,
    tap: Seq<char>,
    other: Seq<char>,
    b: u32,
)
    requires
        other != name,
        b != base,
    ensures
        ({
            let w = with_lease(v, name, base, tap);
            let x = without_lease(v, name);
            &&& w.leases.contains_key(name) && w.leases[name].tap == Some(tap)
            &&& !w.free.contains(base)
            &&& w.free.contains(b) == v.free.contains(b)
            &&& w.leases.contains_key(other) == v.leases.contains_key(other) && w.leases[other] == v.leases[other]
            &&& !x.leases.contains_key(name)
            &&& x.leases.contains_key(other) == v.leases.contains_key(other) && (v.leases.contains_key(other)
                ==> x.leases[other] == v.leases[other])
            &&& v.free.subset_of(x.free)
        }),
{
}

} // verus!
