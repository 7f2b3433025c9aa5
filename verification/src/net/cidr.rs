//! Blocks of addresses: their texts, and which addresses lie in them.
use crate::decimal::{decimal, is_digit, parse_u64, parsed, render_u64};
use crate::error::EngineError;
use crate::net::addr::{
    bad_address, invalid_input, law_v4_reads_back, parse_ip, read_ip, render_v4, render_v6, v4_text, v6_text, IpAddr,
};
use crate::split::{halves_at_first, split_first};
use crate::text::{cat2, cat3, texts, trim, trimmed};
use vstd::arithmetic::power2::pow2;
use vstd::prelude::*;

verus! {

broadcast use vstd::arithmetic::power2::lemma_pow2_pos;

fn two_to(k: u8) -> (r: u128)
    requires
        k <= 127,
    ensures
        r as nat == pow2(k as nat),
{
    let mut r: u128 = 1;
    let mut i: u8 = 0;
    proof {
        vstd::arithmetic::power2::lemma2_to64();
    }
    while i < k
        invariant
            i <= k <= 127,
            r as nat == pow2(i as nat),
        decreases k - i,
    {
        proof {
            vstd::arithmetic::power2::lemma_pow2_unfold((i + 1) as nat);
            lemma_pow2_127(i as nat);
        }
        r = r * 2;
        i = i + 1;
    }
    r
}

proof fn lemma_pow2_127(i: nat)
    requires
        i < 127,
    ensures
        2 * pow2(i) <= u128::MAX,
{
    vstd::arithmetic::power2::lemma2_to64();
    vstd::arithmetic::power2::lemma2_to64_rest();
    vstd::arithmetic::power2::lemma_pow2_adds(63, 63);
    assert(pow2(126) == 0x8000_0000_0000_0000 * 0x8000_0000_0000_0000);
    if i < 126 {
        vstd::arithmetic::power2::lemma_pow2_strictly_increases(i, 126);
    }
}

proof fn lemma_pow2_32(k: nat)
    requires
        k <= 32,
    ensures
        1 <= pow2(k) <= 0x1_0000_0000,
        k < 32 ==> pow2(k) <= 0x8000_0000,
{
    vstd::arithmetic::power2::lemma2_to64();
    if k < 32 {
        vstd::arithmetic::power2::lemma_pow2_strictly_increases(k, 32);
    }
    if k < 31 {
        vstd::arithmetic::power2::lemma_pow2_strictly_increases(k, 31);
    }
}

/// The lowest address of the block of `width`-bit addresses that agree with
/// `addr` in the first `prefix` bits.
pub open spec fn block_of(addr: nat, width: nat, prefix: nat) -> nat {
    (addr - addr % pow2((width - prefix) as nat)) as nat
}

/// The bits of an address that a prefix of this length fixes.
pub fn ipv4_mask(prefix: u8) -> (r: u32)
    requires
        prefix <= 32,
    ensures
        r == 0x1_0000_0000 - pow2((32 - prefix) as nat),
{
    proof {
        lemma_pow2_32((32 - prefix) as nat);
    }
    (0x1_0000_0000u128 - two_to(32 - prefix)) as u32
}

/// The block of this prefix length that holds an address.
pub fn ipv4_network(addr: u32, prefix: u8) -> (r: Result<u32, EngineError>)
    ensures
        match r {
            Ok(n) => prefix <= 32 && n as nat == block_of(addr as nat, 32, prefix as nat),
            Err(e) => prefix > 32 && e@ == invalid_input("invalid IPv4 prefix "@ + decimal(prefix as nat)),
        },
{
    if prefix > 32 {
        let digits = render_u64(prefix as u64);
        return Err(EngineError::invalid(cat2("invalid IPv4 prefix ", digits.as_str())));
    }
    proof {
        lemma_pow2_32((32 - prefix) as nat);
        lemma_block(addr as nat, pow2((32 - prefix) as nat));
    }
    let size = two_to(32 - prefix);
    Ok((addr as u128 - addr as u128 % size) as u32)
}

proof fn lemma_block(addr: nat, size: nat)
    requires
        size > 0,
    ensures
        0 <= addr % size <= addr,
        addr % size < size,
{
    vstd::arithmetic::div_mod::lemma_mod_bound(addr as int, size as int);
    vstd::arithmetic::div_mod::lemma_mod_decreases(addr, size);
}

/// Whether an address lies in the block at `network`.
pub fn ipv4_contains(network: u32, prefix: u8, addr: u32) -> (r: bool)
    requires
        prefix <= 32,
    ensures
        r == (block_of(addr as nat, 32, prefix as nat) == network as nat),
{
    proof {
        lemma_pow2_32((32 - prefix) as nat);
        lemma_block(addr as nat, pow2((32 - prefix) as nat));
    }
    let size = two_to(32 - prefix);
    addr as u128 - addr as u128 % size == network as u128
}

fn block_v6(addr: u128, prefix: u8) -> (r: u128)
    requires
        prefix <= 128,
    ensures
        r as nat == block_of(addr as nat, 128, prefix as nat),
{
    if prefix == 0 {
        proof {
            vstd::arithmetic::power2::lemma2_to64();
            vstd::arithmetic::power2::lemma2_to64_rest();
            vstd::arithmetic::power2::lemma_pow2_adds(64, 64);
            assert(pow2(128) == 0x1_0000_0000_0000_0000 * 0x1_0000_0000_0000_0000);
            vstd::arithmetic::div_mod::lemma_small_mod(addr as nat, pow2(128));
        }
        0
    } else {
        proof {
            lemma_block(addr as nat, pow2((128 - prefix) as nat));
        }
        let size = two_to(128 - prefix);
        addr - addr % size
    }
}

/// The block of this prefix length that holds an address.
pub fn ipv6_network(addr: u128, prefix: u8) -> (r: Result<u128, EngineError>)
    ensures
        match r {
            Ok(n) => prefix <= 128 && n as nat == block_of(addr as nat, 128, prefix as nat),
            Err(e) => prefix > 128 && e@ == invalid_input("invalid IPv6 prefix "@ + decimal(prefix as nat)),
        },
{
    if prefix > 128 {
        let digits = render_u64(prefix as u64);
        return Err(EngineError::invalid(cat2("invalid IPv6 prefix ", digits.as_str())));
    }
    Ok(block_v6(addr, prefix))
}

/// A block of addresses: those that agree with its lowest one in the first
/// `prefix` bits.
#[derive(Clone, Copy, PartialEq, Eq, Structural, Debug)]
#[allow(inconsistent_fields)]
pub enum CidrNet {
    V4 { network: u32, prefix: u8 },
    V6 { network: u128, prefix: u8 },
}

pub open spec fn bad_prefix(prefix: Seq<char>) -> Seq<char> {
    "invalid CIDR prefix "@ + prefix
}

/// The prefix length a text gives, `max` where there is no text.
pub open spec fn read_prefix(prefix: Option<Seq<char>>, max: nat) -> Option<nat> {
    match prefix {
        None => Some(max),
        Some(s) => parsed(s, max),
    }
}

fn parse_prefix(prefix: Option<&String>, max: u8) -> (r: Result<u8, EngineError>)
    ensures
        match prefix {
            None => r matches Ok(v) && v == max,
            Some(s) => match r {
                Ok(v) => parsed(s@, max as nat) == Some(v as nat) && v <= max,
                Err(e) => parsed(s@, max as nat) is None && e@ == invalid_input(bad_prefix(s@)),
            },
        },
{
    match prefix {
        None => Ok(max),
        Some(s) => match parse_u64(s.as_str(), max as u64) {
            Some(v) => Ok(v as u8),
            None => Err(EngineError::invalid(cat2("invalid CIDR prefix ", s.as_str()))),
        },
    }
}

/// The block that a text of an address and an optional prefix length stands for,
/// or what is wrong with the text.
#[verifier::opaque]
pub open spec fn read_cidr(text: Seq<char>) -> Result<CidrNet, Seq<char>> {
    let s = trimmed(text);
    let (addr, prefix) = match halves_at_first(s, '/') {
        Some((a, p)) => (a, Some(p)),
        None => (s, None),
    };
    if s.len() == 0 {
        Err("empty CIDR"@)
    } else {
        match read_ip(addr) {
            None => Err(bad_address(addr)),
            Some(IpAddr::V4(a)) => match read_prefix(prefix, 32) {
                None => Err(bad_prefix(prefix->0)),
                Some(p) => Ok(CidrNet::V4 { network: block_of(a as nat, 32, p) as u32, prefix: p as u8 }),
            },
            Some(IpAddr::V6(a)) => match read_prefix(prefix, 128) {
                None => Err(bad_prefix(prefix->0)),
                Some(p) => Ok(CidrNet::V6 { network: block_of(a as nat, 128, p) as u128, prefix: p as u8 }),
            },
        }
    }
}

impl CidrNet {
    /// Whether an address of this length can have the prefix.
    pub open spec fn sound(self) -> bool {
        match self {
            CidrNet::V4 { network, prefix } => prefix <= 32,
            CidrNet::V6 { network, prefix } => prefix <= 128,
        }
    }

    /// Whether the block holds an address.
    pub open spec fn holds(self, addr: IpAddr) -> bool {
        match (self, addr) {
            (CidrNet::V4 { network, prefix }, IpAddr::V4(a)) => block_of(a as nat, 32, prefix as nat)
                == network as nat,
            (CidrNet::V6 { network, prefix }, IpAddr::V6(a)) => block_of(a as nat, 128, prefix as nat)
                == network as nat,
            _ => false,
        }
    }

    /// The block's text: its lowest address and its prefix length.
    pub open spec fn text(self) -> Seq<char> {
        match self {
            CidrNet::V4 { network, prefix } => v4_text(network as nat) + "/"@ + decimal(prefix as nat),
            CidrNet::V6 { network, prefix } => v6_text(network as nat) + "/"@ + decimal(prefix as nat),
        }
    }

    /// Whether the block holds an address.
    pub fn contains(&self, addr: IpAddr) -> (r: bool)
        requires
            self.sound(),
        ensures
            r == self.holds(addr),
    {
        match (*self, addr) {
            (CidrNet::V4 { network, prefix }, IpAddr::V4(a)) => ipv4_contains(network, prefix, a),
            (CidrNet::V6 { network, prefix }, IpAddr::V6(a)) => block_v6(a, prefix) == network,
            _ => false,
        }
    }

    /// The block that `value` spells.
    pub fn parse(value: &str) -> (r: Result<CidrNet, EngineError>)
        ensures
            match r {
                Ok(net) => read_cidr(value@) == Ok::<CidrNet, Seq<char>>(net) && net.sound(),
                Err(e) => read_cidr(value@) matches Err(m) && e@ == invalid_input(m),
            },
    {
        proof {
            reveal(read_cidr);
        }
        let value = trim(value);
        if value.as_str().is_empty() {
            return Err(EngineError::invalid("empty CIDR".to_owned()));
        }
        let (addr, prefix) = match split_first(value.as_str(), '/') {
            Some((a, p)) => (a, Some(p)),
            None => (value, None),
        };
        match parse_ip(addr.as_str()) {
            Err(e) => Err(e),
            Ok(IpAddr::V4(a)) => match parse_prefix(prefix.as_ref(), 32) {
                Err(e) => Err(e),
                Ok(p) => match ipv4_network(a, p) {
                    Err(e) => Err(e),
                    Ok(network) => Ok(CidrNet::V4 { network, prefix: p }),
                },
            },
            Ok(IpAddr::V6(a)) => match parse_prefix(prefix.as_ref(), 128) {
                Err(e) => Err(e),
                Ok(p) => match ipv6_network(a, p) {
                    Err(e) => Err(e),
                    Ok(network) => Ok(CidrNet::V6 { network, prefix: p }),
                },
            },
        }
    }

    /// The block's text.
    pub fn render(&self) -> (r: String)
        ensures
            r@ == self.text(),
    {
        match *self {
            CidrNet::V4 { network, prefix } => {
                let a = render_v4(network);
                let p = render_u64(prefix as u64);
                cat3(a.as_str(), "/", p.as_str())
            },
            CidrNet::V6 { network, prefix } => {
                let a = render_v6(network);
                let p = render_u64(prefix as u64);
                cat3(a.as_str(), "/", p.as_str())
            },
        }
    }
}

/// The blocks that a list of texts stands for, or what is wrong with the first
/// text that is wrong.
pub open spec fn read_cidrs(items: Seq<Seq<char>>) -> Result<Seq<CidrNet>, Seq<char>>
    decreases items.len(),
{
    if items.len() == 0 {
        Ok(Seq::empty())
    } else {
        match read_cidrs(items.drop_last()) {
            Err(m) => Err(m),
            Ok(nets) => match read_cidr(items.last()) {
                Err(m) => Err(m),
                Ok(net) => Ok(nets.push(net)),
            },
        }
    }
}

proof fn lemma_read_cidrs_prefix(items: Seq<Seq<char>>, n: int)
    requires
        0 <= n <= items.len(),
        read_cidrs(items.take(n)) is Err,
    ensures
        read_cidrs(items) == read_cidrs(items.take(n)),
    decreases items.len(),
{
    if n == items.len() {
        assert(items.take(n) =~= items);
    } else {
        assert(items.drop_last().take(n) =~= items.take(n));
        lemma_read_cidrs_prefix(items.drop_last(), n);
    }
}

/// The blocks that a list of texts stands for.
pub fn parse_cidrs(items: &Vec<String>) -> (r: Result<Vec<CidrNet>, EngineError>)
    ensures
        match r {
            Ok(nets) => read_cidrs(texts(items@)) == Ok::<Seq<CidrNet>, Seq<char>>(nets@) && forall|i: int|
                0 <= i < nets@.len() ==> (#[trigger] nets@[i]).sound(),
            Err(e) => read_cidrs(texts(items@)) matches Err(m) && e@ == invalid_input(m),
        },
{
    let mut nets: Vec<CidrNet> = Vec::new();
    let mut i: usize = 0;
    let ghost all = texts(items@);
    assert(all.take(0) =~= Seq::empty());
    assert(nets@ =~= Seq::empty());
    while i < items.len()
        invariant
            i <= items@.len(),
            all == texts(items@),
            read_cidrs(all.take(i as int)) == Ok::<Seq<CidrNet>, Seq<char>>(nets@),
            forall|j: int| 0 <= j < nets@.len() ==> (#[trigger] nets@[j]).sound(),
        decreases items@.len() - i,
    {
        proof {
            assert(all.take(i + 1).drop_last() =~= all.take(i as int));
            assert(all.take(i + 1).last() == items@[i as int]@);
        }
        match CidrNet::parse(items[i].as_str()) {
            Err(e) => {
                proof {
                    lemma_read_cidrs_prefix(all, i + 1);
                }
                return Err(e);
            },
            Ok(net) => {
                nets.push(net);
            },
        }
        i = i + 1;
    }
    assert(all.take(i as int) =~= all);
    Ok(nets)
}

/// The texts of an allow list: loopback where none is given.
pub open spec fn allow_list(list: Option<Seq<Seq<char>>>) -> Seq<Seq<char>> {
    match list {
        Some(items) => items,
        None => seq!["127.0.0.0/8"@],
    }
}

/// The blocks from which connections are let in.
pub fn parse_cidr_allowlist(allowlist: Option<&Vec<String>>) -> (r: Result<Vec<CidrNet>, EngineError>)
    ensures
        ({
            let given = match allowlist {
                Some(v) => Some(texts(v@)),
                None => None,
            };
            match r {
                Ok(nets) => read_cidrs(allow_list(given)) == Ok::<Seq<CidrNet>, Seq<char>>(nets@) && forall|i: int|
                    0 <= i < nets@.len() ==> (#[trigger] nets@[i]).sound(),
                Err(e) => read_cidrs(allow_list(given)) matches Err(m) && e@ == invalid_input(m),
            }
        }),
{
    match allowlist {
        Some(items) => parse_cidrs(items),
        None => {
            let mut items: Vec<String> = Vec::new();
            items.push("127.0.0.0/8".to_owned());
            assert(texts(items@) =~= seq!["127.0.0.0/8"@]);
            parse_cidrs(&items)
        },
    }
}

/// Whether one of the blocks holds an address.
pub fn ip_allowed(addr: IpAddr, nets: &Vec<CidrNet>) -> (r: bool)
    requires
        forall|i: int| 0 <= i < nets@.len() ==> (#[trigger] nets@[i]).sound(),
    ensures
        r == exists|i: int| 0 <= i < nets@.len() && (#[trigger] nets@[i]).holds(addr),
{
    let mut i: usize = 0;
    while i < nets.len()
        invariant
            i <= nets@.len(),
            forall|j: int| 0 <= j < nets@.len() ==> (#[trigger] nets@[j]).sound(),
            forall|j: int| 0 <= j < i ==> !(#[trigger] nets@[j]).holds(addr),
        decreases nets@.len() - i,
    {
        if nets[i].contains(addr) {
            return true;
        }
        i = i + 1;
    }
    false
}

/// An address lies in its block, and the block of the block's lowest address is
/// the block itself.
pub proof fn law_block_holds_its_addresses(addr: nat, width: nat, prefix: nat)
    requires
        prefix <= width,
    ensures
        block_of(addr, width, prefix) <= addr < block_of(addr, width, prefix) + pow2((width - prefix) as nat),
        block_of(block_of(addr, width, prefix), width, prefix) == block_of(addr, width, prefix),
{
    let size = pow2((width - prefix) as nat);
    lemma_block(addr, size);
    let low = block_of(addr, width, prefix);
    vstd::arithmetic::div_mod::lemma_fundamental_div_mod(addr as int, size as int);
    assert(low == size * (addr / size));
    vstd::arithmetic::div_mod::lemma_mod_multiples_basic((addr / size) as int, size as int);
    assert(low % size == 0) by {
        vstd::arithmetic::mul::lemma_mul_is_commutative(size as int, (addr / size) as int);
    }
}

/// The text of a block of four-byte addresses reads back as that block.
pub proof fn law_v4_block_reads_back(network: u32, prefix: u8)
    requires
        prefix <= 32,
        block_of(network as nat, 32, prefix as nat) == network,
    ensures
        ({
            let net = CidrNet::V4 { network, prefix };
            read_cidr(net.text()) == Ok::<CidrNet, Seq<char>>(net)
        }),
{
    let net = CidrNet::V4 { network, prefix };
    let a = v4_text(network as nat);
    let p = decimal(prefix as nat);
    let s = net.text();
    reveal(read_cidr);
    reveal_strlit("/");
    law_v4_reads_back(network);
    crate::decimal::law_decimal_reads_back(prefix as nat, 32);
    crate::decimal::lemma_decimal_digits(prefix as nat);
    assert("/"@ =~= seq!['/']);
    assert(s =~= a + seq!['/'] + p);
    assert(s[0] == a[0]);
    assert(s.last() == p.last());
    assert(is_digit(p[p.len() - 1]));
    assert(trimmed(s) == s) by {
        assert(!crate::text::is_space(s[0]));
        assert(!crate::text::is_space(s.last()));
    }
    assert forall|j: int| 0 <= j < a.len() implies s[j] != '/' by {
        assert(s[j] == a[j]);
        assert(a.contains(a[j]));
    }
    crate::split::lemma_first_halves(s, '/', a.len() as int);
    assert(s.take(a.len() as int) =~= a);
    assert(s.skip(a.len() as int + 1) =~= p);
}

/// A block of four-byte addresses holds as many addresses, from its first one on, as its
/// prefix leaves open; it holds no other.
pub proof fn law_block_is_a_range(network: u32, prefix: u8, addr: u32, wide: u128)
    requires
        prefix <= 32,
        network as nat % pow2((32 - prefix) as nat) == 0,
    ensures
        ({
            let net = CidrNet::V4 { network, prefix };
            &&& net.holds(IpAddr::V4(addr)) <==> network <= addr < network + pow2((32 - prefix) as nat)
            &&& !net.holds(IpAddr::V6(wide))
        }),
{
    let size = pow2((32 - prefix) as nat);
    law_block_holds_its_addresses(addr as nat, 32, prefix as nat);
    if network <= addr < network + size {
        vstd::arithmetic::div_mod::lemma_fundamental_div_mod(network as int, size as int);
        let q = network as int / size as int;
        assert(addr == q * size + (addr - network)) by (nonlinear_arith)
            requires
                network == size * q,
        ;
        vstd::arithmetic::div_mod::lemma_fundamental_div_mod_converse(
            addr as int,
            size as int,
            q,
            addr - network,
        );
    }
}

/// A list of blocks is read one by one, in order, or not at all.
pub proof fn law_blocks_are_read_in_order(items: Seq<Seq<char>>, i: int)
    ensures
        read_cidrs(items) matches Ok(nets) ==> nets.len() == items.len() && (0 <= i < items.len() ==> read_cidr(items[i])
            == Ok::<CidrNet, Seq<char>>(nets[i])),
        read_cidrs(items) is Err && items.len() > 0 ==> exists|j: int|
            0 <= j < items.len() && read_cidr(#[trigger] items[j]) is Err,
    decreases items.len(),
{
    if items.len() > 0 {
        let rest = items.drop_last();
        law_blocks_are_read_in_order(rest, i);
        if read_cidrs(rest) is Err && rest.len() > 0 {
            let j = choose|j: int| 0 <= j < rest.len() && read_cidr(#[trigger] rest[j]) is Err;
            assert(read_cidr(items[j]) is Err);
        } else if read_cidrs(items) is Err {
            assert(read_cidr(items[items.len() - 1]) is Err);
        }
    }
}

/// Where no list is given, only the host itself may come in.
pub proof fn law_loopback_is_the_default(addr: u32)
    ensures
        ({
            let nets = read_cidrs(allow_list(None));
            &&& nets is Ok
            &&& nets->Ok_0.len() == 1
            &&& nets->Ok_0[0].holds(IpAddr::V4(addr)) <==> addr as nat / 16777216 == 127
        }),
        forall|items: Seq<Seq<char>>| #[trigger] allow_list(Some(items)) == items,
{
    let text = "127.0.0.0/8"@;
    reveal_strlit("127.0.0.0/8");
    reveal_strlit("/");
    reveal_with_fuel(decimal, 4);
    vstd::arithmetic::power2::lemma2_to64();
    let size = pow2(24);
    assert(size == 16777216);
    assert(2130706432nat % 16777216 == 0);
    assert(2130706432nat % size == 0);
    let net = CidrNet::V4 { network: 2130706432, prefix: 8 };
    assert(text =~= net.text());
    law_v4_block_reads_back(2130706432, 8);
    law_block_is_a_range(2130706432, 8, addr, 0);
    reveal_with_fuel(read_cidrs, 2);
    assert(allow_list(None).drop_last() =~= Seq::empty());
    assert(read_cidrs(allow_list(None)) == Ok::<Seq<CidrNet>, Seq<char>>(Seq::<CidrNet>::empty().push(net)));
}

} // verus!
