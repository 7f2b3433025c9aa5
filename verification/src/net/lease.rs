//! Leases of point-to-point networks, and what a guest is told of its own.
use crate::decimal::{decimal, render_u64};
use crate::error::EngineError;
use crate::net::addr::{bad_address, invalid_input, parse_ip, read_ip, render_v4, v4_text, IpAddr};
use crate::net::cidr::{block_of, ipv4_contains, ipv4_network, law_block_holds_its_addresses, read_cidrs, CidrNet, parse_cidrs};
use crate::text::{cat2, cat3, copy_list, texts};
use vstd::arithmetic::power2::pow2;
use vstd::prelude::*;
use vstd::utf8::encode_utf8;

verus! {

/// The lowest address of the range that sandbox networks are taken from,
/// 172.20.0.0.
pub const POOL_BASE: u32 = 0xac14_0000;

/// The prefix length of that range.
pub const POOL_PREFIX: u8 = 16;

/// The prefix length of one sandbox's network.
pub const LEASE_PREFIX: u8 = 30;

/// The number of addresses in one sandbox's network.
pub const LEASE_STEP: u32 = 4;

/// The number of addresses in the range.
pub const POOL_SIZE: u32 = 65536;

/// A host TAP lease and its forwarding policy.
#[derive(Debug)]
pub struct TapLease {
    pub name: String,
    pub guest_ip: String,
    pub host_ip: String,
    pub prefix: u8,
    pub network: String,
    pub egress_allow: Vec<String>,
}

pub ghost struct TapLeaseView {
    pub name: Seq<char>,
    pub guest_ip: Seq<char>,
    pub host_ip: Seq<char>,
    pub prefix: u8,
    pub network: Seq<char>,
    pub egress_allow: Seq<Seq<char>>,
}

impl View for TapLease {
    type V = TapLeaseView;

    open spec fn view(&self) -> TapLeaseView {
        TapLeaseView {
            name: self.name@,
            guest_ip: self.guest_ip@,
            host_ip: self.host_ip@,
            prefix: self.prefix,
            network: self.network@,
            egress_allow: texts(self.egress_allow@),
        }
    }
}

/// The texts of blocks.
pub open spec fn net_texts(nets: Seq<CidrNet>) -> Seq<Seq<char>> {
    nets.map_values(|n: CidrNet| n.text())
}

/// An IPv4 address, or what is wrong with its text.
pub open spec fn tap_address(s: Seq<char>) -> Result<u32, Seq<char>> {
    match read_ip(s) {
        None => Err(bad_address(s)),
        Some(IpAddr::V4(a)) => Ok(a),
        Some(IpAddr::V6(_)) => Err("sandbox TAP networking supports IPv4 only"@),
    }
}

/// What is wrong with the addresses of a lease, if anything: they take the first
/// and second place of a block of four inside the pool.
pub open spec fn tap_placement(guest: u32, host: u32) -> Result<u32, Seq<char>> {
    let network = block_of(host as nat, 32, LEASE_PREFIX as nat);
    if block_of(guest as nat, 32, LEASE_PREFIX as nat) != network {
        Err(
            v4_text(guest as nat) + " and "@ + v4_text(host as nat) + " are not both in "@ + v4_text(network) + "/30"@,
        )
    } else if block_of(network, 32, POOL_PREFIX as nat) != POOL_BASE {
        Err("sandbox TAP network must be inside 172.20.0.0/16"@)
    } else if host != network + 1 || guest != network + 2 {
        Err("sandbox TAP addresses must use network+1 for host and network+2 for guest"@)
    } else {
        Ok(network as u32)
    }
}

/// The lease that the arguments make, or what is wrong with them.
pub open spec fn tap_lease(
    name: Seq<char>,
    guest_ip: Seq<char>,
    host_ip: Seq<char>,
    prefix: u8,
    egress_allow: Option<Seq<Seq<char>>>,
) -> Result<TapLeaseView, Seq<char>> {
    if name.len() == 0 || encode_utf8(name).len() >= 16 {
        Err("tap name must be non-empty and shorter than 16 bytes"@)
    } else {
        match (tap_address(guest_ip), tap_address(host_ip)) {
            (Err(m), _) => Err(m),
            (_, Err(m)) => Err(m),
            (Ok(guest), Ok(host)) => if prefix != LEASE_PREFIX {
                Err("sandbox TAP networking requires a /30 prefix"@)
            } else {
                match tap_placement(guest, host) {
                    Err(m) => Err(m),
                    Ok(network) => match read_cidrs(egress_allow.unwrap_or(Seq::empty())) {
                        Err(m) => Err(m),
                        Ok(nets) => Ok(
                            TapLeaseView {
                                name,
                                guest_ip: v4_text(guest as nat),
                                host_ip: v4_text(host as nat),
                                prefix,
                                network: v4_text(network as nat) + "/30"@,
                                egress_allow: net_texts(nets),
                            },
                        ),
                    },
                }
            },
        }
    }
}

/// The IPv4 address that `value` spells.
pub fn parse_ipv4(value: &str) -> (r: Result<u32, EngineError>)
    ensures
        match r {
            Ok(a) => tap_address(value@) == Ok::<u32, Seq<char>>(a),
            Err(e) => tap_address(value@) matches Err(m) && e@ == invalid_input(m),
        },
{
    match parse_ip(value) {
        Err(e) => Err(e),
        Ok(IpAddr::V4(a)) => Ok(a),
        Ok(IpAddr::V6(_)) => Err(EngineError::invalid("sandbox TAP networking supports IPv4 only".to_owned())),
    }
}

fn render_nets(nets: &Vec<CidrNet>) -> (r: Vec<String>)
    ensures
        texts(r@) == net_texts(nets@),
{
    let mut out: Vec<String> = Vec::new();
    let mut i: usize = 0;
    while i < nets.len()
        invariant
            i <= nets@.len(),
            out@.len() == i,
            forall|j: int| 0 <= j < i ==> (#[trigger] out@[j])@ == nets@[j].text(),
        decreases nets@.len() - i,
    {
        out.push(nets[i].render());
        i = i + 1;
    }
    assert(texts(out@) =~= net_texts(nets@));
    out
}

impl TapLease {
    /// Builds and checks a point-to-point TAP lease.
    pub fn new(name: &str, guest_ip: &str, host_ip: &str, prefix: u8, egress_allow: Option<&Vec<String>>) -> (r: Result<
        TapLease,
        EngineError,
    >)
        ensures
            ({
                let allowed = match egress_allow {
                    Some(v) => Some(texts(v@)),
                    None => None,
                };
                match r {
                    Ok(lease) => tap_lease(name@, guest_ip@, host_ip@, prefix, allowed) == Ok::<
                        TapLeaseView,
                        Seq<char>,
                    >(lease@),
                    Err(e) => tap_lease(name@, guest_ip@, host_ip@, prefix, allowed) matches Err(m) && e@
                        == invalid_input(m),
                }
            }),
    {
        if name.is_empty() || name.as_bytes().len() >= 16 {
            return Err(EngineError::invalid("tap name must be non-empty and shorter than 16 bytes".to_owned()));
        }
        let guest = match parse_ipv4(guest_ip) {
            Ok(a) => a,
            Err(e) => return Err(e),
        };
        let host = match parse_ipv4(host_ip) {
            Ok(a) => a,
            Err(e) => return Err(e),
        };
        if prefix != LEASE_PREFIX {
            return Err(EngineError::invalid("sandbox TAP networking requires a /30 prefix".to_owned()));
        }
        let network = match ipv4_network(host, prefix) {
            Ok(n) => n,
            Err(e) => return Err(e),
        };
        proof {
            law_block_holds_its_addresses(host as nat, 32, LEASE_PREFIX as nat);
            assert(pow2(2) == 4) by {
                vstd::arithmetic::power2::lemma2_to64();
            }
        }
        if !ipv4_contains(network, prefix, guest) || !ipv4_contains(network, prefix, host) {
            let mut message = render_v4(guest);
            message.append(" and ");
            message.append(render_v4(host).as_str());
            message.append(" are not both in ");
            message.append(render_v4(network).as_str());
            message.append("/30");
            return Err(EngineError::invalid(message));
        }
        if !ipv4_contains(POOL_BASE, POOL_PREFIX, network) {
            return Err(EngineError::invalid("sandbox TAP network must be inside 172.20.0.0/16".to_owned()));
        }
        if host - network != 1 || guest < network || guest - network != 2 {
            return Err(
                EngineError::invalid(
                    "sandbox TAP addresses must use network+1 for host and network+2 for guest".to_owned(),
                ),
            );
        }
        let nets = match egress_allow {
            Some(items) => match parse_cidrs(items) {
                Ok(nets) => nets,
                Err(e) => return Err(e),
            },
            None => {
                let nets: Vec<CidrNet> = Vec::new();
                assert(nets@ =~= Seq::empty());
                nets
            },
        };
        let network_text = cat2(render_v4(network).as_str(), "/30");
        Ok(
            TapLease {
                name: name.to_owned(),
                guest_ip: render_v4(guest),
                host_ip: render_v4(host),
                prefix,
                network: network_text,
                egress_allow: render_nets(&nets),
            },
        )
    }

    /// The guest address as a block of one address.
    pub fn guest_cidr(&self) -> (r: String)
        ensures
            r@ == self@.guest_block(),
    {
        cat2(self.guest_ip.as_str(), "/32")
    }

    /// The host address with the prefix length of the network.
    pub fn host_cidr(&self) -> (r: String)
        ensures
            r@ == self@.host_ip + "/"@ + decimal(self@.prefix as nat),
    {
        let digits = render_u64(self.prefix as u64);
        cat3(self.host_ip.as_str(), "/", digits.as_str())
    }
}

impl TapLeaseView {
    /// The guest address as a block of one address.
    pub open spec fn guest_block(self) -> Seq<char> {
        self.guest_ip + "/32"@
    }
}

/// A sandbox's network as it is kept for it.
#[derive(Debug)]
pub struct GuestConfig {
    pub tap: String,
    pub host_ip: String,
    pub guest_ip: String,
    pub prefix: u8,
    pub network: String,
    pub dns: Vec<String>,
}

pub ghost struct ConfigView {
    pub tap: Seq<char>,
    pub host_ip: Seq<char>,
    pub guest_ip: Seq<char>,
    pub prefix: u8,
    pub network: Seq<char>,
    pub dns: Seq<Seq<char>>,
}

impl View for GuestConfig {
    type V = ConfigView;

    open spec fn view(&self) -> ConfigView {
        ConfigView {
            tap: self.tap@,
            host_ip: self.host_ip@,
            guest_ip: self.guest_ip@,
            prefix: self.prefix,
            network: self.network@,
            dns: texts(self.dns@),
        }
    }
}

impl Clone for GuestConfig {
    fn clone(&self) -> (r: GuestConfig)
        ensures
            r@ == self@,
    {
        GuestConfig {
            tap: self.tap.clone(),
            host_ip: self.host_ip.clone(),
            guest_ip: self.guest_ip.clone(),
            prefix: self.prefix,
            network: self.network.clone(),
            dns: copy_list(&self.dns),
        }
    }
}

/// What of its network a guest is told.
#[derive(Debug)]
pub struct GuestNetworkConfig {
    pub tap: String,
    pub guest_ip: String,
    pub host_ip: String,
    pub prefix: u8,
    pub dns: Vec<String>,
}

/// Whether a guest is told the configuration that its sandbox has.
pub open spec fn tells(told: GuestNetworkConfig, config: ConfigView) -> bool {
    told.tap@ == config.tap && told.guest_ip@ == config.guest_ip && told.host_ip@ == config.host_ip && told.prefix
        == config.prefix && texts(told.dns@) == config.dns
}

impl GuestNetworkConfig {
    /// The part of a sandbox's network that its guest is told.
    pub fn of_config(value: &GuestConfig) -> (r: GuestNetworkConfig)
        ensures
            tells(r, value@),
    {
        GuestNetworkConfig {
            tap: value.tap.clone(),
            guest_ip: value.guest_ip.clone(),
            host_ip: value.host_ip.clone(),
            prefix: value.prefix,
            dns: copy_list(&value.dns),
        }
    }
}

/// Where the two ends of a TAP lie: in one block of four addresses of 172.20.0.0/16,
/// the host at its second and the guest at its third address; nowhere else.
pub proof fn law_tap_ends_share_a_block(guest: u32, host: u32)
    ensures
        tap_placement(guest, host) matches Ok(network) ==> network % 4 == 0 && host == network + 1 && guest == network
            + 2 && host as nat / 65536 == 172 * 256 + 20,
        host % 4 == 1 && guest == host + 1 && host as nat / 65536 == 172 * 256 + 20 ==> tap_placement(guest, host)
            == Ok::<u32, Seq<char>>((host - 1) as u32),
{
    vstd::arithmetic::power2::lemma2_to64();
    assert(pow2(2) == 4 && pow2(16) == 65536);
}

/// A lease tells what it was asked for: a name that a device can have, a block of four
/// addresses, and the blocks that the guest may reach, each as it is written.
pub proof fn law_lease_is_as_asked(
    name: Seq<char>,
    guest_ip: Seq<char>,
    host_ip: Seq<char>,
    prefix: u8,
    egress_allow: Option<Seq<Seq<char>>>,
)
    ensures
        tap_lease(name, guest_ip, host_ip, prefix, egress_allow) matches Ok(lease) ==> {
            &&& lease.name == name
            &&& 0 < name.len()
            &&& encode_utf8(name).len() < 16
            &&& prefix == 30
            &&& lease.prefix == 30
            &&& read_ip(guest_ip) matches Some(IpAddr::V4(g)) && lease.guest_ip == v4_text(g as nat)
            &&& read_ip(host_ip) matches Some(IpAddr::V4(h)) && lease.host_ip == v4_text(h as nat)
            &&& egress_allow is None ==> lease.egress_allow.len() == 0
        },
{
}

} // verus!
