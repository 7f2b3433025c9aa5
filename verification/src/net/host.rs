//! The host's networking: which network a sandbox gets, and what is asked of the
//! privileged broker for it.
use crate::decimal::{decimal, render_u64};
use crate::error::{failure, EngineError, ErrorCode, ErrorView};
use crate::net::addr::{invalid_input, render_v4, v4_text};
use crate::net::allocator::{
    addressable, config_at, entry_config, pool_exhausted, tap_name_of, with_lease, without_lease, AllocView,
    LeaseAllocator,
};
use crate::net::cidr::{block_of, ipv4_network};
use crate::net::lease::{
    parse_ipv4, tap_address, tap_lease, ConfigView, GuestConfig, TapLease, TapLeaseView, LEASE_PREFIX,
};
use crate::net::plan::{clean_domains, cleaned};
use crate::net::slots::{
    claim_of, claimed, marked, recycled, slot_config, slots_view, PoolView, SlotPool, SlotSpec, SlotView,
};
use crate::numset::lowest;
use crate::text::{cat3, copy_list, opt_text, strings, text_eq, texts};
use vstd::prelude::*;

verus! {

/// The name servers that guests are told.
pub open spec fn default_dns_texts() -> Seq<Seq<char>> {
    seq!["1.1.1.1"@, "8.8.8.8"@]
}

/// The name servers that guests are told.
pub fn default_dns() -> (r: Vec<String>)
    ensures
        texts(r@) == default_dns_texts(),
{
    let r = strings(["1.1.1.1", "8.8.8.8"]);
    assert(texts(r@) =~= default_dns_texts());
    r
}

/// What the host knows of its sandboxes' networks.
pub struct HostNetwork {
    pool: SlotPool,
    leases: LeaseAllocator,
    broker: Option<String>,
}

pub ghost struct HostView {
    pub pool: PoolView,
    pub leases: AllocView,
    pub broker: Option<Seq<char>>,
}

impl View for HostNetwork {
    type V = HostView;

    closed spec fn view(&self) -> HostView {
        HostView { pool: self.pool@, leases: self.leases@, broker: opt_text(self.broker) }
    }
}

/// The network that a slot's addresses lie in.
pub open spec fn slot_network(slot: SlotView) -> Seq<char> {
    match tap_address(slot.host_ip) {
        Ok(host) if slot.prefix <= 32 => v4_text(block_of(host as nat, 32, slot.prefix as nat)) + "/"@ + decimal(
            slot.prefix as nat,
        ),
        _ => slot.host_ip + "/"@ + decimal(slot.prefix as nat),
    }
}

fn network_of_slot(slot: &SlotSpec) -> (r: String)
    ensures
        r@ == slot_network(slot@),
{
    let digits = render_u64(slot.prefix as u64);
    match parse_ipv4(slot.host_ip.as_str()) {
        Ok(host) => match ipv4_network(host, slot.prefix) {
            Ok(network) => cat3(render_v4(network).as_str(), "/", digits.as_str()),
            Err(_) => cat3(slot.host_ip.as_str(), "/", digits.as_str()),
        },
        Err(_) => cat3(slot.host_ip.as_str(), "/", digits.as_str()),
    }
}

/// Whether the kept lease of a sandbox, if there is one, has room for its
/// addresses.
pub open spec fn sound_lease(v: HostView, name: Seq<char>) -> bool {
    v.leases.leases.contains_key(name) ==> addressable(v.leases.leases[name].network)
}

/// The configuration of a sandbox's kept lease.
pub open spec fn kept_config(v: HostView, name: Seq<char>) -> Option<ConfigView> {
    if v.leases.leases.contains_key(name) {
        match entry_config(name, v.leases.leases[name], default_dns_texts()) {
            Ok(c) => Some(c),
            Err(_) => None,
        }
    } else {
        None
    }
}

/// What is known of a sandbox's network without giving it one.
pub open spec fn known_config(v: HostView, name: Seq<char>) -> Option<ConfigView> {
    match claim_of(v.pool, name) {
        Some(claim) => Some(claim.config),
        None => kept_config(v, name),
    }
}

/// The network that a sandbox gets, and what the host knows then: the one it has,
/// else a free slot, else the lowest free block; in each case with the name servers
/// that were asked for.
pub open spec fn allocation(v: HostView, name: Seq<char>, dns: Seq<Seq<char>>) -> (
    Result<ConfigView, ErrorView>,
    HostView,
) {
    let base = lowest(v.leases.free);
    match known_config(v, name) {
        Some(c) => (Ok(ConfigView { dns, ..c }), v),
        None => if v.pool.free.len() > 0 {
            let network = slot_network(v.pool.free[0]);
            (
                Ok(slot_config(v.pool.free[0], network, dns)),
                HostView { pool: claimed(v.pool, name, network, dns), ..v },
            )
        } else if v.leases.leases.contains_key(name) {
            match entry_config(name, v.leases.leases[name], dns) {
                Ok(c) => (Ok(c), v),
                Err(m) => (Err(invalid_input(m)), v),
            }
        } else if v.leases.free == Set::<u32>::empty() {
            (Err(pool_exhausted()), v)
        } else {
            (
                Ok(config_at(tap_name_of(name), base as nat, LEASE_PREFIX, dns)),
                HostView { leases: with_lease(v.leases, name, base, tap_name_of(name)), ..v },
            )
        },
    }
}

impl HostNetwork {
    /// A host with the given slots, kept leases and broker.
    pub fn new(pool: SlotPool, leases: LeaseAllocator, broker: Option<String>) -> (r: HostNetwork)
        ensures
            r@ == (HostView { pool: pool@, leases: leases@, broker: opt_text(broker) }),
    {
        HostNetwork { pool, leases, broker }
    }

    /// How many slots are free.
    pub fn free_slots(&self) -> (r: usize)
        ensures
            r == self@.pool.free.len(),
    {
        self.pool.free_len()
    }

    /// Whether the kept lease of a sandbox, if there is one, has room for its
    /// addresses.
    pub fn is_sound_lease(&self, name: &str) -> (r: bool)
        ensures
            r == sound_lease(self@, name@),
    {
        self.leases.is_addressable(name)
    }
}

/// Gives a sandbox a network, or returns the one it has.
pub fn allocate_guest_config(host: &mut HostNetwork, name: &str) -> (r: Result<GuestConfig, EngineError>)
    requires
        sound_lease(old(host)@, name@),
    ensures
        final(host)@ == allocation(old(host)@, name@, default_dns_texts()).1,
        match r {
            Ok(c) => allocation(old(host)@, name@, default_dns_texts()).0 == Ok::<ConfigView, ErrorView>(c@),
            Err(e) => allocation(old(host)@, name@, default_dns_texts()).0 == Err::<ConfigView, ErrorView>(e@),
        },
{
    let dns = default_dns();
    allocate_guest_config_with_dns(host, name, &dns)
}

/// Gives a sandbox a network, or returns the one it has, with the given name
/// servers.
pub fn allocate_guest_config_with_dns(host: &mut HostNetwork, name: &str, dns: &Vec<String>) -> (r: Result<
    GuestConfig,
    EngineError,
>)
    requires
        sound_lease(old(host)@, name@),
    ensures
        final(host)@ == allocation(old(host)@, name@, texts(dns@)).1,
        match r {
            Ok(c) => allocation(old(host)@, name@, texts(dns@)).0 == Ok::<ConfigView, ErrorView>(c@),
            Err(e) => allocation(old(host)@, name@, texts(dns@)).0 == Err::<ConfigView, ErrorView>(e@),
        },
{
    match lease_for(host, name) {
        Some(config) => {
            let mut config = config;
            config.dns = copy_list(dns);
            return Ok(config);
        },
        None => {},
    }
    let network = match host.pool.first_free() {
        Some(slot) => Some(network_of_slot(slot)),
        None => None,
    };
    match network {
        Some(network) => match host.pool.claim(name, network, dns) {
            Some(config) => return Ok(config),
            None => {},
        },
        None => {},
    }
    match host.leases.allocate(name, dns, None) {
        Ok((config, _)) => Ok(config),
        Err(e) => Err(e),
    }
}

/// What is known of a sandbox's network, without giving it one.
pub fn lease_for(host: &HostNetwork, name: &str) -> (r: Option<GuestConfig>)
    requires
        sound_lease(host@, name@),
    ensures
        match r {
            Some(c) => known_config(host@, name@) == Some(c@),
            None => known_config(host@, name@) is None,
        },
{
    match host.pool.lookup(name) {
        Some(config) => Some(config),
        None => {
            let dns = default_dns();
            host.leases.lease_for(name, &dns)
        },
    }
}

/// Notes where the privileged broker is reached, if there is one.
pub fn configure_broker_socket(host: &mut HostNetwork, socket: Option<String>)
    ensures
        final(host)@ == (HostView { broker: opt_text(socket), ..old(host)@ }),
{
    host.broker = socket;
}

/// Whether there is a privileged broker.
pub fn has_net_admin(host: &HostNetwork) -> (r: bool)
    ensures
        r == (host@.broker is Some),
{
    host.broker.is_some()
}

/// What the privileged broker is asked for.
#[derive(Debug)]
#[allow(inconsistent_fields)]
pub enum BrokerRequest {
    Setup {
        name: String,
        guest_ip: String,
        host_ip: String,
        prefix: u8,
        egress_allow: Option<Vec<String>>,
        egress_allow_domains: Option<Vec<String>>,
        previous_egress_allow: Option<Vec<String>>,
    },
    Teardown {
        name: String,
        guest_ip: Option<String>,
        host_ip: Option<String>,
        prefix: u8,
        egress_allow: Option<Vec<String>>,
        egress_allow_domains: Option<Vec<String>>,
    },
    ClaimSlot {
        slot: SlotSpec,
        egress_allow: Vec<String>,
        egress_allow_domains: Vec<String>,
        already_custom: bool,
    },
    RecycleSlot { slot: SlotSpec },
    PreallocateSlots { slots: Vec<SlotSpec>, reset: bool },
    AllowCredential { lease: TapLease },
}

#[allow(inconsistent_fields)]
pub ghost enum RequestView {
    Setup {
        name: Seq<char>,
        guest_ip: Seq<char>,
        host_ip: Seq<char>,
        prefix: u8,
        egress_allow: Option<Seq<Seq<char>>>,
        egress_allow_domains: Option<Seq<Seq<char>>>,
        previous_egress_allow: Option<Seq<Seq<char>>>,
    },
    Teardown {
        name: Seq<char>,
        guest_ip: Option<Seq<char>>,
        host_ip: Option<Seq<char>>,
        prefix: u8,
        egress_allow: Option<Seq<Seq<char>>>,
        egress_allow_domains: Option<Seq<Seq<char>>>,
    },
    ClaimSlot {
        slot: SlotView,
        egress_allow: Seq<Seq<char>>,
        egress_allow_domains: Seq<Seq<char>>,
        already_custom: bool,
    },
    RecycleSlot { slot: SlotView },
    PreallocateSlots { slots: Seq<SlotView>, reset: bool },
    AllowCredential { lease: TapLeaseView },
}

pub open spec fn opt_list(o: Option<Vec<String>>) -> Option<Seq<Seq<char>>> {
    match o {
        Some(v) => Some(texts(v@)),
        None => None,
    }
}

impl View for BrokerRequest {
    type V = RequestView;

    open spec fn view(&self) -> RequestView {
        match *self {
            BrokerRequest::Setup {
                name,
                guest_ip,
                host_ip,
                prefix,
                egress_allow,
                egress_allow_domains,
                previous_egress_allow,
            } => RequestView::Setup {
                name: name@,
                guest_ip: guest_ip@,
                host_ip: host_ip@,
                prefix,
                egress_allow: opt_list(egress_allow),
                egress_allow_domains: opt_list(egress_allow_domains),
                previous_egress_allow: opt_list(previous_egress_allow),
            },
            BrokerRequest::Teardown { name, guest_ip, host_ip, prefix, egress_allow, egress_allow_domains } =>
                RequestView::Teardown {
                name: name@,
                guest_ip: opt_text(guest_ip),
                host_ip: opt_text(host_ip),
                prefix,
                egress_allow: opt_list(egress_allow),
                egress_allow_domains: opt_list(egress_allow_domains),
            },
            BrokerRequest::ClaimSlot { slot, egress_allow, egress_allow_domains, already_custom } =>
                RequestView::ClaimSlot {
                slot: slot@,
                egress_allow: texts(egress_allow@),
                egress_allow_domains: texts(egress_allow_domains@),
                already_custom,
            },
            BrokerRequest::RecycleSlot { slot } => RequestView::RecycleSlot { slot: slot@ },
            BrokerRequest::PreallocateSlots { slots, reset } => RequestView::PreallocateSlots {
                slots: slots_view(slots@),
                reset,
            },
            BrokerRequest::AllowCredential { lease } => RequestView::AllowCredential { lease: lease@ },
        }
    }
}

fn copy_opt_list(o: Option<&Vec<String>>) -> (r: Option<Vec<String>>)
    ensures
        opt_list(r) == ref_list(o),
{
    match o {
        Some(v) => Some(copy_list(v)),
        None => None,
    }
}

pub open spec fn ref_list(o: Option<&Vec<String>>) -> Option<Seq<Seq<char>>> {
    match o {
        Some(v) => Some(texts(v@)),
        None => None,
    }
}

pub open spec fn ref_text(o: Option<&String>) -> Option<Seq<char>> {
    match o {
        Some(v) => Some(v@),
        None => None,
    }
}

fn copy_opt_text(o: Option<&String>) -> (r: Option<String>)
    ensures
        opt_text(r) == ref_text(o),
{
    match o {
        Some(s) => Some(s.clone()),
        None => None,
    }
}

/// What comes of a wish to set up a TAP.
pub enum SetupTap {
    /// The TAP has its policy already.
    Ready(TapLease),
    /// The broker is to be asked; the TAP's slot then has this lease.
    AskForSlot(BrokerRequest, TapLease),
    /// The broker is to be asked for the lease.
    Ask(BrokerRequest),
}

pub ghost enum SetupView {
    Ready(TapLeaseView),
    AskForSlot(RequestView, TapLeaseView),
    Ask(RequestView),
}

impl View for SetupTap {
    type V = SetupView;

    open spec fn view(&self) -> SetupView {
        match *self {
            SetupTap::Ready(lease) => SetupView::Ready(lease@),
            SetupTap::AskForSlot(request, lease) => SetupView::AskForSlot(request@, lease@),
            SetupTap::Ask(request) => SetupView::Ask(request@),
        }
    }
}

/// Whether a policy of its own is asked for: a list of either kind, be it empty, so
/// that nothing is let out.
pub open spec fn is_restricted(allow: Option<Seq<Seq<char>>>, domains: Option<Seq<Seq<char>>>) -> bool {
    allow is Some || domains is Some
}

/// Whether a policy of its own is asked for.
pub fn asks_for_policy(egress_allow: Option<&Vec<String>>, egress_allow_domains: Option<&Vec<String>>) -> (r: bool)
    ensures
        r == is_restricted(ref_list(egress_allow), ref_list(egress_allow_domains)),
{
    egress_allow.is_some() || egress_allow_domains.is_some()
}

/// What comes of a wish to set up a TAP. A slot has its first policy already; the
/// broker is asked for another policy, or to go back to the first.
pub open spec fn setup_outcome(
    v: HostView,
    name: Seq<char>,
    guest_ip: Seq<char>,
    host_ip: Seq<char>,
    prefix: u8,
    allow: Option<Seq<Seq<char>>>,
    domains: Option<Seq<Seq<char>>>,
    previous: Option<Seq<Seq<char>>>,
) -> Result<SetupView, Seq<char>> {
    if v.pool.claims.contains_key(name) {
        let claim = v.pool.claims[name];
        if claim.slot.guest_ip != guest_ip || claim.slot.host_ip != host_ip || claim.slot.prefix != prefix {
            Err("slot TAP addresses do not match its claim"@)
        } else {
            match tap_lease(name, guest_ip, host_ip, prefix, allow) {
                Err(m) => Err(m),
                Ok(lease) => if is_restricted(allow, domains) {
                    Ok(
                        SetupView::AskForSlot(
                            RequestView::ClaimSlot {
                                slot: claim.slot,
                                egress_allow: lease.egress_allow,
                                egress_allow_domains: cleaned(domains.unwrap_or(Seq::empty())),
                                already_custom: claim.custom,
                            },
                            lease,
                        ),
                    )
                } else if claim.custom {
                    Ok(SetupView::AskForSlot(RequestView::RecycleSlot { slot: claim.slot }, lease))
                } else {
                    Ok(SetupView::Ready(lease))
                },
            }
        }
    } else {
        Ok(
            SetupView::Ask(
                RequestView::Setup {
                    name,
                    guest_ip,
                    host_ip,
                    prefix,
                    egress_allow: allow,
                    egress_allow_domains: domains,
                    previous_egress_allow: previous,
                },
            ),
        )
    }
}

/// What comes of a wish to set up a TAP.
pub fn setup_tap(
    host: &HostNetwork,
    name: &str,
    guest_ip: &str,
    host_ip: &str,
    prefix: u8,
    egress_allow: Option<&Vec<String>>,
    egress_allow_domains: Option<&Vec<String>>,
    previous_egress_allow: Option<&Vec<String>>,
) -> (r: Result<SetupTap, EngineError>)
    ensures
        ({
            let outcome = setup_outcome(
                host@,
                name@,
                guest_ip@,
                host_ip@,
                prefix,
                ref_list(egress_allow),
                ref_list(egress_allow_domains),
                ref_list(previous_egress_allow),
            );
            match r {
                Ok(s) => outcome == Ok::<SetupView, Seq<char>>(s@),
                Err(e) => outcome matches Err(m) && e@ == invalid_input(m),
            }
        }),
{
    match host.pool.slot_for_tap(name) {
        Some((slot, already_custom)) => {
            if !text_eq(slot.guest_ip.as_str(), guest_ip) || !text_eq(slot.host_ip.as_str(), host_ip) || slot.prefix
                != prefix {
                return Err(EngineError::invalid("slot TAP addresses do not match its claim".to_owned()));
            }
            let lease = match TapLease::new(name, guest_ip, host_ip, prefix, egress_allow) {
                Ok(lease) => lease,
                Err(e) => return Err(e),
            };
            let domains = clean_domains(egress_allow_domains);
            if asks_for_policy(egress_allow, egress_allow_domains) {
                let request = BrokerRequest::ClaimSlot {
                    slot,
                    egress_allow: copy_list(&lease.egress_allow),
                    egress_allow_domains: domains,
                    already_custom,
                };
                Ok(SetupTap::AskForSlot(request, lease))
            } else if already_custom {
                Ok(SetupTap::AskForSlot(BrokerRequest::RecycleSlot { slot }, lease))
            } else {
                Ok(SetupTap::Ready(lease))
            }
        },
        None => Ok(
            SetupTap::Ask(
                BrokerRequest::Setup {
                    name: name.to_owned(),
                    guest_ip: guest_ip.to_owned(),
                    host_ip: host_ip.to_owned(),
                    prefix,
                    egress_allow: copy_opt_list(egress_allow),
                    egress_allow_domains: copy_opt_list(egress_allow_domains),
                    previous_egress_allow: copy_opt_list(previous_egress_allow),
                },
            ),
        ),
    }
}

/// The lease after the broker was asked, and what the host knows then.
pub open spec fn setup_settled(
    v: HostView,
    name: Seq<char>,
    asked: SetupView,
    reply: Result<Option<TapLeaseView>, ErrorView>,
) -> (Result<TapLeaseView, ErrorView>, HostView) {
    match asked {
        SetupView::Ready(lease) => (Ok(lease), v),
        SetupView::AskForSlot(request, lease) => match reply {
            Err(e) => (Err(e), v),
            Ok(_) => (Ok(lease), HostView { pool: marked(v.pool, name, request is ClaimSlot), ..v }),
        },
        SetupView::Ask(_) => match reply {
            Err(e) => (Err(e), v),
            Ok(Some(lease)) => (Ok(lease), v),
            Ok(None) => (Err(failure(ErrorCode::Engine, "network broker returned no TAP lease"@)), v),
        },
    }
}

pub open spec fn reply_view(reply: Result<Option<TapLease>, EngineError>) -> Result<Option<TapLeaseView>, ErrorView> {
    match reply {
        Err(e) => Err(e@),
        Ok(Some(lease)) => Ok(Some(lease@)),
        Ok(None) => Ok(None),
    }
}

/// The lease after the broker was asked; a slot's new policy is noted.
pub fn settle_setup(
    host: &mut HostNetwork,
    name: &str,
    asked: SetupTap,
    reply: Result<Option<TapLease>, EngineError>,
) -> (r: Result<TapLease, EngineError>)
    ensures
        ({
            let (result, after) = setup_settled(old(host)@, name@, asked@, reply_view(reply));
            &&& final(host)@ == after
            &&& match r {
                Ok(lease) => result == Ok::<TapLeaseView, ErrorView>(lease@),
                Err(e) => result == Err::<TapLeaseView, ErrorView>(e@),
            }
        }),
{
    match asked {
        SetupTap::Ready(lease) => Ok(lease),
        SetupTap::AskForSlot(request, lease) => match reply {
            Err(e) => Err(e),
            Ok(_) => {
                let custom = match request {
                    BrokerRequest::ClaimSlot { .. } => true,
                    _ => false,
                };
                host.pool.set_custom(name, custom);
                Ok(lease)
            },
        },
        SetupTap::Ask(_) => match reply {
            Err(e) => Err(e),
            Ok(Some(lease)) => Ok(lease),
            Ok(None) => Err(EngineError::engine("network broker returned no TAP lease".to_owned())),
        },
    }
}

/// What is asked of the broker to take a TAP down: a slot with a policy of its
/// own is given its first policy again, one without needs nothing.
pub open spec fn teardown_request(
    v: HostView,
    name: Seq<char>,
    guest_ip: Option<Seq<char>>,
    host_ip: Option<Seq<char>>,
    prefix: u8,
    allow: Option<Seq<Seq<char>>>,
    domains: Option<Seq<Seq<char>>>,
) -> Option<RequestView> {
    if v.pool.claims.contains_key(name) {
        if v.pool.claims[name].custom {
            Some(RequestView::RecycleSlot { slot: v.pool.claims[name].slot })
        } else {
            None
        }
    } else {
        Some(
            RequestView::Teardown {
                name,
                guest_ip,
                host_ip,
                prefix,
                egress_allow: allow,
                egress_allow_domains: domains,
            },
        )
    }
}

pub open spec fn opt_request(o: Option<BrokerRequest>) -> Option<RequestView> {
    match o {
        Some(r) => Some(r@),
        None => None,
    }
}

/// Takes a TAP down: its slot comes back to the pool. Returns what the broker is
/// asked for.
pub fn teardown_tap(
    host: &mut HostNetwork,
    name: &str,
    guest_ip: Option<&String>,
    host_ip: Option<&String>,
    prefix: u8,
    egress_allow: Option<&Vec<String>>,
    egress_allow_domains: Option<&Vec<String>>,
) -> (r: Option<BrokerRequest>)
    ensures
        final(host)@ == (HostView { pool: recycled(old(host)@.pool, name@), ..old(host)@ }),
        opt_request(r) == teardown_request(
            old(host)@,
            name@,
            ref_text(guest_ip),
            ref_text(host_ip),
            prefix,
            ref_list(egress_allow),
            ref_list(egress_allow_domains),
        ),
{
    match host.pool.recycle_tap(name) {
        Some((slot, custom)) => {
            if custom {
                Some(BrokerRequest::RecycleSlot { slot })
            } else {
                None
            }
        },
        None => Some(
            BrokerRequest::Teardown {
                name: name.to_owned(),
                guest_ip: copy_opt_text(guest_ip),
                host_ip: copy_opt_text(host_ip),
                prefix,
                egress_allow: copy_opt_list(egress_allow),
                egress_allow_domains: copy_opt_list(egress_allow_domains),
            },
        ),
    }
}

/// What the host knows after a sandbox gave its network up.
pub open spec fn released(v: HostView, name: Seq<char>) -> HostView {
    match claim_of(v.pool, name) {
        Some(claim) => HostView { pool: recycled(v.pool, v.pool.taps[name]), ..v },
        None => HostView { leases: without_lease(v.leases, name), ..v },
    }
}

/// A sandbox gives its network up. Returns what the broker is asked for, and
/// whether the kept leases changed.
pub fn release_guest_config(host: &mut HostNetwork, name: &str) -> (r: (Option<BrokerRequest>, bool))
    ensures
        final(host)@ == released(old(host)@, name@),
        match claim_of(old(host)@.pool, name@) {
            Some(claim) => !r.1 && opt_request(r.0) == if claim.custom {
                Some(RequestView::RecycleSlot { slot: claim.slot })
            } else {
                None
            },
            None => r.0 is None && r.1 == old(host)@.leases.leases.contains_key(name@),
        },
{
    match host.pool.release_name(name) {
        Some((slot, custom)) => {
            if custom {
                (Some(BrokerRequest::RecycleSlot { slot }), false)
            } else {
                (None, false)
            }
        },
        None => {
            let changed = host.leases.release(name);
            (None, changed)
        },
    }
}

/// A sandbox that asks again for its network gets the one it has, with the name
/// servers that it asks for then.
pub proof fn law_allocation_is_stable(
    v: HostView,
    name: Seq<char>,
    dns: Seq<Seq<char>>,
    other: Seq<Seq<char>>,
)
    requires
        v.pool.free.len() > 0 || v.leases.free.contains(lowest(v.leases.free)) && lowest(v.leases.free) % 4 == 0,
        known_config(v, name) is None,
        !v.leases.leases.contains_key(name),
    ensures
        ({
            let (first, after) = allocation(v, name, dns);
            &&& first is Ok
            &&& known_config(after, name) matches Some(c) && c.tap == first->Ok_0.tap && c.network
                == first->Ok_0.network && c.guest_ip == first->Ok_0.guest_ip && c.host_ip == first->Ok_0.host_ip
                && c.prefix == first->Ok_0.prefix
            &&& allocation(after, name, other) == (
                Ok::<ConfigView, ErrorView>(ConfigView { dns: other, ..first->Ok_0 }),
                after,
            )
        }),
{
    let (first, after) = allocation(v, name, dns);
    if v.pool.free.len() == 0 {
        let base = lowest(v.leases.free);
        crate::net::allocator::law_allocation_is_repeatable(
            v.leases,
            name,
            base,
            tap_name_of(name),
            default_dns_texts(),
        );
        assert(claim_of(after.pool, name) is None);
    }
}

/// A slot with its first policy costs no request, from its claim to its return.
pub proof fn law_default_policy_asks_nothing(
    v: HostView,
    name: Seq<char>,
    previous: Option<Seq<Seq<char>>>,
)
    requires
        v.pool.claims.contains_key(name),
        !v.pool.claims[name].custom,
    ensures
        ({
            let slot = v.pool.claims[name].slot;
            let outcome = setup_outcome(
                v,
                name,
                slot.guest_ip,
                slot.host_ip,
                slot.prefix,
                None,
                None,
                previous,
            );
            &&& tap_lease(name, slot.guest_ip, slot.host_ip, slot.prefix, None) matches Ok(lease) ==> outcome == Ok::<
                SetupView,
                Seq<char>,
            >(SetupView::Ready(lease))
            &&& teardown_request(v, name, Some(slot.guest_ip), Some(slot.host_ip), slot.prefix, None, None) is None
        }),
{
    assert(None::<Seq<Seq<char>>>.unwrap_or(Seq::empty()) == Seq::<Seq<char>>::empty());
}

/// A policy of its own costs a slot one request when it is set up and one when the
/// slot is returned. Empty lists are such a policy: the request then names no block
/// and no domain.
pub proof fn law_custom_policy_asks_once(
    v: HostView,
    name: Seq<char>,
    allow: Option<Seq<Seq<char>>>,
    domains: Option<Seq<Seq<char>>>,
    previous: Option<Seq<Seq<char>>>,
)
    requires
        v.pool.claims.contains_key(name),
        is_restricted(allow, domains),
    ensures
        ({
            let claim = v.pool.claims[name];
            let slot = claim.slot;
            &&& tap_lease(name, slot.guest_ip, slot.host_ip, slot.prefix, allow) matches Ok(lease) ==> setup_outcome(
                v,
                name,
                slot.guest_ip,
                slot.host_ip,
                slot.prefix,
                allow,
                domains,
                previous,
            ) == Ok::<SetupView, Seq<char>>(
                SetupView::AskForSlot(
                    RequestView::ClaimSlot {
                        slot,
                        egress_allow: lease.egress_allow,
                        egress_allow_domains: cleaned(domains.unwrap_or(Seq::empty())),
                        already_custom: claim.custom,
                    },
                    lease,
                ),
            )
            &&& allow is None && domains == Some(Seq::<Seq<char>>::empty()) ==> cleaned(
                domains.unwrap_or(Seq::empty()),
            ) == Seq::<Seq<char>>::empty() && (tap_lease(name, slot.guest_ip, slot.host_ip, slot.prefix, allow)
                matches Ok(lease) ==> lease.egress_allow == Seq::<Seq<char>>::empty())
            &&& claim.custom ==> teardown_request(
                v,
                name,
                Some(slot.guest_ip),
                Some(slot.host_ip),
                slot.prefix,
                allow,
                domains,
            ) == Some(RequestView::RecycleSlot { slot })
        }),
{
}

/// A sandbox that was given no network is known to have none, and when it gives
/// its network up nothing changes.
pub proof fn law_unknown_sandbox_has_no_network(v: HostView, name: Seq<char>)
    requires
        !v.pool.taps.contains_key(name),
        !v.leases.leases.contains_key(name),
    ensures
        known_config(v, name) is None,
        released(v, name) == v,
{
}

/// A sandbox without a network gets the first free slot where there is one, or else the
/// lowest free block, of which the host has the second and the guest the third address;
/// it gets none only where no block is free.
pub proof fn law_new_sandbox_gets_a_network(v: HostView, name: Seq<char>, dns: Seq<Seq<char>>)
    requires
        !v.pool.taps.contains_key(name),
        !v.leases.leases.contains_key(name),
    ensures
        ({
            let (r, w) = allocation(v, name, dns);
            let base = lowest(v.leases.free);
            &&& r is Err <==> v.pool.free.len() == 0 && v.leases.free == Set::<u32>::empty()
            &&& r is Err ==> w == v
            &&& v.pool.free.len() > 0 ==> r->Ok_0.tap == v.pool.free[0].name && r->Ok_0.guest_ip
                == v.pool.free[0].guest_ip && r->Ok_0.host_ip == v.pool.free[0].host_ip && w.leases == v.leases
                && w.pool.taps.contains_key(name)
            &&& r is Ok && v.pool.free.len() == 0 ==> r->Ok_0.host_ip == v4_text((base + 1) as nat) && r->Ok_0.guest_ip
                == v4_text((base + 2) as nat) && r->Ok_0.prefix == 30 && w.leases.leases.contains_key(name)
                && !w.leases.free.contains(base) && w.pool == v.pool
            &&& r is Ok ==> r->Ok_0.dns == dns
        }),
{
}

/// What is asked of the broker for a TAP that is no slot is what the caller asked for,
/// unchanged; and its answer is what the caller gets.
pub proof fn law_broker_is_asked_for_what_is_wanted(
    v: HostView,
    name: Seq<char>,
    guest_ip: Seq<char>,
    host_ip: Seq<char>,
    prefix: u8,
    allow: Option<Seq<Seq<char>>>,
    domains: Option<Seq<Seq<char>>>,
    previous: Option<Seq<Seq<char>>>,
    lease: TapLeaseView,
    e: ErrorView,
)
    requires
        !v.pool.claims.contains_key(name),
    ensures
        ({
            let request = RequestView::Setup {
                name,
                guest_ip,
                host_ip,
                prefix,
                egress_allow: allow,
                egress_allow_domains: domains,
                previous_egress_allow: previous,
            };
            &&& setup_outcome(v, name, guest_ip, host_ip, prefix, allow, domains, previous) == Ok::<SetupView, Seq<char>>(
                SetupView::Ask(request),
            )
            &&& setup_settled(v, name, SetupView::Ask(request), Ok(Some(lease))) == (
                Ok::<TapLeaseView, ErrorView>(lease),
                v,
            )
            &&& setup_settled(v, name, SetupView::Ask(request), Err(e)) == (Err::<TapLeaseView, ErrorView>(e), v)
            &&& setup_settled(v, name, SetupView::Ask(request), Ok(None)).0 is Err
            &&& teardown_request(v, name, Some(guest_ip), Some(host_ip), prefix, allow, domains) == Some(
                RequestView::Teardown {
                    name,
                    guest_ip: Some(guest_ip),
                    host_ip: Some(host_ip),
                    prefix,
                    egress_allow: allow,
                    egress_allow_domains: domains,
                },
            )
        }),
{
}

/// A slot counts as changed from the moment its own policy is in place until it was
/// brought back to the default one; a request that failed changes nothing.
pub proof fn law_slot_is_marked_as_it_stands(
    v: HostView,
    name: Seq<char>,
    slot: SlotView,
    allow: Seq<Seq<char>>,
    domains: Seq<Seq<char>>,
    custom: bool,
    lease: TapLeaseView,
    reply: Option<TapLeaseView>,
    e: ErrorView,
)
    requires
        v.pool.claims.contains_key(name),
    ensures
        ({
            let own = RequestView::ClaimSlot {
                slot,
                egress_allow: allow,
                egress_allow_domains: domains,
                already_custom: custom,
            };
            let back = RequestView::RecycleSlot { slot };
            &&& setup_settled(v, name, SetupView::AskForSlot(own, lease), Ok(reply)).1.pool.claims[name].custom
            &&& !setup_settled(v, name, SetupView::AskForSlot(back, lease), Ok(reply)).1.pool.claims[name].custom
            &&& setup_settled(v, name, SetupView::AskForSlot(own, lease), Ok(reply)).0 == Ok::<TapLeaseView, ErrorView>(
                lease,
            )
            &&& setup_settled(v, name, SetupView::AskForSlot(own, lease), Err(e)) == (
                Err::<TapLeaseView, ErrorView>(e),
                v,
            )
        }),
{
}

/// Either list restricts what a sandbox may reach, even an empty one.
pub proof fn law_any_list_restricts(list: Seq<Seq<char>>)
    ensures
        is_restricted(Some(list), None),
        is_restricted(None, Some(list)),
        is_restricted(Some(list), Some(list)),
        !is_restricted(None, None),
{
}

/// A sandbox that leaves gives back its slot, or its block, and nothing of others.
pub proof fn law_leaving_gives_the_network_back(v: HostView, name: Seq<char>)
    ensures
        v.pool.taps.contains_key(name) && v.pool.claims.contains_key(v.pool.taps[name]) ==> {
            &&& released(v, name).pool.free == v.pool.free.push(v.pool.claims[v.pool.taps[name]].slot)
            &&& !released(v, name).pool.claims.contains_key(v.pool.taps[name])
            &&& released(v, name).leases == v.leases
        },
        !v.pool.taps.contains_key(name) ==> {
            &&& !released(v, name).leases.leases.contains_key(name)
            &&& v.leases.free.subset_of(released(v, name).leases.free)
            &&& released(v, name).pool == v.pool
        },
{
}

} // verus!
