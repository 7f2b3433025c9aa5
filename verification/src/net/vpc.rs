//! Routed networks between sandboxes: the bridge of each, and the commands for it.
use crate::decimal::{decimal, render_u64};
use crate::error::{EngineError, ErrorView};
use crate::net::addr::{hex_value, hex_digit_value, invalid_input, render_v4, v4_text};
use crate::net::allocator::{tap_name, tap_name_of};
use crate::net::cidr::{block_of, ipv4_network};
use crate::net::host::{default_dns, default_dns_texts};
use crate::net::lease::{
    parse_ipv4, tap_address, tells, ConfigView, GuestConfig, GuestNetworkConfig, TapLease, TapLeaseView,
};
use crate::net::sandbox::SandboxNetwork;
use crate::text::{cat2, cat3, chars_of, opt_text, starts_with, string_of, strings, texts};
use vstd::prelude::*;

verus! {

/// Whether a text is eight hexadecimal digits.
pub open spec fn eight_hex(s: Seq<char>) -> bool {
    s.len() == 8 && forall|i: int| 0 <= i < s.len() ==> hex_value(#[trigger] s[i]) is Some
}

/// The name of a routed network's bridge.
pub open spec fn bridge_name(id: Seq<char>) -> Option<Seq<char>> {
    if "vpc-"@.is_prefix_of(id) && eight_hex(id.skip(4)) {
        Some("vmonbr-"@ + id.skip(4))
    } else {
        None
    }
}

/// The name of a routed network's bridge.
pub fn vpc_bridge_name(id: &str) -> (r: Result<String, EngineError>)
    ensures
        match r {
            Ok(name) => bridge_name(id@) == Some(name@),
            Err(e) => bridge_name(id@) is None && e@ == invalid_input("VPC id must be a vpc-<8hex> identifier"@),
        },
{
    let refused = "VPC id must be a vpc-<8hex> identifier";
    if !starts_with(id, "vpc-") {
        return Err(EngineError::invalid(refused.to_owned()));
    }
    proof {
        reveal_strlit("vpc-");
    }
    let chars = chars_of(id);
    let n = chars.len();
    if n != 12 {
        return Err(EngineError::invalid(refused.to_owned()));
    }
    let ghost suffix = id@.skip(4);
    let mut i: usize = 4;
    while i < n
        invariant
            4 <= i <= n,
            n == 12,
            chars@ == id@,
            chars@.len() == n,
            suffix == id@.skip(4),
            refused@ == "VPC id must be a vpc-<8hex> identifier"@,
            forall|j: int| 0 <= j < i - 4 ==> hex_value(#[trigger] suffix[j]) is Some,
        decreases n - i,
    {
        assert(suffix[i - 4] == chars@[i as int]);
        if hex_digit_value(chars[i]).is_none() {
            return Err(EngineError::invalid(refused.to_owned()));
        }
        i = i + 1;
    }
    let tail = string_of(&chars, 4, n);
    assert(tail@ =~= suffix);
    Ok(cat2("vmonbr-", tail.as_str()))
}

/// The command that makes a bridge.
pub fn add_bridge_command(bridge: &str) -> (r: Vec<String>)
    ensures
        texts(r@) == seq!["ip"@, "link"@, "add"@, "name"@, bridge@, "type"@, "bridge"@],
{
    let r = strings(["ip", "link", "add", "name", bridge, "type", "bridge"]);
    assert(texts(r@) =~= seq!["ip"@, "link"@, "add"@, "name"@, bridge@, "type"@, "bridge"@]);
    r
}

/// The command that gives a bridge its gateway address.
pub open spec fn bridge_address_argv(bridge: Seq<char>, gateway: Seq<char>, prefix: u8) -> Seq<Seq<char>> {
    seq!["ip"@, "address"@, "replace"@, gateway + "/"@ + decimal(prefix as nat), "dev"@, bridge]
}

/// The command that gives a bridge its gateway address.
pub fn bridge_address_command(bridge: &str, gateway: &str, prefix: u8) -> (r: Vec<String>)
    ensures
        texts(r@) == bridge_address_argv(bridge@, gateway@, prefix),
{
    let digits = render_u64(prefix as u64);
    let cidr = cat3(gateway, "/", digits.as_str());
    let r = strings(["ip", "address", "replace", cidr.as_str(), "dev", bridge]);
    assert(texts(r@) =~= seq![
        "ip"@,
        "address"@,
        "replace"@,
        gateway@ + "/"@ + decimal(prefix as nat),
        "dev"@,
        bridge@,
    ]);
    r
}

/// The command that attaches a TAP to a bridge.
pub fn attach_command(bridge: &str, tap: &str) -> (r: Vec<String>)
    ensures
        texts(r@) == seq!["ip"@, "link"@, "set"@, "dev"@, tap@, "master"@, bridge@],
{
    let r = strings(["ip", "link", "set", "dev", tap, "master", bridge]);
    assert(texts(r@) =~= seq!["ip"@, "link"@, "set"@, "dev"@, tap@, "master"@, bridge@]);
    r
}

/// The command that takes a TAP away from its bridge.
pub fn detach_command(tap: &str) -> (r: Vec<String>)
    ensures
        texts(r@) == seq!["ip"@, "link"@, "delete"@, "dev"@, tap@],
{
    let r = strings(["ip", "link", "delete", "dev", tap]);
    assert(texts(r@) =~= seq!["ip"@, "link"@, "delete"@, "dev"@, tap@]);
    r
}

/// The command that takes a bridge away.
pub fn delete_bridge_command(bridge: &str) -> (r: Vec<String>)
    ensures
        texts(r@) == seq!["ip"@, "link"@, "delete"@, "dev"@, bridge@, "type"@, "bridge"@],
{
    let r = strings(["ip", "link", "delete", "dev", bridge, "type", "bridge"]);
    assert(texts(r@) =~= seq!["ip"@, "link"@, "delete"@, "dev"@, bridge@, "type"@, "bridge"@]);
    r
}

/// What a sandbox on a routed network is given, or what is wrong with its
/// address.
pub open spec fn vpc_configuration(
    name: Seq<char>,
    guest_ip: Seq<char>,
    gateway: Seq<char>,
    prefix: u8,
) -> Result<ConfigView, Seq<char>> {
    match tap_address(guest_ip) {
        Err(m) => Err(m),
        Ok(guest) => Ok(
            ConfigView {
                tap: tap_name_of(name),
                host_ip: gateway,
                guest_ip,
                prefix,
                network: v4_text(block_of(guest as nat, 32, prefix as nat)) + "/"@ + decimal(prefix as nat),
                dns: default_dns_texts(),
            },
        ),
    }
}

/// What a sandbox on a routed network is given.
pub fn vpc_config(name: &str, guest_ip: &str, gateway: &str, prefix: u8) -> (r: Result<GuestConfig, EngineError>)
    requires
        1 <= prefix <= 32,
    ensures
        match r {
            Ok(c) => vpc_configuration(name@, guest_ip@, gateway@, prefix) == Ok::<ConfigView, Seq<char>>(c@),
            Err(e) => vpc_configuration(name@, guest_ip@, gateway@, prefix) matches Err(m) && e@ == invalid_input(m),
        },
{
    let guest = match parse_ipv4(guest_ip) {
        Ok(a) => a,
        Err(e) => return Err(e),
    };
    match ipv4_network(guest, prefix) {
        Err(e) => Err(e),
        Ok(network) => {
            let digits = render_u64(prefix as u64);
            Ok(
                GuestConfig {
                    tap: tap_name(name),
                    host_ip: gateway.to_owned(),
                    guest_ip: guest_ip.to_owned(),
                    prefix,
                    network: cat3(render_v4(network).as_str(), "/", digits.as_str()),
                    dns: default_dns(),
                },
            )
        },
    }
}

/// Where the set-up of a sandbox on a routed network stands: what is to be done
/// next.
#[derive(Clone, Copy, PartialEq, Eq, Structural, Debug)]
pub enum VpcStep {
    EnsureBridge,
    AttachTap,
    OpenTunnels,
    /// The TAP is to be detached again.
    DetachTap,
    Done,
}

/// What comes after a step. A TAP whose tunnels could not be opened is detached
/// again; how that goes makes no difference.
pub open spec fn vpc_next(step: VpcStep, went_well: bool) -> VpcStep {
    match step {
        VpcStep::EnsureBridge => if went_well {
            VpcStep::AttachTap
        } else {
            VpcStep::Done
        },
        VpcStep::AttachTap => if went_well {
            VpcStep::OpenTunnels
        } else {
            VpcStep::Done
        },
        VpcStep::OpenTunnels => if went_well {
            VpcStep::Done
        } else {
            VpcStep::DetachTap
        },
        VpcStep::DetachTap => VpcStep::Done,
        VpcStep::Done => VpcStep::Done,
    }
}

/// The set-up of a sandbox on a routed network.
pub struct VpcSetup {
    name: String,
    vpc_id: String,
    guest_ip: String,
    gateway: String,
    prefix: u8,
    bridge: String,
    tap: String,
    step: VpcStep,
    error: Option<EngineError>,
}

pub ghost struct VpcSetupView {
    pub name: Seq<char>,
    pub vpc_id: Seq<char>,
    pub guest_ip: Seq<char>,
    pub gateway: Seq<char>,
    pub prefix: u8,
    pub bridge: Seq<char>,
    pub tap: Seq<char>,
    pub step: VpcStep,
    pub error: Option<ErrorView>,
}

impl View for VpcSetup {
    type V = VpcSetupView;

    closed spec fn view(&self) -> VpcSetupView {
        VpcSetupView {
            name: self.name@,
            vpc_id: self.vpc_id@,
            guest_ip: self.guest_ip@,
            gateway: self.gateway@,
            prefix: self.prefix,
            bridge: self.bridge@,
            tap: self.tap@,
            step: self.step,
            error: match self.error {
                Some(e) => Some(e@),
                None => None,
            },
        }
    }
}

/// The set-up after a step: the error of a step that undoes another is dropped.
pub open spec fn vpc_after(v: VpcSetupView, error: Option<ErrorView>) -> VpcSetupView {
    VpcSetupView {
        step: vpc_next(v.step, error is None),
        error: if v.step == VpcStep::DetachTap || v.step == VpcStep::Done {
            v.error
        } else {
            error
        },
        ..v
    }
}

impl VpcSetup {
    /// A set-up that begins.
    pub fn new(name: &str, vpc_id: &str, guest_ip: &str, gateway: &str, prefix: u8) -> (r: Result<
        VpcSetup,
        EngineError,
    >)
        ensures
            match r {
                Ok(s) => bridge_name(vpc_id@) is Some && s@ == (VpcSetupView {
                    name: name@,
                    vpc_id: vpc_id@,
                    guest_ip: guest_ip@,
                    gateway: gateway@,
                    prefix,
                    bridge: bridge_name(vpc_id@)->0,
                    tap: tap_name_of(name@),
                    step: VpcStep::EnsureBridge,
                    error: None,
                }),
                Err(e) => bridge_name(vpc_id@) is None && e@ == invalid_input(
                    "VPC id must be a vpc-<8hex> identifier"@,
                ),
            },
    {
        match vpc_bridge_name(vpc_id) {
            Err(e) => Err(e),
            Ok(bridge) => Ok(
                VpcSetup {
                    name: name.to_owned(),
                    vpc_id: vpc_id.to_owned(),
                    guest_ip: guest_ip.to_owned(),
                    gateway: gateway.to_owned(),
                    prefix,
                    bridge,
                    tap: tap_name(name),
                    step: VpcStep::EnsureBridge,
                    error: None,
                },
            ),
        }
    }

    /// What is to be done next.
    pub fn step(&self) -> (r: VpcStep)
        ensures
            r == self@.step,
    {
        self.step
    }

    /// The bridge.
    pub fn bridge(&self) -> (r: &str)
        ensures
            r@ == self@.bridge,
    {
        self.bridge.as_str()
    }

    /// The command that gives the bridge its gateway address.
    pub fn address_command(&self) -> (r: Vec<String>)
        ensures
            texts(r@) == bridge_address_argv(self@.bridge, self@.gateway, self@.prefix),
    {
        bridge_address_command(self.bridge.as_str(), self.gateway.as_str(), self.prefix)
    }

    /// The TAP.
    pub fn tap(&self) -> (r: &str)
        ensures
            r@ == self@.tap,
    {
        self.tap.as_str()
    }

    /// Notes how the step went.
    pub fn resume(&mut self, error: Option<EngineError>)
        ensures
            final(self)@ == vpc_after(
                old(self)@,
                match error {
                    Some(e) => Some(e@),
                    None => None,
                },
            ),
    {
        let went_well = error.is_none();
        match self.step {
            VpcStep::EnsureBridge => {
                self.step = if went_well {
                    VpcStep::AttachTap
                } else {
                    VpcStep::Done
                };
                self.error = error;
            },
            VpcStep::AttachTap => {
                self.step = if went_well {
                    VpcStep::OpenTunnels
                } else {
                    VpcStep::Done
                };
                self.error = error;
            },
            VpcStep::OpenTunnels => {
                self.step = if went_well {
                    VpcStep::Done
                } else {
                    VpcStep::DetachTap
                };
                self.error = error;
            },
            VpcStep::DetachTap => {
                self.step = VpcStep::Done;
            },
            VpcStep::Done => {},
        }
    }

    /// The network, or why there is none.
    pub fn into_network(self) -> (r: Result<SandboxNetwork, EngineError>)
        requires
            1 <= self@.prefix <= 32,
        ensures
            match (self@.error, vpc_configuration(self@.name, self@.guest_ip, self@.gateway, self@.prefix)) {
                (Some(error), _) => r matches Err(e) && e@ == error,
                (None, Err(message)) => r matches Err(e) && e@ == invalid_input(message),
                (None, Ok(config)) => r matches Ok(n) && n.name@ == self@.name && n.config@ == config
                    && tells(n.guest_config, config) && n.tap@ == (TapLeaseView {
                    name: self@.tap,
                    guest_ip: self@.guest_ip,
                    host_ip: self@.gateway,
                    prefix: self@.prefix,
                    network: self@.vpc_id,
                    egress_allow: Seq::empty(),
                }) && n.egress_allow is None && n.egress_allow_domains is None && opt_text(n.vpc_bridge) == Some(
                    self@.bridge,
                ),
            },
    {
        if let Some(e) = self.error {
            return Err(e);
        }
        match vpc_config(self.name.as_str(), self.guest_ip.as_str(), self.gateway.as_str(), self.prefix) {
            Err(e) => Err(e),
            Ok(config) => {
                let egress_allow: Vec<String> = Vec::new();
                assert(texts(egress_allow@) =~= Seq::empty());
                let tap = TapLease {
                    name: self.tap,
                    guest_ip: self.guest_ip,
                    host_ip: self.gateway,
                    prefix: self.prefix,
                    network: self.vpc_id,
                    egress_allow,
                };
                let guest_config = GuestNetworkConfig::of_config(&config);
                Ok(
                    SandboxNetwork {
                        name: self.name,
                        config,
                        tap,
                        guest_config,
                        egress_allow: None,
                        egress_allow_domains: None,
                        vpc_bridge: Some(self.bridge),
                    },
                )
            },
        }
    }
}

/// A TAP that was attached in vain is detached, and the error that led there is
/// kept.
pub proof fn law_vain_attachment_is_undone(v: VpcSetupView, error: ErrorView, ignored: Option<ErrorView>)
    requires
        v.step == VpcStep::OpenTunnels,
    ensures
        vpc_after(v, Some(error)).step == VpcStep::DetachTap,
        vpc_after(vpc_after(v, Some(error)), ignored).step == VpcStep::Done,
        vpc_after(vpc_after(v, Some(error)), ignored).error == Some(error),
{
}

/// A sandbox joins a network in this order: its bridge is there, its TAP is attached,
/// its tunnels are open; what fails before the tunnels ends it with its error.
pub proof fn law_joining_goes_in_order(v: VpcSetupView, e: ErrorView)
    ensures
        ({
            let at = |step: VpcStep| (VpcSetupView { step, ..v });
            &&& vpc_after(at(VpcStep::EnsureBridge), None).step == VpcStep::AttachTap
            &&& vpc_after(at(VpcStep::AttachTap), None).step == VpcStep::OpenTunnels
            &&& vpc_after(at(VpcStep::OpenTunnels), None).step == VpcStep::Done
            &&& vpc_after(at(VpcStep::OpenTunnels), None).error is None
            &&& vpc_after(at(VpcStep::EnsureBridge), Some(e)).step == VpcStep::Done
            &&& vpc_after(at(VpcStep::EnsureBridge), Some(e)).error == Some(e)
            &&& vpc_after(at(VpcStep::AttachTap), Some(e)).step == VpcStep::Done
            &&& vpc_after(at(VpcStep::AttachTap), Some(e)).error == Some(e)
        }),
{
}

/// The bridge of a network is named after the eight digits of its identifier.
pub proof fn law_bridge_is_named_after_its_network(digits: Seq<char>)
    requires
        digits.len() == 8,
        forall|i: int| 0 <= i < digits.len() ==> '0' <= #[trigger] digits[i] <= '9' || 'a' <= digits[i] <= 'f',
    ensures
        bridge_name("vpc-"@ + digits) == Some("vmonbr-"@ + digits),
        bridge_name(digits) is None,
{
    reveal_strlit("vpc-");
    let id = "vpc-"@ + digits;
    assert("vpc-"@.len() == 4);
    assert(id.skip(4) =~= digits);
    assert(id.subrange(0, 4) =~= "vpc-"@);
    assert("vpc-"@.is_prefix_of(id));
    assert(eight_hex(digits)) by {
        assert forall|i: int| 0 <= i < digits.len() implies hex_value(#[trigger] digits[i]) is Some by {
            assert('0' <= digits[i] <= '9' || 'a' <= digits[i] <= 'f');
        }
    }
    if "vpc-"@.is_prefix_of(digits) {
        assert(digits[0] == "vpc-"@[0]);
        assert("vpc-"@[0] == 'v');
    }
}

} // verus!
