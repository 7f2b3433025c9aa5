//! Setting up and taking down a sandbox's network.
use crate::error::{EngineError, ErrorView};
use crate::net::addr::{bad_address, invalid_input, parse_ip, read_ip, IpAddr};
use crate::net::cidr::{allow_list, parse_cidr_allowlist, read_cidrs, CidrNet};
use crate::net::host::{
    opt_list, opt_request, ref_list, release_guest_config, released, teardown_request, teardown_tap, BrokerRequest, HostNetwork,
    HostView, RequestView,
};
use crate::net::lease::{GuestConfig, GuestNetworkConfig, TapLease};
use crate::net::slots::{claim_of, recycled};
use crate::text::{cat2, copy_list, texts};
use vstd::prelude::*;

verus! {

/// Ports, each where it first occurs.
pub open spec fn distinct_ports(ports: Seq<u16>) -> Seq<u16>
    decreases ports.len(),
{
    if ports.len() == 0 {
        Seq::empty()
    } else {
        let rest = distinct_ports(ports.drop_last());
        if rest.contains(ports.last()) {
            rest
        } else {
            rest.push(ports.last())
        }
    }
}

fn unique_ports(ports: &Vec<u16>) -> (r: Result<Vec<u16>, EngineError>)
    ensures
        match r {
            Ok(v) => !ports@.contains(0) && v@ == distinct_ports(ports@),
            Err(e) => ports@.contains(0) && e@ == invalid_input("invalid TCP port 0"@),
        },
{
    let mut out: Vec<u16> = Vec::new();
    let mut i: usize = 0;
    assert(ports@.take(0) =~= Seq::empty());
    assert(out@ =~= Seq::empty());
    while i < ports.len()
        invariant
            i <= ports@.len(),
            out@ == distinct_ports(ports@.take(i as int)),
            forall|j: int| 0 <= j < i ==> ports@[j] != 0,
        decreases ports@.len() - i,
    {
        assert(ports@.take(i + 1).drop_last() =~= ports@.take(i as int));
        assert(ports@.take(i + 1).last() == ports@[i as int]);
        let port = ports[i];
        if port == 0 {
            return Err(EngineError::invalid("invalid TCP port 0".to_owned()));
        }
        let mut known = false;
        let mut k: usize = 0;
        while k < out.len()
            invariant
                k <= out@.len(),
                known == exists|j: int| 0 <= j < k && #[trigger] out@[j] == port,
            decreases out@.len() - k,
        {
            if out[k] == port {
                known = true;
            }
            k = k + 1;
        }
        assert(known == out@.contains(port));
        if !known {
            out.push(port);
        }
        i = i + 1;
    }
    assert(ports@.take(i as int) =~= ports@);
    Ok(out)
}

/// What the tunnels into a guest need: its address, the blocks that may connect,
/// and its ports.
pub struct TunnelPlan {
    pub guest: IpAddr,
    pub allowed: Vec<CidrNet>,
    pub ports: Vec<u16>,
}

/// What is wrong with a wish for tunnels, if anything.
pub open spec fn tunnel_refusal(
    guest_ip: Seq<char>,
    ports: Seq<u16>,
    allow: Option<Seq<Seq<char>>>,
) -> Option<Seq<char>> {
    if read_ip(guest_ip) is None {
        Some(bad_address(guest_ip))
    } else {
        match read_cidrs(allow_list(allow)) {
            Err(m) => Some(m),
            Ok(_) => if ports.contains(0) {
                Some("invalid TCP port 0"@)
            } else {
                None
            },
        }
    }
}

/// What the tunnels into a guest need. Of ports that are named twice the first
/// counts.
pub fn tunnel_plan(guest_ip: &str, ports: &Vec<u16>, allow: Option<&Vec<String>>) -> (r: Result<
    TunnelPlan,
    EngineError,
>)
    ensures
        match r {
            Ok(p) => {
                &&& tunnel_refusal(guest_ip@, ports@, ref_list(allow)) is None
                &&& read_ip(guest_ip@) == Some(p.guest)
                &&& read_cidrs(allow_list(ref_list(allow))) == Ok::<Seq<CidrNet>, Seq<char>>(p.allowed@)
                &&& p.ports@ == distinct_ports(ports@)
                &&& forall|i: int| 0 <= i < p.allowed@.len() ==> (#[trigger] p.allowed@[i]).sound()
            },
            Err(e) => tunnel_refusal(guest_ip@, ports@, ref_list(allow)) matches Some(m) && e@ == invalid_input(m),
        },
{
    let guest = match parse_ip(guest_ip) {
        Ok(a) => a,
        Err(e) => return Err(e),
    };
    let allowed = match parse_cidr_allowlist(allow) {
        Ok(v) => v,
        Err(e) => return Err(e),
    };
    match unique_ports(ports) {
        Ok(ports) => Ok(TunnelPlan { guest, allowed, ports }),
        Err(e) => Err(e),
    }
}

/// Whether all name servers are addresses.
pub open spec fn dns_sound(dns: Seq<Seq<char>>) -> bool {
    forall|i: int| 0 <= i < dns.len() ==> read_ip(#[trigger] dns[i]) is Some
}

/// The addresses of name servers.
pub fn dns_addresses(dns: &Vec<String>) -> (r: Result<Vec<IpAddr>, EngineError>)
    ensures
        match r {
            Ok(v) => v@.len() == dns@.len() && forall|i: int|
                0 <= i < v@.len() ==> read_ip(texts(dns@)[i]) == Some(#[trigger] v@[i]),
            Err(e) => exists|i: int|
                0 <= i < dns@.len() && read_ip(#[trigger] texts(dns@)[i]) is None && dns_sound(texts(dns@).take(i))
                    && e@ == invalid_input("invalid DNS address "@ + texts(dns@)[i]),
        },
{
    let mut out: Vec<IpAddr> = Vec::new();
    let mut i: usize = 0;
    while i < dns.len()
        invariant
            i <= dns@.len(),
            out@.len() == i,
            forall|j: int| 0 <= j < i ==> read_ip(texts(dns@)[j]) == Some(#[trigger] out@[j]),
        decreases dns@.len() - i,
    {
        let s = dns[i].as_str();
        assert(texts(dns@)[i as int] == s@);
        match parse_ip(s) {
            Ok(a) => {
                out.push(a);
            },
            Err(_) => {
                proof {
                    let t = texts(dns@);
                    assert forall|j: int| 0 <= j < t.take(i as int).len() implies read_ip(
                        #[trigger] t.take(i as int)[j],
                    ) is Some by {
                        assert(read_ip(t[j]) == Some(out@[j]));
                    }
                }
                return Err(EngineError::invalid(cat2("invalid DNS address ", s)));
            },
        }
        i = i + 1;
    }
    Ok(out)
}

/// Where the set-up of a network stands: what is to be done next.
#[derive(Clone, Copy, PartialEq, Eq, Structural, Debug)]
pub enum SetupStep {
    /// The policy is to be checked.
    CheckPolicy,
    /// The TAP is to be set up.
    SetupTap,
    /// The tunnels are to be opened.
    OpenTunnels,
    /// The TAP is to be taken down again.
    TakeDown,
    /// The network is to be given up again.
    Release,
    Done,
}

/// What comes after a step that went well or failed. What has been done is undone
/// in the reverse order; how the undoing goes makes no difference.
pub open spec fn setup_next(step: SetupStep, went_well: bool) -> SetupStep {
    match step {
        SetupStep::CheckPolicy => if went_well {
            SetupStep::SetupTap
        } else {
            SetupStep::Release
        },
        SetupStep::SetupTap => if went_well {
            SetupStep::OpenTunnels
        } else {
            SetupStep::Release
        },
        SetupStep::OpenTunnels => if went_well {
            SetupStep::Done
        } else {
            SetupStep::TakeDown
        },
        SetupStep::TakeDown => SetupStep::Release,
        SetupStep::Release => SetupStep::Done,
        SetupStep::Done => SetupStep::Done,
    }
}

/// Whether a step undoes what was done.
pub open spec fn is_undoing(step: SetupStep) -> bool {
    step == SetupStep::TakeDown || step == SetupStep::Release
}

/// The set-up of a sandbox's network, after it was allocated.
pub struct SandboxSetup {
    step: SetupStep,
    error: Option<EngineError>,
}

pub ghost struct SandboxSetupView {
    pub step: SetupStep,
    pub error: Option<ErrorView>,
}

impl View for SandboxSetup {
    type V = SandboxSetupView;

    closed spec fn view(&self) -> SandboxSetupView {
        SandboxSetupView {
            step: self.step,
            error: match self.error {
                Some(e) => Some(e@),
                None => None,
            },
        }
    }
}

/// The set-up after a step: the first error is the one that is kept.
pub open spec fn setup_after(v: SandboxSetupView, error: Option<ErrorView>) -> SandboxSetupView {
    SandboxSetupView {
        step: setup_next(v.step, error is None),
        error: if is_undoing(v.step) || v.step == SetupStep::Done {
            v.error
        } else {
            error
        },
    }
}

impl SandboxSetup {
    /// A set-up that begins.
    pub fn new() -> (r: SandboxSetup)
        ensures
            r@ == (SandboxSetupView { step: SetupStep::CheckPolicy, error: None }),
    {
        SandboxSetup { step: SetupStep::CheckPolicy, error: None }
    }

    /// What is to be done next.
    pub fn step(&self) -> (r: SetupStep)
        ensures
            r == self@.step,
    {
        self.step
    }

    /// Notes how the step went.
    pub fn resume(&mut self, error: Option<EngineError>)
        ensures
            final(self)@ == setup_after(
                old(self)@,
                match error {
                    Some(e) => Some(e@),
                    None => None,
                },
            ),
    {
        let went_well = error.is_none();
        match self.step {
            SetupStep::CheckPolicy => {
                self.step = if went_well {
                    SetupStep::SetupTap
                } else {
                    SetupStep::Release
                };
                self.error = error;
            },
            SetupStep::SetupTap => {
                self.step = if went_well {
                    SetupStep::OpenTunnels
                } else {
                    SetupStep::Release
                };
                self.error = error;
            },
            SetupStep::OpenTunnels => {
                self.step = if went_well {
                    SetupStep::Done
                } else {
                    SetupStep::TakeDown
                };
                self.error = error;
            },
            SetupStep::TakeDown => {
                self.step = SetupStep::Release;
            },
            SetupStep::Release => {
                self.step = SetupStep::Done;
            },
            SetupStep::Done => {},
        }
    }

    /// Why the set-up failed, if it did.
    pub fn into_error(self) -> (r: Option<EngineError>)
        ensures
            match r {
                Some(e) => self@.error == Some(e@),
                None => self@.error is None,
            },
    {
        self.error
    }
}

/// The set-up after a series of steps.
pub open spec fn setup_run(errors: Seq<Option<ErrorView>>) -> SandboxSetupView
    decreases errors.len(),
{
    if errors.len() == 0 {
        SandboxSetupView { step: SetupStep::CheckPolicy, error: None }
    } else {
        setup_after(setup_run(errors.drop_last()), errors.last())
    }
}

/// Whether a step was taken in a series.
pub open spec fn setup_took(errors: Seq<Option<ErrorView>>, step: SetupStep) -> bool {
    exists|i: int| 0 <= i < errors.len() && (#[trigger] setup_run(errors.take(i))).step == step
}

/// A set-up that fails has given its network up when it ends, and one whose TAP
/// was in place has taken it down.
pub proof fn law_failed_setup_is_undone(errors: Seq<Option<ErrorView>>)
    ensures
        ({
            let end = setup_run(errors);
            &&& end.step == SetupStep::Done && end.error is Some ==> setup_took(errors, SetupStep::Release)
            &&& end.step == SetupStep::Done && end.error is Some && setup_took(errors, SetupStep::OpenTunnels)
                ==> setup_took(errors, SetupStep::TakeDown)
            &&& is_undoing(end.step) ==> end.error is Some
            &&& end.step == SetupStep::Release && setup_took(errors, SetupStep::OpenTunnels) ==> setup_took(
                errors,
                SetupStep::TakeDown,
            )
            &&& end.step == SetupStep::CheckPolicy || end.step == SetupStep::SetupTap || end.step
                == SetupStep::OpenTunnels ==> end.error is None && !setup_took(errors, SetupStep::OpenTunnels)
                && !setup_took(errors, SetupStep::Release)
            &&& end.step == SetupStep::Done && end.error is None ==> !setup_took(errors, SetupStep::Release)
        }),
    decreases errors.len(),
{
    let end = setup_run(errors);
    if errors.len() > 0 {
        let rest = errors.drop_last();
        let last = rest.len() as int;
        law_failed_setup_is_undone(rest);
        assert forall|step: SetupStep| #[trigger] setup_took(errors, step) == (setup_took(rest, step) || setup_run(
            rest,
        ).step == step) by {
            if setup_took(errors, step) {
                let i = choose|i: int| 0 <= i < errors.len() && (#[trigger] setup_run(errors.take(i))).step == step;
                if i < last {
                    assert(rest.take(i) =~= errors.take(i));
                } else {
                    assert(errors.take(i) =~= rest);
                }
            }
            if setup_took(rest, step) {
                let i = choose|i: int| 0 <= i < rest.len() && (#[trigger] setup_run(rest.take(i))).step == step;
                assert(rest.take(i) =~= errors.take(i));
                assert(setup_run(errors.take(i)).step == step);
            }
            if setup_run(rest).step == step {
                assert(errors.take(last) =~= rest);
            }
        }
    }
}

/// Every set-up ends after at most five steps.
pub proof fn law_setup_ends(errors: Seq<Option<ErrorView>>)
    requires
        errors.len() >= 5,
    ensures
        setup_run(errors).step == SetupStep::Done,
{
    lemma_setup_rank(errors);
}

pub open spec fn setup_rank(step: SetupStep) -> nat {
    match step {
        SetupStep::CheckPolicy => 5,
        SetupStep::SetupTap => 4,
        SetupStep::OpenTunnels => 3,
        SetupStep::TakeDown => 2,
        SetupStep::Release => 1,
        SetupStep::Done => 0,
    }
}

proof fn lemma_setup_rank(errors: Seq<Option<ErrorView>>)
    ensures
        setup_rank(setup_run(errors).step) + errors.len() <= 5 || setup_run(errors).step == SetupStep::Done,
    decreases errors.len(),
{
    if errors.len() > 0 {
        lemma_setup_rank(errors.drop_last());
    }
}

/// A sandbox's network that is set up.
pub struct SandboxNetwork {
    pub name: String,
    pub config: GuestConfig,
    pub tap: TapLease,
    pub guest_config: GuestNetworkConfig,
    pub egress_allow: Option<Vec<String>>,
    pub egress_allow_domains: Option<Vec<String>>,
    pub vpc_bridge: Option<String>,
}

/// What is done first to take a network down.
pub enum NetworkTeardown {
    /// The TAP is detached from its bridge; nothing else is to be done.
    Detach { bridge: String, tap: String },
    /// The broker is asked, if there is anything to ask for; the network is then
    /// given up.
    Tap(Option<BrokerRequest>),
}

impl SandboxNetwork {
    /// What the broker is asked for so that the guest may reach the host's credential
    /// gateway, and nothing else of the host.
    pub fn allow_credential_gateway(&self) -> (r: BrokerRequest)
        ensures
            r@ == (RequestView::AllowCredential { lease: self.tap@ }),
    {
        BrokerRequest::AllowCredential {
            lease: TapLease {
                name: self.tap.name.clone(),
                guest_ip: self.tap.guest_ip.clone(),
                host_ip: self.tap.host_ip.clone(),
                prefix: self.tap.prefix,
                network: self.tap.network.clone(),
                egress_allow: copy_list(&self.tap.egress_allow),
            },
        }
    }

    /// Begins to take the network down.
    pub fn begin_teardown(&self, host: &mut HostNetwork) -> (r: NetworkTeardown)
        ensures
            match self.vpc_bridge {
                Some(b) => final(host)@ == old(host)@ && (r matches NetworkTeardown::Detach { bridge, tap } && bridge@
                    == b@ && tap@ == self.tap@.name),
                None => {
                    &&& final(host)@ == (HostView { pool: recycled(old(host)@.pool, self.tap@.name), ..old(host)@ })
                    &&& r matches NetworkTeardown::Tap(request) && opt_request(request) == teardown_request(
                        old(host)@,
                        self.tap@.name,
                        Some(self.tap@.guest_ip),
                        Some(self.tap@.host_ip),
                        self.tap@.prefix,
                        opt_list(self.egress_allow),
                        opt_list(self.egress_allow_domains),
                    )
                },
            },
    {
        match &self.vpc_bridge {
            Some(bridge) => NetworkTeardown::Detach { bridge: bridge.clone(), tap: self.tap.name.clone() },
            None => NetworkTeardown::Tap(
                teardown_tap(
                    host,
                    self.tap.name.as_str(),
                    Some(&self.tap.guest_ip),
                    Some(&self.tap.host_ip),
                    self.tap.prefix,
                    self.egress_allow.as_ref(),
                    self.egress_allow_domains.as_ref(),
                ),
            ),
        }
    }

    /// Gives the network up after the TAP was taken down; where that failed, it is
    /// kept. Returns what the broker is asked for, and whether the kept leases
    /// changed.
    pub fn finish_teardown(&self, host: &mut HostNetwork, taken_down: Result<(), EngineError>) -> (r: Result<
        (Option<BrokerRequest>, bool),
        EngineError,
    >)
        ensures
            match taken_down {
                Err(e) => final(host)@ == old(host)@ && (r matches Err(f) && f@ == e@),
                Ok(_) => {
                    &&& final(host)@ == released(old(host)@, self.name@)
                    &&& r matches Ok((request, changed)) && match claim_of(old(host)@.pool, self.name@) {
                        Some(claim) => !changed && opt_request(request) == if claim.custom {
                            Some(RequestView::RecycleSlot { slot: claim.slot })
                        } else {
                            None
                        },
                        None => request is None && changed == old(host)@.leases.leases.contains_key(self.name@),
                    }
                },
            },
    {
        match taken_down {
            Err(e) => Err(e),
            Ok(_) => Ok(release_guest_config(host, self.name.as_str())),
        }
    }
}

/// Where its steps succeed, a set-up goes from the policy to the TAP to the tunnels.
pub proof fn law_setup_goes_in_order(v: SandboxSetupView, e: ErrorView)
    ensures
        setup_next(SetupStep::CheckPolicy, true) == SetupStep::SetupTap,
        setup_next(SetupStep::SetupTap, true) == SetupStep::OpenTunnels,
        setup_next(SetupStep::OpenTunnels, true) == SetupStep::Done,
        v.step == SetupStep::CheckPolicy || v.step == SetupStep::SetupTap || v.step == SetupStep::OpenTunnels
            ==> setup_after(v, Some(e)).error == Some(e),
        v.step == SetupStep::TakeDown || v.step == SetupStep::Release ==> setup_after(v, Some(e)).error == v.error,
        v.step == SetupStep::CheckPolicy || v.step == SetupStep::SetupTap ==> setup_after(v, Some(e)).step
            == SetupStep::Release,
        v.step == SetupStep::OpenTunnels ==> setup_after(v, Some(e)).step == SetupStep::TakeDown,
{
}

/// Each port gets one tunnel.
pub proof fn law_each_port_has_one_tunnel(ports: Seq<u16>, port: u16)
    ensures
        distinct_ports(ports).contains(port) <==> ports.contains(port),
        distinct_ports(ports).no_duplicates(),
    decreases ports.len(),
{
    if ports.len() > 0 {
        let rest = ports.drop_last();
        let last = ports.last();
        law_each_port_has_one_tunnel(rest, port);
        let a = distinct_ports(rest);
        let b = distinct_ports(ports);
        assert(ports =~= rest.push(last));
        if a.contains(port) {
            let i = choose|i: int| 0 <= i < a.len() && a[i] == port;
            assert(b[i] == port);
        }
        if b.contains(port) {
            let i = choose|i: int| 0 <= i < b.len() && b[i] == port;
            if i < a.len() {
                assert(a[i] == port);
            } else {
                assert(ports[ports.len() - 1] == port);
            }
        }
        if rest.contains(port) {
            let i = choose|i: int| 0 <= i < rest.len() && rest[i] == port;
            assert(ports[i] == port);
        }
        if ports.contains(port) && !rest.contains(port) {
            let i = choose|i: int| 0 <= i < ports.len() && ports[i] == port;
            if i < rest.len() {
                assert(rest[i] == port);
            }
            assert(port == last);
            assert(!a.contains(last));
            assert(b[b.len() - 1] == port);
        }
        if !a.contains(last) {
            assert forall|i: int, j: int| 0 <= i < b.len() && 0 <= j < b.len() && i != j implies b[i] != b[j] by {
                if i < a.len() && j < a.len() {
                    assert(a[i] != a[j]);
                } else if i < a.len() {
                    assert(a.contains(a[i]));
                } else {
                    assert(a.contains(a[j]));
                }
            }
        }
    }
}

/// Tunnels are refused where the guest has no address, a port is no port, or a block of
/// those that may come in cannot be read; and only there.
pub proof fn law_tunnels_need_ports_and_blocks(guest_ip: Seq<char>, ports: Seq<u16>, allow: Option<Seq<Seq<char>>>)
    ensures
        tunnel_refusal(guest_ip, ports, allow) is None <==> read_ip(guest_ip) is Some && !ports.contains(0)
            && read_cidrs(allow_list(allow)) is Ok,
{
}

} // verus!
