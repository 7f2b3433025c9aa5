//! What is run to set up a sandbox's TAP, to replace its policy and to take it
//! down: plans of steps, in the order in which they are run.
use crate::decimal::{decimal, render_u64};
use crate::net::lease::{TapLease, TapLeaseView};
use crate::net::rules::{
    credential_gateway_rule, deny_egress_argv, deny_egress_rule, domain_argv, domain_rule, egress_cidr_argv,
    egress_cidr_rule, gateway_argv, host_deny_argv, host_deny_rule, masq_argv, masq_rule, open_egress_argv,
    protected_argv, protected_deny_rule, return_argv, return_rule, unrestricted_egress_rule, IptablesAction,
};
use crate::text::{strings, texts, trim, trimmed};
use crate::textmap::{in_sequence, lemma_in_sequence, TextMap};
use vstd::prelude::*;

verus! {

/// How many ranges are protected.
pub const PROTECTED_COUNT: usize = 16;

/// The ranges that a sandbox without a policy of its own cannot reach.
pub open spec fn protected_ranges() -> Seq<Seq<char>> {
    seq![
        "0.0.0.0/8"@,
        "127.0.0.0/8"@,
        "10.0.0.0/8"@,
        "172.16.0.0/12"@,
        "192.168.0.0/16"@,
        "169.254.0.0/16"@,
        "224.0.0.0/4"@,
        "255.255.255.255/32"@,
        "100.64.0.0/10"@,
        "192.0.0.0/24"@,
        "192.0.2.0/24"@,
        "192.88.99.0/24"@,
        "198.18.0.0/15"@,
        "198.51.100.0/24"@,
        "203.0.113.0/24"@,
        "240.0.0.0/4"@,
    ]
}

/// The ranges that a sandbox without a policy of its own cannot reach.
pub fn protected_v4_ranges() -> (r: Vec<String>)
    ensures
        texts(r@) == protected_ranges(),
{
    let r = strings([
        "0.0.0.0/8",
        "127.0.0.0/8",
        "10.0.0.0/8",
        "172.16.0.0/12",
        "192.168.0.0/16",
        "169.254.0.0/16",
        "224.0.0.0/4",
        "255.255.255.255/32",
        "100.64.0.0/10",
        "192.0.0.0/24",
        "192.0.2.0/24",
        "192.88.99.0/24",
        "198.18.0.0/15",
        "198.51.100.0/24",
        "203.0.113.0/24",
        "240.0.0.0/4",
    ]);
    assert(texts(r@) =~= protected_ranges());
    r
}

/// A rule of a sandbox's TAP.
#[derive(Debug)]
pub enum TapRule {
    Masq,
    Return,
    CredentialGateway,
    HostDeny,
    DenyEgress,
    OpenEgress,
    Cidr(String, usize),
    Domain(String, usize),
    Protected(usize),
}

pub ghost enum RuleView {
    Masq,
    Return,
    CredentialGateway,
    HostDeny,
    DenyEgress,
    OpenEgress,
    Cidr(Seq<char>, int),
    Domain(Seq<char>, usize),
    Protected(int),
}

impl View for TapRule {
    type V = RuleView;

    open spec fn view(&self) -> RuleView {
        match *self {
            TapRule::Masq => RuleView::Masq,
            TapRule::Return => RuleView::Return,
            TapRule::CredentialGateway => RuleView::CredentialGateway,
            TapRule::HostDeny => RuleView::HostDeny,
            TapRule::DenyEgress => RuleView::DenyEgress,
            TapRule::OpenEgress => RuleView::OpenEgress,
            TapRule::Cidr(c, i) => RuleView::Cidr(c@, i as int),
            TapRule::Domain(ip, i) => RuleView::Domain(ip@, i),
            TapRule::Protected(i) => RuleView::Protected(i as int),
        }
    }
}

/// A step of a plan. `Ensure` puts a rule in place unless it is there; `Delete`
/// takes away every copy of it.
#[derive(Debug)]
pub enum TapOp {
    AddTap,
    SetAddress,
    LinkUp,
    DisableIpv6,
    EnableForward,
    Ensure(IptablesAction, TapRule),
    Delete(TapRule),
}

pub ghost enum OpView {
    AddTap,
    SetAddress,
    LinkUp,
    DisableIpv6,
    EnableForward,
    Ensure(IptablesAction, RuleView),
    Delete(RuleView),
}

impl View for TapOp {
    type V = OpView;

    open spec fn view(&self) -> OpView {
        match *self {
            TapOp::AddTap => OpView::AddTap,
            TapOp::SetAddress => OpView::SetAddress,
            TapOp::LinkUp => OpView::LinkUp,
            TapOp::DisableIpv6 => OpView::DisableIpv6,
            TapOp::EnableForward => OpView::EnableForward,
            TapOp::Ensure(a, r) => OpView::Ensure(a, r@),
            TapOp::Delete(r) => OpView::Delete(r@),
        }
    }
}

/// The steps of a list.
pub open spec fn ops_view(ops: Seq<TapOp>) -> Seq<OpView> {
    ops.map_values(|o: TapOp| o@)
}

/// The arguments of a rule's command.
pub open spec fn rule_argv(rule: RuleView, action: IptablesAction, lease: TapLeaseView, port: u16) -> Seq<Seq<char>> {
    match rule {
        RuleView::Masq => masq_argv(action, lease),
        RuleView::Return => return_argv(action, lease),
        RuleView::CredentialGateway => gateway_argv(action, lease, port),
        RuleView::HostDeny => host_deny_argv(action, lease),
        RuleView::DenyEgress => deny_egress_argv(action, lease),
        RuleView::OpenEgress => open_egress_argv(action, lease),
        RuleView::Cidr(c, i) => egress_cidr_argv(action, lease.name, lease.guest_block(), c, i as nat),
        RuleView::Domain(ip, i) => domain_argv(action, lease.name, lease.guest_block(), ip, i as nat),
        RuleView::Protected(i) => protected_argv(
            action,
            lease.name,
            lease.guest_block(),
            protected_ranges()[i],
            i as nat,
        ),
    }
}

/// Whether a rule names a range that there is.
pub open spec fn in_range(rule: RuleView) -> bool {
    rule matches RuleView::Protected(i) ==> 0 <= i < PROTECTED_COUNT
}

/// The arguments of a rule's command.
pub fn render_rule(rule: &TapRule, action: IptablesAction, lease: &TapLease, port: u16) -> (r: Vec<String>)
    requires
        in_range(rule@),
    ensures
        texts(r@) == rule_argv(rule@, action, lease@, port),
{
    match rule {
        TapRule::Masq => masq_rule(action, lease),
        TapRule::Return => return_rule(action, lease),
        TapRule::CredentialGateway => credential_gateway_rule(action, lease, port),
        TapRule::HostDeny => host_deny_rule(action, lease),
        TapRule::DenyEgress => deny_egress_rule(action, lease),
        TapRule::OpenEgress => unrestricted_egress_rule(action, lease),
        TapRule::Cidr(c, i) => egress_cidr_rule(
            action,
            lease.name.as_str(),
            lease.guest_cidr().as_str(),
            c.as_str(),
            *i,
        ),
        TapRule::Domain(ip, i) => domain_rule(
            action,
            lease.name.as_str(),
            lease.guest_cidr().as_str(),
            ip.as_str(),
            *i,
        ),
        TapRule::Protected(i) => {
            let ranges = protected_v4_ranges();
            assert(texts(ranges@).len() == protected_ranges().len() == PROTECTED_COUNT);
            assert(texts(ranges@)[*i as int] == ranges@[*i as int]@);
            protected_deny_rule(
                action,
                lease.name.as_str(),
                lease.guest_cidr().as_str(),
                ranges[*i].as_str(),
                *i,
            )
        },
    }
}

/// The command that makes a TAP which one user owns.
pub open spec fn add_tap_argv(name: Seq<char>, uid: u32) -> Seq<Seq<char>> {
    seq!["ip"@, "tuntap"@, "add"@, "dev"@, name, "mode"@, "tap"@, "user"@, decimal(uid as nat)]
}

/// The command that makes a TAP which one user owns.
pub fn add_tap_command(name: &str, uid: u32) -> (r: Vec<String>)
    ensures
        texts(r@) == add_tap_argv(name@, uid),
{
    let digits = render_u64(uid as u64);
    let r = strings(["ip", "tuntap", "add", "dev", name, "mode", "tap", "user", digits.as_str()]);
    assert(texts(r@) =~= add_tap_argv(name@, uid));
    r
}

/// The command that gives a TAP the host's address.
pub fn set_address_command(lease: &TapLease) -> (r: Vec<String>)
    ensures
        texts(r@) == seq![
            "ip"@,
            "addr"@,
            "replace"@,
            lease@.host_ip + "/"@ + decimal(lease@.prefix as nat),
            "dev"@,
            lease@.name,
        ],
{
    let cidr = lease.host_cidr();
    let r = strings(["ip", "addr", "replace", cidr.as_str(), "dev", lease.name.as_str()]);
    assert(texts(r@) =~= seq![
        "ip"@,
        "addr"@,
        "replace"@,
        lease@.host_ip + "/"@ + decimal(lease@.prefix as nat),
        "dev"@,
        lease@.name,
    ]);
    r
}

/// The command that brings a device up.
pub fn link_up_command(name: &str) -> (r: Vec<String>)
    ensures
        texts(r@) == seq!["ip"@, "link"@, "set"@, "dev"@, name@, "up"@],
{
    let r = strings(["ip", "link", "set", "dev", name, "up"]);
    assert(texts(r@) =~= seq!["ip"@, "link"@, "set"@, "dev"@, name@, "up"@]);
    r
}

/// The command that asks whether a device is there.
pub fn link_show_command(name: &str) -> (r: Vec<String>)
    ensures
        texts(r@) == seq!["ip"@, "link"@, "show"@, "dev"@, name@],
{
    let r = strings(["ip", "link", "show", "dev", name]);
    assert(texts(r@) =~= seq!["ip"@, "link"@, "show"@, "dev"@, name@]);
    r
}

/// The command that takes a TAP away.
pub fn link_del_command(name: &str) -> (r: Vec<String>)
    ensures
        texts(r@) == seq!["ip"@, "link"@, "del"@, "dev"@, name@],
{
    let r = strings(["ip", "link", "del", "dev", name]);
    assert(texts(r@) =~= seq!["ip"@, "link"@, "del"@, "dev"@, name@]);
    r
}

/// An iptables command that waits for its lock.
pub fn iptables_command(rule: &Vec<String>) -> (r: Vec<String>)
    ensures
        texts(r@) == seq!["iptables"@, "-w"@, "5"@] + texts(rule@),
{
    let mut out = strings(["iptables", "-w", "5"]);
    let ghost start = texts(out@);
    assert(start =~= seq!["iptables"@, "-w"@, "5"@]);
    let mut i: usize = 0;
    while i < rule.len()
        invariant
            i <= rule@.len(),
            start.len() == 3,
            texts(out@) =~= start + texts(rule@).take(i as int),
        decreases rule@.len() - i,
    {
        let ghost before = texts(out@);
        let word = rule[i].clone();
        assert(texts(rule@)[i as int] == word@);
        out.push(word);
        assert(texts(out@) =~= before.push(word@));
        assert(texts(rule@).take(i + 1) =~= texts(rule@).take(i as int).push(word@));
        i = i + 1;
    }
    assert(texts(rule@).take(i as int) =~= texts(rule@));
    out
}

/// The domains of a list, without blanks around them and without empty ones.
pub open spec fn cleaned(domains: Seq<Seq<char>>) -> Seq<Seq<char>>
    decreases domains.len(),
{
    if domains.len() == 0 {
        Seq::empty()
    } else {
        let rest = cleaned(domains.drop_last());
        let d = trimmed(domains.last());
        if d.len() == 0 {
            rest
        } else {
            rest.push(d)
        }
    }
}

/// The domains of a list, without blanks around them and without empty ones.
pub fn clean_domains(domains: Option<&Vec<String>>) -> (r: Vec<String>)
    ensures
        texts(r@) == match domains {
            Some(v) => cleaned(texts(v@)),
            None => Seq::empty(),
        },
{
    let mut out: Vec<String> = Vec::new();
    assert(texts(out@) =~= Seq::empty());
    match domains {
        None => {},
        Some(list) => {
            let ghost all = texts(list@);
            let mut i: usize = 0;
            assert(all.take(0) =~= Seq::empty());
            while i < list.len()
                invariant
                    i <= list@.len(),
                    all == texts(list@),
                    texts(out@) == cleaned(all.take(i as int)),
                decreases list@.len() - i,
            {
                assert(all.take(i + 1).drop_last() =~= all.take(i as int));
                assert(all.take(i + 1).last() == list@[i as int]@);
                let domain = trim(list[i].as_str());
                if !domain.as_str().is_empty() {
                    let ghost before = texts(out@);
                    let ghost d = domain@;
                    out.push(domain);
                    assert(texts(out@) =~= before.push(d));
                }
                i = i + 1;
            }
            assert(all.take(i as int) =~= all);
        },
    }
    out
}

/// The steps that make and address a TAP and put its first rules in place.
pub open spec fn link_ops(exists_already: bool) -> Seq<OpView> {
    let add = if exists_already {
        Seq::empty()
    } else {
        seq![OpView::AddTap]
    };
    add + seq![
        OpView::SetAddress,
        OpView::LinkUp,
        OpView::DisableIpv6,
        OpView::EnableForward,
        OpView::Ensure(IptablesAction::Append, RuleView::Masq),
        OpView::Ensure(IptablesAction::Append, RuleView::Return),
        OpView::Delete(RuleView::CredentialGateway),
        OpView::Delete(RuleView::HostDeny),
        OpView::Ensure(IptablesAction::Insert, RuleView::HostDeny),
    ]
}

/// The steps that make and address a TAP and put its first rules in place.
pub fn link_plan(exists_already: bool) -> (r: Vec<TapOp>)
    ensures
        ops_view(r@) == link_ops(exists_already),
{
    let mut out: Vec<TapOp> = Vec::new();
    if !exists_already {
        out.push(TapOp::AddTap);
    }
    out.push(TapOp::SetAddress);
    out.push(TapOp::LinkUp);
    out.push(TapOp::DisableIpv6);
    out.push(TapOp::EnableForward);
    out.push(TapOp::Ensure(IptablesAction::Append, TapRule::Masq));
    out.push(TapOp::Ensure(IptablesAction::Append, TapRule::Return));
    out.push(TapOp::Delete(TapRule::CredentialGateway));
    out.push(TapOp::Delete(TapRule::HostDeny));
    out.push(TapOp::Ensure(IptablesAction::Insert, TapRule::HostDeny));
    assert(ops_view(out@) =~= link_ops(exists_already));
    out
}

/// The step that comes before a policy is replaced: everything is refused until
/// the new policy is in place.
pub open spec fn guard_op() -> OpView {
    OpView::Ensure(IptablesAction::Append, RuleView::DenyEgress)
}

/// The step that comes before a policy is replaced.
pub fn guard_step() -> (r: TapOp)
    ensures
        r@ == guard_op(),
{
    TapOp::Ensure(IptablesAction::Append, TapRule::DenyEgress)
}

/// The steps that take domain rules away, in the order of their addresses.
pub open spec fn domain_deletes(rules: Map<Seq<char>, usize>) -> Seq<OpView> {
    in_sequence(rules.dom()).map_values(|ip: Seq<char>| OpView::Delete(RuleView::Domain(ip, rules[ip])))
}

/// The steps that put domain rules in place, in the order of their addresses.
pub open spec fn domain_inserts(rules: Map<Seq<char>, usize>) -> Seq<OpView> {
    in_sequence(rules.dom()).map_values(
        |ip: Seq<char>| OpView::Ensure(IptablesAction::Insert, RuleView::Domain(ip, rules[ip])),
    )
}

pub open spec fn cidr_deletes(cidrs: Seq<Seq<char>>) -> Seq<OpView> {
    Seq::new(cidrs.len(), |i: int| OpView::Delete(RuleView::Cidr(cidrs[i], i)))
}

pub open spec fn cidr_inserts(cidrs: Seq<Seq<char>>) -> Seq<OpView> {
    Seq::new(cidrs.len(), |i: int| OpView::Ensure(IptablesAction::Insert, RuleView::Cidr(cidrs[i], i)))
}

pub open spec fn protected_deletes() -> Seq<OpView> {
    Seq::new(PROTECTED_COUNT as nat, |i: int| OpView::Delete(RuleView::Protected(i)))
}

pub open spec fn protected_inserts() -> Seq<OpView> {
    Seq::new(PROTECTED_COUNT as nat, |i: int| OpView::Ensure(IptablesAction::Insert, RuleView::Protected(i)))
}

/// The steps that take a TAP's former policy away.
pub open spec fn clearing_ops(prior: Map<Seq<char>, usize>, previous: Seq<Seq<char>>) -> Seq<OpView> {
    seq![OpView::Delete(RuleView::OpenEgress)] + domain_deletes(prior) + cidr_deletes(previous) + protected_deletes()
}

/// The steps that put a TAP's new policy in place.
pub open spec fn policy_ops(restricted: bool, allow: Seq<Seq<char>>, rules: Map<Seq<char>, usize>) -> Seq<OpView> {
    if restricted {
        cidr_inserts(allow) + domain_inserts(rules)
    } else {
        protected_inserts() + seq![
            OpView::Ensure(IptablesAction::Append, RuleView::OpenEgress),
            OpView::Delete(RuleView::DenyEgress),
        ]
    }
}

fn extend_ops(out: &mut Vec<TapOp>, more: Vec<TapOp>)
    ensures
        ops_view(final(out)@) == ops_view(old(out)@) + ops_view(more@),
{
    let ghost start = out@;
    let ghost all = more@;
    let mut rest = more;
    out.append(&mut rest);
    assert(ops_view(out@) =~= ops_view(start) + ops_view(all));
}

fn push_op(out: &mut Vec<TapOp>, op: TapOp)
    ensures
        ops_view(final(out)@) == ops_view(old(out)@).push(op@),
{
    let ghost before = out@;
    out.push(op);
    assert(ops_view(out@) =~= ops_view(before).push(op@));
}

fn cidr_steps(cidrs: &Vec<String>, insert: bool) -> (r: Vec<TapOp>)
    ensures
        ops_view(r@) == if insert {
            cidr_inserts(texts(cidrs@))
        } else {
            cidr_deletes(texts(cidrs@))
        },
{
    let mut out: Vec<TapOp> = Vec::new();
    let mut i: usize = 0;
    while i < cidrs.len()
        invariant
            i <= cidrs@.len(),
            out@.len() == i,
            forall|j: int|
                0 <= j < i ==> (#[trigger] out@[j])@ == if insert {
                    OpView::Ensure(IptablesAction::Insert, RuleView::Cidr(cidrs@[j]@, j))
                } else {
                    OpView::Delete(RuleView::Cidr(cidrs@[j]@, j))
                },
        decreases cidrs@.len() - i,
    {
        let rule = TapRule::Cidr(cidrs[i].clone(), i);
        out.push(
            if insert {
                TapOp::Ensure(IptablesAction::Insert, rule)
            } else {
                TapOp::Delete(rule)
            },
        );
        i = i + 1;
    }
    proof {
        if insert {
            assert(ops_view(out@) =~= cidr_inserts(texts(cidrs@)));
        } else {
            assert(ops_view(out@) =~= cidr_deletes(texts(cidrs@)));
        }
    }
    out
}

fn protected_steps(insert: bool) -> (r: Vec<TapOp>)
    ensures
        ops_view(r@) == if insert {
            protected_inserts()
        } else {
            protected_deletes()
        },
{
    let mut out: Vec<TapOp> = Vec::new();
    let mut i: usize = 0;
    while i < PROTECTED_COUNT
        invariant
            i <= PROTECTED_COUNT,
            out@.len() == i,
            forall|j: int|
                0 <= j < i ==> (#[trigger] out@[j])@ == if insert {
                    OpView::Ensure(IptablesAction::Insert, RuleView::Protected(j))
                } else {
                    OpView::Delete(RuleView::Protected(j))
                },
        decreases PROTECTED_COUNT - i,
    {
        out.push(
            if insert {
                TapOp::Ensure(IptablesAction::Insert, TapRule::Protected(i))
            } else {
                TapOp::Delete(TapRule::Protected(i))
            },
        );
        i = i + 1;
    }
    proof {
        if insert {
            assert(ops_view(out@) =~= protected_inserts());
        } else {
            assert(ops_view(out@) =~= protected_deletes());
        }
    }
    out
}

fn domain_steps(rules: &TextMap<usize>, insert: bool) -> (r: Vec<TapOp>)
    ensures
        ops_view(r@) == if insert {
            domain_inserts(rules@)
        } else {
            domain_deletes(rules@)
        },
{
    let mut out: Vec<TapOp> = Vec::new();
    let n = rules.len();
    let mut i: usize = 0;
    proof {
        lemma_in_sequence(rules.keys(), rules@.dom());
    }
    while i < n
        invariant
            i <= n,
            n == rules.keys().len(),
            out@.len() == i,
            forall|j: int|
                0 <= j < i ==> (#[trigger] out@[j])@ == if insert {
                    OpView::Ensure(
                        IptablesAction::Insert,
                        RuleView::Domain(rules.keys()[j], rules@[rules.keys()[j]]),
                    )
                } else {
                    OpView::Delete(RuleView::Domain(rules.keys()[j], rules@[rules.keys()[j]]))
                },
        decreases n - i,
    {
        let rule = TapRule::Domain(rules.key_at(i).clone(), *rules.value_at(i));
        out.push(
            if insert {
                TapOp::Ensure(IptablesAction::Insert, rule)
            } else {
                TapOp::Delete(rule)
            },
        );
        i = i + 1;
    }
    proof {
        if insert {
            assert(ops_view(out@) =~= domain_inserts(rules@));
        } else {
            assert(ops_view(out@) =~= domain_deletes(rules@));
        }
    }
    out
}

/// The steps that replace a TAP's policy, after the guard step: its former
/// policy is taken away, and the new one put in place.
pub fn policy_plan(
    lease: &TapLease,
    restricted: bool,
    prior: &TextMap<usize>,
    previous_egress_allow: &Vec<String>,
    rules: &TextMap<usize>,
) -> (r: Vec<TapOp>)
    ensures
        ops_view(r@) == clearing_ops(prior@, texts(previous_egress_allow@)) + policy_ops(
            restricted,
            lease@.egress_allow,
            rules@,
        ),
{
    let mut out: Vec<TapOp> = Vec::new();
    assert(ops_view(out@) =~= Seq::empty());
    push_op(&mut out, TapOp::Delete(TapRule::OpenEgress));
    assert(ops_view(out@) =~= seq![OpView::Delete(RuleView::OpenEgress)]);
    extend_ops(&mut out, domain_steps(prior, false));
    extend_ops(&mut out, cidr_steps(previous_egress_allow, false));
    extend_ops(&mut out, protected_steps(false));
    let ghost cleared = ops_view(out@);
    assert(cleared =~= clearing_ops(prior@, texts(previous_egress_allow@)));
    if restricted {
        extend_ops(&mut out, cidr_steps(&lease.egress_allow, true));
        extend_ops(&mut out, domain_steps(rules, true));
    } else {
        extend_ops(&mut out, protected_steps(true));
        push_op(&mut out, TapOp::Ensure(IptablesAction::Append, TapRule::OpenEgress));
        push_op(&mut out, TapOp::Delete(TapRule::DenyEgress));
    }
    assert(ops_view(out@) =~= cleared + policy_ops(restricted, lease@.egress_allow, rules@));
    out
}

/// The steps that take a TAP's rules away.
pub open spec fn teardown_ops(allow: Seq<Seq<char>>, rules: Map<Seq<char>, usize>) -> Seq<OpView> {
    seq![
        OpView::Delete(RuleView::Masq),
        OpView::Delete(RuleView::Return),
        OpView::Delete(RuleView::CredentialGateway),
        OpView::Delete(RuleView::HostDeny),
        OpView::Delete(RuleView::OpenEgress),
    ] + protected_deletes() + cidr_deletes(allow) + seq![OpView::Delete(RuleView::DenyEgress)] + domain_deletes(rules)
}

/// The steps that take a TAP's rules away.
pub fn teardown_plan(lease: &TapLease, rules: &TextMap<usize>) -> (r: Vec<TapOp>)
    ensures
        ops_view(r@) == teardown_ops(lease@.egress_allow, rules@),
{
    let mut out: Vec<TapOp> = Vec::new();
    assert(ops_view(out@) =~= Seq::empty());
    push_op(&mut out, TapOp::Delete(TapRule::Masq));
    push_op(&mut out, TapOp::Delete(TapRule::Return));
    push_op(&mut out, TapOp::Delete(TapRule::CredentialGateway));
    push_op(&mut out, TapOp::Delete(TapRule::HostDeny));
    push_op(&mut out, TapOp::Delete(TapRule::OpenEgress));
    extend_ops(&mut out, protected_steps(false));
    extend_ops(&mut out, cidr_steps(&lease.egress_allow, false));
    push_op(&mut out, TapOp::Delete(TapRule::DenyEgress));
    extend_ops(&mut out, domain_steps(rules, false));
    assert(ops_view(out@) =~= teardown_ops(lease@.egress_allow, rules@));
    out
}

/// The rules in place after a step.
pub open spec fn after_op(op: OpView, rules: Set<RuleView>) -> Set<RuleView> {
    match op {
        OpView::Ensure(_, r) => rules.insert(r),
        OpView::Delete(r) => rules.remove(r),
        _ => rules,
    }
}

/// The rules in place after the steps of a plan.
pub open spec fn after_ops(ops: Seq<OpView>, rules: Set<RuleView>) -> Set<RuleView>
    decreases ops.len(),
{
    if ops.len() == 0 {
        rules
    } else {
        after_op(ops.last(), after_ops(ops.drop_last(), rules))
    }
}

/// Whether a plan puts a rule in place.
pub open spec fn puts(ops: Seq<OpView>, r: RuleView) -> bool {
    exists|i: int| 0 <= i < ops.len() && (#[trigger] ops[i] matches OpView::Ensure(_, q) && q == r)
}

/// Whether a plan takes a rule away.
pub open spec fn takes_away(ops: Seq<OpView>, r: RuleView) -> bool {
    ops.contains(OpView::Delete(r))
}

pub proof fn lemma_after_append(a: Seq<OpView>, b: Seq<OpView>, rules: Set<RuleView>)
    ensures
        after_ops(a + b, rules) == after_ops(b, after_ops(a, rules)),
    decreases b.len(),
{
    if b.len() == 0 {
        assert(a + b =~= a);
    } else {
        assert((a + b).drop_last() =~= a + b.drop_last());
        assert((a + b).last() == b.last());
        lemma_after_append(a, b.drop_last(), rules);
    }
}

/// A plan that does not take a rule away leaves it in place, and has it in place
/// where it puts it there; one that does not put it there leaves it away.
proof fn lemma_after(ops: Seq<OpView>, rules: Set<RuleView>, r: RuleView)
    ensures
        !takes_away(ops, r) && (rules.contains(r) || puts(ops, r)) ==> after_ops(ops, rules).contains(r),
        !puts(ops, r) && (!rules.contains(r) || takes_away(ops, r)) ==> !after_ops(ops, rules).contains(r),
    decreases ops.len(),
{
    if ops.len() > 0 {
        let rest = ops.drop_last();
        lemma_after(rest, rules, r);
        if takes_away(rest, r) {
            let i = choose|i: int| 0 <= i < rest.len() && rest[i] == OpView::Delete(r);
            assert(ops[i] == OpView::Delete(r));
        }
        if puts(rest, r) {
            let i = choose|i: int| 0 <= i < rest.len() && (#[trigger] rest[i] matches OpView::Ensure(_, q) && q == r);
            assert(ops[i] == rest[i]);
        }
        assert(ops[ops.len() - 1] == ops.last());
        if takes_away(ops, r) && !takes_away(rest, r) {
            let i = choose|i: int| 0 <= i < ops.len() && ops[i] == OpView::Delete(r);
            if i < rest.len() {
                assert(rest[i] == OpView::Delete(r));
            }
        }
        if puts(ops, r) && !puts(rest, r) {
            let i = choose|i: int| 0 <= i < ops.len() && (#[trigger] ops[i] matches OpView::Ensure(_, q) && q == r);
            if i < rest.len() {
                assert(rest[i] == ops[i]);
            }
        }
    }
}

/// The steps of a policy replacement, from the guard step on.
pub open spec fn replacement(
    restricted: bool,
    allow: Seq<Seq<char>>,
    prior: Map<Seq<char>, usize>,
    previous: Seq<Seq<char>>,
    rules: Map<Seq<char>, usize>,
) -> Seq<OpView> {
    seq![guard_op()] + clearing_ops(prior, previous) + policy_ops(restricted, allow, rules)
}

proof fn lemma_clearing_shape(prior: Map<Seq<char>, usize>, previous: Seq<Seq<char>>)
    ensures
        ({
            let ops = clearing_ops(prior, previous);
            &&& ops.len() >= 1
            &&& ops[0] == OpView::Delete(RuleView::OpenEgress)
            &&& forall|i: int| 0 <= i < ops.len() ==> #[trigger] ops[i] is Delete
            &&& forall|i: int| 0 <= i < ops.len() ==> #[trigger] ops[i] != OpView::Delete(RuleView::DenyEgress)
            &&& forall|j: int| 0 <= j < PROTECTED_COUNT ==> #[trigger] takes_away(ops, RuleView::Protected(j))
        }),
{
    let ops = clearing_ops(prior, previous);
    let a = domain_deletes(prior);
    let b = cidr_deletes(previous);
    let c = protected_deletes();
    assert forall|i: int| 0 <= i < ops.len() implies #[trigger] ops[i] is Delete && ops[i] != OpView::Delete(
        RuleView::DenyEgress,
    ) by {
        if i >= 1 && i < 1 + a.len() {
            assert(ops[i] == a[i - 1]);
        } else if i >= 1 + a.len() && i < 1 + a.len() + b.len() {
            assert(ops[i] == b[i - 1 - a.len()]);
        } else if i >= 1 + a.len() + b.len() {
            assert(ops[i] == c[i - 1 - a.len() - b.len()]);
        }
    }
    assert forall|j: int| 0 <= j < PROTECTED_COUNT implies #[trigger] takes_away(ops, RuleView::Protected(j)) by {
        assert(ops[1 + a.len() + b.len() + j] == c[j]);
    }
}

/// From the guard step on, what the guest sends is refused unless a rule lets it
/// through: at every point of a replacement the refusal is in place, until the
/// last step of one that ends without restrictions.
pub proof fn law_refusal_stays_in_place(
    restricted: bool,
    allow: Seq<Seq<char>>,
    prior: Map<Seq<char>, usize>,
    previous: Seq<Seq<char>>,
    rules: Map<Seq<char>, usize>,
    start: Set<RuleView>,
    n: int,
)
    requires
        1 <= n <= replacement(restricted, allow, prior, previous, rules).len(),
        restricted || n < replacement(restricted, allow, prior, previous, rules).len(),
    ensures
        after_ops(replacement(restricted, allow, prior, previous, rules).take(n), start).contains(
            RuleView::DenyEgress,
        ),
{
    let all = replacement(restricted, allow, prior, previous, rules);
    let ops = all.take(n);
    let clear = clearing_ops(prior, previous);
    let policy = policy_ops(restricted, allow, rules);
    let deny = RuleView::DenyEgress;
    lemma_clearing_shape(prior, previous);
    assert(ops[0] == guard_op());
    assert(puts(ops, deny));
    assert(!takes_away(ops, deny)) by {
        if takes_away(ops, deny) {
            let i = choose|i: int| 0 <= i < ops.len() && ops[i] == OpView::Delete(deny);
            if 1 <= i < 1 + clear.len() {
                assert(ops[i] == clear[i - 1]);
            } else if i >= 1 + clear.len() {
                let k = i - 1 - clear.len();
                assert(ops[i] == policy[k]);
                if restricted {
                    let c = cidr_inserts(allow);
                    if k < c.len() {
                        assert(policy[k] == c[k]);
                    } else {
                        assert(policy[k] == domain_inserts(rules)[k - c.len()]);
                    }
                } else {
                    if k < PROTECTED_COUNT {
                        assert(policy[k] == protected_inserts()[k]);
                    }
                }
            }
        }
    }
    lemma_after(ops, start, deny);
}

/// Whenever a replacement has let everything through, the protected ranges are
/// refused before it.
pub proof fn law_open_egress_is_fenced(
    allow: Seq<Seq<char>>,
    prior: Map<Seq<char>, usize>,
    previous: Seq<Seq<char>>,
    rules: Map<Seq<char>, usize>,
    start: Set<RuleView>,
    n: int,
    j: int,
)
    requires
        2 <= n <= replacement(false, allow, prior, previous, rules).len(),
        0 <= j < PROTECTED_COUNT,
    ensures
        ({
            let now = after_ops(replacement(false, allow, prior, previous, rules).take(n), start);
            now.contains(RuleView::OpenEgress) ==> now.contains(RuleView::Protected(j))
        }),
{
    let all = replacement(false, allow, prior, previous, rules);
    let ops = all.take(n);
    let clear = clearing_ops(prior, previous);
    let policy = policy_ops(false, allow, rules);
    let open = RuleView::OpenEgress;
    let fence = RuleView::Protected(j);
    lemma_clearing_shape(prior, previous);
    let mark = 1 + clear.len() + PROTECTED_COUNT;
    assert(all.len() == mark + 2);
    if n <= mark {
        assert(ops[1] == clear[0]);
        assert(takes_away(ops, open));
        assert(!puts(ops, open)) by {
            if puts(ops, open) {
                let i = choose|i: int| 0 <= i < ops.len() && (#[trigger] ops[i] matches OpView::Ensure(_, q) && q == open);
                if i >= 1 && i < 1 + clear.len() {
                    assert(ops[i] == clear[i - 1]);
                } else if i >= 1 + clear.len() {
                    assert(ops[i] == policy[i - 1 - clear.len()]);
                    assert(ops[i] == protected_inserts()[i - 1 - clear.len()]);
                }
            }
        }
        lemma_after(ops, start, open);
    } else {
        let head = all.take((1 + clear.len()) as int);
        let tail = policy.take(n - 1 - clear.len());
        assert(ops =~= head + tail);
        lemma_after_append(head, tail, start);
        assert(tail[j] == protected_inserts()[j]);
        assert(puts(tail, fence));
        assert(!takes_away(tail, fence)) by {
            if takes_away(tail, fence) {
                let i = choose|i: int| 0 <= i < tail.len() && tail[i] == OpView::Delete(fence);
                if i < PROTECTED_COUNT {
                    assert(tail[i] == protected_inserts()[i]);
                }
            }
        }
        lemma_after(tail, after_ops(head, start), fence);
    }
}

/// The rules that a policy has in place.
pub open spec fn policy_rules(restricted: bool, allow: Seq<Seq<char>>, rules: Map<Seq<char>, usize>) -> Set<RuleView> {
    Set::new(
        |r: RuleView|
            match r {
                RuleView::Masq | RuleView::Return | RuleView::HostDeny => true,
                RuleView::CredentialGateway => false,
                RuleView::DenyEgress => restricted,
                RuleView::OpenEgress => !restricted,
                RuleView::Cidr(c, i) => restricted && 0 <= i < allow.len() && allow[i] == c,
                RuleView::Domain(ip, i) => restricted && rules.contains_key(ip) && rules[ip] == i,
                RuleView::Protected(i) => !restricted && 0 <= i < PROTECTED_COUNT,
            },
    )
}

proof fn lemma_link_effect(exists_already: bool, start: Set<RuleView>)
    ensures
        after_ops(link_ops(exists_already), start) == start.insert(RuleView::Masq).insert(RuleView::Return).remove(
            RuleView::CredentialGateway,
        ).insert(RuleView::HostDeny),
{
    let ops = link_ops(exists_already);
    let end = after_ops(ops, start);
    let want = start.insert(RuleView::Masq).insert(RuleView::Return).remove(RuleView::CredentialGateway).insert(
        RuleView::HostDeny,
    );
    let n = ops.len();
    let before = ops.take(n - 3);
    assert(ops =~= before.push(OpView::Delete(RuleView::CredentialGateway)).push(OpView::Delete(RuleView::HostDeny)).push(
        OpView::Ensure(IptablesAction::Insert, RuleView::HostDeny),
    ));
    let o1 = ops.drop_last();
    let o2 = o1.drop_last();
    let o3 = o2.drop_last();
    assert(o3 =~= before);
    assert(o1.last() == OpView::Delete(RuleView::HostDeny));
    assert(o2.last() == OpView::Delete(RuleView::CredentialGateway));
    let o4 = o3.drop_last();
    assert(o3.last() == OpView::Ensure(IptablesAction::Append, RuleView::Return));
    assert(o4.last() == OpView::Ensure(IptablesAction::Append, RuleView::Masq));
    let o5 = o4.drop_last();
    assert forall|r: RuleView| after_ops(o5, start).contains(r) == start.contains(r) by {
        assert(!puts(o5, r));
        assert(!takes_away(o5, r));
        lemma_after(o5, start, r);
    }
    assert(after_ops(o5, start) =~= start);
    assert(after_ops(o4, start) == start.insert(RuleView::Masq));
    assert(after_ops(o3, start) == start.insert(RuleView::Masq).insert(RuleView::Return));
    assert(after_ops(o2, start) == after_ops(o3, start).remove(RuleView::CredentialGateway));
    assert(after_ops(o1, start) == after_ops(o2, start).remove(RuleView::HostDeny));
    assert(end == after_ops(o1, start).insert(RuleView::HostDeny));
    assert(end =~= want);
}

proof fn lemma_policy_effect(
    restricted: bool,
    allow: Seq<Seq<char>>,
    rules: Map<Seq<char>, usize>,
    start: Set<RuleView>,
    r: RuleView,
)
    requires
        rules.dom().finite(),
        start.contains(RuleView::DenyEgress),
        !start.contains(RuleView::OpenEgress),
        !(r is Masq || r is Return || r is HostDeny || r is CredentialGateway),
        r is Cidr || r is Domain || r is Protected ==> !start.contains(r),
    ensures
        after_ops(policy_ops(restricted, allow, rules), start).contains(r) <==> policy_rules(
            restricted,
            allow,
            rules,
        ).contains(r),
{
    let ops = policy_ops(restricted, allow, rules);
    lemma_after(ops, start, r);
    crate::textmap::lemma_in_sequence_members(rules.dom());
    let list = in_sequence(rules.dom());
    if restricted {
        let c = cidr_inserts(allow);
        let d = domain_inserts(rules);
        assert(ops =~= c + d);
        assert(forall|i: int| 0 <= i < ops.len() ==> #[trigger] ops[i] is Ensure) by {
            assert forall|i: int| 0 <= i < ops.len() implies #[trigger] ops[i] is Ensure by {
                if i < c.len() {
                    assert(ops[i] == c[i]);
                } else {
                    assert(ops[i] == d[i - c.len()]);
                }
            }
        }
        assert(!takes_away(ops, r));
        if puts(ops, r) {
            let i = choose|i: int| 0 <= i < ops.len() && (#[trigger] ops[i] matches OpView::Ensure(_, q) && q == r);
            if i < c.len() {
                assert(ops[i] == c[i]);
            } else {
                assert(ops[i] == d[i - c.len()]);
                assert(list.contains(list[i - c.len()]));
            }
        }
        match r {
            RuleView::Cidr(x, i) => {
                if 0 <= i < allow.len() && allow[i] == x {
                    assert(ops[i] == c[i]);
                }
            },
            RuleView::Domain(ip, n) => {
                if rules.contains_key(ip) && rules[ip] == n {
                    assert(list.contains(ip));
                    let k = choose|k: int| 0 <= k < list.len() && list[k] == ip;
                    assert(ops[c.len() + k] == d[k]);
                }
            },
            _ => {},
        }
    } else {
        let p = protected_inserts();
        assert(forall|i: int| 0 <= i < PROTECTED_COUNT ==> ops[i] == p[i]);
        let n = PROTECTED_COUNT as int;
        assert(ops.len() == n + 2);
        assert(ops[n] == OpView::Ensure(IptablesAction::Append, RuleView::OpenEgress));
        assert(ops[n + 1] == OpView::Delete(RuleView::DenyEgress));
        if r is DenyEgress {
            assert(takes_away(ops, r));
            assert(!puts(ops, r));
        } else {
            assert(!takes_away(ops, r)) by {
                if takes_away(ops, r) {
                    let i = choose|i: int| 0 <= i < ops.len() && ops[i] == OpView::Delete(r);
                    if i < n {
                        assert(ops[i] == p[i]);
                    }
                }
            }
            if puts(ops, r) {
                let i = choose|i: int| 0 <= i < ops.len() && (#[trigger] ops[i] matches OpView::Ensure(_, q) && q == r);
                if i < n {
                    assert(ops[i] == p[i]);
                }
            }
            match r {
                RuleView::Protected(i) => {
                    if 0 <= i < n {
                        assert(ops[i] == p[i]);
                    }
                },
                _ => {},
            }
        }
    }
}

/// Whether a rule is one that a set-up takes away or leaves in place whatever the
/// new policy is: one of the former policy, restricted or not.
pub open spec fn is_former(r: RuleView, previous: Seq<Seq<char>>, prior: Map<Seq<char>, usize>) -> bool {
    match r {
        RuleView::Cidr(c, i) => 0 <= i < previous.len() && previous[i] == c,
        RuleView::Domain(ip, i) => prior.contains_key(ip) && prior[ip] == i,
        RuleView::Protected(i) => 0 <= i < PROTECTED_COUNT,
        _ => true,
    }
}

proof fn lemma_cleared(prior: Map<Seq<char>, usize>, previous: Seq<Seq<char>>, start: Set<RuleView>, r: RuleView)
    requires
        prior.dom().finite(),
        start.contains(r) ==> is_former(r, previous, prior),
    ensures
        after_ops(clearing_ops(prior, previous), start).contains(r) <==> start.contains(r) && !(r is OpenEgress || r
            is Cidr || r is Domain || r is Protected),
{
    let ops = clearing_ops(prior, previous);
    let a = domain_deletes(prior);
    let b = cidr_deletes(previous);
    lemma_clearing_shape(prior, previous);
    lemma_clearing_spares(prior, previous);
    lemma_after(ops, start, r);
    assert(!puts(ops, r));
    if start.contains(r) {
        match r {
            RuleView::OpenEgress => assert(ops[0] == OpView::Delete(r)),
            RuleView::Domain(ip, n) => {
                crate::textmap::lemma_in_sequence_members(prior.dom());
                let list = in_sequence(prior.dom());
                assert(list.contains(ip));
                let k = choose|k: int| 0 <= k < list.len() && list[k] == ip;
                assert(ops[1 + k] == a[k]);
            },
            RuleView::Cidr(c, i) => assert(ops[1 + a.len() + i] == b[i]),
            RuleView::Protected(i) => assert(takes_away(ops, RuleView::Protected(i))),
            _ => {
                assert(!takes_away(ops, r));
            },
        }
    }
}

pub proof fn lemma_setup_effect(
    exists_already: bool,
    restricted: bool,
    allow: Seq<Seq<char>>,
    prior: Map<Seq<char>, usize>,
    previous: Seq<Seq<char>>,
    rules: Map<Seq<char>, usize>,
    start: Set<RuleView>,
)
    requires
        rules.dom().finite(),
        prior.dom().finite(),
        forall|r: RuleView| #[trigger] start.contains(r) ==> is_former(r, previous, prior),
    ensures
        after_ops(link_ops(exists_already) + replacement(restricted, allow, prior, previous, rules), start)
            == policy_rules(restricted, allow, rules),
{
    let link = link_ops(exists_already);
    let clear = clearing_ops(prior, previous);
    let guard = seq![guard_op()];
    let policy = policy_ops(restricted, allow, rules);
    lemma_link_effect(exists_already, start);
    let s1 = after_ops(link, start);
    lemma_after_append(link, replacement(restricted, allow, prior, previous, rules), start);
    lemma_after_append(guard + clear, policy, s1);
    lemma_after_append(guard, clear, s1);
    let s2 = after_ops(guard, s1);
    assert(guard.drop_last() =~= Seq::empty());
    assert(s2 == s1.insert(RuleView::DenyEgress)) by {
        assert(after_ops(guard.drop_last(), s1) == s1);
    }
    let s3 = after_ops(clear, s2);
    assert forall|r: RuleView|
        #![trigger s3.contains(r)]
        s3.contains(r) == (s2.contains(r) && !(r is OpenEgress || r is Cidr || r is Domain || r is Protected)) by {
        assert(start.contains(r) ==> is_former(r, previous, prior));
        lemma_cleared(prior, previous, s2, r);
    }
    let end = after_ops(policy, s3);
    assert forall|r: RuleView| end.contains(r) == policy_rules(restricted, allow, rules).contains(r) by {
        assert(s3.contains(RuleView::DenyEgress));
        assert(!s3.contains(RuleView::OpenEgress));
        if r is Masq || r is Return || r is HostDeny || r is CredentialGateway {
            lemma_policy_spares(restricted, allow, rules, r);
            lemma_after(policy, s3, r);
            assert(s3.contains(r) == s2.contains(r));
        } else {
            lemma_policy_effect(restricted, allow, rules, s3, r);
        }
    }
    assert(end =~= policy_rules(restricted, allow, rules));
}

/// Until a new policy is put in place, none of the rules that depend on the policy's
/// blocks and addresses is there.
pub proof fn lemma_unplaced(
    exists_already: bool,
    prior: Map<Seq<char>, usize>,
    previous: Seq<Seq<char>>,
    start: Set<RuleView>,
    r: RuleView,
)
    requires
        prior.dom().finite(),
        forall|q: RuleView| #[trigger] start.contains(q) ==> is_former(q, previous, prior),
    ensures
        after_ops(link_ops(exists_already) + (seq![guard_op()] + clearing_ops(prior, previous)), start).contains(r)
            ==> !(r is OpenEgress || r is Cidr || r is Domain || r is Protected),
{
    let link = link_ops(exists_already);
    let guard = seq![guard_op()];
    let clear = clearing_ops(prior, previous);
    lemma_link_effect(exists_already, start);
    let s1 = after_ops(link, start);
    lemma_after_append(link, guard + clear, start);
    lemma_after_append(guard, clear, s1);
    let s2 = after_ops(guard, s1);
    assert(guard.drop_last() =~= Seq::empty());
    assert(s2 == s1.insert(RuleView::DenyEgress)) by {
        assert(after_ops(guard.drop_last(), s1) == s1);
    }
    assert(start.contains(r) ==> is_former(r, previous, prior));
    lemma_cleared(prior, previous, s2, r);
}

/// On a TAP without rules, set-up leaves exactly the rules of its policy.
pub proof fn law_setup_installs_policy(
    exists_already: bool,
    restricted: bool,
    allow: Seq<Seq<char>>,
    previous: Seq<Seq<char>>,
    rules: Map<Seq<char>, usize>,
)
    requires
        rules.dom().finite(),
    ensures
        after_ops(
            link_ops(exists_already) + replacement(restricted, allow, Map::empty(), previous, rules),
            Set::empty(),
        ) == policy_rules(restricted, allow, rules),
{
    lemma_setup_effect(exists_already, restricted, allow, Map::empty(), previous, rules, Set::empty());
}

/// On a TAP that has a policy, set-up leaves exactly the rules of the new one:
/// whether either restricts, whatever blocks and addresses they share, and whether
/// all rules of the former one are still in place or only some of them, with or
/// without the credential gateway's.
pub proof fn law_setup_replaces_policy(
    exists_already: bool,
    former_restricted: bool,
    previous: Seq<Seq<char>>,
    prior: Map<Seq<char>, usize>,
    start: Set<RuleView>,
    restricted: bool,
    allow: Seq<Seq<char>>,
    rules: Map<Seq<char>, usize>,
)
    requires
        prior.dom().finite(),
        rules.dom().finite(),
        start.subset_of(policy_rules(former_restricted, previous, prior).insert(RuleView::CredentialGateway)),
    ensures
        after_ops(link_ops(exists_already) + replacement(restricted, allow, prior, previous, rules), start)
            == policy_rules(restricted, allow, rules),
        after_ops(
            link_ops(exists_already) + replacement(restricted, allow, prior, previous, rules),
            policy_rules(former_restricted, previous, prior),
        ) == policy_rules(restricted, allow, rules),
{
    let former = policy_rules(former_restricted, previous, prior);
    assert forall|r: RuleView| #[trigger] start.contains(r) implies is_former(r, previous, prior) by {
        assert(former.insert(RuleView::CredentialGateway).contains(r));
    }
    lemma_setup_effect(exists_already, restricted, allow, prior, previous, rules, start);
    lemma_setup_effect(exists_already, restricted, allow, prior, previous, rules, former);
}

proof fn lemma_clearing_spares(prior: Map<Seq<char>, usize>, previous: Seq<Seq<char>>)
    ensures
        forall|i: int|
            0 <= i < clearing_ops(prior, previous).len() ==> (#[trigger] clearing_ops(
                prior,
                previous,
            )[i] matches OpView::Delete(r) && (r is OpenEgress || r is Cidr || r is Domain || r is Protected)),
{
    let ops = clearing_ops(prior, previous);
    let a = domain_deletes(prior);
    let b = cidr_deletes(previous);
    let c = protected_deletes();
    assert forall|i: int| 0 <= i < ops.len() implies (#[trigger] ops[i] matches OpView::Delete(r) && (r is OpenEgress
        || r is Cidr || r is Domain || r is Protected)) by {
        if i >= 1 && i < 1 + a.len() {
            assert(ops[i] == a[i - 1]);
        } else if i >= 1 + a.len() && i < 1 + a.len() + b.len() {
            assert(ops[i] == b[i - 1 - a.len()]);
        } else if i >= 1 + a.len() + b.len() {
            assert(ops[i] == c[i - 1 - a.len() - b.len()]);
        }
    }
}

proof fn lemma_policy_spares(restricted: bool, allow: Seq<Seq<char>>, rules: Map<Seq<char>, usize>, r: RuleView)
    requires
        r is Masq || r is Return || r is HostDeny || r is CredentialGateway,
    ensures
        !puts(policy_ops(restricted, allow, rules), r),
        !takes_away(policy_ops(restricted, allow, rules), r),
{
    let ops = policy_ops(restricted, allow, rules);
    assert forall|i: int| 0 <= i < ops.len() implies #[trigger] ops[i] != OpView::Delete(r) && !(
    ops[i] matches OpView::Ensure(_, q) && q == r) by {
        if restricted {
            let c = cidr_inserts(allow);
            if i < c.len() {
                assert(ops[i] == c[i]);
            } else {
                assert(ops[i] == domain_inserts(rules)[i - c.len()]);
            }
        } else if i < PROTECTED_COUNT {
            assert(ops[i] == protected_inserts()[i]);
        }
    }
}

/// Taking a TAP down leaves none of the rules that its policy has in place, nor
/// the credential gateway's.
pub proof fn law_teardown_leaves_nothing(
    restricted: bool,
    allow: Seq<Seq<char>>,
    rules: Map<Seq<char>, usize>,
)
    requires
        rules.dom().finite(),
    ensures
        after_ops(
            teardown_ops(allow, rules),
            policy_rules(restricted, allow, rules).insert(RuleView::CredentialGateway),
        ) == Set::<RuleView>::empty(),
{
    let ops = teardown_ops(allow, rules);
    let start = policy_rules(restricted, allow, rules).insert(RuleView::CredentialGateway);
    let p = protected_deletes();
    let c = cidr_deletes(allow);
    let d = domain_deletes(rules);
    let list = in_sequence(rules.dom());
    crate::textmap::lemma_in_sequence_members(rules.dom());
    assert forall|i: int| 0 <= i < ops.len() implies #[trigger] ops[i] is Delete by {
        if i >= 5 && i < 5 + p.len() {
            assert(ops[i] == p[i - 5]);
        } else if i >= 5 + p.len() && i < 5 + p.len() + c.len() {
            assert(ops[i] == c[i - 5 - p.len()]);
        } else if i > 5 + p.len() + c.len() {
            assert(ops[i] == d[i - 6 - p.len() - c.len()]);
        }
    }
    let end = after_ops(ops, start);
    assert forall|r: RuleView| !end.contains(r) by {
        lemma_after(ops, start, r);
        assert(!puts(ops, r));
        if start.contains(r) {
            match r {
                RuleView::Masq => assert(ops[0] == OpView::Delete(r)),
                RuleView::Return => assert(ops[1] == OpView::Delete(r)),
                RuleView::CredentialGateway => assert(ops[2] == OpView::Delete(r)),
                RuleView::HostDeny => assert(ops[3] == OpView::Delete(r)),
                RuleView::OpenEgress => assert(ops[4] == OpView::Delete(r)),
                RuleView::Protected(i) => assert(ops[5 + i] == p[i]),
                RuleView::Cidr(x, i) => assert(ops[5 + p.len() + i] == c[i]),
                RuleView::DenyEgress => assert(ops[(5 + p.len() + c.len()) as int] == OpView::Delete(r)),
                RuleView::Domain(ip, n) => {
                    assert(list.contains(ip));
                    let k = choose|k: int| 0 <= k < list.len() && list[k] == ip;
                    assert(ops[6 + p.len() + c.len() + k] == d[k]);
                },
            }
        }
    }
    assert(end =~= Set::<RuleView>::empty());
}

} // verus!
