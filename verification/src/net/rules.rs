//! The iptables rules of a sandbox's TAP, as argument lists.
use crate::decimal::{decimal, render_u64};
use crate::error::EngineError;
use crate::net::addr::invalid_input;
use crate::net::lease::{TapLease, TapLeaseView};
use crate::text::{cat2, cat4, strings, text_eq, texts};
use vstd::prelude::*;

verus! {

/// What is done with a rule.
#[derive(Clone, Copy, PartialEq, Eq, Structural, Debug)]
pub enum IptablesAction {
    Append,
    Delete,
    Insert,
}

/// The flag that asks for an action.
pub open spec fn flag_text(action: IptablesAction) -> Seq<char> {
    match action {
        IptablesAction::Append => "-A"@,
        IptablesAction::Delete => "-D"@,
        IptablesAction::Insert => "-I"@,
    }
}

impl IptablesAction {
    /// The flag that asks for the action.
    pub fn flag(self) -> (r: &'static str)
        ensures
            r@ == flag_text(self),
    {
        match self {
            IptablesAction::Append => "-A",
            IptablesAction::Delete => "-D",
            IptablesAction::Insert => "-I",
        }
    }
}

/// The comment by which a sandbox's rule is told from others.
pub open spec fn comment_text(name: Seq<char>, tag: Seq<char>) -> Seq<char> {
    "vmon:"@ + name + ":"@ + tag
}

/// The comment by which a sandbox's rule is told from others.
pub fn comment(name: &str, tag: &str) -> (r: String)
    ensures
        r@ == comment_text(name@, tag@),
{
    cat4("vmon:", name, ":", tag)
}

/// A tag and a number, which tells rules of one kind apart.
pub open spec fn numbered(tag: Seq<char>, idx: nat) -> Seq<char> {
    tag + decimal(idx)
}

fn number_tag(tag: &str, idx: usize) -> (r: String)
    ensures
        r@ == numbered(tag@, idx as nat),
{
    let digits = render_u64(idx as u64);
    cat2(tag, digits.as_str())
}

/// Rewrites the source of what leaves the sandbox's network.
pub open spec fn masq_argv(action: IptablesAction, lease: TapLeaseView) -> Seq<Seq<char>> {
    seq![
        "-t"@,
        "nat"@,
        flag_text(action),
        "POSTROUTING"@,
        "-s"@,
        lease.network,
        "!"@,
        "-d"@,
        lease.network,
        "-m"@,
        "comment"@,
        "--comment"@,
        comment_text(lease.name, "masq"@),
        "-j"@,
        "MASQUERADE"@,
    ]
}

/// Rewrites the source of what leaves the sandbox's network.
pub fn masq_rule(action: IptablesAction, lease: &TapLease) -> (r: Vec<String>)
    ensures
        texts(r@) == masq_argv(action, lease@),
{
    let note = comment(lease.name.as_str(), "masq");
    let r = strings([
        "-t",
        "nat",
        action.flag(),
        "POSTROUTING",
        "-s",
        lease.network.as_str(),
        "!",
        "-d",
        lease.network.as_str(),
        "-m",
        "comment",
        "--comment",
        note.as_str(),
        "-j",
        "MASQUERADE",
    ]);
    assert(texts(r@) =~= masq_argv(action, lease@));
    r
}

/// Lets replies through to the guest.
pub open spec fn return_argv(action: IptablesAction, lease: TapLeaseView) -> Seq<Seq<char>> {
    seq![
        flag_text(action),
        "FORWARD"@,
        "-o"@,
        lease.name,
        "-d"@,
        lease.guest_block(),
        "-m"@,
        "conntrack"@,
        "--ctstate"@,
        "ESTABLISHED,RELATED"@,
        "-m"@,
        "comment"@,
        "--comment"@,
        comment_text(lease.name, "return"@),
        "-j"@,
        "ACCEPT"@,
    ]
}

/// Lets replies through to the guest.
pub fn return_rule(action: IptablesAction, lease: &TapLease) -> (r: Vec<String>)
    ensures
        texts(r@) == return_argv(action, lease@),
{
    let guest_cidr = lease.guest_cidr();
    let note = comment(lease.name.as_str(), "return");
    let r = strings([
        action.flag(),
        "FORWARD",
        "-o",
        lease.name.as_str(),
        "-d",
        guest_cidr.as_str(),
        "-m",
        "conntrack",
        "--ctstate",
        "ESTABLISHED,RELATED",
        "-m",
        "comment",
        "--comment",
        note.as_str(),
        "-j",
        "ACCEPT",
    ]);
    assert(texts(r@) =~= return_argv(action, lease@));
    r
}

/// Lets everything from the guest through.
pub open spec fn open_egress_argv(action: IptablesAction, lease: TapLeaseView) -> Seq<Seq<char>> {
    seq![
        flag_text(action),
        "FORWARD"@,
        "-i"@,
        lease.name,
        "-s"@,
        lease.guest_block(),
        "-m"@,
        "comment"@,
        "--comment"@,
        comment_text(lease.name, "egress"@),
        "-j"@,
        "ACCEPT"@,
    ]
}

/// Lets everything from the guest through.
pub fn unrestricted_egress_rule(action: IptablesAction, lease: &TapLease) -> (r: Vec<String>)
    ensures
        texts(r@) == open_egress_argv(action, lease@),
{
    let guest_cidr = lease.guest_cidr();
    let note = comment(lease.name.as_str(), "egress");
    let r = strings([
        action.flag(),
        "FORWARD",
        "-i",
        lease.name.as_str(),
        "-s",
        guest_cidr.as_str(),
        "-m",
        "comment",
        "--comment",
        note.as_str(),
        "-j",
        "ACCEPT",
    ]);
    assert(texts(r@) =~= open_egress_argv(action, lease@));
    r
}

/// Refuses everything from the guest.
pub open spec fn deny_egress_argv(action: IptablesAction, lease: TapLeaseView) -> Seq<Seq<char>> {
    seq![
        flag_text(action),
        "FORWARD"@,
        "-i"@,
        lease.name,
        "-s"@,
        lease.guest_block(),
        "-m"@,
        "comment"@,
        "--comment"@,
        comment_text(lease.name, "egress-deny"@),
        "-j"@,
        "REJECT"@,
    ]
}

/// Refuses everything from the guest.
pub fn deny_egress_rule(action: IptablesAction, lease: &TapLease) -> (r: Vec<String>)
    ensures
        texts(r@) == deny_egress_argv(action, lease@),
{
    let guest_cidr = lease.guest_cidr();
    let note = comment(lease.name.as_str(), "egress-deny");
    let r = strings([
        action.flag(),
        "FORWARD",
        "-i",
        lease.name.as_str(),
        "-s",
        guest_cidr.as_str(),
        "-m",
        "comment",
        "--comment",
        note.as_str(),
        "-j",
        "REJECT",
    ]);
    assert(texts(r@) =~= deny_egress_argv(action, lease@));
    r
}

/// Drops what the guest sends to the host itself.
pub open spec fn host_deny_argv(action: IptablesAction, lease: TapLeaseView) -> Seq<Seq<char>> {
    seq![
        flag_text(action),
        "INPUT"@,
        "-i"@,
        lease.name,
        "-s"@,
        lease.guest_block(),
        "-m"@,
        "comment"@,
        "--comment"@,
        comment_text(lease.name, "host-deny"@),
        "-j"@,
        "DROP"@,
    ]
}

/// Drops what the guest sends to the host itself.
pub fn host_deny_rule(action: IptablesAction, lease: &TapLease) -> (r: Vec<String>)
    ensures
        texts(r@) == host_deny_argv(action, lease@),
{
    let guest_cidr = lease.guest_cidr();
    let note = comment(lease.name.as_str(), "host-deny");
    let r = strings([
        action.flag(),
        "INPUT",
        "-i",
        lease.name.as_str(),
        "-s",
        guest_cidr.as_str(),
        "-m",
        "comment",
        "--comment",
        note.as_str(),
        "-j",
        "DROP",
    ]);
    assert(texts(r@) =~= host_deny_argv(action, lease@));
    r
}

/// Lets the guest reach one port of the host.
pub open spec fn gateway_argv(action: IptablesAction, lease: TapLeaseView, port: u16) -> Seq<Seq<char>> {
    seq![
        flag_text(action),
        "INPUT"@,
        "-i"@,
        lease.name,
        "-s"@,
        lease.guest_block(),
        "-d"@,
        lease.host_ip,
        "-p"@,
        "tcp"@,
        "--dport"@,
        decimal(port as nat),
        "-m"@,
        "comment"@,
        "--comment"@,
        comment_text(lease.name, "credential-gateway"@),
        "-j"@,
        "ACCEPT"@,
    ]
}

/// Lets the guest reach one port of the host.
pub fn credential_gateway_rule(action: IptablesAction, lease: &TapLease, port: u16) -> (r: Vec<String>)
    ensures
        texts(r@) == gateway_argv(action, lease@, port),
{
    let guest_cidr = lease.guest_cidr();
    let digits = render_u64(port as u64);
    let note = comment(lease.name.as_str(), "credential-gateway");
    let r = strings([
        action.flag(),
        "INPUT",
        "-i",
        lease.name.as_str(),
        "-s",
        guest_cidr.as_str(),
        "-d",
        lease.host_ip.as_str(),
        "-p",
        "tcp",
        "--dport",
        digits.as_str(),
        "-m",
        "comment",
        "--comment",
        note.as_str(),
        "-j",
        "ACCEPT",
    ]);
    assert(texts(r@) =~= gateway_argv(action, lease@, port));
    r
}

/// Lets the guest reach a block of addresses.
pub open spec fn egress_cidr_argv(action: IptablesAction, name: Seq<char>, guest_cidr: Seq<char>, cidr: Seq<char>, idx: nat) -> Seq<Seq<char>> {
    seq![
        flag_text(action),
        "FORWARD"@,
        "-i"@,
        name,
        "-s"@,
        guest_cidr,
        "-d"@,
        cidr,
        "-m"@,
        "comment"@,
        "--comment"@,
        comment_text(name, numbered("egress-"@, idx)),
        "-j"@,
        "ACCEPT"@,
    ]
}

/// Lets the guest reach a block of addresses.
pub fn egress_cidr_rule(action: IptablesAction, name: &str, guest_cidr: &str, cidr: &str, idx: usize) -> (r: Vec<String>)
    ensures
        texts(r@) == egress_cidr_argv(action, name@, guest_cidr@, cidr@, idx as nat),
{
    let tag = number_tag("egress-", idx);
    let note = comment(name, tag.as_str());
    let r = strings([
        action.flag(),
        "FORWARD",
        "-i",
        name,
        "-s",
        guest_cidr,
        "-d",
        cidr,
        "-m",
        "comment",
        "--comment",
        note.as_str(),
        "-j",
        "ACCEPT",
    ]);
    assert(texts(r@) =~= egress_cidr_argv(action, name@, guest_cidr@, cidr@, idx as nat));
    r
}

/// Lets the guest reach an address that a domain resolved to.
pub open spec fn domain_argv(action: IptablesAction, name: Seq<char>, guest_cidr: Seq<char>, ip: Seq<char>, idx: nat) -> Seq<Seq<char>> {
    seq![
        flag_text(action),
        "FORWARD"@,
        "-i"@,
        name,
        "-s"@,
        guest_cidr,
        "-d"@,
        ip + "/32"@,
        "-m"@,
        "comment"@,
        "--comment"@,
        comment_text(name, numbered("domain-"@, idx)),
        "-j"@,
        "ACCEPT"@,
    ]
}

/// Lets the guest reach an address that a domain resolved to.
pub fn domain_rule(action: IptablesAction, name: &str, guest_cidr: &str, ip: &str, idx: usize) -> (r: Vec<String>)
    ensures
        texts(r@) == domain_argv(action, name@, guest_cidr@, ip@, idx as nat),
{
    let block = cat2(ip, "/32");
    let tag = number_tag("domain-", idx);
    let note = comment(name, tag.as_str());
    let r = strings([
        action.flag(),
        "FORWARD",
        "-i",
        name,
        "-s",
        guest_cidr,
        "-d",
        block.as_str(),
        "-m",
        "comment",
        "--comment",
        note.as_str(),
        "-j",
        "ACCEPT",
    ]);
    assert(texts(r@) =~= domain_argv(action, name@, guest_cidr@, ip@, idx as nat));
    r
}

/// Refuses what the guest sends to a protected range.
pub open spec fn protected_argv(action: IptablesAction, name: Seq<char>, guest_cidr: Seq<char>, range: Seq<char>, idx: nat) -> Seq<Seq<char>> {
    seq![
        flag_text(action),
        "FORWARD"@,
        "-i"@,
        name,
        "-s"@,
        guest_cidr,
        "-d"@,
        range,
        "-m"@,
        "comment"@,
        "--comment"@,
        comment_text(name, numbered("deny-range-"@, idx)),
        "-j"@,
        "REJECT"@,
    ]
}

/// Refuses what the guest sends to a protected range.
pub fn protected_deny_rule(action: IptablesAction, name: &str, guest_cidr: &str, range: &str, idx: usize) -> (r: Vec<String>)
    ensures
        texts(r@) == protected_argv(action, name@, guest_cidr@, range@, idx as nat),
{
    let tag = number_tag("deny-range-", idx);
    let note = comment(name, tag.as_str());
    let r = strings([
        action.flag(),
        "FORWARD",
        "-i",
        name,
        "-s",
        guest_cidr,
        "-d",
        range,
        "-m",
        "comment",
        "--comment",
        note.as_str(),
        "-j",
        "REJECT",
    ]);
    assert(texts(r@) =~= protected_argv(action, name@, guest_cidr@, range@, idx as nat));
    r
}

/// Whether a text is one of the flags.
pub open spec fn is_flag(s: Seq<char>) -> bool {
    s == "-A"@ || s == "-D"@ || s == "-I"@
}

/// The first flag's place.
pub open spec fn flag_at(rule: Seq<Seq<char>>, at: int) -> bool {
    0 <= at < rule.len() && is_flag(rule[at]) && forall|j: int| 0 <= j < at ==> !is_flag(#[trigger] rule[j])
}

/// Texts with a space between each two.
pub open spec fn spaced(parts: Seq<Seq<char>>) -> Seq<char>
    decreases parts.len(),
{
    if parts.len() == 0 {
        Seq::empty()
    } else if parts.len() == 1 {
        parts[0]
    } else {
        spaced(parts.drop_last()) + " "@ + parts.last()
    }
}

/// Texts with a space between each two.
pub fn join_spaced(parts: &Vec<String>) -> (r: String)
    ensures
        r@ == spaced(texts(parts@)),
{
    let ghost all = texts(parts@);
    if parts.len() == 0 {
        let out = String::new();
        assert(out@ =~= Seq::empty());
        return out;
    }
    let mut out = parts[0].clone();
    let mut i: usize = 1;
    assert(all.take(1).len() == 1 && all.take(1)[0] == parts@[0]@);
    while i < parts.len()
        invariant
            1 <= i <= parts@.len(),
            all == texts(parts@),
            out@ == spaced(all.take(i as int)),
        decreases parts@.len() - i,
    {
        assert(all.take(i + 1).drop_last() =~= all.take(i as int));
        assert(all.take(i + 1).last() == parts@[i as int]@);
        out.append(" ");
        out.append(parts[i].as_str());
        i = i + 1;
    }
    assert(all.take(i as int) =~= all);
    out
}

/// The rule that asks whether a rule is there: its first flag is replaced.
pub open spec fn check_form(rule: Seq<Seq<char>>) -> Option<Seq<Seq<char>>> {
    if exists|at: int| flag_at(rule, at) {
        let at = choose|at: int| flag_at(rule, at);
        Some(rule.update(at, "-C"@))
    } else {
        None
    }
}

proof fn lemma_flag_unique(rule: Seq<Seq<char>>, a: int, b: int)
    requires
        flag_at(rule, a),
        flag_at(rule, b),
    ensures
        a == b,
{
    if a < b {
        assert(!is_flag(rule[a]));
    } else if b < a {
        assert(!is_flag(rule[b]));
    }
}

proof fn lemma_check_form(rule: Seq<Seq<char>>, at: int)
    requires
        flag_at(rule, at),
    ensures
        check_form(rule) == Some(rule.update(at, "-C"@)),
{
    let c = choose|c: int| flag_at(rule, c);
    lemma_flag_unique(rule, at, c);
}

/// The rule that asks whether a rule is there.
pub fn iptables_check_form(rule: &Vec<String>) -> (r: Result<Vec<String>, EngineError>)
    ensures
        match r {
            Ok(v) => check_form(texts(rule@)) == Some(texts(v@)),
            Err(e) => check_form(texts(rule@)) is None && e@ == invalid_input(
                "iptables rule missing -A/-D/-I: "@ + spaced(texts(rule@)),
            ),
        },
{
    let ghost all = texts(rule@);
    let mut out: Vec<String> = Vec::new();
    let mut found = false;
    let mut i: usize = 0;
    let ghost mut at: int = 0;
    while i < rule.len()
        invariant
            i <= rule@.len(),
            all == texts(rule@),
            out@.len() == i,
            found ==> flag_at(all, at) && at < i,
            !found ==> forall|j: int| 0 <= j < i ==> !is_flag(#[trigger] all[j]),
            forall|j: int|
                0 <= j < i ==> (#[trigger] out@[j])@ == if found && j == at {
                    "-C"@
                } else {
                    all[j]
                },
        decreases rule@.len() - i,
    {
        let word = rule[i].as_str();
        assert(all[i as int] == word@);
        if !found && (text_eq(word, "-A") || text_eq(word, "-D") || text_eq(word, "-I")) {
            found = true;
            proof {
                at = i as int;
            }
            out.push("-C".to_owned());
        } else {
            out.push(rule[i].clone());
        }
        i = i + 1;
    }
    if found {
        proof {
            lemma_check_form(all, at);
            assert(texts(out@) =~= all.update(at, "-C"@));
        }
        Ok(out)
    } else {
        let words = join_spaced(rule);
        Err(EngineError::invalid(cat2("iptables rule missing -A/-D/-I: ", words.as_str())))
    }
}

/// Whether two rules are the same but for the flag, which stands at `at`.
pub open spec fn same_but_flag(
    a: Seq<Seq<char>>,
    b: Seq<Seq<char>>,
    x: IptablesAction,
    y: IptablesAction,
    at: int,
) -> bool {
    &&& flag_at(a, at)
    &&& a[at] == flag_text(x)
    &&& b == a.update(at, flag_text(y))
}

/// A rule is looked for in the same way whatever is done with it, so what one
/// action put in place another finds.
pub proof fn law_check_ignores_action(
    a: Seq<Seq<char>>,
    b: Seq<Seq<char>>,
    x: IptablesAction,
    y: IptablesAction,
    at: int,
)
    requires
        same_but_flag(a, b, x, y, at),
    ensures
        check_form(a) is Some,
        check_form(a) == check_form(b),
{
    assert(flag_at(b, at)) by {
        assert forall|j: int| 0 <= j < at implies !is_flag(#[trigger] b[j]) by {
            assert(b[j] == a[j]);
        }
    }
    lemma_check_form(a, at);
    lemma_check_form(b, at);
    assert(a.update(at, "-C"@) =~= b.update(at, "-C"@));
}

/// A rule of a lease differs between two actions in its flag alone.
pub proof fn law_lease_rules_are_symmetric(lease: TapLeaseView, port: u16, x: IptablesAction, y: IptablesAction)
    ensures
        same_but_flag(masq_argv(x, lease), masq_argv(y, lease), x, y, 2),
        same_but_flag(return_argv(x, lease), return_argv(y, lease), x, y, 0),
        same_but_flag(open_egress_argv(x, lease), open_egress_argv(y, lease), x, y, 0),
        same_but_flag(deny_egress_argv(x, lease), deny_egress_argv(y, lease), x, y, 0),
        same_but_flag(host_deny_argv(x, lease), host_deny_argv(y, lease), x, y, 0),
        same_but_flag(gateway_argv(x, lease, port), gateway_argv(y, lease, port), x, y, 0),
{
    reveal_strlit("-t");
    reveal_strlit("nat");
    reveal_strlit("-A");
    reveal_strlit("-D");
    reveal_strlit("-I");
    assert("-t"@[1] == 't' && "-A"@[1] == 'A' && "-D"@[1] == 'D' && "-I"@[1] == 'I');
    assert("nat"@.len() == 3 && "-A"@.len() == 2 && "-D"@.len() == 2 && "-I"@.len() == 2);
    let m = masq_argv(x, lease);
    assert(!is_flag(m[0]) && !is_flag(m[1]));
    assert(masq_argv(y, lease) =~= m.update(2, flag_text(y)));
    assert(return_argv(y, lease) =~= return_argv(x, lease).update(0, flag_text(y)));
    assert(open_egress_argv(y, lease) =~= open_egress_argv(x, lease).update(0, flag_text(y)));
    assert(deny_egress_argv(y, lease) =~= deny_egress_argv(x, lease).update(0, flag_text(y)));
    assert(host_deny_argv(y, lease) =~= host_deny_argv(x, lease).update(0, flag_text(y)));
    assert(gateway_argv(y, lease, port) =~= gateway_argv(x, lease, port).update(0, flag_text(y)));
}

/// A numbered rule differs between two actions in its flag alone.
pub proof fn law_numbered_rules_are_symmetric(
    name: Seq<char>,
    guest: Seq<char>,
    dest: Seq<char>,
    idx: nat,
    x: IptablesAction,
    y: IptablesAction,
)
    ensures
        same_but_flag(
            egress_cidr_argv(x, name, guest, dest, idx),
            egress_cidr_argv(y, name, guest, dest, idx),
            x,
            y,
            0,
        ),
        same_but_flag(domain_argv(x, name, guest, dest, idx), domain_argv(y, name, guest, dest, idx), x, y, 0),
        same_but_flag(
            protected_argv(x, name, guest, dest, idx),
            protected_argv(y, name, guest, dest, idx),
            x,
            y,
            0,
        ),
{
    let f = flag_text(y);
    assert(egress_cidr_argv(y, name, guest, dest, idx) =~= egress_cidr_argv(x, name, guest, dest, idx).update(0, f));
    assert(domain_argv(y, name, guest, dest, idx) =~= domain_argv(x, name, guest, dest, idx).update(0, f));
    assert(protected_argv(y, name, guest, dest, idx) =~= protected_argv(x, name, guest, dest, idx).update(0, f));
}

} // verus!
