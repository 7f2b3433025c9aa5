//! What the rules of a TAP mean for packets: how the words of a rule's command are
//! read, in which order rules stand once a plan was run, and which rule a packet
//! meets first.
use crate::decimal::{decimal, law_decimal_reads_back};
use crate::net::addr::v4_text;
use crate::net::cidr::{block_of, law_v4_block_reads_back, read_cidr, CidrNet};
use crate::net::lease::TapLeaseView;
use crate::net::plan::{
    after_ops, clearing_ops, guard_op, is_former, lemma_after_append, lemma_setup_effect, lemma_unplaced, link_ops,
    policy_ops, policy_rules, protected_ranges, replacement, rule_argv, OpView, RuleView, PROTECTED_COUNT,
};
use crate::net::rules::IptablesAction;
use vstd::arithmetic::power2::pow2;
use vstd::prelude::*;

verus! {

/// The place of the word that says what is done with a rule: the first one, or the
/// one behind the name of a table.
pub open spec fn action_at(argv: Seq<Seq<char>>) -> int {
    if argv[0] == "-t"@ {
        2
    } else {
        0
    }
}

/// The value of an option among pairs of words from a place on.
pub open spec fn option_from(argv: Seq<Seq<char>>, name: Seq<char>, at: int) -> Option<Seq<char>>
    decreases argv.len() - at,
{
    if at + 1 >= argv.len() {
        None
    } else if argv[at] == name {
        Some(argv[at + 1])
    } else {
        option_from(argv, name, at + 2)
    }
}

/// The chain that a rule stands in.
pub open spec fn chain_of(argv: Seq<Seq<char>>) -> Seq<char> {
    argv[action_at(argv) + 1]
}

/// The value of a rule's option, where it has it.
pub open spec fn option_of(argv: Seq<Seq<char>>, name: Seq<char>) -> Option<Seq<char>> {
    option_from(argv, name, action_at(argv) + 2)
}

/// What a rule looks at of a packet.
pub ghost struct Packet {
    pub chain: Seq<char>,
    pub input: Seq<char>,
    pub output: Seq<char>,
    pub source: u32,
    pub dest: u32,
    pub tcp_port: Option<nat>,
    pub established: bool,
}

/// Whether a text names a block of four-byte addresses that holds one: both agree in
/// as many leading bits as the prefix counts.
pub open spec fn in_block(text: Seq<char>, addr: u32) -> bool {
    read_cidr(text) matches Ok(CidrNet::V4 { network, prefix }) && prefix <= 32 && addr as nat / pow2(
        (32 - prefix) as nat,
    ) == network as nat / pow2((32 - prefix) as nat)
}

/// Whether a packet meets a rule: every condition of the rule holds of it.
pub open spec fn meets(argv: Seq<Seq<char>>, p: Packet) -> bool {
    &&& chain_of(argv) == p.chain
    &&& option_of(argv, "-i"@) matches Some(w) ==> w == p.input
    &&& option_of(argv, "-o"@) matches Some(w) ==> w == p.output
    &&& option_of(argv, "-s"@) matches Some(w) ==> in_block(w, p.source)
    &&& option_of(argv, "-d"@) matches Some(w) ==> in_block(w, p.dest)
    &&& option_of(argv, "--dport"@) matches Some(w) ==> p.tcp_port matches Some(port) && w == decimal(port)
    &&& option_of(argv, "--ctstate"@) is Some ==> p.established
}

/// The rules without one of them.
pub open spec fn without(table: Seq<RuleView>, rule: RuleView) -> Seq<RuleView>
    decreases table.len(),
{
    if table.len() == 0 {
        Seq::empty()
    } else if table.last() == rule {
        without(table.drop_last(), rule)
    } else {
        without(table.drop_last(), rule).push(table.last())
    }
}

/// The rules of a TAP, in the order in which packets come to them, after a step: a
/// rule that is not there is put before all others or behind them, as its command
/// asks.
pub open spec fn after_step(op: OpView, table: Seq<RuleView>, lease: TapLeaseView, port: u16) -> Seq<RuleView> {
    match op {
        OpView::Ensure(action, rule) => {
            let argv = rule_argv(rule, action, lease, port);
            if table.contains(rule) {
                table
            } else if argv[action_at(argv)] == "-I"@ {
                seq![rule] + table
            } else {
                table.push(rule)
            }
        },
        OpView::Delete(rule) => without(table, rule),
        _ => table,
    }
}

/// The rules of a TAP, in order, after the steps of a plan.
pub open spec fn after_steps(ops: Seq<OpView>, table: Seq<RuleView>, lease: TapLeaseView, port: u16) -> Seq<RuleView>
    decreases ops.len(),
{
    if ops.len() == 0 {
        table
    } else {
        after_step(ops.last(), after_steps(ops.drop_last(), table, lease, port), lease, port)
    }
}

/// The words of a rule that is in place.
pub open spec fn words(rule: RuleView, lease: TapLeaseView, port: u16) -> Seq<Seq<char>> {
    rule_argv(rule, IptablesAction::Append, lease, port)
}

/// Whether the first rule that a packet meets has this target.
pub open spec fn ends_at(
    table: Seq<RuleView>,
    lease: TapLeaseView,
    port: u16,
    p: Packet,
    target: Seq<char>,
) -> bool {
    exists|k: int|
        {
            &&& 0 <= k < table.len()
            &&& meets(#[trigger] words(table[k], lease, port), p)
            &&& option_of(words(table[k], lease, port), "-j"@) == Some(target)
            &&& forall|j: int| 0 <= j < k ==> !meets(#[trigger] words(table[j], lease, port), p)
        }
}

/// Whether a packet is forwarded that the guest of a lease sent to somewhere else.
pub open spec fn sent_by_guest(lease: TapLeaseView, p: Packet) -> bool {
    &&& p.chain == "FORWARD"@
    &&& p.input == lease.name
    &&& p.output != lease.name
    &&& lease.guest_ip == v4_text(p.source as nat)
}

proof fn lemma_options()
    ensures
        "-i"@ != "-o"@,
        "-i"@ != "-s"@,
        "-i"@ != "-d"@,
        "-i"@ != "-m"@,
        "-i"@ != "-j"@,
        "-i"@ != "-p"@,
        "-o"@ != "-s"@,
        "-o"@ != "-d"@,
        "-o"@ != "-m"@,
        "-o"@ != "-j"@,
        "-o"@ != "-p"@,
        "-s"@ != "-d"@,
        "-s"@ != "-m"@,
        "-s"@ != "-j"@,
        "-s"@ != "-p"@,
        "-d"@ != "-m"@,
        "-d"@ != "-j"@,
        "-d"@ != "-p"@,
        "-m"@ != "-j"@,
        "-p"@ != "-j"@,
        "-A"@ != "-I"@,
        "-A"@ != "-t"@,
        "-I"@ != "-t"@,
        "-D"@ != "-t"@,
        "-D"@ != "-I"@,
        "-i"@.len() == 2,
        "-o"@.len() == 2,
        "-s"@.len() == 2,
        "-d"@.len() == 2,
        "-m"@.len() == 2,
        "-j"@.len() == 2,
        "-p"@.len() == 2,
        "--dport"@.len() == 7,
        "--comment"@.len() == 9,
        "--ctstate"@.len() == 9,
        "--comment"@ != "--ctstate"@,
        "FORWARD"@.len() == 7,
        "INPUT"@.len() == 5,
        "POSTROUTING"@.len() == 11,
{
    reveal_strlit("-i");
    reveal_strlit("-o");
    reveal_strlit("-s");
    reveal_strlit("-d");
    reveal_strlit("-m");
    reveal_strlit("-j");
    reveal_strlit("-p");
    reveal_strlit("-A");
    reveal_strlit("-I");
    reveal_strlit("-D");
    reveal_strlit("-t");
    reveal_strlit("--dport");
    reveal_strlit("--comment");
    reveal_strlit("--ctstate");
    reveal_strlit("FORWARD");
    reveal_strlit("INPUT");
    reveal_strlit("POSTROUTING");
    assert("-i"@[1] == 'i' && "-o"@[1] == 'o' && "-s"@[1] == 's' && "-d"@[1] == 'd' && "-m"@[1] == 'm' && "-j"@[1]
        == 'j' && "-p"@[1] == 'p');
    assert("-A"@[1] == 'A' && "-I"@[1] == 'I' && "-D"@[1] == 'D' && "-t"@[1] == 't');
    assert("--comment"@[3] == 'o' && "--ctstate"@[3] == 't');
}

/// The place where a rule's command says what is done with it.
proof fn lemma_action_word(rule: RuleView, action: IptablesAction, lease: TapLeaseView, port: u16)
    ensures
        ({
            let argv = rule_argv(rule, action, lease, port);
            argv[action_at(argv)] == match action {
                IptablesAction::Append => "-A"@,
                IptablesAction::Delete => "-D"@,
                IptablesAction::Insert => "-I"@,
            }
        }),
{
    lemma_options();
}

/// A guest's packet meets the refusal and the open rule, a rule for a block exactly
/// where the block holds its destination, and none of the others.
proof fn lemma_guest_meets(rule: RuleView, lease: TapLeaseView, port: u16, p: Packet)
    requires
        sent_by_guest(lease, p),
        in_block(lease.guest_block(), p.source),
    ensures
        ({
            let argv = words(rule, lease, port);
            &&& meets(argv, p) == match rule {
                RuleView::DenyEgress | RuleView::OpenEgress => true,
                RuleView::Cidr(c, _) => in_block(c, p.dest),
                RuleView::Domain(ip, _) => in_block(ip + "/32"@, p.dest),
                RuleView::Protected(i) => in_block(protected_ranges()[i], p.dest),
                _ => false,
            }
            &&& rule is OpenEgress || rule is Cidr || rule is Domain ==> option_of(argv, "-j"@) == Some("ACCEPT"@)
            &&& rule is DenyEgress || rule is Protected ==> option_of(argv, "-j"@) == Some("REJECT"@)
        }),
{
    lemma_options();
    reveal_with_fuel(option_from, 9);
    let argv = words(rule, lease, port);
    match rule {
        RuleView::Masq => assert(argv[3] == "POSTROUTING"@ || argv[1] == "POSTROUTING"@),
        RuleView::Return => {
            assert(action_at(argv) == 0);
            assert(option_of(argv, "-o"@) == Some(lease.name));
        },
        _ => {
            assert(action_at(argv) == 0);
        },
    }
}

proof fn lemma_single_block(a: u32)
    ensures
        in_block(v4_text(a as nat) + "/32"@, a),
        forall|b: u32| #[trigger] in_block(v4_text(a as nat) + "/32"@, b) ==> b == a,
{
    vstd::arithmetic::power2::lemma2_to64();
    assert(pow2(0) == 1);
    assert(block_of(a as nat, 32, 32) == a);
    law_v4_block_reads_back(a, 32);
    reveal_strlit("/32");
    reveal_strlit("/");
    reveal_with_fuel(decimal, 3);
    assert("/32"@ =~= "/"@ + decimal(32));
    let net = CidrNet::V4 { network: a, prefix: 32 };
    assert(net.text() =~= v4_text(a as nat) + "/32"@);
    assert forall|b: u32| #[trigger] in_block(v4_text(a as nat) + "/32"@, b) implies b == a by {
        assert(b as nat / 1 == b && a as nat / 1 == a);
    }
}

proof fn lemma_without(table: Seq<RuleView>, rule: RuleView, other: RuleView)
    ensures
        without(table, rule).contains(other) <==> table.contains(other) && other != rule,
    decreases table.len(),
{
    if table.len() > 0 {
        let rest = table.drop_last();
        lemma_without(rest, rule, other);
        let a = without(rest, rule);
        let b = without(table, rule);
        assert(table =~= rest.push(table.last()));
        if a.contains(other) {
            let i = choose|i: int| 0 <= i < a.len() && a[i] == other;
            assert(b[i] == other);
        }
        if rest.contains(other) {
            let i = choose|i: int| 0 <= i < rest.len() && rest[i] == other;
            assert(table[i] == other);
        }
        if b.contains(other) {
            let i = choose|i: int| 0 <= i < b.len() && b[i] == other;
            if i < a.len() {
                assert(a[i] == other);
            } else {
                assert(table[table.len() - 1] == other);
            }
        }
        if table.contains(other) && !rest.contains(other) {
            let i = choose|i: int| 0 <= i < table.len() && table[i] == other;
            if i < rest.len() {
                assert(rest[i] == other);
            }
            if other != rule {
                assert(b[b.len() - 1] == other);
            }
        }
    }
}

/// Which rules are in place does not depend on their order.
proof fn lemma_same_rules(ops: Seq<OpView>, table: Seq<RuleView>, lease: TapLeaseView, port: u16, rule: RuleView)
    ensures
        after_steps(ops, table, lease, port).contains(rule) <==> after_ops(ops, table.to_set()).contains(rule),
    decreases ops.len(),
{
    if ops.len() > 0 {
        let rest = ops.drop_last();
        lemma_same_rules(rest, table, lease, port, rule);
        let t = after_steps(rest, table, lease, port);
        let u = after_steps(ops, table, lease, port);
        match ops.last() {
            OpView::Ensure(_, r) => {
                lemma_same_rules(rest, table, lease, port, r);
                if t.contains(rule) {
                    let i = choose|i: int| 0 <= i < t.len() && t[i] == rule;
                    assert(u[i] == rule || u[i + 1] == rule);
                }
                if u.contains(rule) && rule != r {
                    let i = choose|i: int| 0 <= i < u.len() && u[i] == rule;
                    assert(t.contains(rule)) by {
                        if u != t {
                            if u[0] == r && u =~= seq![r] + t {
                                assert(t[i - 1] == rule);
                            } else {
                                assert(t[i] == rule);
                            }
                        }
                    }
                }
                assert(u.contains(r)) by {
                    if !t.contains(r) {
                        assert(u[0] == r || u[u.len() - 1] == r);
                    }
                }
            },
            OpView::Delete(r) => lemma_without(t, r, rule),
            _ => {},
        }
    }
}

proof fn lemma_steps_append(a: Seq<OpView>, b: Seq<OpView>, table: Seq<RuleView>, lease: TapLeaseView, port: u16)
    ensures
        after_steps(a + b, table, lease, port) == after_steps(b, after_steps(a, table, lease, port), lease, port),
    decreases b.len(),
{
    if b.len() == 0 {
        assert(a + b =~= a);
    } else {
        assert((a + b).drop_last() =~= a + b.drop_last());
        assert((a + b).last() == b.last());
        lemma_steps_append(a, b.drop_last(), table, lease, port);
    }
}

/// The rules of a policy that have to come first.
spec fn comes_first(rule: RuleView) -> bool {
    rule is Cidr || rule is Domain || rule is Protected
}

/// Whether no rule that has to come first stands behind one that decides on all
/// packets of the guest.
spec fn in_order(table: Seq<RuleView>) -> bool {
    forall|i: int, j: int|
        0 <= i < j < table.len() && comes_first(#[trigger] table[j]) ==> !((#[trigger] table[i]) is DenyEgress
            || table[i] is OpenEgress)
}

/// Whether a step keeps the rules in order.
spec fn is_orderly(op: OpView) -> bool {
    match op {
        OpView::Ensure(action, rule) => if comes_first(rule) {
            action == IptablesAction::Insert
        } else {
            action == IptablesAction::Append
        },
        _ => true,
    }
}

proof fn lemma_without_in_order(table: Seq<RuleView>, rule: RuleView)
    requires
        in_order(table),
    ensures
        in_order(without(table, rule)),
    decreases table.len(),
{
    if table.len() > 0 {
        let rest = table.drop_last();
        assert(in_order(rest)) by {
            assert forall|i: int, j: int|
                0 <= i < j < rest.len() && comes_first(#[trigger] rest[j]) implies !((#[trigger] rest[i]) is DenyEgress
                || rest[i] is OpenEgress) by {
                assert(table[i] == rest[i] && table[j] == rest[j]);
            }
        }
        lemma_without_in_order(rest, rule);
        let a = without(rest, rule);
        let b = without(table, rule);
        assert forall|i: int, j: int| 0 <= i < j < b.len() && comes_first(#[trigger] b[j]) implies !((
        #[trigger] b[i]) is DenyEgress || b[i] is OpenEgress) by {
            if j < a.len() {
                assert(a[i] == b[i] && a[j] == b[j]);
            } else {
                assert(b[j] == table[table.len() - 1]);
                assert(a.contains(a[i]));
                lemma_without(rest, rule, a[i]);
                let k = choose|k: int| 0 <= k < rest.len() && rest[k] == a[i];
                assert(table[k] == b[i]);
            }
        }
    }
}

proof fn lemma_step_in_order(op: OpView, table: Seq<RuleView>, lease: TapLeaseView, port: u16)
    requires
        in_order(table),
        is_orderly(op),
    ensures
        in_order(after_step(op, table, lease, port)),
{
    let after = after_step(op, table, lease, port);
    lemma_options();
    match op {
        OpView::Ensure(action, rule) => {
            lemma_action_word(rule, action, lease, port);
            if !table.contains(rule) {
                if comes_first(rule) {
                    assert(after =~= seq![rule] + table);
                    assert forall|i: int, j: int|
                        0 <= i < j < after.len() && comes_first(#[trigger] after[j]) implies !((
                    #[trigger] after[i]) is DenyEgress || after[i] is OpenEgress) by {
                        if i > 0 {
                            assert(after[i] == table[i - 1] && after[j] == table[j - 1]);
                        }
                    }
                } else {
                    assert(after =~= table.push(rule));
                    assert forall|i: int, j: int|
                        0 <= i < j < after.len() && comes_first(#[trigger] after[j]) implies !((
                    #[trigger] after[i]) is DenyEgress || after[i] is OpenEgress) by {
                        assert(j < table.len());
                        assert(after[i] == table[i] && after[j] == table[j]);
                    }
                }
            }
        },
        OpView::Delete(rule) => lemma_without_in_order(table, rule),
        _ => {},
    }
}

proof fn lemma_steps_in_order(ops: Seq<OpView>, table: Seq<RuleView>, lease: TapLeaseView, port: u16)
    requires
        in_order(table),
        forall|i: int| 0 <= i < ops.len() ==> is_orderly(#[trigger] ops[i]),
    ensures
        in_order(after_steps(ops, table, lease, port)),
    decreases ops.len(),
{
    if ops.len() > 0 {
        let rest = ops.drop_last();
        assert forall|i: int| 0 <= i < rest.len() implies is_orderly(#[trigger] rest[i]) by {
            assert(rest[i] == ops[i]);
        }
        assert(is_orderly(ops[ops.len() - 1]));
        lemma_steps_in_order(rest, table, lease, port);
        lemma_step_in_order(ops.last(), after_steps(rest, table, lease, port), lease, port);
    }
}

proof fn lemma_policy_is_orderly(restricted: bool, allow: Seq<Seq<char>>, rules: Map<Seq<char>, usize>)
    ensures
        forall|i: int|
            0 <= i < policy_ops(restricted, allow, rules).len() ==> is_orderly(
                #[trigger] policy_ops(restricted, allow, rules)[i],
            ),
{
    let ops = policy_ops(restricted, allow, rules);
    assert forall|i: int| 0 <= i < ops.len() implies is_orderly(#[trigger] ops[i]) by {
        if restricted {
            let c = crate::net::plan::cidr_inserts(allow);
            if i < c.len() {
                assert(ops[i] == c[i]);
            } else {
                assert(ops[i] == crate::net::plan::domain_inserts(rules)[i - c.len()]);
            }
        } else if i < PROTECTED_COUNT {
            assert(ops[i] == crate::net::plan::protected_inserts()[i]);
        }
    }
}

/// The rules of a TAP after set-up, in order.
pub open spec fn set_up(
    lease: TapLeaseView,
    port: u16,
    exists_already: bool,
    restricted: bool,
    former: Former,
    rules: Map<Seq<char>, usize>,
) -> Seq<RuleView> {
    after_steps(
        link_ops(exists_already) + replacement(restricted, lease.egress_allow, former.domains, former.allow, rules),
        former.table,
        lease,
        port,
    )
}

/// What a TAP had before it is set up: the rules in place, and the policy that they
/// come from.
pub ghost struct Former {
    pub restricted: bool,
    pub allow: Seq<Seq<char>>,
    pub domains: Map<Seq<char>, usize>,
    pub table: Seq<RuleView>,
}

impl Former {
    /// Whether the rules in place come from the policy, or from the credential gateway.
    pub open spec fn sound(self) -> bool {
        &&& self.domains.dom().finite()
        &&& forall|rule: RuleView| #[trigger]
            self.table.contains(rule) ==> policy_rules(self.restricted, self.allow, self.domains).insert(
                RuleView::CredentialGateway,
            ).contains(rule)
    }
}

proof fn lemma_set_up(
    lease: TapLeaseView,
    port: u16,
    exists_already: bool,
    restricted: bool,
    former: Former,
    rules: Map<Seq<char>, usize>,
)
    requires
        former.sound(),
        rules.dom().finite(),
    ensures
        in_order(set_up(lease, port, exists_already, restricted, former, rules)),
        forall|rule: RuleView| #[trigger]
            set_up(lease, port, exists_already, restricted, former, rules).contains(rule) <==> policy_rules(
                restricted,
                lease.egress_allow,
                rules,
            ).contains(rule),
{
    let allow = lease.egress_allow;
    let head = link_ops(exists_already) + (seq![guard_op()] + clearing_ops(former.domains, former.allow));
    let policy = policy_ops(restricted, allow, rules);
    let all = link_ops(exists_already) + replacement(restricted, allow, former.domains, former.allow, rules);
    assert(all =~= head + policy);
    let start = former.table.to_set();
    assert forall|rule: RuleView| #[trigger] start.contains(rule) implies is_former(
        rule,
        former.allow,
        former.domains,
    ) by {
        assert(former.table.contains(rule));
    }
    lemma_setup_effect(exists_already, restricted, allow, former.domains, former.allow, rules, start);
    assert forall|rule: RuleView| #[trigger]
        set_up(lease, port, exists_already, restricted, former, rules).contains(rule) <==> policy_rules(
            restricted,
            allow,
            rules,
        ).contains(rule) by {
        lemma_same_rules(all, former.table, lease, port, rule);
    }
    let cleared = after_steps(head, former.table, lease, port);
    assert forall|j: int| 0 <= j < cleared.len() implies !comes_first(#[trigger] cleared[j]) by {
        lemma_same_rules(head, former.table, lease, port, cleared[j]);
        assert(cleared.contains(cleared[j]));
        lemma_unplaced(exists_already, former.domains, former.allow, start, cleared[j]);
    }
    assert(in_order(cleared));
    lemma_policy_is_orderly(restricted, allow, rules);
    lemma_steps_append(head, policy, former.table, lease, port);
    lemma_steps_in_order(policy, cleared, lease, port);
}

/// The first rule that a packet meets, where it meets one.
proof fn lemma_first_met(table: Seq<RuleView>, lease: TapLeaseView, port: u16, p: Packet, n: int) -> (k: int)
    requires
        0 <= n < table.len(),
        meets(words(table[n], lease, port), p),
    ensures
        0 <= k <= n,
        meets(words(table[k], lease, port), p),
        forall|j: int| 0 <= j < k ==> !meets(#[trigger] words(table[j], lease, port), p),
    decreases n,
{
    if exists|m: int| 0 <= m < n && meets(#[trigger] words(table[m], lease, port), p) {
        let m = choose|m: int| 0 <= m < n && meets(#[trigger] words(table[m], lease, port), p);
        lemma_first_met(table, lease, port, p, m)
    } else {
        n
    }
}

/// Whether a policy that restricts lets the guest reach an address: it is in a block
/// of the list, or is the address of an allowed domain.
pub open spec fn is_allowed(allow: Seq<Seq<char>>, rules: Map<Seq<char>, usize>, dest: u32) -> bool {
    (exists|i: int| 0 <= i < allow.len() && in_block(#[trigger] allow[i], dest)) || (exists|ip: Seq<char>| #[trigger]
        rules.contains_key(ip) && in_block(ip + "/32"@, dest))
}

/// After set-up with an allow list, a packet that the guest sends to an address of
/// the list meets a rule that accepts it first, and a packet to any other address
/// meets one that rejects it first; whatever policy the TAP had before.
pub proof fn law_only_allowed_addresses_are_reached(
    lease: TapLeaseView,
    port: u16,
    exists_already: bool,
    former: Former,
    rules: Map<Seq<char>, usize>,
    p: Packet,
)
    requires
        former.sound(),
        rules.dom().finite(),
        sent_by_guest(lease, p),
    ensures
        ({
            let table = set_up(lease, port, exists_already, true, former, rules);
            &&& is_allowed(lease.egress_allow, rules, p.dest) ==> ends_at(table, lease, port, p, "ACCEPT"@)
            &&& !is_allowed(lease.egress_allow, rules, p.dest) ==> ends_at(table, lease, port, p, "REJECT"@)
        }),
{
    let table = set_up(lease, port, exists_already, true, former, rules);
    let allow = lease.egress_allow;
    lemma_set_up(lease, port, exists_already, true, former, rules);
    lemma_single_block(p.source);
    assert forall|k: int| 0 <= k < table.len() implies policy_rules(true, allow, rules).contains(
        #[trigger] table[k],
    ) by {
        assert(table.contains(table[k]));
    }
    assert(table.contains(RuleView::DenyEgress));
    let n = choose|n: int| 0 <= n < table.len() && table[n] == RuleView::DenyEgress;
    lemma_guest_meets(table[n], lease, port, p);
    let k = lemma_first_met(table, lease, port, p, n);
    lemma_guest_meets(table[k], lease, port, p);
    if is_allowed(allow, rules, p.dest) {
        let rule = if exists|i: int| 0 <= i < allow.len() && in_block(#[trigger] allow[i], p.dest) {
            let i = choose|i: int| 0 <= i < allow.len() && in_block(#[trigger] allow[i], p.dest);
            RuleView::Cidr(allow[i], i)
        } else {
            let ip = choose|ip: Seq<char>| #[trigger] rules.contains_key(ip) && in_block(ip + "/32"@, p.dest);
            RuleView::Domain(ip, rules[ip])
        };
        assert(table.contains(rule));
        let m = choose|m: int| 0 <= m < table.len() && table[m] == rule;
        lemma_guest_meets(table[m], lease, port, p);
        assert(!(table[k] is DenyEgress)) by {
            if table[k] is DenyEgress {
                assert(m != k);
                if m < k {
                    assert(!meets(words(table[m], lease, port), p));
                } else {
                    assert(comes_first(table[m]));
                }
            }
        }
        assert(option_of(words(table[k], lease, port), "-j"@) == Some("ACCEPT"@));
    } else {
        assert(policy_rules(true, allow, rules).contains(table[k]));
        match table[k] {
            RuleView::Cidr(c, i) => assert(in_block(allow[i], p.dest)),
            RuleView::Domain(ip, i) => assert(rules.contains_key(ip)),
            _ => {},
        }
        assert(option_of(words(table[k], lease, port), "-j"@) == Some("REJECT"@));
    }
}

/// The four bytes of an address.
pub open spec fn bytes_of(addr: u32) -> (nat, nat, nat, nat) {
    (addr as nat / 16777216, addr as nat / 65536 % 256, addr as nat / 256 % 256, addr as nat % 256)
}

/// Whether an address is not a public one: of this host or network, private, shared,
/// link-local, for protocols or examples, for measurements, of a group of hosts, or
/// reserved.
pub open spec fn is_special(addr: u32) -> bool {
    let (a, b, c, _) = bytes_of(addr);
    ||| a == 0
    ||| a == 10
    ||| a == 127
    ||| a == 100 && 64 <= b < 128
    ||| a == 169 && b == 254
    ||| a == 172 && 16 <= b < 32
    ||| a == 192 && b == 168
    ||| a == 192 && b == 0 && (c == 0 || c == 2)
    ||| a == 192 && b == 88 && c == 99
    ||| a == 198 && (b == 18 || b == 19)
    ||| a == 198 && b == 51 && c == 100
    ||| a == 203 && b == 0 && c == 113
    ||| a >= 224
}

proof fn lemma_block_text(text: Seq<char>, network: u32, prefix: u8, size: nat, addr: u32)
    requires
        prefix <= 32,
        size == pow2((32 - prefix) as nat),
        size > 0,
        network as nat % size == 0,
        text == v4_text(network as nat) + seq!['/'] + decimal(prefix as nat),
    ensures
        in_block(text, addr) <==> addr as nat / size == network as nat / size,
{
    reveal_strlit("/");
    assert("/"@ =~= seq!['/']);
    law_v4_block_reads_back(network, prefix);
    let net = CidrNet::V4 { network, prefix };
    assert(net.text() =~= text);
}

proof fn lemma_range_0(addr: u32)
    ensures
        in_block("0.0.0.0/8"@, addr) <==> addr as nat / 16777216 == 0,
{
    vstd::arithmetic::power2::lemma2_to64();
    reveal_strlit("0.0.0.0/8");
    reveal_with_fuel(decimal, 4);
    assert("0.0.0.0/8"@ =~= v4_text(0) + seq!['/'] + decimal(8));
    assert(pow2(24) == 16777216);
    lemma_block_text("0.0.0.0/8"@, 0, 8, 16777216, addr);
}

proof fn lemma_range_1(addr: u32)
    ensures
        in_block("127.0.0.0/8"@, addr) <==> addr as nat / 16777216 == 127,
{
    vstd::arithmetic::power2::lemma2_to64();
    reveal_strlit("127.0.0.0/8");
    reveal_with_fuel(decimal, 4);
    assert("127.0.0.0/8"@ =~= v4_text(2130706432) + seq!['/'] + decimal(8));
    assert(pow2(24) == 16777216);
    lemma_block_text("127.0.0.0/8"@, 2130706432, 8, 16777216, addr);
}

proof fn lemma_range_2(addr: u32)
    ensures
        in_block("10.0.0.0/8"@, addr) <==> addr as nat / 16777216 == 10,
{
    vstd::arithmetic::power2::lemma2_to64();
    reveal_strlit("10.0.0.0/8");
    reveal_with_fuel(decimal, 4);
    assert("10.0.0.0/8"@ =~= v4_text(167772160) + seq!['/'] + decimal(8));
    assert(pow2(24) == 16777216);
    lemma_block_text("10.0.0.0/8"@, 167772160, 8, 16777216, addr);
}

proof fn lemma_range_3(addr: u32)
    ensures
        in_block("172.16.0.0/12"@, addr) <==> addr as nat / 1048576 == 2753,
{
    vstd::arithmetic::power2::lemma2_to64();
    reveal_strlit("172.16.0.0/12");
    reveal_with_fuel(decimal, 4);
    assert("172.16.0.0/12"@ =~= v4_text(2886729728) + seq!['/'] + decimal(12));
    assert(pow2(20) == 1048576);
    lemma_block_text("172.16.0.0/12"@, 2886729728, 12, 1048576, addr);
}

proof fn lemma_range_4(addr: u32)
    ensures
        in_block("192.168.0.0/16"@, addr) <==> addr as nat / 65536 == 49320,
{
    vstd::arithmetic::power2::lemma2_to64();
    reveal_strlit("192.168.0.0/16");
    reveal_with_fuel(decimal, 4);
    assert("192.168.0.0/16"@ =~= v4_text(3232235520) + seq!['/'] + decimal(16));
    assert(pow2(16) == 65536);
    lemma_block_text("192.168.0.0/16"@, 3232235520, 16, 65536, addr);
}

proof fn lemma_range_5(addr: u32)
    ensures
        in_block("169.254.0.0/16"@, addr) <==> addr as nat / 65536 == 43518,
{
    vstd::arithmetic::power2::lemma2_to64();
    reveal_strlit("169.254.0.0/16");
    reveal_with_fuel(decimal, 4);
    assert("169.254.0.0/16"@ =~= v4_text(2851995648) + seq!['/'] + decimal(16));
    assert(pow2(16) == 65536);
    lemma_block_text("169.254.0.0/16"@, 2851995648, 16, 65536, addr);
}

proof fn lemma_range_6(addr: u32)
    ensures
        in_block("224.0.0.0/4"@, addr) <==> addr as nat / 268435456 == 14,
{
    vstd::arithmetic::power2::lemma2_to64();
    reveal_strlit("224.0.0.0/4");
    reveal_with_fuel(decimal, 4);
    assert("224.0.0.0/4"@ =~= v4_text(3758096384) + seq!['/'] + decimal(4));
    assert(pow2(28) == 268435456);
    lemma_block_text("224.0.0.0/4"@, 3758096384, 4, 268435456, addr);
}

proof fn lemma_range_7(addr: u32)
    ensures
        in_block("255.255.255.255/32"@, addr) <==> addr as nat / 1 == 4294967295,
{
    vstd::arithmetic::power2::lemma2_to64();
    reveal_strlit("255.255.255.255/32");
    reveal_with_fuel(decimal, 4);
    assert("255.255.255.255/32"@ =~= v4_text(4294967295) + seq!['/'] + decimal(32));
    assert(pow2(0) == 1);
    lemma_block_text("255.255.255.255/32"@, 4294967295, 32, 1, addr);
}

proof fn lemma_range_8(addr: u32)
    ensures
        in_block("100.64.0.0/10"@, addr) <==> addr as nat / 4194304 == 401,
{
    vstd::arithmetic::power2::lemma2_to64();
    reveal_strlit("100.64.0.0/10");
    reveal_with_fuel(decimal, 4);
    assert("100.64.0.0/10"@ =~= v4_text(1681915904) + seq!['/'] + decimal(10));
    assert(pow2(22) == 4194304);
    lemma_block_text("100.64.0.0/10"@, 1681915904, 10, 4194304, addr);
}

proof fn lemma_range_9(addr: u32)
    ensures
        in_block("192.0.0.0/24"@, addr) <==> addr as nat / 256 == 12582912,
{
    vstd::arithmetic::power2::lemma2_to64();
    reveal_strlit("192.0.0.0/24");
    reveal_with_fuel(decimal, 4);
    assert("192.0.0.0/24"@ =~= v4_text(3221225472) + seq!['/'] + decimal(24));
    assert(pow2(8) == 256);
    lemma_block_text("192.0.0.0/24"@, 3221225472, 24, 256, addr);
}

proof fn lemma_range_10(addr: u32)
    ensures
        in_block("192.0.2.0/24"@, addr) <==> addr as nat / 256 == 12582914,
{
    vstd::arithmetic::power2::lemma2_to64();
    reveal_strlit("192.0.2.0/24");
    reveal_with_fuel(decimal, 4);
    assert("192.0.2.0/24"@ =~= v4_text(3221225984) + seq!['/'] + decimal(24));
    assert(pow2(8) == 256);
    lemma_block_text("192.0.2.0/24"@, 3221225984, 24, 256, addr);
}

proof fn lemma_range_11(addr: u32)
    ensures
        in_block("192.88.99.0/24"@, addr) <==> addr as nat / 256 == 12605539,
{
    vstd::arithmetic::power2::lemma2_to64();
    reveal_strlit("192.88.99.0/24");
    reveal_with_fuel(decimal, 4);
    assert("192.88.99.0/24"@ =~= v4_text(3227017984) + seq!['/'] + decimal(24));
    assert(pow2(8) == 256);
    lemma_block_text("192.88.99.0/24"@, 3227017984, 24, 256, addr);
}

proof fn lemma_range_12(addr: u32)
    ensures
        in_block("198.18.0.0/15"@, addr) <==> addr as nat / 131072 == 25353,
{
    vstd::arithmetic::power2::lemma2_to64();
    reveal_strlit("198.18.0.0/15");
    reveal_with_fuel(decimal, 4);
    assert("198.18.0.0/15"@ =~= v4_text(3323068416) + seq!['/'] + decimal(15));
    assert(pow2(17) == 131072);
    lemma_block_text("198.18.0.0/15"@, 3323068416, 15, 131072, addr);
}

proof fn lemma_range_13(addr: u32)
    ensures
        in_block("198.51.100.0/24"@, addr) <==> addr as nat / 256 == 12989284,
{
    vstd::arithmetic::power2::lemma2_to64();
    reveal_strlit("198.51.100.0/24");
    reveal_with_fuel(decimal, 4);
    assert("198.51.100.0/24"@ =~= v4_text(3325256704) + seq!['/'] + decimal(24));
    assert(pow2(8) == 256);
    lemma_block_text("198.51.100.0/24"@, 3325256704, 24, 256, addr);
}

proof fn lemma_range_14(addr: u32)
    ensures
        in_block("203.0.113.0/24"@, addr) <==> addr as nat / 256 == 13303921,
{
    vstd::arithmetic::power2::lemma2_to64();
    reveal_strlit("203.0.113.0/24");
    reveal_with_fuel(decimal, 4);
    assert("203.0.113.0/24"@ =~= v4_text(3405803776) + seq!['/'] + decimal(24));
    assert(pow2(8) == 256);
    lemma_block_text("203.0.113.0/24"@, 3405803776, 24, 256, addr);
}

proof fn lemma_range_15(addr: u32)
    ensures
        in_block("240.0.0.0/4"@, addr) <==> addr as nat / 268435456 == 15,
{
    vstd::arithmetic::power2::lemma2_to64();
    reveal_strlit("240.0.0.0/4");
    reveal_with_fuel(decimal, 4);
    assert("240.0.0.0/4"@ =~= v4_text(4026531840) + seq!['/'] + decimal(4));
    assert(pow2(28) == 268435456);
    lemma_block_text("240.0.0.0/4"@, 4026531840, 4, 268435456, addr);
}

/// The ranges that a sandbox without a policy cannot reach hold exactly the addresses
/// that are not public ones.
pub proof fn law_protected_ranges_are_special(addr: u32)
    ensures
        is_special(addr) <==> exists|i: int|
            0 <= i < PROTECTED_COUNT && in_block(#[trigger] protected_ranges()[i], addr),
{
    let ranges = protected_ranges();
    assert(ranges.len() == PROTECTED_COUNT);
    lemma_range_0(addr);
    assert(ranges[0] == "0.0.0.0/8"@);
    lemma_range_1(addr);
    assert(ranges[1] == "127.0.0.0/8"@);
    lemma_range_2(addr);
    assert(ranges[2] == "10.0.0.0/8"@);
    lemma_range_3(addr);
    assert(ranges[3] == "172.16.0.0/12"@);
    lemma_range_4(addr);
    assert(ranges[4] == "192.168.0.0/16"@);
    lemma_range_5(addr);
    assert(ranges[5] == "169.254.0.0/16"@);
    lemma_range_6(addr);
    assert(ranges[6] == "224.0.0.0/4"@);
    lemma_range_7(addr);
    assert(ranges[7] == "255.255.255.255/32"@);
    lemma_range_8(addr);
    assert(ranges[8] == "100.64.0.0/10"@);
    lemma_range_9(addr);
    assert(ranges[9] == "192.0.0.0/24"@);
    lemma_range_10(addr);
    assert(ranges[10] == "192.0.2.0/24"@);
    lemma_range_11(addr);
    assert(ranges[11] == "192.88.99.0/24"@);
    lemma_range_12(addr);
    assert(ranges[12] == "198.18.0.0/15"@);
    lemma_range_13(addr);
    assert(ranges[13] == "198.51.100.0/24"@);
    lemma_range_14(addr);
    assert(ranges[14] == "203.0.113.0/24"@);
    lemma_range_15(addr);
    assert(ranges[15] == "240.0.0.0/4"@);
    if is_special(addr) {
        assert(exists|i: int| 0 <= i < PROTECTED_COUNT && in_block(#[trigger] ranges[i], addr));
    }
    if exists|i: int| 0 <= i < PROTECTED_COUNT && in_block(#[trigger] ranges[i], addr) {
        let i = choose|i: int| 0 <= i < PROTECTED_COUNT && in_block(#[trigger] ranges[i], addr);
        assert(i == 0 || i == 1 || i == 2 || i == 3 || i == 4 || i == 5 || i == 6 || i == 7 || i == 8 || i == 9 || i
            == 10 || i == 11 || i == 12 || i == 13 || i == 14 || i == 15);
    }
}

/// After set-up without an allow list, a packet that the guest sends to a public
/// address meets a rule that accepts it first, and a packet to any other address meets
/// one that rejects it first; whatever policy the TAP had before.
pub proof fn law_public_addresses_are_reached(
    lease: TapLeaseView,
    port: u16,
    exists_already: bool,
    former: Former,
    rules: Map<Seq<char>, usize>,
    p: Packet,
)
    requires
        former.sound(),
        rules.dom().finite(),
        sent_by_guest(lease, p),
    ensures
        ({
            let table = set_up(lease, port, exists_already, false, former, rules);
            &&& is_special(p.dest) ==> ends_at(table, lease, port, p, "REJECT"@)
            &&& !is_special(p.dest) ==> ends_at(table, lease, port, p, "ACCEPT"@)
        }),
{
    let table = set_up(lease, port, exists_already, false, former, rules);
    let allow = lease.egress_allow;
    lemma_set_up(lease, port, exists_already, false, former, rules);
    lemma_single_block(p.source);
    law_protected_ranges_are_special(p.dest);
    assert forall|k: int| 0 <= k < table.len() implies policy_rules(false, allow, rules).contains(
        #[trigger] table[k],
    ) by {
        assert(table.contains(table[k]));
    }
    assert(table.contains(RuleView::OpenEgress));
    let n = choose|n: int| 0 <= n < table.len() && table[n] == RuleView::OpenEgress;
    lemma_guest_meets(table[n], lease, port, p);
    let k = lemma_first_met(table, lease, port, p, n);
    lemma_guest_meets(table[k], lease, port, p);
    if is_special(p.dest) {
        let i = choose|i: int| 0 <= i < PROTECTED_COUNT && in_block(#[trigger] protected_ranges()[i], p.dest);
        assert(table.contains(RuleView::Protected(i)));
        let m = choose|m: int| 0 <= m < table.len() && table[m] == RuleView::Protected(i);
        lemma_guest_meets(table[m], lease, port, p);
        assert(!(table[k] is OpenEgress)) by {
            if table[k] is OpenEgress {
                if m < k {
                    assert(!meets(words(table[m], lease, port), p));
                } else {
                    assert(comes_first(table[m]));
                }
            }
        }
        assert(option_of(words(table[k], lease, port), "-j"@) == Some("REJECT"@));
    } else {
        match table[k] {
            RuleView::Protected(i) => assert(in_block(protected_ranges()[i], p.dest)),
            _ => {},
        }
        assert(option_of(words(table[k], lease, port), "-j"@) == Some("ACCEPT"@));
    }
}

/// After set-up, what the guest sends to the host itself is dropped, whatever the
/// policy is.
pub proof fn law_host_is_out_of_reach(
    lease: TapLeaseView,
    port: u16,
    exists_already: bool,
    restricted: bool,
    former: Former,
    rules: Map<Seq<char>, usize>,
    p: Packet,
)
    requires
        former.sound(),
        rules.dom().finite(),
        p.chain == "INPUT"@,
        p.input == lease.name,
        lease.guest_ip == v4_text(p.source as nat),
    ensures
        ends_at(set_up(lease, port, exists_already, restricted, former, rules), lease, port, p, "DROP"@),
{
    let table = set_up(lease, port, exists_already, restricted, former, rules);
    lemma_set_up(lease, port, exists_already, restricted, former, rules);
    lemma_single_block(p.source);
    assert(table.contains(RuleView::HostDeny));
    let n = choose|n: int| 0 <= n < table.len() && table[n] == RuleView::HostDeny;
    lemma_other_meets(table[n], lease, port, p);
    let k = lemma_first_met(table, lease, port, p, n);
    lemma_other_meets(table[k], lease, port, p);
    assert(table.contains(table[k]));
    assert(option_of(words(table[k], lease, port), "-j"@) == Some("DROP"@));
}

/// After set-up, what answers the guest reaches it, whatever the policy is.
pub proof fn law_answers_come_back(
    lease: TapLeaseView,
    port: u16,
    exists_already: bool,
    restricted: bool,
    former: Former,
    rules: Map<Seq<char>, usize>,
    p: Packet,
)
    requires
        former.sound(),
        rules.dom().finite(),
        p.chain == "FORWARD"@,
        p.output == lease.name,
        p.input != lease.name,
        p.established,
        lease.guest_ip == v4_text(p.dest as nat),
    ensures
        ends_at(set_up(lease, port, exists_already, restricted, former, rules), lease, port, p, "ACCEPT"@),
{
    let table = set_up(lease, port, exists_already, restricted, former, rules);
    lemma_set_up(lease, port, exists_already, restricted, former, rules);
    lemma_single_block(p.dest);
    assert(table.contains(RuleView::Return));
    let n = choose|n: int| 0 <= n < table.len() && table[n] == RuleView::Return;
    lemma_other_meets(table[n], lease, port, p);
    let k = lemma_first_met(table, lease, port, p, n);
    lemma_other_meets(table[k], lease, port, p);
    assert(option_of(words(table[k], lease, port), "-j"@) == Some("ACCEPT"@));
}

/// What is forwarded to the guest and answers nothing, or what comes in by another
/// device, meets no rule of the TAP.
pub proof fn law_others_meet_no_rule(rule: RuleView, lease: TapLeaseView, port: u16, p: Packet)
    requires
        p.input != lease.name,
        p.chain == "FORWARD"@ || p.chain == "INPUT"@,
        p.output != lease.name || !p.established,
    ensures
        !meets(words(rule, lease, port), p),
{
    lemma_other_meets(rule, lease, port, p);
}

/// The way to the credential gateway is open to the guest's connections to its port on
/// the host's address, and to nothing else.
pub proof fn law_gateway_opens_one_port(lease: TapLeaseView, port: u16, p: Packet, host: u32)
    requires
        p.chain == "INPUT"@,
        p.input == lease.name,
        lease.guest_ip == v4_text(p.source as nat),
        in_block(lease.host_ip, host),
        forall|a: u32| #[trigger] in_block(lease.host_ip, a) ==> a == host,
    ensures
        ({
            let argv = words(RuleView::CredentialGateway, lease, port);
            &&& p.tcp_port == Some(port as nat) && p.dest == host ==> meets(argv, p)
            &&& meets(argv, p) ==> p.tcp_port == Some(port as nat) && p.dest == host
            &&& option_of(argv, "-j"@) == Some("ACCEPT"@)
        }),
{
    lemma_single_block(p.source);
    lemma_options();
    reveal_with_fuel(option_from, 10);
    let argv = words(RuleView::CredentialGateway, lease, port);
    assert(action_at(argv) == 0);
    assert(option_of(argv, "-s"@) == Some(lease.guest_block()));
    assert(option_of(argv, "-d"@) == Some(lease.host_ip));
    assert(option_of(argv, "--dport"@) == Some(decimal(port as nat)));
    if meets(argv, p) {
        let most = port as nat + p.tcp_port->0;
        law_decimal_reads_back(port as nat, most);
        law_decimal_reads_back(p.tcp_port->0, most);
    }
}

/// Which rules a packet can meet that the guest did not send to be forwarded.
proof fn lemma_other_meets(rule: RuleView, lease: TapLeaseView, port: u16, p: Packet)
    ensures
        ({
            let argv = words(rule, lease, port);
            &&& p.chain == "INPUT"@ && p.input == lease.name && in_block(lease.guest_block(), p.source) ==> {
                &&& rule is HostDeny ==> meets(argv, p)
                &&& meets(argv, p) ==> rule is HostDeny || rule is CredentialGateway
            }
            &&& p.chain == "FORWARD"@ && p.input != lease.name ==> (meets(argv, p) ==> rule is Return)
            &&& p.chain == "INPUT"@ && p.input != lease.name ==> !meets(argv, p)
            &&& p.chain == "FORWARD"@ && rule is Return ==> (meets(argv, p) <==> p.output == lease.name
                && p.established && in_block(lease.guest_block(), p.dest))
            &&& rule is HostDeny ==> option_of(argv, "-j"@) == Some("DROP"@)
            &&& rule is Return ==> option_of(argv, "-j"@) == Some("ACCEPT"@)
        }),
{
    lemma_options();
    reveal_with_fuel(option_from, 10);
    let argv = words(rule, lease, port);
    match rule {
        RuleView::Masq => assert(argv[3] == "POSTROUTING"@ || argv[1] == "POSTROUTING"@),
        RuleView::Return => {
            assert(action_at(argv) == 0);
            assert(option_of(argv, "-o"@) == Some(lease.name));
            assert(option_of(argv, "-d"@) == Some(lease.guest_block()));
            assert(option_of(argv, "-i"@) is None);
            assert(option_of(argv, "-s"@) is None);
            assert(option_of(argv, "--dport"@) is None);
            assert(option_of(argv, "--ctstate"@) is Some);
        },
        _ => {
            assert(action_at(argv) == 0);
            assert(option_of(argv, "-i"@) == Some(lease.name));
        },
    }
}

} // verus!
