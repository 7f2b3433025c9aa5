//! Host networking.
use std::collections::BTreeSet;
use vmond::json::Json;
use vmond::net::addr::{parse_ip, render_v4, render_v6, IpAddr};
use vmond::net::allocator::{tap_name, LeaseAllocator, LeaseEntry};
use vmond::net::cidr::{
    ip_allowed, ipv4_contains, ipv4_mask, ipv4_network, ipv6_network, parse_cidr_allowlist, CidrNet,
};
use vmond::net::fill::{distinct_texts, reserve_slots, slot_batches, slot_policy_blocks, v4_addresses};
use vmond::net::host::{
    allocate_guest_config, allocate_guest_config_with_dns, configure_broker_socket, default_dns, has_net_admin,
    asks_for_policy, lease_for, release_guest_config, settle_setup, setup_tap, teardown_tap, BrokerRequest, HostNetwork,
    SetupTap,
};
use vmond::net::journal::{coalesce, load_leases, parse_leases, write_leases, JournalMsg};
use vmond::net::lease::{GuestConfig, GuestNetworkConfig, TapLease};
use vmond::net::plan::{
    clean_domains, guard_step, iptables_command, link_plan, policy_plan, protected_v4_ranges, render_rule,
    set_address_command, teardown_plan, TapOp, TapRule,
};
use vmond::net::refresh::{
    add_resolved, number_addresses, purge_steps, stop_steps, DomainRefresher, RefreshStep, RefreshTarget,
};
use vmond::net::rules::{
    credential_gateway_rule, deny_egress_rule, domain_rule, egress_cidr_rule, host_deny_rule, iptables_check_form,
    masq_rule, protected_deny_rule, return_rule, unrestricted_egress_rule, IptablesAction,
};
use vmond::net::sandbox::{dns_addresses, tunnel_plan, NetworkTeardown, SandboxNetwork, SandboxSetup, SetupStep};
use vmond::net::slots::{SlotPool, SlotSpec};
use vmond::net::status::{grants_net_admin, parse_proc_net_dev};
use vmond::net::vpc::{vpc_bridge_name, vpc_config, VpcSetup, VpcStep};
use vmond::textmap::{set_of, TextMap};

fn text(items: &[&str]) -> Vec<String> {
    items.iter().map(|s| s.to_string()).collect()
}

fn same(a: &GuestConfig, b: &GuestConfig) -> bool {
    a.tap == b.tap
        && a.host_ip == b.host_ip
        && a.guest_ip == b.guest_ip
        && a.prefix == b.prefix
        && a.network == b.network
        && a.dns == b.dns
}

fn slot(index: u32) -> SlotSpec {
    let base = 0xac14_0000 + index * 4;
    SlotSpec {
        index,
        name: format!("vslot{index}"),
        guest_ip: render_v4(base + 2),
        host_ip: render_v4(base + 1),
        prefix: 30,
    }
}

fn host(slots: Vec<SlotSpec>) -> HostNetwork {
    HostNetwork::new(SlotPool::install(slots), LeaseAllocator::load(TextMap::new()), None)
}

#[test]
fn slot_claim_recycle_reuses_tap_without_broker_requests() {
    let mut host = host(vec![slot(0)]);
    let mut kinds: Vec<&str> = Vec::new();

    let config = allocate_guest_config(&mut host, "vmon-nettest-slot-a").unwrap();
    assert_eq!(config.tap, "vslot0");
    let asked =
        setup_tap(&host, &config.tap, &config.guest_ip, &config.host_ip, config.prefix, None, None, None).unwrap();
    assert!(matches!(asked, SetupTap::Ready(_)));
    let lease = settle_setup(&mut host, &config.tap, asked, Ok(None)).unwrap();
    assert_eq!(lease.name, config.tap);
    assert_eq!(lease_for(&host, "vmon-nettest-slot-a").unwrap().tap, config.tap);
    assert!(teardown_tap(&mut host, &config.tap, Some(&config.guest_ip), Some(&config.host_ip), 30, None, None).is_none());
    let (request, changed) = release_guest_config(&mut host, "vmon-nettest-slot-a");
    assert!(request.is_none() && !changed);

    let reused = allocate_guest_config(&mut host, "vmon-nettest-slot-b").unwrap();
    assert_eq!(reused.tap, config.tap);
    assert_eq!(reused.guest_ip, config.guest_ip);
    assert_eq!(reused.host_ip, config.host_ip);

    let allow = text(&["203.0.113.0/24"]);
    let asked = setup_tap(
        &host,
        &reused.tap,
        &reused.guest_ip,
        &reused.host_ip,
        reused.prefix,
        Some(&allow),
        None,
        None,
    )
    .unwrap();
    match &asked {
        SetupTap::AskForSlot(BrokerRequest::ClaimSlot { already_custom, egress_allow, .. }, _) => {
            assert!(!already_custom);
            assert_eq!(*egress_allow, allow);
            kinds.push("claim");
        },
        _ => panic!("a policy of its own is asked for"),
    }
    settle_setup(&mut host, &reused.tap, asked, Ok(None)).unwrap();
    match teardown_tap(&mut host, &reused.tap, Some(&reused.guest_ip), Some(&reused.host_ip), 30, Some(&allow), None) {
        Some(BrokerRequest::RecycleSlot { slot }) => {
            assert_eq!(slot.name, reused.tap);
            kinds.push("recycle");
        },
        _ => panic!("the slot is recycled"),
    }
    let (request, changed) = release_guest_config(&mut host, "vmon-nettest-slot-b");
    assert!(request.is_none() && !changed);
    assert_eq!(kinds, vec!["claim", "recycle"]);
}

#[test]
fn block_network_path_leaves_net_state_untouched() {
    let host = host(vec![slot(0)]);
    let free_before = host.free_slots();
    assert!(lease_for(&host, "vmon-nettest-blocked").is_none());
    assert_eq!(host.free_slots(), free_before);
}

#[test]
fn in_memory_allocator_survives_journal_reload() {
    let dns = default_dns();
    let mut store = LeaseAllocator::load(TextMap::new());
    let (alpha, _) = store.allocate("alpha", &dns, None).unwrap();
    let (beta, _) = store.allocate("beta", &dns, None).unwrap();
    let (again, dirty) = store.allocate("alpha", &dns, None).unwrap();
    assert!(!dirty);
    assert!(same(&again, &alpha));
    assert!(store.release("beta"));
    assert!(!store.release("beta"));

    let journal = write_leases(store.leases());
    assert_eq!(parse_leases(&journal).unwrap().len(), 1);
    let written = Json::Object(journal).render();
    let mut reloaded = LeaseAllocator::load(load_leases(Some(written.as_str())).ok().unwrap());
    assert_eq!(load_leases(None).ok().unwrap().len(), 0);
    assert_eq!(load_leases(Some(" \n")).ok().unwrap().len(), 0);
    assert_eq!(load_leases(Some("[]")).err().unwrap().message, "the network journal is not an object");
    assert_eq!(
        load_leases(Some(r#"{"a":{"network":7}}"#)).err().unwrap().message,
        "a lease of the network journal cannot be read"
    );
    assert!(load_leases(Some("{")).is_err());
    assert!(reloaded.leases().contains_key("alpha"));
    assert!(!reloaded.leases().contains_key("beta"));

    let (alpha_again, dirty) = reloaded.allocate("alpha", &dns, None).unwrap();
    assert!(!dirty);
    assert!(same(&alpha_again, &alpha));

    let (gamma, dirty) = reloaded.allocate("gamma", &dns, None).unwrap();
    assert!(dirty);
    assert_eq!(gamma.network, beta.network);
}

#[test]
fn lease_allocation_persistence_release_roundtrip() {
    let dns = default_dns();
    let mut store = LeaseAllocator::load(TextMap::new());
    let (first, _) = store.allocate("alpha", &dns, None).unwrap();
    assert_eq!(first.network, "172.20.0.0/30");
    assert_eq!(first.host_ip, "172.20.0.1");
    assert_eq!(first.guest_ip, "172.20.0.2");
    assert_eq!(first.prefix, 30);
    assert_eq!(first.tap, tap_name("alpha"));

    let (second, _) = store.allocate("beta", &dns, None).unwrap();
    assert_eq!(second.network, "172.20.0.4/30");
    assert!(same(&store.allocate("alpha", &dns, None).unwrap().0, &first));
    assert!(same(&store.lease_for("alpha", &dns).unwrap(), &first));

    let journal = write_leases(store.leases());
    let alpha = journal.get("alpha").unwrap().as_object().unwrap();
    assert_eq!(alpha.text_at("network").unwrap(), "172.20.0.0/30");
    assert_eq!(alpha.text_at("tap").unwrap(), tap_name("alpha"));

    assert!(store.release("alpha"));
    assert!(store.lease_for("alpha", &dns).is_none());
    let (reused, _) = store.allocate("gamma", &dns, None).unwrap();
    assert_eq!(reused.network, "172.20.0.0/30");
    assert!(same(&store.lease_for("beta", &dns).unwrap(), &second));
}

#[test]
fn tap_name_derivation_matches_python() {
    assert_eq!(tap_name("sandbox"), "tv9ed037b849");
    assert_eq!(tap_name("vm-1"), "tv764646a060");
}

#[test]
fn cidr_allowlist_matches_boundaries() {
    let cidrs = text(&["192.168.1.0/24", "10.0.0.5/32", "2001:db8::/126"]);
    let nets = parse_cidr_allowlist(Some(&cidrs)).unwrap();
    assert!(ip_allowed(parse_ip("192.168.1.0").unwrap(), &nets));
    assert!(ip_allowed(parse_ip("192.168.1.255").unwrap(), &nets));
    assert!(!ip_allowed(parse_ip("192.168.2.0").unwrap(), &nets));
    assert!(ip_allowed(parse_ip("10.0.0.5").unwrap(), &nets));
    assert!(!ip_allowed(parse_ip("10.0.0.6").unwrap(), &nets));
    assert!(ip_allowed(parse_ip("2001:db8::3").unwrap(), &nets));
    assert!(!ip_allowed(parse_ip("2001:db8::4").unwrap(), &nets));

    let default = parse_cidr_allowlist(None).unwrap();
    assert!(ip_allowed(parse_ip("127.255.255.255").unwrap(), &default));
    assert!(!ip_allowed(parse_ip("128.0.0.1").unwrap(), &default));
}

#[test]
fn iptables_rule_argv_is_symmetric() {
    let allow = text(&["0.0.0.0/0"]);
    let lease = TapLease::new("tvabc123", "172.20.0.2", "172.20.0.1", 30, Some(&allow)).unwrap();

    let masq_add = masq_rule(IptablesAction::Append, &lease);
    assert_eq!(
        masq_add,
        vec![
            "-t",
            "nat",
            "-A",
            "POSTROUTING",
            "-s",
            "172.20.0.0/30",
            "!",
            "-d",
            "172.20.0.0/30",
            "-m",
            "comment",
            "--comment",
            "vmon:tvabc123:masq",
            "-j",
            "MASQUERADE",
        ]
    );
    let mut masq_delete = masq_add.clone();
    masq_delete[2] = "-D".to_owned();
    assert_eq!(masq_rule(IptablesAction::Delete, &lease), masq_delete);

    let mut return_delete = return_rule(IptablesAction::Append, &lease);
    return_delete[0] = "-D".to_owned();
    assert_eq!(return_rule(IptablesAction::Delete, &lease), return_delete);

    let mut unrestricted_delete = unrestricted_egress_rule(IptablesAction::Append, &lease);
    unrestricted_delete[0] = "-D".to_owned();
    assert_eq!(unrestricted_egress_rule(IptablesAction::Delete, &lease), unrestricted_delete);

    let mut cidr_delete =
        egress_cidr_rule(IptablesAction::Append, &lease.name, &lease.guest_cidr(), "0.0.0.0/0", 0);
    cidr_delete[0] = "-D".to_owned();
    assert_eq!(
        egress_cidr_rule(IptablesAction::Delete, &lease.name, &lease.guest_cidr(), "0.0.0.0/0", 0),
        cidr_delete
    );

    let mut deny_delete = deny_egress_rule(IptablesAction::Append, &lease);
    deny_delete[0] = "-D".to_owned();
    assert_eq!(deny_egress_rule(IptablesAction::Delete, &lease), deny_delete);

    let check = iptables_check_form(&masq_add).unwrap();
    let mut expected_check = masq_add;
    expected_check[2] = "-C".to_owned();
    assert_eq!(check, expected_check);

    let domain_insert =
        domain_rule(IptablesAction::Insert, &lease.name, &lease.guest_cidr(), "203.0.113.9", 0);
    assert_eq!(domain_insert[0], "-I");
    assert_eq!(iptables_check_form(&domain_insert).unwrap()[0], "-C");
    let mut domain_delete = domain_insert;
    domain_delete[0] = "-D".to_owned();
    assert_eq!(
        domain_rule(IptablesAction::Delete, &lease.name, &lease.guest_cidr(), "203.0.113.9", 0),
        domain_delete
    );
}

#[test]
fn test_domain_refresher_rule_indexing_state() {
    let mut rules: TextMap<usize> = TextMap::new();
    rules.insert("1.1.1.1".to_owned(), 0);
    rules.insert("8.8.8.8".to_owned(), 1);
    let refresher = DomainRefresher::new(rules, 2);
    assert_eq!(refresher.index_of("1.1.1.1"), Some(0));
    assert_eq!(refresher.index_of("8.8.8.8"), Some(1));
    assert_eq!(refresher.next_index(), 2);

    let stopped = refresher.stop();
    assert_eq!(stopped.get("1.1.1.1"), Some(&0));
    assert_eq!(stopped.get("8.8.8.8"), Some(&1));
}

#[test]
fn test_protected_deny_rule_argv() {
    let rule = protected_deny_rule(IptablesAction::Append, "test-sb", "10.0.2.15/32", "127.0.0.0/8", 3);
    assert_eq!(
        rule,
        text(&[
            "-A",
            "FORWARD",
            "-i",
            "test-sb",
            "-s",
            "10.0.2.15/32",
            "-d",
            "127.0.0.0/8",
            "-m",
            "comment",
            "--comment",
            "vmon:test-sb:deny-range-3",
            "-j",
            "REJECT",
        ])
    );
}

#[test]
fn test_domain_rule_argv() {
    let rule = domain_rule(IptablesAction::Insert, "test-sb", "10.0.2.15/32", "1.1.1.1", 5);
    assert_eq!(
        rule,
        text(&[
            "-I",
            "FORWARD",
            "-i",
            "test-sb",
            "-s",
            "10.0.2.15/32",
            "-d",
            "1.1.1.1/32",
            "-m",
            "comment",
            "--comment",
            "vmon:test-sb:domain-5",
            "-j",
            "ACCEPT",
        ])
    );
}

#[test]
fn proc_net_dev_parser_skips_loopback_and_malformed_rows() {
    let counters = parse_proc_net_dev(
        "Inter-|   Receive                                                |  Transmit\nface \
         |bytes packets errs drop fifo frame compressed multicast|bytes packets errs drop fifo \
         colls carrier compressed\nlo: 999 0 0 0 0 0 0 0 999 0 0 0 0 0 0 0\neth0: \
         18446744073709551615 0 0 0 0 0 0 0 7 0 0 0 0 0 0 0\nmalformed: 3 0 0\nwlan0: 1 0 0 0 0 \
         0 0 0 18446744073709551615 0 0 0 0 0 0 0\nbad-value: x 0 0 0 0 0 0 0 3 0 0 0 0 0 0 0\n",
    );
    assert_eq!(counters, (u64::MAX, u64::MAX));
}

#[test]
fn vpc_setup_uses_isolated_bridge_seam() {
    let mut calls: Vec<String> = Vec::new();
    let mut setup = VpcSetup::new("sandbox", "vpc-1234abcd", "10.88.0.2", "10.88.0.1", 24).unwrap();
    while setup.step() != VpcStep::Done {
        match setup.step() {
            VpcStep::EnsureBridge => {
                let address = setup.address_command();
                assert_eq!(address[5], setup.bridge());
                calls.push(format!("bridge:{}:{}", setup.bridge(), address[3]));
            },
            VpcStep::AttachTap => calls.push(format!("attach:{}:{}", setup.bridge(), setup.tap())),
            VpcStep::OpenTunnels => {
                assert!(tunnel_plan("10.88.0.2", &Vec::new(), None).is_ok());
            },
            _ => panic!("nothing is undone"),
        }
        setup.resume(None);
    }
    let network = setup.into_network().ok().unwrap();
    assert_eq!(network.config.network, "10.88.0.0/24");
    assert_eq!((network.tap.network.as_str(), network.tap.host_ip.as_str()), ("vpc-1234abcd", "10.88.0.1"));
    assert_eq!(network.guest_config.guest_ip, "10.88.0.2");
    assert_eq!(network.vpc_bridge.as_deref(), Some("vmonbr-1234abcd"));
    assert_eq!(
        calls,
        vec![
            "bridge:vmonbr-1234abcd:10.88.0.1/24".to_owned(),
            format!("attach:vmonbr-1234abcd:{}", tap_name("sandbox")),
        ]
    );
}

#[test]
fn addresses_are_read_and_written() {
    let v4: [(&str, u32); 3] = [
        ("0.0.0.0", 0x0),
        ("255.255.255.255", 0xffffffff),
        ("127.0.0.1", 0x7f000001),
    ];
    for (text, number) in v4 {
        assert_eq!(parse_ip(text).unwrap(), IpAddr::V4(number));
        assert_eq!(render_v4(number), text);
    }
    let v6: [(&str, u128, &str); 15] = [
        ("::", 0x0, "::"),
        ("::1", 0x1, "::1"),
        ("1::", 0x10000000000000000000000000000, "1::"),
        ("2001:db8::1", 0x20010db8000000000000000000000001, "2001:db8::1"),
        ("2001:0:0:1::1", 0x20010000000000010000000000000001, "2001:0:0:1::1"),
        ("1:2:3:4:5:6:7:8", 0x10002000300040005000600070008, "1:2:3:4:5:6:7:8"),
        ("::ffff:1.2.3.4", 0xffff01020304, "::ffff:1.2.3.4"),
        ("::1.2.3.4", 0x1020304, "::102:304"),
        ("64:ff9b::192.0.2.33", 0x64ff9b0000000000000000c0000221, "64:ff9b::c000:221"),
        ("fe80::1:0:0:1", 0xfe800000000000000001000000000001, "fe80::1:0:0:1"),
        ("1:0:0:2:0:0:0:3", 0x10000000000020000000000000003, "1:0:0:2::3"),
        ("1:2:3:4:5:6:1.2.3.4", 0x10002000300040005000601020304, "1:2:3:4:5:6:102:304"),
        ("1:2:3:4:5:6:7::", 0x10002000300040005000600070000, "1:2:3:4:5:6:7:0"),
        ("ABCD::EF01", 0xabcd000000000000000000000000ef01, "abcd::ef01"),
        ("0:0:1::", 0x100000000000000000000, "0:0:1::"),
    ];
    for (text, number, written) in v6 {
        assert_eq!(parse_ip(text).unwrap(), IpAddr::V6(number));
        assert_eq!(render_v6(number), written);
    }
    let refused = [
        "01.2.3.4",
        "1.2.3",
        "1.2.3.256",
        "+1.2.3.4",
        "1::2::3",
        ":::",
        ":",
        "",
        "12345::",
        "1:2:3:4:5:6:7",
        "1:2:3:4:5:6:7:8:9",
        "1.2.3.4::",
        "::1.2.3.4:5",
        "1:2:3:4:5:6:7:8::",
        "g::",
        " 1.2.3.4",
        "1.2.3.4.",
        "::1%lo",
    ];
    for text in refused {
        assert_eq!(parse_ip(text).unwrap_err().message, format!("invalid IP address {text}"));
    }
}

#[test]
fn blocks_are_read_normalized_and_refused() {
    assert_eq!(CidrNet::parse(" 10.1.2.3/8 ").unwrap().render(), "10.0.0.0/8");
    assert_eq!(CidrNet::parse("10.1.2.3").unwrap().render(), "10.1.2.3/32");
    assert_eq!(CidrNet::parse("2001:db8:ffff::1/33").unwrap().render(), "2001:db8:8000::/33");
    assert_eq!(CidrNet::parse("::1/0").unwrap().render(), "::/0");
    assert_eq!(CidrNet::parse("  ").unwrap_err().message, "empty CIDR");
    assert_eq!(CidrNet::parse("10.0.0.0/33").unwrap_err().message, "invalid CIDR prefix 33");
    assert_eq!(CidrNet::parse("10.0.0.0/x").unwrap_err().message, "invalid CIDR prefix x");
    assert_eq!(CidrNet::parse("nope/8").unwrap_err().message, "invalid IP address nope");
    assert_eq!(ipv4_mask(0), 0);
    assert_eq!(ipv4_mask(30), 0xffff_fffc);
    assert_eq!(ipv4_mask(32), u32::MAX);
    assert_eq!(ipv4_network(0x0a01_0203, 16).unwrap(), 0x0a01_0000);
    assert_eq!(ipv4_network(1, 33).unwrap_err().message, "invalid IPv4 prefix 33");
    assert_eq!(ipv6_network(1, 129).unwrap_err().message, "invalid IPv6 prefix 129");
    assert_eq!(ipv6_network(u128::MAX, 1).unwrap(), 1 << 127);
    assert!(ipv4_contains(0x0a01_0000, 16, 0x0a01_ffff));
    assert!(!ipv4_contains(0x0a01_0000, 16, 0x0a02_0000));
}

#[test]
fn tap_leases_are_checked_in_order() {
    let fail = |name: &str, guest: &str, host: &str, prefix: u8| {
        TapLease::new(name, guest, host, prefix, None).unwrap_err().message
    };
    let long = "0123456789abcdef";
    assert_eq!(fail("", "172.20.0.2", "172.20.0.1", 30), "tap name must be non-empty and shorter than 16 bytes");
    assert_eq!(fail(long, "172.20.0.2", "172.20.0.1", 30), "tap name must be non-empty and shorter than 16 bytes");
    assert_eq!(fail("t", "::1", "172.20.0.1", 30), "sandbox TAP networking supports IPv4 only");
    assert_eq!(fail("t", "172.20.0.2", "x", 30), "invalid IP address x");
    assert_eq!(fail("t", "172.20.0.2", "172.20.0.1", 29), "sandbox TAP networking requires a /30 prefix");
    assert_eq!(
        fail("t", "172.20.0.6", "172.20.0.1", 30),
        "172.20.0.6 and 172.20.0.1 are not both in 172.20.0.0/30"
    );
    assert_eq!(fail("t", "10.0.0.2", "10.0.0.1", 30), "sandbox TAP network must be inside 172.20.0.0/16");
    assert_eq!(
        fail("t", "172.20.0.1", "172.20.0.2", 30),
        "sandbox TAP addresses must use network+1 for host and network+2 for guest"
    );
    let bad = text(&["10.0.0.0/8", "nope"]);
    assert_eq!(
        TapLease::new("t", "172.20.0.2", "172.20.0.1", 30, Some(&bad)).unwrap_err().message,
        "invalid IP address nope"
    );
    let allow = text(&["10.1.2.3/8", "2001:DB8::/32"]);
    let lease = TapLease::new("t", "172.20.0.2", "172.20.0.1", 30, Some(&allow)).unwrap();
    assert_eq!(lease.egress_allow, text(&["10.0.0.0/8", "2001:db8::/32"]));
    assert_eq!(lease.guest_cidr(), "172.20.0.2/32");
    assert_eq!(lease.host_cidr(), "172.20.0.1/30");
    assert_eq!(lease.network, "172.20.0.0/30");
}

#[test]
fn an_allocated_network_makes_a_lease() {
    let dns = text(&["9.9.9.9"]);
    let mut store = LeaseAllocator::load(TextMap::new());
    for i in 0..5 {
        let (config, _) = store.allocate(&format!("sandbox-{i}"), &dns, None).unwrap();
        let lease = TapLease::new(&config.tap, &config.guest_ip, &config.host_ip, config.prefix, None).unwrap();
        assert_eq!(lease.network, config.network);
        assert_eq!(config.dns, dns);
        let told = GuestNetworkConfig::of_config(&config);
        assert_eq!((told.tap, told.guest_ip, told.host_ip), (config.tap, config.guest_ip, config.host_ip));
    }
}

#[test]
fn the_pool_of_networks_runs_out() {
    let dns = default_dns();
    let mut leases: TextMap<LeaseEntry> = TextMap::new();
    for i in 0..16384u32 {
        if i == 77 {
            continue;
        }
        let network = format!("{}/30", render_v4(0xac14_0000 + i * 4));
        leases.insert(format!("{i:05}"), LeaseEntry { network, tap: None });
    }
    let mut store = LeaseAllocator::load(leases);
    let (last, _) = store.allocate("last", &dns, None).unwrap();
    assert_eq!(last.network, format!("{}/30", render_v4(0xac14_0000 + 77 * 4)));
    let refused = store.allocate("more", &dns, None).unwrap_err();
    assert_eq!(refused.message, "no free /30 networks left in 172.20.0.0/16");
    let (kept, changed) = store.allocate("00000", &dns, None).unwrap();
    assert!(!changed);
    assert_eq!(kept.tap, tap_name("00000"));
}

#[test]
fn kept_leases_that_stand_for_nothing_are_told() {
    let dns = default_dns();
    let mut leases: TextMap<LeaseEntry> = TextMap::new();
    leases.insert("six".to_owned(), LeaseEntry { network: "::/64".to_owned(), tap: None });
    leases.insert("junk".to_owned(), LeaseEntry { network: "junk".to_owned(), tap: None });
    leases.insert("top".to_owned(), LeaseEntry { network: "255.255.255.255/32".to_owned(), tap: None });
    let mut store = LeaseAllocator::load(leases);
    assert!(!store.is_addressable("top"));
    assert!(store.is_addressable("six"));
    assert_eq!(
        store.allocate("six", &dns, None).unwrap_err().message,
        "sandbox TAP networking supports IPv4 only"
    );
    assert_eq!(store.allocate("junk", &dns, None).unwrap_err().message, "invalid IP address junk");
    assert!(store.lease_for("junk", &dns).is_none());
}

#[test]
fn journals_with_anything_else_in_them_are_refused() {
    let mut journal = vmond::json::JsonMap::new();
    journal.insert("a".to_owned(), Json::Str("not an entry".to_owned()));
    assert!(parse_leases(&journal).is_none());
    let mut entry = vmond::json::JsonMap::new();
    entry.insert("network".to_owned(), Json::Str("172.20.0.8/30".to_owned()));
    entry.insert("tap".to_owned(), Json::Null);
    let mut journal = vmond::json::JsonMap::new();
    journal.insert("a".to_owned(), Json::Object(entry));
    let leases = parse_leases(&journal).unwrap();
    assert_eq!(leases.get("a").unwrap().network, "172.20.0.8/30");
    assert!(leases.get("a").unwrap().tap.is_none());
}

#[test]
fn waiting_journal_messages_are_coalesced() {
    let messages = vec![
        JournalMsg::Persist("one".to_owned()),
        JournalMsg::Flush(1),
        JournalMsg::Persist("two".to_owned()),
        JournalMsg::Flush(2),
    ];
    assert_eq!(coalesce(&messages), (Some("two".to_owned()), vec![1, 2]));
    assert_eq!(coalesce(&vec![JournalMsg::Flush(7)]), (None, vec![7]));
}

#[test]
fn plans_keep_the_refusal_until_the_end() {
    let lease = TapLease::new("tv1", "172.20.0.2", "172.20.0.1", 30, None).unwrap();
    let none: TextMap<usize> = TextMap::new();
    let plan = policy_plan(&lease, false, &none, &text(&["10.0.0.0/8"]), &none);
    let deletes_deny = |op: &TapOp| matches!(op, TapOp::Delete(TapRule::DenyEgress));
    assert!(deletes_deny(plan.last().unwrap()));
    assert_eq!(plan.iter().filter(|op| deletes_deny(op)).count(), 1);
    assert!(matches!(guard_step(), TapOp::Ensure(IptablesAction::Append, TapRule::DenyEgress)));
    let open = plan
        .iter()
        .position(|op| matches!(op, TapOp::Ensure(_, TapRule::OpenEgress)))
        .unwrap();
    let fences = plan[..open].iter().filter(|op| matches!(op, TapOp::Ensure(_, TapRule::Protected(_)))).count();
    assert_eq!(fences, protected_v4_ranges().len());
    assert_eq!(protected_v4_ranges().len(), 16);

    let allow = text(&["203.0.113.0/24"]);
    let lease = TapLease::new("tv1", "172.20.0.2", "172.20.0.1", 30, Some(&allow)).unwrap();
    let (rules, next) = number_addresses(&text(&["9.9.9.9", "1.1.1.1", "9.9.9.9"]));
    assert_eq!((rules.get("9.9.9.9"), rules.get("1.1.1.1"), next), (Some(&0), Some(&1), 2));
    let plan = policy_plan(&lease, true, &none, &Vec::new(), &rules);
    assert!(!plan.iter().any(deletes_deny));
    let teardown = teardown_plan(&lease, &rules);
    for op in link_plan(false).iter().chain(plan.iter()).chain([&guard_step()]) {
        if let TapOp::Ensure(_, rule) = op {
            let wanted = render_rule(rule, IptablesAction::Delete, &lease, 9000);
            assert!(teardown.iter().any(
                |t| matches!(t, TapOp::Delete(r) if render_rule(r, IptablesAction::Delete, &lease, 9000) == wanted)
            ));
        }
    }
    assert_eq!(link_plan(true).len() + 1, link_plan(false).len());
    assert_eq!(iptables_command(&text(&["-L"])), text(&["iptables", "-w", "5", "-L"]));
    assert_eq!(
        set_address_command(&lease),
        text(&["ip", "addr", "replace", "172.20.0.1/30", "dev", "tv1"])
    );
}

/// The rules in place after the steps of plans.
fn apply(rules: &mut BTreeSet<String>, ops: Vec<TapOp>) {
    for op in ops {
        match op {
            TapOp::Ensure(_, rule) => {
                rules.insert(format!("{rule:?}"));
            },
            TapOp::Delete(rule) => {
                rules.remove(&format!("{rule:?}"));
            },
            _ => {},
        }
    }
}

#[test]
fn a_policy_takes_the_place_of_another() {
    let lease = |allow: &[&str]| TapLease::new("tv1", "172.20.0.2", "172.20.0.1", 30, Some(&text(allow))).unwrap();
    let none: TextMap<usize> = TextMap::new();
    let set_up = |rules: &mut BTreeSet<String>, allow: &[&str], previous: &[&str], prior, domains| {
        apply(rules, link_plan(true));
        apply(rules, vec![guard_step()]);
        apply(rules, policy_plan(&lease(allow), !allow.is_empty(), prior, &text(previous), domains));
    };
    let (first, _) = number_addresses(&text(&["9.9.9.9", "1.1.1.1"]));
    let (second, _) = number_addresses(&text(&["1.1.1.1"]));
    let mut fresh = BTreeSet::new();
    set_up(&mut fresh, &["10.1.0.0/16", "10.2.0.0/16"], &[], &none, &second);
    let mut replaced = BTreeSet::new();
    set_up(&mut replaced, &["10.2.0.0/16"], &[], &none, &first);
    replaced.insert(format!("{:?}", TapRule::CredentialGateway));
    assert_ne!(replaced, fresh);
    set_up(&mut replaced, &["10.1.0.0/16", "10.2.0.0/16"], &["10.2.0.0/16"], &first, &second);
    assert_eq!(replaced, fresh);
    set_up(&mut replaced, &[], &["10.1.0.0/16", "10.2.0.0/16"], &second, &none);
    let mut open = BTreeSet::new();
    set_up(&mut open, &[], &[], &none, &none);
    assert_eq!(replaced, open);
    set_up(&mut open, &["10.1.0.0/16", "10.2.0.0/16"], &[], &none, &second);
    assert_eq!(open, fresh);
}

#[test]
fn gateway_and_host_rules_name_the_guest() {
    let lease = TapLease::new("tv1", "172.20.0.2", "172.20.0.1", 30, None).unwrap();
    let gateway = credential_gateway_rule(IptablesAction::Insert, &lease, 7777);
    assert_eq!(gateway[10], "--dport");
    assert_eq!(gateway[11], "7777");
    assert_eq!(gateway[15], "vmon:tv1:credential-gateway");
    let deny = host_deny_rule(IptablesAction::Insert, &lease);
    assert_eq!(deny[1], "INPUT");
    assert_eq!(deny[deny.len() - 1], "DROP");
    let error = iptables_check_form(&text(&["-L", "x"])).unwrap_err();
    assert_eq!(error.message, "iptables rule missing -A/-D/-I: -L x");
}

#[test]
fn domains_are_cleaned_and_their_rules_kept_up() {
    assert_eq!(clean_domains(Some(&text(&[" a.b ", "", "  ", "c"]))), text(&["a.b", "c"]));
    assert!(clean_domains(None).is_empty());

    let (rules, next) = number_addresses(&text(&["1.1.1.1", "2.2.2.2"]));
    let mut refresher = DomainRefresher::new(rules, next);
    let (adds, drops) = refresher.compare(&set_of(&text(&["2.2.2.2", "4.4.4.4", "3.3.3.3"])));
    assert_eq!(adds, text(&["3.3.3.3", "4.4.4.4"]));
    assert_eq!(drops, text(&["1.1.1.1"]));
    refresher.settle(&adds, &vec![true, false], &drops, &vec![true]);
    assert_eq!(refresher.index_of("3.3.3.3"), Some(2));
    assert_eq!(refresher.index_of("4.4.4.4"), None);
    assert_eq!(refresher.index_of("1.1.1.1"), None);
    assert_eq!(refresher.next_index(), 4);
    let purged = refresher.fail_closed();
    assert_eq!(purged.len(), 2);
    assert_eq!(refresher.index_of("2.2.2.2"), None);

    let mut seen: TextMap<usize> = TextMap::new();
    assert!(purge_steps(&seen, &RefreshTarget::NftSet { set: "s".to_owned() }).is_empty());
    seen.insert("5.5.5.5".to_owned(), 3);
    add_resolved(&mut seen, &text(&["5.5.5.5", "6.6.6.6"]));
    assert_eq!((seen.get("5.5.5.5"), seen.get("6.6.6.6")), (Some(&3), Some(&0)));
}

#[test]
fn a_round_adds_new_rules_before_it_drops_stale_ones() {
    let (rules, next) = number_addresses(&text(&["1.1.1.1", "2.2.2.2"]));
    let mut refresher = DomainRefresher::new(rules, next);
    let target = RefreshTarget::Iptables { guest_cidr: "172.20.0.2/32".to_owned() };
    let now = set_of(&text(&["2.2.2.2", "4.4.4.4", "3.3.3.3"]));
    assert!(refresher.has_numbers_for(&now));
    let steps: Vec<String> = refresher
        .round_steps(&target, &now)
        .iter()
        .map(|step| match step {
            RefreshStep::Rule(TapOp::Ensure(IptablesAction::Insert, TapRule::Domain(ip, i))) => format!("+{ip}:{i}"),
            RefreshStep::Rule(TapOp::Delete(TapRule::Domain(ip, i))) => format!("-{ip}:{i}"),
            _ => panic!("no such step"),
        })
        .collect();
    assert_eq!(steps, text(&["+3.3.3.3:2", "+4.4.4.4:3", "-1.1.1.1:0"]));
    refresher.settle_round(&target, &now, &vec![false, true, true]);
    assert_eq!((refresher.index_of("3.3.3.3"), refresher.index_of("4.4.4.4")), (None, Some(3)));
    assert_eq!((refresher.index_of("1.1.1.1"), refresher.next_index()), (None, 4));
    let left = refresher.stop();
    assert_eq!(stop_steps(&left, &target).len(), 2);
    assert!(matches!(
        &stop_steps(&left, &target)[0],
        RefreshStep::Rule(TapOp::Delete(TapRule::Domain(ip, 1))) if ip == "2.2.2.2"
    ));
    assert!(stop_steps(&left, &RefreshTarget::NftSet { set: "s".to_owned() }).is_empty());
}

#[test]
fn a_set_is_refreshed_in_one_batch() {
    let (rules, next) = number_addresses(&text(&["1.1.1.1", "2.2.2.2"]));
    let mut refresher = DomainRefresher::new(rules, next);
    let target = RefreshTarget::NftSet { set: "slot3".to_owned() };
    assert!(refresher.round_steps(&target, &set_of(&text(&["2.2.2.2", "1.1.1.1"]))).is_empty());
    let now = set_of(&text(&["2.2.2.2", "3.3.3.3"]));
    let steps = refresher.round_steps(&target, &now);
    assert_eq!(steps.len(), 1);
    match &steps[0] {
        RefreshStep::Batch { set, adds, drops } => {
            assert_eq!(set, "slot3");
            assert_eq!((adds, drops), (&text(&["3.3.3.3"]), &text(&["1.1.1.1"])));
        },
        _ => panic!("a set is changed in one batch"),
    }
    refresher.settle_round(&target, &now, &vec![false]);
    assert_eq!((refresher.index_of("1.1.1.1"), refresher.index_of("3.3.3.3")), (Some(0), None));
    assert_eq!(refresher.next_index(), 2);
    refresher.settle_round(&target, &now, &vec![true]);
    assert_eq!((refresher.index_of("1.1.1.1"), refresher.index_of("3.3.3.3")), (None, Some(2)));
    assert_eq!(refresher.next_index(), 3);
    match &purge_steps(&refresher.fail_closed(), &target)[0] {
        RefreshStep::Batch { adds, drops, .. } => {
            assert!(adds.is_empty());
            assert_eq!(drops, &text(&["2.2.2.2", "3.3.3.3"]));
        },
        _ => panic!("a set is emptied in one batch"),
    }
}

#[test]
fn slots_are_reserved_in_batches() {
    let mut store = LeaseAllocator::load(TextMap::new());
    let names: Vec<String> = (0..201).map(|i| format!("slot-{i:03}")).collect();
    let taps: Vec<String> = (0..201).map(|i| format!("vs{i:03}")).collect();
    let slots = reserve_slots(&mut store, &names, &taps).unwrap();
    assert_eq!(slots.len(), 201);
    assert_eq!(slots[200].name, "vs200");
    assert_eq!(slots[0].guest_ip, "172.20.0.2");
    let batches = slot_batches(&slots);
    assert_eq!(batches.len(), 2);
    match (&batches[0], &batches[1]) {
        (
            BrokerRequest::PreallocateSlots { slots: first, reset: true },
            BrokerRequest::PreallocateSlots { slots: second, reset: false },
        ) => {
            assert_eq!((first.len(), second.len()), (200, 1));
            assert_eq!(second[0].index, 200);
        },
        _ => panic!("only the first batch resets"),
    }
    assert_eq!(
        slot_policy_blocks(&text(&["10.0.0.1/8", "::/0"])).unwrap_err().message,
        "pooled slot egress allows IPv4 CIDRs only"
    );
    assert_eq!(slot_policy_blocks(&text(&["10.0.0.1/8"])).unwrap(), text(&["10.0.0.0/8"]));
    let v4 = v4_addresses(&vec![IpAddr::V4(1), IpAddr::V6(1), IpAddr::V4(1)]);
    assert_eq!(v4, text(&["0.0.0.1", "0.0.0.1"]));
    assert_eq!(distinct_texts(&v4), text(&["0.0.0.1"]));
}

#[test]
fn taps_without_slots_are_asked_for() {
    let mut host = host(Vec::new());
    assert!(!has_net_admin(&host));
    configure_broker_socket(&mut host, Some("/run/broker".to_owned()));
    assert!(has_net_admin(&host));
    let config = allocate_guest_config_with_dns(&mut host, "sb", &text(&["9.9.9.9"])).unwrap();
    assert_eq!(config.tap, tap_name("sb"));
    assert_eq!(config.dns, text(&["9.9.9.9"]));
    assert!(same(&allocate_guest_config(&mut host, "sb").unwrap(), &lease_for(&host, "sb").unwrap()));
    let asked = setup_tap(&host, &config.tap, &config.guest_ip, &config.host_ip, 30, None, None, None).unwrap();
    assert!(matches!(asked, SetupTap::Ask(BrokerRequest::Setup { .. })));
    let refused = settle_setup(&mut host, &config.tap, asked, Ok(None)).unwrap_err();
    assert_eq!(refused.message, "network broker returned no TAP lease");
    assert!(matches!(
        teardown_tap(&mut host, &config.tap, None, None, 30, None, None),
        Some(BrokerRequest::Teardown { .. })
    ));
    let (request, changed) = release_guest_config(&mut host, "sb");
    assert!(request.is_none() && changed);
    assert!(lease_for(&host, "sb").is_none());
}

#[test]
fn a_slot_is_set_up_with_its_own_addresses_only() {
    let mut host = host(vec![slot(3)]);
    let config = allocate_guest_config(&mut host, "sb").unwrap();
    assert_eq!(config.network, "172.20.0.12/30");
    let refused = setup_tap(&host, &config.tap, &config.host_ip, &config.guest_ip, 30, None, None, None);
    assert!(matches!(refused, Err(e) if e.message == "slot TAP addresses do not match its claim"));
    let domains = text(&["example.com"]);
    let asked =
        setup_tap(&host, &config.tap, &config.guest_ip, &config.host_ip, 30, None, Some(&domains), None).unwrap();
    settle_setup(&mut host, &config.tap, asked, Ok(None)).unwrap();
    let asked = setup_tap(&host, &config.tap, &config.guest_ip, &config.host_ip, 30, None, None, None).unwrap();
    assert!(matches!(&asked, SetupTap::AskForSlot(BrokerRequest::RecycleSlot { .. }, _)));
    settle_setup(&mut host, &config.tap, asked, Ok(None)).unwrap();
    let asked = setup_tap(&host, &config.tap, &config.guest_ip, &config.host_ip, 30, None, None, None).unwrap();
    assert!(matches!(asked, SetupTap::Ready(_)));
    let (request, changed) = release_guest_config(&mut host, "sb");
    assert!(request.is_none() && !changed);
    assert_eq!(host.free_slots(), 1);
}

#[test]
fn asked_name_servers_come_with_a_kept_lease() {
    let mut plain = host(Vec::new());
    let first = allocate_guest_config_with_dns(&mut plain, "sb", &text(&["9.9.9.9"])).unwrap();
    let again = allocate_guest_config_with_dns(&mut plain, "sb", &text(&["8.8.4.4"])).unwrap();
    assert_eq!(again.dns, text(&["8.8.4.4"]));
    assert_eq!((again.network, again.tap), (first.network, first.tap));
    let mut pooled = host(vec![slot(3)]);
    let first = allocate_guest_config_with_dns(&mut pooled, "sb", &text(&["9.9.9.9"])).unwrap();
    let again = allocate_guest_config_with_dns(&mut pooled, "sb", &text(&["8.8.4.4"])).unwrap();
    assert_eq!((first.dns, again.dns), (text(&["9.9.9.9"]), text(&["8.8.4.4"])));
    assert_eq!(again.network, "172.20.0.12/30");
    assert_eq!(pooled.free_slots(), 0);
}

#[test]
fn an_empty_list_is_a_policy_of_its_own() {
    let none = Vec::new();
    assert!(!asks_for_policy(None, None));
    assert!(asks_for_policy(None, Some(&none)));
    assert!(asks_for_policy(Some(&none), None));
    for (allow, domains) in [(Some(&none), None), (None, Some(&none))] {
        let mut host = host(vec![slot(3)]);
        let config = allocate_guest_config(&mut host, "sb").unwrap();
        let asked =
            setup_tap(&host, &config.tap, &config.guest_ip, &config.host_ip, 30, allow, domains, None).unwrap();
        match &asked {
            SetupTap::AskForSlot(
                BrokerRequest::ClaimSlot { egress_allow, egress_allow_domains, already_custom, .. },
                _,
            ) => {
                assert!(egress_allow.is_empty() && egress_allow_domains.is_empty());
                assert!(!already_custom);
            },
            _ => panic!("the slot's policy has to be changed"),
        }
    }
}

#[test]
fn counters_of_two_tables_add_up() {
    let row = |name: &str, rx: u64, tx: u64| format!("{name}: {rx} 0 0 0 0 0 0 0 {tx} 0 0 0 0 0 0 0\n");
    let (a, b) = (row("eth0", 3, 5), format!("{}{}", row("eth1", u64::MAX - 1, 7), row("lo", 9, 9)));
    assert_eq!(parse_proc_net_dev(&a), (3, 5));
    assert_eq!(parse_proc_net_dev(&b), (u64::MAX - 1, 7));
    assert_eq!(parse_proc_net_dev(&format!("{a}{b}")), (u64::MAX, 12));
}

#[test]
fn a_released_block_is_the_next_to_be_leased() {
    let mut leases = LeaseAllocator::load(TextMap::new());
    let (first, _) = leases.allocate("a", &Vec::new(), None).unwrap();
    leases.allocate("b", &Vec::new(), None).unwrap();
    assert!(leases.release("a"));
    let (again, changed) = leases.allocate("c", &Vec::new(), None).unwrap();
    assert!(changed);
    assert_eq!(again.network, first.network);
}

#[test]
fn capabilities_are_read_from_the_status_file() {
    assert!(grants_net_admin(0, None));
    assert!(!grants_net_admin(1000, None));
    let with = "Name:\tx\nCapEff:\t0000000000001000\n".to_owned();
    let without = "CapEff:\t0000000000000fff\nCapEff:\t0000000000001000\n".to_owned();
    assert!(grants_net_admin(1000, Some(&with)));
    assert!(!grants_net_admin(1000, Some(&without)));
    assert!(!grants_net_admin(1000, Some(&"CapEff:\n".to_owned())));
    assert!(!grants_net_admin(1000, Some(&"CapEff: 10000000000001000\n".to_owned())));
}

#[test]
fn routed_networks_have_bridges_of_their_own() {
    assert_eq!(vpc_bridge_name("vpc-0123ABcd").unwrap(), "vmonbr-0123ABcd");
    for id in ["vpc-0123abc", "vpc-0123abcg", "net-0123abcd", "vpc-0123abcde"] {
        assert_eq!(vpc_bridge_name(id).unwrap_err().message, "VPC id must be a vpc-<8hex> identifier");
    }
    let config = vpc_config("sb", "10.88.1.2", "10.88.0.1", 16).unwrap();
    assert_eq!(config.network, "10.88.0.0/16");
    assert_eq!(config.tap, tap_name("sb"));
    let mut setup = VpcSetup::new("sb", "vpc-00000000", "10.88.1.2", "10.88.0.1", 16).unwrap();
    setup.resume(None);
    setup.resume(None);
    setup.resume(Some(vmond::error::EngineError::engine("no tunnels".to_owned())));
    assert_eq!(setup.step(), VpcStep::DetachTap);
    setup.resume(Some(vmond::error::EngineError::engine("ignored".to_owned())));
    assert_eq!(setup.step(), VpcStep::Done);
    assert_eq!(setup.into_network().err().unwrap().message, "no tunnels");
}

#[test]
fn failed_network_setup_is_undone() {
    let mut setup = SandboxSetup::new();
    setup.resume(None);
    setup.resume(None);
    assert_eq!(setup.step(), SetupStep::OpenTunnels);
    setup.resume(Some(vmond::error::EngineError::engine("bind".to_owned())));
    assert_eq!(setup.step(), SetupStep::TakeDown);
    setup.resume(Some(vmond::error::EngineError::engine("ignored".to_owned())));
    assert_eq!(setup.step(), SetupStep::Release);
    setup.resume(None);
    assert_eq!(setup.step(), SetupStep::Done);
    assert_eq!(setup.into_error().unwrap().message, "bind");

    assert!(matches!(tunnel_plan("10.0.0.1", &vec![80, 0], None), Err(e) if e.message == "invalid TCP port 0"));
    let plan = tunnel_plan("10.0.0.1", &vec![80, 22, 80], None).unwrap();
    assert_eq!(plan.ports, vec![80, 22]);
    assert_eq!(
        dns_addresses(&text(&["1.1.1.1", "dns"])).unwrap_err().message,
        "invalid DNS address dns"
    );
}

#[test]
fn networks_are_taken_down_by_bridge_or_by_tap() {
    let mut host = host(Vec::new());
    let config = allocate_guest_config(&mut host, "sb").unwrap();
    let tap = TapLease::new(&config.tap, &config.guest_ip, &config.host_ip, 30, None).unwrap();
    let mut network = SandboxNetwork {
        name: "sb".to_owned(),
        guest_config: GuestNetworkConfig::of_config(&config),
        config,
        tap,
        egress_allow: None,
        egress_allow_domains: None,
        vpc_bridge: Some("vmonbr-00000000".to_owned()),
    };
    assert!(matches!(
        network.allow_credential_gateway(),
        BrokerRequest::AllowCredential { lease } if lease.guest_ip == network.tap.guest_ip
    ));
    assert!(matches!(network.begin_teardown(&mut host), NetworkTeardown::Detach { .. }));
    network.vpc_bridge = None;
    assert!(matches!(
        network.begin_teardown(&mut host),
        NetworkTeardown::Tap(Some(BrokerRequest::Teardown { .. }))
    ));
    assert!(network
        .finish_teardown(&mut host, Err(vmond::error::EngineError::engine("no".to_owned())))
        .is_err());
    assert!(lease_for(&host, "sb").is_some());
    assert!(matches!(network.finish_teardown(&mut host, Ok(())), Ok((None, true))));
    assert!(lease_for(&host, "sb").is_none());
}

#[test]
fn written_addresses_and_blocks_read_back() {
    for number in [0u128, 1, 0xffff_0102_0304, 1 << 112, 0x2001_0db8 << 96, u128::MAX, 0x1_0000_0000_0001_0000] {
        assert_eq!(parse_ip(&render_v6(number)).unwrap(), IpAddr::V6(number));
    }
    for text in ["2001:db8::/32", "::/0", "::ffff:10.0.0.0/104", "fe80::1/128"] {
        let net = CidrNet::parse(text).unwrap();
        assert_eq!(net.render(), text);
        assert_eq!(CidrNet::parse(&net.render()).unwrap(), net);
    }
}
