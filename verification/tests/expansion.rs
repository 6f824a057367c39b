use ping_exporter::addr::{Address, Cidr};
use ping_exporter::target::{
    classify, expand, holds_identity, label, literal, push_range, push_targets, push_unique,
    ExpandError, HostSpec, Target,
};
use ping_exporter::text::{format_v4, host_char, hostname};

fn v4(a: u8, b: u8, c: u8, d: u8) -> u32 {
    ((a as u32) << 24) | ((b as u32) << 16) | ((c as u32) << 8) | (d as u32)
}

fn specs(items: &[&str]) -> Vec<String> {
    items.iter().map(|s| s.to_string()).collect()
}

fn identities(targets: &[Target]) -> Vec<String> {
    targets.iter().map(|t| t.identity.clone()).collect()
}

#[test]
fn slash_30_excludes_network_and_broadcast() {
    let targets = expand(&specs(&["10.0.0.0/30"])).unwrap();
    assert_eq!(identities(&targets), vec!["10.0.0.1", "10.0.0.2"]);
    assert_eq!(targets[0].address, Some(Address::V4(v4(10, 0, 0, 1))));
    assert_eq!(targets[1].address, Some(Address::V4(v4(10, 0, 0, 2))));
}

#[test]
fn slash_31_includes_both_addresses() {
    let targets = expand(&specs(&["10.0.0.0/31"])).unwrap();
    assert_eq!(identities(&targets), vec!["10.0.0.0", "10.0.0.1"]);
}

#[test]
fn slash_32_is_the_single_address() {
    let targets = expand(&specs(&["192.168.1.77/32"])).unwrap();
    assert_eq!(identities(&targets), vec!["192.168.1.77"]);
    assert_eq!(targets[0].address, Some(Address::V4(v4(192, 168, 1, 77))));
}

#[test]
fn slash_24_has_254_hosts() {
    let targets = expand(&specs(&["192.168.5.0/24"])).unwrap();
    assert_eq!(targets.len(), 254);
    assert_eq!(targets[0].identity, "192.168.5.1");
    assert_eq!(targets[253].identity, "192.168.5.254");
    for (i, t) in targets.iter().enumerate() {
        assert_eq!(t.address, Some(Address::V4(v4(192, 168, 5, 0) + 1 + i as u32)));
    }
}

#[test]
fn slash_29_has_six_hosts() {
    let targets = expand(&specs(&["172.16.0.8/29"])).unwrap();
    assert_eq!(
        identities(&targets),
        vec!["172.16.0.9", "172.16.0.10", "172.16.0.11", "172.16.0.12", "172.16.0.13", "172.16.0.14"]
    );
}

#[test]
fn host_bits_in_a_range_are_masked_off() {
    let targets = expand(&specs(&["10.0.0.6/30"])).unwrap();
    assert_eq!(identities(&targets), vec!["10.0.0.5", "10.0.0.6"]);
}

#[test]
fn ipv6_range_includes_every_address() {
    let targets = expand(&specs(&["fd00::/126"])).unwrap();
    assert_eq!(identities(&targets), vec!["fd00::", "fd00::1", "fd00::2", "fd00::3"]);
    let base: u128 = 0xfd00u128 << 112;
    assert_eq!(targets[0].address, Some(Address::V6(base)));
    assert_eq!(targets[3].address, Some(Address::V6(base + 3)));
}

#[test]
fn ipv6_slash_127_and_128() {
    let two = expand(&specs(&["2001:db8::/127"])).unwrap();
    assert_eq!(identities(&two), vec!["2001:db8::", "2001:db8::1"]);
    let one = expand(&specs(&["2001:db8::5/128"])).unwrap();
    assert_eq!(identities(&one), vec!["2001:db8::5"]);
}

#[test]
fn literal_ipv4_is_one_target() {
    let targets = expand(&specs(&["127.0.0.1"])).unwrap();
    assert_eq!(targets.len(), 1);
    assert_eq!(targets[0].identity, "127.0.0.1");
    assert_eq!(targets[0].address, Some(Address::V4(v4(127, 0, 0, 1))));
}

#[test]
fn literal_ipv6_is_one_target() {
    let targets = expand(&specs(&["::1"])).unwrap();
    assert_eq!(targets.len(), 1);
    assert_eq!(targets[0].identity, "::1");
    assert_eq!(targets[0].address, Some(Address::V6(1)));
}

#[test]
fn literal_ipv6_is_labelled_in_canonical_form() {
    let targets = expand(&specs(&["2001:0db8:0000:0000:0000:0000:0000:0001"])).unwrap();
    assert_eq!(identities(&targets), vec!["2001:db8::1"]);
}

#[test]
fn hostname_is_one_target_without_address() {
    let targets = expand(&specs(&["gateway.example.org"])).unwrap();
    assert_eq!(targets.len(), 1);
    assert_eq!(targets[0].identity, "gateway.example.org");
    assert_eq!(targets[0].address, None);
}

#[test]
fn expansion_keeps_order_and_drops_repeats() {
    let targets =
        expand(&specs(&["10.0.0.2", "router", "10.0.0.0/30", "router", "10.0.0.2/32"])).unwrap();
    assert_eq!(identities(&targets), vec!["10.0.0.2", "router", "10.0.0.1"]);
}

#[test]
fn overlapping_ranges_yield_each_host_once() {
    let targets = expand(&specs(&["10.0.0.0/30", "10.0.0.0/29"])).unwrap();
    assert_eq!(
        identities(&targets),
        vec!["10.0.0.1", "10.0.0.2", "10.0.0.3", "10.0.0.4", "10.0.0.5", "10.0.0.6"]
    );
}

#[test]
fn empty_specification_list_expands_to_nothing() {
    let targets = expand(&Vec::new()).unwrap();
    assert!(targets.is_empty());
}

#[test]
fn malformed_prefix_fails_the_expansion() {
    let r = expand(&specs(&["10.0.0.1", "10.0.0.0/33", "10.0.0.2"]));
    assert_eq!(r.unwrap_err(), ExpandError::Malformed { index: 1 });
}

#[test]
fn first_malformed_specification_is_reported() {
    let r = expand(&specs(&["", "also bad"]));
    assert_eq!(r.unwrap_err(), ExpandError::Malformed { index: 0 });
    let r = expand(&specs(&["ok.example", "10.0.0.0/", "x/y"]));
    assert_eq!(r.unwrap_err(), ExpandError::Malformed { index: 1 });
}

#[test]
fn classify_tells_the_kinds_apart() {
    assert_eq!(
        classify("10.1.2.3/8"),
        Some(HostSpec::Range(Cidr { addr: Address::V4(v4(10, 1, 2, 3)), prefix_len: 8 }))
    );
    assert_eq!(
        classify("fe80::1/64"),
        Some(HostSpec::Range(Cidr { addr: Address::V6((0xfe80u128 << 112) | 1), prefix_len: 64 }))
    );
    assert_eq!(classify("10.1.2.3"), Some(HostSpec::Literal(Address::V4(v4(10, 1, 2, 3)))));
    assert_eq!(classify("::ffff:1.2.3.4"), Some(HostSpec::Literal(Address::V6(0xffff_0102_0304))));
    assert_eq!(classify("db-1.internal"), Some(HostSpec::Name));
    assert_eq!(classify("300.1.1.1"), Some(HostSpec::Name));
    assert_eq!(classify("10.0.0.0/24/32"), None);
    assert_eq!(classify("host name"), None);
    assert_eq!(classify("1.2.3.4/"), None);
    assert_eq!(classify("/24"), None);
    assert_eq!(classify(""), None);
}

#[test]
fn literal_reads_addresses_only() {
    assert_eq!(literal("0.0.0.0"), Some(Address::V4(0)));
    assert_eq!(literal("255.255.255.255"), Some(Address::V4(u32::MAX)));
    assert_eq!(literal("::"), Some(Address::V6(0)));
    assert_eq!(literal("1.2.3.4/32"), None);
    assert_eq!(literal("::1/128"), None);
    assert_eq!(literal("1.2.3"), None);
    assert_eq!(literal("localhost"), None);
}

#[test]
fn label_of_addresses() {
    assert_eq!(label(Address::V4(v4(8, 8, 4, 4))), "8.8.4.4");
    assert_eq!(label(Address::V6(1)), "::1");
    assert_eq!(label(Address::V6(0x2001_0db8u128 << 96)), "2001:db8::");
    assert_eq!(label(Address::V6(0xffff_c000_0201)), "::ffff:192.0.2.1");
}

#[test]
fn dotted_quad_is_exact() {
    assert_eq!(format_v4(0), "0.0.0.0");
    assert_eq!(format_v4(u32::MAX), "255.255.255.255");
    assert_eq!(format_v4(v4(10, 0, 0, 1)), "10.0.0.1");
    assert_eq!(format_v4(v4(192, 168, 100, 7)), "192.168.100.7");
    assert_eq!(format_v4(v4(1, 20, 101, 99)), "1.20.101.99");
    assert_eq!(format_v4(v4(100, 10, 9, 200)), "100.10.9.200");
}

#[test]
fn hostname_syntax() {
    assert!(hostname("a"));
    assert!(hostname("node_7.rack-2.example.com"));
    assert!(hostname(&"x".repeat(253)));
    assert!(!hostname(&"x".repeat(254)));
    assert!(!hostname(""));
    assert!(!hostname("a/b"));
    assert!(!hostname("a b"));
    assert!(!hostname("a:b"));
    assert!(!hostname("caf\u{e9}"));
    assert!(host_char('z') && host_char('A') && host_char('0') && host_char('-'));
    assert!(!host_char('/') && !host_char(' ') && !host_char('@'));
}

#[test]
fn push_unique_appends_only_new_identities() {
    let mut out: Vec<Target> = Vec::new();
    push_unique(&mut out, Target { identity: "a".to_string(), address: None });
    push_unique(&mut out, Target { identity: "b".to_string(), address: Some(Address::V4(1)) });
    push_unique(&mut out, Target { identity: "a".to_string(), address: Some(Address::V4(2)) });
    assert_eq!(identities(&out), vec!["a", "b"]);
    assert_eq!(out[0].address, None);
    assert!(holds_identity(&out, &"b".to_string()));
    assert!(!holds_identity(&out, &"c".to_string()));
}

#[test]
fn push_range_walks_the_hosts_in_ascending_order() {
    let mut out = vec![Target { identity: "10.9.8.2".to_string(), address: None }];
    push_range(&mut out, Cidr { addr: Address::V4(v4(10, 9, 8, 0)), prefix_len: 30 });
    assert_eq!(identities(&out), vec!["10.9.8.2", "10.9.8.1"]);
    let mut out: Vec<Target> = Vec::new();
    push_range(&mut out, Cidr { addr: Address::V4(0), prefix_len: 30 });
    assert_eq!(identities(&out), vec!["0.0.0.1", "0.0.0.2"]);
    let mut out: Vec<Target> = Vec::new();
    push_range(&mut out, Cidr { addr: Address::V4(u32::MAX), prefix_len: 31 });
    assert_eq!(identities(&out), vec!["255.255.255.254", "255.255.255.255"]);
}

#[test]
fn push_targets_follows_the_kind() {
    let mut out: Vec<Target> = Vec::new();
    push_targets(&mut out, HostSpec::Name, "printer");
    push_targets(&mut out, HostSpec::Literal(Address::V4(v4(1, 1, 1, 1))), "ignored");
    push_targets(
        &mut out,
        HostSpec::Range(Cidr { addr: Address::V6(0x10), prefix_len: 127 }),
        "ignored",
    );
    assert_eq!(identities(&out), vec!["printer", "1.1.1.1", "::10", "::11"]);
    assert_eq!(out[1].address, Some(Address::V4(v4(1, 1, 1, 1))));
    assert_eq!(out[3].address, Some(Address::V6(0x11)));
}

#[test]
fn target_clone_is_equal() {
    let t = Target { identity: "h".to_string(), address: Some(Address::V6(7)) };
    let c = t.clone();
    assert_eq!(c.identity, "h");
    assert_eq!(c.address, Some(Address::V6(7)));
}
