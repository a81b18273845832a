use apple_roulette::apple_search::{
    count_apples, detect_apple, needs_service_probe, search_for_apples, too_many_apples,
    DetectionResult, SearchResult,
};
use apple_roulette::args::Args;
use apple_roulette::arp::{
    build_packet, dedup_replies, get_interface_ipv4_network, parse_arp_reply, subnet_addresses,
    ArpResult, Ipv4Network, MacAddr,
};
use apple_roulette::iphone_sync::{check_iphone_sync_port, ProbeOutcome, IPHONE_SYNC_PORT};
use apple_roulette::oui::{mac_prefix, OuiDatabase};
use apple_roulette::util::{get_default_interface, InterfaceIp, NetworkInterface};

fn ip(a: u8, b: u8, c: u8, d: u8) -> u32 {
    ((a as u32) << 24) | ((b as u32) << 16) | ((c as u32) << 8) | (d as u32)
}

fn sample_database() -> OuiDatabase {
    OuiDatabase::new(vec![
        (0xAABBCC, "Apple, Inc.".to_owned()),
        (0x112233, "Pineapple Computing".to_owned()),
        (0x445566, "Banana Networks".to_owned()),
    ])
}

#[test]
fn mac_prefix_takes_top_three_octets() {
    let mac = MacAddr(0xAA, 0xBB, 0xCC, 0xDD, 0xEE, 0xFF);
    assert_eq!(mac_prefix(&mac), 0xAABBCC);
}

#[test]
fn vendor_prefix_wins_even_without_service() {
    let db = sample_database();
    let host = ArpResult { ip: ip(10, 0, 0, 2), mac: MacAddr(0xAA, 0xBB, 0xCC, 1, 2, 3) };
    assert_eq!(detect_apple(&db, &host, false), DetectionResult::AppleByMac);
    assert!(!needs_service_probe(&db, &host));
}

#[test]
fn service_decides_when_prefix_does_not() {
    let db = sample_database();
    let unknown = ArpResult { ip: ip(10, 0, 0, 3), mac: MacAddr(0x99, 0x99, 0x99, 1, 2, 3) };
    assert_eq!(detect_apple(&db, &unknown, true), DetectionResult::AppleByOpenPort);
    assert!(needs_service_probe(&db, &unknown));
    let other_vendor = ArpResult { ip: ip(10, 0, 0, 4), mac: MacAddr(0x44, 0x55, 0x66, 0, 0, 1) };
    assert_eq!(detect_apple(&db, &other_vendor, true), DetectionResult::AppleByOpenPort);
}

#[test]
fn no_signal_means_no_match() {
    let db = sample_database();
    let unknown = ArpResult { ip: ip(10, 0, 0, 5), mac: MacAddr(0x99, 0x99, 0x99, 1, 2, 3) };
    assert_eq!(detect_apple(&db, &unknown, false), DetectionResult::NotApple);
}

#[test]
fn org_must_begin_with_the_vendor_name() {
    let db = sample_database();
    // "Pineapple Computing" holds the vendor's name, but not as a prefix.
    let host = ArpResult { ip: ip(10, 0, 0, 6), mac: MacAddr(0x11, 0x22, 0x33, 1, 2, 3) };
    assert_eq!(detect_apple(&db, &host, false), DetectionResult::NotApple);
    assert!(needs_service_probe(&db, &host));
}

#[test]
fn later_listing_row_overrides_earlier() {
    let db = OuiDatabase::new(vec![
        (0xAABBCC, "Apple, Inc.".to_owned()),
        (0xAABBCC, "Acquired By Someone Else".to_owned()),
    ]);
    let host = ArpResult { ip: ip(10, 0, 0, 2), mac: MacAddr(0xAA, 0xBB, 0xCC, 1, 2, 3) };
    assert_eq!(detect_apple(&db, &host, false), DetectionResult::NotApple);
}

#[test]
fn lookup_misses_outside_the_listing() {
    let db = sample_database();
    assert!(db.get_org(&MacAddr(0xAA, 0xBB, 0xCD, 0, 0, 0)).is_none());
    assert_eq!(
        db.get_org(&MacAddr(0xAA, 0xBB, 0xCC, 9, 9, 9)).map(|s| s.as_str()),
        Some("Apple, Inc.")
    );
}

#[test]
fn scenario_two_hosts_on_a_slash30() {
    // Subnet 192.168.1.0/30, local interface at .1; a reply from .2 with a
    // vendor prefix and one from .3 whose service probe succeeds; nothing
    // from .0 or from the interface itself.
    let our_mac = MacAddr(0x02, 0x11, 0x22, 0x33, 0x44, 0x55);
    let our_ip = ip(192, 168, 1, 1);
    let net = Ipv4Network { addr: our_ip, prefix: 30 };
    let db = sample_database();

    let targets = subnet_addresses(&net);
    assert_eq!(targets.len(), 4);

    let vendor_mac = MacAddr(0xAA, 0xBB, 0xCC, 0x00, 0x00, 0x01);
    let other_mac = MacAddr(0x99, 0x88, 0x77, 0x00, 0x00, 0x02);
    let wire = vec![
        build_packet(other_mac, ip(192, 168, 1, 3), our_ip),
        build_packet(vendor_mac, ip(192, 168, 1, 2), our_ip),
    ];

    let mut replies = Vec::new();
    for frame in &wire {
        if let Some(reply) = parse_arp_reply(frame) {
            replies.push(reply);
        }
    }
    let hosts = dedup_replies(&replies);
    assert_eq!(hosts.len(), 2);

    let mut port_open = Vec::new();
    for host in &hosts {
        // Only .3 answers on the sync port; .2 is never probed.
        let probed = needs_service_probe(&db, host);
        port_open.push(probed && host.ip == ip(192, 168, 1, 3));
    }

    let report = search_for_apples(&db, &hosts, &port_open);
    assert_eq!(report.len(), 2);
    assert_eq!(report[0].ip, ip(192, 168, 1, 2));
    assert_eq!(report[0].mac, vendor_mac);
    assert_eq!(report[0].detection_result, DetectionResult::AppleByMac);
    assert_eq!(report[1].ip, ip(192, 168, 1, 3));
    assert_eq!(report[1].mac, other_mac);
    assert_eq!(report[1].detection_result, DetectionResult::AppleByOpenPort);

    assert_eq!(count_apples(&report), 2);
}

#[test]
fn count_skips_unmatched_hosts() {
    let results = vec![
        SearchResult {
            ip: ip(10, 0, 0, 1),
            mac: MacAddr(1, 1, 1, 1, 1, 1),
            detection_result: DetectionResult::NotApple,
        },
        SearchResult {
            ip: ip(10, 0, 0, 2),
            mac: MacAddr(2, 2, 2, 2, 2, 2),
            detection_result: DetectionResult::AppleByMac,
        },
        SearchResult {
            ip: ip(10, 0, 0, 3),
            mac: MacAddr(3, 3, 3, 3, 3, 3),
            detection_result: DetectionResult::AppleByOpenPort,
        },
    ];
    assert_eq!(count_apples(&results), 2);
    assert_eq!(count_apples(&Vec::new()), 0);
}

#[test]
fn threshold_is_strict() {
    // 21 matches against a threshold of 20 trigger the halt; 20 do not.
    assert!(too_many_apples(21, 20));
    assert!(!too_many_apples(20, 20));
}

#[test]
fn probe_outcomes_map_to_signals() {
    assert_eq!(check_iphone_sync_port(ProbeOutcome::Connected), Ok(true));
    assert_eq!(check_iphone_sync_port(ProbeOutcome::Refused), Ok(false));
    assert_eq!(check_iphone_sync_port(ProbeOutcome::TimedOut), Ok(false));
    assert!(check_iphone_sync_port(ProbeOutcome::Failed).is_err());
    assert_eq!(IPHONE_SYNC_PORT, 62078);
}

#[test]
fn default_args_hold_the_threshold() {
    let args = Args::default();
    assert_eq!(args.verbose, 0);
    assert_eq!(args.panic_after, 20);
}

#[test]
fn first_qualifying_interface_is_picked() {
    let v4 = InterfaceIp::V4(Ipv4Network { addr: ip(192, 168, 1, 1), prefix: 24 });
    let down = NetworkInterface {
        mac: Some(MacAddr(1, 1, 1, 1, 1, 1)),
        is_up: false,
        is_loopback: false,
        ips: vec![v4],
    };
    let loopback = NetworkInterface {
        mac: Some(MacAddr(2, 2, 2, 2, 2, 2)),
        is_up: true,
        is_loopback: true,
        ips: vec![v4],
    };
    let no_mac = NetworkInterface { mac: None, is_up: true, is_loopback: false, ips: vec![v4] };
    let v6_only = NetworkInterface {
        mac: Some(MacAddr(3, 3, 3, 3, 3, 3)),
        is_up: true,
        is_loopback: false,
        ips: vec![InterfaceIp::V6],
    };
    let good = NetworkInterface {
        mac: Some(MacAddr(4, 4, 4, 4, 4, 4)),
        is_up: true,
        is_loopback: false,
        ips: vec![InterfaceIp::V6, v4],
    };
    let picked = get_default_interface(vec![down, loopback, no_mac, v6_only, good])
        .expect("one interface qualifies");
    assert_eq!(picked.mac, Some(MacAddr(4, 4, 4, 4, 4, 4)));

    let none = get_default_interface(vec![NetworkInterface {
        mac: None,
        is_up: true,
        is_loopback: false,
        ips: vec![v4],
    }]);
    assert!(none.is_none());
}

#[test]
fn interface_network_is_the_first_v4() {
    let first = Ipv4Network { addr: ip(192, 168, 1, 1), prefix: 24 };
    let second = Ipv4Network { addr: ip(10, 0, 0, 1), prefix: 8 };
    let iface = NetworkInterface {
        mac: Some(MacAddr(1, 2, 3, 4, 5, 6)),
        is_up: true,
        is_loopback: false,
        ips: vec![InterfaceIp::V6, InterfaceIp::V4(first), InterfaceIp::V4(second)],
    };
    assert_eq!(get_interface_ipv4_network(&iface), Some(first));

    let v6_only = NetworkInterface {
        mac: Some(MacAddr(1, 2, 3, 4, 5, 6)),
        is_up: true,
        is_loopback: false,
        ips: vec![InterfaceIp::V6],
    };
    assert_eq!(get_interface_ipv4_network(&v6_only), None);
}
