use dwm_status::name_map::NameMap;
use dwm_status::network::{
    dns_state_from_classes, default_routes, from_default_routes_v4, from_default_routes_v6,
    from_dev_stats, interface_kind, interface_states_from, is_tunnel_iface, link_state,
    nameserver_addresses, parse_counter, route_sort_key_le, route_sort_key_lt,
    select_primary_iface, DefaultRoute, DnsState, InterfaceKind, InterfaceProbe, InterfaceState,
    RouteFamily,
};

const DEV_FIXTURE: &str = "Inter-|   Receive                                                |  Transmit
 face |bytes    packets errs drop fifo frame compressed multicast|bytes    packets errs drop fifo colls carrier compressed
    lo:     100       1    0    0    0     0          0         0      100       1    0    0    0     0       0          0
enp10s0:    1234      10    0    0    0     0          0         0     5678      20    0    0    0     0       0          0
";

const ROUTE_FIXTURE: &str = "Iface\tDestination\tGateway \tFlags\tRefCnt\tUse\tMetric\tMask\t\tMTU\tWindow\tIRTT
enp10s0\t00000000\t0102A8C0\t0003\t0\t0\t1002\t00000000\t0\t0\t0
enp10s0\t0002A8C0\t00000000\t0001\t0\t0\t1002\t00FFFFFF\t0\t0\t0
";

const IPV6_ROUTE_FIXTURE: &str = "00000000000000000000000000000000 00 00000000000000000000000000000000 00 fe800000000000000000000000000001 00000400 00000001 00000000 00000003   wlp4s0
fe800000000000000000000000000000 40 00000000000000000000000000000000 00 00000000000000000000000000000000 00000100 00000001 00000000 00000001   wlp4s0
00000000000000000000000000000001 80 00000000000000000000000000000000 00 00000000000000000000000000000000 00000000 00000002 00000000 80200001       lo
";

const ROUTE_SELECTION_V4: &str = "Iface\tDestination\tGateway \tFlags\tRefCnt\tUse\tMetric\tMask\t\tMTU\tWindow\tIRTT
z-wan\t00000000\t0101A8C0\t0003\t0\t0\t20\t00000000\t0\t0\t0
a-wan\t00000000\t0102A8C0\t0003\t0\t0\t20\t00000000\t0\t0\t0
lan0\t0002A8C0\t00000000\t0001\t0\t0\t0\t00FFFFFF\t0\t0\t0
down0\t00000000\t0103A8C0\t0003\t0\t0\t1\t00000000\t0\t0\t0
reject0\t00000000\t00000000\t0201\t0\t0\t0\t00000000\t0\t0\t0
inactive0\t00000000\t0104A8C0\t0002\t0\t0\t0\t00000000\t0\t0\t0
broken0\t00000000\t0105A8C0\tzz\t0\t0\t0\t00000000\t0\t0\t0
short0\t00000000
";

const ROUTE_SELECTION_V6: &str = "00000000000000000000000000000000 00 00000000000000000000000000000000 00 fe800000000000000000000000000001 00000400 00000001 00000000 00000003     b-v6
20010db8000000000000000000000000 20 00000000000000000000000000000000 00 00000000000000000000000000000000 00000100 00000001 00000000 00000001     lan6
00000000000000000000000000000000 00 00000000000000000000000000000000 00 fe800000000000000000000000000002 00000001 00000001 00000000 00000003    down6
00000000000000000000000000000000 00 00000000000000000000000000000000 00 00000000000000000000000000000000 00000000 00000001 00000000 00000201  reject6
00000000000000000000000000000000 00 00000000000000000000000000000000 00 fe800000000000000000000000000003 00000000 00000001 00000000 00000002 inactive6
00000000000000000000000000000000 00 00000000000000000000000000000000 00 nothex00000000000000000000000000 00000000 00000001 00000000 00000003  broken6
00000000000000000000000000000000 00
";

fn route(iface: &str, metric: u32, flags: u32, family: RouteFamily) -> DefaultRoute {
    DefaultRoute { iface: iface.to_string(), metric, flags, family }
}

fn interface_states(ifaces: &[(&str, bool)]) -> NameMap<InterfaceState> {
    let mut states = NameMap::new();
    for (name, link_up) in ifaces {
        states.insert(
            (*name).to_string(),
            InterfaceState { name: (*name).to_string(), kind: InterfaceKind::Wired, link_up: *link_up },
        );
    }
    states
}

#[test]
fn parse_dev_stats_fixture() {
    let stats = from_dev_stats(DEV_FIXTURE);
    let ethernet = stats.get("enp10s0").unwrap();

    assert_eq!(ethernet.recv_bytes, 1_234);
    assert_eq!(ethernet.trans_bytes, 5_678);
}

#[test]
fn parse_malformed_dev_counter_as_zero() {
    let stats = from_dev_stats("eth0: nope 0 0 0 0 0 0 0 42 0 0 0 0 0 0 0\n");
    let ethernet = stats.get("eth0").unwrap();

    assert_eq!(ethernet.recv_bytes, 0);
    assert_eq!(ethernet.trans_bytes, 42);
}

#[test]
fn parse_ipv4_default_route_fixture() {
    let routes = from_default_routes_v4(ROUTE_FIXTURE);

    assert_eq!(routes, vec![route("enp10s0", 1002, 0x0003, RouteFamily::Ipv4)]);
}

#[test]
fn parse_ipv6_default_route_fixture() {
    let routes = from_default_routes_v6(IPV6_ROUTE_FIXTURE);

    assert_eq!(routes, vec![route("wlp4s0", 1024, 0x0003, RouteFamily::Ipv6)]);
}

#[test]
fn filter_ipv4_route_candidates() {
    let routes = from_default_routes_v4(ROUTE_SELECTION_V4);
    let names: Vec<&str> = routes.iter().map(|route| route.iface.as_str()).collect();

    assert_eq!(names, vec!["z-wan", "a-wan", "down0", "reject0", "inactive0"]);
}

#[test]
fn filter_ipv6_route_candidates() {
    let routes = from_default_routes_v6(ROUTE_SELECTION_V6);
    let names: Vec<&str> = routes.iter().map(|route| route.iface.as_str()).collect();

    assert_eq!(names, vec!["b-v6", "down6", "reject6", "inactive6"]);
}

#[test]
fn select_lowest_metric_active_route() {
    let routes = vec![
        route("a-high", 100, 0x0003, RouteFamily::Ipv4),
        route("z-low", 10, 0x0003, RouteFamily::Ipv4),
        route("down0", 1, 0x0003, RouteFamily::Ipv4),
        route("reject0", 0, 0x0201, RouteFamily::Ipv4),
        route("inactive0", 0, 0x0002, RouteFamily::Ipv4),
    ];
    let states = interface_states(&[
        ("a-high", true),
        ("z-low", true),
        ("down0", false),
        ("reject0", true),
        ("inactive0", true),
    ]);
    let selection = select_primary_iface(&routes, &states);

    assert_eq!(selection.primary_iface.unwrap().name, "z-low");
    assert!(selection.has_default_route);
}

#[test]
fn select_route_with_deterministic_family_tie_break() {
    let states = interface_states(&[("a-v6", true), ("z-v4", true)]);
    let routes = vec![
        route("z-v4", 50, 0x0003, RouteFamily::Ipv4),
        route("a-v6", 50, 0x0003, RouteFamily::Ipv6),
    ];
    let selection = select_primary_iface(&routes, &states);
    let ipv6 = route("same0", 50, 0x0003, RouteFamily::Ipv6);
    let ipv4 = route("same0", 50, 0x0003, RouteFamily::Ipv4);

    assert_eq!(selection.primary_iface.unwrap().name, "a-v6");
    assert!(route_sort_key_lt(&ipv4, &ipv6));
}

#[test]
fn fallback_without_usable_default_route() {
    let states = interface_states(&[("z-wan", true), ("a-wan", true), ("down0", false), ("lo", true)]);
    let selection = select_primary_iface(&Vec::new(), &states);

    assert_eq!(selection.primary_iface.unwrap().name, "a-wan");
    assert!(!selection.has_default_route);
}

#[test]
fn no_primary_without_routes_or_up_links() {
    let states = interface_states(&[("lo", true), ("down0", false)]);
    let selection = select_primary_iface(&Vec::new(), &states);

    assert!(selection.primary_iface.is_none());
    assert!(!selection.has_default_route);
}

#[test]
fn route_to_unknown_interface_is_unusable() {
    let states = interface_states(&[("eth0", true)]);
    let routes = vec![route("ghost0", 1, 0x0003, RouteFamily::Ipv4)];
    let selection = select_primary_iface(&routes, &states);

    assert!(!selection.has_default_route);
    assert_eq!(selection.primary_iface.unwrap().name, "eth0");
}

#[test]
fn route_key_orders_metric_then_name_then_family() {
    let low = route("z", 1, 3, RouteFamily::Ipv6);
    let high = route("a", 2, 3, RouteFamily::Ipv4);
    assert!(route_sort_key_lt(&low, &high));
    assert!(!route_sort_key_lt(&high, &low));

    let a = route("a", 5, 3, RouteFamily::Ipv6);
    let b = route("b", 5, 3, RouteFamily::Ipv4);
    assert!(route_sort_key_lt(&a, &b));
    assert!(route_sort_key_le(&a, &a));
    assert!(!route_sort_key_lt(&a, &a));
}

#[test]
fn default_routes_append_ipv6_after_ipv4() {
    let routes = default_routes(ROUTE_FIXTURE, Some(IPV6_ROUTE_FIXTURE));
    assert_eq!(
        routes,
        vec![
            route("enp10s0", 1002, 0x0003, RouteFamily::Ipv4),
            route("wlp4s0", 1024, 0x0003, RouteFamily::Ipv6),
        ]
    );

    let only_v4 = default_routes(ROUTE_FIXTURE, None);
    assert_eq!(only_v4, vec![route("enp10s0", 1002, 0x0003, RouteFamily::Ipv4)]);
}

#[test]
fn collect_only_exact_nameserver_directives() {
    let text = "# nameserver 127.0.0.1\nnameserver-invalid 1.1.1.1\nnameserver nope 9.9.9.9\n  nameserver\t10.0.0.1  \nnameserver\n";
    let addresses = nameserver_addresses(text);

    assert_eq!(addresses, vec!["nope".to_string(), "10.0.0.1".to_string()]);
}

#[test]
fn classify_all_dns_states_from_classes() {
    assert_eq!(dns_state_from_classes(&vec![None]), DnsState::Missing);
    assert_eq!(dns_state_from_classes(&vec![]), DnsState::Missing);
    assert_eq!(dns_state_from_classes(&vec![Some(true), Some(true)]), DnsState::Stub);
    assert_eq!(dns_state_from_classes(&vec![Some(false), None, Some(false)]), DnsState::Direct);
    assert_eq!(dns_state_from_classes(&vec![Some(true), Some(false)]), DnsState::Mixed);
}

#[test]
fn dns_labels() {
    assert_eq!(DnsState::Missing.compact_label(), "no-dns");
    assert_eq!(DnsState::Mixed.full_label(), "mixed");
}

#[test]
fn classify_interface_kinds() {
    assert_eq!(interface_kind("wlan0", true), InterfaceKind::Wireless);
    assert_eq!(interface_kind("wg0", false), InterfaceKind::Tunnel);
    assert_eq!(interface_kind("tun1", false), InterfaceKind::Tunnel);
    assert_eq!(interface_kind("enp10s0", false), InterfaceKind::Wired);
    assert_eq!(interface_kind("eth0", false), InterfaceKind::Wired);
    assert_eq!(interface_kind("lo", false), InterfaceKind::Other);
    assert!(is_tunnel_iface("tailscale0"));
    assert!(!is_tunnel_iface("enp1s0"));
}

#[test]
fn link_state_prefers_carrier() {
    assert!(link_state(Some("1\n"), "down"));
    assert!(!link_state(Some("0"), "up"));
    assert!(link_state(None, "up"));
    assert!(link_state(None, "unknown"));
    assert!(!link_state(None, "down"));
}

#[test]
fn interface_states_skip_interfaces_without_counters() {
    let dev = from_dev_stats(DEV_FIXTURE);
    let probes = vec![
        InterfaceProbe {
            name: "enp10s0".to_string(),
            operstate: "up\n".to_string(),
            carrier: Some("1\n".to_string()),
            wireless: false,
        },
        InterfaceProbe {
            name: "wlan9".to_string(),
            operstate: "up\n".to_string(),
            carrier: None,
            wireless: true,
        },
    ];
    let states = interface_states_from(&probes, &dev);

    assert_eq!(states.len(), 1);
    let eth = states.get("enp10s0").unwrap();
    assert_eq!(eth.kind, InterfaceKind::Wired);
    assert!(eth.link_up);
    assert!(states.get("wlan9").is_none());
}

#[test]
fn parse_counter_reads_decimal_or_zero() {
    let digits: Vec<char> = "1234".chars().collect();
    let junk: Vec<char> = "12a".chars().collect();
    assert_eq!(parse_counter(Some(&digits)), 1234);
    assert_eq!(parse_counter(Some(&junk)), 0);
    assert_eq!(parse_counter(None), 0);
}

const RESOLV_FIXTURE: &str = "# Generated by NetworkManager
search lan
nameserver 127.0.0.53
nameserver 192.168.1.1
options edns0 trust-ad
";

const RESOLV_EDGE_CASES: &str = "#nameserver 8.8.8.8
; nameserver 8.8.4.4
nameserverx 1.1.1.1
nameserver
nameserver not-an-address 9.9.9.9
  nameserver\t::1   # trailing comment
nameserver fe80::1%eth0
nameserver 2606:4700:4700::1111
";

/// The resolver state of a text whose nameserver addresses classify as
/// given: loopback (`Some(true)`), other (`Some(false)`) or not an IP
/// address (`None`), in order.
fn dns_state_of_text(resolv_conf: &str, expected_addresses: &[&str], classes: &[Option<bool>]) -> DnsState {
    let addresses = nameserver_addresses(resolv_conf);

    assert_eq!(addresses, expected_addresses);
    dns_state_from_classes(&classes.to_vec())
}

#[test]
fn parse_dns_fixture() {
    let state = dns_state_of_text(
        RESOLV_FIXTURE,
        &["127.0.0.53", "192.168.1.1"],
        &[Some(true), Some(false)],
    );

    assert_eq!(state, DnsState::Mixed);
}

#[test]
fn parse_dns_edge_case_fixture() {
    let state = dns_state_of_text(
        RESOLV_EDGE_CASES,
        &["not-an-address", "::1", "fe80::1%eth0", "2606:4700:4700::1111"],
        &[None, Some(true), None, Some(false)],
    );

    assert_eq!(state, DnsState::Mixed);
}

#[test]
fn classify_all_dns_states() {
    let cases: [(&str, &[&str], &[Option<bool>], DnsState); 4] = [
        (
            "# nameserver 127.0.0.1\nnameserver-invalid 1.1.1.1\nnameserver nope 9.9.9.9\n",
            &["nope"],
            &[None],
            DnsState::Missing,
        ),
        ("nameserver 127.0.0.53\nnameserver ::1\n", &["127.0.0.53", "::1"], &[Some(true), Some(true)], DnsState::Stub),
        (
            "nameserver 1.1.1.1\nnameserver 2606:4700:4700::1111\n",
            &["1.1.1.1", "2606:4700:4700::1111"],
            &[Some(false), Some(false)],
            DnsState::Direct,
        ),
        (
            "nameserver 127.0.0.53\nnameserver 9.9.9.9\n",
            &["127.0.0.53", "9.9.9.9"],
            &[Some(true), Some(false)],
            DnsState::Mixed,
        ),
    ];

    for (input, addresses, classes, expected) in cases {
        assert_eq!(dns_state_of_text(input, addresses, classes), expected);
    }
}
