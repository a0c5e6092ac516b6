use dwm_status::config::{ConnectivityConfig, ConnectivityFormat};
use dwm_status::connectivity::{format_connectivity_output, to_compact_output, to_full_output};
use dwm_status::network::{ConnectivitySnapshot, DnsState, InterfaceKind, InterfaceState};

fn snapshot(link_up: bool) -> ConnectivitySnapshot {
    ConnectivitySnapshot {
        primary_iface: Some(InterfaceState {
            name: "wlan0".to_string(),
            kind: InterfaceKind::Wireless,
            link_up,
        }),
        has_default_route: true,
        dns_state: DnsState::Stub,
    }
}

#[test]
fn compact_output_with_all_fields() {
    let config = ConnectivityConfig::default();
    assert_eq!(to_compact_output(&config, &snapshot(true)), "W:wlan0 gw stub");
    assert_eq!(to_compact_output(&config, &snapshot(false)), "W:wlan0 gw stub down");
}

#[test]
fn compact_output_without_interface() {
    let config = ConnectivityConfig::default();
    let none = ConnectivitySnapshot {
        primary_iface: None,
        has_default_route: false,
        dns_state: DnsState::Missing,
    };
    assert_eq!(to_compact_output(&config, &none), "no-iface no-gw no-dns");
}

#[test]
fn compact_output_respects_toggles() {
    let mut config = ConnectivityConfig::default();
    config.show_kind = false;
    config.show_dns = false;
    assert_eq!(to_compact_output(&config, &snapshot(true)), "wlan0 gw");
    config.show_iface = false;
    config.show_route = false;
    assert_eq!(to_compact_output(&config, &snapshot(true)), "");
}

#[test]
fn full_output_with_all_fields() {
    let config = ConnectivityConfig::default();
    assert_eq!(
        to_full_output(&config, &snapshot(true)),
        "kind:wifi iface:wlan0 link:up route:yes dns:stub"
    );
}

#[test]
fn block_starts_with_glyph() {
    let mut config = ConnectivityConfig::default();
    config.glyph = "net ".to_string();
    config.format = ConnectivityFormat::Full;
    config.show_kind = false;
    assert_eq!(
        format_connectivity_output(&config, &snapshot(false)),
        "net iface:wlan0 link:down route:yes dns:stub"
    );
}

fn iface(name: &str, kind: InterfaceKind, link_up: bool) -> Option<InterfaceState> {
    Some(InterfaceState { name: name.to_string(), kind, link_up })
}

#[test]
fn typical_compact_outputs() {
    let config = ConnectivityConfig::default();
    let cases = [
        (iface("wlp4s0", InterfaceKind::Wireless, true), true, DnsState::Stub, "W:wlp4s0 gw stub"),
        (iface("wg0", InterfaceKind::Tunnel, true), true, DnsState::Direct, "T:wg0 gw dns"),
        (iface("enp10s0", InterfaceKind::Wired, false), false, DnsState::Direct, "E:enp10s0 no-gw dns down"),
    ];

    for (primary_iface, has_default_route, dns_state, expected) in cases {
        let snapshot = ConnectivitySnapshot { primary_iface, has_default_route, dns_state };
        assert_eq!(to_compact_output(&config, &snapshot), expected);
    }
}
