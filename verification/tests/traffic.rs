use dwm_status::name_map::NameMap;
use dwm_status::network::{DevStats, InterfaceKind, InterfaceState};
use dwm_status::traffic::{format_traffic_output, traffic_deltas, traffic_source, TrafficCounters};

fn counters(iface: &str, recv_bytes: u128, trans_bytes: u128) -> TrafficCounters {
    TrafficCounters { iface: iface.to_string(), recv_bytes, trans_bytes }
}

#[test]
fn reset_rates_when_interface_changes() {
    let previous = Some(counters("eth0", 1_000, 2_000));
    let deltas = traffic_deltas(&previous, &counters("wlan0", 2_000, 3_000));

    assert_eq!(deltas, None);
}

#[test]
fn reset_rates_when_counters_decrease() {
    let previous = Some(counters("eth0", 2_000, 3_000));
    let deltas = traffic_deltas(&previous, &counters("eth0", 1_000, 2_000));

    assert_eq!(deltas, Some((0, 0)));
}

#[test]
fn deltas_between_samples_of_one_interface() {
    let previous = Some(counters("eth0", 1_000, 2_000));
    assert_eq!(traffic_deltas(&previous, &counters("eth0", 1_500, 2_250)), Some((500, 250)));
    assert_eq!(traffic_deltas(&None, &counters("eth0", 1, 1)), None);
}

#[test]
fn sample_only_listed_primary_interface() {
    let mut dev = NameMap::new();
    dev.insert("eth0".to_string(), DevStats { recv_bytes: 7, trans_bytes: 9 });
    let eth = Some(InterfaceState { name: "eth0".to_string(), kind: InterfaceKind::Wired, link_up: true });
    let wlan = Some(InterfaceState { name: "wlan0".to_string(), kind: InterfaceKind::Wireless, link_up: true });

    let sample = traffic_source(&eth, &dev).unwrap();
    assert_eq!((sample.iface.as_str(), sample.recv_bytes, sample.trans_bytes), ("eth0", 7, 9));
    assert!(traffic_source(&wlan, &dev).is_none());
    assert!(traffic_source(&None, &dev).is_none());
}

#[test]
fn traffic_output_layout() {
    assert_eq!(format_traffic_output("net ", "1.5M", "999B"), "net ↓1.5M ↑999B");
}
