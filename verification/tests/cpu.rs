use dwm_status::cpu::{
    CpuHistory, CpuSnapshot,
    bucket_ranges, core_deltas, proc_stat_sums_fit, sparkline_char, usage_deltas,
    best_hwmon_temperature, best_thermal_temperature, format_cpu_output, from_temperature_value,
    parse_cpu_line, parse_cpu_snapshot, read_cpu_temperature, score_hwmon_candidate,
    score_thermal_candidate, temperature_prefix, CpuSample, HwmonDevice, SensorFile, ThermalZone,
};

const PROC_STAT: &str = "cpu  100 20 30 40 10 0 0 0 0 0\n\
cpu0 50 10 15 20 5 0 0 0 0 0\n\
cpu1 50 10 15 20 5 0 0 0 0 0\n\
intr 12345 0 0 0\n\
ctxt 67890\n\
btime 1700000000\n\
processes 4242\n\
procs_running 2\n\
procs_blocked 0\n";

/// Parse a sysfs temperature fixture without reading host sensors.
#[test]
fn parse_temperature_fixture() {
    let value = from_temperature_value("47250\n");

    assert_eq!(value, Some(47_250));
}

/// Parse aggregate and per-core counters from procfs text.
#[test]
fn parse_cpu_snapshot_from_proc_stat() {
    let snapshot = parse_cpu_snapshot(PROC_STAT).unwrap();

    assert_eq!(snapshot.total, CpuSample { total: 200, idle: 50 });
    assert_eq!(snapshot.cores.len(), 2);
    assert_eq!(snapshot.cores[0], CpuSample { total: 100, idle: 25 });
}

/// Reject procfs text without an aggregate CPU row.
#[test]
fn reject_snapshot_without_aggregate_cpu() {
    let snapshot = parse_cpu_snapshot("cpu0 50 10 15 20 5 0 0 0 0 0\n");

    assert!(snapshot.is_err());
}

/// Prefer explicit CPU package sensors over generic devices.
#[test]
fn score_cpu_hwmon_labels_above_noise() {
    assert!(
        score_hwmon_candidate("k10temp", "Tctl")
            > score_hwmon_candidate("nvme", "Composite")
    );
}

/// Prefer thermal zones that clearly belong to the CPU.
#[test]
fn score_cpu_thermal_zones_above_board_zones() {
    assert!(score_thermal_candidate("x86_pkg_temp") > score_thermal_candidate("acpitz"));
}

/// Exact scores for the documented sensor names.
#[test]
fn score_values() {
    assert_eq!(score_hwmon_candidate("coretemp", "Package id 0"), 44);
    assert_eq!(score_hwmon_candidate("nvme", "Composite"), -10);
    assert_eq!(score_hwmon_candidate("acpitz", "Core 0"), -2);
    assert_eq!(score_thermal_candidate("x86_pkg_temp"), 24);
    assert_eq!(score_thermal_candidate("SoC"), 8);
    assert_eq!(score_thermal_candidate("acpitz"), -10);
    assert_eq!(score_thermal_candidate("iwlwifi_1"), 0);
}

/// Lines with too few columns, a bad column or another name give nothing.
#[test]
fn reject_malformed_cpu_lines() {
    assert!(parse_cpu_line("cpu0 1 2 3").is_none());
    assert!(parse_cpu_line("cpu0 1 2 x 4").is_none());
    assert!(parse_cpu_line("intr 1 2 3 4").is_none());
    assert!(parse_cpu_line("").is_none());

    let (name, sample) = parse_cpu_line("cpu3 1 2 3 4").unwrap();
    assert_eq!(name, "cpu3");
    assert_eq!(sample, CpuSample { total: 10, idle: 4 });
}

/// The last aggregate line wins.
#[test]
fn last_aggregate_line_wins() {
    let snapshot = parse_cpu_snapshot("cpu 1 1 1 1\ncpu 2 2 2 2\ncpu7 1 0 0 0 0\n").unwrap();

    assert_eq!(snapshot.total, CpuSample { total: 8, idle: 2 });
    assert_eq!(snapshot.cores, vec![CpuSample { total: 1, idle: 0 }]);
}

/// Temperatures outside the plausible range are ignored.
#[test]
fn reject_insane_temperatures() {
    assert_eq!(from_temperature_value("0"), None);
    assert_eq!(from_temperature_value("150000"), None);
    assert_eq!(from_temperature_value("-5000"), None);
    assert_eq!(from_temperature_value("abc"), None);
    assert_eq!(from_temperature_value(" 149999 "), Some(149_999));
}

/// Only `temp*_input` files carry a sensor prefix.
#[test]
fn temperature_prefix_matches_inputs() {
    assert_eq!(temperature_prefix("temp1_input"), Some("temp1".to_string()));
    assert_eq!(temperature_prefix("temp1_input_input"), Some("temp1".to_string()));
    assert_eq!(temperature_prefix("temp1_label"), None);
    assert_eq!(temperature_prefix("fan1_input"), None);
}

/// The best hwmon sensor wins, the earlier one on ties.
#[test]
fn pick_best_hwmon_sensor() {
    let devices = vec![
        HwmonDevice {
            name: Some("nvme\n".to_string()),
            files: vec![SensorFile {
                name: "temp1_input".to_string(),
                contents: Some("38000\n".to_string()),
            }],
        },
        HwmonDevice {
            name: Some("coretemp\n".to_string()),
            files: vec![
                SensorFile { name: "temp2_input".to_string(), contents: Some("51000\n".to_string()) },
                SensorFile { name: "temp2_label".to_string(), contents: Some("Core 0\n".to_string()) },
                SensorFile { name: "temp1_input".to_string(), contents: Some("47250\n".to_string()) },
                SensorFile { name: "temp1_label".to_string(), contents: Some("Package id 0\n".to_string()) },
                SensorFile { name: "temp3_input".to_string(), contents: Some("60000\n".to_string()) },
                SensorFile { name: "temp3_label".to_string(), contents: Some("Package id 0\n".to_string()) },
            ],
        },
    ];
    let best = best_hwmon_temperature(&devices).unwrap();

    assert_eq!(best.score, 44);
    assert_eq!(best.millidegrees, 47_250);
    assert_eq!(read_cpu_temperature(&devices, &vec![]), Some(47));
}

/// Thermal zones are used only when no hwmon sensor qualifies.
#[test]
fn fall_back_to_thermal_zones() {
    let zones = vec![
        ThermalZone { zone_type: Some("acpitz\n".to_string()), temp: Some("30000\n".to_string()) },
        ThermalZone { zone_type: Some("x86_pkg_temp\n".to_string()), temp: Some("52500\n".to_string()) },
        ThermalZone { zone_type: None, temp: Some("90000\n".to_string()) },
    ];
    let best = best_thermal_temperature(&zones).unwrap();

    assert_eq!(best.score, 24);
    assert_eq!(read_cpu_temperature(&vec![], &zones), Some(53));
    assert_eq!(read_cpu_temperature(&vec![], &vec![]), None);
}

/// The CPU block shows usage, sparkline and temperature in order.
#[test]
fn format_cpu_block() {
    assert_eq!(format_cpu_output("cpu ", 42, "▁▂", Some(47)), "cpu 42% ▁▂ 47°");
    assert_eq!(format_cpu_output("", 7, "", None), "7%");
    assert_eq!(format_cpu_output("", 0, "", Some(-3)), "0% -3°");
}

#[test]
fn usage_deltas_saturate() {
    let previous = CpuSample { total: 100, idle: 50 };
    assert_eq!(usage_deltas(CpuSample { total: 200, idle: 90 }, previous), (60, 100));
    assert_eq!(usage_deltas(CpuSample { total: 90, idle: 40 }, previous), (0, 0));
    assert_eq!(usage_deltas(CpuSample { total: 110, idle: 70 }, previous), (0, 10));
}

#[test]
fn core_deltas_align_with_history() {
    let current = vec![CpuSample { total: 20, idle: 10 }, CpuSample { total: 30, idle: 5 }];
    let previous = vec![CpuSample { total: 10, idle: 5 }];
    assert_eq!(core_deltas(&current, &previous), vec![(5, 10), (25, 30)]);
    assert_eq!(core_deltas(&Vec::new(), &previous), Vec::<(u64, u64)>::new());
}

#[test]
fn compress_core_usages_to_eight_buckets() {
    let usages = [10.0, 20.0, 30.0, 40.0, 50.0, 60.0, 70.0, 80.0, 90.0, 100.0];
    let compressed: Vec<f64> = bucket_ranges(usages.len(), 8)
        .into_iter()
        .map(|(start, end)| usages[start..end].iter().sum::<f64>() / (end - start) as f64)
        .collect();

    assert_eq!(compressed.len(), 8);
    assert_eq!(compressed[0], 10.0);
    assert_eq!(compressed[7], 95.0);
}

#[test]
fn bucket_ranges_partition_cores() {
    assert_eq!(
        bucket_ranges(11, 8),
        vec![(0, 1), (1, 2), (2, 4), (4, 5), (5, 6), (6, 8), (8, 9), (9, 11)]
    );
    assert_eq!(bucket_ranges(3, 8), vec![(0, 1), (1, 2), (2, 3)]);
    assert_eq!(bucket_ranges(3, 0), vec![(0, 1), (1, 2), (2, 3)]);
    assert_eq!(bucket_ranges(0, 4), Vec::<(usize, usize)>::new());
}

#[test]
fn sparkline_levels() {
    assert_eq!(sparkline_char(0), '▁');
    assert_eq!(sparkline_char(8), '▉');
    assert_eq!(sparkline_char(20), '▉');
}

#[test]
fn detect_counter_overflow() {
    assert!(proc_stat_sums_fit(PROC_STAT));
    assert!(!proc_stat_sums_fit("cpu 18446744073709551615 1 0 0\n"));
    assert!(proc_stat_sums_fit("cpu 18446744073709551615 x 1\n"));
    assert!(proc_stat_sums_fit("intr 18446744073709551615 1\n"));
}

#[test]
fn history_compares_with_previous_sample() {
    let mut history = CpuHistory::new();
    let first = history.advance(CpuSnapshot {
        total: CpuSample { total: 100, idle: 50 },
        cores: vec![CpuSample { total: 40, idle: 10 }],
    });
    assert_eq!(first.total, (50, 100));
    assert_eq!(first.cores, vec![(30, 40)]);

    let second = history.advance(CpuSnapshot {
        total: CpuSample { total: 200, idle: 90 },
        cores: vec![CpuSample { total: 60, idle: 20 }, CpuSample { total: 5, idle: 5 }],
    });
    assert_eq!(second.total, (60, 100));
    assert_eq!(second.cores, vec![(10, 20), (0, 5)]);
    assert_eq!(history.previous_cores.len(), 2);
}

#[test]
fn calculate_usage_from_two_samples() {
    let current = CpuSample { total: 200, idle: 90 };
    let previous = CpuSample { total: 100, idle: 50 };
    let (busy, total) = usage_deltas(current, previous);

    assert_eq!(busy * 100 / total, 60);
}
