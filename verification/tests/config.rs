use dwm_status::config::{
    feature_from_name, parse_features,
    ClockConfig, Config, ConnectivityConfig, ConnectivityFormat, CpuConfig, FeatureName, GpuConfig,
    RamConfig, TrafficConfig,
};

/// A configuration with the given features and every block at its defaults.
fn config_with(features: Vec<FeatureName>) -> Config {
    Config {
        features,
        ..Config::default()
    }
}

/// Reject duplicate workers before runtime startup.
#[test]
fn reject_duplicate_features() {
    // features = ["clock", "cpu", "clock"]
    let config = config_with(vec![FeatureName::Clock, FeatureName::Cpu, FeatureName::Clock]);

    assert_eq!(
        config.validate(),
        Err("Duplicate feature: clock".to_string()),
    );
}

/// Refuse a status process that can never render a feature.
#[test]
fn reject_empty_feature_list() {
    // features = []
    let config = config_with(vec![]);

    assert_eq!(
        config.validate(),
        Err("At least one feature is required".to_string()),
    );
}

/// Refuse a zero resync interval instead of rewriting it.
#[test]
fn reject_zero_connectivity_idle() {
    // features = ["connectivity"], [connectivity] idle = 0
    let mut config = config_with(vec![FeatureName::Connectivity]);
    config.connectivity.idle = 0;

    assert_eq!(
        config.validate(),
        Err("connectivity.idle must be greater than zero".to_string()),
    );
}

/// Retain defaults when a valid feature table is only partial.
#[test]
fn default_valid_partial_table() {
    // features = ["connectivity"], [connectivity] glyph = "net "
    let config = Config {
        features: vec![FeatureName::Connectivity],
        connectivity: ConnectivityConfig {
            glyph: "net ".to_string(),
            ..ConnectivityConfig::default()
        },
        ..Config::default()
    };

    assert_eq!(config.connectivity.glyph, "net ");
    assert_eq!(config.connectivity.idle, 1);
    assert_eq!(config.connectivity.format, ConnectivityFormat::Compact);
    assert!(config.connectivity.show_iface);
    assert_eq!(config.validate(), Ok(()));
}

/// Every feature name keeps its TOML spelling.
#[test]
fn feature_names_spell_as_in_toml() {
    assert_eq!(FeatureName::Connectivity.as_str(), "connectivity");
    assert_eq!(FeatureName::Traffic.as_str(), "traffic");
    assert_eq!(FeatureName::Cpu.as_str(), "cpu");
    assert_eq!(FeatureName::Clock.as_str(), "clock");
    assert_eq!(FeatureName::Ram.as_str(), "ram");
    assert_eq!(FeatureName::Gpu.as_str(), "gpu");
}

/// The earliest repeat is the one reported.
#[test]
fn report_earliest_duplicate() {
    let config = config_with(vec![
        FeatureName::Gpu,
        FeatureName::Ram,
        FeatureName::Ram,
        FeatureName::Gpu,
    ]);

    assert_eq!(config.validate(), Err("Duplicate feature: ram".to_string()));
}

/// Duplicates are reported before a zero interval.
#[test]
fn duplicates_checked_before_idle() {
    let mut config = config_with(vec![FeatureName::Cpu, FeatureName::Cpu]);
    config.connectivity.idle = 0;

    assert_eq!(config.validate(), Err("Duplicate feature: cpu".to_string()));
}

/// The block defaults match the documented sample.
#[test]
fn block_defaults() {
    let clock = ClockConfig::default();
    let cpu = CpuConfig::default();

    assert_eq!(clock.format, "%a %d %b %Y %X %Z");
    assert_eq!(clock.timezone, "");
    assert_eq!(cpu.sparkline_width, 8);
    assert_eq!(RamConfig::default().glyph, "");
    assert_eq!(GpuConfig::default().glyph, "");
    assert_eq!(TrafficConfig::default().glyph, "");
    assert!(config_with(vec![FeatureName::Clock, FeatureName::Cpu]).validate().is_ok());
}

#[test]
fn reject_unsupported_feature_names() {
    let names = vec!["clock".to_string(), "bogus".to_string(), "vpn".to_string()];

    assert_eq!(
        parse_features(&names).unwrap_err(),
        "Unsupported features: bogus, vpn. Supported features: connectivity, traffic, cpu, clock, ram, gpu"
    );
}

#[test]
fn read_supported_feature_names() {
    let names = vec!["gpu".to_string(), "connectivity".to_string(), "gpu".to_string()];

    assert_eq!(
        parse_features(&names),
        Ok(vec![FeatureName::Gpu, FeatureName::Connectivity, FeatureName::Gpu])
    );
    assert_eq!(feature_from_name("Clock"), None);
    assert_eq!(feature_from_name("ram"), Some(FeatureName::Ram));
}
