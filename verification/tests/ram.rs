use dwm_status::ram::{from_meminfo, from_meminfo_value};

const MEMINFO: &str = "MemTotal:        1000000 kB\n\
MemFree:          500000 kB\n\
MemAvailable:     625000 kB\n\
Buffers:           20000 kB\n\
Cached:           100000 kB\n\
SwapCached:            0 kB\n\
SReclaimable:      10000 kB\n\
SwapTotal:       2000000 kB\n";

const MEMINFO_LEGACY: &str = "MemTotal:        1000000 kB\n\
MemFree:          200000 kB\n\
Buffers:           30000 kB\n\
Cached:           150000 kB\n\
SwapCached:            0 kB\n\
SReclaimable:      50000 kB\n";

/// Parse a complete meminfo fixture without reading the host.
#[test]
fn parse_meminfo_fixture() {
    let snapshot = from_meminfo(MEMINFO).unwrap();

    assert_eq!(snapshot.total, 1_024_000_000);
    assert_eq!(snapshot.used, 384_000_000);
}

/// Fall back to free, buffer, cache, and reclaimable slab bytes.
#[test]
fn parse_legacy_meminfo_fixture() {
    let snapshot = from_meminfo(MEMINFO_LEGACY).unwrap();

    assert_eq!(snapshot.total, 1_024_000_000);
    assert_eq!(snapshot.used, 583_680_000);
}

/// Reject meminfo with a malformed total field.
#[test]
fn reject_meminfo_without_numeric_total() {
    let snapshot = from_meminfo("MemTotal: unknown kB\nMemFree: 20 kB\n");

    assert_eq!(
        snapshot.unwrap_err(),
        "Invalid MemTotal value: unknown".to_string(),
    );
}

/// Require the total field before calculating a percentage.
#[test]
fn reject_missing_memtotal() {
    let snapshot = from_meminfo("MemFree: 20 kB\n");

    assert_eq!(
        snapshot.unwrap_err(),
        "MemTotal is missing from /proc/meminfo".to_string(),
    );
}

/// Report a malformed optional field instead of treating it as zero.
#[test]
fn reject_malformed_available_value() {
    let snapshot = from_meminfo("MemTotal: 100 kB\nMemAvailable: unknown kB\n");

    assert_eq!(
        snapshot.unwrap_err(),
        "Invalid MemAvailable value: unknown".to_string(),
    );
}

/// Parse the kernel-style unit suffix from meminfo.
#[test]
fn parse_meminfo_kib_line() {
    let bytes = from_meminfo_value("MemTotal", "32794828 kB").unwrap();

    assert_eq!(bytes, 33_581_903_872);
}

/// Saturate inconsistent kernel values instead of exceeding 100%.
#[test]
fn saturate_available_above_total() {
    let snapshot = from_meminfo("MemTotal: 100 kB\nMemAvailable: 120 kB\n").unwrap();

    assert_eq!(snapshot.used, 0);
    assert_eq!(snapshot.used * 100 / snapshot.total, 0);
}

/// Bound the old-kernel fallback when reclaimable fields exceed total.
#[test]
fn saturate_legacy_available_above_total() {
    let snapshot = from_meminfo("MemTotal: 100 kB\nMemFree: 60 kB\nCached: 60 kB\n").unwrap();

    assert_eq!(snapshot.used, 0);
    assert_eq!(snapshot.used * 100 / snapshot.total, 0);
}

/// A zero total is an error rather than a division by zero.
#[test]
fn reject_zero_memtotal() {
    assert_eq!(
        from_meminfo("MemTotal: 0 kB\n").unwrap_err(),
        "MemTotal must be greater than zero".to_string(),
    );
}

/// Units other than kibibytes are refused with the field named.
#[test]
fn reject_unknown_unit() {
    assert_eq!(
        from_meminfo_value("MemFree", "20 MB").unwrap_err(),
        "Invalid MemFree unit: MB".to_string(),
    );
    assert_eq!(
        from_meminfo_value("MemFree", "20").unwrap_err(),
        "Invalid MemFree unit: ".to_string(),
    );
}

/// A value whose byte count does not fit is refused.
#[test]
fn reject_value_too_large() {
    let huge = format!("{} kB", u128::MAX / 1000);

    assert_eq!(
        from_meminfo_value("MemTotal", huge.as_str()).unwrap_err(),
        "MemTotal value is too large".to_string(),
    );
}

/// The last of repeated fields wins, and unrelated lines are ignored.
#[test]
fn later_fields_replace_earlier_ones() {
    let snapshot = from_meminfo(
        "Garbage line\nMemTotal: 10 kB\nMemAvailable: 2 kB\nMemAvailable: 4 kB\nHugePages_Total: 0\n",
    ).unwrap();

    assert_eq!(snapshot.total, 10_240);
    assert_eq!(snapshot.used, 6_144);
}

#[test]
fn ram_output_layout() {
    assert_eq!(
        dwm_status::ram::format_ram_output("ram ", "1.5G", "39"),
        "ram 1.5G · 39%"
    );
}
