use dwm_status::gpu::{
    first_gpu_line, from_csv_fields, from_gpu_telemetry, is_missing_field,
    vram_percent, GpuTelemetry, GPU_QUERY,
};

const NVIDIA_SMI_CSV: &str = "\n23, 1475, 8192, 47, 32\n5, 100, 4096, 40, 30\n";

/// Parse the compact CSV query row from nvidia-smi.
#[test]
fn parse_first_gpu_from_multirow_fixture() {
    let telemetry = from_gpu_telemetry(NVIDIA_SMI_CSV).unwrap();

    assert_eq!(
        telemetry,
        GpuTelemetry {
            usage_percent: Some(23),
            vram_percent: Some(18),
            temperature_celsius: Some(47),
            fan_percent: Some(32),
        }
    );
}

/// Accept partial telemetry when a field is not supported.
#[test]
fn parse_gpu_csv_row_with_missing_fan() {
    let telemetry = from_gpu_telemetry("23, 1475, 8192, 47, N/A\n").unwrap();

    assert_eq!(telemetry.fan_percent, None);
    assert_eq!(telemetry.usage_percent, Some(23));
}

/// Query occupancy inputs instead of memory-bus utilization.
#[test]
fn query_used_and_total_vram() {
    assert_eq!(
        GPU_QUERY,
        "utilization.gpu,memory.used,memory.total,temperature.gpu,fan.speed",
    );
}

/// Omit VRAM occupancy when either capacity input is unavailable.
#[test]
fn omit_unsupported_vram_values() {
    let missing_used = from_gpu_telemetry("23, N/A, 8192, 47, 32\n").unwrap();
    let missing_total = from_gpu_telemetry("23, 1475, N/A, 47, 32\n").unwrap();

    assert_eq!(missing_used.vram_percent, None);
    assert_eq!(missing_total.vram_percent, None);
}

/// Treat malformed and zero capacities as unavailable.
#[test]
fn omit_invalid_vram_values() {
    let malformed = from_gpu_telemetry("23, bad, 8192, 47, 32\n").unwrap();
    let zero_total = from_gpu_telemetry("23, 10, 0, 47, 32\n").unwrap();

    assert_eq!(malformed.vram_percent, None);
    assert_eq!(zero_total.vram_percent, None);
}

/// Round occupancy to the nearest whole percent and cap it at 100.
#[test]
fn round_and_bound_vram_percent() {
    assert_eq!(vram_percent(Some(1475), Some(8192)), Some(18));
    assert_eq!(vram_percent(Some(3), Some(8)), Some(38));
    assert_eq!(vram_percent(Some(12), Some(10)), Some(100));
}

/// Keep the rendered GPU block terse and ordered.
#[test]
fn format_gpu_output() {
    let output = dwm_status::gpu::format_gpu_output(
        "gpu ",
        GpuTelemetry {
            usage_percent: Some(23),
            vram_percent: Some(18),
            temperature_celsius: Some(47),
            fan_percent: Some(32),
        },
    );

    assert_eq!(output, "gpu 23% · V: 18% · T: 47° · F: 32%");
}

/// Missing segments are dropped and no usage means no block.
#[test]
fn format_partial_gpu_output() {
    let partial = GpuTelemetry {
        usage_percent: Some(5),
        vram_percent: None,
        temperature_celsius: Some(-2),
        fan_percent: None,
    };
    let empty = GpuTelemetry { usage_percent: None, ..partial };

    assert_eq!(dwm_status::gpu::format_gpu_output("", partial), "5% · T: -2°");
    assert_eq!(dwm_status::gpu::format_gpu_output("gpu ", empty), "");
}

/// No visible row and short rows are errors that quote the row.
#[test]
fn reject_missing_or_short_rows() {
    assert_eq!(
        from_gpu_telemetry("\n  \n").unwrap_err(),
        "nvidia-smi returned no GPU rows".to_string(),
    );
    assert_eq!(
        from_gpu_telemetry("  23, 10, 20 \n").unwrap_err(),
        "Incomplete GPU telemetry row: 23, 10, 20".to_string(),
    );
}

/// CSV helpers trim and keep empty fields.
#[test]
fn csv_helpers() {
    assert_eq!(first_gpu_line("\n\t\n x, y \n"), Some("x, y".to_string()));
    assert_eq!(from_csv_fields(" a ,b,, c"), vec!["a", "b", "", "c"]);
    assert!(is_missing_field(" [Not Supported] "));
    assert!(is_missing_field(""));
    assert!(!is_missing_field("0"));
}
