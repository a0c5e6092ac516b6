use chrono::{FixedOffset, TimeZone};
use dwm_status::clock::{
    clock_zone_from, clock_granularity, contains_any, finish_clock_value, format_clock_output,
    inject_timezone_placeholder, normalize_zone_label, parse_clock_zone, timezone_placeholder,
    ClockGranularity, ClockZone,
};

#[test]
fn second_granularity_for_second_formats() {
    assert!(matches!(clock_granularity("%H:%M:%S"), ClockGranularity::Second));
}

#[test]
fn minute_granularity_for_minute_formats() {
    assert!(matches!(clock_granularity("%H:%M"), ClockGranularity::Minute));
}

#[test]
fn day_granularity_for_date_formats() {
    assert!(matches!(clock_granularity("%Y-%m-%d"), ClockGranularity::Day));
}

#[test]
fn default_format_refreshes_every_second() {
    assert_eq!(clock_granularity("%a %d %b %Y %X %Z"), ClockGranularity::Second);
    assert_eq!(clock_granularity("%I %p"), ClockGranularity::Minute);
    assert_eq!(clock_granularity("week %V"), ClockGranularity::Day);
}

#[test]
fn parse_empty_timezone_as_local() {
    let timezone = parse_clock_zone("").unwrap();

    assert!(matches!(timezone, ClockZone::Local));
}

#[test]
fn parse_blank_timezone_as_local() {
    assert!(matches!(parse_clock_zone("   ").unwrap(), ClockZone::Local));
}

#[test]
fn reject_invalid_timezone() {
    let timezone = parse_clock_zone("Mars/Olympus_Mons");

    assert!(timezone.is_err());
}

#[test]
fn invalid_timezone_error_names_the_zone() {
    assert_eq!(
        parse_clock_zone(" Mars/Olympus_Mons ").unwrap_err(),
        "Unsupported clock timezone: Mars/Olympus_Mons"
    );
}

#[test]
fn parse_named_timezone() {
    match parse_clock_zone("Europe/Berlin").unwrap() {
        ClockZone::Named(tz) => assert_eq!(tz, chrono_tz::Tz::Europe__Berlin),
        ClockZone::Local => panic!("expected a named zone"),
    }
}

#[test]
fn inject_placeholder_for_zone_directive_only() {
    let p = timezone_placeholder();
    assert_eq!(inject_timezone_placeholder("%H:%M %Z"), format!("%H:%M {p}"));
    assert_eq!(inject_timezone_placeholder("100%% %Z%"), format!("100%% {p}%"));
    assert_eq!(inject_timezone_placeholder("%%Z"), "%%Z");
}

#[test]
fn render_utc_for_zero_offset_zone_label() {
    let formatted = format!("10:30 {}", timezone_placeholder());
    assert_eq!(finish_clock_value(&formatted, "+00:00"), "10:30 UTC");
    assert_eq!(finish_clock_value(&formatted, "CET"), "10:30 CET");
    assert_eq!(normalize_zone_label("+0000"), "UTC");
    assert_eq!(normalize_zone_label("+01:00"), "+01:00");
}

#[test]
fn clock_output_trims_value() {
    assert_eq!(format_clock_output("clk ", "  10:30 UTC \n"), "clk 10:30 UTC");
}

#[test]
fn contains_any_finds_token() {
    assert!(contains_any("a %M b", &["%H", "%M"]));
    assert!(!contains_any("a b", &["%H", "%M"]));
}

#[test]
fn plain_text_passes_through() {
    assert_eq!(inject_timezone_placeholder("week 12"), "week 12");
    assert_eq!(finish_clock_value("10:30", "+00:00"), "10:30");
}

#[test]
fn zone_from_lookup_result() {
    let berlin = chrono_tz::Tz::Europe__Berlin;
    assert!(matches!(clock_zone_from("Europe/Berlin", Some(berlin)), Ok(ClockZone::Named(z)) if z == berlin));
    assert_eq!(
        clock_zone_from("Mars/Olympus_Mons", None).unwrap_err(),
        "Unsupported clock timezone: Mars/Olympus_Mons"
    );
}

#[test]
fn render_utc_for_zero_offset_zone_name() {
    let now = FixedOffset::east_opt(0).unwrap().with_ymd_and_hms(2026, 3, 22, 10, 30, 45).unwrap();
    let format = inject_timezone_placeholder("%H:%M %Z");
    let formatted = now.format(format.as_str()).to_string();
    let label = now.format("%Z").to_string();

    assert_eq!(finish_clock_value(&formatted, &label), "10:30 UTC");
}
