use clx::format::{format_bytes, format_count, format_duration};
use clx::metrics::{
    bytes_progress_text, calculate_eta, calculate_rate_string, eta_text, format_rate,
    percentage_text, safe_prefix, truncate_text,
};
use clx::progress::Progress;
use std::time::Duration;

#[test]
fn test_format_duration_seconds() {
    assert_eq!(format_duration(Duration::from_secs(0).as_secs()), "0s");
    assert_eq!(format_duration(Duration::from_secs(1).as_secs()), "1s");
    assert_eq!(format_duration(Duration::from_secs(30).as_secs()), "30s");
    assert_eq!(format_duration(Duration::from_secs(59).as_secs()), "59s");
}

#[test]
fn test_format_duration_minutes() {
    assert_eq!(format_duration(Duration::from_secs(60).as_secs()), "1m0s");
    assert_eq!(format_duration(Duration::from_secs(61).as_secs()), "1m1s");
    assert_eq!(format_duration(Duration::from_secs(90).as_secs()), "1m30s");
    assert_eq!(format_duration(Duration::from_secs(3599).as_secs()), "59m59s");
}

#[test]
fn test_format_duration_hours() {
    assert_eq!(format_duration(Duration::from_secs(3600).as_secs()), "1h0m0s");
    assert_eq!(format_duration(Duration::from_secs(3661).as_secs()), "1h1m1s");
    assert_eq!(format_duration(Duration::from_secs(7200).as_secs()), "2h0m0s");
    assert_eq!(format_duration(Duration::from_secs(86399).as_secs()), "23h59m59s");
}

#[test]
fn test_format_bytes_bytes() {
    assert_eq!(format_bytes(0), "0 B");
    assert_eq!(format_bytes(1), "1 B");
    assert_eq!(format_bytes(512), "512 B");
    assert_eq!(format_bytes(1023), "1023 B");
}

#[test]
fn test_format_bytes_kilobytes() {
    assert_eq!(format_bytes(1024), "1.0 KB");
    assert_eq!(format_bytes(1536), "1.5 KB");
    assert_eq!(format_bytes(10240), "10.0 KB");
    assert_eq!(format_bytes(1024 * 1023), "1023.0 KB");
}

#[test]
fn test_format_bytes_megabytes() {
    assert_eq!(format_bytes(1024 * 1024), "1.0 MB");
    assert_eq!(format_bytes(1024 * 1024 + 512 * 1024), "1.5 MB");
    assert_eq!(format_bytes(100 * 1024 * 1024), "100.0 MB");
}

#[test]
fn test_format_bytes_gigabytes() {
    assert_eq!(format_bytes(1024 * 1024 * 1024), "1.0 GB");
    assert_eq!(format_bytes(2 * 1024 * 1024 * 1024), "2.0 GB");
}

#[test]
fn test_format_count() {
    assert_eq!(format_count(0, 1), "0");
    assert_eq!(format_count(999, 1), "999");
    assert_eq!(format_count(1000, 1), "1.0K");
    assert_eq!(format_count(1500, 1), "1.5K");
    assert_eq!(format_count(999_999, 1), "1000.0K");
    assert_eq!(format_count(1_000_000, 1), "1.0M");
    assert_eq!(format_count(1_500_000, 1), "1.5M");
    assert_eq!(format_count(1_000_000_000, 1), "1.0B");
    assert_eq!(format_count(2_500_000_000, 1), "2.5B");
    assert_eq!(format_count(1_234_567, 0), "1M");
    assert_eq!(format_count(1_234_567, 2), "1.23M");
}

#[test]
fn format_count_many_decimals_pads_with_zeros() {
    assert_eq!(format_count(1_500, 5), "1.50000K");
    assert_eq!(format_count(2_500_000_000, 0), "2B");
    assert_eq!(format_count(3_500, 0), "4K");
}

#[test]
fn format_bytes_rounds_to_nearest_tenth() {
    assert_eq!(format_bytes(1024 + 51), "1.0 KB");
    assert_eq!(format_bytes(1024 + 52), "1.1 KB");
    assert_eq!(format_bytes(usize::MAX), "17179869184.0 GB");
}

#[test]
fn test_safe_prefix() {
    assert_eq!(safe_prefix("hello", 10), "hello");
    assert_eq!(safe_prefix("hello", 5), "hello");
    assert_eq!(safe_prefix("hello", 3), "he");
    assert_eq!(safe_prefix("hello", 1), "");
    assert_eq!(safe_prefix("hello", 0), "");

    let s = "helloworld";
    assert_eq!(safe_prefix(s, 5), "hell");
}

#[test]
fn safe_prefix_cuts_at_char_boundaries() {
    // "é" takes two bytes.
    assert_eq!(safe_prefix("aéb", 3), "a");
    assert_eq!(safe_prefix("aéb", 4), "aéb");
    assert_eq!(safe_prefix("aéb", 2), "a");
}

#[test]
fn truncate_text_adds_ellipsis() {
    assert_eq!(truncate_text("short", 10), "short");
    assert_eq!(truncate_text("hello world", 6), "hell\u{2026}");
    assert_eq!(truncate_text("hello world", 1), "\u{2026}");
}

#[test]
fn test_template_elapsed_renders() {
    assert_eq!(format_duration(0), "0s");
}

#[test]
fn test_template_eta_no_progress() {
    assert_eq!(eta_text(None, None, 0, false), "-");
}

#[test]
fn test_template_eta_hide_complete() {
    assert_eq!(eta_text(Some((100, 100)), None, 0, true), "");
}

#[test]
fn test_template_rate_no_progress() {
    assert_eq!(calculate_rate_string(None, None, 0), "-/s");
}

#[test]
fn test_template_rate_with_smoothed_rate() {
    assert_eq!(calculate_rate_string(Some((100, 200)), Some(10_000), 0), "10.0/s");
}

#[test]
fn test_template_rate_slow() {
    assert_eq!(calculate_rate_string(Some((1, 100)), Some(500), 0), "30.0/m");
}

#[test]
fn test_template_rate_very_slow() {
    assert_eq!(calculate_rate_string(Some((1, 100)), Some(10), 0), "0.01/s");
}

#[test]
fn test_template_bytes_no_progress() {
    assert_eq!(bytes_progress_text(None, false, true), "");
}

#[test]
fn test_template_bytes_with_progress() {
    assert_eq!(
        bytes_progress_text(Some((1024 * 512, 1024 * 1024)), false, true),
        "512.0 KB / 1.0 MB"
    );
}

#[test]
fn test_template_bytes_hide_complete() {
    assert_eq!(bytes_progress_text(Some((1024, 1024)), true, true), "");
}

#[test]
fn bytes_without_total() {
    assert_eq!(bytes_progress_text(Some((2048, 4096)), false, false), "2.0 KB");
}

#[test]
fn test_smoothed_rate_affects_eta_calculation() {
    assert_eq!(eta_text(Some((50, 100)), Some(10_000), 0, false), "5s");
}

#[test]
fn test_smoothed_rate_affects_rate_display() {
    assert_eq!(calculate_rate_string(Some((50, 100)), Some(42_500), 0), "42.5/s");
}

#[test]
fn test_rate_with_zero_smoothed_rate() {
    assert_eq!(calculate_rate_string(Some((50, 100)), Some(0), 0), "-/s");
}

#[test]
fn test_rate_fallback_to_average() {
    // 100 items in 4 seconds.
    assert_eq!(calculate_rate_string(Some((100, 200)), None, 4000), "25.0/s");
}

#[test]
fn test_eta_fallback_to_linear_extrapolation() {
    // Half done after 30 s: 30 s left.
    let (eta, complete) = calculate_eta(Some((50, 100)), None, 30_000);
    assert_eq!(eta.as_deref(), Some("30s"));
    assert!(!complete);
}

#[test]
fn test_eta_with_zero_smoothed_rate() {
    let (eta, complete) = calculate_eta(Some((50, 100)), Some(0), 90_000);
    assert_eq!(eta.as_deref(), Some("1m30s"));
    assert!(!complete);
}

#[test]
fn eta_of_finished_work_is_zero_and_complete() {
    let (eta, complete) = calculate_eta(Some((100, 100)), Some(5_000), 1000);
    assert_eq!(eta.as_deref(), Some("0s"));
    assert!(complete);
}

#[test]
fn format_rate_units() {
    assert_eq!(format_rate(1000), "1.0/s");
    assert_eq!(format_rate(17), "1.0/m");
    assert_eq!(format_rate(16), "0.02/s");
    assert_eq!(format_rate(0), "-/s");
}

#[test]
fn progress_counter_view() {
    let mut p = Progress::new(10);
    assert_eq!(p.view(), "0 / 10");
    p.update(7);
    assert_eq!(p.view(), "7 / 10");
}

#[test]
fn percentage_exact_decimals() {
    assert_eq!(percentage_text(Some((1, 3)), false, 2), "33.33%");
    assert_eq!(percentage_text(Some((2, 3)), false, 0), "67%");
    assert_eq!(percentage_text(Some((1, 8)), false, 1), "12.5%");
    assert_eq!(percentage_text(Some((1, 8)), false, 0), "12%");
    assert_eq!(percentage_text(Some((3, 2)), false, 0), "150%");
    assert_eq!(percentage_text(Some((1, 3)), false, 20), "33.33333333333333333333%");
    assert_eq!(percentage_text(Some((2, 3)), false, 25), "66.66666666666666666667%");
    assert_eq!(percentage_text(Some((0, 0)), false, 2), "0%");
    assert_eq!(percentage_text(None, false, 2), "");
    assert_eq!(percentage_text(Some((10, 10)), true, 0), "");
    assert_eq!(percentage_text(Some((10, 10)), false, 1), "100.0%");
}
