use std::time::Duration;

use poe_bridge::units::{format_bytes_length, format_duration};

fn reference_bytes(bytes: usize) -> String {
    if bytes < 1024 {
        format!("{} B", bytes)
    } else if bytes < 1024 * 1024 {
        format!("{:.2} KB", bytes as f64 / 1024.0)
    } else {
        format!("{:.2} MB", bytes as f64 / (1024.0 * 1024.0))
    }
}

fn reference_duration(duration: Duration) -> String {
    if duration.as_secs() > 0 {
        format!("{:.2}s", duration.as_secs_f64())
    } else {
        format!("{}ms", duration.as_millis())
    }
}

fn next_random(state: &mut u64) -> u64 {
    *state ^= *state << 13;
    *state ^= *state >> 7;
    *state ^= *state << 17;
    *state
}

#[test]
fn bytes_below_a_kilobyte_are_whole() {
    assert_eq!(format_bytes_length(0), "0 B");
    assert_eq!(format_bytes_length(7), "7 B");
    assert_eq!(format_bytes_length(1023), "1023 B");
}

#[test]
fn kilobytes_have_two_places() {
    assert_eq!(format_bytes_length(1024), "1.00 KB");
    assert_eq!(format_bytes_length(1536), "1.50 KB");
    assert_eq!(format_bytes_length(1024 * 1024 - 1), "1024.00 KB");
}

#[test]
fn ties_go_to_the_even_digit() {
    assert_eq!(format_bytes_length(1152), "1.12 KB");
    assert_eq!(format_bytes_length(1408), "1.38 KB");
}

#[test]
fn megabytes_have_two_places() {
    assert_eq!(format_bytes_length(1024 * 1024), "1.00 MB");
    assert_eq!(format_bytes_length(5 * 1024 * 1024 + 512 * 1024), "5.50 MB");
    assert_eq!(format_bytes_length(usize::MAX), reference_bytes(usize::MAX));
}

#[test]
fn sizes_agree_with_floating_point() {
    for bytes in 0..200_000usize {
        assert_eq!(format_bytes_length(bytes), reference_bytes(bytes));
    }
    let mut state: u64 = 0x9E37_79B9_7F4A_7C15;
    for round in 0..200_000u32 {
        let bytes = (next_random(&mut state) >> (round % 64)) as usize;
        assert_eq!(format_bytes_length(bytes), reference_bytes(bytes));
    }
}

#[test]
fn durations_below_a_second_are_milliseconds() {
    assert_eq!(format_duration(Duration::from_millis(0)), "0ms");
    assert_eq!(format_duration(Duration::from_micros(999_999)), "999ms");
    assert_eq!(format_duration(Duration::from_millis(42)), "42ms");
}

#[test]
fn longer_durations_are_seconds() {
    assert_eq!(format_duration(Duration::from_millis(1000)), "1.00s");
    assert_eq!(format_duration(Duration::from_millis(1005)), "1.00s");
    assert_eq!(format_duration(Duration::from_millis(1015)), "1.01s");
    assert_eq!(format_duration(Duration::from_millis(12_340)), "12.34s");
    assert_eq!(format_duration(Duration::MAX), reference_duration(Duration::MAX));
}

#[test]
fn durations_agree_with_floating_point() {
    for millis in 0..100_000u64 {
        let duration = Duration::from_millis(millis);
        assert_eq!(format_duration(duration), reference_duration(duration));
    }
    let mut state: u64 = 0xD1B5_4A32_D192_ED03;
    for round in 0..200_000u32 {
        let secs = next_random(&mut state) >> (round % 64);
        let nanos = (next_random(&mut state) % 1_000_000_000) as u32;
        let duration = Duration::new(secs, nanos);
        assert_eq!(format_duration(duration), reference_duration(duration));
        let tie = Duration::new(secs, (nanos / 10_000_000) * 10_000_000 + 5_000_000);
        assert_eq!(format_duration(tie), reference_duration(tie));
    }
}
