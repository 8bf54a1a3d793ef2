use gpx_report::geo::distance_mm;
use gpx_report::metrics::{get_distance, get_duration, get_elevation};
use gpx_report::sample::{Sample, Timestamp};

fn ts(hour: u64, minute: u64, second: u64) -> Timestamp {
    Timestamp { year: 2021, month: 9, day: 16, hour, minute, second }
}

fn sample(ele_mm: i64, t: Timestamp, lat_udeg: i64, lon_udeg: i64) -> Sample {
    Sample { ele_mm, time: t, lat_udeg, lon_udeg }
}

#[test]
fn distance_is_deterministic() {
    let a = sample(1200, ts(10, 0, 0), 47_600_000, -122_300_000);
    let b = sample(3400, ts(10, 0, 30), 47_610_000, -122_310_000);
    let first = distance_mm(&a, &b);
    let second = distance_mm(&a, &b);
    assert_eq!(first, second);
}

#[test]
fn distance_to_self_is_zero() {
    let a = sample(1200, ts(10, 0, 0), 47_600_000, -122_300_000);
    assert_eq!(distance_mm(&a, &a), 0);
}

#[test]
fn distance_is_symmetric() {
    let a = sample(0, ts(10, 0, 0), 10_000_000, 20_000_000);
    let b = sample(0, ts(10, 0, 30), -35_000_000, 150_000_000);
    assert_eq!(distance_mm(&a, &b), distance_mm(&b, &a));
}

#[test]
fn one_degree_of_longitude_at_the_equator() {
    let a = sample(0, ts(10, 0, 0), 0, 0);
    let b = sample(0, ts(10, 0, 30), 0, 1_000_000);
    let d = distance_mm(&a, &b);
    // within one percent of 111,320 meters
    assert!(d >= 110_206_800, "too short: {} mm", d);
    assert!(d <= 112_433_200, "too long: {} mm", d);
}

#[test]
fn elevation_gain_ascending_includes_baseline() {
    let pts = vec![
        sample(0, ts(10, 0, 0), 0, 0),
        sample(10_000, ts(10, 0, 10), 0, 0),
        sample(25_000, ts(10, 0, 20), 0, 0),
    ];
    assert_eq!(get_elevation(&pts), 25_000);
}

#[test]
fn elevation_gain_descending_is_baseline_only() {
    let pts = vec![
        sample(50_000, ts(10, 0, 0), 0, 0),
        sample(40_000, ts(10, 0, 10), 0, 0),
        sample(30_000, ts(10, 0, 20), 0, 0),
    ];
    assert_eq!(get_elevation(&pts), 50_000);
}

#[test]
fn elevation_gain_mixed_adds_only_rises() {
    let pts = vec![
        sample(100_000, ts(10, 0, 0), 0, 0),
        sample(90_000, ts(10, 0, 10), 0, 0),
        sample(110_500, ts(10, 0, 20), 0, 0),
    ];
    assert_eq!(get_elevation(&pts), 100_000 + 20_500);
}

#[test]
fn total_distance_of_single_sample_is_zero() {
    let pts = vec![sample(0, ts(10, 0, 0), 47_600_000, -122_300_000)];
    assert_eq!(get_distance(&pts), 0);
}

#[test]
fn total_distance_sums_consecutive_legs() {
    let a = sample(0, ts(10, 0, 0), 0, 0);
    let b = sample(0, ts(10, 0, 30), 0, 1_000_000);
    let c = sample(0, ts(10, 1, 0), 0, 2_000_000);
    let pts = vec![a, b, c];
    let expected = distance_mm(&b, &a) as u128 + distance_mm(&c, &b) as u128;
    assert_eq!(get_distance(&pts), expected);
}

#[test]
fn duration_of_ninety_second_gap() {
    let pts = vec![sample(0, ts(11, 3, 1), 0, 0), sample(0, ts(11, 4, 31), 0, 0)];
    assert_eq!(get_duration(&pts), 90);
}

#[test]
fn duration_can_be_negative_when_unordered() {
    let pts = vec![sample(0, ts(11, 4, 31), 0, 0), sample(0, ts(11, 3, 1), 0, 0)];
    assert_eq!(get_duration(&pts), -90);
}

#[test]
fn epoch_seconds_of_known_instant() {
    let t = ts(11, 3, 1);
    assert_eq!(t.epoch_seconds(), 1_631_790_181);
    assert_eq!(t.weekday(), 4);
}
