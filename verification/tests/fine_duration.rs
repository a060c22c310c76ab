use divan::time::fine_duration::{FineDuration, TimeScale, DAY, HOUR, MAX_CLOCK_NANOS, MILLIS, MIN, SEC};

fn check(picos: u128, expected: &str) {
    assert_eq!(FineDuration { picos }.fmt(), expected);
}

#[test]
fn nanos_convert_without_loss() {
    assert_eq!(FineDuration::from_nanos(0).picos, 0);
    assert_eq!(FineDuration::from_nanos(1).picos, 1_000);
    assert_eq!(FineDuration::from_nanos(1_234_567).picos, 1_234_567_000);
    assert_eq!(
        FineDuration::from_nanos(MAX_CLOCK_NANOS).picos,
        MAX_CLOCK_NANOS * 1_000
    );
}

#[test]
fn printed_value_grows_with_the_input() {
    // Within one scale bucket a larger picosecond count never prints a
    // smaller numeric value, even when fewer fractional digits survive.
    let pairs: [(u128, &str, u128, &str); 4] = [
        (1_234, "1.234ns", 9_876, "9.876ns"),
        (9_999, "9.999ns", 10_000, "10ns"),
        (99_990, "99.99ns", 100_000, "100ns"),
        (102_000, "102ns", 120_000, "120ns"),
    ];
    for (a, a_str, b, b_str) in pairs {
        assert!(a < b);
        assert_eq!(FineDuration { picos: a }.fmt(), a_str);
        assert_eq!(FineDuration { picos: b }.fmt(), b_str);
    }
}

#[test]
fn every_count_lands_in_one_bucket() {
    let bounds: [u128; 7] = [1_000, 1_000_000, 1_000_000_000, SEC, MIN, HOUR, DAY];
    for b in bounds {
        // The value just below a boundary and the boundary itself land in
        // adjacent buckets; the suffix changes exactly at the boundary.
        let below = TimeScale::from_picos(b - 1);
        let at = TimeScale::from_picos(b);
        assert_ne!(below, at);
        assert_ne!(below.suffix(), at.suffix());
        assert_eq!(at.picos(), b);
    }
}

#[test]
fn max_time_scale() {
    assert_eq!(TimeScale::from_picos(MAX_CLOCK_NANOS * 1_000), TimeScale::Day);
}

#[test]
fn pico_sec() {
    check(000, "0ps");

    check(001, "1ps");
    check(010, "10ps");
    check(100, "100ps");

    check(102, "102ps");
    check(120, "120ps");
    check(123, "123ps");
    check(012, "12ps");
}

#[test]
fn nano_sec() {
    check(001_000, "1ns");
    check(010_000, "10ns");
    check(100_000, "100ns");

    check(100_002, "100ns");
    check(100_020, "100ns");
    check(100_200, "100.2ns");
    check(102_000, "102ns");
    check(120_000, "120ns");

    check(001_002, "1.002ns");
    check(001_023, "1.023ns");
    check(001_234, "1.234ns");
    check(001_230, "1.23ns");
    check(001_200, "1.2ns");
}

#[test]
fn micro_sec() {
    check(001_000_000, "1µs");
    check(010_000_000, "10µs");
    check(100_000_000, "100µs");

    check(100_000_002, "100µs");
    check(100_000_020, "100µs");
    check(100_000_200, "100µs");
    check(100_002_000, "100µs");
    check(100_020_000, "100µs");
    check(100_200_000, "100.2µs");
    check(102_000_000, "102µs");

    check(120_000_000, "120µs");
    check(012_000_000, "12µs");
    check(001_200_000, "1.2µs");

    check(001_020_000, "1.02µs");
    check(001_002_000, "1.002µs");
    check(001_000_200, "1µs");
    check(001_000_020, "1µs");
    check(001_000_002, "1µs");

    check(001_230_000, "1.23µs");
    check(001_234_000, "1.234µs");
    check(001_234_500, "1.234µs");
    check(001_234_560, "1.234µs");
    check(001_234_567, "1.234µs");
}

#[test]
fn milli_sec() {
    check(001_000_000_000, "1ms");
    check(010_000_000_000, "10ms");
    check(100_000_000_000, "100ms");
}

#[test]
fn sec() {
    check(SEC, "1s");
    check(SEC * 10, "10s");
    check(SEC * 59, "59s");

    check(MILLIS * 59_999, "59.99s");
}

#[test]
fn min() {
    check(MIN, "1m");
    check(MIN * 10, "10m");
    check(MIN * 59, "59m");

    check(MILLIS * 3_599_000, "59.98m");
    check(MILLIS * 3_599_999, "59.99m");
    check(HOUR - 1, "59.99m");
}

#[test]
fn hour() {
    check(HOUR, "1h");
    check(HOUR * 10, "10h");
    check(HOUR * 23, "23h");

    check(MILLIS * 86_300_000, "23.97h");
    check(MILLIS * 86_399_999, "23.99h");
    check(DAY - 1, "23.99h");
}

#[test]
fn day() {
    check(DAY, "1d");

    check(DAY + DAY / 10, "1.1d");
    check(DAY + DAY / 100, "1.01d");
    check(DAY + DAY / 1000, "1.001d");

    check(DAY * 000010, "10d");
    check(DAY * 000100, "100d");
    check(DAY * 001000, "1000d");
    check(DAY * 010000, "10000d");
    check(DAY * 100000, "100000d");

    check(u128::MAX / 1000, "3938453320844195178d");
    check(u128::MAX, "3938453320844195178974d");
}
