use vanity_principal::progress::{attempts_per_second, NANOS_PER_SECOND};

#[test]
fn rate_is_attempts_by_seconds() {
    assert_eq!(NANOS_PER_SECOND, 1_000_000_000);
    assert_eq!(attempts_per_second(100_000, 2, 0), Some(50_000));
    assert_eq!(attempts_per_second(100_000, 1, 0), Some(100_000));
    assert_eq!(attempts_per_second(0, 5, 0), Some(0));
    assert_eq!(attempts_per_second(300_000, 60, 0), Some(5_000));
}

#[test]
fn rate_counts_the_nanoseconds() {
    assert_eq!(attempts_per_second(100_000, 0, 500_000_000), Some(200_000));
    assert_eq!(attempts_per_second(1, 0, 1), Some(1_000_000_000));
    assert_eq!(attempts_per_second(100_000, 1, 500_000_000), Some(66_667));
    assert_eq!(attempts_per_second(7, 0, 250_000_000), Some(28));
}

#[test]
fn rate_is_rounded_to_the_nearest_whole_number() {
    assert_eq!(attempts_per_second(1, 3, 0), Some(0));
    assert_eq!(attempts_per_second(2, 3, 0), Some(1));
    assert_eq!(attempts_per_second(4, 3, 0), Some(1));
    assert_eq!(attempts_per_second(5, 3, 0), Some(2));
    assert_eq!(attempts_per_second(1, 2, 0), Some(1));
    assert_eq!(attempts_per_second(3, 2, 0), Some(2));
    assert_eq!(attempts_per_second(5, 2, 0), Some(3));
    assert_eq!(attempts_per_second(1, 2, 1), Some(0));
}

#[test]
fn rate_without_elapsed_time_is_none() {
    assert_eq!(attempts_per_second(0, 0, 0), None);
    assert_eq!(attempts_per_second(100_000, 0, 0), None);
}

#[test]
fn rate_of_the_largest_values_does_not_overflow() {
    assert_eq!(attempts_per_second(u64::MAX, u64::MAX, 0), Some(1));
    assert_eq!(attempts_per_second(u64::MAX, u64::MAX, u32::MAX), Some(1));
    assert_eq!(
        attempts_per_second(u64::MAX, 0, 1),
        Some(u64::MAX as u128 * 1_000_000_000)
    );
    assert_eq!(attempts_per_second(1, u64::MAX, u32::MAX), Some(0));
}
