use caching_content_store::time::{now, time_of_reading, TimeSpan};

#[test]
fn new_counts_nanoseconds() {
    assert_eq!(TimeSpan::new(2, 5).as_nanos(), 2_000_000_005);
    assert_eq!(TimeSpan::new(1, 1_500_000_000).as_nanos(), 2_500_000_000);
    assert_eq!(TimeSpan::from_secs(100).as_nanos(), 100_000_000_000);
    assert_eq!(TimeSpan::from_nanos(42).as_nanos(), 42);
    assert_eq!(TimeSpan::zero().as_nanos(), 0);
    assert_eq!(
        TimeSpan::new(u64::MAX, u32::MAX).as_nanos(),
        u64::MAX as u128 * 1_000_000_000 + u32::MAX as u128
    );
}

#[test]
fn seconds_and_the_rest() {
    let span = TimeSpan::new(12, 345);
    assert_eq!(span.whole_secs(), 12);
    assert_eq!(span.subsec_nanos(), 345);
    let span = TimeSpan::from_nanos(999_999_999);
    assert_eq!(span.whole_secs(), 0);
    assert_eq!(span.subsec_nanos(), 999_999_999);
}

#[test]
fn saturating_add_stops_at_the_longest_span() {
    let a = TimeSpan::from_secs(1);
    assert_eq!(a.saturating_add(TimeSpan::from_secs(2)), TimeSpan::from_secs(3));
    let max = TimeSpan::from_nanos(u128::MAX);
    assert_eq!(max.saturating_add(a), max);
    assert_eq!(a.saturating_add(max), max);
    assert_eq!(TimeSpan::from_nanos(u128::MAX - 1).saturating_add(TimeSpan::from_nanos(1)), max);
}

#[test]
fn is_after_is_strict() {
    assert!(TimeSpan::from_secs(2).is_after(TimeSpan::from_secs(1)));
    assert!(!TimeSpan::from_secs(1).is_after(TimeSpan::from_secs(1)));
    assert!(!TimeSpan::from_secs(1).is_after(TimeSpan::from_secs(2)));
}

#[test]
fn a_clock_before_the_epoch_reads_as_the_epoch() {
    assert_eq!(time_of_reading(None), TimeSpan::zero());
    assert_eq!(time_of_reading(Some((3, 4))), TimeSpan::new(3, 4));
}

#[test]
fn now_is_after_the_epoch_and_does_not_run_backwards_far() {
    let first = now();
    let second = now();
    assert!(first.as_nanos() > 1_500_000_000u128 * 1_000_000_000);
    assert!(second.as_nanos() + 1_000_000_000 > first.as_nanos());
}
