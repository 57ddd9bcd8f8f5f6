use subtools::time::{TimeError, TimeSpan};

#[test]
fn own_duration_decides_whatever_the_default() {
    for default in [None, Some(0), Some(7), Some(u64::MAX)] {
        let span = TimeSpan::resolve(1000, Some(2000), default).unwrap();
        assert_eq!(span.start(), 1000);
        assert_eq!(span.end(), 3000);
    }
}

#[test]
fn default_duration_applies_without_own_duration() {
    let span = TimeSpan::resolve(4000, None, Some(1500)).unwrap();
    assert_eq!(span.start(), 4000);
    assert_eq!(span.end(), 5500);
}

#[test]
fn no_duration_at_all_is_missing_duration() {
    for timestamp in [0, 1, 4000, i64::MAX as u64, u64::MAX] {
        assert_eq!(TimeSpan::resolve(timestamp, None, None).unwrap_err(), TimeError::MissingDuration);
    }
}

#[test]
fn zero_duration_gives_an_empty_interval() {
    let span = TimeSpan::resolve(0, Some(0), None).unwrap();
    assert_eq!(span.start(), 0);
    assert_eq!(span.end(), 0);
}

#[test]
fn end_at_the_largest_number_is_accepted() {
    let span = TimeSpan::resolve(i64::MAX as u64 - 5, Some(5), None).unwrap();
    assert_eq!(span.start(), i64::MAX - 5);
    assert_eq!(span.end(), i64::MAX);
}

#[test]
fn end_beyond_the_largest_number_is_overflow() {
    assert_eq!(
        TimeSpan::resolve(i64::MAX as u64 - 5, Some(6), None).unwrap_err(),
        TimeError::Overflow
    );
    assert_eq!(TimeSpan::resolve(i64::MAX as u64 + 1, Some(0), None).unwrap_err(), TimeError::Overflow);
    assert_eq!(TimeSpan::resolve(u64::MAX, None, Some(u64::MAX)).unwrap_err(), TimeError::Overflow);
    assert_eq!(TimeSpan::resolve(1, Some(u64::MAX), None).unwrap_err(), TimeError::Overflow);
}

#[test]
fn new_accepts_ordered_instants_only() {
    let span = TimeSpan::new(10, 20).unwrap();
    assert_eq!(span.start(), 10);
    assert_eq!(span.end(), 20);
    assert!(TimeSpan::new(5, 5).is_some());
    assert!(TimeSpan::new(0, 0).is_some());
    assert!(TimeSpan::new(20, 10).is_none());
    assert!(TimeSpan::new(-1, 10).is_none());
    assert!(TimeSpan::new(-5, -1).is_none());
}
