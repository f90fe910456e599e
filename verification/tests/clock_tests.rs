use noteplan_organizer::clock::{nanos_from_offset, split_nanos, today_day};

#[test]
fn clock_reading_after_epoch_is_kept() {
    assert_eq!(nanos_from_offset(Ok(1_700_000_000_123_456_789)), 1_700_000_000_123_456_789);
    assert_eq!(nanos_from_offset(Ok(i64::MAX as u128)), i64::MAX);
}

#[test]
fn clock_reading_before_epoch_is_negative() {
    assert_eq!(nanos_from_offset(Err(3)), -3);
    assert_eq!(nanos_from_offset(Err(1u128 << 63)), i64::MIN);
}

#[test]
fn clock_reading_out_of_range_is_clamped() {
    assert_eq!(nanos_from_offset(Ok(u128::MAX)), i64::MAX);
    assert_eq!(nanos_from_offset(Ok((i64::MAX as u128) + 1)), i64::MAX);
    assert_eq!(nanos_from_offset(Err((1u128 << 63) + 1)), i64::MIN);
}

#[test]
fn split_nanos_rounds_down() {
    assert_eq!(split_nanos(1_500_000_000), (1, 500_000_000));
    assert_eq!(split_nanos(-1), (-1, 999_999_999));
    assert_eq!(split_nanos(-2_000_000_000), (-2, 0));
}

#[test]
fn today_is_a_plausible_day_number() {
    let d = today_day();
    // Within the range a signed 64-bit nanosecond clock can express
    // (1677 to 2262), a day either side for the time zone.
    assert!(d >= 612_000 && d <= 826_000, "{}", d);
}
