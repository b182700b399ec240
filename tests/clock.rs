use game_tracker::{
    calculate_end_of_day, current_time, date_after, epoch_seconds, local_midnight_after, next_day, Error,
    MAX_CLOCK_EPOCH,
};

#[test]
fn calendar_next_day() {
    assert_eq!(next_day(2024, 2, 28), (2024, 2, 29));
    assert_eq!(next_day(2023, 2, 28), (2023, 3, 1));
    assert_eq!(next_day(1900, 2, 28), (1900, 3, 1));
    assert_eq!(next_day(2000, 2, 28), (2000, 2, 29));
    assert_eq!(next_day(2024, 4, 30), (2024, 5, 1));
    assert_eq!(next_day(2024, 12, 31), (2025, 1, 1));
    assert_eq!(next_day(2024, 7, 14), (2024, 7, 15));
}

#[test]
fn clock_readings() {
    assert!(current_time() > 1_600_000_000);
    assert_eq!(epoch_seconds(true, 5), 5);
    assert_eq!(epoch_seconds(false, 5), -5);
    assert_eq!(epoch_seconds(true, u64::MAX), i64::MAX);
    assert_eq!(epoch_seconds(false, u64::MAX), -i64::MAX);
}

#[test]
fn midnight_beyond_the_range_is_refused() {
    assert_eq!(local_midnight_after(i64::MAX), None);
    assert_eq!(local_midnight_after(MAX_CLOCK_EPOCH + 1), None);
    assert!(matches!(calculate_end_of_day(i64::MAX), Err(Error::CalculateEndOfDayError)));
    assert!(matches!(calculate_end_of_day(i64::MIN), Err(Error::CalculateEndOfDayError)));
    let near = MAX_CLOCK_EPOCH;
    if let Some(m) = local_midnight_after(near) {
        assert!(m > near - 86400);
    }
}

#[test]
fn midnight_after_an_ordinary_day() {
    let day = 1_700_000_000i64;
    let m = local_midnight_after(day).unwrap();
    assert!(m > day && m - day <= 2 * 86400);
}

#[test]
fn date_after_checks_its_range() {
    assert_eq!(date_after(2024, 12, 31), Some((2025, 1, 1)));
    assert_eq!(date_after(2024, 13, 1), None);
    assert_eq!(date_after(2024, 1, 0), None);
    assert_eq!(date_after(i32::MAX, 1, 1), None);
}
