use std::str::FromStr;

use game_tracker::{format_duration, to_seconds, DurationParser, Error};

#[test]
fn test_first_case() {
    let a = DurationParser::from_str("1000h 30m 9000s").expect("no errors!");
    assert_eq!(a.hours, 1000);
    assert_eq!(a.minutes, 30);
    assert_eq!(a.seconds, 9000);
}

#[test]
fn test_first_case_with_duplicates() {
    let a = DurationParser::from_str("1000h 10h 30m 30m 10s 9000s").expect("no errors!");

    assert_eq!(a.hours, 1010);
    assert_eq!(a.minutes, 60);
    assert_eq!(a.seconds, 9010);
}

#[test]
fn test_first_case_with_invalid_values() {
    DurationParser::from_str("102h avasds").expect_err("should not work!");

    DurationParser::from_str("102h 83223").expect_err("should not work!");
}

#[test]
fn duplicate_units_accumulate() {
    let d = DurationParser::parse("1h 1h 30m 30m").unwrap();
    assert_eq!((d.hours, d.minutes, d.seconds), (2, 60, 0));
    assert_eq!(d.to_seconds(), 10800);
}

#[test]
fn colon_form_parses() {
    let d = DurationParser::parse("01:02:03").unwrap();
    assert_eq!((d.hours, d.minutes, d.seconds), (1, 2, 3));
    assert_eq!(d.to_seconds(), 3723);
}

#[test]
fn unit_letters_in_either_case_and_without_spaces() {
    let d = DurationParser::parse("2H3m4S").unwrap();
    assert_eq!((d.hours, d.minutes, d.seconds), (2, 3, 4));
    let d = DurationParser::parse("10s").unwrap();
    assert_eq!(d.to_seconds(), 10);
}

#[test]
fn malformed_specs_are_refused() {
    for text in ["abc", "10x", "", "1h  2m", "1:2", "1:2:3:4", "a1:02:03", "1h 2"] {
        assert!(
            matches!(DurationParser::parse(text), Err(Error::SessionDurationParserError)),
            "{text}"
        );
    }
}

#[test]
fn too_large_durations_are_refused() {
    assert!(matches!(
        DurationParser::parse("99999999999999999999h"),
        Err(Error::ParseIntError)
    ));
    assert!(matches!(
        DurationParser::parse("18446744073709551615h"),
        Err(Error::ParseIntError)
    ));
    let d = DurationParser::parse("18446744073709551615s").unwrap();
    assert_eq!(d.to_seconds(), u64::MAX);
}

#[test]
fn duration_in_words() {
    let d = DurationParser::parse("1h 30m").unwrap();
    assert_eq!(d.to_string(), "1 hour(s) 30 minute(s) 0 second(s)");
}

#[test]
fn format_duration_splits_days() {
    assert_eq!(
        format_duration(93784),
        "1 days 2 hour(s) 3 minute(s) 4 second(s)"
    );
    assert_eq!(format_duration(0), "0 days 0 hour(s) 0 minute(s) 0 second(s)");
}

#[test]
fn seconds_of_hours_minutes_seconds() {
    assert_eq!(to_seconds(1, 2, 3), 3723);
    assert_eq!(to_seconds(0, 0, 0), 0);
}

#[test]
fn joined_unit_forms_add_up() {
    let a = DurationParser::parse("1h 30m").unwrap();
    let b = DurationParser::parse("2h 45s").unwrap();
    let ab = DurationParser::parse("1h 30m 2h 45s").unwrap();
    assert_eq!(
        (ab.hours, ab.minutes, ab.seconds),
        (a.hours + b.hours, a.minutes + b.minutes, a.seconds + b.seconds)
    );
    let d = DurationParser::default();
    assert_eq!(d.to_seconds(), 0);
}
