use srtparse::{ParseTimeError, Time};
use std::time::Duration;

#[test]
fn parse() {
    assert_eq!(
        "".parse::<Time>().unwrap_err().to_string(),
        "could not parse hours: cannot parse integer from empty string"
    );
    assert_eq!(
        "x".parse::<Time>().unwrap_err().to_string(),
        "could not parse hours: invalid digit found in string"
    );
    assert_eq!(
        "x,x".parse::<Time>().unwrap_err().to_string(),
        "could not parse hours: invalid digit found in string"
    );
    assert_eq!("1,x".parse::<Time>().unwrap_err().to_string(), "minutes not found");
    assert_eq!(
        "00:01:02,200".parse::<Time>().unwrap(),
        Time { hours: 0, minutes: 1, seconds: 2, milliseconds: 200 }
    );
}

#[test]
fn time_display() {
    let time = Time { hours: 0, minutes: 1, seconds: 2, milliseconds: 200 };
    assert_eq!(time.to_string(), "00:01:02,200");
}

#[test]
fn into_duration() {
    let time = Time { hours: 0, minutes: 1, seconds: 2, milliseconds: 200 };
    assert_eq!(time.into_duration(), Duration::from_millis(62200));
}

#[test]
fn duration_formula() {
    let time = Time { hours: 2, minutes: 3, seconds: 4, milliseconds: 5 };
    assert_eq!(time.total_millis(), 5 + 1000 * (4 + 60 * (3 + 60 * 2)));
    assert_eq!(time.into_duration(), Duration::from_millis(7_384_005));
}

#[test]
fn time_display_wide_values() {
    let time = Time { hours: 123, minutes: 5, seconds: 60, milliseconds: 7 };
    assert_eq!(time.to_string(), "123:05:60,7");
}

#[test]
fn time_parse_trims_and_reports_parts() {
    assert_eq!(
        Time::parse("  1:2:3,4 \t").unwrap(),
        Time { hours: 1, minutes: 2, seconds: 3, milliseconds: 4 }
    );
    assert!(matches!(Time::parse("1:2"), Err(ParseTimeError::MissingSeconds)));
    assert!(matches!(Time::parse("1:2:3"), Err(ParseTimeError::MissingMilliseconds)));
    assert!(matches!(Time::parse("1:x:3,4"), Err(ParseTimeError::ParseMinutes(_))));
    assert!(matches!(Time::parse("1:2:x,4"), Err(ParseTimeError::ParseSeconds(_))));
    assert!(matches!(Time::parse("1:2:3,x"), Err(ParseTimeError::ParseMilliseconds(_))));
    assert_eq!(
        Time::parse("1:2:3,4,5").unwrap_err().to_string(),
        "unexpected time part: '5'"
    );
    assert_eq!(
        Time::parse("1:2:3:4,5").unwrap_err().to_string(),
        "unexpected time part: '4'"
    );
    assert_eq!(
        Time::parse("1:2:3, 4").unwrap_err().to_string(),
        "could not parse milliseconds: invalid digit found in string"
    );
}
