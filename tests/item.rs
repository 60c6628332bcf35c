use srtparse::{from_str, Error, Item, ItemFactoryError, ReaderError, Subtitle, Time};

#[test]
fn item_display() {
    let item = Item {
        pos: 1,
        start_time: Time { hours: 0, minutes: 0, seconds: 5, milliseconds: 200 },
        end_time: Time { hours: 0, minutes: 0, seconds: 6, milliseconds: 300 },
        text: String::from("test"),
    };
    assert_eq!(item.to_string(), "1\n00:00:05,200-->00:00:06,300\ntest");
}

#[test]
fn subtitle_display() {
    let subtitle = Subtitle {
        pos: 1,
        start_time: Time { hours: 0, minutes: 0, seconds: 5, milliseconds: 200 },
        end_time: Time { hours: 0, minutes: 0, seconds: 6, milliseconds: 300 },
        text: String::from("test"),
    };
    assert_eq!(subtitle.to_string(), "1\n00:00:05,200-->00:00:06,300\ntest");
}

#[test]
fn from_str_collects_records() {
    let items = from_str("1\n00:00:01,100 --> 00:00:02,120\nHello!").unwrap();
    assert_eq!(items.len(), 1);
    assert_eq!(items[0].text, "Hello!");
    assert_eq!(items[0].start_time, Time { hours: 0, minutes: 0, seconds: 1, milliseconds: 100 });
    assert!(from_str("").unwrap().is_empty());
}

#[test]
fn from_str_stops_at_first_error() {
    let err = from_str("1\n00:00:01,000 --> 00:00:02,000\nt\n\nbad position\n").unwrap_err();
    assert!(matches!(err, ReaderError::Parse(_)));
    assert_eq!(err.to_string(), "parse error: bad subtitle position: invalid digit found in string");
}

#[test]
fn factory_error_messages() {
    assert_eq!(ItemFactoryError::NoPosition.to_string(), "item position is missing");
    assert_eq!(ItemFactoryError::NoStartTime.to_string(), "item start time is missing");
    assert_eq!(ItemFactoryError::NoEndTime.to_string(), "item end time is missing");
    assert_eq!(ItemFactoryError::NoText.to_string(), "item text is missing");
}

#[test]
fn error_messages() {
    assert_eq!(Error::BadPosition.to_string(), "invalid subtitle position");
    assert_eq!(Error::MissingText.to_string(), "subtitle text is missing");
    assert_eq!(
        Error::ParseTimeStart(srtparse::ParseTimeError::MissingMinutes).to_string(),
        "failed to parse start time: minutes not found"
    );
}

#[test]
fn item_equality_looks_at_every_field() {
    let a = Item {
        pos: 1,
        start_time: Time { hours: 0, minutes: 0, seconds: 5, milliseconds: 200 },
        end_time: Time { hours: 0, minutes: 0, seconds: 6, milliseconds: 300 },
        text: String::from("test"),
    };
    let mut b = a.clone();
    assert_eq!(a, b);
    b.text = String::from("other");
    assert_ne!(a, b);
}
