use srtparse::{Item, ParseError, Parser, Time};

fn parse_ok(data: &str) -> Vec<Item> {
    let mut parser = Parser::new(data);
    let mut result = Vec::new();
    while let Some(item) = parser.next() {
        result.push(item.unwrap());
    }
    result
}

fn parse_err(data: &str) -> String {
    let mut parser = Parser::new(data);
    parser.next().unwrap().unwrap_err().to_string()
}

fn time(hours: u64, minutes: u64, seconds: u64, milliseconds: u64) -> Time {
    Time { hours, minutes, seconds, milliseconds }
}

fn assert_it_works(data: &str) {
    let result = parse_ok(data);
    assert_eq!(result.len(), 4);
    assert_eq!(
        result[0],
        Item {
            pos: 1,
            start_time: Time { hours: 0, minutes: 0, seconds: 58, milliseconds: 392 },
            end_time: Time { hours: 0, minutes: 1, seconds: 2, milliseconds: 563 },
            text: String::from("The war had all but ground to a halt\nin the blink of an eye.")
        }
    );
    assert_eq!(
        result[1],
        Item {
            pos: 2,
            start_time: Time { hours: 0, minutes: 1, seconds: 4, milliseconds: 565 },
            end_time: Time { hours: 0, minutes: 1, seconds: 8, milliseconds: 986 },
            text: String::from(
                "Lucian, the most feared and ruthless\nleader ever to rule the Lycan clan..."
            )
        }
    );
    assert_eq!(
        result[2],
        Item {
            pos: 3,
            start_time: Time { hours: 0, minutes: 1, seconds: 9, milliseconds: 70 },
            end_time: Time { hours: 0, minutes: 1, seconds: 11, milliseconds: 656 },
            text: String::from("...had finally been killed.")
        }
    );
    assert_eq!(
        result[3],
        Item {
            pos: 652,
            start_time: Time { hours: 1, minutes: 53, seconds: 2, milliseconds: 325 },
            end_time: Time { hours: 1, minutes: 53, seconds: 6, milliseconds: 162 },
            text: String::from("Soon, Marcus will take the throne.")
        }
    );
}

const SOURCE_WITHOUT_BOM: &str = "1
00:00:58,392 --> 00:01:02,563
The war had all but ground to a halt
in the blink of an eye.

2
00:01:04,565 --> 00:01:08,986
Lucian, the most feared and ruthless
leader ever to rule the Lycan clan...

3
00:01:09,070 --> 00:01:11,656
...had finally been killed.

652
01:53:02,325 --> 01:53:06,162
Soon, Marcus will take the throne.
";

#[test]
fn it_works() {
    let source_with_bom = format!("{}{}", "\u{feff}", SOURCE_WITHOUT_BOM);
    assert_it_works(SOURCE_WITHOUT_BOM);
    assert_it_works(&source_with_bom);
    assert_eq!(parse_ok("").len(), 0);
}

#[test]
fn it_fails_with_bad_position() {
    let err = parse_err("bad position");
    assert_eq!(err, "bad subtitle position: invalid digit found in string");
}

#[test]
fn it_fails_with_bad_start_time() {
    let err = parse_err("1\nbad time");
    assert_eq!(
        err,
        "failed to parse start time: could not parse hours: invalid digit found in string"
    );
}

#[test]
fn it_fails_with_bad_end_time() {
    let err = parse_err("1\n00:00:58,392 --> bad end time");
    assert_eq!(
        err,
        "failed to parse end time: could not parse hours: invalid digit found in string"
    );
}

#[test]
fn it_fails_with_bad_time_format() {
    let err = parse_err("1\n00:00:00:00");
    assert_eq!(err, "failed to parse start time: unexpected time part: '00'");
}

#[test]
fn it_fails_with_extra_time() {
    let err = parse_err("1\n00:00:58,392 --> 00:01:02,563 --> 00:01:02,563");
    assert_eq!(
        err,
        "an extra time part found: ' 00:01:02,563'; there should be start and end only"
    );
}

#[test]
fn it_fails_with_missing_start_time() {
    let err = parse_err("1");
    assert_eq!(err, "unexpected end of input");
}

#[test]
fn it_fails_with_missing_end_time() {
    let err = parse_err("1\n00:00:58,392");
    assert_eq!(err, "item end time is missing");
}

#[test]
fn it_fails_with_missing_text() {
    let err = parse_err("1\n00:00:58,392 --> 00:01:02,563");
    assert_eq!(err, "item text is missing");
}

#[test]
fn single_record_without_trailing_blank_line() {
    let result = parse_ok("1\n00:00:01,100 --> 00:00:02,120\nHello!");
    assert_eq!(result.len(), 1);
    assert_eq!(
        result[0],
        Item {
            pos: 1,
            start_time: time(0, 0, 1, 100),
            end_time: time(0, 0, 2, 120),
            text: String::from("Hello!")
        }
    );
}

#[test]
fn crlf_line_endings_and_surrounding_space() {
    let result = parse_ok("  7 \r\n 00:00:01,000-->00:00:02,000 \r\n\t first \r\nsecond\r\n\r\n");
    assert_eq!(result.len(), 1);
    assert_eq!(result[0].pos, 7);
    assert_eq!(result[0].text, "first\nsecond");
}

#[test]
fn positions_need_not_be_contiguous() {
    let result = parse_ok("5\n00:00:01,000 --> 00:00:02,000\na\n\n3\n00:00:03,000 --> 00:00:04,000\nb\n");
    assert_eq!(result.len(), 2);
    assert_eq!(result[0].pos, 5);
    assert_eq!(result[1].pos, 3);
    assert_eq!(result[1].text, "b");
}

#[test]
fn nothing_follows_an_error() {
    let mut parser = Parser::new("1\n00:00:01,000 --> 00:00:02,000\n\nx\n00:00:01,000 --> 00:00:02,000\nt\n");
    assert!(matches!(parser.next(), Some(Err(ParseError::CreateSubtitle(_)))));
    assert!(parser.next().is_none());
    assert!(parser.next().is_none());
}

#[test]
fn record_then_bad_position() {
    let mut parser = Parser::new("1\n00:00:01,000 --> 00:00:02,000\nt\n\nx\n");
    assert!(matches!(parser.next(), Some(Ok(_))));
    assert!(matches!(parser.next(), Some(Err(ParseError::BadPosition(_)))));
    assert!(parser.next().is_none());
}

#[test]
fn position_overflow_is_bad_position() {
    let err = parse_err("99999999999999999999999999\n00:00:01,000 --> 00:00:02,000\nt");
    assert_eq!(err, "bad subtitle position: number too large to fit in target type");
}

#[test]
fn plus_sign_position_is_accepted() {
    let result = parse_ok("+4\n00:00:01,000 --> 00:00:02,000\nt");
    assert_eq!(result[0].pos, 4);
}

#[test]
fn bom_only_once() {
    let err = parse_err("\u{feff}\u{feff}1\n00:00:01,000 --> 00:00:02,000\nt");
    assert_eq!(err, "bad subtitle position: invalid digit found in string");
}

#[test]
fn unbounded_time_components() {
    let result = parse_ok("1\n25:99:99,9999 --> 100:00:00,0\nt");
    assert_eq!(result[0].start_time, time(25, 99, 99, 9999));
    assert_eq!(result[0].end_time, time(100, 0, 0, 0));
}

#[test]
fn round_trip_of_rendered_item() {
    let item = Item {
        pos: 12,
        start_time: time(1, 2, 3, 4),
        end_time: time(10, 20, 30, 400),
        text: String::from("one\ntwo\nthree"),
    };
    let text = format!("{}\n\n", item.to_string());
    let result = parse_ok(&text);
    assert_eq!(result, vec![item]);
}

#[test]
fn two_blank_lines_read_as_a_bad_position() {
    let mut parser = Parser::new("1\n00:00:01,000 --> 00:00:02,000\nt\n\n\n2\n");
    assert!(matches!(parser.next(), Some(Ok(_))));
    assert_eq!(
        parser.next().unwrap().unwrap_err().to_string(),
        "bad subtitle position: cannot parse integer from empty string"
    );
}
