use finalyst::extractor::{format_submitted_date, parse_submitted_date, MarketAction, Submissions};
use finalyst::finance::UtcHour;

#[test]
fn action_texts_are_lowercase_words() {
    assert_eq!(MarketAction::Long.as_str(), "long");
    assert_eq!(MarketAction::Short.as_str(), "short");
    assert_eq!(MarketAction::Neutral.as_str(), "neutral");
}

#[test]
fn action_parse_reads_each_word() {
    assert_eq!(MarketAction::parse("long"), Ok(MarketAction::Long));
    assert_eq!(MarketAction::parse("short"), Ok(MarketAction::Short));
    assert_eq!(MarketAction::parse("neutral"), Ok(MarketAction::Neutral));
}

#[test]
fn action_parse_refuses_other_text() {
    assert_eq!(MarketAction::parse("Long"), Err("Invalid market action: Long".to_string()));
    assert_eq!(MarketAction::parse(""), Err("Invalid market action: ".to_string()));
    assert_eq!(MarketAction::parse("buy"), Err("Invalid market action: buy".to_string()));
}

#[test]
fn action_roundtrip() {
    for a in [MarketAction::Long, MarketAction::Short, MarketAction::Neutral] {
        assert_eq!(MarketAction::parse(a.as_str()), Ok(a));
    }
}

#[test]
fn flush_returns_submissions_in_order_and_empties() {
    let mut s: Submissions<u32> = Submissions::new();
    s.submit(7);
    s.submit(3);
    s.submit(9);
    assert_eq!(s.flush(), vec![7, 3, 9]);
    assert_eq!(s.flush(), Vec::<u32>::new());
    s.submit(1);
    assert_eq!(s.flush(), vec![1]);
}

#[test]
fn flush_of_new_buffer_is_empty() {
    let mut s: Submissions<String> = Submissions::new();
    assert!(s.flush().is_empty());
}

fn date_error(text: &str) -> String {
    match parse_submitted_date(text) {
        Ok(d) => panic!("unexpected date {d:?}"),
        Err(msg) => msg,
    }
}

#[test]
fn submitted_date_reads_as_midnight() {
    assert_eq!(parse_submitted_date("2024-03-05"), Ok(UtcHour { year: 2024, ordinal: 65, hour: 0 }));
    assert_eq!(parse_submitted_date("2023-12-31"), Ok(UtcHour { year: 2023, ordinal: 365, hour: 0 }));
    assert_eq!(parse_submitted_date("0001-01-01"), Ok(UtcHour { year: 1, ordinal: 1, hour: 0 }));
}

#[test]
fn submitted_date_reports_bad_text() {
    assert_eq!(date_error("2024-02-30"), "Invalid date: day was not in range");
    assert_eq!(date_error("2024-13-02"), "Invalid date: the 'month' component could not be parsed");
    assert_eq!(
        date_error("2024-01-02x"),
        "Invalid date: unexpected trailing characters; the end of input was expected"
    );
}

#[test]
fn submitted_date_is_written_as_year_month_day() {
    assert_eq!(format_submitted_date(UtcHour { year: 2024, ordinal: 65, hour: 0 }), Ok("2024-03-05".to_string()));
    assert_eq!(format_submitted_date(UtcHour { year: 987, ordinal: 1, hour: 7 }), Ok("0987-01-01".to_string()));
}

#[test]
fn submitted_date_roundtrip() {
    for text in ["2024-03-05", "1999-12-31", "2000-02-29"] {
        let day = parse_submitted_date(text).unwrap();
        assert_eq!(format_submitted_date(day).unwrap(), text);
    }
}
