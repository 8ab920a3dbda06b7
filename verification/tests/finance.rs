use finalyst::fetcher::FinanceArgs;
use finalyst::finance::quotes::QuotesArgs;
use finalyst::finance::{build_date, FinanceError, UtcHour};

fn msg(r: Result<UtcHour, FinanceError>) -> String {
    match r {
        Ok(_) => panic!("expected an error"),
        Err(e) => e.0,
    }
}

#[test]
fn build_date_accepts_valid_hours() {
    assert_eq!(build_date(2024, 1, 0).unwrap(), UtcHour { year: 2024, ordinal: 1, hour: 0 });
    assert_eq!(build_date(2024, 366, 23).unwrap(), UtcHour { year: 2024, ordinal: 366, hour: 23 });
    assert_eq!(build_date(-9999, 1, 12).unwrap(), UtcHour { year: -9999, ordinal: 1, hour: 12 });
    assert_eq!(build_date(9999, 365, 5).unwrap(), UtcHour { year: 9999, ordinal: 365, hour: 5 });
    assert_eq!(build_date(2000, 366, 1).unwrap(), UtcHour { year: 2000, ordinal: 366, hour: 1 });
}

#[test]
fn build_date_refuses_ordinal_out_of_year() {
    assert_eq!(msg(build_date(2023, 366, 0)), "ordinal was not in range");
    assert_eq!(msg(build_date(1900, 366, 0)), "ordinal was not in range");
    assert_eq!(msg(build_date(2023, 0, 0)), "ordinal was not in range");
}

#[test]
fn build_date_refuses_year_out_of_range_first() {
    assert_eq!(msg(build_date(10000, 0, 30)), "year was not in range");
    assert_eq!(msg(build_date(-10000, 1, 1)), "year was not in range");
}

#[test]
fn build_date_refuses_hour_after_date() {
    assert_eq!(msg(build_date(2023, 100, 24)), "hour was not in range");
    assert_eq!(msg(build_date(2023, 400, 24)), "ordinal was not in range");
}

#[test]
fn finance_error_from_string_keeps_message() {
    let e = FinanceError::from("boom".to_string());
    assert_eq!(e.0, "boom");
}

fn finance_args(start: (i32, u16, u8), end: (i32, u16, u8)) -> FinanceArgs {
    FinanceArgs {
        ticker: "AAPL".to_string(),
        start_year: start.0,
        start_ordinal: start.1,
        start_hours: start.2,
        end_year: end.0,
        end_ordinal: end.1,
        end_hours: end.2,
    }
}

#[test]
fn finance_period_builds_both_ends() {
    let (s, e) = finance_args((2024, 10, 9), (2024, 20, 17)).period().unwrap();
    assert_eq!(s, UtcHour { year: 2024, ordinal: 10, hour: 9 });
    assert_eq!(e, UtcHour { year: 2024, ordinal: 20, hour: 17 });
}

#[test]
fn finance_period_reports_start_before_end() {
    let err = finance_args((2024, 10, 99), (2024, 0, 1)).period().unwrap_err();
    assert_eq!(err.0, "hour was not in range");
    let err = finance_args((2024, 10, 9), (2023, 366, 1)).period().unwrap_err();
    assert_eq!(err.0, "ordinal was not in range");
}

#[test]
fn quotes_period_builds_both_ends() {
    let args = QuotesArgs {
        symbol: "MSFT".to_string(),
        start_year: 2020,
        start_ordinal: 60,
        start_hours: 0,
        end_year: 2021,
        end_ordinal: 1,
        end_hours: 23,
    };
    let (s, e) = args.period().unwrap();
    assert_eq!(s, UtcHour { year: 2020, ordinal: 60, hour: 0 });
    assert_eq!(e, UtcHour { year: 2021, ordinal: 1, hour: 23 });
    let bad = QuotesArgs { end_year: 12000, ..args };
    assert_eq!(bad.period().unwrap_err().0, "year was not in range");
}
