//! Dates for quote requests, built on the `time` crate's calendar rules.
use vstd::prelude::*;

pub mod quotes;

verus! {

/// The smallest year that the `time` crate represents.
pub const MIN_YEAR: i32 = -9999;

/// The largest year that the `time` crate represents.
pub const MAX_YEAR: i32 = 9999;

/// A year of the proleptic Gregorian calendar is a leap year.
pub open spec fn is_leap_year(year: int) -> bool {
    year % 4 == 0 && (year % 100 != 0 || year % 400 == 0)
}

/// The number of days in a year.
pub open spec fn days_in_year(year: int) -> int {
    if is_leap_year(year) {
        366
    } else {
        365
    }
}

/// The year lies in the range that a date can hold.
pub open spec fn year_in_range(year: int) -> bool {
    MIN_YEAR <= year <= MAX_YEAR
}

/// The year and ordinal day name a day of the calendar.
pub open spec fn ordinal_date_valid(year: int, ordinal: int) -> bool {
    year_in_range(year) && 1 <= ordinal <= days_in_year(year)
}

/// The hour names a whole hour of a day.
pub open spec fn hour_valid(hour: int) -> bool {
    0 <= hour < 24
}

/// Why a year and ordinal day name no day, worded as the `time` crate words it.
pub open spec fn ordinal_date_error(year: int) -> Seq<char> {
    if year_in_range(year) {
        "ordinal was not in range"@
    } else {
        "year was not in range"@
    }
}

/// Why an hour names no hour of the day, worded as the `time` crate words it.
pub open spec fn hour_error() -> Seq<char> {
    "hour was not in range"@
}

/// A whole hour of a calendar day in UTC, by year, day of the year and hour.
#[derive(Clone, Copy, Debug, PartialEq, Eq, Structural)]
pub struct UtcHour {
    pub year: i32,
    pub ordinal: u16,
    pub hour: u8,
}

/// The failure of a finance tool, carried as its message.
#[derive(Clone, Debug)]
pub struct FinanceError(pub String);

impl From<String> for FinanceError {
    fn from(value: String) -> (r: FinanceError) {
        FinanceError(value)
    }
}

impl vstd::std_specs::convert::FromSpecImpl<String> for FinanceError {
    open spec fn obeys_from_spec() -> bool {
        true
    }

    open spec fn from_spec(v: String) -> FinanceError {
        FinanceError(v)
    }
}

/// `time::Date::from_ordinal_date`, with the date itself dropped: it succeeds
/// exactly on a year in -9999..=9999 and an ordinal day from 1 to the year's
/// length, and otherwise fails with the Display text of its
/// `ComponentRange`, which names the year first and the ordinal second.
#[verifier::external_body]
fn check_ordinal_date(year: i32, ordinal: u16) -> (r: Result<(), String>)
    ensures
        r is Ok <==> ordinal_date_valid(year as int, ordinal as int),
        r matches Err(msg) ==> msg@ == ordinal_date_error(year as int),
{
    time::Date::from_ordinal_date(year, ordinal).map(|_| ()).map_err(|err| err.to_string())
}

/// `time::Time::from_hms(hour, 0, 0)`, with the time itself dropped: it
/// succeeds exactly on an hour below 24, and otherwise fails with the Display
/// text of its `ComponentRange` for the hour.
#[verifier::external_body]
fn check_hour(hour: u8) -> (r: Result<(), String>)
    ensures
        r is Ok <==> hour_valid(hour as int),
        r matches Err(msg) ==> msg@ == hour_error(),
{
    time::Time::from_hms(hour, 0, 0).map(|_| ()).map_err(|err| err.to_string())
}

/// The outcome of building a date from a year, an ordinal day and an hour:
/// the date is checked before the hour.
pub open spec fn build_date_result(year: int, ordinal: int, hours: int) -> Result<(), Seq<char>> {
    if !ordinal_date_valid(year, ordinal) {
        Err(ordinal_date_error(year))
    } else if !hour_valid(hours) {
        Err(hour_error())
    } else {
        Ok(())
    }
}

/// A date is built exactly when the year lies in -9999..=9999, the day of
/// the year is from 1 to 366 in a Gregorian leap year and to 365 otherwise,
/// and the hour is below 24; every such hour of every such day is built.
pub proof fn lemma_build_date_domain(year: int, ordinal: int, hours: int)
    ensures
        build_date_result(year, ordinal, hours) is Ok <==> {
            &&& -9999 <= year <= 9999
            &&& 1 <= ordinal
            &&& ordinal <= (if year % 4 == 0 && (year % 100 != 0 || year % 400 == 0) { 366int } else { 365int })
            &&& 0 <= hours < 24
        },
        !(-9999 <= year <= 9999) ==> build_date_result(year, ordinal, hours) == Err::<(), Seq<char>>("year was not in range"@),
        (-9999 <= year <= 9999 && !(1 <= ordinal <= days_in_year(year)))
            ==> build_date_result(year, ordinal, hours) == Err::<(), Seq<char>>("ordinal was not in range"@),
        (ordinal_date_valid(year, ordinal) && hours >= 24)
            ==> build_date_result(year, ordinal, hours) == Err::<(), Seq<char>>("hour was not in range"@),
{
}

/// Builds the UTC hour `hours:00:00` of day `ordinal` of `year`.
pub fn build_date(year: i32, ordinal: u16, hours: u8) -> (r: Result<UtcHour, FinanceError>)
    ensures
        r is Ok <==> build_date_result(year as int, ordinal as int, hours as int) is Ok,
        r matches Ok(d) ==> d == (UtcHour { year, ordinal, hour: hours }),
        r matches Err(e) ==> build_date_result(year as int, ordinal as int, hours as int)
            == Err::<(), Seq<char>>(e.0@),
{
    match check_ordinal_date(year, ordinal) {
        Ok(()) => {},
        Err(msg) => return Err(FinanceError::from(msg)),
    }
    match check_hour(hours) {
        Ok(()) => {},
        Err(msg) => return Err(FinanceError::from(msg)),
    }
    Ok(UtcHour { year, ordinal, hour: hours })
}

} // verus!
