//! The finance-indicator tool: its arguments, its answer and its error.
use vstd::prelude::*;

pub use crate::finance::{build_date, FinanceError};
use crate::finance::{build_date_result, UtcHour};

verus! {

/// The tool that summarises a stock's technical indicators in words.
#[derive(Clone, Copy, Debug)]
pub struct FinanceFetcher;

/// The indicator summary: the MACD crossover and momentum, the RSI zone and
/// trajectory, and the price's position against its 200-period EMA.
#[derive(Clone, Debug)]
pub struct FinanceData {
    pub macd: String,
    pub rsi: String,
    pub price_vs_ema200: String,
}

/// The arguments of an indicator request: a ticker and the start and end of
/// the period, each as a year, a day of the year and an hour.
#[derive(Clone, Debug)]
pub struct FinanceArgs {
    pub ticker: String,
    pub start_year: i32,
    pub start_ordinal: u16,
    pub start_hours: u8,
    pub end_year: i32,
    pub end_ordinal: u16,
    pub end_hours: u8,
}

impl FinanceArgs {
    /// The start and end of the requested period; the start is checked first.
    pub fn period(&self) -> (r: Result<(UtcHour, UtcHour), FinanceError>)
        ensures
            ({
                let s = build_date_result(self.start_year as int, self.start_ordinal as int, self.start_hours as int);
                let e = build_date_result(self.end_year as int, self.end_ordinal as int, self.end_hours as int);
                &&& r is Ok <==> (s is Ok && e is Ok)
                &&& r matches Ok(p) ==> p == (
                    UtcHour { year: self.start_year, ordinal: self.start_ordinal, hour: self.start_hours },
                    UtcHour { year: self.end_year, ordinal: self.end_ordinal, hour: self.end_hours },
                )
                &&& r matches Err(err) ==> (if s is Err { s } else { e }) == Err::<(), Seq<char>>(err.0@)
            }),
    {
        let start = build_date(self.start_year, self.start_ordinal, self.start_hours)?;
        let end = build_date(self.end_year, self.end_ordinal, self.end_hours)?;
        Ok((start, end))
    }
}

} // verus!
