//! The model's market extractions: the action vocabulary that the submit tool
//! accepts, and the buffer that gathers submissions until they are flushed.
use vstd::prelude::*;

use crate::finance::{ordinal_date_valid, UtcHour};

verus! {

/// The market action that the model proposes for a ticker.
#[derive(Clone, Copy, Debug, PartialEq, Eq, Structural)]
pub enum MarketAction {
    Long,
    Short,
    Neutral,
}

/// The text by which an action is written in a tool call.
pub open spec fn action_text(action: MarketAction) -> Seq<char> {
    match action {
        MarketAction::Long => "long"@,
        MarketAction::Short => "short"@,
        MarketAction::Neutral => "neutral"@,
    }
}

/// The action that a tool call's text names, if it names one.
pub open spec fn action_of_text(text: Seq<char>) -> Option<MarketAction> {
    if text == "long"@ {
        Some(MarketAction::Long)
    } else if text == "short"@ {
        Some(MarketAction::Short)
    } else if text == "neutral"@ {
        Some(MarketAction::Neutral)
    } else {
        None
    }
}

/// The message with which an unknown action text is refused.
pub open spec fn invalid_action_message(text: Seq<char>) -> Seq<char> {
    "Invalid market action: "@ + text
}

impl MarketAction {
    /// Writes the action as the tool's schema spells it.
    pub fn as_str(&self) -> (text: &'static str)
        ensures
            text@ == action_text(*self),
    {
        match self {
            MarketAction::Long => "long",
            MarketAction::Short => "short",
            MarketAction::Neutral => "neutral",
        }
    }

    /// Reads an action from its text; any other text is refused with a message
    /// that quotes it.
    pub fn parse(text: &str) -> (r: Result<MarketAction, String>)
        ensures
            r is Ok <==> action_of_text(text@) is Some,
            r matches Ok(a) ==> action_of_text(text@) == Some(a),
            r matches Err(msg) ==> msg@ == invalid_action_message(text@),
    {
        proof {
            reveal_strlit("long");
            reveal_strlit("short");
            reveal_strlit("neutral");
        }
        let long = String::from_str("long");
        let short = String::from_str("short");
        let neutral = String::from_str("neutral");
        let given = String::from_str(text);
        if given == long {
            Ok(MarketAction::Long)
        } else if given == short {
            Ok(MarketAction::Short)
        } else if given == neutral {
            Ok(MarketAction::Neutral)
        } else {
            let msg = String::from_str("Invalid market action: ");
            Err(msg.concat(text))
        }
    }
}

/// Writing an action and reading it back gives the same action.
pub proof fn lemma_action_text_roundtrip(action: MarketAction)
    ensures
        action_of_text(action_text(action)) == Some(action),
{
    reveal_strlit("long");
    reveal_strlit("short");
    reveal_strlit("neutral");
    assert("long"@.len() == 4 && "short"@.len() == 5 && "neutral"@.len() == 7);
    match action {
        MarketAction::Long => {},
        MarketAction::Short => {
            assert("short"@ != "long"@);
        },
        MarketAction::Neutral => {
            assert("neutral"@ != "long"@);
            assert("neutral"@ != "short"@);
        },
    }
}

/// Any text that reads as an action is exactly how that action is written.
pub proof fn lemma_action_text_canonical(text: Seq<char>)
    requires
        action_of_text(text) is Some,
    ensures
        action_text(action_of_text(text).unwrap()) == text,
{
}

/// The layout in which the submit tool's dates are written: year, month and
/// day, joined by hyphens.
pub open spec fn submitted_date_layout() -> Seq<char> {
    "[year]-[month]-[day]"@
}

/// The calendar date, by year and day of the year, that the `time` crate
/// reads from `text` laid out as `layout`, or `None` where it reads none.
pub uninterp spec fn date_of_text(text: Seq<char>, layout: Seq<char>) -> Option<(i32, u16)>;

/// The message with which the `time` crate refuses to read `text` as a date
/// laid out as `layout`.
pub uninterp spec fn date_parse_error(text: Seq<char>, layout: Seq<char>) -> Seq<char>;

/// `time::format_description::parse` of the layout, then `time::Date::parse`
/// of the text, the date taken apart into its year and day of the year. A
/// date that reads is a day of the calendar (a `Date` is never out of range);
/// the date and the failure's Display text are named by `date_of_text` and
/// `date_parse_error`.
#[verifier::external_body]
fn parse_date(text: &str, layout: &str) -> (r: Result<(i32, u16), String>)
    requires
        layout@ == submitted_date_layout(),
    ensures
        r is Ok <==> date_of_text(text@, layout@) is Some,
        r matches Ok(d) ==> date_of_text(text@, layout@) == Some(d),
        r matches Ok(d) ==> ordinal_date_valid(d.0 as int, d.1 as int),
        r matches Err(msg) ==> msg@ == date_parse_error(text@, layout@),
{
    let items = time::format_description::parse(layout).map_err(|err| err.to_string())?;
    time::Date::parse(text, &items).map(|d| (d.year(), d.ordinal())).map_err(|err| err.to_string())
}

/// The message with which a submitted date is refused.
pub open spec fn invalid_date_message(text: Seq<char>) -> Seq<char> {
    "Invalid date: "@ + date_parse_error(text, submitted_date_layout())
}

/// Reads a date of a submitted extraction, laid out as year, month and day,
/// as the midnight UTC that starts it; a text that does not read is refused
/// with the reason that the `time` crate gives.
pub fn parse_submitted_date(text: &str) -> (r: Result<UtcHour, String>)
    ensures
        r is Ok <==> date_of_text(text@, submitted_date_layout()) is Some,
        r matches Ok(h) ==> {
            &&& date_of_text(text@, submitted_date_layout()) == Some((h.year, h.ordinal))
            &&& h.hour == 0
            &&& ordinal_date_valid(h.year as int, h.ordinal as int)
        },
        r matches Err(msg) ==> msg@ == invalid_date_message(text@),
{
    match parse_date(text, "[year]-[month]-[day]") {
        Ok((year, ordinal)) => Ok(UtcHour { year, ordinal, hour: 0 }),
        Err(reason) => {
            let msg = String::from_str("Invalid date: ");
            Err(msg.concat(reason.as_str()))
        },
    }
}

/// The text in which the `time` crate writes the calendar date given by year
/// and day of the year, laid out as `layout`, or `None` where it writes none.
pub uninterp spec fn date_text(year: i32, ordinal: u16, layout: Seq<char>) -> Option<Seq<char>>;

/// `time::format_description::parse` of the layout, then `Date::format` of
/// the date built by `time::Date::from_ordinal_date` from the year and day
/// of the year (which cannot fail on a day of the calendar). The text is
/// named by `date_text`; the failure's message is not stated.
#[verifier::external_body]
fn format_date(year: i32, ordinal: u16, layout: &str) -> (r: Result<String, String>)
    requires
        layout@ == submitted_date_layout(),
        ordinal_date_valid(year as int, ordinal as int),
    ensures
        r is Ok <==> date_text(year, ordinal, layout@) is Some,
        r matches Ok(text) ==> date_text(year, ordinal, layout@) == Some(text@),
{
    let items = time::format_description::parse(layout).map_err(|err| err.to_string())?;
    let date = time::Date::from_ordinal_date(year, ordinal).map_err(|err| err.to_string())?;
    date.format(&items).map_err(|err| err.to_string())
}

/// Writes the day of a submitted extraction's date as year, month and day.
pub fn format_submitted_date(date: UtcHour) -> (r: Result<String, String>)
    requires
        ordinal_date_valid(date.year as int, date.ordinal as int),
    ensures
        r is Ok <==> date_text(date.year, date.ordinal, submitted_date_layout()) is Some,
        r matches Ok(text) ==> date_text(date.year, date.ordinal, submitted_date_layout()) == Some(text@),
{
    format_date(date.year, date.ordinal, "[year]-[month]-[day]")
}

/// The extractions submitted by the model since the last flush, oldest first.
pub struct Submissions<T> {
    items: Vec<T>,
}

impl<T> View for Submissions<T> {
    type V = Seq<T>;

    closed spec fn view(&self) -> Seq<T> {
        self.items@
    }
}

impl<T> Submissions<T> {
    /// An empty buffer.
    pub fn new() -> (s: Self)
        ensures
            s@ == Seq::<T>::empty(),
    {
        Submissions { items: Vec::with_capacity(2) }
    }

    /// Records one submission after all earlier ones.
    pub fn submit(&mut self, item: T)
        ensures
            final(self)@ == old(self)@.push(item),
    {
        self.items.push(item);
    }

    /// Hands out every submission since the last flush, in submission order,
    /// and leaves the buffer empty.
    pub fn flush(&mut self) -> (out: Vec<T>)
        ensures
            out@ == old(self)@,
            final(self)@ == Seq::<T>::empty(),
    {
        let mut out: Vec<T> = Vec::new();
        std::mem::swap(&mut out, &mut self.items);
        out
    }
}

} // verus!
