//! Calendar dates of posts.

use chrono::Datelike;
use vstd::prelude::*;

verus! {

/// A day of the proleptic Gregorian calendar. A post dated so was published
/// at midnight UTC of that day.
#[derive(Debug, Clone, Copy, PartialEq, Eq, Structural)]
pub struct PostDate {
    pub year: i32,
    /// 1 to 12.
    pub month: u32,
    /// 1 to 31.
    pub day: u32,
}

/// Year, month and day that `chrono` reads from `text` under the format
/// `%Y-%m-%d-`, or `None` where it reads no date.
pub uninterp spec fn parsed_date(text: Seq<char>) -> Option<(int, int, int)>;

/// Year, month and day of a date.
pub open spec fn date_fields(date: Option<PostDate>) -> Option<(int, int, int)> {
    match date {
        Some(d) => Some((d.year as int, d.month as int, d.day as int)),
        None => None,
    }
}

/// The date with the given fields.
pub open spec fn date_from_fields(fields: Option<(int, int, int)>) -> Option<PostDate> {
    match fields {
        Some(f) => Some(PostDate { year: f.0 as i32, month: f.1 as u32, day: f.2 as u32 }),
        None => None,
    }
}

/// Calls `chrono::NaiveDate::parse_from_str` with the format `%Y-%m-%d-` and
/// reads year, month and day off the date it returns (`Datelike::year`,
/// `month`, `day`). The parse depends on the text alone, so its outcome has
/// the name [`parsed_date`]; of the fields the contract claims only the
/// ranges that `Datelike` documents: months 1 to 12, days 1 to 31.
#[verifier::external_body]
pub(crate) fn parse_date(text: &str) -> (date: Option<PostDate>)
    ensures
        date_fields(date) == parsed_date(text@),
        date matches Some(d) ==> 1 <= d.month <= 12 && 1 <= d.day <= 31,
{
    match chrono::NaiveDate::parse_from_str(text, "%Y-%m-%d-") {
        Ok(date) => Some(PostDate { year: date.year(), month: date.month(), day: date.day() }),
        Err(_) => None,
    }
}

} // verus!
