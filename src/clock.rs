//! Calendar text, read and written by the `chrono` crate. Instants are
//! milliseconds since the Unix epoch.

use vstd::prelude::*;

verus! {

/// The instant that `text` gives in `format` (which names its offset).
pub uninterp spec fn parsed_instant(text: Seq<char>, format: Seq<char>) -> Option<i64>;

/// Whether `text` reads as a time of day in `format`.
pub uninterp spec fn is_time_of_day(text: Seq<char>, format: Seq<char>) -> bool;

/// The UTC calendar date of `millis`, written `Month DD, YYYY`.
pub uninterp spec fn formatted_date(millis: i64) -> Option<Seq<char>>;

/// Relies on chrono's `DateTime::parse_from_str` and `DateTime::timestamp_millis`.
#[verifier::external_body]
pub(crate) fn parse_instant(text: &str, format: &str) -> (r: Option<i64>)
    ensures
        r == parsed_instant(text@, format@),
{
    chrono::DateTime::parse_from_str(text, format).ok().map(|d| d.timestamp_millis())
}

/// Relies on chrono's `NaiveTime::parse_from_str`.
#[verifier::external_body]
pub(crate) fn reads_as_time_of_day(text: &str, format: &str) -> (r: bool)
    ensures
        r == is_time_of_day(text@, format@),
{
    chrono::NaiveTime::parse_from_str(text, format).is_ok()
}

/// Relies on chrono's `DateTime::from_timestamp_millis` and `DateTime::format`;
/// `None` where the instant is out of chrono's range. Only the date format
/// `%B %d, %Y` is admitted: chrono fails on an invalid specifier, and
/// `to_string` panics on that failure.
#[verifier::external_body]
pub(crate) fn format_date(millis: i64, format: &str) -> (r: Option<String>)
    requires
        format@ == "%B %d, %Y"@,
    ensures
        match r {
            Some(s) => formatted_date(millis) == Some(s@),
            None => formatted_date(millis) is None,
        },
{
    chrono::DateTime::from_timestamp_millis(millis).map(|d| d.format(format).to_string())
}

/// `millis` read in a clock `offset` hours east of UTC, as UTC.
pub open spec fn shifted(millis: i64, offset: i32) -> Option<i64> {
    let v = millis as int - offset as int * 3_600_000;
    if i64::MIN <= v <= i64::MAX {
        Some(v as i64)
    } else {
        None
    }
}

pub fn shift_by_offset(millis: i64, offset: i32) -> (r: Option<i64>)
    ensures
        r == shifted(millis, offset),
{
    let v = millis as i128 - offset as i128 * 3_600_000;
    if v < i64::MIN as i128 || v > i64::MAX as i128 {
        None
    } else {
        Some(v as i64)
    }
}

} // verus!
