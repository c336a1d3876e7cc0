//! Instants as text.  The calendar is chrono's; what it writes for an instant
//! has a name here, and the functions that use the text take it as it comes.

use chrono::{FixedOffset, TimeZone, Utc};
use vstd::prelude::*;

verus! {

/// What chrono writes for the instant `millis` milliseconds after the epoch
/// on a clock `east` seconds ahead of Greenwich: the date, the time of day and
/// the offset.  There is nothing to write for an instant or an offset out of
/// chrono's range.
pub uninterp spec fn local_time_text(millis: i64, east: i32) -> Option<Seq<char>>;

/// What chrono writes for the day in Greenwich that holds the instant
/// `millis` milliseconds after the epoch.  There is nothing to write for an
/// instant out of chrono's range.
pub uninterp spec fn utc_date_text(millis: i64) -> Option<Seq<char>>;

/// `TimeZone::timestamp_millis_opt` of chrono on the `FixedOffset` that
/// `FixedOffset::east_opt` makes of `east`, written by `to_string`.  The text
/// is a function of the instant and the offset alone; where chrono refuses
/// either, there is none.
#[verifier::external_body]
pub(crate) fn local_time(millis: i64, east: i32) -> (r: Option<String>)
    ensures
        r.is_some() == local_time_text(millis, east).is_some(),
        r matches Some(text) ==> local_time_text(millis, east) == Some(text@),
{
    match FixedOffset::east_opt(east) {
        Some(offset) => match offset.timestamp_millis_opt(millis).single() {
            Some(time) => Some(time.to_string()),
            None => None,
        },
        None => None,
    }
}

/// `TimeZone::timestamp_millis_opt` of chrono on `Utc`, of which the date is
/// written by `to_string`.  The text is a function of the instant alone; where
/// chrono refuses the instant, there is none.
#[verifier::external_body]
pub(crate) fn utc_date(millis: i64) -> (r: Option<String>)
    ensures
        r.is_some() == utc_date_text(millis).is_some(),
        r matches Some(text) ==> utc_date_text(millis) == Some(text@),
{
    match Utc.timestamp_millis_opt(millis).single() {
        Some(time) => Some(time.naive_utc().date().to_string()),
        None => None,
    }
}

} // verus!
