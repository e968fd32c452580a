//! Dates and times read with `chrono` format strings. Each parsed value is
//! handed to the library as the plain numbers that chrono orders it by.
use vstd::prelude::*;

use chrono::{Datelike, Timelike};

verus! {

/// What `chrono::NaiveDate::parse_from_str(word, format)` gives, as the number
/// of days from the Common Era (`Datelike::num_days_from_ce`).
pub uninterp spec fn naive_date_from_str(word: Seq<char>, format: Seq<char>) -> Option<i32>;

/// What `chrono::NaiveTime::parse_from_str(word, format)` gives, as (seconds
/// from midnight, nanoseconds): the two fields that `NaiveTime` is ordered by.
pub uninterp spec fn naive_time_from_str(word: Seq<char>, format: Seq<char>) -> Option<(u32, u32)>;

/// What `chrono::DateTime::<FixedOffset>::parse_from_str(word, format)` gives,
/// as its UTC instant (`naive_utc`): (days from the Common Era, seconds from
/// midnight, nanoseconds). `DateTime` compares and orders by that instant.
pub uninterp spec fn date_time_from_str(word: Seq<char>, format: Seq<char>) -> Option<(i32, u32, u32)>;

/// What `chrono::NaiveDateTime::parse_from_str(word, format)` gives, as (days
/// from the Common Era, seconds from midnight, nanoseconds).
pub uninterp spec fn naive_date_time_from_str(word: Seq<char>, format: Seq<char>) -> Option<(i32, u32, u32)>;

/// Where `chrono::format::StrftimeItems::new(format)` first yields
/// `Item::Error` (an unknown or incomplete specifier), counted in items.
pub uninterp spec fn strftime_error_position(format: Seq<char>) -> Option<usize>;

/// Walks the items that `chrono::format::StrftimeItems::new` reads from the
/// format and returns the index of the first `Item::Error`. Claims only that
/// the result is the named one.
#[verifier::external_body]
pub(crate) fn strftime_error(format: &str) -> (r: Option<usize>)
    ensures
        r == strftime_error_position(format@),
{
    chrono::format::StrftimeItems::new(format).position(
        |item| matches!(item, chrono::format::Item::Error),
    )
}

/// Calls `chrono::NaiveDate::parse_from_str`; the date is returned as its day
/// count from the Common Era. Claims only that the result is the named one.
#[verifier::external_body]
pub(crate) fn parse_naive_date(word: &str, format: &str) -> (r: Option<i32>)
    ensures
        r == naive_date_from_str(word@, format@),
{
    match chrono::NaiveDate::parse_from_str(word, format) {
        Ok(date) => Some(date.num_days_from_ce()),
        Err(_) => None,
    }
}

/// Calls `chrono::NaiveTime::parse_from_str`; the time is returned as its
/// seconds from midnight and nanoseconds. Claims only that the result is the
/// named one.
#[verifier::external_body]
pub(crate) fn parse_naive_time(word: &str, format: &str) -> (r: Option<(u32, u32)>)
    ensures
        r == naive_time_from_str(word@, format@),
{
    match chrono::NaiveTime::parse_from_str(word, format) {
        Ok(time) => Some((time.num_seconds_from_midnight(), time.nanosecond())),
        Err(_) => None,
    }
}

/// Calls `chrono::DateTime::parse_from_str`; the date and time is returned as
/// its UTC instant. Claims only that the result is the named one.
#[verifier::external_body]
pub(crate) fn parse_date_time(word: &str, format: &str) -> (r: Option<(i32, u32, u32)>)
    ensures
        r == date_time_from_str(word@, format@),
{
    match chrono::DateTime::parse_from_str(word, format) {
        Ok(date_time) => {
            let utc = date_time.naive_utc();
            Some((utc.date().num_days_from_ce(), utc.num_seconds_from_midnight(), utc.nanosecond()))
        },
        Err(_) => None,
    }
}

/// Calls `chrono::NaiveDateTime::parse_from_str`; the value is returned as
/// its day count, seconds from midnight and nanoseconds. Claims only that the
/// result is the named one.
#[verifier::external_body]
pub(crate) fn parse_naive_date_time(word: &str, format: &str) -> (r: Option<(i32, u32, u32)>)
    ensures
        r == naive_date_time_from_str(word@, format@),
{
    match chrono::NaiveDateTime::parse_from_str(word, format) {
        Ok(local) => Some(
            (local.date().num_days_from_ce(), local.num_seconds_from_midnight(), local.nanosecond()),
        ),
        Err(_) => None,
    }
}

} // verus!
