//! Calendar dates as day numbers (days from the Common Era, 1 January of year
//! 1 being day 1), with chrono doing the calendar work.

use chrono::{Datelike, NaiveDate};
use vstd::prelude::*;
use crate::text::opt_text;

verus! {

/// The `YYYY-MM-DD` text of day `day`, or `None` outside chrono's range.
pub uninterp spec fn iso_date(day: i32) -> Option<Seq<char>>;

/// The day a `YYYY-MM-DD` text names, or `None` when it is not one.
pub uninterp spec fn parsed_day(text: Seq<char>) -> Option<i32>;

/// Days since the last Sunday (0 for a Sunday) of day `day`, or `None`
/// outside chrono's range.
pub uninterp spec fn days_from_sunday(day: i32) -> Option<u32>;

/// Days since the last Monday (0 for a Monday) of day `day`, or `None`
/// outside chrono's range.
pub uninterp spec fn days_from_monday(day: i32) -> Option<u32>;

/// The `%d %b` label ("07 Mar") of day `day`, or `None` outside chrono's range.
pub uninterp spec fn day_month_text(day: i32) -> Option<Seq<char>>;

/// The `%b` label ("Mar") of day `day`, or `None` outside chrono's range.
pub uninterp spec fn month_text(day: i32) -> Option<Seq<char>>;

/// `NaiveDate::from_num_days_from_ce_opt` then `to_string`: the ISO text of a
/// day number.
#[verifier::external_body]
pub(crate) fn date_text(day: i32) -> (r: Option<String>)
    ensures
        opt_text(r) == iso_date(day),
{
    match NaiveDate::from_num_days_from_ce_opt(day) {
        Some(d) => Some(d.to_string()),
        None => None,
    }
}

/// `str::parse::<NaiveDate>` then `num_days_from_ce`: the day number of an
/// ISO date text.
#[verifier::external_body]
pub(crate) fn parse_day(text: &str) -> (r: Option<i32>)
    ensures
        r == parsed_day(text@),
{
    match text.parse::<NaiveDate>() {
        Ok(d) => Some(d.num_days_from_ce()),
        Err(_) => None,
    }
}

/// `weekday().num_days_from_sunday()` of a day number. Day 1 (1 January of
/// year 1) is a Monday, so the count is the day number modulo 7.
#[verifier::external_body]
pub(crate) fn weekday_from_sunday(day: i32) -> (r: Option<u32>)
    ensures
        r == days_from_sunday(day),
        r matches Some(k) ==> k as int == (day as int) % 7,
{
    match NaiveDate::from_num_days_from_ce_opt(day) {
        Some(d) => Some(d.weekday().num_days_from_sunday()),
        None => None,
    }
}

/// `weekday().num_days_from_monday()` of a day number: one less than the
/// Sunday-based count, modulo 7.
#[verifier::external_body]
pub(crate) fn weekday_from_monday(day: i32) -> (r: Option<u32>)
    ensures
        r == days_from_monday(day),
        r matches Some(k) ==> k as int == (day as int + 6) % 7,
{
    match NaiveDate::from_num_days_from_ce_opt(day) {
        Some(d) => Some(d.weekday().num_days_from_monday()),
        None => None,
    }
}

/// `format("%d %b")` of a day number.
#[verifier::external_body]
pub(crate) fn day_month_label(day: i32) -> (r: Option<String>)
    ensures
        opt_text(r) == day_month_text(day),
{
    match NaiveDate::from_num_days_from_ce_opt(day) {
        Some(d) => Some(format!("{}", d.format("%d %b"))),
        None => None,
    }
}

/// `format("%b")` of a day number.
#[verifier::external_body]
pub(crate) fn format_month(day: i32) -> (r: Option<String>)
    ensures
        opt_text(r) == month_text(day),
{
    match NaiveDate::from_num_days_from_ce_opt(day) {
        Some(d) => Some(format!("{}", d.format("%b"))),
        None => None,
    }
}

} // verus!
