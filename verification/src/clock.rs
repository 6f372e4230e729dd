//! The calendar day a completed work session is recorded under.
//!
//! Only the clock itself is taken on trust; turning its reading into a
//! [`Date`] the store can carry is verified.

use vstd::prelude::*;
use chrono::Datelike;
use crate::log::Date;

verus! {

/// Relies on chrono's `Local::now` and the `Datelike` accessors: chrono
/// documents that `month` ranges from 1 to 12 and `day` from 1 to 31. The
/// year depends on the clock alone, so nothing is promised of it.
#[verifier::external_body]
fn now_ymd() -> (r: (i32, u32, u32))
    ensures
        1 <= r.1 <= 12,
        1 <= r.2 <= 31,
{
    let now = chrono::Local::now();
    (now.year(), now.month(), now.day())
}

/// Builds the log's date from a year, month and day as a clock reported
/// them; `None` when they do not fit the `YYYY-MM-DD` form of the store.
pub fn date_from_ymd(year: i32, month: u32, day: u32) -> (r: Option<Date>)
    ensures
        match r {
            Some(d) => d.wf() && d == (Date { year: year as u32, month: month, day: day })
                && 0 <= year <= 9999,
            None => !(0 <= year <= 9999 && 1 <= month <= 12 && 1 <= day <= 31),
        },
{
    if 0 <= year && year <= 9999 && 1 <= month && month <= 12 && 1 <= day && day <= 31 {
        Some(Date { year: year as u32, month: month, day: day })
    } else {
        None
    }
}

/// Today's date by the local clock; `None` only if the clock reports a year
/// outside the four-digit range the store can hold.
pub fn today() -> (r: Option<Date>)
    ensures
        r matches Some(d) ==> d.wf(),
{
    let (y, m, d) = now_ymd();
    date_from_ymd(y, m, d)
}

} // verus!
