//! Trusted bindings to the timezone-database-backed conversions the expiry
//! calculation needs. The schedule expires relative to the serviced city's
//! civil clock (US/Pacific), so resolving a civil time to a UTC instant
//! must come from real transition data, not a fixed offset.

use vstd::prelude::*;

use chrono::Offset;
use chrono::TimeZone;

use crate::date::{date_valid, Date};

verus! {

/// The UTC offset, in seconds, of the single instant that the civil time
/// `year-month-day 04:00:00` denotes in US/Pacific, or nothing when the
/// timezone data does not resolve that civil time to exactly one instant.
/// Fixed timezone data makes this a function of the civil date alone.
pub uninterp spec fn pacific_offset_at_4am(year: int, month: int, day: int) -> Option<int>;

/// The HTTP-date rendering of the UTC instant `t` seconds after the Unix
/// epoch, in the shape `Mon, 02 Jan 2023 04:00:00 GMT`.
pub uninterp spec fn http_date_of(t: int) -> Seq<char>;

/// Relies on chrono_tz's US/Pacific table through chrono's
/// `TimeZone::offset_from_local_datetime` (the `NaiveDate` and
/// `NaiveDateTime` constructors only carry the plain fields in): the
/// offset of the one instant `year-month-day 04:00:00` names there, if it
/// names exactly one. The answer depends on the arguments alone.
#[verifier::external_body]
pub(crate) fn pacific_offset(year: u16, month: u8, day: u8) -> (r: Option<i32>)
    requires
        date_valid(Date { year, month, day }),
    ensures
        match r {
            Some(o) => pacific_offset_at_4am(year as int, month as int, day as int) == Some(
                o as int,
            ),
            None => pacific_offset_at_4am(year as int, month as int, day as int) is None,
        },
{
    let nd = chrono::NaiveDate::from_ymd_opt(year as i32, month as u32, day as u32)?;
    let ndt = nd.and_hms_opt(4, 0, 0)?;
    chrono_tz::US::Pacific.offset_from_local_datetime(&ndt).single().map(
        |o| o.fix().local_minus_utc(),
    )
}

/// Relies on chrono's `DateTime::format` with the internet-message-format
/// pattern (`DateTime::from_timestamp` only carries the plain seconds in;
/// it is documented to resolve every timestamp in the required range): the
/// fixed-format GMT rendering of the instant. The text depends on `t`
/// alone.
#[verifier::external_body]
pub(crate) fn format_http_date(t: i64) -> (r: String)
    requires
        -7000000000000 <= t <= 7000000000000,
    ensures
        r@ == http_date_of(t as int),
{
    let dt = chrono::DateTime::<chrono::Utc>::from_timestamp(t, 0).unwrap();
    dt.format("%a, %d %b %Y %H:%M:%S GMT").to_string()
}

} // verus!
