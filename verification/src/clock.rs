//! The system clock: the sampling time and the calendar date that the
//! tracker stamps on sessions.

use vstd::prelude::*;
use crate::date::Date;

verus! {

/// Relies on std's `SystemTime::now` and `SystemTime::duration_since`: one
/// reading of the system clock, as milliseconds since the Unix epoch, or
/// nothing on a clock set before the epoch. Neither call can panic, and
/// nothing is promised of the value: it is a clock reading.
#[verifier::external_body]
fn now_epoch_millis_raw() -> (t: Option<u64>) {
    std::time::SystemTime::now()
        .duration_since(std::time::UNIX_EPOCH)
        .ok()
        .map(|d| d.as_millis() as u64)
}

/// Relies on chrono's `DateTime::from_timestamp_millis` (which returns
/// nothing, rather than panicking, for a moment outside chrono's range),
/// `DateTime::with_timezone` with `Local`, `date_naive`, and the `Datelike`
/// accessors `year`, `month` and `day`: the local calendar date of the given
/// moment, in milliseconds since the Unix epoch. chrono documents that
/// `month` ranges over `1..=12` and `day` over `1..=31`; the year depends on
/// the clock and nothing is promised of it.
#[verifier::external_body]
fn local_ymd_raw(epoch_ms: u64) -> (r: Option<(i64, u32, u32)>)
    ensures
        r matches Some(d) ==> 1 <= d.1 <= 12 && 1 <= d.2 <= 31,
{
    chrono::DateTime::<chrono::Utc>::from_timestamp_millis(epoch_ms as i64).map(|t| {
        let d = t.with_timezone(&chrono::Local).date_naive();
        (
            chrono::Datelike::year(&d) as i64,
            chrono::Datelike::month(&d),
            chrono::Datelike::day(&d),
        )
    })
}

/// The current time in milliseconds since the Unix epoch; a clock set before
/// 1970 reads as zero.
pub fn current_time_ms() -> u64 {
    match now_epoch_millis_raw() {
        Some(t) => t,
        None => 0,
    }
}

/// Today's local date, whenever the clock reads a moment chrono can place in
/// the calendar, in a year the store's date form can hold (four digits); the
/// ranges the conversion promises are checked, never trusted blindly.
pub fn current_date() -> (r: Option<Date>)
    ensures
        r matches Some(d) ==> d.wf(),
{
    let ms = current_time_ms();
    match local_ymd_raw(ms) {
        Some((y, m, d)) => {
            if y < 1 || y > 9999 {
                return None;
            }
            Date::new(y as u32, m, d)
        },
        None => None,
    }
}

} // verus!
