//! Timestamp helpers: the second/millisecond epoch normalization rule, the
//! conversion from epoch milliseconds to a calendar date, and the one trusted
//! reading of the system clock.

use vstd::prelude::*;
use crate::calendar::Date;

verus! {

/// One day in milliseconds.
pub const MILLIS_PER_DAY: i64 = 86400000;

/// The epoch value `t` normalized to milliseconds: a value whose decimal
/// rendering has at most ten characters is a count of seconds and is scaled
/// by one thousand; longer values are already milliseconds. (A non-negative
/// value below 10^10 has at most ten digits; a negative one above -10^9 has
/// at most nine digits and its sign.)
pub open spec fn spec_normalize_epoch(t: int) -> int {
    if (0 <= t < 10000000000) || (-1000000000 < t < 0) {
        1000 * t
    } else {
        t
    }
}

/// Normalizes a second- or millisecond-epoch value to milliseconds, under
/// the ten-character rule of [`spec_normalize_epoch`]. Kept under the name
/// of the timestamp conversion it is the plain-value core of.
pub fn from_timestamp(timestamp: &i64) -> (r: i64)
    ensures
        r == spec_normalize_epoch(*timestamp as int),
{
    let t = *timestamp;
    if (0 <= t && t < 10000000000) || (-1000000000 < t && t < 0) {
        1000 * t
    } else {
        t
    }
}

/// A date from its parts, under the name the rest of the system builds
/// midnight timestamps with.
pub fn create_utc(year: u32, month: u32, day: u32) -> (r: Date)
    requires
        (Date { year, month, day }).valid(),
    ensures
        r == (Date { year, month, day }),
        r.valid(),
{
    Date::new(year, month, day)
}

/// The first day of the Unix epoch.
pub open spec fn spec_epoch_date() -> Date {
    Date { year: 1970, month: 1, day: 1 }
}

/// The calendar date containing the epoch-millisecond instant `ms`: the
/// epoch date advanced by `ms` whole days. `None` for an instant before the
/// epoch or past the supported calendar.
pub fn date_of_epoch_millis(ms: i64) -> (r: Option<Date>)
    ensures
        r matches Some(d) ==> {
            &&& d.valid()
            &&& ms >= 0
            &&& d.day_number() == spec_epoch_date().day_number() + ms as int / (
            MILLIS_PER_DAY as int)
        },
        r is None <==> (ms < 0 || spec_epoch_date().day_number() + ms as int / (
        MILLIS_PER_DAY as int) > (Date { year: 9999, month: 12, day: 31 }).day_number()),
{
    if ms < 0 {
        return None;
    }
    let days: i64 = ms / MILLIS_PER_DAY;
    assert(days == ms as int / (MILLIS_PER_DAY as int));
    let mut cur = Date { year: 1970, month: 1, day: 1 };
    let mut i: i64 = 0;
    assert(cur.valid());
    while i < days
        invariant
            0 <= i <= days,
            ms >= 0,
            days == ms as int / (MILLIS_PER_DAY as int),
            cur.valid(),
            cur.day_number() == spec_epoch_date().day_number() + i,
        decreases days - i,
    {
        if cur.year == 9999 && cur.month == 12 && cur.day == 31 {
            proof {
                lemma_later_day_overflows(cur, spec_epoch_date(), i as int, days as int);
            }
            return None;
        }
        cur = cur.succ();
        i = i + 1;
    }
    proof {
        crate::calendar::lemma_day_number_orders(cur, Date { year: 9999, month: 12, day: 31 });
    }
    Some(cur)
}

/// Proof that a day count reaching past the running date also reaches past
/// the calendar's last day.
proof fn lemma_later_day_overflows(cur: Date, base: Date, i: int, days: int)
    requires
        cur.valid(),
        cur.year == 9999 && cur.month == 12 && cur.day == 31,
        i < days,
        cur.day_number() == base.day_number() + i,
    ensures
        base.day_number() + days > (Date { year: 9999, month: 12, day: 31 }).day_number(),
{
}

/// Relies on `chrono::Utc::now` and `chrono::Datelike::{year, month, day}`:
/// the current UTC date as the system clock reports it. Nothing is assumed
/// of the returned parts; [`today_utc`] validates them.
#[verifier::external_body]
fn now_ymd_utc() -> (i64, u64, u64) {
    let now = chrono::Utc::now();
    (
        chrono::Datelike::year(&now) as i64,
        chrono::Datelike::month(&now) as u64,
        chrono::Datelike::day(&now) as u64,
    )
}

/// Today's date read from the system clock; `None` when the clock reports
/// parts that do not form a supported calendar date.
pub fn today_utc() -> (r: Option<Date>)
    ensures
        r matches Some(d) ==> d.valid(),
{
    let (y, m, d) = now_ymd_utc();
    if 1 <= y && y <= 9999 && 1 <= m && m <= 12 && 1 <= d && d <= 31 {
        let date = Date { year: y as u32, month: m as u32, day: d as u32 };
        if crate::calendar::valid_ymd(date.year, date.month, date.day) {
            return Some(date);
        }
        None
    } else {
        None
    }
}

} // verus!
