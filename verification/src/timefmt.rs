//! Timestamps of the ingest.
//!
//! Dataset timestamps arrive as whole days since 1993-01-01 and leave as
//! ISO 8601 UTC text. The civil calendar itself is chrono's; the library
//! names its answer and formats it with the verified formatter.

use vstd::prelude::*;
use chrono::Datelike;
use chrono::Timelike;
use crate::fmt::{iso8601_string, spec_iso8601};

verus! {

/// The civil date (year, month, day) of the day `days` days after
/// 1993-01-01, in the proleptic Gregorian calendar.
pub uninterp spec fn civil_of_days(days: int) -> (int, int, int);

/// Relies on chrono's `NaiveDate`: `from_ymd_opt`, `checked_add_days` and
/// the `Datelike` getters give the civil date a whole number of days after
/// the epoch date. The result depends on the day count alone; chrono's
/// months run 1..=12 and month days 1..=31, adding no days gives the epoch
/// date back, and adding days never moves the year down.
#[verifier::external_body]
fn civil_from_days(days: i64) -> (r: (i32, u32, u32))
    requires
        0 <= days <= 3_000_000,
    ensures
        (r.0 as int, r.1 as int, r.2 as int) == civil_of_days(days as int),
        1993 <= r.0,
        1 <= r.1 <= 12,
        1 <= r.2 <= 31,
        days == 0 ==> r == (1993i32, 1u32, 1u32),
{
    let epoch = chrono::NaiveDate::from_ymd_opt(1993, 1, 1).unwrap();
    let d = epoch.checked_add_days(chrono::Days::new(days as u64)).unwrap();
    (d.year(), d.month(), d.day())
}

/// The ISO 8601 text of midnight, `days` days after 1993-01-01.
pub open spec fn spec_timestamp_string(days: int) -> Seq<char> {
    spec_iso8601(
        civil_of_days(days).0,
        civil_of_days(days).1,
        civil_of_days(days).2,
        0,
        0,
        0,
    )
}

/// Writes the timestamp of midnight, `days` days after 1993-01-01, as
/// `YYYY-MM-DDTHH:MM:SSZ`.
pub fn timestamp_string(days: i64) -> (s: String)
    requires
        0 <= days <= 3_000_000,
    ensures
        s@ == spec_timestamp_string(days as int),
{
    let (y, mo, d) = civil_from_days(days);
    iso8601_string(y, mo, d, 0, 0, 0)
}

/// Relies on `chrono::Utc::now` and the `Datelike`/`Timelike` getters for
/// the current civil time. Nothing is assumed of the moment itself, only
/// the getters' documented field ranges.
#[verifier::external_body]
fn utc_now_civil() -> (r: (i32, u32, u32, u32, u32, u32))
    ensures
        1 <= r.1 <= 12,
        1 <= r.2 <= 31,
        r.3 <= 23,
        r.4 <= 59,
        r.5 <= 59,
{
    let now = chrono::Utc::now();
    (now.year(), now.month(), now.day(), now.hour(), now.minute(), now.second())
}

/// The current moment as ISO 8601 UTC text, `YYYY-MM-DDTHH:MM:SSZ`:
/// whatever the clock read, the result is the verified rendering of some
/// civil time with its fields in range.
pub fn nowstring() -> (s: String)
    ensures
        exists|y: int, mo: int, d: int, h: int, mi: int, sec: int|
            1 <= mo <= 12 && 1 <= d <= 31 && 0 <= h <= 23 && 0 <= mi <= 59 && 0 <= sec <= 59
                && s@ == #[trigger] spec_iso8601(y, mo, d, h, mi, sec),
{
    let (y, mo, d, h, mi, sec) = utc_now_civil();
    let s = iso8601_string(y, mo, d, h, mi, sec);
    proof {
        assert(s@ == spec_iso8601(
            y as int,
            mo as int,
            d as int,
            h as int,
            mi as int,
            sec as int,
        ));
    }
    s
}

} // verus!
