//! Conversions between Unix-epoch milliseconds and Excel date serial numbers.
//!
//! Excel counts days from its 1900 epoch and, by a historic quirk, treats
//! 1900 as a leap year: serial number 60 names the nonexistent 1900-02-29.
//! The conversions here work on the serial number scaled to milliseconds
//! (serial number times the number of milliseconds in a day), which keeps
//! the arithmetic exact; dividing by `MS_PER_DAY` yields the fractional
//! serial number itself.

use vstd::prelude::*;

verus! {

/// Milliseconds in one day.
pub const MS_PER_DAY: i64 = 86400000;

/// Days from the Excel 1900 epoch to the Unix epoch.
pub const EXCEL_EPOCH_OFFSET_DAYS: i64 = 25569;

/// The Excel serial number, scaled to milliseconds, of a Unix timestamp:
/// shift to the Excel epoch, then add one day below the phantom leap day
/// and two days above it.
pub open spec fn spec_timestamp_to_excel_ms(t: int) -> int {
    let v = t + 25569 * 86400000;
    if v <= 60 * 86400000 {
        v + 86400000
    } else {
        v + 2 * 86400000
    }
}

/// The Unix timestamp of an Excel serial number scaled to milliseconds;
/// `None` for negative dates and for the phantom leap day 60.
pub open spec fn spec_excel_ms_to_timestamp(e: int) -> Option<int> {
    let v = if e < 60 * 86400000 {
        e - 86400000
    } else if e > 60 * 86400000 {
        e - 2 * 86400000
    } else {
        e
    };
    if v < 0 || e == 60 * 86400000 {
        None
    } else {
        Some(v - 25569 * 86400000)
    }
}

/// Converts a Unix timestamp in milliseconds to the Excel date serial
/// number scaled to milliseconds.
pub fn timestamp_to_excel_date_ms(timestamp_ms: i64) -> (r: i64)
    requires
        timestamp_ms <= i64::MAX - 25571 * 86400000,
    ensures
        r == spec_timestamp_to_excel_ms(timestamp_ms as int),
{
    let val_tmp = timestamp_ms + EXCEL_EPOCH_OFFSET_DAYS * MS_PER_DAY;
    if val_tmp <= 60 * MS_PER_DAY {
        val_tmp + MS_PER_DAY
    } else {
        val_tmp + 2 * MS_PER_DAY
    }
}

/// Converts an Excel date serial number scaled to milliseconds back to a
/// Unix timestamp in milliseconds. Returns `None` exactly for serial
/// numbers that are negative (after undoing the leap-day shift) and for
/// the phantom leap day 60.
pub fn excel_date_ms_to_timestamp(excel_ms: i64) -> (r: Option<i64>)
    ensures
        match r {
            Some(t) => spec_excel_ms_to_timestamp(excel_ms as int) == Some(t as int),
            None => spec_excel_ms_to_timestamp(excel_ms as int) is None,
        },
{
    if excel_ms < 0 {
        return None;
    }
    let val = if excel_ms < 60 * MS_PER_DAY {
        excel_ms - MS_PER_DAY
    } else if excel_ms > 60 * MS_PER_DAY {
        excel_ms - 2 * MS_PER_DAY
    } else {
        excel_ms
    };
    if val < 0 || excel_ms == 60 * MS_PER_DAY {
        None
    } else {
        Some(val - EXCEL_EPOCH_OFFSET_DAYS * MS_PER_DAY)
    }
}

/// Date round-trip: every nonnegative timestamp maps to an Excel serial
/// above the phantom leap day, and converting it back returns it exactly.
pub proof fn lemma_date_round_trip(t: int)
    requires
        0 <= t,
    ensures
        spec_timestamp_to_excel_ms(t) != 60 * 86400000,
        spec_excel_ms_to_timestamp(spec_timestamp_to_excel_ms(t)) == Some(t),
{
}

} // verus!
