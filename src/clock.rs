//! Times: reading a timestamp and writing a date through the `time` crate,
//! and counting seconds since the epoch.

use vstd::prelude::*;

use crate::log::LocalTime;
use crate::text::{decimal, padded_digits};

verus! {

#[verifier::external_type_specification]
#[verifier::external_body]
pub struct ExTimeParseError(time::ParseError);

/// The format of the bracketed time of a log line.
pub const LOG_TIME_FORMAT: &'static str = "%d/%b/%Y:%H:%M:%S %z";

/// The time that `time::strptime` reads from `text` with `format`, if any.
pub uninterp spec fn strptime_of(text: Seq<char>, format: Seq<char>) -> Option<LocalTime>;

/// The abbreviation of a month counted from zero, as `%b` reads it.
pub open spec fn month_abbrev(mon: int) -> Seq<char> {
    if mon == 0 { "Jan"@ }
    else if mon == 1 { "Feb"@ }
    else if mon == 2 { "Mar"@ }
    else if mon == 3 { "Apr"@ }
    else if mon == 4 { "May"@ }
    else if mon == 5 { "Jun"@ }
    else if mon == 6 { "Jul"@ }
    else if mon == 7 { "Aug"@ }
    else if mon == 8 { "Sep"@ }
    else if mon == 9 { "Oct"@ }
    else if mon == 10 { "Nov"@ }
    else { "Dec"@ }
}

/// A time written in `LOG_TIME_FORMAT` with every number zero-padded to its
/// full width: `DD/Mon/YYYY:HH:MM:SS +HHMM`.
pub open spec fn log_time_text(t: LocalTime) -> Seq<char> {
    let off: int = if t.utcoff < 0 { -t.utcoff } else { t.utcoff as int };
    padded_digits(t.mday as nat, 2) + "/"@ + month_abbrev(t.mon as int) + "/"@ + padded_digits(
        (t.year + 1900) as nat,
        4,
    ) + ":"@ + padded_digits(t.hour as nat, 2) + ":"@ + padded_digits(t.min as nat, 2) + ":"@
        + padded_digits(t.sec as nat, 2) + (if t.utcoff < 0 {
        " -"@
    } else {
        " +"@
    }) + padded_digits((off / 3600) as nat, 2) + padded_digits(((off % 3600) / 60) as nat, 2)
}

/// `log_time_text` writes `t` exactly: its fields are in range and its
/// offset is a whole number of minutes under a hundred hours.
pub open spec fn writes_exactly(t: LocalTime) -> bool {
    &&& t.wf()
    &&& t.utcoff % 60 == 0
    &&& -100 * 3600 < t.utcoff < 100 * 3600
}

/// How a day is written as a key of the date table.
pub const DATE_FORMAT: &'static str = "%Y-%m-%d";

/// The day of `t` as `DATE_FORMAT` writes it: the full year, then the month
/// and the day of the month in two digits each, joined by dashes.
pub open spec fn date_text_of(t: LocalTime) -> Seq<char> {
    decimal((t.year + 1900) as nat) + seq!['-'] + padded_digits((t.mon + 1) as nat, 2) + seq![
        '-',
    ] + padded_digits(t.mday as nat, 2)
}

/// Days from 1970-01-01 to a day of the proleptic Gregorian calendar, with
/// `year` counted from 1900 and `mon` from zero. January and February count
/// as months 13 and 14 of the year before. Years are shifted by one 400-year
/// cycle (146097 days) so that every division is of a non-negative number.
pub open spec fn days_from_epoch(year: int, mon: int, mday: int) -> int {
    let y0 = year + 1900 + 400;
    let m0 = mon + 1;
    let y = if m0 <= 2 { y0 - 1 } else { y0 };
    let m = if m0 <= 2 { m0 + 12 } else { m0 };
    365 * y + y / 4 - y / 100 + y / 400 + 3 * (m + 1) / 5 + 30 * m + mday - 719561 - 146097
}

/// The seconds since the epoch of the wall-clock fields of `t` read as UTC.
pub open spec fn utc_seconds_of(t: LocalTime) -> int {
    days_from_epoch(t.year as int, t.mon as int, t.mday as int) * 86400 + 3600 * t.hour + 60
        * t.min + t.sec
}

/// Relies on `time::strptime` with the log's time format: the outcome depends
/// on the text alone, and every field it fills passes its range check (`%d`
/// 1..=31, `%b` a month, `%Y` four digits, `%H` 0..=23, `%M` 0..=59, `%S`
/// 0..=60, `%z` a sign and two two-digit numbers). Each conversion reads the
/// digits or the name that `log_time_text` writes, and `%z` sets the offset
/// to the sign times hours and minutes, so that text is read back as the time
/// it was written from. Other formats are not admitted: some (`%s`) can panic.
#[verifier::external_body]
pub(crate) fn strptime(text: &str, format: &str) -> (r: Result<LocalTime, time::ParseError>)
    requires
        format@ == LOG_TIME_FORMAT@,
    ensures
        r is Ok <==> strptime_of(text@, format@) is Some,
        r is Ok ==> strptime_of(text@, format@) == Some(r->Ok_0),
        r is Ok ==> r->Ok_0.wf(),
        forall|t: LocalTime|
            #[trigger] log_time_text(t) == text@ && writes_exactly(t) ==> r is Ok && r->Ok_0
                == t,
{
    match time::strptime(text, format) {
        Ok(tm) => Ok(
            LocalTime {
                sec: tm.tm_sec,
                min: tm.tm_min,
                hour: tm.tm_hour,
                mday: tm.tm_mday,
                mon: tm.tm_mon,
                year: tm.tm_year,
                utcoff: tm.tm_utcoff,
            },
        ),
        Err(e) => Err(e),
    }
}

/// Relies on `time::Tm::strftime` with `DATE_FORMAT`: with the weekday
/// passed (Sunday) and the month in range, `validate_format` accepts it, and
/// `%Y` writes `tm_year + 1900` in decimal (non-negative and without overflow
/// for fields in range), `%m` writes `tm_mon + 1` and `%d` writes `tm_mday`,
/// each as `{:02}`.
#[verifier::external_body]
pub(crate) fn strftime(t: &LocalTime, format: &str) -> (r: Result<String, time::ParseError>)
    requires
        t.wf(),
        format@ == DATE_FORMAT@,
    ensures
        r is Ok,
        r is Ok ==> r->Ok_0@ == date_text_of(*t),
{
    let tm = time::Tm { tm_sec: t.sec, tm_min: t.min, tm_hour: t.hour, tm_mday: t.mday,
        tm_mon: t.mon, tm_year: t.year, tm_wday: 0, tm_yday: 0, tm_isdst: 0, tm_utcoff: t.utcoff,
        tm_nsec: 0 };
    match tm.strftime(format) {
        Ok(text) => Ok(text.to_string()),
        Err(e) => Err(e),
    }
}

/// The seconds since the epoch of the wall-clock fields of `t` read as UTC.
pub fn utc_seconds(t: &LocalTime) -> (r: i64)
    requires
        t.wf(),
    ensures
        r == utc_seconds_of(*t),
{
    let mut y: i64 = t.year as i64 + 1900 + 400;
    let mut m: i64 = t.mon as i64 + 1;
    if m <= 2 {
        y = y - 1;
        m = m + 12;
    }
    assert(399 <= y <= 10399 && 3 <= m <= 14);
    assert(0 <= 365 * y <= 365 * 10399) by (nonlinear_arith)
        requires
            399 <= y <= 10399,
    ;
    let days: i64 = 365 * y + y / 4 - y / 100 + y / 400 + 3 * (m + 1) / 5 + 30 * m + t.mday as i64
        - 719561 - 146097;
    assert(-1000000 <= days <= 4000000);
    assert(-1000000 * 86400 <= days * 86400 <= 4000000 * 86400) by (nonlinear_arith)
        requires
            -1000000 <= days <= 4000000,
    ;
    days * 86400 + 3600 * t.hour as i64 + 60 * t.min as i64 + t.sec as i64
}

} // verus!
