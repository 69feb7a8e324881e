//! Calendar arithmetic on millisecond UNIX timestamps (UTC).
//!
//! A timestamp `t: u64` is read as the signed millisecond count `t as i64`, as the
//! calendar library does. Within a day, minute and hour boundaries are plain
//! multiples of their length; a day starts at a multiple of 86 400 000 ms; weeks
//! start on Monday (1970-01-01 was a Thursday); the 3-day grid is counted from the
//! proleptic Gregorian day 1 (0001-01-01), on which the UNIX epoch is day 719 163.
//! Month boundaries are computed by `chrono`.
use crate::level::Level;
use chrono::{DateTime, Datelike, Months, TimeZone};
use vstd::prelude::*;

verus! {

/// Milliseconds in a day.
pub const DAY_MILLIS: i64 = 86_400_000;

/// First day (counted from 1970-01-01) that the calendar library can represent:
/// January 1 of year -262143.
pub const MIN_DAY: i64 = -96_465_292;

/// Last day (counted from 1970-01-01) that the calendar library can represent:
/// December 31 of year 262142.
pub const MAX_DAY: i64 = 95_026_236;

/// Day number of 1970-01-01 counted from 0001-01-01 as day 1.
pub const UNIX_EPOCH_CE_DAY: i64 = 719_163;

/// The signed reading of a `u64` timestamp (`t as i64`).
pub open spec fn signed_millis(t: u64) -> int {
    if t <= i64::MAX {
        t as int
    } else {
        t - 0x1_0000_0000_0000_0000int
    }
}

/// The `u64` bit pattern of a signed millisecond count (`x as u64`).
pub open spec fn unsigned_millis(x: int) -> int {
    if x < 0 {
        x + 0x1_0000_0000_0000_0000int
    } else {
        x
    }
}

/// The day (counted from 1970-01-01) that contains the signed timestamp `tt`.
pub open spec fn day_of(tt: int) -> int {
    tt / (DAY_MILLIS as int)
}

/// The signed timestamp lies in a day that the calendar library can represent.
pub open spec fn millis_in_range(tt: int) -> bool {
    MIN_DAY <= day_of(tt) <= MAX_DAY
}

/// Division rounded toward zero, as Rust's `/` on signed integers.
pub open spec fn trunc_div(a: int, b: int) -> int {
    if a >= 0 {
        a / b
    } else {
        -((-a) / b)
    }
}

/// Length in milliseconds of a fixed-length level (not used for `Month1`).
pub open spec fn level_millis(level: Level) -> int {
    (crate::level::level_minutes(level) * 60000) as int
}

/// Start of the period of `level` that contains the signed timestamp `tt`.
pub open spec fn period_start(tt: int, level: Level) -> int {
    match level {
        Level::Day3 => (trunc_div(day_of(tt) + UNIX_EPOCH_CE_DAY, 3) * 3 - UNIX_EPOCH_CE_DAY) * (
        DAY_MILLIS as int),
        Level::Week1 => (day_of(tt) - (day_of(tt) + 3) % 7) * (DAY_MILLIS as int),
        Level::Month1 => utc_month_start_millis(tt),
        _ => (tt / level_millis(level)) * level_millis(level),
    }
}

/// Start of the period after the one that contains `tt`.
pub open spec fn period_next(tt: int, level: Level) -> int {
    match level {
        Level::Day3 => period_start(tt, level) + 3 * DAY_MILLIS,
        Level::Week1 => period_start(tt, level) + 7 * DAY_MILLIS,
        Level::Month1 => utc_add_one_month_millis(period_start(tt, level)),
        _ => period_start(tt, level) + level_millis(level),
    }
}

/// Start of the month that contains the signed millisecond timestamp, as computed by
/// `chrono` (first day of the month at 00:00 UTC).
pub uninterp spec fn utc_month_start_millis(tt: int) -> int;

/// The timestamp one calendar month after the given one, as computed by `chrono`.
pub uninterp spec fn utc_add_one_month_millis(tt: int) -> int;

/// Text of a millisecond timestamp in UTC, `%Y/%m/%d %H:%M:%S%.f`, as formatted by `chrono`.
pub uninterp spec fn utc_format_millis(t: int) -> Seq<char>;

/// Millisecond timestamp of a UTC date-time text in `%Y/%m/%d %H:%M:%S%.f`, as parsed
/// by `chrono` (0 when the text does not parse).
pub uninterp spec fn utc_parse_millis(text: Seq<char>) -> u64;

/// Why a time computation failed.
#[derive(Clone, Copy, Debug, PartialEq, Eq, Structural)]
pub enum TimeError {
    /// The timestamp lies outside the calendar library's range.
    OutOfRange,
    /// The larger level is not a whole multiple of the smaller one.
    InvalidSamplingTarget,
    /// A decimal sum overflowed.
    Overflow,
}

/// `DateTime::from_timestamp_millis(t)` moved to 00:00 on the first day of its month
/// (`date_naive().with_day(1)`, `and_hms_opt(0, 0, 0)`), as milliseconds. `chrono`
/// returns a date for every timestamp whose day it can represent; the contract
/// names the result and states that it is the midnight of a day at most 30 days
/// before the timestamp, that it is its own month's start, and that the timestamp
/// lies before the start of the next month (where that can be represented).
#[verifier::external_body]
fn chrono_month_start(tt: i64) -> (r: Option<i64>)
    ensures
        r is Some <==> millis_in_range(tt as int),
        r matches Some(s) ==> s == utc_month_start_millis(tt as int),
        r matches Some(s) ==> (s as int) % (DAY_MILLIS as int) == 0 && millis_in_range(s as int),
        r matches Some(s) ==> day_of(tt as int) - 30 <= day_of(s as int) <= day_of(tt as int),
        r matches Some(s) ==> utc_month_start_millis(s as int) == s as int,
        r matches Some(s) ==> day_of(s as int) + 31 <= MAX_DAY ==> (tt as int) < utc_add_one_month_millis(s as int),
{
    match DateTime::from_timestamp_millis(tt) {
        Some(dt) => match dt.date_naive().with_day(1) {
            Some(d) => match d.and_hms_opt(0, 0, 0) {
                Some(n) => Some(n.and_utc().timestamp_millis()),
                None => None,
            },
            None => None,
        },
        None => None,
    }
}

/// `DateTime::from_timestamp_millis(tt)` plus `Months::new(1)` (`checked_add_months`),
/// as milliseconds. The contract names the result and states that a month lasts 28
/// to 31 days, so the result exists when it stays within the library's range, and
/// that the first of a month at midnight moves to the first of the next month at
/// midnight (the day exists in every month).
#[verifier::external_body]
fn chrono_add_one_month(tt: i64) -> (r: Option<i64>)
    requires
        millis_in_range(tt as int),
    ensures
        r matches Some(n) ==> n == utc_add_one_month_millis(tt as int),
        r matches Some(n) ==> tt + 28 * DAY_MILLIS <= n <= tt + 31 * DAY_MILLIS,
        day_of(tt as int) + 31 <= MAX_DAY ==> r is Some,
        utc_month_start_millis(tt as int) == tt as int ==> (r matches Some(n) ==> utc_month_start_millis(n as int)
            == n as int),
{
    match DateTime::from_timestamp_millis(tt) {
        Some(dt) => match dt.checked_add_months(Months::new(1)) {
            Some(n) => Some(n.timestamp_millis()),
            None => None,
        },
        None => None,
    }
}

/// Formats a millisecond timestamp in UTC as `%Y/%m/%d %H:%M:%S%.f`
/// (`DateTime::from_timestamp_millis`, `unwrap_or_default`, `format`).
#[verifier::external_body]
pub fn t2s_utc(time: u64) -> (r: String)
    ensures
        r@ == utc_format_millis(time as int),
{
    DateTime::<chrono::Utc>::from_timestamp_millis(time as i64).unwrap_or_default().format(
        "%Y/%m/%d %H:%M:%S%.f",
    ).to_string()
}

/// Parses a UTC date-time in `%Y/%m/%d %H:%M:%S%.f` to a millisecond timestamp, 0 when
/// it does not parse (`NaiveDateTime::parse_from_str`, `and_utc().timestamp_millis()`).
#[verifier::external_body]
pub fn s2t_utc(time: &str) -> (r: u64)
    ensures
        r == utc_parse_millis(time@),
{
    match chrono::NaiveDateTime::parse_from_str(time, "%Y/%m/%d %H:%M:%S%.f") {
        Ok(v) => v.and_utc().timestamp_millis() as u64,
        Err(_) => 0,
    }
}

/// Formats a millisecond timestamp in the machine's local time zone as
/// `%Y/%m/%d %H:%M:%S%.f` (`Local.timestamp_millis_opt`, `format`). The text depends
/// on the time zone of the machine, so nothing is stated of it.
#[verifier::external_body]
pub fn t2s(time: u64) -> String {
    chrono::Local.timestamp_millis_opt(time as i64).single().unwrap_or_default().format(
        "%Y/%m/%d %H:%M:%S%.f",
    ).to_string()
}

/// Parses a local-time date-time in `%Y/%m/%d %H:%M:%S%.f` to a millisecond timestamp,
/// 0 when it does not parse (`NaiveDateTime::parse_from_str`, `Local.from_local_datetime`).
/// The result depends on the time zone of the machine, so nothing is stated of it.
#[verifier::external_body]
pub fn s2t(time: &str) -> u64 {
    match chrono::NaiveDateTime::parse_from_str(time, "%Y/%m/%d %H:%M:%S%.f") {
        Ok(v) => chrono::Local.from_local_datetime(&v).single().unwrap_or_default().timestamp_millis() as u64,
        Err(_) => 0,
    }
}

/// `x / d` rounded toward negative infinity.
fn floor_div(x: i64, d: i64) -> (q: i64)
    requires
        d > 0,
    ensures
        q == x as int / d as int,
{
    if x >= 0 {
        x / d
    } else {
        let y: i64 = -(x + 1);
        let q0: i64 = y / d;
        proof {
            let r0 = y as int % d as int;
            vstd::arithmetic::div_mod::lemma_fundamental_div_mod(y as int, d as int);
            assert(0 <= r0 < d);
            assert(x as int == (-q0 - 1) * d + (d - r0 - 1)) by (nonlinear_arith)
                requires
                    y as int == d * q0 + r0,
                    x as int == -(y + 1),
            ;
            vstd::arithmetic::div_mod::lemma_fundamental_div_mod_converse(
                x as int,
                d as int,
                -q0 - 1,
                d - r0 - 1,
            );
        }
        -q0 - 1
    }
}

/// `t as i64`.
fn to_signed_millis(t: u64) -> (r: i64)
    ensures
        r == signed_millis(t),
{
    if t <= 0x7FFF_FFFF_FFFF_FFFFu64 {
        t as i64
    } else {
        -((u64::MAX - t) as i64) - 1
    }
}

/// `x as u64`.
fn to_unsigned_millis(x: i64) -> (r: u64)
    ensures
        r == unsigned_millis(x as int),
        signed_millis(r) == x,
{
    if x >= 0 {
        x as u64
    } else {
        u64::MAX - ((-(x + 1)) as u64)
    }
}

/// The period of `level` that contains `t` and the next one both start within the
/// range the calendar library represents.
pub open spec fn period_in_range(t: u64, level: Level) -> bool {
    let tt = signed_millis(t);
    &&& millis_in_range(tt)
    &&& MIN_DAY * DAY_MILLIS <= period_start(tt, level)
    &&& period_next(tt, level) < (MAX_DAY + 1) * DAY_MILLIS
}

/// Start of the period of `level` that contains `time`, and start of the next period.
///
/// Fails when `time`, or the start of the period after it, lies outside the range the
/// calendar library represents.
pub fn get_time_range(time: u64, level: Level) -> (r: Result<(u64, u64), TimeError>)
    ensures
        r matches Err(e) ==> e == TimeError::OutOfRange,
        r matches Ok(p) ==> p.0 == unsigned_millis(period_start(signed_millis(time), level)) && p.1
            == unsigned_millis(period_next(signed_millis(time), level)),
        r matches Ok(p) ==> signed_millis(p.0) == period_start(signed_millis(time), level) && signed_millis(p.1)
            == period_next(signed_millis(time), level),
        (level != Level::Day3 || day_of(signed_millis(time)) + UNIX_EPOCH_CE_DAY >= 0) ==> (r is Ok
            ==> period_start(signed_millis(time), level) <= signed_millis(time) < period_next(signed_millis(time), level)),
        level != Level::Month1 ==> (r is Ok <==> period_in_range(time, level)),
        level == Level::Month1 ==> (r is Ok ==> millis_in_range(signed_millis(time))),
        level == Level::Month1 && millis_in_range(signed_millis(time)) && day_of(signed_millis(time)) + 31
            <= MAX_DAY ==> r is Ok,
        level == Level::Month1 ==> (r matches Ok(p) ==> period_start(signed_millis(p.0), level) == signed_millis(p.0)
            && period_start(signed_millis(p.1), level) == signed_millis(p.1)),
        level == Level::Month1 ==> (r matches Ok(p) ==> signed_millis(p.0) + 28 * DAY_MILLIS <= signed_millis(p.1)
            <= signed_millis(p.0) + 31 * DAY_MILLIS && signed_millis(p.0) % (DAY_MILLIS as int) == 0),
{
    let tt = to_signed_millis(time);
    let day = floor_div(tt, DAY_MILLIS);
    if day < MIN_DAY || day > MAX_DAY {
        return Err(TimeError::OutOfRange);
    }
    let (start, next): (i64, i64) = match level {
        Level::Day3 => {
            let count: i64 = day + UNIX_EPOCH_CE_DAY;
            let grid: i64 = if count >= 0 {
                count / 3 * 3
            } else {
                -((-count) / 3 * 3)
            };
            let start_day: i64 = grid - UNIX_EPOCH_CE_DAY;
            proof {
                assert(grid == trunc_div(count as int, 3) * 3);
            }
            if start_day < MIN_DAY || start_day + 3 > MAX_DAY + 1 {
                return Err(TimeError::OutOfRange);
            }
            proof {
                if count >= 0 {
                    assert(grid <= count < grid + 3) by (nonlinear_arith)
                        requires
                            grid == (count as int / 3) * 3,
                            count >= 0,
                    ;
                }
                assert(day * DAY_MILLIS <= tt < day * DAY_MILLIS + DAY_MILLIS) by (nonlinear_arith)
                    requires
                        day == tt as int / DAY_MILLIS as int,
                        DAY_MILLIS > 0,
                ;
            }
            (start_day * DAY_MILLIS, start_day * DAY_MILLIS + 3 * DAY_MILLIS)
        },
        Level::Week1 => {
            let offset: i64 = (day + 3) - floor_div(day + 3, 7) * 7;
            let start_day: i64 = day - offset;
            proof {
                assert(0 <= offset < 7) by (nonlinear_arith)
                    requires
                        offset == (day + 3) - ((day + 3) as int / 7) * 7,
                ;
                assert(day * DAY_MILLIS <= tt < day * DAY_MILLIS + DAY_MILLIS) by (nonlinear_arith)
                    requires
                        day == tt as int / DAY_MILLIS as int,
                        DAY_MILLIS > 0,
                ;
            }
            if start_day < MIN_DAY || start_day + 7 > MAX_DAY + 1 {
                return Err(TimeError::OutOfRange);
            }
            (start_day * DAY_MILLIS, start_day * DAY_MILLIS + 7 * DAY_MILLIS)
        },
        Level::Month1 => {
            let start = match chrono_month_start(tt) {
                Some(s) => s,
                None => {
                    return Err(TimeError::OutOfRange);
                },
            };
            proof {
                assert(millis_in_range(start as int));
            }
            let next = match chrono_add_one_month(start) {
                Some(n) => n,
                None => {
                    return Err(TimeError::OutOfRange);
                },
            };
            if !(start <= tt && tt < next) {
                return Err(TimeError::OutOfRange);
            }
            (start, next)
        },
        _ => {
            let unit: i64 = (level.interval_minutes() * 60000) as i64;
            let q = floor_div(tt, unit);
            proof {
                assert(unit > 0);
                assert(level_millis(level) == unit);
                assert(q * unit <= tt < q * unit + unit) by (nonlinear_arith)
                    requires
                        q == tt as int / unit as int,
                        unit > 0,
                ;
            }
            let start = q * unit;
            if start < MIN_DAY * DAY_MILLIS || start > (MAX_DAY + 1) * DAY_MILLIS - unit - 1 {
                return Err(TimeError::OutOfRange);
            }
            (start, start + unit)
        },
    };
    Ok((to_unsigned_millis(start), to_unsigned_millis(next)))
}

/// A period's start lies in that same period: for every level but the month (whose
/// boundaries come from the calendar library), the period that contains the start of
/// the period of `tt` has the same start and the same end.
pub proof fn lemma_period_start_in_own_period(tt: int, level: Level)
    requires
        level != Level::Month1,
    ensures
        period_start(period_start(tt, level), level) == period_start(tt, level),
        period_next(period_start(tt, level), level) == period_next(tt, level),
{
    let d = DAY_MILLIS as int;
    let ps = period_start(tt, level);
    match level {
        Level::Day3 => {
            let q = trunc_div(day_of(tt) + UNIX_EPOCH_CE_DAY, 3);
            let dd = q * 3 - UNIX_EPOCH_CE_DAY;
            assert(ps == dd * d);
            vstd::arithmetic::div_mod::lemma_div_multiples_vanish(dd, d);
            assert(ps / d == dd) by (nonlinear_arith)
                requires
                    ps == dd * d,
                    (d * dd) / d == dd,
                    d > 0,
            ;
            assert(day_of(ps) == dd);
            let x = q * 3;
            assert(trunc_div(x, 3) == q) by {
                if x >= 0 {
                    assert(q >= 0) by (nonlinear_arith)
                        requires
                            x == q * 3,
                            x >= 0,
                    ;
                    vstd::arithmetic::div_mod::lemma_div_multiples_vanish(q, 3);
                } else {
                    assert(q < 0) by (nonlinear_arith)
                        requires
                            x == q * 3,
                            x < 0,
                    ;
                    vstd::arithmetic::div_mod::lemma_div_multiples_vanish(-q, 3);
                }
            }
        },
        Level::Week1 => {
            let day = day_of(tt);
            let dd = day - (day + 3) % 7;
            assert(ps == dd * d);
            vstd::arithmetic::div_mod::lemma_div_multiples_vanish(dd, d);
            assert(ps / d == dd) by (nonlinear_arith)
                requires
                    ps == dd * d,
                    (d * dd) / d == dd,
                    d > 0,
            ;
            assert(day_of(ps) == dd);
            vstd::arithmetic::div_mod::lemma_fundamental_div_mod(day + 3, 7);
            vstd::arithmetic::div_mod::lemma_mod_multiples_basic((day + 3) / 7, 7);
            assert(dd + 3 == ((day + 3) / 7) * 7);
        },
        _ => {
            let l = level_millis(level);
            assert(l > 0);
            let q = tt / l;
            vstd::arithmetic::div_mod::lemma_div_multiples_vanish(q, l);
            assert((q * l) / l == q) by (nonlinear_arith)
                requires
                    (l * q) / l == q,
            ;
        },
    }
}

/// Periods tile the time line: for every level but the month (whose boundaries come
/// from the calendar library), a period's start lies in that same period, the period
/// after the one that contains `tt` starts exactly where that one ends, and every
/// period is exactly the level's length long.
pub proof fn lemma_periods_tile(tt: int, level: Level)
    requires
        level != Level::Month1,
    ensures
        period_start(period_start(tt, level), level) == period_start(tt, level),
        period_next(period_start(tt, level), level) == period_next(tt, level),
        period_start(period_next(tt, level), level) == period_next(tt, level),
        period_next(tt, level) - period_start(tt, level) == level_millis(level),
{
    lemma_period_start_in_own_period(tt, level);
    let d = DAY_MILLIS as int;
    let pn = period_next(tt, level);
    match level {
        Level::Day3 => {
            let q = trunc_div(day_of(tt) + UNIX_EPOCH_CE_DAY, 3);
            let dd = q * 3 - UNIX_EPOCH_CE_DAY + 3;
            assert(pn == dd * d);
            vstd::arithmetic::div_mod::lemma_div_multiples_vanish(dd, d);
            assert(pn / d == dd) by (nonlinear_arith)
                requires
                    pn == dd * d,
                    (d * dd) / d == dd,
                    d > 0,
            ;
            assert(day_of(pn) == dd);
            let q1 = q + 1;
            let x = q1 * 3;
            assert(dd + UNIX_EPOCH_CE_DAY == x);
            assert(trunc_div(x, 3) == q1) by {
                if x >= 0 {
                    assert(q1 >= 0) by (nonlinear_arith)
                        requires
                            x == q1 * 3,
                            x >= 0,
                    ;
                    vstd::arithmetic::div_mod::lemma_div_multiples_vanish(q1, 3);
                } else {
                    assert(q1 < 0) by (nonlinear_arith)
                        requires
                            x == q1 * 3,
                            x < 0,
                    ;
                    vstd::arithmetic::div_mod::lemma_div_multiples_vanish(-q1, 3);
                }
            }
        },
        Level::Week1 => {
            let day = day_of(tt);
            let k = (day + 3) / 7;
            let dd = day - (day + 3) % 7 + 7;
            vstd::arithmetic::div_mod::lemma_fundamental_div_mod(day + 3, 7);
            assert(dd + 3 == (k + 1) * 7);
            assert(pn == dd * d);
            vstd::arithmetic::div_mod::lemma_div_multiples_vanish(dd, d);
            assert(pn / d == dd) by (nonlinear_arith)
                requires
                    pn == dd * d,
                    (d * dd) / d == dd,
                    d > 0,
            ;
            assert(day_of(pn) == dd);
            vstd::arithmetic::div_mod::lemma_mod_multiples_basic(k + 1, 7);
        },
        _ => {
            let l = level_millis(level);
            assert(l > 0);
            let q = tt / l;
            let q1 = q + 1;
            assert(pn == q1 * l) by (nonlinear_arith)
                requires
                    pn == q * l + l,
                    q1 == q + 1,
            ;
            vstd::arithmetic::div_mod::lemma_div_multiples_vanish(q1, l);
            assert((q1 * l) / l == q1) by (nonlinear_arith)
                requires
                    (l * q1) / l == q1,
            ;
        },
    }
}

} // verus!

