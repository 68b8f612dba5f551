//! Calendar arithmetic through chrono. Dates travel as `(year, month, day)`;
//! every date this module hands out is one chrono accepts. Pure calendar
//! functions are named by what chrono returns; functions that read the
//! machine's time zone (`Local`) promise only what holds in every zone.

use vstd::prelude::*;
use crate::task::spec_utc_representable;

verus! {

/// Whether `y` is a leap year of the proleptic Gregorian calendar.
pub open spec fn is_leap_year(y: int) -> bool {
    (y % 4 == 0 && y % 100 != 0) || y % 400 == 0
}

/// The number of days of month `m` of year `y`.
pub open spec fn days_in_month(y: int, m: int) -> int {
    if m == 2 {
        if is_leap_year(y) {
            29
        } else {
            28
        }
    } else if m == 4 || m == 6 || m == 9 || m == 11 {
        30
    } else {
        31
    }
}

/// Whether chrono accepts `(year, month, day)` as a date
/// (`NaiveDate::from_ymd_opt` gives `Some`): a date of the proleptic
/// Gregorian calendar from year -262 143 to year 262 142.
pub open spec fn spec_date_valid(year: i32, month: u32, day: u32) -> bool {
    &&& -262_143 <= year <= 262_142
    &&& 1 <= month <= 12
    &&& 1 <= day <= days_in_month(year as int, month as int)
}

/// `NaiveDate::from_ymd_opt(year, month, day).is_some()`.
#[verifier::external_body]
pub(crate) fn date_valid(year: i32, month: u32, day: u32) -> (r: bool)
    ensures
        r == spec_date_valid(year, month, day),
{
    match chrono::NaiveDate::from_ymd_opt(year, month, day) {
        Some(_) => true,
        None => false,
    }
}

/// What `succ_opt` gives for a date: the next calendar date, if chrono can
/// represent it (there is none after 31 December 262 142).
pub open spec fn spec_date_succ(year: i32, month: u32, day: u32) -> Option<(i32, u32, u32)> {
    if (day as int) < days_in_month(year as int, month as int) {
        Some((year, month, (day + 1) as u32))
    } else if month < 12 {
        Some((year, (month + 1) as u32, 1u32))
    } else if year < 262_142 {
        Some(((year + 1) as i32, 1u32, 1u32))
    } else {
        None
    }
}

/// `NaiveDate::succ_opt` on a valid date.
#[verifier::external_body]
pub(crate) fn date_succ(year: i32, month: u32, day: u32) -> (r: Option<(i32, u32, u32)>)
    requires
        spec_date_valid(year, month, day),
    ensures
        r == spec_date_succ(year, month, day),
        r matches Some(v) ==> spec_date_valid(v.0, v.1, v.2),
{
    let d = chrono::NaiveDate::from_ymd_opt(year, month, day).unwrap();
    d.succ_opt().map(|n| (chrono::Datelike::year(&n), chrono::Datelike::month(&n), chrono::Datelike::day(&n)))
}

/// What `pred_opt` gives for a date: the previous calendar date, if chrono
/// can represent it (there is none before 1 January of year -262 143).
pub open spec fn spec_date_pred(year: i32, month: u32, day: u32) -> Option<(i32, u32, u32)> {
    if day > 1 {
        Some((year, month, (day - 1) as u32))
    } else if month > 1 {
        Some((year, (month - 1) as u32, days_in_month(year as int, month - 1) as u32))
    } else if year > -262_143 {
        Some(((year - 1) as i32, 12u32, 31u32))
    } else {
        None
    }
}

/// `NaiveDate::pred_opt` on a valid date.
#[verifier::external_body]
pub(crate) fn date_pred(year: i32, month: u32, day: u32) -> (r: Option<(i32, u32, u32)>)
    requires
        spec_date_valid(year, month, day),
    ensures
        r == spec_date_pred(year, month, day),
        r matches Some(v) ==> spec_date_valid(v.0, v.1, v.2),
{
    let d = chrono::NaiveDate::from_ymd_opt(year, month, day).unwrap();
    d.pred_opt().map(|n| (chrono::Datelike::year(&n), chrono::Datelike::month(&n), chrono::Datelike::day(&n)))
}

/// Whether `TimeDelta::days(k)` exists: `k` days in seconds stay within
/// `i64::MAX / 1000` either way (beyond that chrono panics).
pub open spec fn days_in_range(k: int) -> bool {
    -(i64::MAX / 1000) <= k * 86400 <= i64::MAX / 1000
}

/// Whether `ts` and `ts + delta` both lie in the range chrono can represent
/// as a date-time.
pub open spec fn spec_shift_representable(ts: i64, delta: int) -> bool {
    spec_utc_representable(ts) && i64::MIN <= ts + delta <= i64::MAX && spec_utc_representable(
        (ts + delta) as i64,
    )
}

/// What `checked_add_signed(TimeDelta::days(k))` gives for a date.
pub uninterp spec fn spec_date_add_days(year: i32, month: u32, day: u32, k: i64) -> Option<
    (i32, u32, u32),
>;

/// `date.checked_add_signed(TimeDelta::days(k))` on a valid date: the date
/// `k` days later, where that day lies within chrono's dates (day numbers
/// -96 465 292 to 95 026 236 from 1970-01-01).
#[verifier::external_body]
pub(crate) fn date_add_days(year: i32, month: u32, day: u32, k: i64) -> (r: Option<(i32, u32, u32)>)
    requires
        spec_date_valid(year, month, day),
        days_in_range(k as int),
    ensures
        r == spec_date_add_days(year, month, day, k),
        r matches Some(v) ==> spec_date_valid(v.0, v.1, v.2) && day_of(v) == day_number(
            year as int,
            month as int,
            day as int,
        ) + k,
        r is Some <==> -96_465_292 <= day_number(year as int, month as int, day as int) + k
            <= 95_026_236,
{
    let d = chrono::NaiveDate::from_ymd_opt(year, month, day).unwrap();
    d.checked_add_signed(chrono::TimeDelta::days(k)).map(
        |n| (chrono::Datelike::year(&n), chrono::Datelike::month(&n), chrono::Datelike::day(&n)),
    )
}

/// The weekday of a date, counted from Monday (`0`) to Sunday (`6`);
/// 1 January 1970 was a Thursday.
pub open spec fn spec_date_weekday(year: i32, month: u32, day: u32) -> u32 {
    ((day_number(year as int, month as int, day as int) + 3) % 7) as u32
}

/// `date.weekday().num_days_from_monday()` on a valid date.
#[verifier::external_body]
pub(crate) fn date_weekday(year: i32, month: u32, day: u32) -> (r: u32)
    requires
        spec_date_valid(year, month, day),
    ensures
        r == spec_date_weekday(year, month, day),
        r < 7,
{
    let d = chrono::NaiveDate::from_ymd_opt(year, month, day).unwrap();
    chrono::Datelike::weekday(&d).num_days_from_monday()
}

/// What `NaiveDate::parse_from_str(s, "%Y-%m-%d")` gives for a text.
pub uninterp spec fn spec_parse_iso_date(s: Seq<char>) -> Option<(i32, u32, u32)>;

/// `NaiveDate::parse_from_str(s, "%Y-%m-%d").ok()`.
#[verifier::external_body]
pub(crate) fn parse_iso_date(s: &str) -> (r: Option<(i32, u32, u32)>)
    ensures
        r == spec_parse_iso_date(s@),
        r matches Some(v) ==> spec_date_valid(v.0, v.1, v.2),
{
    chrono::NaiveDate::parse_from_str(s, "%Y-%m-%d").ok().map(
        |n| (chrono::Datelike::year(&n), chrono::Datelike::month(&n), chrono::Datelike::day(&n)),
    )
}

/// The number of days from 1970-01-01 to the date `(y, m, d)` of the
/// proleptic Gregorian calendar (negative before 1970).
pub open spec fn day_number(y: int, m: int, d: int) -> int {
    let y2 = if m <= 2 { y - 1 } else { y };
    let era = y2 / 400;
    let yoe = y2 - era * 400;
    let mp = if m > 2 { m - 3 } else { m + 9 };
    let doy = (153 * mp + 2) / 5 + d - 1;
    let doe = yoe * 365 + yoe / 4 - yoe / 100 + doy;
    era * 146097 + doe - 719468
}

/// The day number of a date triple.
pub open spec fn day_of(d: (i32, u32, u32)) -> int {
    day_number(d.0 as int, d.1 as int, d.2 as int)
}

/// Whether `d` can be the local calendar date at the second `now` in some
/// time zone: `now` read with an offset of less than a day falls on `d`.
pub open spec fn is_local_date_at(now: int, d: (i32, u32, u32)) -> bool {
    exists|a: int| #[trigger] utc_offset(a) && day_of(d) == (now + a) / 86400
}

/// Whether `v` can be the local midnight that starts the `k`-th day after
/// 1970-01-01 in some time zone: `v` read with an offset of less than a day
/// is 00:00 of that day.
pub open spec fn is_local_midnight(v: int, k: int) -> bool {
    exists|b: int| #[trigger] utc_offset(b) && v + b == 86400 * k
}

/// The local calendar date at `now` (`Local.timestamp_opt(now, 0).single()`,
/// read with `Datelike`, which does not panic at the ends of chrono's range),
/// kept where chrono accepts it as a date (`NaiveDate::from_ymd_opt`).
/// chrono reads a Unix second from UTC, so there is exactly one local time
/// wherever the second is in its range, and that local time is the UTC time
/// plus a `FixedOffset` of less than a day. The date depends on the
/// machine's time zone; chrono keeps years within ±262 143, and every second
/// within 8 * 10^12 of 1970 has a local date inside that range.
#[verifier::external_body]
pub(crate) fn local_date(now: i64) -> (r: Option<(i32, u32, u32)>)
    ensures
        r is Some ==> spec_utc_representable(now),
        -8_000_000_000_000 <= now <= 8_000_000_000_000 ==> r is Some,
        r matches Some(v) ==> spec_date_valid(v.0, v.1, v.2) && -262_144 <= v.0 <= 262_143 && 1
            <= v.1 <= 12 && 1 <= v.2 <= 31 && is_local_date_at(now as int, v),
{
    let dt = chrono::TimeZone::timestamp_opt(&chrono::Local, now, 0).single()?;
    let n = chrono::NaiveDate::from_ymd_opt(
        chrono::Datelike::year(&dt),
        chrono::Datelike::month(&dt),
        chrono::Datelike::day(&dt),
    )?;
    Some((chrono::Datelike::year(&n), chrono::Datelike::month(&n), chrono::Datelike::day(&n)))
}

/// Local midnight at the start of the day after a date, in Unix seconds,
/// taking the earlier instant where that midnight is ambiguous. It depends on
/// the machine's time zone, whose offset is less than a day either way;
/// chrono keeps every timestamp within 10^13 s.
#[verifier::external_body]
pub(crate) fn midnight_after(year: i32, month: u32, day: u32) -> (r: Option<i64>)
    requires
        spec_date_valid(year, month, day),
    ensures
        r matches Some(v) ==> -10_000_000_000_000 <= v <= 10_000_000_000_000
            && is_local_midnight(v as int, day_number(year as int, month as int, day as int) + 1),
{
    let date = chrono::NaiveDate::from_ymd_opt(year, month, day).unwrap();
    let midnight = date.succ_opt()?.and_hms_opt(0, 0, 0)?;
    let local = chrono::TimeZone::from_local_datetime(&chrono::Local, &midnight)
        .single()
        .or_else(|| chrono::TimeZone::from_local_datetime(&chrono::Local, &midnight).earliest())?;
    Some(local.timestamp())
}

/// The last second (23:59:59 local time) of a date in Unix seconds: one
/// second before the next day's local midnight. The time zone decides which
/// instant that midnight is, and whether it exists.
pub fn end_of_day(year: i32, month: u32, day: u32) -> (r: Option<i64>)
    requires
        spec_date_valid(year, month, day),
    ensures
        r matches Some(v) ==> -10_000_000_000_001 <= v < 10_000_000_000_000 && is_local_midnight(
            v + 1,
            day_number(year as int, month as int, day as int) + 1,
        ),
{
    match midnight_after(year, month, day) {
        Some(m) => {
            assert(m - 1 + 1 == m);
            Some(m - 1)
        },
        None => None,
    }
}

/// Local midnight at the start of a date in Unix seconds, where that
/// midnight is unique. It depends on the machine's time zone, whose offset is
/// less than a day either way; chrono keeps every timestamp within 10^13 s.
#[verifier::external_body]
pub(crate) fn start_of_day(year: i32, month: u32, day: u32) -> (r: Option<i64>)
    requires
        spec_date_valid(year, month, day),
    ensures
        r matches Some(v) ==> -10_000_000_000_000 <= v <= 10_000_000_000_000
            && is_local_midnight(v as int, day_number(year as int, month as int, day as int)),
{
    let date = chrono::NaiveDate::from_ymd_opt(year, month, day).unwrap();
    let midnight = date.and_hms_opt(0, 0, 0)?;
    Some(chrono::TimeZone::from_local_datetime(&chrono::Local, &midnight).single()?.timestamp())
}

/// `ts` moved by `k` days through its local date-time
/// (`Local.timestamp_opt(ts, 0)`, then `checked_add_signed(TimeDelta::days(k))`).
/// chrono adds the days to the UTC instant, so the result is `ts` plus `k`
/// times 86 400 seconds, where both ends lie in chrono's range (which
/// holds every second within 8 * 10^12 of 1970); the time zone only decides
/// how the result reads, not its value.
#[verifier::external_body]
pub(crate) fn local_add_days(ts: i64, k: i64) -> (r: Option<i64>)
    requires
        days_in_range(k as int),
    ensures
        r == (if spec_shift_representable(ts, 86400 * k) {
            Some((ts + 86400 * k) as i64)
        } else {
            None::<i64>
        }),
        -8_000_000_000_000 <= ts <= 8_000_000_000_000 && -8_000_000_000_000 <= ts + 86400 * k
            <= 8_000_000_000_000 ==> r == Some((ts + 86400 * k) as i64),
{
    let local = chrono::TimeZone::timestamp_opt(&chrono::Local, ts, 0).single()?;
    Some(local.checked_add_signed(chrono::TimeDelta::days(k))?.timestamp())
}

/// A UTC offset chrono can hold (`FixedOffset::east_opt` refuses any other):
/// strictly less than a day either way. Every local time chrono gives is the
/// UTC time plus such an offset.
pub open spec fn utc_offset(o: int) -> bool {
    -86400 < o < 86400
}

/// Whether `v` can be the start (00:00) of the local day that holds `now`
/// in some time zone: read with an offset `a`, `now` falls on some day, and
/// that day's midnight, read back with an offset `b` (the zone's offset
/// then), is `v`.
pub open spec fn is_local_day_start(now: int, v: int) -> bool {
    exists|a: int, b: int|
        #![trigger utc_offset(a), utc_offset(b)]
        utc_offset(a) && utc_offset(b) && v + b == 86400 * ((now + a) / 86400)
}

/// The weekday (Monday `0` to Sunday `6`) of the day that holds the second
/// `x` counted from 1970-01-01 00:00, a Thursday.
pub open spec fn weekday_at(x: int) -> int {
    (x / 86400 + 3) % 7
}

/// Whether `w` is the weekday of `ts` read with some UTC offset: what any
/// time zone can make of it.
pub open spec fn is_local_weekday(ts: int, w: int) -> bool {
    exists|o: int| #[trigger] utc_offset(o) && w == weekday_at(ts + o)
}

/// The local weekday of `ts`, Monday `0` to Sunday `6`, where `ts` has a
/// unique local time (`Local.timestamp_opt(ts, 0).single()`, which is every
/// second chrono can hold). Which weekday depends on the machine's time
/// zone: it is the weekday of `ts` plus the zone's offset at that instant,
/// and that offset is less than a day.
#[verifier::external_body]
pub(crate) fn local_weekday(ts: i64) -> (r: Option<u32>)
    ensures
        r matches Some(w) ==> w < 7 && is_local_weekday(ts as int, w as int),
        -8_000_000_000_000 <= ts <= 8_000_000_000_000 ==> r is Some,
{
    let local = chrono::TimeZone::timestamp_opt(&chrono::Local, ts, 0).single()?;
    Some(chrono::Datelike::weekday(&local).num_days_from_monday())
}

/// Whether `v` can be `ts` moved by `k` calendar months in some time zone:
/// read with offsets of less than a day, the local date-time of `v` lies
/// 28 to 31 days per month after that of `ts`.
pub open spec fn months_later(ts: int, v: int, k: int) -> bool {
    exists|a: int, b: int|
        #![trigger utc_offset(a), utc_offset(b)]
        utc_offset(a) && utc_offset(b) && ts + a + 28 * 86400 * k <= v + b <= ts + a + 31 * 86400 * k
}

/// The date `k` calendar months after `(y, m, d)`, the day of the month cut
/// back to the target month's last day.
pub open spec fn add_months_date(y: int, m: int, d: int, k: int) -> (int, int, int) {
    let total = y * 12 + (m - 1) + k;
    let y2 = total / 12;
    let m2 = total % 12 + 1;
    let last = days_in_month(y2, m2);
    (y2, m2, if d <= last { d } else { last })
}

/// The second of its local day at which `ts` falls when its local date is
/// `(y, m, d)` under the offset `a`.
pub open spec fn second_of_day(ts: int, a: int, y: int, m: int, d: int) -> int {
    ts + a - 86400 * day_number(y, m, d)
}

/// Whether `v` can be `ts` moved by `k` calendar months in some time zone:
/// `ts`, read with an offset `a`, is the date `(y, m, d)` at some second of
/// the day, and `v`, read with an offset `b`, is the same second of the day
/// on [`add_months_date`]`(y, m, d, k)`.
pub open spec fn months_shift(ts: int, v: int, k: int) -> bool {
    exists|a: int, b: int, y: int, m: int, d: int|
        #![trigger utc_offset(a), utc_offset(b), day_number(y, m, d)]
        utc_offset(a) && utc_offset(b) && 1 <= m <= 12 && 1 <= d <= 31 && 0 <= second_of_day(
            ts,
            a,
            y,
            m,
            d,
        ) < 86400 && {
            let t = add_months_date(y, m, d, k);
            second_of_day(v, b, t.0, t.1, t.2) == second_of_day(ts, a, y, m, d)
        }
}

/// Whether `v` can be `ts` moved by `w` years in some time zone: `ts`,
/// read with an offset `a`, is the date `(y, m, d)` at some second of the
/// day, and `v`, read with an offset `b`, is the same second of the day on
/// `(y + w, m, d)` or, where that date is refused, on `(y + w, m, 28)`.
pub open spec fn years_shift(ts: int, v: int, w: int) -> bool {
    exists|a: int, b: int, y: int, m: int, d: int|
        #![trigger utc_offset(a), utc_offset(b), day_number(y, m, d)]
        utc_offset(a) && utc_offset(b) && 1 <= m <= 12 && 1 <= d <= 31 && 0 <= second_of_day(
            ts,
            a,
            y,
            m,
            d,
        ) < 86400 && (second_of_day(v, b, y + w, m, d) == second_of_day(ts, a, y, m, d)
            || second_of_day(v, b, y + w, m, 28) == second_of_day(ts, a, y, m, d))
}

/// Moving by at least one month lands later.
pub proof fn lemma_months_later_is_later(ts: int, v: int, k: int)
    requires
        months_later(ts, v, k),
        k >= 1,
    ensures
        v > ts,
{
    let (a, b) = choose|a: int, b: int|
        #![trigger utc_offset(a), utc_offset(b)]
        utc_offset(a) && utc_offset(b) && ts + a + 28 * 86400 * k <= v + b <= ts + a + 31 * 86400 * k;
    assert(28 * 86400 * k >= 28 * 86400) by (nonlinear_arith)
        requires
            k >= 1,
    ;
}

/// `ts` moved by `months` calendar months in local time
/// (`checked_add_months`): chrono moves the local date-time (the UTC time
/// plus an offset of less than a day) by whole months, keeping the time of
/// day and cutting the day of the month back to the target month's last
/// day, and reads the result back with the zone's offset then (see
/// [`months_shift`]). Each month moved forward adds 28 to 31 days to the
/// local date-time. Which instant comes out depends on the machine's time
/// zone.
#[verifier::external_body]
pub(crate) fn local_add_months(ts: i64, months: u32) -> (r: Option<i64>)
    ensures
        r matches Some(v) ==> months_later(ts as int, v as int, months as int) && months_shift(
            ts as int,
            v as int,
            months as int,
        ),
{
    let local = chrono::TimeZone::timestamp_opt(&chrono::Local, ts, 0).single()?;
    Some(local.checked_add_months(chrono::Months::new(months))?.timestamp())
}

/// The local calendar date and time of day of `ts`: year, month, day and
/// the second of the day (`Local.timestamp_opt(ts, 0).single()`, read with
/// `Datelike` and `Timelike`, which do not panic at the ends of chrono's
/// range). The local date-time is the UTC time plus an offset of less than
/// a day; which offset depends on the machine's time zone.
#[verifier::external_body]
pub(crate) fn local_parts(ts: i64) -> (r: Option<(i32, u32, u32, u32)>)
    ensures
        -8_000_000_000_000 <= ts <= 8_000_000_000_000 ==> r is Some,
        r matches Some(p) ==> -262_144 <= p.0 <= 262_143 && 1 <= p.1 <= 12 && 1 <= p.2 <= 31
            && p.3 < 86400 && exists|a: int|
            #[trigger] utc_offset(a) && ts + a == 86400 * day_number(p.0 as int, p.1 as int, p.2 as int)
                + p.3,
{
    let dt = chrono::TimeZone::timestamp_opt(&chrono::Local, ts, 0).single()?;
    Some((
        chrono::Datelike::year(&dt),
        chrono::Datelike::month(&dt),
        chrono::Datelike::day(&dt),
        chrono::Timelike::num_seconds_from_midnight(&dt),
    ))
}

/// The instant whose local date-time is the date `(year, month, day)` at
/// second `secs` of the day, where chrono accepts the date and time and
/// that local time occurs exactly once
/// (`Local.from_local_datetime(..).single()`). It is that local date-time
/// minus the zone's offset then, which is less than a day either way.
#[verifier::external_body]
pub(crate) fn local_instant(year: i32, month: u32, day: u32, secs: u32) -> (r: Option<i64>)
    ensures
        r matches Some(v) ==> spec_date_valid(year, month, day) && secs < 86400 && exists|b: int|
            #[trigger] utc_offset(b) && v + b == 86400 * day_number(year as int, month as int, day as int)
                + secs,
{
    let date = chrono::NaiveDate::from_ymd_opt(year, month, day)?;
    let time = chrono::NaiveTime::from_num_seconds_from_midnight_opt(secs, 0)?;
    let naive = chrono::NaiveDateTime::new(date, time);
    Some(chrono::TimeZone::from_local_datetime(&chrono::Local, &naive).single()?.timestamp())
}

/// The days from 1970-01-01 to the first of March of year `y + 1` less
/// 719 468 plus 365: the part of [`day_number`] that counts whole years
/// (years are counted from March, so that the leap day ends a year).
pub open spec fn year_days(y: int) -> int {
    let era = y / 400;
    let yoe = y - era * 400;
    era * 146097 + yoe * 365 + yoe / 4 - yoe / 100
}

/// A year counted from March has 365 or 366 days.
proof fn lemma_year_days_step(y: int)
    ensures
        year_days(y + 1) >= year_days(y) + 365,
{
    let era = y / 400;
    let yoe = y - era * 400;
    vstd::arithmetic::div_mod::lemma_fundamental_div_mod(y, 400);
    vstd::arithmetic::div_mod::lemma_fundamental_div_mod(y + 1, 400);
    vstd::arithmetic::div_mod::lemma_fundamental_div_mod(yoe, 4);
    vstd::arithmetic::div_mod::lemma_fundamental_div_mod(yoe + 1, 4);
    vstd::arithmetic::div_mod::lemma_fundamental_div_mod(yoe, 100);
    vstd::arithmetic::div_mod::lemma_fundamental_div_mod(yoe + 1, 100);
    assert(0 <= yoe < 400);
    if yoe < 399 {
        assert((y + 1) / 400 == era);
        assert((yoe + 1) / 100 - yoe / 100 <= 1);
        if (yoe + 1) / 100 - yoe / 100 == 1 {
            assert((yoe + 1) % 100 == 0);
            assert((yoe + 1) % 4 == 0);
        }
    } else {
        assert((y + 1) / 400 == era + 1);
    }
}

/// Later years start later: at least 365 days per year.
proof fn lemma_year_days_mono(y1: int, y2: int)
    requires
        y1 < y2,
    ensures
        year_days(y2) >= year_days(y1) + 365 * (y2 - y1),
    decreases y2 - y1,
{
    lemma_year_days_step(y2 - 1);
    if y1 < y2 - 1 {
        lemma_year_days_mono(y1, y2 - 1);
    }
}

/// A date of a later year, in the same month, lies at least 335 days later.
pub proof fn lemma_later_year_later_day(y1: int, y2: int, m: int, d1: int, d2: int)
    requires
        y1 < y2,
        1 <= m <= 12,
        1 <= d1 <= 31,
        1 <= d2 <= 31,
    ensures
        day_number(y2, m, d2) >= day_number(y1, m, d1) + 335,
{
    let a = if m <= 2 { y1 - 1 } else { y1 };
    let b = if m <= 2 { y2 - 1 } else { y2 };
    lemma_year_days_mono(a, b);
    assert(day_number(y1, m, d1) - d1 == year_days(a) + (153 * (if m > 2 { m - 3 } else { m + 9 }) + 2) / 5 - 1 - 719468);
    assert(day_number(y2, m, d2) - d2 == year_days(b) + (153 * (if m > 2 { m - 3 } else { m + 9 }) + 2) / 5 - 1 - 719468);
}

/// A non-negative number in decimal, padded with zeros to `width` digits.
pub open spec fn spec_zero_padded(n: int, width: int) -> Seq<char> {
    let d = crate::num::spec_i64_decimal(n);
    if d.len() >= width {
        d
    } else {
        Seq::new((width - d.len()) as nat, |i: int| '0') + d
    }
}

/// A year as chrono's `%Y` writes it: four digits at least, with a sign
/// outside 0 to 9999.
pub open spec fn spec_year_text(y: int) -> Seq<char> {
    if 0 <= y <= 9999 {
        spec_zero_padded(y, 4)
    } else if y > 9999 {
        seq!['+'] + crate::num::spec_i64_decimal(y)
    } else {
        seq!['-'] + spec_zero_padded(-y, 4)
    }
}

/// A date as chrono's `%Y-%m-%d` writes it.
pub open spec fn spec_iso_date_text(d: (i32, u32, u32)) -> Seq<char> {
    spec_year_text(d.0 as int) + "-"@ + spec_zero_padded(d.1 as int, 2) + "-"@ + spec_zero_padded(
        d.2 as int,
        2,
    )
}

fn zero_padded(n: i64, width: usize) -> (r: String)
    requires
        n >= 0,
        width <= 4,
    ensures
        r@ == spec_zero_padded(n as int, width as int),
{
    let d = crate::num::i64_to_string(n);
    let mut out = String::new();
    let len = d.as_str().unicode_len();
    if len >= width {
        return d;
    }
    let mut k: usize = 0;
    while k < width - len
        invariant
            k <= width - len,
            len < width,
            len == d@.len(),
            out@ == Seq::new(k as nat, |i: int| '0'),
        decreases width - len - k,
    {
        out = crate::task::concat(out.as_str(), "0");
        proof {
            reveal_strlit("0");
        }
        assert(out@ =~= Seq::new((k + 1) as nat, |i: int| '0'));
        k = k + 1;
    }
    crate::task::concat(out.as_str(), d.as_str())
}

/// A date as `yyyy-mm-dd` (chrono's `%Y-%m-%d`).
pub fn iso_date_text(d: (i32, u32, u32)) -> (r: String)
    requires
        1 <= d.1 <= 12,
        1 <= d.2 <= 31,
    ensures
        r@ == spec_iso_date_text(d),
{
    let y = d.0 as i64;
    let year = if 0 <= y && y <= 9999 {
        zero_padded(y, 4)
    } else if y > 9999 {
        crate::task::concat("+", crate::num::i64_to_string(y).as_str())
    } else {
        crate::task::concat("-", zero_padded(-y, 4).as_str())
    };
    proof {
        reveal_strlit("+");
        reveal_strlit("-");
    }
    let a = crate::task::concat(year.as_str(), "-");
    let b = crate::task::concat(a.as_str(), zero_padded(d.1 as i64, 2).as_str());
    let c = crate::task::concat(b.as_str(), "-");
    crate::task::concat(c.as_str(), zero_padded(d.2 as i64, 2).as_str())
}

} // verus!
