//! Instants on the UTC time line, held as plain values in the range that
//! `chrono::DateTime<Utc>` can represent.
use vstd::prelude::*;

verus! {

/// The earliest second `chrono` represents (January 1 of year -262143).
pub const MIN_UNIX_SECS: i64 = -8_334_601_228_800;
/// The latest second `chrono` represents (December 31 of year 262142).
pub const MAX_UNIX_SECS: i64 = 8_210_266_876_799;
pub const NANOS_PER_SEC: u32 = 1_000_000_000;

/// Whether `chrono::DateTime::<Utc>::from_timestamp(secs, nanos)` builds a value: the
/// date must lie in chrono's range and the nanoseconds below one second, or below
/// two seconds in the last second of a minute (a leap second).
pub open spec fn chrono_accepts(secs: int, nanos: int) -> bool {
    &&& MIN_UNIX_SECS <= secs <= MAX_UNIX_SECS
    &&& (nanos < 1_000_000_000 || (nanos < 2_000_000_000 && secs % 60 == 59))
}

/// Calls `chrono::DateTime::<Utc>::from_timestamp` and reports whether it returned a
/// value. Its contract restates the range and nanosecond checks of chrono's source
/// (`NaiveDate::from_num_days_from_ce_opt`, `NaiveTime::from_num_seconds_from_midnight_opt`).
#[verifier::external_body]
fn chrono_timestamp_is_valid(secs: i64, nanos: u32) -> (r: bool)
    ensures
        r == chrono_accepts(secs as int, nanos as int),
{
    chrono::DateTime::<chrono::Utc>::from_timestamp(secs, nanos).is_some()
}

/// A point on the UTC time line: whole seconds since the Unix epoch and the
/// nanoseconds within that second. Leap seconds are not represented.
#[derive(Clone, Copy, Debug, PartialEq, Eq, Structural)]
pub struct UtcInstant {
    pub secs: i64,
    pub nanos: u32,
}

impl UtcInstant {
    /// In chrono's range, with the nanoseconds below one second.
    pub open spec fn wf(self) -> bool {
        &&& MIN_UNIX_SECS <= self.secs <= MAX_UNIX_SECS
        &&& self.nanos < 1_000_000_000
    }

    /// Nanoseconds since the Unix epoch.
    pub open spec fn total_nanos(self) -> int {
        self.secs * 1_000_000_000 + self.nanos
    }

    /// The instant `secs` seconds and `nanos` nanoseconds after the epoch, if
    /// chrono represents it and it is not inside a leap second.
    pub fn from_timestamp(secs: i64, nanos: u32) -> (r: Option<UtcInstant>)
        ensures
            r is Some <==> chrono_accepts(secs as int, nanos as int) && nanos < 1_000_000_000,
            r matches Some(t) ==> t == (UtcInstant { secs, nanos }) && t.wf(),
    {
        if chrono_timestamp_is_valid(secs, nanos) && nanos < NANOS_PER_SEC {
            Some(UtcInstant { secs, nanos })
        } else {
            None
        }
    }
}

/// The instant whose total nanoseconds are `total`.
pub open spec fn instant_at(total: int) -> UtcInstant {
    UtcInstant { secs: (total / 1_000_000_000) as i64, nanos: (total % 1_000_000_000) as u32 }
}

/// The instants that `chrono` can represent, in total nanoseconds.
pub open spec fn in_chrono_range(total: int) -> bool {
    MIN_UNIX_SECS * 1_000_000_000 <= total < (MAX_UNIX_SECS + 1) * 1_000_000_000
}

pub(crate) proof fn lemma_instant_at(total: int)
    requires
        in_chrono_range(total),
    ensures
        instant_at(total).wf(),
        instant_at(total).total_nanos() == total,
{
    let q = total / 1_000_000_000;
    let r = total % 1_000_000_000;
    vstd::arithmetic::div_mod::lemma_fundamental_div_mod(total, 1_000_000_000);
    assert(0 <= r < 1_000_000_000);
    assert(MIN_UNIX_SECS <= q <= MAX_UNIX_SECS) by (nonlinear_arith)
        requires
            total == q * 1_000_000_000 + r,
            0 <= r < 1_000_000_000,
            MIN_UNIX_SECS * 1_000_000_000 <= total < (MAX_UNIX_SECS + 1) * 1_000_000_000;
}

/// The instant `offset_ms` milliseconds after `t` (before it when negative).
/// Adding a duration that leaves chrono's range panics in chrono, so such
/// offsets are excluded.
pub fn add_millis(t: UtcInstant, offset_ms: i64) -> (r: UtcInstant)
    requires
        t.wf(),
        offset_ms != i64::MIN,
        in_chrono_range(t.total_nanos() + offset_ms * 1_000_000),
    ensures
        r.wf(),
        r.total_nanos() == t.total_nanos() + offset_ms * 1_000_000,
        r == instant_at(t.total_nanos() + offset_ms * 1_000_000),
{
    let ghost total = t.total_nanos() + offset_ms * 1_000_000;
    proof {
        lemma_instant_at(total);
    }
    if offset_ms >= 0 {
        let m = offset_ms as u64;
        let q = m / 1000;
        let rem = m % 1000;
        let add_nanos = t.nanos as u64 + rem * 1_000_000;
        if add_nanos >= 1_000_000_000 {
            let r = UtcInstant { secs: t.secs + q as i64 + 1, nanos: (add_nanos - 1_000_000_000) as u32 };
            assert(r.total_nanos() == total);
            proof { lemma_unique_split(r, total); }
            r
        } else {
            let r = UtcInstant { secs: t.secs + q as i64, nanos: add_nanos as u32 };
            assert(r.total_nanos() == total);
            proof { lemma_unique_split(r, total); }
            r
        }
    } else {
        let m = (-offset_ms) as u64;
        let q = m / 1000;
        let rem = m % 1000;
        let sub_nanos = rem as u32 * 1_000_000;
        if t.nanos >= sub_nanos {
            let r = UtcInstant { secs: t.secs - q as i64, nanos: t.nanos - sub_nanos };
            assert(r.total_nanos() == total);
            proof { lemma_unique_split(r, total); }
            r
        } else {
            let r = UtcInstant { secs: t.secs - q as i64 - 1, nanos: t.nanos + 1_000_000_000 - sub_nanos };
            assert(r.total_nanos() == total);
            proof { lemma_unique_split(r, total); }
            r
        }
    }
}

proof fn lemma_unique_split(r: UtcInstant, total: int)
    requires
        r.nanos < 1_000_000_000,
        r.total_nanos() == total,
    ensures
        r == instant_at(total),
{
    let s = r.secs as int;
    let n = r.nanos as int;
    assert(total / 1_000_000_000 == s && total % 1_000_000_000 == n) by (nonlinear_arith)
        requires total == s * 1_000_000_000 + n, 0 <= n < 1_000_000_000;
}

/// Whole milliseconds from `b` to `a`, truncated toward zero, without sign:
/// the `unsigned_abs` of chrono's `(a - b).num_milliseconds()`.
pub open spec fn millis_apart(a: UtcInstant, b: UtcInstant) -> int {
    let d = a.total_nanos() - b.total_nanos();
    if d >= 0 { d / 1_000_000 } else { (-d) / 1_000_000 }
}

/// The distance between two instants in whole milliseconds.
pub fn millis_between(a: UtcInstant, b: UtcInstant) -> (r: u64)
    requires
        a.wf(),
        b.wf(),
    ensures
        r == millis_apart(a, b),
{
    let d: i128 = (a.secs as i128 - b.secs as i128) * 1_000_000_000 + (a.nanos as i128 - b.nanos as i128);
    assert(d == a.total_nanos() - b.total_nanos());
    let mag: u128 = if d >= 0 { d as u128 } else { (-d) as u128 };
    assert(mag <= 17_000_000_000_000_000_000_000);
    let r = mag / 1_000_000;
    assert(r <= u64::MAX) by (nonlinear_arith)
        requires r == mag / 1_000_000, mag <= 17_000_000_000_000_000_000_000;
    r as u64
}

/// The first and last day that `chrono` represents, counted from 1970-01-01.
pub const MIN_EPOCH_DAY: i32 = -96_465_292;
pub const MAX_EPOCH_DAY: i32 = 95_026_236;

/// A leap year of the proleptic Gregorian calendar.
pub open spec fn is_leap_year(y: int) -> bool {
    (y % 4 == 0 && y % 100 != 0) || y % 400 == 0
}

/// The number of days in month `m` (1 to 12) of year `y`.
pub open spec fn days_in_month(y: int, m: int) -> int {
    if m == 2 {
        if is_leap_year(y) { 29 } else { 28 }
    } else if m == 4 || m == 6 || m == 9 || m == 11 {
        30
    } else {
        31
    }
}

/// How many leap years lie in `1..=n` (for `n < 0`, minus those in `n+1..=0`).
pub open spec fn leap_years_through(n: int) -> int {
    n / 4 - n / 100 + n / 400
}

/// Days from 1970-01-01 to January 1 of year `y`.
pub open spec fn days_before_year(y: int) -> int {
    365 * (y - 1970) + leap_years_through(y - 1) - leap_years_through(1969)
}

/// Days from January 1 to the first of month `m` in year `y`.
pub open spec fn days_before_month(y: int, m: int) -> int
    decreases m,
{
    if m <= 1 { 0 } else { days_before_month(y, m - 1) + days_in_month(y, m - 1) }
}

/// `(y, m, d)` is the proleptic Gregorian date `days` days after 1970-01-01.
pub open spec fn is_civil_date(days: int, y: int, m: int, d: int) -> bool {
    &&& 1 <= m <= 12
    &&& 1 <= d <= days_in_month(y, m)
    &&& days_before_year(y) + days_before_month(y, m) + d - 1 == days
}

/// Calls `chrono::NaiveDate::from_epoch_days` and reads the year, month and day of
/// the date. chrono counts days in the proleptic Gregorian calendar from
/// 1970-01-01 as day 0, and builds a date for every day in its range; the
/// contract states that the parts returned are that calendar date.
#[verifier::external_body]
pub(crate) fn chrono_date_of_epoch_day(days: i32) -> (r: (i32, u32, u32))
    requires
        MIN_EPOCH_DAY <= days <= MAX_EPOCH_DAY,
    ensures
        is_civil_date(days as int, r.0 as int, r.1 as int, r.2 as int),
{
    let date = chrono::NaiveDate::from_epoch_days(days).expect("day within chrono's range");
    (chrono::Datelike::year(&date), chrono::Datelike::month(&date), chrono::Datelike::day(&date))
}

/// The day of `t`, counted from 1970-01-01 as day 0, and the second within that day.
pub(crate) fn day_and_second(t: UtcInstant) -> (r: (i32, u32))
    requires
        t.wf(),
    ensures
        r.0 as int == t.secs as int / 86400,
        r.1 as int == t.secs as int % 86400,
        MIN_EPOCH_DAY <= r.0 <= MAX_EPOCH_DAY,
{
    let shifted: u64 = (t.secs - MIN_UNIX_SECS) as u64;
    let index: u64 = shifted / 86400;
    let second: u64 = shifted % 86400;
    let ghost s = t.secs as int;
    assert(s / 86400 == index - 96_465_292 && s % 86400 == second) by (nonlinear_arith)
        requires
            shifted == s + 8_334_601_228_800,
            index == shifted / 86400,
            second == shifted % 86400,
    {
        assert(shifted == index * 86400 + second);
        assert(s == (index - 96_465_292) * 86400 + second);
    }
    assert(index <= 191_491_528) by (nonlinear_arith)
        requires index == shifted / 86400, shifted <= 16_544_868_105_599;
    ((index as i64 - 96_465_292) as i32, second as u32)
}

proof fn lemma_div_step(n: int, k: int)
    requires
        k > 0,
    ensures
        n / k - (n - 1) / k == if n % k == 0 { 1int } else { 0int },
{
    vstd::arithmetic::div_mod::lemma_fundamental_div_mod(n, k);
    let q = n / k;
    let r = n % k;
    assert((q - 1) * k == q * k - k) by (nonlinear_arith);
    assert(k * q == q * k) by (nonlinear_arith);
    if r == 0 {
        vstd::arithmetic::div_mod::lemma_fundamental_div_mod_converse(n - 1, k, q - 1, k - 1);
    } else {
        vstd::arithmetic::div_mod::lemma_fundamental_div_mod_converse(n - 1, k, q, r - 1);
    }
}

proof fn lemma_leap_step(y: int)
    ensures
        leap_years_through(y) - leap_years_through(y - 1) == if is_leap_year(y) { 1int } else { 0int },
{
    lemma_div_step(y, 4);
    lemma_div_step(y, 100);
    lemma_div_step(y, 400);
    if y % 400 == 0 {
        let q = y / 400;
        vstd::arithmetic::div_mod::lemma_fundamental_div_mod(y, 400);
        vstd::arithmetic::div_mod::lemma_fundamental_div_mod_converse(y, 100, 4 * q, 0);
    }
    if y % 100 == 0 {
        let q = y / 100;
        vstd::arithmetic::div_mod::lemma_fundamental_div_mod(y, 100);
        vstd::arithmetic::div_mod::lemma_fundamental_div_mod_converse(y, 4, 25 * q, 0);
    }
}

/// Days from the first of month `m` to the first of month `m2` of one year.
proof fn lemma_month_monotone(y: int, m: int, m2: int)
    requires
        1 <= m < m2 <= 13,
    ensures
        days_before_month(y, m) + days_in_month(y, m) <= days_before_month(y, m2),
    decreases m2,
{
    if m2 > m + 1 {
        lemma_month_monotone(y, m, m2 - 1);
    }
}

/// The first of a year follows every day of the years before it.
proof fn lemma_year_monotone(y: int, y2: int)
    requires
        y < y2,
    ensures
        days_before_year(y + 1) <= days_before_year(y2),
    decreases y2 - y,
{
    if y2 > y + 1 {
        lemma_year_monotone(y, y2 - 1);
        lemma_leap_step(y2 - 1);
    }
}

/// A valid date of year `y` falls within that year.
proof fn lemma_date_in_year(days: int, y: int, m: int, d: int)
    requires
        is_civil_date(days, y, m, d),
    ensures
        days_before_year(y) <= days < days_before_year(y + 1),
{
    reveal_with_fuel(days_before_month, 13);
    lemma_leap_step(y);
    if m < 12 {
        lemma_month_monotone(y, m, 13);
    }
}

/// A day has one calendar date: two dates of the same day are equal.
pub proof fn lemma_civil_date_unique(days: int, y: int, m: int, d: int, y2: int, m2: int, d2: int)
    requires
        is_civil_date(days, y, m, d),
        is_civil_date(days, y2, m2, d2),
    ensures
        y == y2 && m == m2 && d == d2,
{
    lemma_date_in_year(days, y, m, d);
    lemma_date_in_year(days, y2, m2, d2);
    if y < y2 {
        lemma_year_monotone(y, y2);
    } else if y2 < y {
        lemma_year_monotone(y2, y);
    }
    assert(y == y2);
    if m < m2 {
        lemma_month_monotone(y, m, m2);
    } else if m2 < m {
        lemma_month_monotone(y, m2, m);
    }
}

} // verus!
