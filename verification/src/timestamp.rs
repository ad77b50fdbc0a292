//! Calendar dates and times of day, checked, and turned into milliseconds
//! since the Unix epoch (proleptic Gregorian calendar, UTC).

use vstd::prelude::*;
use vstd::arithmetic::div_mod::{lemma_div_multiples_vanish_fancy, lemma_fundamental_div_mod, lemma_mod_mod};

verus! {

/// Whether a year is a leap year.
pub open spec fn is_leap_year(y: int) -> bool {
    y % 4 == 0 && (y % 100 != 0 || y % 400 == 0)
}

/// The number of days of month `m` (1 to 12) of year `y`.
pub open spec fn days_in_month(y: int, m: int) -> int {
    if m == 2 {
        if is_leap_year(y) {
            29
        } else {
            28
        }
    } else if m == 4 || m == 6 || m == 9 || m == 11 {
        30
    } else {
        31
    }
}

/// The days of year `y` before the first of month `m`.
pub open spec fn days_before_month(y: int, m: int) -> int
    decreases m,
{
    if m <= 1 {
        0
    } else {
        days_before_month(y, m - 1) + days_in_month(y, m - 1)
    }
}

/// The days from the first of January of year 0 to that of year `y`.
pub open spec fn days_before_year(y: nat) -> int
    decreases y,
{
    if y == 0 {
        0
    } else {
        days_before_year((y - 1) as nat) + if is_leap_year(y - 1) {
            366int
        } else {
            365int
        }
    }
}

/// Whether year, month and day name a day of the calendar.
pub open spec fn valid_date(y: int, m: int, d: int) -> bool {
    1 <= m <= 12 && 1 <= d <= days_in_month(y, m)
}

/// Whether hour, minutes, seconds and microseconds name a time of day.
pub open spec fn valid_time(h: int, mi: int, s: int, us: int) -> bool {
    0 <= h < 24 && 0 <= mi < 60 && 0 <= s < 60 && 0 <= us < 1_000_000
}

/// The days from 1970-01-01 to a date of a year from 0 on.
pub open spec fn days_since_epoch(y: nat, m: int, d: int) -> int {
    days_before_year(y) + days_before_month(y as int, m) + d - 1 - days_before_year(1970)
}

/// The microseconds from the Unix epoch to a date and time (negative before
/// it).
pub open spec fn micros_since_epoch(y: nat, m: int, d: int, h: int, mi: int, s: int, us: int) -> int {
    (((days_since_epoch(y, m, d) * 24 + h) * 60 + mi) * 60 + s) * 1_000_000 + us
}

/// The whole milliseconds from the Unix epoch to a date and time, and 0 for
/// any moment before it.
pub open spec fn epoch_millis(y: nat, m: int, d: int, h: int, mi: int, s: int, us: int) -> int {
    let t = micros_since_epoch(y, m, d, h, mi, s, us);
    if t >= 0 {
        t / 1000
    } else {
        0
    }
}

/// Why a date and time cannot be read.
#[derive(Debug, Clone, Copy, PartialEq, Eq, Structural)]
pub enum DateTimeError {
    /// The month or the day is out of range.
    InvalidDate,
    /// The hour, minutes, seconds or microseconds are out of range.
    InvalidTime,
}

/// `(n + k) / k - (n + k - 1) / k` is 1 exactly when `k` divides `n`.
proof fn lemma_div_step(n: int, k: int)
    requires
        n >= 0,
        k > 0,
    ensures
        (n + k) / k - (n + k - 1) / k == if n % k == 0 {
            1int
        } else {
            0int
        },
{
    let q = n / k;
    let r = n % k;
    lemma_fundamental_div_mod(n, k);
    assert(0 <= r < k);
    assert(n + k == k * (q + 1) + r) by (nonlinear_arith)
        requires
            n == k * q + r,
    ;
    lemma_div_multiples_vanish_fancy(q + 1, r, k);
    if r == 0 {
        assert(n + k - 1 == k * q + (k - 1)) by (nonlinear_arith)
            requires
                n == k * q + r,
                r == 0,
        ;
        lemma_div_multiples_vanish_fancy(q, k - 1, k);
    } else {
        assert(n + k - 1 == k * (q + 1) + (r - 1)) by (nonlinear_arith)
            requires
                n == k * q + r,
        ;
        lemma_div_multiples_vanish_fancy(q + 1, r - 1, k);
    }
}

/// The days before a year in closed form: 365 a year, and one more for each
/// leap year before it.
proof fn lemma_days_before_year(y: nat)
    ensures
        days_before_year(y) == 365 * y + (y + 3) / 4 - (y + 99) / 100 + (y + 399) / 400,
    decreases y,
{
    if y > 0 {
        let p = (y - 1) as nat;
        lemma_days_before_year(p);
        lemma_div_step(p as int, 4);
        lemma_div_step(p as int, 100);
        lemma_div_step(p as int, 400);
        lemma_mod_mod(p as int, 4, 25);
        lemma_mod_mod(p as int, 100, 4);
        assert(4int * 25 == 100 && 100int * 4 == 400);
        let a4: int = (p + 4) / 4 - (p + 3) / 4;
        let a100: int = (p + 100) / 100 - (p + 99) / 100;
        let a400: int = (p + 400) / 400 - (p + 399) / 400;
        assert(a4 - a100 + a400 == if is_leap_year(p as int) {
            1int
        } else {
            0int
        });
        assert(days_before_year(y) == days_before_year(p) + 365 + (a4 - a100 + a400));
        assert(p + 4 == y + 3 && p + 100 == y + 99 && p + 400 == y + 399);
    }
}

/// The number of days of a month of a year.
fn month_length(y: u16, m: u8) -> (res: u32)
    requires
        1 <= m <= 12,
    ensures
        res == days_in_month(y as int, m as int),
{
    let leap = y % 4 == 0 && (y % 100 != 0 || y % 400 == 0);
    if m == 2 {
        if leap {
            29
        } else {
            28
        }
    } else if m == 4 || m == 6 || m == 9 || m == 11 {
        30
    } else {
        31
    }
}

/// Milliseconds since the Unix epoch of a date and time in UTC: `InvalidDate`
/// when the month is not 1 to 12 or the day is not one of that month;
/// else `InvalidTime` when the time of day is out of range; else the whole
/// milliseconds since the epoch, and 0 for a moment before it.
pub fn date_time_millis(y: u16, m: u8, d: u8, h: u8, mi: u8, s: u8, us: u32) -> (res: Result<u64, DateTimeError>)
    ensures
        !valid_date(y as int, m as int, d as int) ==> res == Err::<u64, DateTimeError>(DateTimeError::InvalidDate),
        valid_date(y as int, m as int, d as int) && !valid_time(h as int, mi as int, s as int, us as int) ==> res
            == Err::<u64, DateTimeError>(DateTimeError::InvalidTime),
        valid_date(y as int, m as int, d as int) && valid_time(h as int, mi as int, s as int, us as int) ==> (res matches Ok(
            t,
        ) && t as int == epoch_millis(y as nat, m as int, d as int, h as int, mi as int, s as int, us as int)),
{
    if m < 1 || m > 12 {
        return Err(DateTimeError::InvalidDate);
    }
    if d < 1 || d as u32 > month_length(y, m) {
        return Err(DateTimeError::InvalidDate);
    }
    if h >= 24 || mi >= 60 || s >= 60 || us >= 1_000_000 {
        return Err(DateTimeError::InvalidTime);
    }
    let mut before_month: u32 = 0;
    let mut k: u8 = 1;
    while k < m
        invariant
            1 <= k <= m <= 12,
            before_month == days_before_month(y as int, k as int),
            before_month <= 31 * (k - 1),
        decreases m - k,
    {
        before_month = before_month + month_length(y, k);
        k = k + 1;
    }
    let yy: i64 = y as i64;
    proof {
        lemma_days_before_year(y as nat);
        lemma_days_before_year(1970);
        assert(days_before_year(1970) == 719528);
    }
    let before_year: i64 = 365 * yy + (yy + 3) / 4 - (yy + 99) / 100 + (yy + 399) / 400;
    let days: i64 = before_year + before_month as i64 + d as i64 - 1 - 719528;
    assert(days == days_since_epoch(y as nat, m as int, d as int));
    let micros: i64 = (((days * 24 + h as i64) * 60 + mi as i64) * 60 + s as i64) * 1_000_000 + us as i64;
    if micros >= 0 {
        Ok((micros / 1000) as u64)
    } else {
        Ok(0)
    }
}

} // verus!
