//! Days and dates: a date's serial number counts days, and 1970-01-01 has 25569.
use vstd::prelude::*;

verus! {

/// Whether a year has a leap day.
pub open spec fn leap(y: int) -> bool {
    (y % 4 == 0 && y % 100 != 0) || y % 400 == 0
}

/// Whether a year has a leap day.
pub fn is_leap(y: i64) -> (r: bool)
    ensures
        r == leap(y as int),
{
    let m: i128 = y as i128 + 0x1000_0000_0000_0000_0000 * 400;
    assert(m % 4 == y as int % 4 && m % 100 == y as int % 100 && m % 400 == y as int % 400);
    (m % 4 == 0 && m % 100 != 0) || m % 400 == 0
}

/// How many days a month has.
pub open spec fn month_days(y: int, m: int) -> int {
    if m == 2 {
        if leap(y) {
            29
        } else {
            28
        }
    } else if m == 4 || m == 6 || m == 9 || m == 11 {
        30
    } else {
        31
    }
}

/// How many days lie between the start of year 0 and the start of a year.
pub open spec fn days_before_year(y: int) -> int {
    365 * y + (y + 3) / 4 - (y + 99) / 100 + (y + 399) / 400
}

/// How many days of a year lie before a month.
pub open spec fn days_before_month(y: int, m: int) -> int
    decreases m,
{
    if m <= 1 {
        0
    } else {
        days_before_month(y, m - 1) + month_days(y, m - 1)
    }
}

/// The serial number of a date. A day may lie outside its month.
pub open spec fn serial_of(y: int, m: int, d: int) -> int {
    days_before_year(y) - 693959 + days_before_month(y, m) + d - 1
}

/// Whether a date is one of the calendar.
pub open spec fn is_date(y: int, m: int, d: int) -> bool {
    1 <= m <= 12 && 1 <= d <= month_days(y, m)
}

/// A day: its date, and its weekday counted from 0 for Sunday.
#[derive(Debug, Clone, Copy, PartialEq, Eq, Structural)]
pub struct Parts {
    pub year: i64,
    pub month: u32,
    pub day: u32,
    pub weekday: u32,
}

/// The weekday of a serial number, counted from 0 for Sunday.
pub open spec fn weekday(serial: int) -> int {
    (serial + 6) % 7
}

/// Whether parts are those of a serial number.
pub open spec fn is_parts_of(p: Parts, serial: int) -> bool {
    &&& is_date(p.year as int, p.month as int, p.day as int)
    &&& serial_of(p.year as int, p.month as int, p.day as int) == serial
    &&& p.weekday == weekday(serial)
}

pub(crate) proof fn quarters(y: int)
    ensures
        (y + 4) / 4 - (y + 3) / 4 == if y % 4 == 0 {
            1int
        } else {
            0
        },
{
}

pub(crate) proof fn hundreds(y: int)
    ensures
        (y + 100) / 100 - (y + 99) / 100 == if y % 100 == 0 {
            1int
        } else {
            0
        },
{
}

pub(crate) proof fn four_hundreds(y: int)
    ensures
        (y + 400) / 400 - (y + 399) / 400 == if y % 400 == 0 {
            1int
        } else {
            0
        },
{
}

proof fn hundreds_are_fours(y: int)
    ensures
        y % 400 == 0 ==> y % 100 == 0,
        y % 100 == 0 ==> y % 4 == 0,
{
    if y % 400 == 0 {
        let q = y / 400;
        assert(y == 100 * (4 * q));
    }
    if y % 100 == 0 {
        let q = y / 100;
        assert(y == 4 * (25 * q));
    }
}

proof fn year_length(y: int)
    ensures
        days_before_year(y + 1) == days_before_year(y) + (if leap(y) {
            366int
        } else {
            365
        }),
{
    quarters(y);
    hundreds(y);
    four_hundreds(y);
    hundreds_are_fours(y);
}

proof fn year_has_twelve_months(y: int)
    ensures
        days_before_month(y, 13) == (if leap(y) {
            366int
        } else {
            365
        }),
{
    reveal_with_fuel(days_before_month, 14);
}

proof fn months_ascend(y: int, a: int, b: int)
    requires
        1 <= a < b,
    ensures
        days_before_month(y, a) + month_days(y, a) <= days_before_month(y, b),
    decreases b,
{
    if a + 1 < b {
        months_ascend(y, a, b - 1);
    }
}

proof fn years_ascend(a: int, b: int)
    requires
        a <= b,
    ensures
        days_before_year(a) + 365 * (b - a) <= days_before_year(b),
{
    assert((a + 3) / 4 <= (b + 3) / 4);
    assert((b + 99) / 100 - (a + 99) / 100 <= (b + 3) / 4 - (a + 3) / 4 + (b + 399) / 400 - (a + 399)
        / 400) by {
        leap_counts(a, b);
    }
}

proof fn leap_counts(a: int, b: int)
    requires
        a <= b,
    ensures
        (b + 99) / 100 - (a + 99) / 100 <= (b + 3) / 4 - (a + 3) / 4 + (b + 399) / 400 - (a + 399)
            / 400,
    decreases b - a,
{
    if a < b {
        leap_counts(a, b - 1);
        leap_steps(b - 1);
    }
}

proof fn leap_steps(y: int)
    ensures
        (y + 100) / 100 - (y + 99) / 100 <= (y + 4) / 4 - (y + 3) / 4,
        (y + 400) / 400 >= (y + 399) / 400,
{
    quarters(y);
    hundreds(y);
    four_hundreds(y);
    hundreds_are_fours(y);
}

/// Every day has one date: two dates with the same serial number are the same.
pub proof fn dates_are_unique(y: int, m: int, d: int, y2: int, m2: int, d2: int)
    requires
        is_date(y, m, d),
        is_date(y2, m2, d2),
        serial_of(y, m, d) == serial_of(y2, m2, d2),
    ensures
        y == y2,
        m == m2,
        d == d2,
{
    in_year(y, m, d);
    in_year(y2, m2, d2);
    if y < y2 {
        year_length(y);
        years_ascend(y + 1, y2);
    } else if y2 < y {
        year_length(y2);
        years_ascend(y2 + 1, y);
    }
    if m < m2 {
        months_ascend(y, m, m2);
    } else if m2 < m {
        months_ascend(y, m2, m);
    }
}

proof fn in_year(y: int, m: int, d: int)
    requires
        is_date(y, m, d),
    ensures
        0 <= days_before_month(y, m) + d - 1 < (if leap(y) {
            366int
        } else {
            365
        }),
{
    year_has_twelve_months(y);
    months_ascend(y, m, 13);
    before_month_positive(y, m);
}

proof fn before_month_positive(y: int, m: int)
    ensures
        days_before_month(y, m) >= 0,
    decreases m,
{
    if m > 1 {
        before_month_positive(y, m - 1);
    }
}

fn month_length(y: i64, m: u32) -> (r: u32)
    ensures
        r == month_days(y as int, m as int),
{
    if m == 2 {
        if is_leap(y) {
            29
        } else {
            28
        }
    } else if m == 4 || m == 6 || m == 9 || m == 11 {
        30
    } else {
        31
    }
}

/// The last day of a month.
pub fn last_day_of_month(year: i64, month: u32) -> (r: u32)
    requires
        1 <= month <= 12,
    ensures
        r == month_days(year as int, month as int),
        r == serial_of(year as int, month + 1, 1) - serial_of(year as int, month as int, 1),
{
    month_length(year, month)
}

fn floor_div(a: i128, b: i128) -> (r: i128)
    requires
        b > 0,
        -0x4000_0000_0000_0000_0000_0000_0000 < a < 0x4000_0000_0000_0000_0000_0000_0000,
        b <= 400,
    ensures
        r == a as int / b as int,
{
    if a >= 0 {
        a / b
    } else {
        let q: i128 = -((-a - 1) / b) - 1;
        let ghost k = (-a - 1) / b as int;
        proof {
            let n = -a - 1;
            assert(n == b * k + n % (b as int)) by (nonlinear_arith)
                requires
                    b > 0,
                    k == n / (b as int),
            ;
            assert(a as int / b as int == -k - 1) by (nonlinear_arith)
                requires
                    b > 0,
                    n == -a - 1,
                    n == b * k + n % (b as int),
                    0 <= n % (b as int) < b,
            ;
        }
        q
    }
}

fn count_before_year(y: i128) -> (r: i128)
    requires
        -0x100_0000_0000_0000_0000 < y < 0x100_0000_0000_0000_0000,
    ensures
        r == days_before_year(y as int),
{
    365 * y + floor_div(y + 3, 4) - floor_div(y + 99, 100) + floor_div(y + 399, 400)
}

fn count_before_month(y: i64, m: u32) -> (r: i128)
    requires
        1 <= m <= 13,
    ensures
        r == days_before_month(y as int, m as int),
        0 <= r <= 403,
{
    let mut k: u32 = 1;
    let mut r: i128 = 0;
    while k < m
        invariant
            1 <= k <= m <= 13,
            r == days_before_month(y as int, k as int),
            0 <= r <= 31 * (k - 1),
        decreases m - k,
    {
        r = r + month_length(y, k) as i128;
        k = k + 1;
    }
    r
}

/// The serial number of a date whose day may lie outside its month.
pub fn date_to_serial(y: i64, m: u32, d: i64) -> (r: i128)
    requires
        1 <= m <= 12,
    ensures
        r == serial_of(y as int, m as int, d as int),
        -0x1_0000_0000_0000_0000_0000 < r < 0x1_0000_0000_0000_0000_0000,
{
    let a: i128 = count_before_year(y as i128);
    let b: i128 = count_before_month(y, m);
    a - 693959 + b + d as i128 - 1
}

/// The year in which a day lies that is counted from the start of year 0.
fn year_of_day(n: i128) -> (y: i64)
    requires
        -0x8000_0000_0000_0000 + 693959 <= n <= 0x7fff_ffff_ffff_ffff + 693959,
    ensures
        days_before_year(y as int) <= n < days_before_year(y + 1),
{
    let bound: i128 = 0x4000_0000_0000_0000;
    let mut y: i128 = if n >= 0 {
        (n * 400) / 146097
    } else {
        -((-n * 400) / 146097) - 1
    };
    let mut start: i128 = count_before_year(y);
    while start > n
        invariant
            -bound < y < bound,
            bound == 0x4000_0000_0000_0000,
            -0x8000_0000_0000_0000 + 693959 <= n,
            start == days_before_year(y as int),
        decreases (if start > n {
            start - n
        } else {
            0
        }),
    {
        proof {
            if y <= -bound + 1 {
                years_ascend(y as int, 0);
                assert(days_before_year(0) == 0);
            }
            year_length(y - 1);
        }
        y = y - 1;
        start = count_before_year(y);
    }
    let mut next: i128 = count_before_year(y + 1);
    while next <= n
        invariant
            -bound < y < bound,
            bound == 0x4000_0000_0000_0000,
            n <= 0x7fff_ffff_ffff_ffff + 693959,
            next == days_before_year(y + 1),
            days_before_year(y as int) <= n,
        decreases (if next <= n {
            n - next + 1
        } else {
            0
        }),
    {
        proof {
            if y >= bound - 2 {
                years_ascend(0, y + 1);
                assert(days_before_year(0) == 0);
            }
            year_length(y + 1);
        }
        y = y + 1;
        next = count_before_year(y + 1);
    }
    y as i64
}

/// The month and the day of a day counted from the start of its year.
fn month_of_day(year: i64, day_of_year: i128) -> (r: (u32, u32))
    requires
        0 <= day_of_year < (if leap(year as int) {
            366int
        } else {
            365
        }),
    ensures
        is_date(year as int, r.0 as int, r.1 as int),
        days_before_month(year as int, r.0 as int) + r.1 - 1 == day_of_year,
{
    let mut left: i128 = day_of_year;
    let mut m: u32 = 1;
    while m < 12 && left >= month_length(year, m) as i128
        invariant
            1 <= m <= 12,
            left == day_of_year - days_before_month(year as int, m as int),
            left >= 0,
            day_of_year < 366,
        decreases 12 - m,
    {
        proof {
            before_month_positive(year as int, m as int);
        }
        left = left - month_length(year, m) as i128;
        m = m + 1;
    }
    proof {
        year_has_twelve_months(year as int);
        before_month_positive(year as int, m as int);
        if m == 12 {
            assert(days_before_month(year as int, 13) == days_before_month(year as int, 12)
                + month_days(year as int, 12));
        }
    }
    (m, left as u32 + 1)
}

/// The weekday of a serial number, counted from 0 for Sunday.
pub fn weekday_of(serial: i128) -> (r: u32)
    ensures
        r == weekday(serial as int),
        r < 7,
{
    let k: i128 = serial % 7;
    let m: i128 = if k < 0 {
        k + 7
    } else {
        k
    };
    proof {
        if serial < 0 {
            let n = -(serial as int);
            assert(k == -(n % 7));
        }
        assert(m == serial as int % 7);
    }
    ((m + 6) % 7) as u32
}

/// The date and the weekday of a serial number.
pub fn serial_to_parts(serial: i64) -> (r: Parts)
    ensures
        is_parts_of(r, serial as int),
{
    let n: i128 = serial as i128 + 693959;
    let year: i64 = year_of_day(n);
    let start: i128 = count_before_year(year as i128);
    proof {
        year_length(year as int);
    }
    let (month, day) = month_of_day(year, n - start);
    Parts { year, month, day, weekday: weekday_of(serial as i128) }
}

} // verus!
