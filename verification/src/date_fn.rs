//! Functions on dates and times.
use crate::calendar::{
    date_to_serial, is_parts_of, last_day_of_month, month_days, serial_of, serial_to_parts, weekday,
    weekday_of, Parts,
};
use crate::decimal::{parse_signed, read_signed};
use crate::kernel::Kernel;
use crate::reading::{
    all_at, arg_at, failed, floor_of, floored, given, nth, num, number_at, read_seq, reply_view,
    text_at, truncated, truth, truth_at, txt, values_at, whole, work, Arg, Given, Read, Reading,
    Reply, Said,
};
use crate::text::{
    chars_of, pieces, same_text, slice_string, split_text, texts, trim_text, trimmed, upper,
};
use crate::value::{zero, FValue, FormulaError, FormulaValue, Num};
use vstd::prelude::*;

verus! {

/// A whole number held within the range of 64-bit integers.
pub open spec fn clamped(k: int) -> int {
    if k > i64::MAX {
        i64::MAX as int
    } else if k < i64::MIN {
        i64::MIN as int
    } else {
        k
    }
}

fn clamp(k: i128) -> (r: i64)
    ensures
        r == clamped(k as int),
{
    if k > i64::MAX as i128 {
        i64::MAX
    } else if k < i64::MIN as i128 {
        i64::MIN
    } else {
        k as i64
    }
}

/// The year of a month counted over the years from 0.
pub open spec fn carried_year(months: int) -> int {
    months / 12
}

/// The month in its year of a month counted over the years from 0.
pub open spec fn carried_month(months: int) -> int {
    months % 12 + 1
}

/// The serial number of a date whose month and day may lie outside the year and the month.
pub open spec fn overflowing(year: int, month: int, day: int) -> int {
    let months = year * 12 + month - 1;
    serial_of(carried_year(months), carried_month(months), day)
}

fn split_months(months: i128) -> (r: (i64, u32))
    requires
        -0x5_0000_0000_0000_0000 < months < 0x5_0000_0000_0000_0000,
    ensures
        r.0 == carried_year(months as int),
        r.1 == carried_month(months as int),
        1 <= r.1 <= 12,
{
    let shifted: i128 = months + 12 * 0x7000_0000_0000_0000;
    let q: i128 = shifted / 12;
    let m: i128 = shifted % 12;
    assert(months as int / 12 == q - 0x7000_0000_0000_0000);
    assert(months as int % 12 == m);
    ((q - 0x7000_0000_0000_0000) as i64, m as u32 + 1)
}

/// Whether a count of months stays within what years can count.
pub open spec fn countable(months: int) -> bool {
    -0x5_0000_0000_0000_0000 < months < 0x5_0000_0000_0000_0000
}

/// The serial number of a date whose month and day may lie outside the year and the month;
/// nothing where its months cannot be counted.
pub fn date_overflow(year: i64, month: i64, day: i64) -> (r: Option<i64>)
    ensures
        match r {
            Some(k) => countable(year * 12 + month - 1) && k == clamped(
                overflowing(year as int, month as int, day as int),
            ),
            None => !countable(year * 12 + month - 1),
        },
{
    let months: i128 = year as i128 * 12 + month as i128 - 1;
    if months <= -0x5_0000_0000_0000_0000 || months >= 0x5_0000_0000_0000_0000 {
        return None;
    }
    let (y, m) = split_months(months);
    Some(clamp(date_to_serial(y, m, day)))
}

/// `DATE`: years below 1900 are counted from there.
pub open spec fn date_of(args: Seq<Given>) -> Option<Said> {
    match num(nth(args, 0)) {
        Err(e) => Some(failed(e)),
        Ok(y) => match num(nth(args, 1)) {
            Err(e) => Some(failed(e)),
            Ok(m) => match num(nth(args, 2)) {
                Err(e) => Some(failed(e)),
                Ok(d) => {
                    let year = if 0 <= truncated(y) < 1900 {
                        truncated(y) + 1900
                    } else {
                        truncated(y)
                    };
                    if countable(year * 12 + truncated(m) - 1) {
                        Some(
                            Said::Int(clamped(overflowing(year, truncated(m), truncated(d)))),
                        )
                    } else {
                        None
                    }
                },
            },
        },
    }
}

/// `DATE`, nothing where the months cannot be counted.
pub fn date_fn(args: &Vec<Arg>) -> (r: Option<Reply>)
    ensures
        reply_view(r) == date_of(given(args@)),
{
    let y: i64 = match number_at(args, 0) {
        Ok(n) => whole(n),
        Err(e) => {
            return Some(Reply::error(e));
        },
    };
    let m: i64 = match number_at(args, 1) {
        Ok(n) => whole(n),
        Err(e) => {
            return Some(Reply::error(e));
        },
    };
    let d: i64 = match number_at(args, 2) {
        Ok(n) => whole(n),
        Err(e) => {
            return Some(Reply::error(e));
        },
    };
    let year: i64 = if 0 <= y && y < 1900 {
        y + 1900
    } else {
        y
    };
    match date_overflow(year, m, d) {
        Some(k) => Some(Reply::Int(k)),
        None => None,
    }
}

/// `TIME`: the part of a day that hours, minutes and seconds make, without whole days.
pub open spec fn time_of(args: Seq<Given>) -> Said {
    match num(nth(args, 0)) {
        Err(e) => failed(e),
        Ok(h) => match num(nth(args, 1)) {
            Err(e) => failed(e),
            Ok(m) => match num(nth(args, 2)) {
                Err(e) => failed(e),
                Ok(s) => Said::Ratio(
                    (truncated(h) * 3600 + truncated(m) * 60 + truncated(s)) % 86400,
                    86400,
                    1,
                ),
            },
        },
    }
}

/// `TIME`.
pub fn time_fn(args: &Vec<Arg>) -> (r: Reply)
    ensures
        r@ == time_of(given(args@)),
{
    let h: i64 = match number_at(args, 0) {
        Ok(n) => whole(n),
        Err(e) => {
            return Reply::error(e);
        },
    };
    let m: i64 = match number_at(args, 1) {
        Ok(n) => whole(n),
        Err(e) => {
            return Reply::error(e);
        },
    };
    let s: i64 = match number_at(args, 2) {
        Ok(n) => whole(n),
        Err(e) => {
            return Reply::error(e);
        },
    };
    let total: i128 = h as i128 * 3600 + m as i128 * 60 + s as i128;
    let up: i128 = total + 86400 * 0x1_0000_0000_0000_0000;
    assert(up % 86400 == total as int % 86400);
    Reply::Ratio((up % 86400) as i64, 86400, 1)
}

/// A part of a date or a time.
#[derive(Debug, Clone, Copy, PartialEq, Eq, Structural)]
pub enum DatePart {
    Year,
    Month,
    Day,
    Hours,
    Minutes,
    Seconds,
}

/// What the parts of a date say.
pub open spec fn part_of(p: Parts, which: DatePart) -> int {
    match which {
        DatePart::Year => p.year as int,
        DatePart::Month => p.month as int,
        _ => p.day as int,
    }
}

/// Whether a reply is the part of a day's date that is asked for.
pub open spec fn is_part_of(r: Said, serial: int, which: DatePart) -> bool {
    exists|p: Parts| #[trigger] is_parts_of(p, serial) && r == Said::Int(part_of(p, which))
}

/// What `YEAR`, `MONTH`, `DAY`, `HOUR`, `MINUTE` and `SECOND` say of a serial number. The time of
/// a day is floating-point work.
pub open spec fn is_date_part(args: Seq<Given>, which: DatePart, r: Said) -> bool {
    match num(nth(args, 0)) {
        Err(e) => r == failed(e),
        Ok(s) => if s.lt(zero()) {
            r == failed(FormulaError::Num)
        } else {
            match which {
                DatePart::Hours => r == work(Kernel::Hour, seq![s]),
                DatePart::Minutes => r == work(Kernel::Minute, seq![s]),
                DatePart::Seconds => r == work(Kernel::Second, seq![s]),
                _ => is_part_of(r, truncated(s), which),
            }
        },
    }
}

/// `YEAR`, `MONTH`, `DAY`, `HOUR`, `MINUTE` and `SECOND`.
pub fn date_part(args: &Vec<Arg>, which: DatePart) -> (r: Reply)
    ensures
        is_date_part(given(args@), which, r@),
{
    let s: Num = match number_at(args, 0) {
        Ok(n) => n,
        Err(e) => {
            return Reply::error(e);
        },
    };
    if s.less(Num { bits: 0 }) {
        return Reply::error(FormulaError::Num);
    }
    let mut one: Vec<Num> = Vec::new();
    one.push(s);
    assert(one@ =~= seq![s]);
    let p: Parts = serial_to_parts(whole(s));
    match which {
        DatePart::Hours => Reply::compute(Kernel::Hour, one),
        DatePart::Minutes => Reply::compute(Kernel::Minute, one),
        DatePart::Seconds => Reply::compute(Kernel::Second, one),
        DatePart::Year => Reply::Int(p.year),
        DatePart::Month => Reply::Int(p.month as i64),
        DatePart::Day => Reply::Int(p.day as i64),
    }
}

/// The number that is given at `i`, cut to a whole one; `default` where it is not given.
pub open spec fn whole_or(args: Seq<Given>, i: int, default: int) -> Result<int, FormulaError> {
    if i < args.len() {
        match num(nth(args, i)) {
            Ok(n) => Ok(truncated(n)),
            Err(e) => Err(e),
        }
    } else {
        Ok(default)
    }
}

fn whole_at(args: &Vec<Arg>, i: usize, default: i64) -> (r: Result<i64, FormulaError>)
    ensures
        match whole_or(given(args@), i as int, default as int) {
            Ok(k) => r == Ok::<i64, FormulaError>(k as i64) && i64::MIN <= k <= i64::MAX,
            Err(e) => r == Err::<i64, FormulaError>(e),
        },
{
    if i < args.len() {
        match number_at(args, i) {
            Ok(n) => Ok(whole(n)),
            Err(e) => Err(e),
        }
    } else {
        Ok(default)
    }
}

/// `WEEKDAY`: counted from 1 for Sunday, from 1 for Monday, or from 0 for Monday.
pub open spec fn weekday_said(args: Seq<Given>) -> Said {
    match num(nth(args, 0)) {
        Err(e) => failed(e),
        Ok(s) => match whole_or(args, 1, 1) {
            Err(e) => failed(e),
            Ok(ty) => {
                let dow = weekday(floored(s));
                Said::Int(
                    if ty == 2 {
                        (dow + 6) % 7 + 1
                    } else if ty == 3 {
                        (dow + 6) % 7
                    } else {
                        dow + 1
                    },
                )
            },
        },
    }
}

/// `WEEKDAY`.
pub fn weekday_fn(args: &Vec<Arg>) -> (r: Reply)
    ensures
        r@ == weekday_said(given(args@)),
{
    let s: Num = match number_at(args, 0) {
        Ok(n) => n,
        Err(e) => {
            return Reply::error(e);
        },
    };
    let ty: i64 = match whole_at(args, 1, 1) {
        Ok(k) => k,
        Err(e) => {
            return Reply::error(e);
        },
    };
    let dow: i64 = weekday_of(floor_of(s) as i128) as i64;
    Reply::Int(
        if ty == 2 {
            (dow + 6) % 7 + 1
        } else if ty == 3 {
            (dow + 6) % 7
        } else {
            dow + 1
        },
    )
}

/// The day that lies some months after a date: the same day of its month, or the last one where
/// the month is shorter or the end of the month is asked for.
pub open spec fn months_later(y: int, m: int, d: int, months: int, end: bool) -> int {
    let total = y * 12 + (m - 1) + months;
    let yy = carried_year(total);
    let mm = carried_month(total);
    let last = month_days(yy, mm);
    serial_of(
        yy,
        mm,
        if end || d > last {
            last
        } else {
            d
        },
    )
}

/// Whether a reply is the day some months after a serial number's.
pub open spec fn is_months_later(r: Said, serial: int, months: int, end: bool) -> bool {
    exists|p: Parts| #[trigger]
        is_parts_of(p, serial) && r == Said::Int(
            clamped(months_later(p.year as int, p.month as int, p.day as int, months, end)),
        )
}

/// `EDATE` and `EOMONTH`.
pub open spec fn is_edate(args: Seq<Given>, end: bool, r: Said) -> bool {
    match num(nth(args, 0)) {
        Err(e) => r == failed(e),
        Ok(s) => match num(nth(args, 1)) {
            Err(e) => r == failed(e),
            Ok(m) => is_months_later(r, floored(s), truncated(m), end),
        },
    }
}

/// `EDATE` and `EOMONTH`.
pub fn edate(args: &Vec<Arg>, end_of_month: bool) -> (r: Reply)
    ensures
        is_edate(given(args@), end_of_month, r@),
{
    let s: Num = match number_at(args, 0) {
        Ok(n) => n,
        Err(e) => {
            return Reply::error(e);
        },
    };
    let months: i64 = match number_at(args, 1) {
        Ok(n) => whole(n),
        Err(e) => {
            return Reply::error(e);
        },
    };
    let p: Parts = serial_to_parts(floor_of(s));
    proof {
        year_in_range(p, floored(s));
    }
    let total: i128 = p.year as i128 * 12 + (p.month as i128 - 1) + months as i128;
    let (y, m) = split_months(total);
    let last: u32 = last_day_of_month(y, m);
    let d: u32 = if end_of_month || p.day > last {
        last
    } else {
        p.day
    };
    Reply::Int(clamp(date_to_serial(y, m, d as i64)))
}

proof fn year_in_range(p: Parts, serial: int)
    requires
        is_parts_of(p, serial),
        i64::MIN <= serial <= i64::MAX,
    ensures
        -0x80_0000_0000_0000 < p.year < 0x80_0000_0000_0000,
{
    before_month(p.year as int, p.month as int);
}

proof fn before_month(y: int, m: int)
    requires
        1 <= m <= 12,
    ensures
        0 <= crate::calendar::days_before_month(y, m) <= 372,
{
    reveal_with_fuel(crate::calendar::days_before_month, 13);
}

/// A unit of `DATEDIF`.
pub open spec fn dates_apart(a: Parts, b: Parts, unit: Seq<char>) -> Option<int> {
    if unit == "M"@ {
        Some(
            (b.year - a.year) * 12 + (b.month - a.month) - (if b.day < a.day {
                1int
            } else {
                0
            }),
        )
    } else if unit == "Y"@ {
        Some(
            b.year - a.year - (if b.month < a.month || b.month == a.month && b.day < a.day {
                1int
            } else {
                0
            }),
        )
    } else if unit == "YM"@ {
        let m = b.month - a.month - (if b.day < a.day {
            1int
        } else {
            0
        });
        Some(
            if m < 0 {
                m + 12
            } else {
                m
            },
        )
    } else {
        None
    }
}

/// Whether a reply tells how far two days are apart.
pub open spec fn is_apart(r: Said, s1: int, s2: int, unit: Seq<char>) -> bool {
    exists|a: Parts, b: Parts| #[trigger]
        is_parts_of(a, s1) && #[trigger] is_parts_of(b, s2) && r == (match dates_apart(a, b, unit) {
            Some(k) => Said::Int(k),
            None => failed(FormulaError::Num),
        })
}

/// `DATEDIF`.
pub open spec fn is_datedif(args: Seq<Given>, r: Said) -> bool {
    match num(nth(args, 0)) {
        Err(e) => r == failed(e),
        Ok(s1) => match num(nth(args, 1)) {
            Err(e) => r == failed(e),
            Ok(s2) => match txt(nth(args, 2)) {
                Err(e) => r == failed(e),
                Ok(unit) => if s2.lt(s1) {
                    r == failed(FormulaError::Num)
                } else if upper(unit) == "D"@ {
                    r == Said::Int(clamped(truncated(s2) - truncated(s1)))
                } else {
                    is_apart(r, floored(s1), floored(s2), upper(unit))
                },
            },
        },
    }
}

fn tell_apart(a: Parts, b: Parts, unit: &str) -> (r: Reply)
    requires
        -0x80_0000_0000_0000 < a.year < 0x80_0000_0000_0000,
        -0x80_0000_0000_0000 < b.year < 0x80_0000_0000_0000,
        1 <= a.month <= 12,
        1 <= b.month <= 12,
        a.day <= 31,
        b.day <= 31,
    ensures
        r@ == (match dates_apart(a, b, unit@) {
            Some(k) => Said::Int(k),
            None => failed(FormulaError::Num),
        }),
{
    let day: i64 = if b.day < a.day {
        1
    } else {
        0
    };
    if same_text(unit, "M") {
        let k: i128 = (b.year as i128 - a.year as i128) * 12 + (b.month as i128 - a.month as i128)
            - day as i128;
        Reply::Int(k as i64)
    } else if same_text(unit, "Y") {
        let less: i64 = if b.month < a.month || (b.month == a.month && b.day < a.day) {
            1
        } else {
            0
        };
        Reply::Int(b.year - a.year - less)
    } else if same_text(unit, "YM") {
        let m: i64 = b.month as i64 - a.month as i64 - day;
        Reply::Int(
            if m < 0 {
                m + 12
            } else {
                m
            },
        )
    } else {
        Reply::error(FormulaError::Num)
    }
}

/// `DATEDIF`: how far two dates are apart, in days, months or years.
pub fn datedif(args: &Vec<Arg>) -> (r: Reply)
    ensures
        is_datedif(given(args@), r@),
{
    let s1: Num = match number_at(args, 0) {
        Ok(n) => n,
        Err(e) => {
            return Reply::error(e);
        },
    };
    let s2: Num = match number_at(args, 1) {
        Ok(n) => n,
        Err(e) => {
            return Reply::error(e);
        },
    };
    let unit: String = match text_at(args, 2) {
        Ok(t) => t.as_str().to_uppercase(),
        Err(e) => {
            return Reply::error(e);
        },
    };
    if s2.less(s1) {
        return Reply::error(FormulaError::Num);
    }
    if same_text(unit.as_str(), "D") {
        return Reply::Int(clamp(whole(s2) as i128 - whole(s1) as i128));
    }
    let a: Parts = serial_to_parts(floor_of(s1));
    let b: Parts = serial_to_parts(floor_of(s2));
    proof {
        year_in_range(a, floored(s1));
        year_in_range(b, floored(s2));
    }
    tell_apart(a, b, unit.as_str())
}

/// `DAYS`: the days between two whole serial numbers.
pub open spec fn days_of(args: Seq<Given>) -> Said {
    match num(nth(args, 0)) {
        Err(e) => failed(e),
        Ok(end) => match num(nth(args, 1)) {
            Err(e) => failed(e),
            Ok(start) => Said::Int(clamped(truncated(end) - truncated(start))),
        },
    }
}

/// `DAYS`.
pub fn days_fn(args: &Vec<Arg>) -> (r: Reply)
    ensures
        r@ == days_of(given(args@)),
{
    let end: i64 = match number_at(args, 0) {
        Ok(n) => whole(n),
        Err(e) => {
            return Reply::error(e);
        },
    };
    match number_at(args, 1) {
        Ok(n) => Reply::Int(clamp(end as i128 - whole(n) as i128)),
        Err(e) => Reply::error(e),
    }
}

/// The days between two dates in a year of twelve months of thirty days: a 31st counts as a
/// 30th; in the other way of counting the second only behind a 30th or a 31st.
pub open spec fn days_360(a: Parts, b: Parts, euro: bool) -> int {
    let d1 = if a.day == 31 {
        30
    } else {
        a.day as int
    };
    let d2 = if b.day == 31 && (euro || d1 == 30) {
        30
    } else {
        b.day as int
    };
    (b.year - a.year) * 360 + (b.month - a.month) * 30 + (d2 - d1)
}

fn count_360(a: Parts, b: Parts, euro: bool) -> (r: i64)
    requires
        -0x80_0000_0000_0000 < a.year < 0x80_0000_0000_0000,
        -0x80_0000_0000_0000 < b.year < 0x80_0000_0000_0000,
        1 <= a.month <= 12,
        1 <= b.month <= 12,
        a.day <= 31,
        b.day <= 31,
    ensures
        r == clamped(days_360(a, b, euro)),
{
    let d1: i128 = if a.day == 31 {
        30
    } else {
        a.day as i128
    };
    let d2: i128 = if b.day == 31 && (euro || d1 == 30) {
        30
    } else {
        b.day as i128
    };
    let k: i128 = (b.year as i128 - a.year as i128) * 360 + (b.month as i128 - a.month as i128) * 30
        + (d2 - d1);
    clamp(k)
}

/// Whether a reply is the count of days in years of 360 days.
pub open spec fn is_days_360(r: Said, s1: int, s2: int, euro: bool) -> bool {
    exists|a: Parts, b: Parts| #[trigger]
        is_parts_of(a, s1) && #[trigger] is_parts_of(b, s2) && r == Said::Int(
            clamped(days_360(a, b, euro)),
        )
}

/// The truth value that is given at `i`, false where it is not given.
pub open spec fn truth_or_false(args: Seq<Given>, i: int) -> Result<bool, FormulaError> {
    if i < args.len() {
        truth(nth(args, i))
    } else {
        Ok(false)
    }
}

/// `DAYS360`.
pub open spec fn is_days360(args: Seq<Given>, r: Said) -> bool {
    match num(nth(args, 0)) {
        Err(e) => r == failed(e),
        Ok(s1) => match num(nth(args, 1)) {
            Err(e) => r == failed(e),
            Ok(s2) => match truth_or_false(args, 2) {
                Err(e) => r == failed(e),
                Ok(euro) => is_days_360(r, truncated(s1), truncated(s2), euro),
            },
        },
    }
}

/// `DAYS360`.
pub fn days360(args: &Vec<Arg>) -> (r: Reply)
    ensures
        is_days360(given(args@), r@),
{
    let s1: i64 = match number_at(args, 0) {
        Ok(n) => whole(n),
        Err(e) => {
            return Reply::error(e);
        },
    };
    let s2: i64 = match number_at(args, 1) {
        Ok(n) => whole(n),
        Err(e) => {
            return Reply::error(e);
        },
    };
    let euro: bool = if args.len() > 2 {
        match truth_at(args, 2) {
            Ok(b) => b,
            Err(e) => {
                return Reply::error(e);
            },
        }
    } else {
        false
    };
    let a: Parts = serial_to_parts(s1);
    let b: Parts = serial_to_parts(s2);
    proof {
        year_in_range(a, s1 as int);
        year_in_range(b, s2 as int);
    }
    Reply::Int(count_360(a, b, euro))
}

/// How many days the years from one to another have together.
pub open spec fn days_in_years(from: int, to: int) -> int {
    crate::calendar::days_before_year(to + 1) - crate::calendar::days_before_year(from)
}

/// What part of a year lies between two days, in one of five ways of counting.
pub open spec fn year_part(a: Parts, b: Parts, days: int, basis: int) -> Said {
    if basis == 0 {
        Said::Ratio(clamped(days_360(a, b, false)), 360, 1)
    } else if basis == 1 {
        Said::Ratio(clamped(days), clamped(days_in_years(a.year as int, b.year as int)), b.year - a.year + 1)
    } else if basis == 2 {
        Said::Ratio(clamped(days), 360, 1)
    } else if basis == 3 {
        Said::Ratio(clamped(days), 365, 1)
    } else if basis == 4 {
        Said::Ratio(clamped(days_360(a, b, true)), 360, 1)
    } else {
        failed(FormulaError::Num)
    }
}

/// Whether a reply is the part of a year between two days.
pub open spec fn is_year_part(r: Said, s1: int, s2: int, basis: int) -> bool {
    exists|a: Parts, b: Parts| #[trigger]
        is_parts_of(a, s1) && #[trigger] is_parts_of(b, s2) && r == year_part(a, b, s2 - s1, basis)
}

/// `YEARFRAC`: the earlier day counts first.
pub open spec fn is_year_frac(args: Seq<Given>, r: Said) -> bool {
    match num(nth(args, 0)) {
        Err(e) => r == failed(e),
        Ok(x) => match num(nth(args, 1)) {
            Err(e) => r == failed(e),
            Ok(y) => match whole_or(args, 2, 0) {
                Err(e) => r == failed(e),
                Ok(basis) => {
                    let (s1, s2) = (truncated(x), truncated(y));
                    if s1 == s2 {
                        r == Said::Int(0)
                    } else if s1 > s2 {
                        is_year_part(r, s2, s1, basis)
                    } else {
                        is_year_part(r, s1, s2, basis)
                    }
                },
            },
        },
    }
}

/// `YEARFRAC`.
pub fn year_frac(args: &Vec<Arg>) -> (r: Reply)
    ensures
        is_year_frac(given(args@), r@),
{
    let x: i64 = match number_at(args, 0) {
        Ok(n) => whole(n),
        Err(e) => {
            return Reply::error(e);
        },
    };
    let y: i64 = match number_at(args, 1) {
        Ok(n) => whole(n),
        Err(e) => {
            return Reply::error(e);
        },
    };
    let basis: i64 = match whole_at(args, 2, 0) {
        Ok(k) => k,
        Err(e) => {
            return Reply::error(e);
        },
    };
    if x == y {
        return Reply::Int(0);
    }
    let (s1, s2) = if x > y {
        (y, x)
    } else {
        (x, y)
    };
    let a: Parts = serial_to_parts(s1);
    let b: Parts = serial_to_parts(s2);
    proof {
        year_in_range(a, s1 as int);
        year_in_range(b, s2 as int);
    }
    let days: i64 = clamp(s2 as i128 - s1 as i128);
    if basis == 0 {
        Reply::Ratio(count_360(a, b, false), 360, 1)
    } else if basis == 1 {
        let from: i128 = date_to_serial(a.year, 1, 1);
        let to: i128 = date_to_serial(b.year + 1, 1, 1);
        Reply::Ratio(days, clamp(to - from), b.year - a.year + 1)
    } else if basis == 2 {
        Reply::Ratio(days, 360, 1)
    } else if basis == 3 {
        Reply::Ratio(days, 365, 1)
    } else if basis == 4 {
        Reply::Ratio(count_360(a, b, true), 360, 1)
    } else {
        Reply::error(FormulaError::Num)
    }
}

/// The weekday on which a way of numbering weeks lets them start.
pub open spec fn week_start(t: int) -> Option<int> {
    if t == 1 || t == 17 {
        Some(0)
    } else if t == 2 || t == 11 {
        Some(1)
    } else if 12 <= t <= 16 {
        Some(t - 10)
    } else {
        None
    }
}

/// The number of the week of a day in its year.
pub open spec fn week_of(year: int, serial: int, start: int) -> int {
    let jan1 = serial_of(year, 1, 1);
    (serial - jan1 + (weekday(jan1) - start + 7) % 7) / 7 + 1
}

/// The day that decides to which year a week belongs: its Thursday.
pub open spec fn thursday_of(serial: int) -> int {
    serial - (weekday(serial) + 6) % 7 + 3
}

/// Whether a reply is the number of a week counted within the year of `day`.
pub open spec fn is_week(r: Said, day: int, start: Option<int>) -> bool {
    exists|p: Parts| #[trigger]
        is_parts_of(p, day) && r == Said::Int(
            match start {
                Some(s) => week_of(p.year as int, day, s),
                None => (day - serial_of(p.year as int, 1, 1)) / 7 + 1,
            },
        )
}

/// `WEEKNUM` and, with the way of numbering 21, `ISOWEEKNUM`. The last days that can be counted
/// have no Thursday.
pub open spec fn is_week_num(args: Seq<Given>, iso: bool, r: Option<Said>) -> bool {
    match num(nth(args, 0)) {
        Err(e) => r == Some(failed(e)),
        Ok(s) => match (if iso {
            Ok(21)
        } else {
            whole_or(args, 1, 1)
        }) {
            Err(e) => r == Some(failed(e)),
            Ok(t) => if t == 21 {
                if i64::MIN <= thursday_of(truncated(s)) <= i64::MAX {
                    r matches Some(x) && is_week(x, thursday_of(truncated(s)), None)
                } else {
                    r is None
                }
            } else {
                match week_start(t) {
                    None => r == Some(failed(FormulaError::Num)),
                    Some(start) => r matches Some(x) && is_week(x, truncated(s), Some(start)),
                }
            },
        },
    }
}

/// `WEEKNUM` and `ISOWEEKNUM`, nothing for a day at the edge of what can be counted.
pub fn week_num(args: &Vec<Arg>, iso: bool) -> (r: Option<Reply>)
    ensures
        is_week_num(given(args@), iso, reply_view(r)),
{
    let s: i64 = match number_at(args, 0) {
        Ok(n) => whole(n),
        Err(e) => {
            return Some(Reply::error(e));
        },
    };
    let t: i64 = if iso {
        21
    } else {
        match whole_at(args, 1, 1) {
            Ok(k) => k,
            Err(e) => {
                return Some(Reply::error(e));
            },
        }
    };
    if t == 21 {
        let dow: i128 = ((weekday_of(s as i128) + 6) % 7) as i128;
        let thursday: i128 = s as i128 - dow + 3;
        if thursday < i64::MIN as i128 || thursday > i64::MAX as i128 {
            return None;
        }
        let day: i64 = thursday as i64;
        let p: Parts = serial_to_parts(day);
        let jan1: i128 = date_to_serial(p.year, 1, 1);
        proof {
            before_month(p.year as int, p.month as int);
        }
        let k: i128 = (day as i128 - jan1) / 7 + 1;
        let reply: Reply = Reply::Int(k as i64);
        assert(is_week(reply@, day as int, None));
        return Some(reply);
    }
    let start: i64 = if t == 1 || t == 17 {
        0
    } else if t == 2 || t == 11 {
        1
    } else if 12 <= t && t <= 16 {
        t - 10
    } else {
        return Some(Reply::error(FormulaError::Num));
    };
    let p: Parts = serial_to_parts(s);
    proof {
        before_month(p.year as int, p.month as int);
        year_in_range(p, s as int);
    }
    let jan1: i128 = date_to_serial(p.year, 1, 1);
    let first: i64 = weekday_of(jan1) as i64;
    let offset: i128 = ((first - start + 7) % 7) as i128;
    let k: i128 = (s as i128 - jan1 + offset) / 7 + 1;
    let reply: Reply = Reply::Int(k as i64);
    assert(is_week(reply@, s as int, Some(start as int)));
    Some(reply)
}

/// Whether a text ends in a two-letter mark, in capitals or not.
pub open spec fn ends_in(t: Seq<char>, a: char, b: char, c: char, d: char) -> bool {
    t.len() >= 2 && (t[t.len() - 2] == a || t[t.len() - 2] == b) && (t[t.len() - 1] == c
        || t[t.len() - 1] == d)
}

/// Whether a time's text ends in `PM`.
pub open spec fn afternoon(t: Seq<char>) -> bool {
    ends_in(t, 'P', 'p', 'M', 'm')
}

/// Whether a time's text ends in `AM`.
pub open spec fn morning(t: Seq<char>) -> bool {
    ends_in(t, 'A', 'a', 'M', 'm')
}

/// A clock's hour where the time is said to be in the morning or the afternoon.
pub open spec fn clock_hour(h: int, am: bool, pm: bool) -> int {
    if pm && h < 12 {
        h + 12
    } else if am && h == 12 {
        0
    } else {
        h
    }
}

/// The number that a piece of a time's text reads as.
pub open spec fn piece_number(s: Seq<char>) -> Option<int> {
    parse_signed(trimmed(s))
}

/// The seconds of a time's text: hours and minutes, and seconds where given, between colons, with
/// `AM` or `PM` behind them where given.
pub open spec fn seconds_of(text: Seq<char>) -> Option<int> {
    let t = trimmed(text);
    let pm = afternoon(t);
    let am = morning(t);
    let body = if pm || am {
        trimmed(t.take(t.len() - 2))
    } else {
        t
    };
    let ps = pieces(body, ':');
    if ps.len() < 2 || ps.len() > 3 {
        None
    } else {
        match (
            piece_number(ps[0]),
            piece_number(ps[1]),
            if ps.len() == 3 {
                piece_number(ps[2])
            } else {
                Some(0)
            },
        ) {
            (Some(h0), Some(mi), Some(se)) => {
                let h = clock_hour(h0, am, pm);
                if 0 <= h <= 24 && 0 <= mi <= 59 && 0 <= se <= 59 {
                    Some(h * 3600 + mi * 60 + se)
                } else {
                    None
                }
            },
            _ => None,
        }
    }
}

/// `TIMEVALUE`.
pub open spec fn time_value_of(args: Seq<Given>) -> Said {
    match txt(nth(args, 0)) {
        Err(e) => failed(e),
        Ok(t) => match seconds_of(t) {
            Some(s) => Said::Ratio(s, 86400, 1),
            None => failed(FormulaError::Value),
        },
    }
}

fn read_piece(s: &str) -> (r: Option<i64>)
    ensures
        match piece_number(s@) {
            Some(n) => r == Some(n as i64) && i64::MIN <= n <= i64::MAX,
            None => r is None,
        },
{
    let t: String = trim_text(s);
    read_signed(&chars_of(t.as_str()))
}

fn marked(chars: &Vec<char>, a: char, b: char) -> (r: bool)
    ensures
        r == ends_in(chars@, a, b, 'M', 'm'),
{
    let n: usize = chars.len();
    n >= 2 && (chars[n - 2] == a || chars[n - 2] == b) && (chars[n - 1] == 'M' || chars[n - 1]
        == 'm')
}

fn read_seconds(text: &str) -> (r: Option<i64>)
    ensures
        match seconds_of(text@) {
            Some(n) => r == Some(n as i64) && 0 <= n <= 90000,
            None => r is None,
        },
{
    let t: String = trim_text(text);
    let chars: Vec<char> = chars_of(t.as_str());
    let pm: bool = marked(&chars, 'P', 'p');
    let am: bool = marked(&chars, 'A', 'a');
    let body: String = if pm || am {
        let front: String = slice_string(&chars, 0, chars.len() - 2);
        assert(front@ =~= t@.take(t@.len() - 2));
        trim_text(front.as_str())
    } else {
        t
    };
    let ps: Vec<String> = split_text(body.as_str(), ':');
    let ghost all = texts(ps@);
    if ps.len() < 2 || ps.len() > 3 {
        return None;
    }
    assert(all[0] == ps@[0]@ && all[1] == ps@[1]@);
    let h0: i64 = match read_piece(ps[0].as_str()) {
        Some(k) => k,
        None => {
            return None;
        },
    };
    let mi: i64 = match read_piece(ps[1].as_str()) {
        Some(k) => k,
        None => {
            return None;
        },
    };
    let se: i64 = if ps.len() == 3 {
        assert(all[2] == ps@[2]@);
        match read_piece(ps[2].as_str()) {
            Some(k) => k,
            None => {
                return None;
            },
        }
    } else {
        0
    };
    let h: i64 = if pm && h0 < 12 {
        if h0 < 0 {
            if h0 < -12 {
                return None;
            }
        }
        h0 + 12
    } else if am && h0 == 12 {
        0
    } else {
        h0
    };
    if 0 <= h && h <= 24 && 0 <= mi && mi <= 59 && 0 <= se && se <= 59 {
        Some(h * 3600 + mi * 60 + se)
    } else {
        None
    }
}

/// `TIMEVALUE`.
pub fn time_value(args: &Vec<Arg>) -> (r: Reply)
    ensures
        r@ == time_value_of(given(args@)),
{
    match text_at(args, 0) {
        Err(e) => Reply::error(e),
        Ok(t) => match read_seconds(t.as_str()) {
            Some(s) => Reply::Ratio(s, 86400, 1),
            None => Reply::error(FormulaError::Value),
        },
    }
}

/// The lowest 32 bits of a number.
pub open spec fn low32(k: int) -> int {
    k % 0x1_0000_0000
}

/// The year, month and day of a date's text with hyphens or slashes: year first, of four
/// characters, or month first, with such a year last.
pub open spec fn ymd_of(s: Seq<char>, ymd_first: bool) -> Option<(int, int, int)> {
    if !s.contains('-') && !s.contains('/') {
        None
    } else {
        let ps = pieces(
            s,
            if s.contains('-') {
                '-'
            } else {
                '/'
            },
        );
        if ps.len() != 3 {
            None
        } else {
            match (parse_signed(ps[0]), parse_signed(ps[1]), parse_signed(ps[2])) {
                (Some(a), Some(b), Some(c)) => if ymd_first {
                    if ps[0].len() != 4 {
                        None
                    } else {
                        Some((a, low32(b), low32(c)))
                    }
                } else if ps[2].len() != 4 {
                    None
                } else {
                    Some((c, low32(a), low32(b)))
                },
                _ => None,
            }
        }
    }
}

fn low_bits(k: i64) -> (r: u32)
    ensures
        r == low32(k as int),
{
    let m: i128 = (k as i128 + 0x1_0000_0000_0000_0000) % 0x1_0000_0000;
    assert(m == k as int % 0x1_0000_0000);
    m as u32
}

fn holds_char(s: &str, c: char) -> (r: bool)
    ensures
        r == s@.contains(c),
{
    let chars: Vec<char> = chars_of(s);
    let mut i: usize = 0;
    while i < chars.len()
        invariant
            i <= chars.len(),
            chars@ == s@,
            forall|k: int| 0 <= k < i ==> s@[k] != c,
        decreases chars.len() - i,
    {
        if chars[i] == c {
            assert(s@[i as int] == c);
            return true;
        }
        i = i + 1;
    }
    false
}

/// The year, month and day of a date's text.
pub fn parse_ymd(s: &str, ymd_first: bool) -> (r: Option<(i64, u32, u32)>)
    ensures
        match ymd_of(s@, ymd_first) {
            Some((y, m, d)) => r == Some((y as i64, m as u32, d as u32)) && i64::MIN <= y
                <= i64::MAX && 0 <= m <= u32::MAX && 0 <= d <= u32::MAX,
            None => r is None,
        },
{
    let hyphen: bool = holds_char(s, '-');
    if !hyphen && !holds_char(s, '/') {
        return None;
    }
    let ps: Vec<String> = split_text(
        s,
        if hyphen {
            '-'
        } else {
            '/'
        },
    );
    let ghost all = texts(ps@);
    if ps.len() != 3 {
        return None;
    }
    assert(all[0] == ps@[0]@ && all[1] == ps@[1]@ && all[2] == ps@[2]@);
    let first: Vec<char> = chars_of(ps[0].as_str());
    let third: Vec<char> = chars_of(ps[2].as_str());
    let a: i64 = match read_signed(&first) {
        Some(k) => k,
        None => {
            return None;
        },
    };
    let b: i64 = match read_signed(&chars_of(ps[1].as_str())) {
        Some(k) => k,
        None => {
            return None;
        },
    };
    let c: i64 = match read_signed(&third) {
        Some(k) => k,
        None => {
            return None;
        },
    };
    if ymd_first {
        if first.len() != 4 {
            return None;
        }
        Some((a, low_bits(b), low_bits(c)))
    } else {
        if third.len() != 4 {
            return None;
        }
        Some((c, low_bits(a), low_bits(b)))
    }
}

/// `DATEVALUE`: the serial number of a date's text, year first or month first.
pub open spec fn date_value_of(args: Seq<Given>) -> Option<Said> {
    match txt(nth(args, 0)) {
        Err(e) => Some(failed(e)),
        Ok(t) => {
            let s = trimmed(t);
            let ymd = match ymd_of(s, true) {
                Some(x) => Some(x),
                None => ymd_of(s, false),
            };
            match ymd {
                None => Some(failed(FormulaError::Value)),
                Some((y, m, d)) => if countable(y * 12 + m - 1) {
                    Some(Said::Int(clamped(overflowing(y, m, d))))
                } else {
                    None
                },
            }
        },
    }
}

/// `DATEVALUE`, nothing where the months cannot be counted.
pub fn date_value(args: &Vec<Arg>) -> (r: Option<Reply>)
    ensures
        reply_view(r) == date_value_of(given(args@)),
{
    let t: String = match text_at(args, 0) {
        Ok(t) => t,
        Err(e) => {
            return Some(Reply::error(e));
        },
    };
    let s: String = trim_text(t.as_str());
    let ymd: Option<(i64, u32, u32)> = match parse_ymd(s.as_str(), true) {
        Some(x) => Some(x),
        None => parse_ymd(s.as_str(), false),
    };
    match ymd {
        None => Some(Reply::error(FormulaError::Value)),
        Some((y, m, d)) => match date_overflow(y, m as i64, d as i64) {
            Some(k) => Some(Reply::Int(k)),
            None => None,
        },
    }
}

/// The weekend where none is given: Sunday and Saturday.
pub fn default_weekend() -> (r: Vec<u32>)
    ensures
        r@ == seq![0u32, 6u32],
{
    let mut w: Vec<u32> = Vec::new();
    w.push(0);
    w.push(6);
    w
}

/// The weekdays that a text of seven zeros and ones, from Monday on, marks.
pub open spec fn marked_days(s: Seq<char>, n: int) -> Seq<u32>
    decreases n,
{
    if n <= 0 {
        Seq::empty()
    } else if s[n - 1] == '1' {
        marked_days(s, n - 1).push((n % 7) as u32)
    } else {
        marked_days(s, n - 1)
    }
}

/// Whether a text marks weekdays.
pub open spec fn is_day_marks(s: Seq<char>) -> bool {
    s.len() == 7 && forall|i: int| 0 <= i < 7 ==> #[trigger] s[i] == '0' || s[i] == '1'
}

/// The weekdays of a weekend given by a number: two days that follow each other, or one.
pub open spec fn weekend_by_code(n: int) -> Option<Seq<u32>> {
    if n == 1 {
        Some(seq![6u32, 0u32])
    } else if 2 <= n <= 7 {
        Some(seq![(n - 2) as u32, (n - 1) as u32])
    } else if 11 <= n <= 17 {
        Some(seq![(n - 11) as u32])
    } else {
        None
    }
}

/// The weekdays of a weekend.
pub open spec fn weekend_of(v: Read) -> Result<Seq<u32>, FormulaError> {
    match v.value {
        FValue::Text(s) => if is_day_marks(s) {
            Ok(marked_days(s, 7))
        } else {
            weekend_by_number(v)
        },
        _ => weekend_by_number(v),
    }
}

/// The weekdays of a weekend given by a number.
pub open spec fn weekend_by_number(v: Read) -> Result<Seq<u32>, FormulaError> {
    match num(v) {
        Err(e) => Err(e),
        Ok(n) => match weekend_by_code(truncated(n)) {
            Some(w) => Ok(w),
            None => Err(FormulaError::Num),
        },
    }
}

/// Days or an error as a mathematical value.
pub open spec fn days_view(r: Result<Vec<u32>, FormulaError>) -> Result<Seq<u32>, FormulaError> {
    match r {
        Ok(v) => Ok(v@),
        Err(e) => Err(e),
    }
}

fn marks_days(chars: &Vec<char>) -> (r: bool)
    ensures
        r == is_day_marks(chars@),
{
    if chars.len() != 7 {
        return false;
    }
    let mut i: usize = 0;
    while i < 7
        invariant
            i <= 7,
            chars@.len() == 7,
            chars.len() == 7,
            forall|k: int| 0 <= k < i ==> #[trigger] chars@[k] == '0' || chars@[k] == '1',
        decreases 7 - i,
    {
        if chars[i] != '0' && chars[i] != '1' {
            assert(!(chars@[i as int] == '0' || chars@[i as int] == '1'));
            return false;
        }
        i = i + 1;
    }
    true
}

/// The weekdays of a weekend: by a text that marks days, or by a number.
pub fn weekend_set(weekend: &Reading) -> (r: Result<Vec<u32>, FormulaError>)
    ensures
        days_view(r) == weekend_of(weekend@),
{
    let mut w: Vec<u32> = Vec::new();
    if let FormulaValue::Text(s) = &weekend.value {
        let chars: Vec<char> = chars_of(s.as_str());
        if marks_days(&chars) {
            let mut i: usize = 0;
            assert(w@ =~= marked_days(s@, 0));
            while i < 7
                invariant
                    i <= 7,
                    chars@ == s@,
                    chars.len() == 7,
                    w@ == marked_days(s@, i as int),
                decreases 7 - i,
            {
                if chars[i] == '1' {
                    w.push(((i + 1) % 7) as u32);
                }
                i = i + 1;
            }
            return Ok(w);
        }
    }
    let n: i64 = match weekend.number() {
        Ok(n) => whole(n),
        Err(e) => {
            return Err(e);
        },
    };
    if n == 1 {
        w.push(6);
        w.push(0);
    } else if 2 <= n && n <= 7 {
        w.push((n - 2) as u32);
        w.push((n - 1) as u32);
    } else if 11 <= n && n <= 17 {
        w.push((n - 11) as u32);
    } else {
        return Err(FormulaError::Num);
    }
    assert(w@ =~= weekend_by_code(n as int)->0);
    Ok(w)
}

/// The days of holidays: the whole parts of the values that are numbers.
pub open spec fn holidays_in(vs: Seq<Read>) -> Seq<i64>
    decreases vs.len(),
{
    if vs.len() == 0 {
        Seq::empty()
    } else {
        let front = holidays_in(vs.drop_last());
        match num(vs.last()) {
            Ok(n) => front.push(truncated(n) as i64),
            Err(_) => front,
        }
    }
}

/// The days of holidays in an argument.
pub fn collect_holidays(args: &Vec<Arg>, i: usize) -> (r: Vec<i64>)
    ensures
        r@ == holidays_in(all_at(given(args@), i as int, Seq::empty())),
{
    let vs: Vec<Reading> = values_at(args, i);
    let ghost all = read_seq(vs@);
    let mut out: Vec<i64> = Vec::new();
    let mut k: usize = 0;
    assert(out@ =~= holidays_in(all.take(0)));
    while k < vs.len()
        invariant
            k <= vs.len(),
            all == read_seq(vs@),
            out@ == holidays_in(all.take(k as int)),
        decreases vs.len() - k,
    {
        assert(all.take(k + 1).drop_last() =~= all.take(k as int));
        assert(all.take(k + 1).last() == vs@[k as int]@);
        if let Ok(n) = vs[k].number() {
            out.push(whole(n));
        }
        k = k + 1;
    }
    assert(all.take(k as int) =~= all);
    out
}

/// Whether a day is neither on a weekend nor a holiday.
pub open spec fn is_workday(d: int, weekend: Seq<u32>, holidays: Seq<i64>) -> bool {
    !weekend.contains(weekday(d) as u32) && !holidays.contains(d as i64)
}

/// How many workdays lie between two days, the first included.
pub open spec fn workdays(from: int, to: int, weekend: Seq<u32>, holidays: Seq<i64>) -> nat
    decreases to - from,
{
    if to <= from {
        0
    } else {
        workdays(from, to - 1, weekend, holidays) + (if is_workday(to - 1, weekend, holidays) {
            1nat
        } else {
            0
        })
    }
}

fn has_day(list: &Vec<u32>, d: u32) -> (r: bool)
    ensures
        r == list@.contains(d),
{
    let mut i: usize = 0;
    while i < list.len()
        invariant
            i <= list.len(),
            forall|k: int| 0 <= k < i ==> list@[k] != d,
        decreases list.len() - i,
    {
        if list[i] == d {
            assert(list@[i as int] == d);
            return true;
        }
        i = i + 1;
    }
    false
}

fn has_holiday(list: &Vec<i64>, d: i64) -> (r: bool)
    ensures
        r == list@.contains(d),
{
    let mut i: usize = 0;
    while i < list.len()
        invariant
            i <= list.len(),
            forall|k: int| 0 <= k < i ==> list@[k] != d,
        decreases list.len() - i,
    {
        if list[i] == d {
            assert(list@[i as int] == d);
            return true;
        }
        i = i + 1;
    }
    false
}

fn workday(d: i64, weekend: &Vec<u32>, holidays: &Vec<i64>) -> (r: bool)
    ensures
        r == is_workday(d as int, weekend@, holidays@),
{
    !has_day(weekend, weekday_of(d as i128)) && !has_holiday(holidays, d)
}

/// The workdays from one day to another, both included, negative where the second is earlier.
pub open spec fn span_of_workdays(a: int, b: int, weekend: Seq<u32>, holidays: Seq<i64>) -> int {
    if a <= b {
        workdays(a, b + 1, weekend, holidays) as int
    } else {
        -(workdays(b, a + 1, weekend, holidays) as int)
    }
}

fn count_workdays(a: i64, b: i64, weekend: &Vec<u32>, holidays: &Vec<i64>) -> (r: i64)
    ensures
        r == clamped(span_of_workdays(a as int, b as int, weekend@, holidays@)),
{
    let start: i64 = if a <= b {
        a
    } else {
        b
    };
    let end: i64 = if a <= b {
        b
    } else {
        a
    };
    let mut count: i128 = 0;
    let mut d: i128 = start as i128;
    while d <= end as i128
        invariant
            start <= d <= end + 1,
            0 <= count <= d - start,
            count == workdays(start as int, d as int, weekend@, holidays@),
        decreases end + 1 - d,
    {
        if workday(d as i64, weekend, holidays) {
            count = count + 1;
        }
        d = d + 1;
    }
    clamp(
        if a <= b {
            count
        } else {
            -count
        },
    )
}

/// `NETWORKDAYS`: without Saturdays, Sundays and holidays.
pub open spec fn network_days_of(args: Seq<Given>) -> Said {
    match num(nth(args, 0)) {
        Err(e) => failed(e),
        Ok(a) => match num(nth(args, 1)) {
            Err(e) => failed(e),
            Ok(b) => Said::Int(
                clamped(
                    span_of_workdays(
                        truncated(a),
                        truncated(b),
                        seq![0u32, 6u32],
                        holidays_in(all_at(args, 2, Seq::empty())),
                    ),
                ),
            ),
        },
    }
}

/// `NETWORKDAYS`.
pub fn network_days(args: &Vec<Arg>) -> (r: Reply)
    ensures
        r@ == network_days_of(given(args@)),
{
    let a: i64 = match number_at(args, 0) {
        Ok(n) => whole(n),
        Err(e) => {
            return Reply::error(e);
        },
    };
    let b: i64 = match number_at(args, 1) {
        Ok(n) => whole(n),
        Err(e) => {
            return Reply::error(e);
        },
    };
    let holidays: Vec<i64> = collect_holidays(args, 2);
    Reply::Int(count_workdays(a, b, &default_weekend(), &holidays))
}

/// The weekend that the argument at `i` gives.
pub open spec fn weekend_arg(args: Seq<Given>, i: int) -> Result<Seq<u32>, FormulaError> {
    if i < args.len() {
        weekend_of(nth(args, i))
    } else {
        Ok(seq![0u32, 6u32])
    }
}

fn weekend_at(args: &Vec<Arg>, i: usize) -> (r: Result<Vec<u32>, FormulaError>)
    ensures
        days_view(r) == weekend_arg(given(args@), i as int),
{
    if i < args.len() {
        weekend_set(&arg_at(args, i))
    } else {
        Ok(default_weekend())
    }
}

/// `NETWORKDAYS.INTL`: with a weekend of one's own.
pub open spec fn network_days_intl_of(args: Seq<Given>) -> Said {
    match num(nth(args, 0)) {
        Err(e) => failed(e),
        Ok(a) => match num(nth(args, 1)) {
            Err(e) => failed(e),
            Ok(b) => match weekend_arg(args, 2) {
                Err(e) => failed(e),
                Ok(w) => Said::Int(
                    clamped(
                        span_of_workdays(
                            truncated(a),
                            truncated(b),
                            w,
                            holidays_in(all_at(args, 3, Seq::empty())),
                        ),
                    ),
                ),
            },
        },
    }
}

/// `NETWORKDAYS.INTL`.
pub fn network_days_intl(args: &Vec<Arg>) -> (r: Reply)
    ensures
        r@ == network_days_intl_of(given(args@)),
{
    let a: i64 = match number_at(args, 0) {
        Ok(n) => whole(n),
        Err(e) => {
            return Reply::error(e);
        },
    };
    let b: i64 = match number_at(args, 1) {
        Ok(n) => whole(n),
        Err(e) => {
            return Reply::error(e);
        },
    };
    let weekend: Vec<u32> = match weekend_at(args, 2) {
        Ok(w) => w,
        Err(e) => {
            return Reply::error(e);
        },
    };
    let holidays: Vec<i64> = collect_holidays(args, 3);
    Reply::Int(count_workdays(a, b, &weekend, &holidays))
}

/// Whether a day is the workday that lies `n` workdays after another, or before it where `n` is
/// negative.
pub open spec fn lies_after(r: int, s: int, n: int, weekend: Seq<u32>, holidays: Seq<i64>) -> bool {
    if n == 0 {
        r == s
    } else if n > 0 {
        r > s && is_workday(r, weekend, holidays) && workdays(s + 1, r + 1, weekend, holidays) == n
    } else {
        r < s && is_workday(r, weekend, holidays) && workdays(r, s, weekend, holidays) == -n
    }
}

/// Whether too few workdays are left to count in that direction.
pub open spec fn runs_out(s: int, n: int, weekend: Seq<u32>, holidays: Seq<i64>) -> bool {
    if n > 0 {
        workdays(s + 1, i64::MAX + 1, weekend, holidays) < n
    } else {
        n < 0 && workdays(i64::MIN as int, s, weekend, holidays) < -n
    }
}

/// What `WORKDAY` and `WORKDAY.INTL` say, with the weekend and the place of the holidays given.
pub open spec fn is_workday_reply(
    args: Seq<Given>,
    weekend: Seq<u32>,
    hol: int,
    r: Option<Said>,
) -> bool {
    match num(nth(args, 0)) {
        Err(e) => r == Some(failed(e)),
        Ok(s) => match num(nth(args, 1)) {
            Err(e) => r == Some(failed(e)),
            Ok(days) => {
                let holidays = holidays_in(all_at(args, hol, Seq::empty()));
                if weekend.len() >= 7 {
                    r == Some(failed(FormulaError::Num))
                } else {
                    match r {
                        Some(x) => x matches Said::Int(d) && lies_after(
                            d,
                            truncated(s),
                            truncated(days),
                            weekend,
                            holidays,
                        ),
                        None => runs_out(truncated(s), truncated(days), weekend, holidays),
                    }
                }
            },
        },
    }
}

proof fn front_workday(from: int, to: int, weekend: Seq<u32>, holidays: Seq<i64>)
    requires
        from < to,
    ensures
        workdays(from, to, weekend, holidays) == workdays(from + 1, to, weekend, holidays) + (
        if is_workday(from, weekend, holidays) {
            1nat
        } else {
            0
        }),
    decreases to - from,
{
    reveal_with_fuel(workdays, 2);
    if from + 1 < to {
        front_workday(from, to - 1, weekend, holidays);
    }
}

fn step_workdays(s: i64, n: i64, weekend: &Vec<u32>, holidays: &Vec<i64>) -> (r: Option<i64>)
    ensures
        match r {
            Some(d) => lies_after(d as int, s as int, n as int, weekend@, holidays@),
            None => runs_out(s as int, n as int, weekend@, holidays@),
        },
{
    let mut d: i64 = s;
    if n >= 0 {
        let mut left: i64 = n;
        while left > 0
            invariant
                0 <= left <= n,
                s <= d,
                workdays(s + 1, d + 1, weekend@, holidays@) == n - left,
                n == 0 ==> d == s,
                left < n ==> d > s,
                left == 0 && n > 0 ==> is_workday(d as int, weekend@, holidays@),
            decreases i64::MAX - d,
        {
            if d == i64::MAX {
                return None;
            }
            d = d + 1;
            if workday(d, weekend, holidays) {
                left = left - 1;
            }
        }
    } else {
        let mut left: i64 = n;
        while left < 0
            invariant
                n <= left <= 0,
                n < 0,
                d <= s,
                workdays(d as int, s as int, weekend@, holidays@) == left - n,
                left > n ==> d < s,
                left == 0 ==> is_workday(d as int, weekend@, holidays@),
            decreases d - i64::MIN,
        {
            if d == i64::MIN {
                return None;
            }
            d = d - 1;
            proof {
                front_workday(d as int, s as int, weekend@, holidays@);
            }
            if workday(d, weekend, holidays) {
                left = left + 1;
            }
        }
    }
    Some(d)
}

/// `WORKDAY` and `WORKDAY.INTL` with the weekend given: nothing where too few days are left to
/// count.
pub fn workday_core(args: &Vec<Arg>, weekend: &Vec<u32>, hol: usize) -> (r: Option<Reply>)
    ensures
        is_workday_reply(given(args@), weekend@, hol as int, reply_view(r)),
{
    let s: i64 = match number_at(args, 0) {
        Ok(n) => whole(n),
        Err(e) => {
            return Some(Reply::error(e));
        },
    };
    let days: i64 = match number_at(args, 1) {
        Ok(n) => whole(n),
        Err(e) => {
            return Some(Reply::error(e));
        },
    };
    if weekend.len() >= 7 {
        return Some(Reply::error(FormulaError::Num));
    }
    let holidays: Vec<i64> = collect_holidays(args, hol);
    match step_workdays(s, days, weekend, &holidays) {
        Some(d) => Some(Reply::Int(d)),
        None => None,
    }
}

/// `WORKDAY`.
pub fn workday_fn(args: &Vec<Arg>) -> (r: Option<Reply>)
    ensures
        is_workday_reply(given(args@), seq![0u32, 6u32], 2, reply_view(r)),
{
    workday_core(args, &default_weekend(), 2)
}

/// Whether `WORKDAY.INTL` may say this.
pub open spec fn is_workday_intl(args: Seq<Given>, r: Option<Said>) -> bool {
    match weekend_arg(args, 2) {
        Err(e) => r == Some(failed(e)),
        Ok(w) => is_workday_reply(args, w, 3, r),
    }
}

/// `WORKDAY.INTL`: the weekend is read before the dates.
pub fn workday_intl(args: &Vec<Arg>) -> (r: Option<Reply>)
    ensures
        is_workday_intl(given(args@), reply_view(r)),
{
    match weekend_at(args, 2) {
        Err(e) => Some(Reply::error(e)),
        Ok(w) => workday_core(args, &w, 3),
    }
}

} // verus!
