//! What holds of functions on dates: days follow each other as in the calendar, dates and serial
//! numbers give each other back, and spans of days add up.
use crate::calendar::{
    dates_are_unique, days_before_month, days_before_year, four_hundreds, hundreds, is_parts_of,
    leap, month_days, quarters, serial_of, weekday, Parts,
};
use crate::date_fn::{
    clamped, date_of, dates_apart, days_360, days_of, holidays_in, is_date_part, is_datedif,
    is_edate, is_months_later, is_week_num, lies_after, marked_days, network_days_of, overflowing,
    span_of_workdays, time_of, week_of, week_start, weekday_said, weekend_by_code, workdays,
    DatePart,
};
use crate::reading::{
    all_at, all_of, failed, floored, is_whole, nth, num, truncated, Given, Read, Said,
};
use crate::text::upper;
use crate::text_law::text_given;
use crate::value::{FValue, FormulaError};
use vstd::prelude::*;

verus! {

/// Whether a year has a day more: each fourth one, but of the centuries only each fourth.
pub open spec fn is_long(y: int) -> bool {
    if y % 100 == 0 {
        y % 400 == 0
    } else {
        y % 4 == 0
    }
}

/// How many days a month has.
pub open spec fn length_of(y: int, m: int) -> int {
    if m == 2 {
        if is_long(y) {
            29
        } else {
            28
        }
    } else if m == 4 || m == 6 || m == 9 || m == 11 {
        30
    } else {
        31
    }
}

/// Whether a year, a month and a day are a date.
pub open spec fn is_calendar_date(y: int, m: int, d: int) -> bool {
    1 <= m <= 12 && 1 <= d <= length_of(y, m)
}

proof fn lengths_agree(y: int, m: int)
    ensures
        month_days(y, m) == length_of(y, m),
{
    assert(leap(y) == is_long(y));
}

/// Each day has the serial number behind that of the day before it: within a month, from the last
/// day of a month to the first of the next, and from one year to the next. The numbers start with
/// the thirtieth of December 1899.
pub proof fn days_follow_each_other(y: int, m: int, d: int)
    requires
        is_calendar_date(y, m, d),
    ensures
        serial_of(1899, 12, 30) == 0,
        d < length_of(y, m) ==> serial_of(y, m, d + 1) == serial_of(y, m, d) + 1,
        d == length_of(y, m) && m < 12 ==> serial_of(y, m + 1, 1) == serial_of(y, m, d) + 1,
        m == 12 && d == 31 ==> serial_of(y + 1, 1, 1) == serial_of(y, m, d) + 1,
{
    lengths_agree(y, m);
    reveal_with_fuel(days_before_month, 13);
    if m == 12 && d == 31 {
        year_goes_on(y);
        lengths_agree(y, 2);
    }
}

proof fn year_goes_on(y: int)
    ensures
        days_before_year(y + 1) - days_before_year(y) == (if is_long(y) {
            366int
        } else {
            365
        }),
{
    quarters(y);
    hundreds(y);
    four_hundreds(y);
}

/// Whether an argument is a whole number.
pub open spec fn whole_given(args: Seq<Given>, i: int, k: int) -> bool {
    0 <= i < args.len() && i64::MIN <= k <= i64::MAX && (args[i] matches Given::One(r) && (
    r.value matches FValue::Number(n) && is_whole(n, k)))
}

proof fn whole_read(args: Seq<Given>, i: int, k: int)
    requires
        whole_given(args, i, k),
    ensures
        num(nth(args, i)) is Ok,
        truncated(num(nth(args, i))->Ok_0) == k,
        floored(num(nth(args, i))->Ok_0) == k,
{
}

proof fn parts_are(p: Parts, y: int, m: int, d: int)
    requires
        is_calendar_date(y, m, d),
        is_parts_of(p, serial_of(y, m, d)),
    ensures
        p.year == y,
        p.month == m,
        p.day == d,
{
    lengths_agree(y, m);
    dates_are_unique(p.year as int, p.month as int, p.day as int, y, m, d);
}

/// `DATE` gives the serial number of a date, and `YEAR`, `MONTH` and `DAY` give the date back.
pub proof fn dates_come_back(
    args: Seq<Given>,
    back: Seq<Given>,
    y: int,
    m: int,
    d: int,
    r: Said,
)
    requires
        is_calendar_date(y, m, d),
        1900 <= y <= 9999,
        whole_given(args, 0, y),
        whole_given(args, 1, m),
        whole_given(args, 2, d),
    ensures
        date_of(args) == Some(Said::Int(serial_of(y, m, d))),
        whole_given(back, 0, serial_of(y, m, d)) ==> {
            &&& is_date_part(back, DatePart::Year, r) ==> r == Said::Int(y)
            &&& is_date_part(back, DatePart::Month, r) ==> r == Said::Int(m)
            &&& is_date_part(back, DatePart::Day, r) ==> r == Said::Int(d)
        },
{
    whole_read(args, 0, y);
    whole_read(args, 1, m);
    whole_read(args, 2, d);
    let months = y * 12 + m - 1;
    assert(months / 12 == y && months % 12 == m - 1);
    serial_is_small(y, m, d);
    if whole_given(back, 0, serial_of(y, m, d)) {
        whole_read(back, 0, serial_of(y, m, d));
        let s = num(nth(back, 0))->Ok_0;
        crate::reading_law::whole_is_positive(s, serial_of(y, m, d));
        assert(!s.lt(crate::value::zero()));
        assert forall|p: Parts| #[trigger] is_parts_of(p, serial_of(y, m, d)) implies p.year == y
            && p.month == m && p.day == d by {
            parts_are(p, y, m, d);
        }
    }
}

proof fn serial_is_small(y: int, m: int, d: int)
    requires
        is_calendar_date(y, m, d),
        1900 <= y <= 9999,
    ensures
        0 < serial_of(y, m, d) < 3_000_000,
{
    reveal_with_fuel(days_before_month, 13);
    lengths_agree(y, m);
}

proof fn serial_is_within(y: int, m: int, d: int)
    requires
        -100000 <= y <= 100000,
        1 <= m <= 12,
        1 <= d <= 31,
    ensures
        clamped(serial_of(y, m, d)) == serial_of(y, m, d),
{
    reveal_with_fuel(days_before_month, 13);
}

/// `DATE` carries months over into years and days over into months: a thirteenth month is the
/// first of the next year, and the day behind a month's last is the first of the next month.
pub proof fn dates_carry_over(y: int, m: int, d: int)
    requires
        1 <= m <= 12,
    ensures
        overflowing(y, m, d) == serial_of(y, m, d),
        overflowing(y, m + 12, d) == serial_of(y + 1, m, d),
        overflowing(y, m - 12, d) == serial_of(y - 1, m, d),
        overflowing(y, m, d + 1) == overflowing(y, m, d) + 1,
        m < 12 ==> overflowing(y, m, length_of(y, m) + d) == overflowing(y, m + 1, d),
        m == 12 ==> overflowing(y, m, 31 + d) == overflowing(y + 1, 1, d),
{
    let t = y * 12 + m - 1;
    assert(t / 12 == y && t % 12 == m - 1);
    let u = y * 12 + (m + 12) - 1;
    assert(u / 12 == y + 1 && u % 12 == m - 1);
    let v = y * 12 + (m - 12) - 1;
    assert(v / 12 == y - 1 && v % 12 == m - 1);
    lengths_agree(y, m);
    lengths_agree(y, 2);
    reveal_with_fuel(days_before_month, 13);
    if m < 12 {
        let w = y * 12 + (m + 1) - 1;
        assert(w / 12 == y && w % 12 == m);
    } else {
        let w = (y + 1) * 12 + 1 - 1;
        assert(w / 12 == y + 1 && w % 12 == 0);
        year_goes_on(y);
    }
}

/// `WEEKDAY` counts on from day to day and starts again after seven. The day with the serial number
/// one was a Sunday. Counted from Monday, Sunday comes last.
pub proof fn weekdays_follow_each_other(
    args: Seq<Given>,
    next: Seq<Given>,
    k: int,
    w: int,
    v: int,
)
    requires
        whole_given(args, 0, k),
        whole_given(next, 0, k + 1),
        args.len() == 1 && next.len() == 1,
        weekday_said(args) == Said::Int(w),
        weekday_said(next) == Said::Int(v),
    ensures
        1 <= w <= 7,
        v == (if w == 7 {
            1
        } else {
            w + 1
        }),
        k == 1 ==> w == 1,
{
    whole_read(args, 0, k);
    whole_read(next, 0, k + 1);
}

/// The ways of counting weekdays agree: where weeks start on Monday a Sunday is the seventh day, and
/// where Monday is 0, the sixth.
pub proof fn weekday_counts_agree(args: Seq<Given>, other: Seq<Given>, k: int, w: int)
    requires
        whole_given(args, 0, k),
        args.len() == 1,
        whole_given(other, 0, k),
        weekday_said(args) == Said::Int(w),
    ensures
        whole_given(other, 1, 1) ==> weekday_said(other) == Said::Int(w),
        whole_given(other, 1, 2) ==> weekday_said(other) == Said::Int(
            if w == 1 {
                7
            } else {
                w - 1
            },
        ),
        whole_given(other, 1, 3) ==> weekday_said(other) == Said::Int(
            if w == 1 {
                6
            } else {
                w - 2
            },
        ),
{
    whole_read(args, 0, k);
    let day = weekday(k);
    assert((day + 6) % 7 == if day == 0 {
        6
    } else {
        day - 1
    });
    whole_read(other, 0, k);
    if whole_given(other, 1, 1) {
        whole_read(other, 1, 1);
    }
    if whole_given(other, 1, 2) {
        whole_read(other, 1, 2);
    }
    if whole_given(other, 1, 3) {
        whole_read(other, 1, 3);
    }
}

/// `EDATE` gives the same day of the month that lies so many months later, or its last day where
/// the month has no such day; `EOMONTH` gives its last day.
pub proof fn months_go_on(
    args: Seq<Given>,
    y: int,
    m: int,
    d: int,
    k: int,
    y2: int,
    m2: int,
    r: Said,
)
    requires
        is_calendar_date(y, m, d),
        whole_given(args, 0, serial_of(y, m, d)),
        whole_given(args, 1, k),
        1 <= m2 <= 12,
        y2 * 12 + m2 == y * 12 + m + k,
        -100000 <= y2 <= 100000,
    ensures
        is_edate(args, false, r) ==> r == Said::Int(
            serial_of(
                y2,
                m2,
                if d <= length_of(y2, m2) {
                    d
                } else {
                    length_of(y2, m2)
                },
            ),
        ),
        is_edate(args, true, r) ==> r == Said::Int(serial_of(y2, m2, length_of(y2, m2))),
{
    whole_read(args, 0, serial_of(y, m, d));
    whole_read(args, 1, k);
    serial_is_within(y2, m2, length_of(y2, m2));
    serial_is_within(y2, m2, d);
    if is_edate(args, false, r) {
        later_is(y, m, d, k, y2, m2, false, r);
    }
    if is_edate(args, true, r) {
        later_is(y, m, d, k, y2, m2, true, r);
    }
}

proof fn later_is(y: int, m: int, d: int, k: int, y2: int, m2: int, end: bool, r: Said)
    requires
        is_calendar_date(y, m, d),
        1 <= m2 <= 12,
        y2 * 12 + m2 == y * 12 + m + k,
        is_months_later(r, serial_of(y, m, d), k, end),
    ensures
        r == Said::Int(
            clamped(
                serial_of(
                    y2,
                    m2,
                    if !end && d <= length_of(y2, m2) {
                        d
                    } else {
                        length_of(y2, m2)
                    },
                ),
            ),
        ),
{
    lengths_agree(y2, m2);
    let total = y * 12 + (m - 1) + k;
    assert(total == y2 * 12 + (m2 - 1));
    assert(total / 12 == y2 && total % 12 == m2 - 1);
    assert forall|p: Parts| #[trigger] is_parts_of(p, serial_of(y, m, d)) implies p.year == y
        && p.month == m && p.day == d by {
        parts_are(p, y, m, d);
    }
}

/// Whether one date, so many months on, is not behind another: by its month, and in the same month
/// by its day.
pub open spec fn reaches(a: Parts, months: int, b: Parts) -> bool {
    let x = a.year * 12 + a.month + months;
    let z = b.year * 12 + b.month;
    x < z || x == z && a.day <= b.day
}

/// `DATEDIF` counts the whole months, or years, from one date to another: as many as can be added to
/// the first without going past the second. Months behind whole years are what is left of the
/// months.
pub proof fn whole_months_are_counted(a: Parts, b: Parts)
    requires
        1 <= a.month <= 12,
        1 <= b.month <= 12,
    ensures
        dates_apart(a, b, seq!['M']) matches Some(k) && reaches(a, k, b) && !reaches(a, k + 1, b),
        dates_apart(a, b, seq!['Y']) matches Some(k) && reaches(a, 12 * k, b) && !reaches(
            a,
            12 * (k + 1),
            b,
        ),
        reaches(a, 0, b) ==> dates_apart(a, b, seq!['Y', 'M']) == Some(
            dates_apart(a, b, seq!['M'])->0 % 12,
        ),
{
    reveal_strlit("M");
    reveal_strlit("Y");
    reveal_strlit("YM");
    assert("M"@ =~= seq!['M']);
    assert("Y"@ =~= seq!['Y']);
    assert("YM"@ =~= seq!['Y', 'M']);
    assert(seq!['M'] != seq!['Y']) by {
        assert(seq!['M'][0] != seq!['Y'][0]);
    }
    assert(seq!['Y', 'M'].len() == 2);
    assert(seq!['Y'].len() == 1 && seq!['M'].len() == 1);
}

/// `DAYS` and `DATEDIF` in days count the days between two serial numbers.
pub proof fn days_lie_between(args: Seq<Given>, a: int, b: int)
    requires
        whole_given(args, 0, b),
        whole_given(args, 1, a),
        i64::MIN <= b - a <= i64::MAX,
    ensures
        days_of(args) == Said::Int(b - a),
{
    whole_read(args, 0, b);
    whole_read(args, 1, a);
}

/// In years of twelve months of thirty days a month more is thirty days more and a year more 360;
/// the thirty-first of the first date's month counts as the thirtieth.
pub proof fn months_have_thirty_days(a: Parts, b: Parts, c: Parts, euro: bool)
    requires
        1 <= a.day <= 30,
        1 <= b.day <= 30,
        c.year == a.year,
        c.month == a.month,
        c.day == 31,
    ensures
        days_360(a, b, euro) == (b.year - a.year) * 360 + (b.month - a.month) * 30 + (b.day
            - a.day),
        a.day == 30 ==> days_360(c, b, euro) == days_360(a, b, euro),
        days_360(b, c, true) == (c.year - b.year) * 360 + (c.month - b.month) * 30 + (30 - b.day),
        b.day < 30 ==> days_360(b, c, false) == (c.year - b.year) * 360 + (c.month - b.month) * 30
            + (31 - b.day),
        b.day == 30 ==> days_360(b, c, false) == (c.year - b.year) * 360 + (c.month - b.month) * 30,
{
}

proof fn workdays_join(a: int, b: int, c: int, weekend: Seq<u32>, holidays: Seq<i64>)
    requires
        a <= b <= c,
    ensures
        workdays(a, c, weekend, holidays) == workdays(a, b, weekend, holidays) + workdays(
            b,
            c,
            weekend,
            holidays,
        ),
    decreases c - b,
{
    if b < c {
        workdays_join(a, b, c - 1, weekend, holidays);
    }
}

/// Whether a day is one from Monday to Friday.
pub open spec fn is_weekday(k: int) -> bool {
    // The second day of the count was a Monday.
    (k - 2) % 7 < 5
}

/// Whether some of the values are a day's serial number.
pub open spec fn is_listed(vs: Seq<Read>, k: int) -> bool {
    exists|i: int| 0 <= i < vs.len() && num((#[trigger] vs[i])) is Ok && truncated(num(vs[i])->Ok_0) == k
}

proof fn holidays_are(vs: Seq<Read>, k: int)
    requires
        i64::MIN <= k <= i64::MAX,
    ensures
        holidays_in(vs).contains(k as i64) == is_listed(vs, k),
    decreases vs.len(),
{
    if vs.len() > 0 {
        let fore = vs.drop_last();
        let h = holidays_in(fore);
        holidays_are(fore, k);
        if is_listed(fore, k) {
            let i = choose|i: int|
                0 <= i < fore.len() && num((#[trigger] fore[i])) is Ok && truncated(
                    num(fore[i])->Ok_0,
                ) == k;
            assert(vs[i] == fore[i]);
        }
        if is_listed(vs, k) && !is_listed(fore, k) {
            let i = choose|i: int|
                0 <= i < vs.len() && num((#[trigger] vs[i])) is Ok && truncated(num(vs[i])->Ok_0)
                    == k;
            if i < fore.len() {
                assert(fore[i] == vs[i]);
            }
        }
        match num(vs.last()) {
            Ok(n) => {
                let more = h.push(truncated(n) as i64);
                if truncated(n) == k {
                    assert(more[h.len() as int] == k as i64);
                    assert(vs[vs.len() - 1] == vs.last());
                }
                if h.contains(k as i64) {
                    let j = choose|j: int| 0 <= j < h.len() && h[j] == k as i64;
                    assert(more[j] == k as i64);
                }
                if more.contains(k as i64) && truncated(n) != k {
                    let j = choose|j: int| 0 <= j < more.len() && more[j] == k as i64;
                    if j < h.len() {
                        assert(h[j] == k as i64);
                    } else {
                        assert(truncated(n) as i64 == k as i64);
                    }
                }
            },
            Err(_) => {},
        }
    }
}

/// `NETWORKDAYS` from a day to itself is one where the day is one from Monday to Friday and no
/// holiday, and else none.
pub proof fn single_days_are_counted(args: Seq<Given>, a: int, holidays: Seq<Read>)
    requires
        whole_given(args, 0, a),
        whole_given(args, 1, a),
        args.len() == 2 && holidays.len() == 0 || args.len() == 3 && holidays == all_of(args[2]),
    ensures
        network_days_of(args) == Said::Int(
            if is_weekday(a) && !is_listed(holidays, a) {
                1
            } else {
                0
            },
        ),
{
    whole_read(args, 0, a);
    whole_read(args, 1, a);
    holidays_are(holidays, a);
    let w = seq![0u32, 6u32];
    let hs = holidays_in(holidays);
    if args.len() == 2 {
        assert(holidays =~= Seq::empty());
    }
    reveal_with_fuel(workdays, 2);
    let k = weekday(a) as u32;
    assert(w.contains(k) == (k == 0 || k == 6)) by {
        assert(w[0] == 0 && w[1] == 6);
    }
}

/// `NETWORKDAYS` of a span is that of its parts taken together, and the other way round it is
/// negative.
pub proof fn spans_add_up(
    whole: Seq<Given>,
    first: Seq<Given>,
    second: Seq<Given>,
    back: Seq<Given>,
    a: int,
    b: int,
    c: int,
)
    requires
        whole_given(whole, 0, a),
        whole_given(whole, 1, c),
        whole_given(first, 0, a),
        whole_given(first, 1, b),
        whole_given(second, 0, b + 1),
        whole_given(second, 1, c),
        whole_given(back, 0, c),
        whole_given(back, 1, a),
        a <= b < c,
        whole.len() == 2 && first.len() == 2 && second.len() == 2 && back.len() == 2 || (
        whole.len() == 3 && first.len() == 3 && second.len() == 3 && back.len() == 3 && first[2]
            == whole[2] && second[2] == whole[2] && back[2] == whole[2]),
        c - a < i64::MAX,
    ensures
        network_days_of(whole) matches Said::Int(n) && network_days_of(first) matches Said::Int(p)
            && network_days_of(second) matches Said::Int(q) && network_days_of(back) matches Said::Int(
            z,
        ) && n == p + q && z == -n,
{
    whole_read(whole, 0, a);
    whole_read(whole, 1, c);
    whole_read(first, 0, a);
    whole_read(first, 1, b);
    whole_read(second, 0, b + 1);
    whole_read(second, 1, c);
    whole_read(back, 0, c);
    whole_read(back, 1, a);
    let w = seq![0u32, 6u32];
    let hs = holidays_in(all_at(whole, 2, Seq::empty()));
    workdays_join(a, b + 1, c + 1, w, hs);
    workdays_bound(a, c + 1, w, hs);
}

proof fn workdays_bound(a: int, b: int, weekend: Seq<u32>, holidays: Seq<i64>)
    ensures
        workdays(a, b, weekend, holidays) <= (if a <= b {
            b - a
        } else {
            0
        }),
    decreases b - a,
{
    if a < b {
        workdays_bound(a, b - 1, weekend, holidays);
    }
}

/// A weekend given by a number from 1 is two days that follow each other, from Saturday and Sunday
/// on; by one from 11, a single day from Sunday on.
pub proof fn weekends_are_days(n: int)
    ensures
        1 <= n <= 7 ==> (weekend_by_code(n) matches Some(w) && w.len() == 2 && w[0] == (n + 5) % 7
            && w[1] == (n + 6) % 7),
        11 <= n <= 17 ==> (weekend_by_code(n) matches Some(w) && w.len() == 1 && w[0] == (n - 11)),
        !(1 <= n <= 7 || 11 <= n <= 17) ==> weekend_by_code(n) is None,
{
}

proof fn marked_is(s: Seq<char>, n: int, k: int)
    requires
        0 <= n <= 7,
        n <= s.len(),
        1 <= k <= 7,
    ensures
        marked_days(s, n).contains((k % 7) as u32) == (k <= n && s[k - 1] == '1'),
    decreases n,
{
    if n > 0 {
        marked_is(s, n - 1, k);
        let less = marked_days(s, n - 1);
        if s[n - 1] == '1' {
            let more = less.push((n % 7) as u32);
            assert(more[less.len() as int] == (n % 7) as u32);
            if less.contains((k % 7) as u32) {
                let j = choose|j: int| 0 <= j < less.len() && less[j] == (k % 7) as u32;
                assert(more[j] == (k % 7) as u32);
            }
            if more.contains((k % 7) as u32) && k != n {
                let j = choose|j: int| 0 <= j < more.len() && more[j] == (k % 7) as u32;
                assert(j < less.len());
                assert(less[j] == (k % 7) as u32);
            }
        }
    }
}

/// A weekend given by seven marks, from Monday on, holds the days that are marked.
pub proof fn marked_days_are_weekends(s: Seq<char>, k: int)
    requires
        s.len() == 7,
        1 <= k <= 7,
    ensures
        marked_days(s, 7).contains((k % 7) as u32) == (s[k - 1] == '1'),
{
    marked_is(s, 7, k);
}

proof fn seventh(x: int)
    ensures
        (x + 1) / 7 == x / 7 + (if (x + 1) % 7 == 0 {
            1int
        } else {
            0
        }),
        0 <= x < 7 ==> x / 7 == 0,
{
}

proof fn weeks_meet(j: int, a: int, s: int)
    requires
        0 <= s < 7,
    ensures
        (j - a + (weekday(a) - s + 7) % 7) % 7 == 0 <==> weekday(j) == s,
        0 <= (weekday(a) - s + 7) % 7 < 7,
{
    let q = (a + 6) / 7;
    assert(a + 6 == 7 * q + weekday(a));
}

/// Weeks are numbered from the first of January on, and the number goes up with the day on which
/// weeks start.
pub proof fn weeks_follow_each_other(year: int, k: int, start: int)
    requires
        0 <= start < 7,
        k >= serial_of(year, 1, 1),
    ensures
        week_of(year, serial_of(year, 1, 1), start) == 1,
        week_of(year, k + 1, start) == week_of(year, k, start) + (if weekday(k + 1) == start {
            1int
        } else {
            0
        }),
{
    let jan1 = serial_of(year, 1, 1);
    let lead = (weekday(jan1) - start + 7) % 7;
    seventh(k - jan1 + lead);
    weeks_meet(k + 1, jan1, start);
    seventh(lead - 1);
}

/// The ways of numbering weeks let them start on a Sunday or a Monday, or, from the eleventh on, on
/// each day from Monday to Sunday.
pub proof fn weeks_start_on_days(t: int)
    ensures
        week_start(1) == Some(0int),
        week_start(2) == Some(1int),
        11 <= t <= 17 ==> week_start(t) == Some((t - 10) % 7),
        t < 1 || 2 < t < 11 || t > 17 ==> week_start(t) is None,
{
}

/// `TIME` gives the part of a day that hours, minutes and seconds make, and leaves whole days out:
/// sixty seconds are a minute, sixty minutes an hour, and twenty-four hours nothing.
pub proof fn times_are_parts_of_a_day(args: Seq<Given>, h: int, m: int, s: int)
    requires
        whole_given(args, 0, h),
        whole_given(args, 1, m),
        whole_given(args, 2, s),
    ensures
        time_of(args) matches Said::Ratio(a, b, c) && b == 24 * 60 * 60 && c == 1 && 0 <= a < b && (
        (h * 60 + m) * 60 + s - a) % 86400 == 0,
{
    whole_read(args, 0, h);
    whole_read(args, 1, m);
    whole_read(args, 2, s);
}

/// `DATEDIF` tells how far two days are apart, in days, whole months or whole years, and `#NUM!` where
/// the second is the earlier one.
pub proof fn days_are_apart(args: Seq<Given>, a: Parts, b: Parts, s1: int, s2: int, u: Seq<char>, r: Said)
    requires
        whole_given(args, 0, s1),
        whole_given(args, 1, s2),
        text_given(args, 2, u),
        is_datedif(args, r),
        is_parts_of(a, s1),
        is_parts_of(b, s2),
        num(nth(args, 0)) matches Ok(x) && num(nth(args, 1)) matches Ok(y) && (y.lt(x) == (s2 < s1)),
        i64::MIN <= s2 - s1 <= i64::MAX,
    ensures
        s2 < s1 ==> r == failed(FormulaError::Num),
        s1 <= s2 && upper(u) == seq!['D'] ==> r == Said::Int(s2 - s1),
        s1 <= s2 && upper(u) == seq!['M'] ==> r == Said::Int(dates_apart(a, b, seq!['M'])->0),
        s1 <= s2 && upper(u) == seq!['Y'] ==> r == Said::Int(dates_apart(a, b, seq!['Y'])->0),
{
    reveal_strlit("D");
    reveal_strlit("M");
    reveal_strlit("Y");
    assert("D"@ =~= seq!['D']);
    assert("M"@ =~= seq!['M']);
    assert("Y"@ =~= seq!['Y']);
    assert(seq!['D'][0] == 'D' && seq!['M'][0] == 'M' && seq!['Y'][0] == 'Y');
    whole_read(args, 0, s1);
    whole_read(args, 1, s2);
    if s1 <= s2 && upper(u) != "D"@ {
        let (p, q) = choose|p: Parts, q: Parts| #[trigger]
            is_parts_of(p, s1) && #[trigger] is_parts_of(q, s2) && r == (match dates_apart(
                p,
                q,
                upper(u),
            ) {
                Some(k) => Said::Int(k),
                None => failed(FormulaError::Num),
            });
        dates_are_unique(
            p.year as int,
            p.month as int,
            p.day as int,
            a.year as int,
            a.month as int,
            a.day as int,
        );
        dates_are_unique(
            q.year as int,
            q.month as int,
            q.day as int,
            b.year as int,
            b.month as int,
            b.day as int,
        );
    }
}

/// A day that `WORKDAY` gives, so many workdays after another, is a workday, and from the day behind that
/// one to it are so many workdays; before it, counted back, likewise.
pub proof fn workdays_are_counted_off(
    r: int,
    s: int,
    n: int,
    weekend: Seq<u32>,
    holidays: Seq<i64>,
)
    requires
        lies_after(r, s, n, weekend, holidays),
    ensures
        n > 0 ==> r > s && span_of_workdays(s + 1, r, weekend, holidays) == n && span_of_workdays(
            r,
            r,
            weekend,
            holidays,
        ) == 1,
        n < 0 ==> r < s && span_of_workdays(r, s - 1, weekend, holidays) == -n && span_of_workdays(
            r,
            r,
            weekend,
            holidays,
        ) == 1,
        n == 0 ==> r == s,
{
    reveal_with_fuel(workdays, 2);
}

/// `WEEKNUM` gives the number that the week of a day has in the year of that day.
pub proof fn weeks_are_numbered(
    args: Seq<Given>,
    y: int,
    m: int,
    d: int,
    t: int,
    r: Option<Said>,
)
    requires
        is_calendar_date(y, m, d),
        whole_given(args, 0, serial_of(y, m, d)),
        args.len() == 1 && t == 1 || whole_given(args, 1, t),
        1 <= t <= 2 || 11 <= t <= 17,
        is_week_num(args, false, r),
    ensures
        r == Some(
            Said::Int(
                week_of(
                    y,
                    serial_of(y, m, d),
                    if t <= 2 {
                        t - 1
                    } else {
                        (t - 10) % 7
                    },
                ),
            ),
        ),
{
    let k = serial_of(y, m, d);
    whole_read(args, 0, k);
    if args.len() > 1 {
        whole_read(args, 1, t);
    }
    weeks_start_on_days(t);
    assert forall|p: Parts| #[trigger] is_parts_of(p, k) implies p.year == y by {
        parts_are(p, y, m, d);
    }
}

} // verus!
