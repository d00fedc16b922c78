//! Days of the Gregorian calendar and seconds since 1970, in UTC.
use vstd::prelude::*;
use vstd::string::StringExecFns;

use crate::text::{dec, dec_padded, pad_left};

verus! {

/// Whether a year has 366 days.
pub open spec fn is_leap(y: int) -> bool {
    y % 4 == 0 && (y % 100 != 0 || y % 400 == 0)
}

/// The days of a year.
pub open spec fn year_len(y: int) -> int {
    if is_leap(y) {
        366
    } else {
        365
    }
}

/// The days of a month.
pub open spec fn month_len(y: int, m: int) -> int {
    if m == 2 {
        if is_leap(y) {
            29
        } else {
            28
        }
    } else if m == 4 || m == 6 || m == 9 || m == 11 {
        30
    } else {
        31
    }
}

/// The days from the start of 1970 to the start of a year.
pub open spec fn days_to_year(y: int) -> int
    decreases y - 1970,
{
    if y <= 1970 {
        0
    } else {
        days_to_year(y - 1) + year_len(y - 1)
    }
}

/// The days from the start of a year to the start of a month.
pub open spec fn days_to_month(y: int, m: int) -> int
    decreases m,
{
    if m <= 1 {
        0
    } else {
        days_to_month(y, m - 1) + month_len(y, m - 1)
    }
}

/// The days from the start of 1970 to a day. A day past the end of its month is one of
/// the next.
pub open spec fn days_to(y: int, m: int, d: int) -> int {
    days_to_year(y) + days_to_month(y, m) + d - 1
}

/// Leap days in the years up to `y`.
spec fn leap_days(y: int) -> int {
    y / 4 - y / 100 + y / 400
}

proof fn lemma_year(y: int)
    requires
        y >= 1970,
    ensures
        days_to_year(y) == 365 * (y - 1970) + leap_days(y - 1) - leap_days(1969),
    decreases y - 1970,
{
    if y > 1970 {
        lemma_year(y - 1);
        lemma_leap_step(y - 1);
    }
}

proof fn lemma_leap_step(y: int)
    requires
        y >= 1,
    ensures
        leap_days(y) - leap_days(y - 1) == if is_leap(y) {
            1int
        } else {
            0
        },
{
}

proof fn lemma_month(y: int, m: int)
    requires
        1 <= m <= 12,
    ensures
        m > 2 ==> days_to_month(y, m) == (153 * (m - 3) + 2) / 5 + 59 + (if is_leap(y) {
            1int
        } else {
            0
        }),
        m == 2 ==> days_to_month(y, m) == 31,
        m == 1 ==> days_to_month(y, m) == 0,
{
    reveal_with_fuel(days_to_month, 13);
}

/// The number of a day is not negative, and bounded.
pub proof fn lemma_days_bounded(y: int, m: int, d: int)
    requires
        1970 <= y <= 9999,
        1 <= m <= 12,
        1 <= d <= 31,
    ensures
        0 <= days_to(y, m, d) < 4_000_000,
{
    lemma_year(y);
    lemma_month(y, m);
}

/// Seconds from the start of 1970 to the start of a day, for the years from 1970 on.
pub fn ymd_to_unix(y: i64, m: u32, d: u32) -> (r: u64)
    requires
        1970 <= y <= 9999,
        1 <= m <= 12,
        1 <= d <= 31,
    ensures
        r == days_to(y as int, m as int, d as int) * 86_400,
        0 <= days_to(y as int, m as int, d as int) < 4_000_000,
{
    let mi: i64 = m as i64;
    let di: i64 = d as i64;
    let ys: i64 = if mi <= 2 {
        y - 1
    } else {
        y
    };
    let era: i64 = ys / 400;
    let yoe: i64 = ys - era * 400;
    let m_adj: i64 = if mi > 2 {
        mi - 3
    } else {
        mi + 9
    };
    let doy: i64 = (153 * m_adj + 2) / 5 + di - 1;
    let doe: i64 = yoe * 365 + yoe / 4 - yoe / 100 + doy;
    let days: i64 = era * 146_097 + doe - 719_468;
    proof {
        lemma_year(y as int);
        lemma_month(y as int, m as int);
        lemma_leap_step(y as int);
        let e = era as int;
        let o = yoe as int;
        assert(ys == 400 * e + o && 0 <= o < 400);
        assert((ys as int) / 4 == 100 * e + o / 4);
        assert((ys as int) / 100 == 4 * e + o / 100);
        assert((ys as int) / 400 == e);
        assert(days == 365 * ys + leap_days(ys as int) + doy - 719_468);
        assert(days == days_to(y as int, m as int, d as int));
    }
    let secs: u64 = days as u64;
    secs * 86_400
}

/// A day of the calendar.
#[derive(Debug, Clone, Copy, PartialEq, Eq, Structural)]
pub struct Day {
    pub year: u64,
    pub month: u64,
    pub day: u64,
}

impl Day {
    /// Whether there is such a day, not before 1970.
    pub open spec fn wf(self) -> bool {
        &&& self.year >= 1970
        &&& 1 <= self.month <= 12
        &&& 1 <= self.day <= month_len(self.year as int, self.month as int)
    }

    /// The days from the start of 1970 to this one.
    pub open spec fn number(self) -> int {
        days_to(self.year as int, self.month as int, self.day as int)
    }
}

/// The days before year `y` of an era of 400 years that begin in March.
spec fn era_days(y: int) -> int {
    365 * y + y / 4 - y / 100
}

proof fn lemma_year_of_era(doe: int, yoe: int)
    requires
        0 <= doe <= 146_096,
        yoe == (doe - doe / 1460 + doe / 36524 - doe / 146_096) / 365,
    ensures
        0 <= yoe <= 399,
        era_days(yoe) <= doe,
        yoe < 399 ==> doe < era_days(yoe + 1),
        doe - era_days(yoe) <= 365,
        doe - era_days(yoe) == 365 ==> (yoe + 1) % 4 == 0 && ((yoe + 1) % 100 != 0 || yoe == 399),
{
    let c = doe / 36524;
    let r = doe - 36524 * c;
    assert(0 <= r < 36524);
    assert(0 <= c <= 4);
    if c == 4 {
        assert(doe == 146_096);
        assert(yoe == 399);
    } else {
        assert(doe / 146_096 == 0);
        let f = r / 1461;
        let s = r - 1461 * f;
        assert(0 <= s < 1461);
        assert(0 <= f <= 24);
        lemma_year_in_century(c, f, s, doe, yoe);
    }
}

/// The year in a century `c` of the era: `f` times four years, and `s` days more.
proof fn lemma_year_in_century(c: int, f: int, s: int, doe: int, yoe: int)
    requires
        0 <= c <= 3,
        0 <= f <= 24,
        0 <= s <= 1460,
        1461 * f + s < 36524,
        doe == 36524 * c + 1461 * f + s,
        yoe == (doe - doe / 1460 + c) / 365,
    ensures
        0 <= yoe <= 399,
        era_days(yoe) <= doe,
        yoe < 399 ==> doe < era_days(yoe + 1),
        doe - era_days(yoe) <= 365,
        doe - era_days(yoe) == 365 ==> (yoe + 1) % 4 == 0 && (yoe + 1) % 100 != 0,
{
    let k: int = if 24 * c + f + s >= 1460 {
        1
    } else {
        0
    };
    assert(doe == 1460 * (25 * c + f) + (24 * c + f + s));
    assert(doe / 1460 == 25 * c + f + k);
    let g: int = (s - k) / 365;
    assert(0 <= g <= 3 && 365 * g <= s - k && s - k < 365 * g + 365);
    assert(doe - doe / 1460 + c == 365 * (100 * c + 4 * f) + (s - k));
    assert(yoe == 100 * c + 4 * f + g);
    assert(yoe / 4 == 25 * c + f);
    assert(yoe / 100 == c);
    assert(era_days(yoe) == 36524 * c + 1461 * f + 365 * g);
    if g < 3 {
        assert(k == 0 || s >= 1364);
        assert((yoe + 1) / 4 == 25 * c + f);
        assert((yoe + 1) / 100 == c);
        assert(era_days(yoe + 1) == 36524 * c + 1461 * f + 365 * (g + 1));
    } else if f < 24 {
        assert((yoe + 1) / 4 == 25 * c + f + 1);
        assert((yoe + 1) / 100 == c);
        assert(era_days(yoe + 1) == 36524 * c + 1461 * (f + 1));
        assert((yoe + 1) % 100 == 4 * f + 4);
    } else {
        assert((yoe + 1) / 4 == 25 * c + 25);
        assert((yoe + 1) / 100 == c + 1);
        assert(era_days(yoe + 1) == 36524 * (c + 1));
    }
}

proof fn lemma_month_of_year(doy: int, mp: int)
    requires
        0 <= doy <= 365,
        mp == (5 * doy + 2) / 153,
    ensures
        0 <= mp <= 11,
        (153 * mp + 2) / 5 <= doy,
        mp < 11 ==> doy < (153 * (mp + 1) + 2) / 5,
{
}

/// The leap days of the years that begin in March, era by era.
proof fn lemma_era(e: int, o: int)
    requires
        0 <= e,
        0 <= o < 400,
    ensures
        365 * (400 * e + o) + leap_days(400 * e + o) == 146_097 * e + era_days(o),
{
    let y = 400 * e + o;
    assert(y / 4 == 100 * e + o / 4);
    assert(y / 100 == 4 * e + o / 100);
    assert(y / 400 == e);
}

/// The day number `doy` of year `o` of era `e`, where months are counted from March.
proof fn lemma_day(e: int, o: int, doy: int, mp: int)
    requires
        0 <= e,
        0 <= o < 400,
        0 <= doy <= 365,
        doy == 365 ==> (o + 1) % 4 == 0 && ((o + 1) % 100 != 0 || o == 399),
        mp == (5 * doy + 2) / 153,
        146_097 * e + era_days(o) + doy >= 719_468,
    ensures
        ({
            let m = if mp < 10 {
                mp + 3
            } else {
                mp - 9
            };
            let y = if m <= 2 {
                400 * e + o + 1
            } else {
                400 * e + o
            };
            let d = doy - (153 * mp + 2) / 5 + 1;
            &&& y >= 1970
            &&& 1 <= m <= 12
            &&& 1 <= d <= month_len(y, m)
            &&& days_to(y, m, d) == 146_097 * e + era_days(o) + doy - 719_468
        }),
{
    lemma_month_of_year(doy, mp);
    lemma_era(e, o);
    let m = if mp < 10 {
        mp + 3
    } else {
        mp - 9
    };
    let ys = 400 * e + o;
    let y = if m <= 2 {
        ys + 1
    } else {
        ys
    };
    let d = doy - (153 * mp + 2) / 5 + 1;
    assert(ys >= 1969) by {
        if e <= 3 {
            assert(146_097 * e <= 438_291);
            assert(era_days(o) <= 146_000);
        } else if e == 4 {
            assert(era_days(o) + doy >= 135_080);
            if o < 369 {
                assert(era_days(o) <= era_days(368));
            }
        }
    }
    if ys == 1969 {
        assert(o == 369 && e == 4);
        assert(doy >= 306);
    }
    lemma_year(y);
    lemma_month(y, m);
    lemma_leap_step(y);
    lemma_day_of_month(doy, mp, is_leap(ys + 1));
}

/// The day of the month is not past its end.
proof fn lemma_day_of_month(doy: int, mp: int, leap: bool)
    requires
        0 <= doy <= 365,
        doy == 365 ==> leap,
        mp == (5 * doy + 2) / 153,
    ensures
        ({
            let d = doy - (153 * mp + 2) / 5 + 1;
            &&& 1 <= d <= 31
            &&& (mp == 1 || mp == 3 || mp == 6 || mp == 8) ==> d <= 30
            &&& mp == 11 ==> d <= if leap {
                29int
            } else {
                28
            }
        }),
{
    lemma_month_of_year(doy, mp);
}

/// The day that is so many days after the start of 1970.
pub fn day_of(days: u64) -> (r: Day)
    requires
        days <= 0x1_0000_0000_0000,
    ensures
        r.wf(),
        r.number() == days,
{
    let z: u64 = days + 719_468;
    let era: u64 = z / 146_097;
    let doe: u64 = z - era * 146_097;
    let yoe: u64 = (doe - doe / 1460 + doe / 36524 - doe / 146_096) / 365;
    proof {
        lemma_year_of_era(doe as int, yoe as int);
    }
    let doy: u64 = doe - (365 * yoe + yoe / 4 - yoe / 100);
    let mp: u64 = (5 * doy + 2) / 153;
    proof {
        lemma_month_of_year(doy as int, mp as int);
    }
    let day: u64 = doy - (153 * mp + 2) / 5 + 1;
    let month: u64 = if mp < 10 {
        mp + 3
    } else {
        mp - 9
    };
    let ys: u64 = yoe + era * 400;
    let year: u64 = if month <= 2 {
        ys + 1
    } else {
        ys
    };
    proof {
        lemma_day(era as int, yoe as int, doy as int, mp as int);
    }
    Day { year, month, day }
}

proof fn lemma_within_year(a: Day)
    requires
        a.wf(),
    ensures
        days_to_year(a.year as int) <= a.number() < days_to_year(a.year as int + 1),
{
    reveal_with_fuel(days_to_month, 13);
}

proof fn lemma_years_rise(y: int, z: int)
    requires
        1970 <= y <= z,
    ensures
        days_to_year(y) <= days_to_year(z),
    decreases z - y,
{
    if y < z {
        lemma_years_rise(y, z - 1);
    }
}

proof fn lemma_months_rise(y: int, m: int, n: int)
    requires
        1 <= m < n,
    ensures
        days_to_month(y, m) + month_len(y, m) <= days_to_month(y, n),
    decreases n - m,
{
    if m + 1 < n {
        lemma_months_rise(y, m, n - 1);
    }
}

/// No two days have the same number.
pub proof fn each_day_has_its_number(a: Day, b: Day)
    requires
        a.wf(),
        b.wf(),
        a.number() == b.number(),
    ensures
        a == b,
{
    lemma_within_year(a);
    lemma_within_year(b);
    if a.year < b.year {
        lemma_years_rise(a.year as int + 1, b.year as int);
    } else if b.year < a.year {
        lemma_years_rise(b.year as int + 1, a.year as int);
    } else if a.month < b.month {
        lemma_months_rise(a.year as int, a.month as int, b.month as int);
    } else if b.month < a.month {
        lemma_months_rise(a.year as int, b.month as int, a.month as int);
    }
}

/// A day and a time of day as text.
pub open spec fn moment_text(d: Day, hour: nat, minute: nat) -> Seq<char> {
    pad_left(dec(d.year as nat), 4, '0') + "-"@ + pad_left(dec(d.month as nat), 2, '0') + "-"@
        + pad_left(dec(d.day as nat), 2, '0') + " "@ + pad_left(dec(hour), 2, '0') + ":"@ + pad_left(
        dec(minute),
        2,
        '0',
    )
}

/// Whether a text shows seconds since 1970 as the day, the hour and the minute in UTC: a
/// dash for 0, which stands for an unknown time.
pub open spec fn shows_time(t: u64, text: Seq<char>) -> bool {
    if t == 0 {
        text == "—"@
    } else {
        exists|d: Day|
            {
                &&& d.wf()
                &&& #[trigger] d.number() == t as int / 86_400
                &&& text == moment_text(d, (t as nat / 3600) % 24, (t as nat / 60) % 60)
            }
    }
}

/// Seconds since 1970 as the day, the hour and the minute in UTC.
pub fn format_unix_utc(t: u64) -> (r: String)
    ensures
        shows_time(t, r@),
{
    if t == 0 {
        return String::from_str("—");
    }
    let hour: u64 = (t / 3600) % 24;
    let minute: u64 = (t / 60) % 60;
    let d = day_of(t / 86_400);
    let r = dec_padded(d.year, 4).concat("-").concat(dec_padded(d.month, 2).as_str()).concat(
        "-",
    ).concat(dec_padded(d.day, 2).as_str()).concat(" ").concat(dec_padded(hour, 2).as_str()).concat(
        ":",
    ).concat(dec_padded(minute, 2).as_str());
    assert(d.number() == t as int / 86_400);
    r
}

} // verus!
