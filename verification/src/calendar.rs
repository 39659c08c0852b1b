//! Civil dates of the proleptic Gregorian calendar.

use vstd::arithmetic::div_mod::{lemma_hoist_over_denominator, lemma_mod_multiples_vanish};
use vstd::prelude::*;

use crate::text::{decimal, digit, is_digit, padded, padded_text};

verus! {

/// Whether `y` is a leap year.
pub open spec fn is_leap(y: int) -> bool {
    y % 4 == 0 && (y % 100 != 0 || y % 400 == 0)
}

/// How many days month `m` of year `y` has.
pub open spec fn days_in_month(y: int, m: int) -> int {
    if m == 2 {
        if is_leap(y) {
            29
        } else {
            28
        }
    } else if m == 4 || m == 6 || m == 9 || m == 11 {
        30
    } else {
        31
    }
}

/// Whether `(y, m, d)` is a date of the calendar.
pub open spec fn is_date(y: int, m: int, d: int) -> bool {
    1 <= m <= 12 && 1 <= d <= days_in_month(y, m)
}

/// The days of year `y` before month `m`.
pub open spec fn days_before_month(y: int, m: int) -> int
    decreases m,
{
    if m <= 1 {
        0
    } else {
        days_before_month(y, m - 1) + days_in_month(y, m - 1)
    }
}

/// The days from the first of January of year 0 to that of year `y`: a day
/// more than 365 for every leap year in between.
pub open spec fn days_before_year(y: int) -> int {
    365 * y + (y + 3) / 4 - (y + 99) / 100 + (y + 399) / 400
}

/// The days from the Unix epoch to the date `(y, m, d)`.
pub open spec fn days_of_date(y: int, m: int, d: int) -> int {
    days_before_year(y) + days_before_month(y, m) + d - 1 - days_before_year(1970)
}

/// A year has 365 days, and a leap year one more.
pub proof fn law_year_length(y: int)
    ensures
        days_before_year(y + 1) - days_before_year(y) == (if is_leap(y) {
            366int
        } else {
            365int
        }),
{
    assert((y + 4) / 4 - (y + 3) / 4 == (if y % 4 == 0 {
        1int
    } else {
        0int
    }));
    assert((y + 100) / 100 - (y + 99) / 100 == (if y % 100 == 0 {
        1int
    } else {
        0int
    }));
    assert((y + 400) / 400 - (y + 399) / 400 == (if y % 400 == 0 {
        1int
    } else {
        0int
    }));
    if y % 400 == 0 {
        assert(y % 100 == 0);
    }
    if y % 100 == 0 {
        assert(y % 4 == 0);
    }
}

/// The calendar repeats every 400 years.
pub proof fn law_calendar_repeats(era: int, y: int)
    ensures
        days_before_year(era * 400 + y) == era * 146_097 + days_before_year(y),
        is_leap(era * 400 + y) == is_leap(y),
{
    lemma_mod_multiples_vanish(era * 100, y, 4);
    lemma_mod_multiples_vanish(era * 4, y, 100);
    lemma_mod_multiples_vanish(era, y, 400);
    lemma_hoist_over_denominator(y + 3, era * 100, 4);
    lemma_hoist_over_denominator(y + 99, era * 4, 100);
    lemma_hoist_over_denominator(y + 399, era, 400);
}

/// Within an era of 400 years that starts in March, the year and the day of
/// the year of day `doe`.
proof fn lemma_year_of_era(doe: int)
    requires
        0 <= doe <= 146_096,
    ensures
        ({
            let yoe = (doe - doe / 1460 + doe / 36_524 - doe / 146_096) / 365;
            let doy = doe - (365 * yoe + yoe / 4 - yoe / 100);
            &&& 0 <= yoe <= 399
            &&& 0 <= doy <= 365
            &&& doy == 365 ==> is_leap(yoe + 1)
        }),
{
    let b = doe / 36_524;
    let c = doe / 146_096;
    let yoe = (doe - doe / 1460 + b - c) / 365;
    assert(0 <= b <= 4);
    assert(0 <= c <= 1);
    if b == 0 {
        assert(0 <= yoe <= 99);
        assert(yoe / 100 == 0);
    } else if b == 1 {
        assert(100 <= yoe <= 199);
        assert(yoe / 100 == 1);
    } else if b == 2 {
        assert(200 <= yoe <= 299);
        assert(yoe / 100 == 2);
    } else if b == 3 {
        assert(300 <= yoe <= 399);
        assert(yoe / 100 == 3);
    } else {
        assert(doe == 146_096);
    }
}

/// The date of day `z`, counted from a first of March that starts an era.
proof fn lemma_date_of_day(era: int, doe: int, yoe: int, doy: int, mp: int)
    requires
        0 <= doe <= 146_096,
        yoe == (doe - doe / 1460 + doe / 36_524 - doe / 146_096) / 365,
        doy == doe - (365 * yoe + yoe / 4 - yoe / 100),
        mp == (5 * doy + 2) / 153,
    ensures
        0 <= mp <= 11,
        0 <= yoe <= 399,
        0 <= doy <= 365,
        ({
            let day = doy - (153 * mp + 2) / 5 + 1;
            let month = if mp < 10 {
                mp + 3
            } else {
                mp - 9
            };
            let year = yoe + era * 400 + (if month <= 2 {
                1int
            } else {
                0int
            });
            &&& is_date(year, month, day)
            &&& days_of_date(year, month, day) == era * 146_097 + doe - 719_468
        }),
{
    lemma_year_of_era(doe);
    let day = doy - (153 * mp + 2) / 5 + 1;
    let month = if mp < 10 {
        mp + 3
    } else {
        mp - 9
    };
    let march = yoe + era * 400;
    let year = march + (if month <= 2 {
        1int
    } else {
        0int
    });
    assert(days_before_year(1970) == 719_528);
    law_calendar_repeats(era, yoe);
    law_calendar_repeats(era, yoe + 1);
    law_year_length(yoe);
    lemma_months(march, doy, mp);
    lemma_months_before(year);
    assert(days_before_year(yoe) + (if is_leap(yoe) {
        1int
    } else {
        0int
    }) == 365 * yoe + yoe / 4 - yoe / 100 + 1) by {
        lemma_march_years(yoe);
    }
    lemma_month_lengths(year, march, doy, mp);
}

/// The leap days before the first of March of year `y` of an era.
proof fn lemma_march_years(y: int)
    requires
        0 <= y <= 399,
    ensures
        days_before_year(y) + (if is_leap(y) {
            1int
        } else {
            0int
        }) == 365 * y + y / 4 - y / 100 + 1,
{
    assert((y + 3) / 4 + (if y % 4 == 0 {
        1int
    } else {
        0int
    }) == y / 4 + 1);
    assert((y + 99) / 100 + (if y % 100 == 0 {
        1int
    } else {
        0int
    }) == y / 100 + 1);
    assert((y + 399) / 400 + (if y == 0 {
        1int
    } else {
        0int
    }) == 1);
    if y % 100 == 0 {
        assert(y % 4 == 0);
    }
}

/// The day of the year, counted from January, of day `doy` of a year that
/// starts in March.
proof fn lemma_month_lengths(year: int, march: int, doy: int, mp: int)
    requires
        0 <= doy <= 365,
        mp == (5 * doy + 2) / 153,
        year == march + (if mp >= 10 {
            1int
        } else {
            0int
        }),
    ensures
        ({
            let month = if mp < 10 {
                mp + 3
            } else {
                mp - 9
            };
            days_before_month(year, month) == (153 * mp + 2) / 5 + (if mp < 10 {
                59 + (if is_leap(year) {
                    1int
                } else {
                    0int
                })
            } else {
                -306
            })
        }),
{
    lemma_months_before(year);
    assert(mp == 0 || mp == 1 || mp == 2 || mp == 3 || mp == 4 || mp == 5 || mp == 6 || mp == 7
        || mp == 8 || mp == 9 || mp == 10 || mp == 11);
}

/// The days before each month of a year.
proof fn lemma_months_before(y: int)
    ensures
        ({
            let l = if is_leap(y) {
                1int
            } else {
                0int
            };
            &&& days_before_month(y, 1) == 0
            &&& days_before_month(y, 2) == 31
            &&& days_before_month(y, 3) == 59 + l
            &&& days_before_month(y, 4) == 90 + l
            &&& days_before_month(y, 5) == 120 + l
            &&& days_before_month(y, 6) == 151 + l
            &&& days_before_month(y, 7) == 181 + l
            &&& days_before_month(y, 8) == 212 + l
            &&& days_before_month(y, 9) == 243 + l
            &&& days_before_month(y, 10) == 273 + l
            &&& days_before_month(y, 11) == 304 + l
            &&& days_before_month(y, 12) == 334 + l
        }),
{
    reveal_with_fuel(days_before_month, 13);
}

/// The day of the month of day `doy` of a year that starts in March.
proof fn lemma_months(march: int, doy: int, mp: int)
    requires
        0 <= doy <= 365,
        mp == (5 * doy + 2) / 153,
        doy == 365 ==> is_leap(march + 1),
    ensures
        0 <= mp <= 11,
        ({
            let day = doy - (153 * mp + 2) / 5 + 1;
            let month = if mp < 10 {
                mp + 3
            } else {
                mp - 9
            };
            let year = march + (if month <= 2 {
                1int
            } else {
                0int
            });
            is_date(year, month, day)
        }),
{
    assert(mp == 0 || mp == 1 || mp == 2 || mp == 3 || mp == 4 || mp == 5 || mp == 6 || mp == 7
        || mp == 8 || mp == 9 || mp == 10 || mp == 11);
}

/// Converts a count of days since the Unix epoch into a `(year, month, day)`
/// civil date.
pub fn civil_from_days(z: i64) -> (date: (i64, u32, u32))
    requires
        z <= i64::MAX - 719_468,
    ensures
        is_date(date.0 as int, date.1 as int, date.2 as int),
        days_of_date(date.0 as int, date.1 as int, date.2 as int) == z,
        z >= 0 ==> date.0 >= 1970,
{
    let shifted: i64 = z + 719_468;
    let era: i64 = if shifted >= 0 {
        shifted / 146_097
    } else {
        -((146_096 - shifted) / 146_097)
    };
    let doe: i64 = shifted - era * 146_097;
    let yoe: i64 = (doe - doe / 1460 + doe / 36_524 - doe / 146_096) / 365;
    proof {
        lemma_year_of_era(doe as int);
    }
    let doy: i64 = doe - (365 * yoe + yoe / 4 - yoe / 100);
    let mp: i64 = (5 * doy + 2) / 153;
    proof {
        lemma_date_of_day(era as int, doe as int, yoe as int, doy as int, mp as int);
    }
    let day: i64 = doy - (153 * mp + 2) / 5 + 1;
    let month: i64 = if mp < 10 {
        mp + 3
    } else {
        mp - 9
    };
    let march: i64 = yoe + era * 400;
    let year: i64 = if month <= 2 {
        march + 1
    } else {
        march
    };
    proof {
        if z >= 0 && year < 1970 {
            lemma_months_before(year as int);
        }
    }
    (year, month as u32, day as u32)
}

/// Two dates with the same day count are the same date.
pub proof fn law_date_is_unique(y: int, m: int, d: int, y2: int, m2: int, d2: int)
    requires
        is_date(y, m, d),
        is_date(y2, m2, d2),
        days_of_date(y, m, d) == days_of_date(y2, m2, d2),
    ensures
        y == y2 && m == m2 && d == d2,
{
    lemma_months_before(y);
    lemma_months_before(y2);
    if y < y2 {
        lemma_years_apart(y, y2);
    } else if y2 < y {
        lemma_years_apart(y2, y);
    }
}

proof fn lemma_years_apart(y: int, y2: int)
    requires
        y < y2,
    ensures
        days_before_year(y2) - days_before_year(y) >= (if is_leap(y) {
            366int
        } else {
            365int
        }),
    decreases y2 - y,
{
    law_year_length(y2 - 1);
    if y + 1 < y2 {
        lemma_years_apart(y, y2 - 1);
    }
}

/// The date and time `t` seconds after the Unix epoch, as
/// `YYYY-MM-DDTHH:MM:SSZ`, for the date `(y, m, d)` of that day.
pub open spec fn stamp(y: int, m: int, d: int, tod: int) -> Seq<char> {
    padded(y as nat, 4) + "-"@ + padded(m as nat, 2) + "-"@ + padded(d as nat, 2) + "T"@ + padded(
        (tod / 3600) as nat,
        2,
    ) + ":"@ + padded((tod % 3600 / 60) as nat, 2) + ":"@ + padded((tod % 60) as nat, 2) + "Z"@
}

/// Whether `text` is the UTC time `ts_ms` milliseconds after the Unix epoch,
/// sub-second precision dropped.
pub open spec fn is_stamp_of(text: Seq<char>, ts_ms: u64) -> bool {
    let secs = ts_ms as int / 1000;
    exists|y: int, m: int, d: int|
        {
            &&& is_date(y, m, d)
            &&& #[trigger] days_of_date(y, m, d) == secs / 86_400
            &&& text == stamp(y, m, d, secs % 86_400)
        }
}

/// The UTC time `ts_ms` milliseconds after the Unix epoch.
pub open spec fn stamp_of(ts_ms: u64) -> Seq<char> {
    choose|text: Seq<char>| is_stamp_of(text, ts_ms)
}

/// There is one stamp for each time.
pub proof fn lemma_stamp_unique(a: Seq<char>, b: Seq<char>, ts_ms: u64)
    requires
        is_stamp_of(a, ts_ms),
        is_stamp_of(b, ts_ms),
    ensures
        a == b,
{
    let secs = ts_ms as int / 1000;
    let (y, m, d) = choose|y: int, m: int, d: int|
        {
            &&& is_date(y, m, d)
            &&& #[trigger] days_of_date(y, m, d) == secs / 86_400
            &&& a == stamp(y, m, d, secs % 86_400)
        };
    let (y2, m2, d2) = choose|y2: int, m2: int, d2: int|
        {
            &&& is_date(y2, m2, d2)
            &&& #[trigger] days_of_date(y2, m2, d2) == secs / 86_400
            &&& b == stamp(y2, m2, d2, secs % 86_400)
        };
    law_date_is_unique(y, m, d, y2, m2, d2);
}

/// Formats Unix epoch milliseconds as `YYYY-MM-DDTHH:MM:SSZ` (UTC).
pub fn format_ts(ts_ms: u64) -> (text: String)
    ensures
        is_stamp_of(text@, ts_ms),
        text@ == stamp_of(ts_ms),
{
    let secs: u64 = ts_ms / 1000;
    let days: i64 = (secs / 86_400) as i64;
    let tod: u64 = secs % 86_400;
    let (year, month, day) = civil_from_days(days);
    let mut text = padded_text(year as u64, 4);
    text.append("-");
    text.append(padded_text(month as u64, 2).as_str());
    text.append("-");
    text.append(padded_text(day as u64, 2).as_str());
    text.append("T");
    text.append(padded_text(tod / 3600, 2).as_str());
    text.append(":");
    text.append(padded_text((tod % 3600) / 60, 2).as_str());
    text.append(":");
    text.append(padded_text(tod % 60, 2).as_str());
    text.append("Z");
    proof {
        assert(days_of_date(year as int, month as int, day as int) == ts_ms as int / 1000 / 86_400);
        assert(is_stamp_of(text@, ts_ms));
        lemma_stamp_unique(text@, stamp_of(ts_ms), ts_ms);
    }
    text
}

/// Every day since the epoch has a date, and every time since then a stamp.
proof fn lemma_has_stamp(ts_ms: u64)
    ensures
        is_stamp_of(stamp_of(ts_ms), ts_ms),
{
    let secs = ts_ms as int / 1000;
    let shifted = secs / 86_400 + 719_468;
    let era = shifted / 146_097;
    let doe = shifted % 146_097;
    let yoe = (doe - doe / 1460 + doe / 36_524 - doe / 146_096) / 365;
    let doy = doe - (365 * yoe + yoe / 4 - yoe / 100);
    let mp = (5 * doy + 2) / 153;
    lemma_date_of_day(era, doe, yoe, doy, mp);
    let d = doy - (153 * mp + 2) / 5 + 1;
    let m = if mp < 10 {
        mp + 3
    } else {
        mp - 9
    };
    let y = yoe + era * 400 + (if m <= 2 {
        1int
    } else {
        0int
    });
    assert(days_of_date(y, m, d) == secs / 86_400);
    assert(is_stamp_of(stamp(y, m, d, secs % 86_400), ts_ms));
}

/// The last millisecond of the year 9999, after which a year has five digits.
pub const LAST_FOUR_DIGIT_MS: u64 = 253_402_300_799_999;

/// A day of the years that are written with four digits lies in one of them.
proof fn lemma_four_digit_year(y: int, m: int, d: int)
    requires
        is_date(y, m, d),
        0 <= days_of_date(y, m, d) <= 2_932_896,
    ensures
        1970 <= y <= 9999,
{
    lemma_months_before(y);
    assert(days_before_year(10_000) - days_before_year(1970) == 2_932_897);
    if y < 1970 {
        lemma_years_apart(y, 1970);
    }
    if y > 10_000 {
        lemma_years_apart(10_000, y);
    }
}

/// Of two dates the one with the smaller day count is the earlier one by year,
/// month and day.
pub proof fn law_dates_are_ordered(y: int, m: int, d: int, y2: int, m2: int, d2: int)
    requires
        is_date(y, m, d),
        is_date(y2, m2, d2),
    ensures
        days_of_date(y, m, d) < days_of_date(y2, m2, d2) <==> y < y2 || (y == y2 && (m < m2 || (m
            == m2 && d < d2))),
{
    lemma_months_before(y);
    lemma_months_before(y2);
    if y < y2 {
        lemma_years_apart(y, y2);
    } else if y2 < y {
        lemma_years_apart(y2, y);
    }
}

/// Whether `a` and `b` first differ at place `i`, where `a` has the smaller
/// character.
pub open spec fn is_smaller_at(a: Seq<char>, b: Seq<char>, i: int) -> bool {
    &&& 0 <= i < a.len()
    &&& i < b.len()
    &&& a[i] < b[i]
    &&& forall|k: int| 0 <= k < i ==> a[k] == b[k]
}

/// Whether `a` comes before `b` in the order of texts, neither beginning with the
/// other.
pub open spec fn precedes(a: Seq<char>, b: Seq<char>) -> bool {
    exists|i: int| #[trigger] is_smaller_at(a, b, i)
}

/// Texts whose parts are equal up to one that comes before the other are in that
/// order too.
proof fn lemma_precedes_within(
    head: Seq<char>,
    a: Seq<char>,
    b: Seq<char>,
    left: Seq<char>,
    right: Seq<char>,
)
    requires
        precedes(a, b),
    ensures
        precedes(head + a + left, head + b + right),
{
    let i = choose|i: int| #[trigger] is_smaller_at(a, b, i);
    assert(is_smaller_at(head + a + left, head + b + right, head.len() + i));
}

/// A numeral of two digits.
proof fn lemma_two_digits(n: nat)
    requires
        n < 100,
    ensures
        padded(n, 2) == seq![digit(n / 10), digit(n % 10)],
{
    reveal_with_fuel(decimal, 3);
    assert(padded(n, 2) =~= seq![digit(n / 10), digit(n % 10)]);
}

/// A numeral of four digits.
proof fn lemma_four_digits(n: nat)
    requires
        n < 10_000,
    ensures
        padded(n, 4) == seq![
            digit(n / 1000),
            digit(n / 100 % 10),
            digit(n / 10 % 10),
            digit(n % 10),
        ],
{
    reveal_with_fuel(decimal, 5);
    let digits = seq![digit(n / 1000), digit(n / 100 % 10), digit(n / 10 % 10), digit(n % 10)];
    if n < 10 {
        assert(padded(n, 4) =~= digits);
    } else if n < 100 {
        assert(padded(n, 4) =~= digits);
    } else if n < 1000 {
        assert(n / 10 / 10 == n / 100);
        assert(padded(n, 4) =~= digits);
    } else {
        assert(n / 10 / 10 == n / 100);
        assert(n / 10 / 10 / 10 == n / 1000);
        assert(padded(n, 4) =~= digits);
    }
}

proof fn lemma_two_digits_ordered(m: nat, n: nat)
    requires
        m < n < 100,
    ensures
        precedes(padded(m, 2), padded(n, 2)),
{
    lemma_two_digits(m);
    lemma_two_digits(n);
    let a = padded(m, 2);
    let b = padded(n, 2);
    if m / 10 < n / 10 {
        assert(is_smaller_at(a, b, 0));
    } else {
        assert(is_smaller_at(a, b, 1));
    }
}

proof fn lemma_digits_ordered(m: nat, n: nat)
    requires
        m < n < 10,
    ensures
        digit(m) < digit(n),
{
}

proof fn lemma_four_digits_ordered(m: nat, n: nat)
    requires
        m < n < 10_000,
    ensures
        precedes(padded(m, 4), padded(n, 4)),
{
    lemma_four_digits(m);
    lemma_four_digits(n);
    let a = padded(m, 4);
    let b = padded(n, 4);
    assert(m / 100 == m / 1000 * 10 + m / 100 % 10);
    assert(n / 100 == n / 1000 * 10 + n / 100 % 10);
    assert(m / 10 == m / 100 * 10 + m / 10 % 10);
    assert(n / 10 == n / 100 * 10 + n / 10 % 10);
    if m / 1000 < n / 1000 {
        lemma_digits_ordered(m / 1000, n / 1000);
        assert(is_smaller_at(a, b, 0));
    } else if m / 100 < n / 100 {
        assert(m / 1000 == n / 1000);
        lemma_digits_ordered(m / 100 % 10, n / 100 % 10);
        assert(is_smaller_at(a, b, 1));
    } else if m / 10 < n / 10 {
        assert(m / 100 == n / 100);
        assert(m / 1000 == n / 1000);
        lemma_digits_ordered(m / 10 % 10, n / 10 % 10);
        assert(is_smaller_at(a, b, 2));
    } else {
        assert(m / 10 == n / 10);
        assert(m / 100 == n / 100);
        assert(m / 1000 == n / 1000);
        lemma_digits_ordered(m % 10, n % 10);
        assert(is_smaller_at(a, b, 3));
    }
}

/// Whether `text` has the shape `YYYY-MM-DDTHH:MM:SSZ`.
pub open spec fn is_stamp(text: Seq<char>) -> bool {
    &&& text.len() == 20
    &&& text[4] == '-' && text[7] == '-' && text[10] == 'T' && text[13] == ':' && text[16] == ':'
        && text[19] == 'Z'
    &&& forall|i: int|
        0 <= i < 19 && i != 4 && i != 7 && i != 10 && i != 13 && i != 16 ==> is_digit(
            #[trigger] text[i],
        )
}

proof fn lemma_stamp_shape(y: int, m: int, d: int, tod: int)
    requires
        0 <= y <= 9999,
        is_date(y, m, d),
        0 <= tod < 86_400,
    ensures
        is_stamp(stamp(y, m, d, tod)),
{
    lemma_four_digits(y as nat);
    lemma_two_digits(m as nat);
    lemma_two_digits(d as nat);
    lemma_two_digits((tod / 3600) as nat);
    lemma_two_digits((tod % 3600 / 60) as nat);
    lemma_two_digits((tod % 60) as nat);
    reveal_strlit("-");
    reveal_strlit("T");
    reveal_strlit(":");
    reveal_strlit("Z");
}

/// Three numerals with a separator between them are ordered by the first in
/// which they differ.
proof fn lemma_three_ordered(
    a: Seq<char>,
    b: Seq<char>,
    c: Seq<char>,
    a2: Seq<char>,
    b2: Seq<char>,
    c2: Seq<char>,
    between: Seq<char>,
)
    requires
        precedes(a, a2) || (a == a2 && (precedes(b, b2) || (b == b2 && precedes(c, c2)))),
    ensures
        precedes(a + between + b + between + c, a2 + between + b2 + between + c2),
{
    let left = a + between + b + between + c;
    let right = a2 + between + b2 + between + c2;
    let none = Seq::<char>::empty();
    if precedes(a, a2) {
        let rest = between + b + between + c;
        let rest2 = between + b2 + between + c2;
        lemma_precedes_within(none, a, a2, rest, rest2);
        assert(left =~= none + a + rest);
        assert(right =~= none + a2 + rest2);
    } else if precedes(b, b2) {
        let rest = between + c;
        let rest2 = between + c2;
        lemma_precedes_within(a + between, b, b2, rest, rest2);
        assert(left =~= a + between + b + rest);
        assert(right =~= a + between + b2 + rest2);
    } else {
        lemma_precedes_within(a + between + b + between, c, c2, none, none);
        assert(left =~= a + between + b + between + c + none);
        assert(right =~= a + between + b + between + c2 + none);
    }
}

proof fn lemma_stamps_ordered(
    y: int,
    m: int,
    d: int,
    tod: int,
    y2: int,
    m2: int,
    d2: int,
    tod2: int,
)
    requires
        0 <= y <= 9999,
        0 <= y2 <= 9999,
        is_date(y, m, d),
        is_date(y2, m2, d2),
        0 <= tod < 86_400,
        0 <= tod2 < 86_400,
        days_of_date(y, m, d) < days_of_date(y2, m2, d2) || (days_of_date(y, m, d) == days_of_date(
            y2,
            m2,
            d2,
        ) && tod < tod2),
    ensures
        precedes(stamp(y, m, d, tod), stamp(y2, m2, d2, tod2)),
{
    let date = date_text(y, m, d);
    let date2 = date_text(y2, m2, d2);
    let time = time_text(tod);
    let time2 = time_text(tod2);
    let rest = "T"@ + time + "Z"@;
    let rest2 = "T"@ + time2 + "Z"@;
    lemma_stamp_parts(y, m, d, tod);
    lemma_stamp_parts(y2, m2, d2, tod2);
    if days_of_date(y, m, d) < days_of_date(y2, m2, d2) {
        lemma_date_texts_ordered(y, m, d, y2, m2, d2);
        let none = Seq::<char>::empty();
        lemma_precedes_within(none, date, date2, rest, rest2);
        assert(date + "T"@ + time + "Z"@ =~= none + date + rest);
        assert(date2 + "T"@ + time2 + "Z"@ =~= none + date2 + rest2);
    } else {
        law_date_is_unique(y, m, d, y2, m2, d2);
        lemma_time_texts_ordered(tod, tod2);
        lemma_precedes_within(date + "T"@, time, time2, "Z"@, "Z"@);
    }
}

/// The date of a stamp.
spec fn date_text(y: int, m: int, d: int) -> Seq<char> {
    padded(y as nat, 4) + "-"@ + padded(m as nat, 2) + "-"@ + padded(d as nat, 2)
}

/// The time of day of a stamp.
spec fn time_text(tod: int) -> Seq<char> {
    padded((tod / 3600) as nat, 2) + ":"@ + padded((tod % 3600 / 60) as nat, 2) + ":"@ + padded(
        (tod % 60) as nat,
        2,
    )
}

proof fn lemma_stamp_parts(y: int, m: int, d: int, tod: int)
    ensures
        stamp(y, m, d, tod) == date_text(y, m, d) + "T"@ + time_text(tod) + "Z"@,
{
    assert(stamp(y, m, d, tod) =~= date_text(y, m, d) + "T"@ + time_text(tod) + "Z"@);
}

proof fn lemma_date_texts_ordered(y: int, m: int, d: int, y2: int, m2: int, d2: int)
    requires
        0 <= y <= 9999,
        0 <= y2 <= 9999,
        is_date(y, m, d),
        is_date(y2, m2, d2),
        days_of_date(y, m, d) < days_of_date(y2, m2, d2),
    ensures
        precedes(date_text(y, m, d), date_text(y2, m2, d2)),
{
    law_dates_are_ordered(y, m, d, y2, m2, d2);
    if y < y2 {
        lemma_four_digits_ordered(y as nat, y2 as nat);
    } else if m < m2 {
        lemma_two_digits_ordered(m as nat, m2 as nat);
    } else {
        lemma_two_digits_ordered(d as nat, d2 as nat);
    }
    lemma_three_ordered(
        padded(y as nat, 4),
        padded(m as nat, 2),
        padded(d as nat, 2),
        padded(y2 as nat, 4),
        padded(m2 as nat, 2),
        padded(d2 as nat, 2),
        "-"@,
    );
}

proof fn lemma_time_texts_ordered(tod: int, tod2: int)
    requires
        0 <= tod < tod2 < 86_400,
    ensures
        precedes(time_text(tod), time_text(tod2)),
{
    let (h, n, s) = (tod / 3600, tod % 3600 / 60, tod % 60);
    let (h2, n2, s2) = (tod2 / 3600, tod2 % 3600 / 60, tod2 % 60);
    assert(tod == h * 3600 + n * 60 + s);
    assert(tod2 == h2 * 3600 + n2 * 60 + s2);
    if h < h2 {
        lemma_two_digits_ordered(h as nat, h2 as nat);
    } else if n < n2 {
        assert(h == h2);
        lemma_two_digits_ordered(n as nat, n2 as nat);
    } else {
        assert(h == h2);
        assert(n == n2);
        lemma_two_digits_ordered(s as nat, s2 as nat);
    }
    lemma_three_ordered(
        padded(h as nat, 2),
        padded(n as nat, 2),
        padded(s as nat, 2),
        padded(h2 as nat, 2),
        padded(n2 as nat, 2),
        padded(s2 as nat, 2),
        ":"@,
    );
}

/// Up to the end of the year 9999 a stamp has the shape `YYYY-MM-DDTHH:MM:SSZ`, and
/// the stamps of two times are equal where the times share their second, and are
/// ordered as texts as the times are where they do not.
pub proof fn law_stamps_keep_the_order(a: u64, b: u64)
    requires
        a <= b <= LAST_FOUR_DIGIT_MS,
    ensures
        is_stamp(stamp_of(a)),
        is_stamp(stamp_of(b)),
        a / 1000 == b / 1000 <==> stamp_of(a) == stamp_of(b),
        a / 1000 < b / 1000 <==> precedes(stamp_of(a), stamp_of(b)),
{
    let (secs, secs2) = (a as int / 1000, b as int / 1000);
    lemma_has_stamp(a);
    lemma_has_stamp(b);
    let (y, m, d) = choose|y: int, m: int, d: int|
        {
            &&& is_date(y, m, d)
            &&& #[trigger] days_of_date(y, m, d) == secs / 86_400
            &&& stamp_of(a) == stamp(y, m, d, secs % 86_400)
        };
    let (y2, m2, d2) = choose|y2: int, m2: int, d2: int|
        {
            &&& is_date(y2, m2, d2)
            &&& #[trigger] days_of_date(y2, m2, d2) == secs2 / 86_400
            &&& stamp_of(b) == stamp(y2, m2, d2, secs2 % 86_400)
        };
    assert(secs2 / 86_400 <= 2_932_896);
    assert(secs / 86_400 <= secs2 / 86_400);
    lemma_four_digit_year(y, m, d);
    lemma_four_digit_year(y2, m2, d2);
    lemma_stamp_shape(y, m, d, secs % 86_400);
    lemma_stamp_shape(y2, m2, d2, secs2 % 86_400);
    if secs == secs2 {
        assert(is_stamp_of(stamp_of(b), a));
        lemma_stamp_unique(stamp_of(a), stamp_of(b), a);
        assert(!precedes(stamp_of(a), stamp_of(b)));
    } else {
        lemma_stamps_ordered(y, m, d, secs % 86_400, y2, m2, d2, secs2 % 86_400);
        if stamp_of(a) == stamp_of(b) {
            assert(!precedes(stamp_of(a), stamp_of(b)));
        }
    }
}

} // verus!
