//! Dates and the time stamps of Signal K deltas.

use vstd::prelude::*;

use crate::strmap::{before, law_same_start};
use crate::text::{digits_value, padded_text, zero_padded};
use crate::text_laws::{digit_at, law_zero_padded};

verus! {

/// Whether a year of the Gregorian calendar has 366 days.
pub open spec fn leap(y: int) -> bool {
    y % 4 == 0 && (y % 100 != 0 || y % 400 == 0)
}

/// How many days a month has.
pub open spec fn month_days(y: int, m: int) -> int {
    if m == 2 {
        if leap(y) {
            29
        } else {
            28
        }
    } else if m == 4 || m == 6 || m == 9 || m == 11 {
        30
    } else {
        31
    }
}

/// How many days of a year lie before one of its months.
pub open spec fn days_before_month(y: int, m: int) -> int
    decreases m,
{
    if m <= 1 {
        0
    } else {
        days_before_month(y, m - 1) + month_days(y, m - 1)
    }
}

/// How many days lie between the first of January of year 1 and of year `y`.
pub open spec fn days_before_year(y: int) -> int {
    365 * (y - 1) + (y - 1) / 4 - (y - 1) / 100 + (y - 1) / 400
}

/// Whether year, month and day name a day of the Gregorian calendar.
pub open spec fn is_date(y: int, m: int, d: int) -> bool {
    1 <= m <= 12 && 1 <= d <= month_days(y, m)
}

/// The number of a day, counted from 1970-01-01.
pub open spec fn day_number(y: int, m: int, d: int) -> int {
    days_before_year(y) - days_before_year(1970) + days_before_month(y, m) + d - 1
}

proof fn lemma_months(y: int)
    ensures
        days_before_month(y, 1) == 0,
        days_before_month(y, 2) == 31,
        days_before_month(y, 3) == 59 + (if leap(y) { 1int } else { 0 }),
        days_before_month(y, 4) == 90 + (if leap(y) { 1int } else { 0 }),
        days_before_month(y, 5) == 120 + (if leap(y) { 1int } else { 0 }),
        days_before_month(y, 6) == 151 + (if leap(y) { 1int } else { 0 }),
        days_before_month(y, 7) == 181 + (if leap(y) { 1int } else { 0 }),
        days_before_month(y, 8) == 212 + (if leap(y) { 1int } else { 0 }),
        days_before_month(y, 9) == 243 + (if leap(y) { 1int } else { 0 }),
        days_before_month(y, 10) == 273 + (if leap(y) { 1int } else { 0 }),
        days_before_month(y, 11) == 304 + (if leap(y) { 1int } else { 0 }),
        days_before_month(y, 12) == 334 + (if leap(y) { 1int } else { 0 }),
{
    assert(days_before_month(y, 2) == days_before_month(y, 1) + month_days(y, 1));
    assert(days_before_month(y, 3) == days_before_month(y, 2) + month_days(y, 2));
    assert(days_before_month(y, 4) == days_before_month(y, 3) + month_days(y, 3));
    assert(days_before_month(y, 5) == days_before_month(y, 4) + month_days(y, 4));
    assert(days_before_month(y, 6) == days_before_month(y, 5) + month_days(y, 5));
    assert(days_before_month(y, 7) == days_before_month(y, 6) + month_days(y, 6));
    assert(days_before_month(y, 8) == days_before_month(y, 7) + month_days(y, 7));
    assert(days_before_month(y, 9) == days_before_month(y, 8) + month_days(y, 8));
    assert(days_before_month(y, 10) == days_before_month(y, 9) + month_days(y, 9));
    assert(days_before_month(y, 11) == days_before_month(y, 10) + month_days(y, 10));
    assert(days_before_month(y, 12) == days_before_month(y, 11) + month_days(y, 11));
}

/// A year is as long as its months together.
proof fn lemma_year_length(y: int)
    ensures
        days_before_year(y + 1) - days_before_year(y) == 365 + (if leap(y) { 1int } else { 0 }),
{
    lemma_quotient_step(y, 4);
    lemma_quotient_step(y, 100);
    lemma_quotient_step(y, 400);
    assert(leap(y) == (y % 4 == 0 && (y % 100 != 0 || y % 400 == 0)));
    lemma_multiples(y);
}

proof fn lemma_multiples(y: int)
    ensures
        y % 400 == 0 ==> y % 100 == 0,
        y % 100 == 0 ==> y % 4 == 0,
{
}

/// A quotient grows by one where the next multiple is reached.
proof fn lemma_quotient_step(y: int, k: int)
    requires
        k > 0,
    ensures
        y / k - (y - 1) / k == if y % k == 0 { 1int } else { 0 },
{
    let q = y / k;
    let r = y % k;
    vstd::arithmetic::div_mod::lemma_fundamental_div_mod(y, k);
    if r > 0 {
        vstd::arithmetic::div_mod::lemma_fundamental_div_mod_converse(y - 1, k, q, r - 1);
    } else {
        assert((q - 1) * k == k * q - k) by (nonlinear_arith);
        vstd::arithmetic::div_mod::lemma_fundamental_div_mod_converse(y - 1, k, q - 1, k - 1);
    }
}

proof fn lemma_years_grow(a: int, b: int)
    requires
        a <= b,
    ensures
        days_before_year(a) + 365 * (b - a) <= days_before_year(b),
    decreases b - a,
{
    if a < b {
        lemma_years_grow(a, b - 1);
        lemma_year_length(b - 1);
    }
}

proof fn lemma_day_in_year(y: int, m: int, d: int)
    requires
        is_date(y, m, d),
    ensures
        0 <= days_before_month(y, m) + d - 1 < 365 + (if leap(y) { 1int } else { 0 }),
{
    lemma_months(y);
}

proof fn lemma_month_unique(y: int, m: int, d: int, n: int, e: int)
    requires
        is_date(y, m, d),
        is_date(y, n, e),
        days_before_month(y, m) + d == days_before_month(y, n) + e,
    ensures
        m == n,
        d == e,
{
    lemma_months(y);
}

/// Days and dates belong together: no two dates have the same number.
pub proof fn law_dates_are_distinct(y: int, m: int, d: int, z: int, n: int, e: int)
    requires
        is_date(y, m, d),
        is_date(z, n, e),
        day_number(y, m, d) == day_number(z, n, e),
    ensures
        y == z,
        m == n,
        d == e,
{
    lemma_day_in_year(y, m, d);
    lemma_day_in_year(z, n, e);
    if y < z {
        lemma_year_length(y);
        lemma_years_grow(y + 1, z);
    } else if z < y {
        lemma_year_length(z);
        lemma_years_grow(z + 1, y);
    }
    lemma_month_unique(y, m, d, n, e);
}

/// The days of four centuries, cut into years that start with March.
#[verifier::spinoff_prover]
#[verifier::rlimit(60)]
proof fn lemma_march_years(doe: int, yoe: int)
    requires
        0 <= doe < 146097,
        yoe == (doe - doe / 1460 + doe / 36524 - doe / 146096) / 365,
    ensures
        0 <= yoe < 400,
        0 <= doe - (365 * yoe + yoe / 4 - yoe / 100),
        doe - (365 * yoe + yoe / 4 - yoe / 100) < 365 || (doe - (365 * yoe + yoe / 4 - yoe / 100) == 365
            && leap(yoe + 1)),
{
}

/// Month and day of a day of a year that starts with March of year `y`.
proof fn lemma_march_months(y: int, doy: int, mp: int)
    requires
        0 <= doy < 365 || (doy == 365 && leap(y + 1)),
        mp == (5 * doy + 2) / 153,
    ensures
        0 <= mp < 12,
        1 <= doy - (153 * mp + 2) / 5 + 1,
        mp < 10 ==> doy - (153 * mp + 2) / 5 + 1 <= month_days(y, mp + 3) && days_before_month(
            y,
            mp + 3,
        ) + doy - (153 * mp + 2) / 5 == 59 + (if leap(y) {
            1int
        } else {
            0
        }) + doy,
        mp >= 10 ==> doy - (153 * mp + 2) / 5 + 1 <= month_days(y + 1, mp - 9)
            && days_before_month(y + 1, mp - 9) + doy - (153 * mp + 2) / 5 == doy - 306,
{
    lemma_months(y);
    lemma_months(y + 1);
}

/// The date of a day, given by its number from 1970-01-01.
pub fn civil_from_days(z: i64) -> (date: (i64, u32, u32))
    requires
        z <= i64::MAX - 719_468,
    ensures
        is_date(date.0 as int, date.1 as int, date.2 as int),
        day_number(date.0 as int, date.1 as int, date.2 as int) == z,
        forall|y: int, m: int, d: int|
            is_date(y, m, d) && #[trigger] day_number(y, m, d) == z ==> date.0 == y && date.1 == m
                && date.2 == d,
{
    let shifted: i64 = z + 719_468;
    let era: i64 = if shifted >= 0 {
        shifted / 146_097
    } else {
        -((-(shifted - 146_096)) / 146_097)
    };
    assert(era == shifted as int / 146_097);
    let doe: i64 = shifted - era * 146_097;
    let yoe: i64 = (doe - doe / 1460 + doe / 36_524 - doe / 146_096) / 365;
    proof {
        lemma_march_years(doe as int, yoe as int);
    }
    let y: i64 = yoe + era * 400;
    let doy: i64 = doe - (365 * yoe + yoe / 4 - yoe / 100);
    let mp: i64 = (5 * doy + 2) / 153;
    proof {
        lemma_march_to_january(z as int, era as int, yoe as int, doy as int);
        lemma_march_months(y as int, doy as int, mp as int);
    }
    let day: u32 = (doy - (153 * mp + 2) / 5 + 1) as u32;
    let month: u32 = (if mp < 10 {
        mp + 3
    } else {
        mp - 9
    }) as u32;
    let year: i64 = if month <= 2 {
        y + 1
    } else {
        y
    };
    proof {
        lemma_only_date(year as int, month as int, day as int, z as int);
    }
    (year, month, day)
}

proof fn lemma_only_date(y: int, m: int, d: int, z: int)
    requires
        is_date(y, m, d),
        day_number(y, m, d) == z,
    ensures
        forall|a: int, b: int, c: int|
            is_date(a, b, c) && #[trigger] day_number(a, b, c) == z ==> y == a && m == b && d == c,
{
    assert forall|a: int, b: int, c: int|
        is_date(a, b, c) && #[trigger] day_number(a, b, c) == z implies y == a && m == b && d
        == c by {
        law_dates_are_distinct(a, b, c, y, m, d);
    }
}

/// Where the year that starts with March lies among the days.
proof fn lemma_march_to_january(z: int, era: int, yoe: int, doy: int)
    requires
        0 <= yoe < 400,
        z + 719_468 == era * 146_097 + 365 * yoe + yoe / 4 - yoe / 100 + doy,
    ensures
        z == days_before_year(yoe + era * 400) - days_before_year(1970) + 59 + (if leap(
            yoe + era * 400,
        ) {
            1int
        } else {
            0
        }) + doy,
        z == days_before_year(yoe + era * 400 + 1) - days_before_year(1970) + doy - 306,
        leap(yoe + era * 400 + 1) == leap(yoe + 1),
{
    let y = yoe + era * 400;
    lemma_era(yoe, era);
    lemma_era(yoe + 1, era);
    lemma_year_length(y);
    assert(days_before_year(1970) == 719_162);
    assert(days_before_year(y + 1) == 365 * y + y / 4 - y / 100 + y / 400);
}

/// Four centuries later the calendar is the same.
proof fn lemma_era(n: int, era: int)
    requires
        0 <= n <= 400,
    ensures
        (n + era * 400) / 4 == n / 4 + era * 100,
        (n + era * 400) / 100 == n / 100 + era * 4,
        (n + era * 400) / 400 == n / 400 + era,
        leap(n + era * 400) == leap(n),
{
    assert((n + era * 400) % 4 == n % 4);
    assert((n + era * 400) % 100 == n % 100);
    assert((n + era * 400) % 400 == n % 400);
}

/// A moment in the form `2026-05-25T18:00:00.000Z`.
pub open spec fn stamp(y: int, mo: int, d: int, h: int, mi: int, s: int, ms: int) -> Seq<char> {
    zero_padded(y as nat, 4) + "-"@ + zero_padded(mo as nat, 2) + "-"@ + zero_padded(d as nat, 2)
        + "T"@ + zero_padded(h as nat, 2) + ":"@ + zero_padded(mi as nat, 2) + ":"@ + zero_padded(
        s as nat,
        2,
    ) + "."@ + zero_padded(ms as nat, 3) + "Z"@
}

/// Whether `text` names the moment `secs` seconds and `millis` milliseconds after
/// the start of 1970, with the date `y`-`mo`-`d`.
pub open spec fn stamps(text: Seq<char>, secs: int, millis: int, y: int, mo: int, d: int) -> bool {
    text == stamp(y, mo, d, (secs / 3600) % 24, (secs / 60) % 60, secs % 60, millis)
}

/// The number that two digits give.
pub open spec fn two_digits(text: Seq<char>, i: int) -> int {
    10 * digit_at(text, i) + digit_at(text, i + 1)
}

/// Whether a text tells a moment, read from its end: the milliseconds, the time of the day
/// by its hours, minutes and seconds, and the day by its year, month and day.
pub open spec fn tells(text: Seq<char>, secs: int, millis: int) -> bool {
    let n = text.len() as int;
    let (h, mi, s) = (two_digits(text, n - 13), two_digits(text, n - 10), two_digits(text, n - 7));
    let (y, mo, d) = (
        digits_value(text.take(n - 20)) as int,
        two_digits(text, n - 19),
        two_digits(text, n - 16),
    );
    &&& n >= 24
    &&& text[n - 20] == '-' && text[n - 17] == '-' && text[n - 14] == 'T'
    &&& text[n - 11] == ':' && text[n - 8] == ':' && text[n - 5] == '.' && text[n - 1] == 'Z'
    &&& 0 <= h < 24 && 0 <= mi < 60 && 0 <= s < 60
    &&& (h * 60 + mi) * 60 + s == secs % 86400
    &&& 100 * digit_at(text, n - 4) + two_digits(text, n - 3) == millis
    &&& is_date(y, mo, d)
    &&& day_number(y, mo, d) == secs / 86400
}

proof fn lemma_time_of_day(secs: int)
    requires
        secs >= 0,
    ensures
        ((secs / 3600) % 24 * 60 + (secs / 60) % 60) * 60 + secs % 60 == secs % 86400,
        0 <= (secs / 3600) % 24 < 24,
        0 <= (secs / 60) % 60 < 60,
        0 <= secs % 60 < 60,
{
    let (q, r) = (secs / 86400, secs % 86400);
    assert(secs == 86400 * q + r);
    assert(secs / 3600 == 24 * q + r / 3600);
    assert(secs / 60 == 1440 * q + r / 60);
    assert((secs / 3600) % 24 == r / 3600);
    assert((secs / 60) % 60 == (r / 60) % 60);
    assert(secs % 60 == r % 60);
}

proof fn lemma_stamp(y: int, mo: int, d: int, h: int, mi: int, s: int, ms: int)
    requires
        0 <= y && 0 <= mo < 100 && 0 <= d < 100 && 0 <= h < 100 && 0 <= mi < 100 && 0 <= s < 100,
        0 <= ms < 1000,
    ensures
        ({
            let t = stamp(y, mo, d, h, mi, s, ms);
            let n = t.len() as int;
            &&& n == zero_padded(y as nat, 4).len() + 20
            &&& n >= 24
            &&& t.take(n - 20) == zero_padded(y as nat, 4)
            &&& t[n - 20] == '-' && t[n - 17] == '-' && t[n - 14] == 'T'
            &&& t[n - 11] == ':' && t[n - 8] == ':' && t[n - 5] == '.' && t[n - 1] == 'Z'
            &&& two_digits(t, n - 19) == mo && two_digits(t, n - 16) == d
            &&& two_digits(t, n - 13) == h && two_digits(t, n - 10) == mi
            &&& two_digits(t, n - 7) == s
            &&& 100 * digit_at(t, n - 4) + two_digits(t, n - 3) == ms
            &&& digits_value(t.take(n - 20)) == y
        }),
{
    law_zero_padded(y as nat);
    law_zero_padded(mo as nat);
    law_zero_padded(d as nat);
    law_zero_padded(h as nat);
    law_zero_padded(mi as nat);
    law_zero_padded(s as nat);
    law_zero_padded(ms as nat);
    reveal_strlit("-");
    reveal_strlit("T");
    reveal_strlit(":");
    reveal_strlit(".");
    reveal_strlit("Z");
    let year = zero_padded(y as nat, 4);
    let t = stamp(y, mo, d, h, mi, s, ms);
    assert(t.take(year.len() as int) =~= year);
}

proof fn lemma_not_before_1970(y: int, m: int, d: int)
    requires
        is_date(y, m, d),
        day_number(y, m, d) >= 0,
    ensures
        y >= 1970,
{
    lemma_day_in_year(y, m, d);
    if y < 1970 {
        lemma_year_length(y);
        lemma_years_grow(y + 1, 1970);
    }
}

/// The time stamp of a moment, given as seconds and milliseconds since the start
/// of 1970 in UTC.
pub fn now_rfc3339(secs: u64, millis: u32) -> (text: String)
    ensures
        exists|y: int, mo: int, d: int|
            is_date(y, mo, d) && #[trigger] day_number(y, mo, d) == secs / 86400 && stamps(
                text@,
                secs as int,
                millis as int,
                y,
                mo,
                d,
            ),
        forall|y: int, mo: int, d: int|
            is_date(y, mo, d) && #[trigger] day_number(y, mo, d) == secs / 86400 ==> stamps(
                text@,
                secs as int,
                millis as int,
                y,
                mo,
                d,
            ),
        millis < 1000 ==> tells(text@, secs as int, millis as int),
{
    let (y, mo, d) = civil_from_days((secs / 86400) as i64);
    proof {
        lemma_not_before_1970(y as int, mo as int, d as int);
    }
    let mut text = padded_text(y as u64, 4);
    text.append("-");
    text.append(padded_text(mo as u64, 2).as_str());
    text.append("-");
    text.append(padded_text(d as u64, 2).as_str());
    text.append("T");
    text.append(padded_text((secs / 3600) % 24, 2).as_str());
    text.append(":");
    text.append(padded_text((secs / 60) % 60, 2).as_str());
    text.append(":");
    text.append(padded_text(secs % 60, 2).as_str());
    text.append(".");
    text.append(padded_text(millis as u64, 3).as_str());
    text.append("Z");
    assert(stamps(text@, secs as int, millis as int, y as int, mo as int, d as int));
    assert(day_number(y as int, mo as int, d as int) == secs / 86400);
    proof {
        if millis < 1000 {
            law_stamp_tells_the_moment(text@, secs as int, millis as int, y as int, mo as int, d as int);
        }
    }
    text
}

/// The time stamp of a moment tells the moment: what is read back from it is the day, the
/// time of the day and the milliseconds.
pub proof fn law_stamp_tells_the_moment(
    text: Seq<char>,
    secs: int,
    millis: int,
    y: int,
    mo: int,
    d: int,
)
    requires
        0 <= secs,
        0 <= millis < 1000,
        is_date(y, mo, d),
        day_number(y, mo, d) == secs / 86400,
        stamps(text, secs, millis, y, mo, d),
    ensures
        tells(text, secs, millis),
{
    lemma_not_before_1970(y, mo, d);
    lemma_time_of_day(secs);
    lemma_stamp(y, mo, d, (secs / 3600) % 24, (secs / 60) % 60, secs % 60, millis);
}

// ---- the calendar --------------------------------------------------------------------

/// The calendar is the Gregorian one: day 0 is the first of January 1970, and each day is
/// followed by the next of its month, by the first of the next month, or by the first of
/// the next year. A year has a 29th of February if four divides it, but not if a hundred
/// does and four hundred does not.
pub proof fn law_days_follow_each_other(y: int, m: int, d: int)
    requires
        is_date(y, m, d),
    ensures
        ({
            let leap_year = if y % 400 == 0 {
                true
            } else if y % 100 == 0 {
                false
            } else {
                y % 4 == 0
            };
            let length: int = if m == 2 && leap_year {
                29
            } else if m == 2 {
                28
            } else if m == 4 || m == 6 || m == 9 || m == 11 {
                30
            } else {
                31
            };
            &&& 1 <= m <= 12 && 1 <= d <= length
            &&& forall|e: int| 1 <= e <= length ==> #[trigger] is_date(y, m, e)
            &&& d < length ==> day_number(y, m, d + 1) == day_number(y, m, d) + 1
            &&& d == length && m < 12 ==> is_date(y, m + 1, 1) && day_number(y, m + 1, 1)
                == day_number(y, m, d) + 1
            &&& d == length && m == 12 ==> is_date(y + 1, 1, 1) && day_number(y + 1, 1, 1)
                == day_number(y, m, d) + 1
        }),
        is_date(1970, 1, 1),
        day_number(1970, 1, 1) == 0,
{
    lemma_months(y);
    lemma_months(1970);
    lemma_months(y + 1);
    lemma_year_length(y);
    lemma_multiples(y);
}

proof fn lemma_dates_grow(y: int, m: int, d: int, z: int, n: int, e: int)
    requires
        is_date(y, m, d),
        is_date(z, n, e),
        day_number(y, m, d) < day_number(z, n, e),
    ensures
        y < z || y == z && (m < n || m == n && d < e),
{
    lemma_day_in_year(y, m, d);
    lemma_day_in_year(z, n, e);
    if z < y {
        lemma_year_length(z);
        lemma_years_grow(z + 1, y);
    } else if y == z {
        lemma_months(y);
    }
}

proof fn lemma_before_digit(a: int, b: int, x: Seq<char>, y: Seq<char>)
    requires
        0 <= a < b <= 9,
    ensures
        before(seq![(48 + a) as char] + x, seq![(48 + b) as char] + y),
{
    assert((seq![(48 + a) as char] + x)[0] == (48 + a) as char);
    assert((seq![(48 + b) as char] + y)[0] == (48 + b) as char);
}

proof fn lemma_before_two(n: int, m: int, x: Seq<char>, y: Seq<char>)
    requires
        0 <= n < m < 100,
    ensures
        before(zero_padded(n as nat, 2) + x, zero_padded(m as nat, 2) + y),
{
    law_zero_padded(n as nat);
    law_zero_padded(m as nat);
    let (a, b) = (seq![(48 + n / 10) as char], seq![(48 + m / 10) as char]);
    let (c, d) = (seq![(48 + n % 10) as char], seq![(48 + m % 10) as char]);
    assert(zero_padded(n as nat, 2) + x =~= a + (c + x));
    assert(zero_padded(m as nat, 2) + y =~= b + (d + y));
    if n / 10 < m / 10 {
        lemma_before_digit(n / 10, m / 10, c + x, d + y);
    } else {
        lemma_before_digit(n % 10, m % 10, x, y);
        law_same_start(a, c + x, d + y);
    }
}

proof fn lemma_last_two(n: int)
    requires
        0 <= n,
    ensures
        n % 100 / 10 == n / 10 % 10,
        n % 100 % 10 == n % 10,
{
    let h = n / 100;
    assert(0 <= n - 100 * h < 100);
    assert(n % 100 == n - 100 * h);
    assert((n - 100 * h) / 10 == n / 10 - 10 * h);
}

proof fn lemma_quotients(a: int, b: int, c: int, d: int)
    requires
        0 <= a,
        0 <= b < 10,
        0 <= c < 10,
        0 <= d < 10,
    ensures
        (100 * b + 10 * c + d) / 100 == b,
        (100 * b + 10 * c + d) / 10 == 10 * b + c,
        (10 * b + c) % 10 == c,
        (100 * b + 10 * c + d) % 10 == d,
        (1000 * a + 100 * b + 10 * c + d) / 100 == 10 * a + b,
        (10 * a + b) % 10 == b,
        (1000 * a + 100 * b + 10 * c + d) / 10 == 100 * a + 10 * b + c,
        (100 * a + 10 * b + c) % 10 == c,
        (1000 * a + 100 * b + 10 * c + d) % 10 == d,
{
}

proof fn lemma_last_three(n: int)
    requires
        0 <= n,
    ensures
        n % 1000 / 100 == n / 100 % 10,
        n % 1000 / 10 % 10 == n / 10 % 10,
        n % 1000 % 10 == n % 10,
{
    let a = n / 1000;
    let r = n - 1000 * a;
    let b = r / 100;
    let s = r - 100 * b;
    let c = s / 10;
    let d = s - 10 * c;
    assert(n % 1000 == r);
    lemma_quotients(a, b, c, d);
    assert(r == 100 * b + 10 * c + d);
    assert(n == 1000 * a + 100 * b + 10 * c + d);
}

proof fn lemma_three(n: int)
    requires
        0 <= n < 1000,
    ensures
        zero_padded(n as nat, 3) == seq![(48 + n / 100) as char] + zero_padded((n % 100) as nat, 2),
{
    law_zero_padded(n as nat);
    law_zero_padded((n % 100) as nat);
    lemma_last_two(n);
    let (d, e) = (n / 10 % 10, n % 10);
    assert(zero_padded((n % 100) as nat, 2) == seq![(48 + d) as char, (48 + e) as char]);
    assert(zero_padded(n as nat, 3) =~= seq![(48 + n / 100) as char] + seq![
        (48 + d) as char,
        (48 + e) as char,
    ]);
}

proof fn lemma_four(n: int)
    requires
        0 <= n < 10000,
    ensures
        zero_padded(n as nat, 4) == seq![(48 + n / 1000) as char] + zero_padded(
            (n % 1000) as nat,
            3,
        ),
{
    law_zero_padded(n as nat);
    law_zero_padded((n % 1000) as nat);
    lemma_last_three(n);
    let (c, d, e) = (n / 100 % 10, n / 10 % 10, n % 10);
    assert(zero_padded((n % 1000) as nat, 3) == seq![
        (48 + c) as char,
        (48 + d) as char,
        (48 + e) as char,
    ]);
    assert(zero_padded(n as nat, 4) =~= seq![(48 + n / 1000) as char] + seq![
        (48 + c) as char,
        (48 + d) as char,
        (48 + e) as char,
    ]);
}

proof fn lemma_before_three(n: int, m: int, x: Seq<char>, y: Seq<char>)
    requires
        0 <= n < m < 1000,
    ensures
        before(zero_padded(n as nat, 3) + x, zero_padded(m as nat, 3) + y),
{
    lemma_three(n);
    lemma_three(m);
    let (a, b) = (seq![(48 + n / 100) as char], seq![(48 + m / 100) as char]);
    let (c, d) = (zero_padded((n % 100) as nat, 2), zero_padded((m % 100) as nat, 2));
    lemma_regroup(a, c, x);
    lemma_regroup(b, d, y);
    if n / 100 < m / 100 {
        lemma_before_digit(n / 100, m / 100, c + x, d + y);
    } else {
        lemma_before_two(n % 100, m % 100, x, y);
        law_same_start(a, c + x, d + y);
    }
}

proof fn lemma_before_four(n: int, m: int, x: Seq<char>, y: Seq<char>)
    requires
        0 <= n < m < 10000,
    ensures
        before(zero_padded(n as nat, 4) + x, zero_padded(m as nat, 4) + y),
{
    lemma_four(n);
    lemma_four(m);
    let (a, b) = (seq![(48 + n / 1000) as char], seq![(48 + m / 1000) as char]);
    let (c, d) = (zero_padded((n % 1000) as nat, 3), zero_padded((m % 1000) as nat, 3));
    lemma_regroup(a, c, x);
    lemma_regroup(b, d, y);
    if n / 1000 < m / 1000 {
        lemma_before_digit(n / 1000, m / 1000, c + x, d + y);
    } else {
        lemma_before_three(n % 1000, m % 1000, x, y);
        law_same_start(a, c + x, d + y);
    }
}

proof fn lemma_regroup(a: Seq<char>, b: Seq<char>, c: Seq<char>)
    ensures
        a + b + c == a + (b + c),
{
    assert(a + b + c =~= a + (b + c));
}

/// The end of a time stamp, from the milliseconds on.
spec fn from_millis(ms: int) -> Seq<char> {
    zero_padded(ms as nat, 3) + "Z"@
}

/// The end of a time stamp, from the seconds on.
spec fn from_seconds(s: int, ms: int) -> Seq<char> {
    zero_padded(s as nat, 2) + ("."@ + from_millis(ms))
}

/// The end of a time stamp, from the minutes on.
spec fn from_minutes(mi: int, s: int, ms: int) -> Seq<char> {
    zero_padded(mi as nat, 2) + (":"@ + from_seconds(s, ms))
}

/// The end of a time stamp, from the hours on.
spec fn from_hours(h: int, mi: int, s: int, ms: int) -> Seq<char> {
    zero_padded(h as nat, 2) + (":"@ + from_minutes(mi, s, ms))
}

/// The end of a time stamp, from the day on.
spec fn from_day(d: int, time: Seq<char>) -> Seq<char> {
    zero_padded(d as nat, 2) + ("T"@ + time)
}

/// The end of a time stamp, from the month on.
spec fn from_month(mo: int, d: int, time: Seq<char>) -> Seq<char> {
    zero_padded(mo as nat, 2) + ("-"@ + from_day(d, time))
}

proof fn lemma_stamp_parts(y: int, mo: int, d: int, h: int, mi: int, s: int, ms: int)
    ensures
        stamp(y, mo, d, h, mi, s, ms) == zero_padded(y as nat, 4) + ("-"@ + from_month(
            mo,
            d,
            from_hours(h, mi, s, ms),
        )),
{
    let (py, pm, pd) = (
        zero_padded(y as nat, 4),
        zero_padded(mo as nat, 2),
        zero_padded(d as nat, 2),
    );
    let (ph, pi, ps, pl) = (
        zero_padded(h as nat, 2),
        zero_padded(mi as nat, 2),
        zero_padded(s as nat, 2),
        zero_padded(ms as nat, 3),
    );
    let q1 = py + "-"@ + pm + "-"@ + pd + "T"@ + ph + ":"@ + pi + ":"@ + ps + "."@;
    lemma_regroup(q1, pl, "Z"@);
    let e1 = pl + "Z"@;
    let q2 = py + "-"@ + pm + "-"@ + pd + "T"@ + ph + ":"@ + pi + ":"@ + ps;
    lemma_regroup(q2, "."@, e1);
    let q3 = py + "-"@ + pm + "-"@ + pd + "T"@ + ph + ":"@ + pi + ":"@;
    lemma_regroup(q3, ps, "."@ + e1);
    let e2 = ps + ("."@ + e1);
    let q4 = py + "-"@ + pm + "-"@ + pd + "T"@ + ph + ":"@ + pi;
    lemma_regroup(q4, ":"@, e2);
    let q5 = py + "-"@ + pm + "-"@ + pd + "T"@ + ph + ":"@;
    lemma_regroup(q5, pi, ":"@ + e2);
    let e3 = pi + (":"@ + e2);
    let q6 = py + "-"@ + pm + "-"@ + pd + "T"@ + ph;
    lemma_regroup(q6, ":"@, e3);
    let q7 = py + "-"@ + pm + "-"@ + pd + "T"@;
    lemma_regroup(q7, ph, ":"@ + e3);
    let e4 = ph + (":"@ + e3);
    let q8 = py + "-"@ + pm + "-"@ + pd;
    lemma_regroup(q8, "T"@, e4);
    let q9 = py + "-"@ + pm + "-"@;
    lemma_regroup(q9, pd, "T"@ + e4);
    let e5 = pd + ("T"@ + e4);
    let q10 = py + "-"@ + pm;
    lemma_regroup(q10, "-"@, e5);
    let q11 = py + "-"@;
    lemma_regroup(q11, pm, "-"@ + e5);
    lemma_regroup(py, "-"@, pm + ("-"@ + e5));
}

proof fn lemma_later_time(h: int, mi: int, s: int, ms: int, h2: int, mi2: int, s2: int, ms2: int)
    requires
        0 <= h < 24 && 0 <= mi < 60 && 0 <= s < 60 && 0 <= ms < 1000,
        0 <= h2 < 24 && 0 <= mi2 < 60 && 0 <= s2 < 60 && 0 <= ms2 < 1000,
        (h * 60 + mi) * 60 + s < (h2 * 60 + mi2) * 60 + s2 || (h * 60 + mi) * 60 + s == (h2 * 60
            + mi2) * 60 + s2 && ms < ms2,
    ensures
        before(from_hours(h, mi, s, ms), from_hours(h2, mi2, s2, ms2)),
{
    let (a1, b1) = (from_millis(ms), from_millis(ms2));
    let (a2, b2) = (from_seconds(s, ms), from_seconds(s2, ms2));
    let (a3, b3) = (from_minutes(mi, s, ms), from_minutes(mi2, s2, ms2));
    if h < h2 {
        lemma_before_two(h, h2, ":"@ + a3, ":"@ + b3);
    } else {
        if mi < mi2 {
            lemma_before_two(mi, mi2, ":"@ + a2, ":"@ + b2);
        } else {
            if s < s2 {
                lemma_before_two(s, s2, "."@ + a1, "."@ + b1);
            } else {
                lemma_before_three(ms, ms2, "Z"@, "Z"@);
                law_same_start("."@, a1, b1);
                law_same_start(zero_padded(s as nat, 2), "."@ + a1, "."@ + b1);
            }
            law_same_start(":"@, a2, b2);
            law_same_start(zero_padded(mi as nat, 2), ":"@ + a2, ":"@ + b2);
        }
        law_same_start(":"@, a3, b3);
        law_same_start(zero_padded(h as nat, 2), ":"@ + a3, ":"@ + b3);
    }
}

proof fn lemma_later_day(
    y: int,
    mo: int,
    d: int,
    x: Seq<char>,
    z: int,
    n: int,
    e: int,
    w: Seq<char>,
)
    requires
        0 <= y < 10000 && 0 <= mo < 100 && 0 <= d < 100,
        0 <= z < 10000 && 0 <= n < 100 && 0 <= e < 100,
        y < z || y == z && (mo < n || mo == n && (d < e || d == e && before(x, w))),
    ensures
        before(
            zero_padded(y as nat, 4) + ("-"@ + from_month(mo, d, x)),
            zero_padded(z as nat, 4) + ("-"@ + from_month(n, e, w)),
        ),
{
    let (a1, b1) = (from_day(d, x), from_day(e, w));
    let (a2, b2) = (from_month(mo, d, x), from_month(n, e, w));
    if y < z {
        lemma_before_four(y, z, "-"@ + a2, "-"@ + b2);
    } else {
        if mo < n {
            lemma_before_two(mo, n, "-"@ + a1, "-"@ + b1);
        } else {
            if d < e {
                lemma_before_two(d, e, "T"@ + x, "T"@ + w);
            } else {
                law_same_start("T"@, x, w);
                law_same_start(zero_padded(d as nat, 2), "T"@ + x, "T"@ + w);
            }
            law_same_start("-"@, a1, b1);
            law_same_start(zero_padded(mo as nat, 2), "-"@ + a1, "-"@ + b1);
        }
        law_same_start("-"@, a2, b2);
        law_same_start(zero_padded(y as nat, 4), "-"@ + a2, "-"@ + b2);
    }
}

/// Of two moments before the year 10000, the later one has the greater time stamp.
pub proof fn law_later_is_greater(
    a: Seq<char>,
    secs: int,
    millis: int,
    y: int,
    mo: int,
    d: int,
    b: Seq<char>,
    secs_b: int,
    millis_b: int,
    z: int,
    n: int,
    e: int,
)
    requires
        0 <= secs && 0 <= millis < 1000,
        0 <= secs_b && 0 <= millis_b < 1000,
        secs < secs_b || secs == secs_b && millis < millis_b,
        is_date(y, mo, d) && day_number(y, mo, d) == secs / 86400,
        is_date(z, n, e) && day_number(z, n, e) == secs_b / 86400,
        y < 10000 && z < 10000,
        stamps(a, secs, millis, y, mo, d),
        stamps(b, secs_b, millis_b, z, n, e),
    ensures
        before(a, b),
{
    lemma_not_before_1970(y, mo, d);
    lemma_not_before_1970(z, n, e);
    lemma_time_of_day(secs);
    lemma_time_of_day(secs_b);
    let (h, mi, s) = ((secs / 3600) % 24, (secs / 60) % 60, secs % 60);
    let (h2, mi2, s2) = ((secs_b / 3600) % 24, (secs_b / 60) % 60, secs_b % 60);
    lemma_stamp_parts(y, mo, d, h, mi, s, millis);
    lemma_stamp_parts(z, n, e, h2, mi2, s2, millis_b);
    let (x, w) = (from_hours(h, mi, s, millis), from_hours(h2, mi2, s2, millis_b));
    if secs / 86400 < secs_b / 86400 {
        lemma_dates_grow(y, mo, d, z, n, e);
    } else {
        law_dates_are_distinct(y, mo, d, z, n, e);
        lemma_later_time(h, mi, s, millis, h2, mi2, s2, millis_b);
    }
    lemma_later_day(y, mo, d, x, z, n, e, w);
}

/// Every day has a date.
pub proof fn law_every_day_has_a_date(z: int)
    ensures
        exists|y: int, m: int, d: int| is_date(y, m, d) && #[trigger] day_number(y, m, d) == z,
{
    let shifted = z + 719_468;
    let era = shifted / 146_097;
    let doe = shifted - era * 146_097;
    let yoe = (doe - doe / 1460 + doe / 36_524 - doe / 146_096) / 365;
    lemma_march_years(doe, yoe);
    let y = yoe + era * 400;
    let doy = doe - (365 * yoe + yoe / 4 - yoe / 100);
    let mp = (5 * doy + 2) / 153;
    lemma_march_to_january(z, era, yoe, doy);
    lemma_march_months(y, doy, mp);
    let d = doy - (153 * mp + 2) / 5 + 1;
    if mp < 10 {
        assert(is_date(y, mp + 3, d) && day_number(y, mp + 3, d) == z);
    } else {
        assert(is_date(y + 1, mp - 9, d) && day_number(y + 1, mp - 9, d) == z);
    }
}

} // verus!
