//! Calendar arithmetic: turning a count of days since 1970-01-01 into a
//! `YYYY-MM-DD` date in the proleptic Gregorian calendar.

use vstd::prelude::*;

use crate::text::{
    decimal, digits_value, lemma_before_after, lemma_before_then,
    lemma_before_transitive, lemma_digits_before, lemma_zero_padded_digits,
    lemma_zero_padded_value, push_zero_padded, text_before, zero_padded,
};

verus! {

/// Gregorian leap year rule.
pub open spec fn is_leap_year(y: int) -> bool {
    y % 4 == 0 && (y % 100 != 0 || y % 400 == 0)
}

/// Number of days in month `m` (1 = January) of year `y`.
pub open spec fn days_in_month(y: int, m: int) -> int {
    if m == 2 {
        if is_leap_year(y) {
            29
        } else {
            28
        }
    } else if m == 4 || m == 6 || m == 9 || m == 11 {
        30
    } else {
        31
    }
}

/// A real calendar date: month in 1..=12 and day within that month.
pub open spec fn is_valid_date(y: int, m: int, d: int) -> bool {
    1 <= m <= 12 && 1 <= d <= days_in_month(y, m)
}

/// Days of year `y` that lie before the first day of month `m`.
pub open spec fn days_before_month(y: int, m: int) -> int {
    let common: int = if m <= 1 {
        0
    } else if m == 2 {
        31
    } else if m == 3 {
        59
    } else if m == 4 {
        90
    } else if m == 5 {
        120
    } else if m == 6 {
        151
    } else if m == 7 {
        181
    } else if m == 8 {
        212
    } else if m == 9 {
        243
    } else if m == 10 {
        273
    } else if m == 11 {
        304
    } else {
        334
    };
    common + if m > 2 && is_leap_year(y) {
        1int
    } else {
        0int
    }
}

/// Number of leap years in `[1, y)` (extended to all integers through
/// floor division).
pub open spec fn leap_years_before(y: int) -> int {
    (y - 1) / 4 - (y - 1) / 100 + (y - 1) / 400
}

/// Number of days in year `y`.
pub open spec fn days_in_year(y: int) -> int {
    if is_leap_year(y) {
        366
    } else {
        365
    }
}

/// Day number of January 1st of year `y`, counted from 1970-01-01.
pub open spec fn year_start(y: int) -> int {
    365 * (y - 1970) + leap_years_before(y) - leap_years_before(1970)
}

/// Day number of a date, counted from 1970-01-01 (day 0).
pub open spec fn days_from_civil(y: int, m: int, d: int) -> int {
    year_start(y) + days_before_month(y, m) + d - 1
}

/// `(y, m, d)` is the date of day number `days`.
pub open spec fn is_date_of_day(days: int, y: int, m: int, d: int) -> bool {
    is_valid_date(y, m, d) && days_from_civil(y, m, d) == days
}

/// The date of day number `days`.
pub open spec fn date_of_day(days: int) -> (int, int, int) {
    choose|t: (int, int, int)| is_date_of_day(days, t.0, t.1, t.2)
}

/// `YYYY-MM-DD` with the year zero-padded to four characters and the
/// month and day to two (`{:04}-{:02}-{:02}`).
pub open spec fn date_text(y: int, m: int, d: int) -> Seq<char> {
    zero_padded(y, 4) + seq!['-'] + zero_padded(m, 2) + seq!['-'] + zero_padded(d, 2)
}

/// The `YYYY-MM-DD` text of day number `days`.
pub open spec fn date_string(days: int) -> Seq<char> {
    let t = date_of_day(days);
    date_text(t.0, t.1, t.2)
}

// ---------------------------------------------------------------------------
// Laws of the calendar model
// ---------------------------------------------------------------------------

/// The leap-year count grows by one exactly across a leap year.
pub proof fn lemma_leap_years_step(y: int)
    ensures
        leap_years_before(y + 1) == leap_years_before(y) + if is_leap_year(y) {
            1int
        } else {
            0int
        },
{
}

/// Each year starts where the previous one ends.
pub proof fn lemma_year_start_step(y: int)
    ensures
        year_start(y + 1) == year_start(y) + days_in_year(y),
{
    lemma_leap_years_step(y);
}

/// Months follow each other without gap within a year.
pub proof fn lemma_month_step(y: int, m: int)
    requires
        1 <= m < 12,
    ensures
        days_before_month(y, m + 1) == days_before_month(y, m) + days_in_month(y, m),
{
}

/// The last month ends where the year ends.
pub proof fn lemma_december_ends_year(y: int)
    ensures
        days_before_month(y, 12) + days_in_month(y, 12) == days_in_year(y),
{
}

/// Later years start later.
proof fn lemma_year_start_monotone(a: int, b: int)
    requires
        a <= b,
    ensures
        year_start(a) + 365 * (b - a) <= year_start(b),
    decreases b - a,
{
    if a < b {
        lemma_year_start_monotone(a, b - 1);
        lemma_year_start_step(b - 1);
    }
}

/// A valid date lies within its year.
proof fn lemma_date_within_year(y: int, m: int, d: int)
    requires
        is_valid_date(y, m, d),
    ensures
        year_start(y) <= days_from_civil(y, m, d) < year_start(y) + days_in_year(y),
{
}

/// Consecutive calendar days have consecutive day numbers.
pub proof fn lemma_next_day(y: int, m: int, d: int)
    requires
        is_valid_date(y, m, d),
    ensures
        d < days_in_month(y, m) ==> days_from_civil(y, m, d + 1) == days_from_civil(y, m, d) + 1,
        d == days_in_month(y, m) && m < 12 ==> days_from_civil(y, m + 1, 1) == days_from_civil(
            y,
            m,
            d,
        ) + 1,
        d == days_in_month(y, m) && m == 12 ==> days_from_civil(y + 1, 1, 1) == days_from_civil(
            y,
            m,
            d,
        ) + 1,
{
    lemma_year_start_step(y);
}

/// Two valid dates with the same day number are the same date.
pub proof fn lemma_date_unique(y1: int, m1: int, d1: int, y2: int, m2: int, d2: int)
    requires
        is_valid_date(y1, m1, d1),
        is_valid_date(y2, m2, d2),
        days_from_civil(y1, m1, d1) == days_from_civil(y2, m2, d2),
    ensures
        y1 == y2 && m1 == m2 && d1 == d2,
{
    lemma_date_within_year(y1, m1, d1);
    lemma_date_within_year(y2, m2, d2);
    if y1 < y2 {
        lemma_year_start_step(y1);
        lemma_year_start_monotone(y1 + 1, y2);
    } else if y2 < y1 {
        lemma_year_start_step(y2);
        lemma_year_start_monotone(y2 + 1, y1);
    }
    assert(y1 == y2);
}


/// Dates of the years 1000 to 9999 read `YYYY-MM-DD`: ten characters with
/// dashes at positions 4 and 7.
pub proof fn lemma_date_text_shape(y: int, m: int, d: int)
    requires
        is_valid_date(y, m, d),
        1000 <= y <= 9999,
    ensures
        zero_padded(y, 4).len() == 4,
        zero_padded(m, 2).len() == 2,
        zero_padded(d, 2).len() == 2,
        date_text(y, m, d).len() == 10,
        date_text(y, m, d)[4] == '-',
        date_text(y, m, d)[7] == '-',
{
    assert(decimal(y as nat).len() == 4) by {
        reveal_with_fuel(decimal, 4);
    }
    assert(decimal(m as nat).len() <= 2) by {
        reveal_with_fuel(decimal, 2);
    }
    assert(decimal(d as nat).len() <= 2) by {
        reveal_with_fuel(decimal, 2);
    }
}

// ---------------------------------------------------------------------------
// The day-number to date computation
// ---------------------------------------------------------------------------

/// Days of a 400-year cycle (starting on March 1st) that lie before the
/// cycle's March-based year `k`, for `0 <= k <= 400`.
spec fn cycle_days_before(k: int) -> int {
    365 * k + k / 4 - k / 100 + k / 400
}

/// The March-based year of the day `doe` of a 400-year cycle.
spec fn year_of_cycle(doe: int) -> int {
    (doe - doe / 1460 + doe / 36524 - doe / 146096) / 365
}

proof fn lemma_year_of_cycle(doe: int)
    requires
        0 <= doe < 146097,
    ensures
        0 <= year_of_cycle(doe) <= 399,
        cycle_days_before(year_of_cycle(doe)) <= doe < cycle_days_before(year_of_cycle(doe) + 1),
{
}


/// Days of a March-based year that lie before its month `mp` (0 = March).
spec fn march_days_before(mp: int) -> int {
    (153 * mp + 2) / 5
}

proof fn lemma_month_of_year(doy: int)
    requires
        0 <= doy < 366,
    ensures
        0 <= (5 * doy + 2) / 153 <= 11,
        march_days_before((5 * doy + 2) / 153) <= doy,
        (5 * doy + 2) / 153 < 11 ==> doy < march_days_before((5 * doy + 2) / 153 + 1),
{
}

/// The length of the March-based year `k` of a cycle is that of the
/// calendar year in which it ends.
proof fn lemma_cycle_year_length(era: int, k: int)
    requires
        0 <= k <= 399,
    ensures
        cycle_days_before(k + 1) - cycle_days_before(k) == days_in_year(era * 400 + k + 1),
{
    lemma_cycle_leap(k);
    lemma_leap_shift(era, k + 1);
}

/// The length of the March-based year `k` of a cycle is 365 days, plus one
/// when the calendar year `k + 1` is a leap year.
proof fn lemma_cycle_leap(k: int)
    requires
        0 <= k <= 399,
    ensures
        cycle_days_before(k + 1) - cycle_days_before(k) == days_in_year(k + 1),
{
    assert((k + 1) / 4 - k / 4 == if (k + 1) % 4 == 0 { 1int } else { 0int });
    assert((k + 1) / 100 - k / 100 == if (k + 1) % 100 == 0 { 1int } else { 0int });
    assert((k + 1) / 400 - k / 400 == if (k + 1) % 400 == 0 { 1int } else { 0int });
}

/// Leap years repeat every 400 years.
proof fn lemma_leap_shift(era: int, y: int)
    ensures
        is_leap_year(era * 400 + y) == is_leap_year(y),
{
    vstd::arithmetic::div_mod::lemma_mod_multiples_vanish(era * 100, y, 4);
    vstd::arithmetic::div_mod::lemma_mod_multiples_vanish(era * 4, y, 100);
    vstd::arithmetic::div_mod::lemma_mod_multiples_vanish(era, y, 400);
    assert(4 * (era * 100) + y == era * 400 + y);
    assert(100 * (era * 4) + y == era * 400 + y);
    assert(400 * era + y == era * 400 + y);
}

/// Leap years before a year inside a cycle.
proof fn lemma_leap_years_in_cycle(era: int, k: int)
    requires
        0 <= k <= 399,
    ensures
        leap_years_before(era * 400 + k + 1) == era * 97 + k / 4 - k / 100,
{
    assert((era * 400 + k) / 4 == era * 100 + k / 4);
    assert((era * 400 + k) / 100 == era * 4 + k / 100);
    assert((era * 400 + k) / 400 == era + k / 400);
}

/// The date computation on mathematical integers.
spec fn civil_from_days(days: int) -> (int, int, int) {
    let z = days + 719468;
    let era = z / 146097;
    let doe = z - era * 146097;
    let yoe = year_of_cycle(doe);
    let y = yoe + era * 400;
    let doy = doe - (365 * yoe + yoe / 4 - yoe / 100);
    let mp = (5 * doy + 2) / 153;
    let d = doy - (153 * mp + 2) / 5 + 1;
    let m = if mp < 10 {
        mp + 3
    } else {
        mp - 9
    };
    (if m <= 2 {
        y + 1
    } else {
        y
    }, m, d)
}

/// Day number of a day given by its cycle, March-based year, month and
/// day of month.
proof fn lemma_assemble(era: int, yoe: int, mp: int, d: int)
    requires
        0 <= yoe <= 399,
        0 <= mp <= 11,
    ensures
        ({
            let m = if mp < 10 {
                mp + 3
            } else {
                mp - 9
            };
            let y = if m <= 2 {
                yoe + era * 400 + 1
            } else {
                yoe + era * 400
            };
            days_from_civil(y, m, d) == era * 146097 + cycle_days_before(yoe) + march_days_before(mp)
                + d - 1 - 719468
        }),
{
    lemma_leap_years_in_cycle(era, yoe);
    lemma_leap_years_step(era * 400 + yoe);
    assert(leap_years_before(1970) == 477);
    assert(cycle_days_before(yoe) == 365 * yoe + yoe / 4 - yoe / 100);
    if mp >= 10 {
        lemma_leap_years_step(era * 400 + yoe + 1);
    }
}

/// Validity of the computed day of month.
proof fn lemma_valid_day(era: int, yoe: int, doy: int)
    requires
        0 <= yoe <= 399,
        0 <= doy < cycle_days_before(yoe + 1) - cycle_days_before(yoe),
    ensures
        ({
            let mp = (5 * doy + 2) / 153;
            let d = doy - march_days_before(mp) + 1;
            let m = if mp < 10 {
                mp + 3
            } else {
                mp - 9
            };
            let y = if m <= 2 {
                yoe + era * 400 + 1
            } else {
                yoe + era * 400
            };
            0 <= mp <= 11 && is_valid_date(y, m, d)
        }),
{
    lemma_cycle_year_length(era, yoe);
    lemma_month_of_year(doy);
}

/// The date computation yields the date of the day.
proof fn lemma_civil_from_days(days: int)
    ensures
        is_date_of_day(
            days,
            civil_from_days(days).0,
            civil_from_days(days).1,
            civil_from_days(days).2,
        ),
{
    let z = days + 719468;
    let era = z / 146097;
    let doe = z - era * 146097;
    assert(0 <= doe < 146097);
    let yoe = year_of_cycle(doe);
    lemma_year_of_cycle(doe);
    assert(cycle_days_before(yoe) == 365 * yoe + yoe / 4 - yoe / 100);
    let doy = doe - cycle_days_before(yoe);
    lemma_valid_day(era, yoe, doy);
    let mp = (5 * doy + 2) / 153;
    let d = doy - march_days_before(mp) + 1;
    lemma_assemble(era, yoe, mp, d);
}

/// Every day number has exactly one date.
pub proof fn lemma_date_of_day(days: int)
    ensures
        is_date_of_day(days, date_of_day(days).0, date_of_day(days).1, date_of_day(days).2),
        forall|y: int, m: int, d: int| #[trigger]
            is_date_of_day(days, y, m, d) ==> (y, m, d) == date_of_day(days),
{
    lemma_civil_from_days(days);
    let t = civil_from_days(days);
    assert(is_date_of_day(days, t.0, t.1, t.2));
    let c = date_of_day(days);
    assert forall|y: int, m: int, d: int| #[trigger] is_date_of_day(days, y, m, d) implies (
    y,
    m,
    d,
    ) == date_of_day(days) by {
        lemma_date_unique(y, m, d, c.0, c.1, c.2);
    }
}


/// The calendar date that follows `(y, m, d)`.
pub open spec fn next_date(y: int, m: int, d: int) -> (int, int, int) {
    if d < days_in_month(y, m) {
        (y, m, d + 1)
    } else if m < 12 {
        (y, m + 1, 1)
    } else {
        (y + 1, 1, 1)
    }
}

/// The date of a day from 1970-01-01 (day 0) to 9999-12-31 (day 2932896)
/// is a valid date of the years 1970 to 9999.
proof fn lemma_date_in_range(days: int)
    requires
        0 <= days <= 2932896,
    ensures
        is_valid_date(date_of_day(days).0, date_of_day(days).1, date_of_day(days).2),
        1970 <= date_of_day(days).0 <= 9999,
{
    lemma_date_of_day(days);
    let (y, m, d) = date_of_day(days);
    lemma_date_within_year(y, m, d);
    if y < 1970 {
        lemma_year_start_step(y);
        lemma_year_start_monotone(y + 1, 1970);
    }
    if y > 9999 {
        lemma_year_start_monotone(10000, y);
        assert(year_start(10000) == 2932897);
    }
}

/// Day by day from 1970-01-01 to 9999-12-31: each day's date is a valid
/// date of the years 1970 to 9999, its text reads `YYYY-MM-DD` (ten
/// characters, dashes at positions 4 and 7), and the next day's date is
/// the calendar date that follows it.
pub proof fn law_day_dates(days: int)
    requires
        0 <= days,
        days + 1 <= 2932896,
    ensures
        is_valid_date(date_of_day(days).0, date_of_day(days).1, date_of_day(days).2),
        1970 <= date_of_day(days).0 <= 9999,
        date_string(days).len() == 10,
        date_string(days)[4] == '-',
        date_string(days)[7] == '-',
        date_of_day(days + 1) == next_date(
            date_of_day(days).0,
            date_of_day(days).1,
            date_of_day(days).2,
        ),
        text_before(date_string(days), date_string(days + 1)),
{
    lemma_date_in_range(days);
    lemma_date_in_range(days + 1);
    lemma_date_of_day(days);
    lemma_date_of_day(days + 1);
    let (y, m, d) = date_of_day(days);
    lemma_date_text_shape(y, m, d);
    lemma_next_day(y, m, d);
    let n = next_date(y, m, d);
    assert(is_date_of_day(days + 1, n.0, n.1, n.2));
    lemma_date_text_shape(n.0, n.1, n.2);
    lemma_next_text_before(y, m, d);
}

/// Two zero-padded numbers of the same width sort as the numbers do.
proof fn lemma_padded_before(a: int, b: int, width: int)
    requires
        0 <= a < b,
        zero_padded(a, width).len() == width,
        zero_padded(b, width).len() == width,
    ensures
        text_before(zero_padded(a, width), zero_padded(b, width)),
{
    lemma_zero_padded_value(a, width);
    lemma_zero_padded_value(b, width);
    lemma_zero_padded_digits(a, width);
    lemma_zero_padded_digits(b, width);
    lemma_digits_before(zero_padded(a, width), zero_padded(b, width));
}

/// The text of a date of the years 1000 to 9999 sorts before the text of
/// the date that follows it, when that one is of those years too.
proof fn lemma_next_text_before(y: int, m: int, d: int)
    requires
        is_valid_date(y, m, d),
        1000 <= y <= 9999,
        is_valid_date(next_date(y, m, d).0, next_date(y, m, d).1, next_date(y, m, d).2),
        1000 <= next_date(y, m, d).0 <= 9999,
    ensures
        text_before(
            date_text(y, m, d),
            date_text(next_date(y, m, d).0, next_date(y, m, d).1, next_date(y, m, d).2),
        ),
{
    let (y2, m2, d2) = next_date(y, m, d);
    lemma_date_text_shape(y, m, d);
    lemma_date_text_shape(y2, m2, d2);
    let ys = zero_padded(y, 4);
    let ms = zero_padded(m, 2);
    let ds = zero_padded(d, 2);
    let ys2 = zero_padded(y2, 4);
    let ms2 = zero_padded(m2, 2);
    let ds2 = zero_padded(d2, 2);
    let dash = seq!['-'];
    if d < days_in_month(y, m) {
        lemma_padded_before(d, d2, 2);
        let p = ys + dash + ms + dash;
        lemma_before_after(p, ds, ds2);
        assert(date_text(y, m, d) =~= p + ds);
        assert(date_text(y2, m2, d2) =~= p + ds2);
    } else if m < 12 {
        lemma_padded_before(m, m2, 2);
        lemma_before_then(ms, ms2, dash + ds, dash + ds2);
        let p = ys + dash;
        lemma_before_after(p, ms + (dash + ds), ms2 + (dash + ds2));
        assert(date_text(y, m, d) =~= p + (ms + (dash + ds)));
        assert(date_text(y2, m2, d2) =~= p + (ms2 + (dash + ds2)));
    } else {
        lemma_padded_before(y, y2, 4);
        lemma_before_then(ys, ys2, dash + ms + dash + ds, dash + ms2 + dash + ds2);
        assert(date_text(y, m, d) =~= ys + (dash + ms + dash + ds));
        assert(date_text(y2, m2, d2) =~= ys2 + (dash + ms2 + dash + ds2));
    }
}

/// From 1970-01-01 to 9999-12-31 a later day's text sorts after an
/// earlier day's.
pub proof fn law_date_strings_ordered(a: int, b: int)
    requires
        0 <= a < b <= 2932896,
    ensures
        text_before(date_string(a), date_string(b)),
    decreases b - a,
{
    law_day_dates(b - 1);
    if a < b - 1 {
        law_date_strings_ordered(a, b - 1);
        lemma_date_string_len(a);
        lemma_date_string_len(b - 1);
        lemma_date_string_len(b);
        lemma_before_transitive(date_string(a), date_string(b - 1), date_string(b));
    }
}

/// The text of a day from 1970-01-01 to 9999-12-31 has ten characters.
proof fn lemma_date_string_len(days: int)
    requires
        0 <= days <= 2932896,
    ensures
        date_string(days).len() == 10,
{
    lemma_date_in_range(days);
    let (y, m, d) = date_of_day(days);
    lemma_date_text_shape(y, m, d);
}

/// Different days from 1970-01-01 to 9999-12-31 have different texts.
pub proof fn law_date_strings_distinct(a: int, b: int)
    requires
        0 <= a <= 2932896,
        0 <= b <= 2932896,
        a != b,
    ensures
        date_string(a) != date_string(b),
{
    lemma_date_in_range(a);
    lemma_date_in_range(b);
    lemma_date_of_day(a);
    lemma_date_of_day(b);
    let (ya, ma, da) = date_of_day(a);
    let (yb, mb, db) = date_of_day(b);
    lemma_date_text_shape(ya, ma, da);
    lemma_date_text_shape(yb, mb, db);
    let sa = date_text(ya, ma, da);
    let sb = date_text(yb, mb, db);
    if sa == sb {
        assert(sa.subrange(0, 4) =~= zero_padded(ya, 4));
        assert(sb.subrange(0, 4) =~= zero_padded(yb, 4));
        assert(sa.subrange(5, 7) =~= zero_padded(ma, 2));
        assert(sb.subrange(5, 7) =~= zero_padded(mb, 2));
        assert(sa.subrange(8, 10) =~= zero_padded(da, 2));
        assert(sb.subrange(8, 10) =~= zero_padded(db, 2));
        lemma_zero_padded_value(ya, 4);
        lemma_zero_padded_value(yb, 4);
        lemma_zero_padded_value(ma, 2);
        lemma_zero_padded_value(mb, 2);
        lemma_zero_padded_value(da, 2);
        lemma_zero_padded_value(db, 2);
        assert(digits_value(zero_padded(ya, 4)) == digits_value(zero_padded(yb, 4)));
        assert(digits_value(zero_padded(ma, 2)) == digits_value(zero_padded(mb, 2)));
        assert(digits_value(zero_padded(da, 2)) == digits_value(zero_padded(db, 2)));
    }
}

/// Converts a count of days since 1970-01-01 to `YYYY-MM-DD`.
pub fn days_since_epoch_to_date(days: i64) -> (r: String)
    requires
        days + 719468 <= i64::MAX,
    ensures
        r@ == date_string(days as int),
{
    let z = days + 719468;
    let era = z.checked_div_euclid(146097).unwrap();
    let doe = z - era * 146097;
    let yoe = (doe - doe / 1460 + doe / 36524 - doe / 146096) / 365;
    let y = yoe + era * 400;
    let doy = doe - (365 * yoe + yoe / 4 - yoe / 100);
    let mp = (5 * doy + 2) / 153;
    let d = doy - (153 * mp + 2) / 5 + 1;
    let m = if mp < 10 {
        mp + 3
    } else {
        mp - 9
    };
    let y = if m <= 2 {
        y + 1
    } else {
        y
    };
    proof {
        lemma_civil_from_days(days as int);
        lemma_date_of_day(days as int);
        assert(civil_from_days(days as int) == (y as int, m as int, d as int));
    }
    let mut s = String::new();
    push_zero_padded(&mut s, y, 4);
    s.append("-");
    push_zero_padded(&mut s, m, 2);
    s.append("-");
    push_zero_padded(&mut s, d, 2);
    proof {
        reveal_strlit("-");
    }
    assert(s@ =~= date_text(y as int, m as int, d as int));
    s
}

/// Today's date as `YYYY-MM-DD`, given the seconds elapsed since the
/// Unix epoch.
pub fn today_string(unix_seconds: u64) -> (r: String)
    ensures
        r@ == date_string(unix_seconds as int / 86400),
{
    let days = (unix_seconds / 86400) as i64;
    days_since_epoch_to_date(days)
}

} // verus!
