use vstd::prelude::*;

verus! {

/// A calendar date in the proleptic Gregorian calendar.
///
/// Commit timestamps carry four-digit years, so well-formed dates keep their
/// year within `0..=9999`.
#[derive(Clone, Copy, PartialEq, Eq, Structural, Debug)]
pub struct Date {
    pub year: i32,
    pub month: u8,
    pub day: u8,
}

/// A calendar date with a time of day, as carried by commit timestamps.
#[derive(Clone, Copy, PartialEq, Eq, Structural, Debug)]
pub struct DateTime {
    pub date: Date,
    pub hour: u8,
    pub minute: u8,
    pub second: u8,
}

pub open spec fn is_leap_year(y: int) -> bool {
    y % 4 == 0 && (y % 100 != 0 || y % 400 == 0)
}

pub open spec fn days_in_month(y: int, m: int) -> int {
    if m == 2 {
        if is_leap_year(y) {
            29
        } else {
            28
        }
    } else if m == 4 || m == 6 || m == 9 || m == 11 {
        30
    } else {
        31
    }
}

pub open spec fn year_length(y: int) -> int {
    if is_leap_year(y) {
        366
    } else {
        365
    }
}

impl Date {
    pub open spec fn wf(self) -> bool {
        &&& 0 <= self.year <= 9999
        &&& 1 <= self.month <= 12
        &&& 1 <= self.day <= days_in_month(self.year as int, self.month as int)
    }
}

impl DateTime {
    pub open spec fn wf(self) -> bool {
        &&& self.date.wf()
        &&& self.hour < 24
        &&& self.minute < 60
        &&& self.second < 60
    }
}

/// Lexicographic order on (year, month, day).
pub open spec fn date_le(a: Date, b: Date) -> bool {
    ||| a.year < b.year
    ||| (a.year == b.year && a.month < b.month)
    ||| (a.year == b.year && a.month == b.month && a.day <= b.day)
}

pub open spec fn date_lt(a: Date, b: Date) -> bool {
    date_le(a, b) && a != b
}

/// Days spent in year `y` before the first of month `m`.
pub open spec fn days_before_month(y: int, m: int) -> int
    decreases m,
{
    if m <= 1 {
        0
    } else {
        days_before_month(y, m - 1) + days_in_month(y, m - 1)
    }
}

/// Days in all years before year `y`, counted from year 0.
pub open spec fn days_before_year(y: int) -> int
    decreases y,
{
    if y <= 0 {
        0
    } else {
        days_before_year(y - 1) + year_length(y - 1)
    }
}

/// A date's distance, in days, from 0000-01-01.
pub open spec fn spec_day_number(d: Date) -> int {
    days_before_year(d.year as int) + days_before_month(d.year as int, d.month as int) + d.day - 1
}

proof fn lemma_days_before_year_bounds(y: int)
    requires
        0 <= y,
    ensures
        365 * y <= days_before_year(y) <= 366 * y,
    decreases y,
{
    if y > 0 {
        lemma_days_before_year_bounds(y - 1);
    }
}

proof fn lemma_days_before_year_mono(y1: int, y2: int)
    requires
        y1 <= y2,
    ensures
        days_before_year(y1) <= days_before_year(y2),
    decreases y2 - y1,
{
    if y1 < y2 {
        lemma_days_before_year_mono(y1, y2 - 1);
    }
}

proof fn lemma_days_before_month_bounds(y: int, m: int)
    requires
        1 <= m <= 13,
    ensures
        0 <= days_before_month(y, m) <= 31 * (m - 1),
    decreases m,
{
    if m > 1 {
        lemma_days_before_month_bounds(y, m - 1);
    }
}

proof fn lemma_days_before_month_mono(y: int, m1: int, m2: int)
    requires
        1 <= m1 <= m2 <= 13,
    ensures
        days_before_month(y, m1) <= days_before_month(y, m2),
        m1 < m2 ==> days_before_month(y, m1) + days_in_month(y, m1) <= days_before_month(y, m2),
    decreases m2 - m1,
{
    if m1 < m2 {
        lemma_days_before_month_mono(y, m1 + 1, m2);
    }
}

proof fn lemma_year_days(y: int)
    ensures
        days_before_month(y, 13) == year_length(y),
{
    reveal_with_fuel(days_before_month, 13);
}

/// Day numbers respect the calendar order on well-formed dates.
pub proof fn lemma_day_number_le(a: Date, b: Date)
    requires
        a.wf(),
        b.wf(),
        date_le(a, b),
    ensures
        spec_day_number(a) <= spec_day_number(b),
{
    if a.year == b.year {
        if a.month < b.month {
            lemma_days_before_month_mono(a.year as int, a.month as int, b.month as int);
        }
    } else {
        lemma_days_before_month_mono(a.year as int, a.month as int, 13);
        lemma_year_days(a.year as int);
        lemma_days_before_year_mono(a.year + 1, b.year as int);
        lemma_days_before_month_bounds(b.year as int, b.month as int);
    }
}

/// Whether `y` is a leap year.
pub fn leap_year(y: i32) -> (r: bool)
    requires
        0 <= y,
    ensures
        r == is_leap_year(y as int),
{
    y % 4 == 0 && (y % 100 != 0 || y % 400 == 0)
}

/// How many days month `m` of year `y` has.
pub fn days_in_month_count(y: i32, m: u8) -> (r: u8)
    requires
        0 <= y,
        1 <= m <= 12,
    ensures
        r == days_in_month(y as int, m as int),
{
    if m == 2 {
        if leap_year(y) {
            29
        } else {
            28
        }
    } else if m == 4 || m == 6 || m == 9 || m == 11 {
        30
    } else {
        31
    }
}

/// The date's distance, in days, from 0000-01-01.
pub fn day_number(d: &Date) -> (n: i64)
    requires
        d.wf(),
    ensures
        n == spec_day_number(*d),
{
    let mut acc: i64 = 0;
    let mut y: i32 = 0;
    while y < d.year
        invariant
            0 <= y <= d.year <= 9999,
            acc == days_before_year(y as int),
        decreases d.year - y,
    {
        proof {
            lemma_days_before_year_bounds(y as int);
        }
        if leap_year(y) {
            acc = acc + 366;
        } else {
            acc = acc + 365;
        }
        y = y + 1;
    }
    proof {
        lemma_days_before_year_bounds(d.year as int);
    }
    let mut m: u8 = 1;
    while m < d.month
        invariant
            1 <= m <= d.month <= 12,
            0 <= d.year <= 9999,
            days_before_year(d.year as int) <= 366 * 9999,
            acc == days_before_year(d.year as int) + days_before_month(d.year as int, m as int),
        decreases d.month - m,
    {
        proof {
            lemma_days_before_month_bounds(d.year as int, m as int);
        }
        acc = acc + days_in_month_count(d.year, m) as i64;
        m = m + 1;
    }
    proof {
        lemma_days_before_month_bounds(d.year as int, d.month as int);
    }
    acc + d.day as i64 - 1
}

pub fn date_lt_check(a: &Date, b: &Date) -> (r: bool)
    ensures
        r == date_lt(*a, *b),
{
    if a.year != b.year {
        a.year < b.year
    } else if a.month != b.month {
        a.month < b.month
    } else {
        a.day < b.day
    }
}

/// The given date moved to another year; February 29 becomes March 1 in a
/// year that is not a leap year.
pub open spec fn spec_change_year(d: Date, year: int) -> Date {
    if d.year == year {
        d
    } else if d.month == 2 && d.day == 29 && !is_leap_year(year) {
        Date { year: year as i32, month: 3, day: 1 }
    } else {
        Date { year: year as i32, month: d.month, day: d.day }
    }
}

pub fn change_year(original: &Date, year: i32) -> (r: Date)
    requires
        original.wf(),
        0 <= year <= 9999,
    ensures
        r == spec_change_year(*original, year as int),
        r.wf(),
{
    if original.year == year {
        return *original;
    }
    let mut month = original.month;
    let mut day = original.day;
    if month == 2 && day == 29 {
        if !leap_year(year) {
            month = 3;
            day = 1;
        }
    }
    Date { year, month, day }
}

/// The next anniversary of `date` on or after `today`: the same month and
/// day in the smallest admissible year, with February 29 moved to March 1
/// in years that are not leap years.
pub open spec fn spec_next_aniversary(date: Date, today: Date) -> Date {
    let candidate = spec_change_year(date, today.year as int);
    if date_lt(candidate, today) {
        spec_change_year(date, today.year + 1)
    } else {
        candidate
    }
}

pub fn next_aniversary_on(date: &Date, today: &Date) -> (r: Date)
    requires
        date.wf(),
        today.wf(),
        today.year < 9999,
    ensures
        r == spec_next_aniversary(*date, *today),
        r.wf(),
        date_le(*today, r),
        r.year == today.year || r.year == today.year + 1,
{
    let candidate = change_year(date, today.year);
    if date_lt_check(&candidate, today) {
        change_year(date, today.year + 1)
    } else {
        candidate
    }
}

/// The signed day count from `today` to the next anniversary of `date`.
pub fn days_until_on(date: &Date, today: &Date) -> (r: i64)
    requires
        date.wf(),
        today.wf(),
        today.year < 9999,
    ensures
        r == spec_day_number(spec_next_aniversary(*date, *today)) - spec_day_number(*today),
        r >= 0,
{
    let next = next_aniversary_on(date, today);
    let dn = day_number(&next);
    let dt = day_number(today);
    proof {
        lemma_day_number_le(*today, next);
        lemma_days_before_year_bounds(next.year as int);
        lemma_days_before_month_bounds(next.year as int, next.month as int);
        lemma_days_before_year_bounds(today.year as int);
        lemma_days_before_month_bounds(today.year as int, today.month as int);
    }
    dn - dt
}

/// How many years old `date` turns on its next anniversary.
pub open spec fn spec_age(date: Date, today: Date) -> int {
    spec_next_aniversary(date, today).year - date.year
}

pub fn age_on(date: &Date, today: &Date) -> (r: i64)
    requires
        date.wf(),
        today.wf(),
        today.year < 9999,
    ensures
        r == spec_age(*date, *today),
        r == spec_next_aniversary(*date, *today).year - date.year,
{
    let next = next_aniversary_on(date, today);
    next.year as i64 - date.year as i64
}

/// The age agrees with the anniversary: it counts the years from the original
/// date to the upcoming anniversary, which lies one year further out exactly
/// when this year's occurrence has already passed.
pub proof fn lemma_age_aniversary_consistent(date: Date, today: Date)
    requires
        date.wf(),
        today.wf(),
        today.year < 9999,
    ensures
        spec_next_aniversary(date, today).year - date.year == spec_age(date, today),
        spec_age(date, today) == if date_lt(spec_change_year(date, today.year as int), today) {
            today.year + 1 - date.year
        } else {
            today.year - date.year
        },
{
}

} // verus!
