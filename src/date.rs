//! Calendar dates and the birthday arithmetic built on them.
use chrono::Datelike;
use vstd::prelude::*;

verus! {

/// Smallest year that a calendar date can hold.
pub const MIN_YEAR: i32 = -262143;

/// Largest year that a calendar date can hold.
pub const MAX_YEAR: i32 = 262142;

/// A date of the proleptic Gregorian calendar.
#[derive(Clone, Copy, Debug, PartialEq, Eq, Structural)]
pub struct Date {
    pub year: i32,
    pub month: u32,
    pub day: u32,
}

pub open spec fn is_leap_year(y: int) -> bool {
    y % 4 == 0 && (y % 100 != 0 || y % 400 == 0)
}

pub open spec fn days_in_month(y: int, m: int) -> int {
    if m == 2 {
        if is_leap_year(y) { 29 } else { 28 }
    } else if m == 4 || m == 6 || m == 9 || m == 11 {
        30
    } else {
        31
    }
}

/// The triple names a day of the calendar that a `Date` can hold.
pub open spec fn valid_ymd(y: int, m: int, d: int) -> bool {
    &&& MIN_YEAR <= y <= MAX_YEAR
    &&& 1 <= m <= 12
    &&& 1 <= d <= days_in_month(y, m)
}

impl Date {
    pub open spec fn wf(self) -> bool {
        valid_ymd(self.year as int, self.month as int, self.day as int)
    }

    /// The date `y-m-d`, if the calendar has it.
    pub fn from_ymd_opt(y: i32, m: u32, d: u32) -> (r: Option<Date>)
        ensures
            r == (if valid_ymd(y as int, m as int, d as int) {
                Some(Date { year: y, month: m, day: d })
            } else {
                None
            }),
    {
        naive_from_ymd(y, m, d)
    }
}

/// Relies on chrono's `NaiveDate::from_ymd_opt`: `Some` exactly for a day of the
/// proleptic Gregorian calendar within chrono's year range, with the same
/// year, month and day.
#[verifier::external_body]
fn naive_from_ymd(y: i32, m: u32, d: u32) -> (r: Option<Date>)
    ensures
        r == (if valid_ymd(y as int, m as int, d as int) {
            Some(Date { year: y, month: m, day: d })
        } else {
            None
        }),
{
    match chrono::NaiveDate::from_ymd_opt(y, m, d) {
        Some(n) => Some(Date { year: n.year(), month: n.month(), day: n.day() }),
        None => None,
    }
}

/// Format of a date as members type it: `YYYY-MM-DD`.
pub const DATE_FORMAT: &'static str = "%Y-%m-%d";

/// The date that `text` holds under the strftime-style `format`, if any.
pub uninterp spec fn parsed_date(text: Seq<char>, format: Seq<char>) -> Option<Date>;

/// Relies on chrono's `NaiveDate::parse_from_str`: the result depends on the
/// text and the format alone, and a date it returns is a valid `NaiveDate`.
#[verifier::external_body]
fn parse_date_with(text: &str, format: &str) -> (r: Option<Date>)
    ensures
        r == parsed_date(text@, format@),
        r is Some ==> r->0.wf(),
{
    match chrono::NaiveDate::parse_from_str(text, format) {
        Ok(n) => Some(Date { year: n.year(), month: n.month(), day: n.day() }),
        Err(_) => None,
    }
}

impl Date {
    /// Reads a date written `YYYY-MM-DD`.
    pub fn parse_from_str(text: &str) -> (r: Option<Date>)
        ensures
            r == parsed_date(text@, DATE_FORMAT@),
            r is Some ==> r->0.wf(),
    {
        parse_date_with(text, DATE_FORMAT)
    }
}

/// `a` comes strictly before `b` in the calendar.
pub open spec fn date_lt(a: Date, b: Date) -> bool {
    a.year < b.year || (a.year == b.year && (a.month < b.month || (a.month == b.month
        && a.day < b.day)))
}

/// Month/day `a` comes strictly before month/day `b` within a year.
pub open spec fn month_day_lt(a: Date, b: Date) -> bool {
    a.month < b.month || (a.month == b.month && a.day < b.day)
}

pub open spec fn is_today_spec(birthday: Date, today: Date) -> bool {
    birthday.month == today.month && birthday.day == today.day
}

/// Whole years from `birthday` to `today`: the difference of the years, one
/// less while this year's anniversary is still ahead.
pub open spec fn age_spec(birthday: Date, today: Date) -> int {
    if month_day_lt(today, birthday) {
        today.year - birthday.year - 1
    } else {
        today.year - birthday.year
    }
}

/// Whether `birthday` falls on the month and day of `today`.
pub fn is_today(birthday: &Date, today: &Date) -> (r: bool)
    ensures
        r == is_today_spec(*birthday, *today),
{
    today.month == birthday.month && today.day == birthday.day
}

/// Age in whole years on `today` of someone born on `birthday`.
pub fn calculate_age(birthday: &Date, today: &Date) -> (r: i32)
    requires
        birthday.wf(),
        today.wf(),
    ensures
        r as int == age_spec(*birthday, *today),
{
    let mut age: i32 = today.year - birthday.year;
    if today.month < birthday.month || (today.month == birthday.month && today.day
        < birthday.day) {
        age = age - 1;
    }
    age
}

/// Days in the years before year `y`, counted from year 1.
pub open spec fn days_before_year(y: int) -> int {
    365 * (y - 1) + (y - 1) / 4 - (y - 1) / 100 + (y - 1) / 400
}

/// Days in the months of year `y` before month `m`.
pub open spec fn days_before_month(y: int, m: int) -> int {
    let common: int = if m == 1 {
        0
    } else if m == 2 {
        31
    } else if m == 3 {
        59
    } else if m == 4 {
        90
    } else if m == 5 {
        120
    } else if m == 6 {
        151
    } else if m == 7 {
        181
    } else if m == 8 {
        212
    } else if m == 9 {
        243
    } else if m == 10 {
        273
    } else if m == 11 {
        304
    } else {
        334
    };
    if m > 2 && is_leap_year(y) {
        common + 1
    } else {
        common
    }
}

/// Position of a date on the line of days, January 1st of year 1 being day 1.
pub open spec fn day_number(d: Date) -> int {
    days_before_year(d.year as int) + days_before_month(d.year as int, d.month as int) + d.day
}

/// Relies on chrono's `NaiveDate::signed_duration_since` and `TimeDelta::num_days`:
/// the signed number of days from `earlier` to `later`.
#[verifier::external_body]
fn days_since(later: &Date, earlier: &Date) -> (r: i64)
    requires
        later.wf(),
        earlier.wf(),
    ensures
        r as int == day_number(*later) - day_number(*earlier),
{
    let a = chrono::NaiveDate::from_ymd_opt(later.year, later.month, later.day).expect("valid date");
    let b = chrono::NaiveDate::from_ymd_opt(earlier.year, earlier.month, earlier.day).expect(
        "valid date",
    );
    a.signed_duration_since(b).num_days()
}

/// The first day on or after `today`, in this year or the next, whose month
/// and day are those of `birthday`; none where neither year has that day
/// (February 29th outside leap years).
pub open spec fn next_occurrence(birthday: Date, today: Date) -> Option<Date> {
    let this_year = Date { year: today.year, month: birthday.month, day: birthday.day };
    let next_year = Date { year: (today.year + 1) as i32, month: birthday.month, day: birthday.day };
    if this_year.wf() && !date_lt(this_year, today) {
        Some(this_year)
    } else if today.year < MAX_YEAR && next_year.wf() {
        Some(next_year)
    } else {
        None
    }
}

/// Days from `today` to the next occurrence of `birthday`, if there is one.
pub open spec fn days_until_spec(birthday: Date, today: Date) -> Option<int> {
    match next_occurrence(birthday, today) {
        Some(n) => Some(day_number(n) - day_number(today)),
        None => None,
    }
}

/// Days from `today` until the birthday comes round again: 0 when it is
/// today, `None` where neither this year nor the next has that day.
pub fn days_until_next_birthday(birthday: &Date, today: &Date) -> (r: Option<i64>)
    requires
        birthday.wf(),
        today.wf(),
    ensures
        r is Some <==> days_until_spec(*birthday, *today) is Some,
        r is Some ==> r->0 as int == days_until_spec(*birthday, *today)->0,
{
    let this_year = Date::from_ymd_opt(today.year, birthday.month, birthday.day);
    if let Some(next) = this_year {
        if !(next.year < today.year || (next.year == today.year && (next.month < today.month || (
        next.month == today.month && next.day < today.day)))) {
            return Some(days_since(&next, today));
        }
    }
    if today.year >= MAX_YEAR {
        return None;
    }
    match Date::from_ymd_opt(today.year + 1, birthday.month, birthday.day) {
        Some(next) => Some(days_since(&next, today)),
        None => None,
    }
}

proof fn lemma_div_step(y: int, n: int)
    requires
        n > 0,
    ensures
        y / n - (y - 1) / n == if y % n == 0 { 1int } else { 0int },
{
    let q = y / n;
    let r = y % n;
    vstd::arithmetic::div_mod::lemma_fundamental_div_mod(y, n);
    vstd::arithmetic::div_mod::lemma_mod_bound(y, n);
    if r == 0 {
        assert(y - 1 == (q - 1) * n + (n - 1)) by (nonlinear_arith)
            requires
                y == n * q,
        ;
        vstd::arithmetic::div_mod::lemma_fundamental_div_mod_converse(y - 1, n, q - 1, n - 1);
    } else {
        assert(y - 1 == q * n + (r - 1)) by (nonlinear_arith)
            requires
                y == n * q + r,
        ;
        vstd::arithmetic::div_mod::lemma_fundamental_div_mod_converse(y - 1, n, q, r - 1);
    }
}

proof fn lemma_divides_by_factor(y: int, n: int, f: int)
    requires
        n > 0,
        f > 0,
        y % (n * f) == 0,
    ensures
        y % n == 0,
{
    assert(n * f > 0) by (nonlinear_arith)
        requires
            n > 0,
            f > 0,
    ;
    vstd::arithmetic::div_mod::lemma_fundamental_div_mod(y, n * f);
    let k = y / (n * f);
    assert(y == (k * f) * n + 0) by (nonlinear_arith)
        requires
            y == (n * f) * k + y % (n * f),
            y % (n * f) == 0,
    ;
    vstd::arithmetic::div_mod::lemma_fundamental_div_mod_converse(y, n, k * f, 0);
}

proof fn lemma_year_length(y: int)
    ensures
        days_before_year(y + 1) - days_before_year(y) == if is_leap_year(y) { 366int } else { 365int },
{
    lemma_div_step(y, 4);
    lemma_div_step(y, 100);
    lemma_div_step(y, 400);
    if y % 400 == 0 {
        lemma_divides_by_factor(y, 100, 4);
    }
    if y % 100 == 0 {
        lemma_divides_by_factor(y, 4, 25);
    }
}

proof fn lemma_day_of_year_bounds(d: Date)
    requires
        d.wf(),
    ensures
        1 <= days_before_month(d.year as int, d.month as int) + d.day <= if is_leap_year(
            d.year as int,
        ) {
            366int
        } else {
            365int
        },
{
}

proof fn lemma_days_before_year_monotone(a: int, b: int)
    requires
        a <= b,
    ensures
        days_before_year(a) <= days_before_year(b),
    decreases b - a,
{
    if a < b {
        lemma_year_length(a);
        lemma_days_before_year_monotone(a + 1, b);
    }
}

/// Later dates have larger day numbers.
pub proof fn lemma_day_number_monotone(a: Date, b: Date)
    requires
        a.wf(),
        b.wf(),
        date_lt(a, b),
    ensures
        day_number(a) < day_number(b),
{
    if a.year < b.year {
        lemma_day_of_year_bounds(a);
        lemma_day_of_year_bounds(b);
        lemma_year_length(a.year as int);
        lemma_days_before_year_monotone(a.year + 1, b.year as int);
    } else if a.month < b.month {
        assert(days_before_month(a.year as int, a.month as int) + days_in_month(a.year as int, a.month as int)
            <= days_before_month(b.year as int, b.month as int));
    }
}

/// A birthday is zero days away exactly on the day whose month and day are
/// the birthday's.
pub proof fn lemma_days_until_zero_iff_today(birthday: Date, today: Date)
    requires
        birthday.wf(),
        today.wf(),
    ensures
        days_until_spec(birthday, today) == Some(0int) <==> is_today_spec(birthday, today),
{
    let this_year = Date { year: today.year, month: birthday.month, day: birthday.day };
    if is_today_spec(birthday, today) {
        assert(this_year == today);
    } else {
        match next_occurrence(birthday, today) {
            Some(n) => {
                assert(date_lt(today, n));
                lemma_day_number_monotone(today, n);
            },
            None => {},
        }
    }
}

/// The day after `d` in the calendar.
pub open spec fn next_day(d: Date) -> Date {
    if (d.day as int) < days_in_month(d.year as int, d.month as int) {
        Date { day: (d.day + 1) as u32, ..d }
    } else if d.month < 12 {
        Date { month: (d.month + 1) as u32, day: 1, ..d }
    } else {
        Date { year: (d.year + 1) as i32, month: 1, day: 1 }
    }
}

/// From the birth date on, age is never negative.
pub proof fn lemma_age_non_negative(birthday: Date, today: Date)
    requires
        birthday.wf(),
        today.wf(),
        !date_lt(today, birthday),
    ensures
        age_spec(birthday, today) >= 0,
{
}

/// From one day to the next, age goes up by exactly one on the day whose month
/// and day are the birthday's and stays the same on every other day; a
/// February 29th birthday, which outside leap years is passed on March 1st, is
/// left out for that day.
pub proof fn lemma_age_step(birthday: Date, today: Date)
    requires
        birthday.wf(),
        today.wf(),
        next_day(today).wf(),
        !(birthday.month == 2 && birthday.day == 29 && next_day(today).month == 3 && next_day(
            today,
        ).day == 1 && !is_leap_year(next_day(today).year as int)),
    ensures
        age_spec(birthday, next_day(today)) == age_spec(birthday, today) + if is_today_spec(
            birthday,
            next_day(today),
        ) {
            1int
        } else {
            0int
        },
{
}

} // verus!
