//! Calendar dates and the calendar arithmetic the grid and the navigation need.

use vstd::prelude::*;
use chrono::Datelike;
use chrono::Timelike;
use crate::text::{int_text, nat_text, push_decimal, push_signed};

verus! {

/// Earliest year that chrono's `NaiveDate` represents.
pub const MIN_YEAR: i32 = -262143;

/// Latest year that chrono's `NaiveDate` represents.
pub const MAX_YEAR: i32 = 262142;

/// A calendar date with a wall-clock time of day.
#[derive(Debug, Clone, Copy, PartialEq, Eq, Structural)]
pub struct PDate {
    pub year: i32,
    pub month: u32,
    pub day: u32,
    pub hour: u32,
    pub min: u32,
    pub sec: u32,
}

/// Leap years of the proleptic Gregorian calendar (`%` is Euclidean, so this also
/// holds for years before 1).
pub open spec fn is_leap_year(y: int) -> bool {
    (y % 4 == 0 && y % 100 != 0) || y % 400 == 0
}

/// Number of days of month `m` of year `y`.
pub open spec fn month_length(y: int, m: int) -> int {
    if m == 2 {
        if is_leap_year(y) { 29 } else { 28 }
    } else if m == 4 || m == 6 || m == 9 || m == 11 {
        30
    } else {
        31
    }
}

/// `(y, m, d)` names a day that exists, within the range of years chrono supports.
pub open spec fn is_real_date(y: int, m: int, d: int) -> bool {
    MIN_YEAR <= y <= MAX_YEAR && 1 <= m <= 12 && 1 <= d <= month_length(y, m)
}

/// Days from 0001-01-01 to the first of January of year `y` (negative before year 1).
pub open spec fn days_before_year(y: int) -> int {
    let p = y - 1;
    365 * p + p / 4 - p / 100 + p / 400
}

/// Days from the first of January of year `y` to the first of month `m`.
pub open spec fn days_before_month(y: int, m: int) -> int {
    let base: int = if m <= 1 {
        0
    } else if m == 2 {
        31
    } else if m == 3 {
        59
    } else if m == 4 {
        90
    } else if m == 5 {
        120
    } else if m == 6 {
        151
    } else if m == 7 {
        181
    } else if m == 8 {
        212
    } else if m == 9 {
        243
    } else if m == 10 {
        273
    } else if m == 11 {
        304
    } else {
        334
    };
    if m > 2 && is_leap_year(y) {
        base + 1
    } else {
        base
    }
}

/// Position of a day on the proleptic Gregorian time line; 0001-01-01 is day 0.
pub open spec fn day_number(y: int, m: int, d: int) -> int {
    days_before_year(y) + days_before_month(y, m) + d - 1
}

/// Weekday counted from Monday (0) to Sunday (6); 0001-01-01 was a Monday.
pub open spec fn weekday_of(y: int, m: int, d: int) -> int {
    day_number(y, m, d) % 7
}

/// The day `k` months after `(y, m, d)` (before it for negative `k`), with the day of
/// the month cut down to the length of the month reached; `None` when the year
/// reached lies outside the supported range.
pub open spec fn shift_months_spec(y: int, m: int, d: int, k: int) -> Option<(int, int, int)> {
    let t = y * 12 + (m - 1) + k;
    let ny = t / 12;
    let nm = t % 12 + 1;
    let nd = if d > month_length(ny, nm) {
        month_length(ny, nm)
    } else {
        d
    };
    if MIN_YEAR <= ny <= MAX_YEAR {
        Some((ny, nm, nd))
    } else {
        None
    }
}

/// Day number `x` belongs to a supported year.
pub open spec fn in_calendar(x: int) -> bool {
    day_number(MIN_YEAR as int, 1, 1) <= x <= day_number(MAX_YEAR as int, 12, 31)
}

pub open spec fn triple_view(r: Option<(i32, u32, u32)>) -> Option<(int, int, int)> {
    match r {
        Some(t) => Some((t.0 as int, t.1 as int, t.2 as int)),
        None => None,
    }
}

/// `d.m.yyyy` without leading zeros, as `PDate::fmt` writes it.
pub open spec fn dmy_text(date: PDate) -> Seq<char> {
    nat_text(date.day as nat) + seq!['.'] + nat_text(date.month as nat) + seq!['.'] + int_text(
        date.year as int,
    )
}

/// `d.m` without leading zeros.
pub open spec fn dm_text(date: PDate) -> Seq<char> {
    nat_text(date.day as nat) + seq!['.'] + nat_text(date.month as nat)
}

/// Why a date could not be built.
#[derive(Debug, Clone, Copy, PartialEq, Eq, Structural)]
pub enum DateError {
    /// No such day in the calendar, or no such time of day.
    InvalidDate,
}

impl PDate {
    /// The same time of day on another day.
    pub open spec fn on_day(self, y: int, m: int, d: int) -> PDate {
        PDate { year: y as i32, month: m as u32, day: d as u32, ..self }
    }

    /// The date `k` months later, as `add_months` gives it.
    pub open spec fn months_shifted(self, k: int) -> Option<PDate> {
        match shift_months_spec(self.year as int, self.month as int, self.day as int, k) {
            Some(t) => Some(self.on_day(t.0, t.1, t.2)),
            None => None,
        }
    }

    /// `r` is what `add_days` gives for a shift of `n` days.
    pub open spec fn days_shifted(self, n: int, r: Option<PDate>) -> bool {
        match r {
            Some(later) => later.has_real_day() && later.serial() == self.serial() + n
                && later.hour == self.hour && later.min == self.min && later.sec == self.sec,
            None => !in_calendar(self.serial() + n),
        }
    }

    /// 1970-01-01 at midnight, the date `default` gives.
    pub open spec fn default_date() -> PDate {
        PDate { year: 1970, month: 1, day: 1, hour: 0, min: 0, sec: 0 }
    }

    /// The date names a day that exists.
    pub open spec fn has_real_day(self) -> bool {
        is_real_date(self.year as int, self.month as int, self.day as int)
    }

    /// A real day with a valid time of day.
    pub open spec fn wf(self) -> bool {
        self.has_real_day() && self.hour < 24 && self.min < 60 && self.sec < 60
    }

    /// The day's position on the time line.
    pub open spec fn serial(self) -> int {
        day_number(self.year as int, self.month as int, self.day as int)
    }

    pub open spec fn weekday(self) -> int {
        weekday_of(self.year as int, self.month as int, self.day as int)
    }
}

/// Relies on chrono's `NaiveDate::from_ymd_opt`: it returns a date exactly when the
/// year lies in chrono's range and the month has that day.
#[verifier::external_body]
fn date_exists(year: i32, month: u32, day: u32) -> (r: bool)
    ensures
        r == is_real_date(year as int, month as int, day as int),
{
    chrono::NaiveDate::from_ymd_opt(year, month, day).is_some()
}

/// Relies on chrono's `Datelike::weekday` with `Weekday::num_days_from_monday`:
/// Monday gives 0 and Sunday 6.
#[verifier::external_body]
fn weekday_from_monday(year: i32, month: u32, day: u32) -> (r: u32)
    requires
        is_real_date(year as int, month as int, day as int),
    ensures
        r as int == weekday_of(year as int, month as int, day as int),
{
    match chrono::NaiveDate::from_ymd_opt(year, month, day) {
        Some(date) => date.weekday().num_days_from_monday(),
        None => 0,
    }
}

/// Weekday (Monday = 0) of the first day of the date's month.
pub fn first_day_in_month(date: PDate) -> (r: i32)
    requires
        date.has_real_day(),
    ensures
        r as int == weekday_of(date.year as int, date.month as int, 1),
        0 <= r < 7,
{
    weekday_from_monday(date.year, date.month, 1) as i32
}

/// Relies on chrono's `NaiveDate::signed_duration_since` and `TimeDelta::num_days`: the
/// signed number of days from the second day to the first.
#[verifier::external_body]
fn days_between(
    year: i32,
    month: u32,
    day: u32,
    from_year: i32,
    from_month: u32,
    from_day: u32,
) -> (r: i64)
    requires
        is_real_date(year as int, month as int, day as int),
        is_real_date(from_year as int, from_month as int, from_day as int),
    ensures
        r as int == day_number(year as int, month as int, day as int) - day_number(
            from_year as int,
            from_month as int,
            from_day as int,
        ),
{
    match (
        chrono::NaiveDate::from_ymd_opt(year, month, day),
        chrono::NaiveDate::from_ymd_opt(from_year, from_month, from_day),
    ) {
        (Some(a), Some(b)) => a.signed_duration_since(b).num_days(),
        _ => 0,
    }
}

/// Relies on chrono's `NaiveDate::checked_add_days`: the day `n` days later, or `None`
/// when it lies outside chrono's range.
#[verifier::external_body]
fn days_later(year: i32, month: u32, day: u32, n: u64) -> (r: Option<(i32, u32, u32)>)
    requires
        is_real_date(year as int, month as int, day as int),
    ensures
        match r {
            Some(t) => is_real_date(t.0 as int, t.1 as int, t.2 as int) && day_number(
                t.0 as int,
                t.1 as int,
                t.2 as int,
            ) == day_number(year as int, month as int, day as int) + n,
            None => !in_calendar(day_number(year as int, month as int, day as int) + n),
        },
{
    match chrono::NaiveDate::from_ymd_opt(year, month, day) {
        Some(date) => match date.checked_add_days(chrono::Days::new(n)) {
            Some(later) => Some((later.year(), later.month(), later.day())),
            None => None,
        },
        None => None,
    }
}

/// Relies on chrono's `NaiveDate::checked_sub_days`: the day `n` days earlier, or `None`
/// when it lies outside chrono's range.
#[verifier::external_body]
fn days_earlier(year: i32, month: u32, day: u32, n: u64) -> (r: Option<(i32, u32, u32)>)
    requires
        is_real_date(year as int, month as int, day as int),
    ensures
        match r {
            Some(t) => is_real_date(t.0 as int, t.1 as int, t.2 as int) && day_number(
                t.0 as int,
                t.1 as int,
                t.2 as int,
            ) == day_number(year as int, month as int, day as int) - n,
            None => !in_calendar(day_number(year as int, month as int, day as int) - n),
        },
{
    match chrono::NaiveDate::from_ymd_opt(year, month, day) {
        Some(date) => match date.checked_sub_days(chrono::Days::new(n)) {
            Some(earlier) => Some((earlier.year(), earlier.month(), earlier.day())),
            None => None,
        },
        None => None,
    }
}

/// Relies on chrono's `NaiveDate::checked_add_months`: the month number moves on by
/// `n`, the day is cut down to the length of the month reached, and the result is
/// `None` when the year reached is out of chrono's range.
#[verifier::external_body]
fn months_later(year: i32, month: u32, day: u32, n: u32) -> (r: Option<(i32, u32, u32)>)
    requires
        is_real_date(year as int, month as int, day as int),
    ensures
        triple_view(r) == shift_months_spec(year as int, month as int, day as int, n as int),
{
    match chrono::NaiveDate::from_ymd_opt(year, month, day) {
        Some(date) => match date.checked_add_months(chrono::Months::new(n)) {
            Some(later) => Some((later.year(), later.month(), later.day())),
            None => None,
        },
        None => None,
    }
}

/// Relies on chrono's `NaiveDate::checked_sub_months`: the month number moves back by
/// `n`, the day is cut down to the length of the month reached, and the result is
/// `None` when the year reached is out of chrono's range.
#[verifier::external_body]
fn months_earlier(year: i32, month: u32, day: u32, n: u32) -> (r: Option<(i32, u32, u32)>)
    requires
        is_real_date(year as int, month as int, day as int),
    ensures
        triple_view(r) == shift_months_spec(year as int, month as int, day as int, -(n as int)),
{
    match chrono::NaiveDate::from_ymd_opt(year, month, day) {
        Some(date) => match date.checked_sub_months(chrono::Months::new(n)) {
            Some(earlier) => Some((earlier.year(), earlier.month(), earlier.day())),
            None => None,
        },
        None => None,
    }
}

/// Relies on chrono's `Local::now`: the local wall-clock date and time, a real day
/// with hour, minute and second in range.
#[verifier::external_body]
fn local_now() -> (r: PDate)
    ensures
        r.wf(),
{
    let now = chrono::Local::now();
    PDate {
        year: now.year(),
        month: now.month(),
        day: now.day(),
        hour: now.hour(),
        min: now.minute(),
        sec: now.second(),
    }
}

/// Number of days of the date's month.
pub fn days_in_month(date: PDate) -> (r: i32)
    requires
        date.has_real_day(),
    ensures
        r as int == month_length(date.year as int, date.month as int),
{
    if date.month == 12 {
        31
    } else {
        days_between(date.year, date.month + 1, 1, date.year, date.month, 1) as i32
    }
}

/// Weekday (Monday = 0) of the date.
pub fn day_of_week(date: PDate) -> (r: i32)
    requires
        date.has_real_day(),
    ensures
        r as int == date.weekday(),
        0 <= r < 7,
{
    weekday_from_monday(date.year, date.month, date.day) as i32
}

/// Weekday (Monday = 0) of the last day of the date's month.
pub fn last_day_in_month(date: PDate) -> (r: i32)
    requires
        date.has_real_day(),
    ensures
        r as int == weekday_of(
            date.year as int,
            date.month as int,
            month_length(date.year as int, date.month as int),
        ),
        0 <= r < 7,
{
    let last = days_in_month(date) as u32;
    weekday_from_monday(date.year, date.month, last) as i32
}

impl PDate {
    pub fn new(year: i32, month: u32, day: u32, hour: u32, min: u32, sec: u32) -> (r: Self)
        ensures
            r == (PDate { year, month, day, hour, min, sec }),
    {
        PDate { year, month, day, hour, min, sec }
    }

    /// The local date and time.
    pub fn now() -> (r: Self)
        ensures
            r.wf(),
    {
        local_now()
    }

    /// `d.m`, as shown on a day cell.
    pub fn day_string(self) -> (r: String)
        ensures
            r@ == dm_text(self),
    {
        let mut out = String::new();
        push_decimal(&mut out, self.day);
        proof { reveal_strlit("."); }
        out.append(".");
        push_decimal(&mut out, self.month);
        assert(out@ =~= dm_text(self));
        out
    }

    /// `d.m.yyyy`, the form that the dialog's date fields take.
    pub fn fmt(self) -> (r: String)
        ensures
            r@ == dmy_text(self),
    {
        let mut out = String::new();
        push_decimal(&mut out, self.day);
        proof { reveal_strlit("."); }
        out.append(".");
        push_decimal(&mut out, self.month);
        out.append(".");
        push_signed(&mut out, self.year);
        assert(out@ =~= dmy_text(self));
        out
    }

    /// Moves the date by `n` days (back for negative `n`), keeping the time of day;
    /// `None` when the day reached is outside the supported years.
    pub fn add_days(self, n: i64) -> (r: Option<PDate>)
        requires
            self.has_real_day(),
        ensures
            self.days_shifted(n as int, r),
    {
        let moved = if n >= 0 {
            days_later(self.year, self.month, self.day, n as u64)
        } else {
            days_earlier(self.year, self.month, self.day, (-(n as i128)) as u64)
        };
        match moved {
            Some(t) => Some(PDate { year: t.0, month: t.1, day: t.2, ..self }),
            None => None,
        }
    }

    /// Moves the date by `n` months (back for negative `n`), keeping the time of day
    /// and cutting the day down to the length of the month reached.
    pub fn add_months(self, n: i32) -> (r: Option<PDate>)
        requires
            self.has_real_day(),
        ensures
            r == self.months_shifted(n as int),
    {
        let moved = if n >= 0 {
            months_later(self.year, self.month, self.day, n as u32)
        } else {
            months_earlier(self.year, self.month, self.day, (-(n as i64)) as u32)
        };
        match moved {
            Some(t) => Some(PDate { year: t.0, month: t.1, day: t.2, ..self }),
            None => None,
        }
    }
}

impl Default for PDate {
    fn default() -> (r: Self)
        ensures
            r == PDate::default_date(),
    {
        PDate { year: 1970, month: 1, day: 1, hour: 0, min: 0, sec: 0 }
    }
}

/// Today's date at midnight.
pub fn now() -> (r: PDate)
    ensures
        r.wf(),
        r.hour == 0 && r.min == 0 && r.sec == 0,
{
    let now = local_now();
    PDate { hour: 0, min: 0, sec: 0, ..now }
}

/// The day `(year, month, day)` at midnight, if it exists.
pub fn new_date(year: i32, month: u32, day: u32) -> (r: Result<PDate, DateError>)
    ensures
        is_real_date(year as int, month as int, day as int) ==> r == Ok::<PDate, DateError>(
            PDate { year, month, day, hour: 0, min: 0, sec: 0 },
        ),
        !is_real_date(year as int, month as int, day as int) ==> r == Err::<PDate, DateError>(
            DateError::InvalidDate,
        ),
{
    new_time(year, month, day, 0, 0, 0)
}

/// The day `(year, month, day)` at `hour:min:sec`, if both exist.
pub fn new_time(year: i32, month: u32, day: u32, hour: u32, min: u32, sec: u32) -> (r: Result<
    PDate,
    DateError,
>)
    ensures
        ({
            let date = PDate { year, month, day, hour, min, sec };
            &&& date.wf() ==> r == Ok::<PDate, DateError>(date)
            &&& !date.wf() ==> r == Err::<PDate, DateError>(DateError::InvalidDate)
        }),
{
    if date_exists(year, month, day) && hour < 24 && min < 60 && sec < 60 {
        Ok(PDate { year, month, day, hour, min, sec })
    } else {
        Err(DateError::InvalidDate)
    }
}

/// `d.m.yyyy` of a date.
pub fn format_dmy(date: PDate) -> (r: String)
    ensures
        r@ == dmy_text(date),
{
    date.fmt()
}

/// `d.m` of a date.
pub fn day_string(date: &PDate) -> (r: String)
    ensures
        r@ == dm_text(*date),
{
    date.day_string()
}

/// Moving a date one month on and then one month back gives the date again, across
/// December to January and January to December, whenever its day also exists in the
/// following month (2023-01-31 comes back as 2023-01-28).
pub proof fn lemma_add_months_round_trip(date: PDate)
    requires
        date.has_real_day(),
        !(date.year == MAX_YEAR && date.month == 12),
        date.day <= month_length(
            if date.month == 12 { date.year + 1 } else { date.year as int },
            if date.month == 12 { 1 } else { date.month + 1 },
        ),
    ensures
        date.months_shifted(1) is Some,
        date.months_shifted(1)->0.months_shifted(-1) == Some(date),
{
    let y = date.year as int;
    let m = date.month as int;
    let t = y * 12 + (m - 1) + 1;
    if m == 12 {
        assert(t == (y + 1) * 12);
        assert(t / 12 == y + 1 && t % 12 == 0) by (nonlinear_arith)
            requires t == (y + 1) * 12;
        assert((t - 1) / 12 == y && (t - 1) % 12 == 11) by (nonlinear_arith)
            requires t == (y + 1) * 12;
    } else {
        assert(t / 12 == y && t % 12 == m) by (nonlinear_arith)
            requires t == y * 12 + m, 1 <= m < 12;
        assert((t - 1) / 12 == y && (t - 1) % 12 == m - 1) by (nonlinear_arith)
            requires t == y * 12 + m, 1 <= m < 12;
    }
    let next = date.months_shifted(1)->0;
    assert(next.year as int * 12 + (next.month as int - 1) - 1 == t - 1);
}

} // verus!
