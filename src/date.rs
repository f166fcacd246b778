use vstd::prelude::*;

verus! {

/// The first and last years of chrono's calendar.
pub const MIN_YEAR: i32 = -262143;
pub const MAX_YEAR: i32 = 262142;

/// Whether `y` is a leap year of the proleptic Gregorian calendar.
pub open spec fn is_leap(y: int) -> bool {
    y % 4 == 0 && (y % 100 != 0 || y % 400 == 0)
}

/// The number of days of month `m` of year `y`.
pub open spec fn month_len(y: int, m: int) -> int {
    if m == 2 {
        if is_leap(y) {
            29
        } else {
            28
        }
    } else if m == 4 || m == 6 || m == 9 || m == 11 {
        30
    } else {
        31
    }
}

/// The days of year `y` before the first of month `m`.
pub open spec fn days_before_month(y: int, m: int) -> int
    decreases m,
{
    if m <= 1 {
        0
    } else {
        days_before_month(y, m - 1) + month_len(y, m - 1)
    }
}

/// The days before January 1 of year `y`, counted from January 1 of year 1
/// (negative before it).
pub open spec fn days_before_year(y: int) -> int {
    365 * (y - 1) + (y - 1) / 4 - (y - 1) / 100 + (y - 1) / 400
}

/// Whether `(y, m, d)` is a date of chrono's calendar.
pub open spec fn is_calendar_date(y: int, m: int, d: int) -> bool {
    MIN_YEAR <= y <= MAX_YEAR && 1 <= m <= 12 && 1 <= d <= month_len(y, m)
}

/// The day number of the date `(y, m, d)` in the proleptic Gregorian
/// calendar, January 1 of year 1 being day 1; `None` where no such date exists.
pub open spec fn ce_day_of(y: int, m: int, d: int) -> Option<int> {
    if is_calendar_date(y, m, d) {
        Some(days_before_year(y) + days_before_month(y, m) + d)
    } else {
        None
    }
}

/// The text `YYYY-MM-DD` that chrono writes for the date with day number `day`;
/// `None` where that day lies outside chrono's calendar.
pub uninterp spec fn iso_text_of(day: int) -> Option<Seq<char>>;

/// The calendar day after `(y, m, d)` has the next day number: consecutive
/// days have consecutive numbers, across month and year ends.
pub proof fn lemma_next_day_number(y: int, m: int, d: int)
    requires
        is_calendar_date(y, m, d),
    ensures
        d < month_len(y, m) ==> ce_day_of(y, m, d + 1) == Some(ce_day_of(y, m, d)->Some_0 + 1),
        d == month_len(y, m) && m < 12 ==> ce_day_of(y, m + 1, 1) == Some(
            ce_day_of(y, m, d)->Some_0 + 1,
        ),
        d == month_len(y, m) && m == 12 && y < MAX_YEAR ==> ce_day_of(y + 1, 1, 1) == Some(
            ce_day_of(y, m, d)->Some_0 + 1,
        ),
{
    if d == month_len(y, m) && m == 12 && y < MAX_YEAR {
        reveal_with_fuel(days_before_month, 13);
        assert(y / 4 - (y - 1) / 4 == (if y % 4 == 0 { 1int } else { 0int }));
        assert(y / 100 - (y - 1) / 100 == (if y % 100 == 0 { 1int } else { 0int }));
        assert(y / 400 - (y - 1) / 400 == (if y % 400 == 0 { 1int } else { 0int }));
        assert(days_before_year(y + 1) == days_before_year(y) + days_before_month(y, 12) + 31);
    }
}

/// Relies on chrono's `NaiveDate::from_ymd_opt`, which accepts exactly the
/// dates of its calendar, and `Datelike::num_days_from_ce`, which counts the
/// days of the proleptic Gregorian calendar with January 1 of year 1 as day 1.
#[verifier::external_body]
fn ce_days_from_ymd(y: i32, m: u32, d: u32) -> (r: Option<i32>)
    ensures
        r matches Some(v) ==> ce_day_of(y as int, m as int, d as int) == Some(v as int),
        r is None ==> ce_day_of(y as int, m as int, d as int) is None,
{
    chrono::NaiveDate::from_ymd_opt(y, m, d).map(|nd| chrono::Datelike::num_days_from_ce(&nd))
}

/// Relies on chrono's `NaiveDate::from_num_days_from_ce_opt` and its `Display`
/// impl, which writes the ISO 8601 date text.
#[verifier::external_body]
fn iso_text_from_days(day: i32) -> (r: Option<String>)
    ensures
        r matches Some(s) ==> iso_text_of(day as int) == Some(s@),
        r is None ==> iso_text_of(day as int) is None,
{
    chrono::NaiveDate::from_num_days_from_ce_opt(day).map(|nd| nd.to_string())
}

/// A calendar day, held as its day number in the proleptic Gregorian calendar
/// (January 1 of year 1 is day 1). Consecutive days have consecutive numbers.
#[derive(Debug, Clone, Copy, PartialEq, Eq, Structural)]
pub struct Date {
    pub day: i32,
}

impl Date {
    /// The date `y-m-d`, or `None` where no such calendar date exists.
    pub fn from_ymd(y: i32, m: u32, d: u32) -> (r: Option<Date>)
        ensures
            r matches Some(dt) ==> ce_day_of(y as int, m as int, d as int) == Some(dt.day as int),
            r is None ==> ce_day_of(y as int, m as int, d as int) is None,
    {
        match ce_days_from_ymd(y, m, d) {
            Some(v) => Some(Date { day: v }),
            None => None,
        }
    }

    /// The date's ISO 8601 text (`2024-01-02`), `None` outside chrono's calendar.
    pub fn iso_text(&self) -> (r: Option<String>)
        ensures
            r matches Some(s) ==> iso_text_of(self.day as int) == Some(s@),
            r is None ==> iso_text_of(self.day as int) is None,
    {
        iso_text_from_days(self.day)
    }
}

} // verus!
