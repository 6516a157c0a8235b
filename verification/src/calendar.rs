//! Calendar days in UTC, their order, their numbering and their text.

use chrono::Datelike;
use chrono::NaiveDate;
use vstd::prelude::*;

verus! {

/// First year a [`Day`] can lie in.
pub const MIN_YEAR: i32 = 1;

/// Last year a [`Day`] can lie in; with it a year always has four digits.
pub const MAX_YEAR: i32 = 9999;

/// Length of one day in seconds.
pub const SECONDS_PER_DAY: i64 = 86_400;

pub open spec fn is_leap_year(year: int) -> bool {
    year % 4 == 0 && (year % 100 != 0 || year % 400 == 0)
}

pub open spec fn days_in_month(year: int, month: int) -> int {
    if month == 2 {
        if is_leap_year(year) {
            29
        } else {
            28
        }
    } else if month == 4 || month == 6 || month == 9 || month == 11 {
        30
    } else {
        31
    }
}

/// The triple names a day of the proleptic Gregorian calendar in the years
/// that a [`Day`] covers.
pub open spec fn is_calendar_date(year: int, month: int, day: int) -> bool {
    &&& MIN_YEAR <= year <= MAX_YEAR
    &&& 1 <= month <= 12
    &&& 1 <= day <= days_in_month(year, month)
}

/// Days of `year` that lie in the months before `month`.
pub open spec fn days_before_month(year: int, month: int) -> int {
    let common: int = if month <= 1 {
        0
    } else if month == 2 {
        31
    } else if month == 3 {
        59
    } else if month == 4 {
        90
    } else if month == 5 {
        120
    } else if month == 6 {
        151
    } else if month == 7 {
        181
    } else if month == 8 {
        212
    } else if month == 9 {
        243
    } else if month == 10 {
        273
    } else if month == 11 {
        304
    } else {
        334
    };
    if month > 2 && is_leap_year(year) {
        common + 1
    } else {
        common
    }
}

/// Days between the first of January of year 1 and the first of January of
/// `year`.
pub open spec fn days_before_year(year: int) -> int {
    let y = year - 1;
    365 * y + y / 4 - y / 100 + y / 400
}

/// Number of the day counted from the first of January 1970, which is day 0.
pub open spec fn days_from_epoch(year: int, month: int, day: int) -> int {
    days_before_year(year) - days_before_year(1970) + days_before_month(year, month) + day - 1
}

/// The calendar date that follows the given one.
pub open spec fn next_date(year: int, month: int, day: int) -> (int, int, int) {
    if day < days_in_month(year, month) {
        (year, month, day + 1)
    } else if month < 12 {
        (year, month + 1, 1)
    } else {
        (year + 1, 1, 1)
    }
}

/// Chronological order of two dates, written on their parts.
pub open spec fn date_precedes(y1: int, m1: int, d1: int, y2: int, m2: int, d2: int) -> bool {
    y1 < y2 || (y1 == y2 && (m1 < m2 || (m1 == m2 && d1 < d2)))
}

/// The character of a decimal digit.
#[verifier::opaque]
pub open spec fn digit_char(digit: int) -> char {
    if digit == 0 {
        '0'
    } else if digit == 1 {
        '1'
    } else if digit == 2 {
        '2'
    } else if digit == 3 {
        '3'
    } else if digit == 4 {
        '4'
    } else if digit == 5 {
        '5'
    } else if digit == 6 {
        '6'
    } else if digit == 7 {
        '7'
    } else if digit == 8 {
        '8'
    } else {
        '9'
    }
}

/// The last `width` decimal digits of `value`, most significant first, with
/// leading zeros.
pub open spec fn padded_decimal(value: int, width: nat) -> Seq<char>
    decreases width,
{
    if width == 0 {
        Seq::empty()
    } else {
        padded_decimal(value / 10, (width - 1) as nat).push(digit_char(value % 10))
    }
}

/// `YYYY/MM` for a year and a month.
pub open spec fn year_month_text(year: int, month: int) -> Seq<char> {
    padded_decimal(year, 4) + seq!['/'] + padded_decimal(month, 2)
}

/// `YYYY/MM/DD` for a date.
pub open spec fn date_text(year: int, month: int, day: int) -> Seq<char> {
    year_month_text(year, month) + seq!['/'] + padded_decimal(day, 2)
}

/// The ten characters of a date's text: four digits of the year, two of the
/// month and two of the day, with a slash between them.
pub proof fn lemma_date_text_chars(year: int, month: int, day: int)
    requires
        is_calendar_date(year, month, day),
    ensures
        year_month_text(year, month) =~= seq![
            digit_char(year / 1000),
            digit_char(year / 100 % 10),
            digit_char(year / 10 % 10),
            digit_char(year % 10),
            '/',
            digit_char(month / 10),
            digit_char(month % 10),
        ],
        date_text(year, month, day) =~= year_month_text(year, month) + seq![
            '/',
            digit_char(day / 10),
            digit_char(day % 10),
        ],
        date_text(year, month, day).len() == 10,
{
    reveal_with_fuel(padded_decimal, 5);
    assert(padded_decimal(year, 4) =~= seq![
        digit_char(year / 1000),
        digit_char(year / 100 % 10),
        digit_char(year / 10 % 10),
        digit_char(year % 10),
    ]);
    assert(padded_decimal(month, 2) =~= seq![digit_char(month / 10), digit_char(month % 10)]);
    assert(padded_decimal(day, 2) =~= seq![digit_char(day / 10), digit_char(day % 10)]);
}

/// Different digits have different characters.
pub proof fn lemma_digit_char_injective(a: int, b: int)
    requires
        0 <= a <= 9,
        0 <= b <= 9,
        digit_char(a) == digit_char(b),
    ensures
        a == b,
{
    reveal(digit_char);
}

/// A number below 100 is known by its two digits.
proof fn lemma_two_digits_identify(a: int, b: int)
    requires
        0 <= a < 100,
        0 <= b < 100,
        digit_char(a / 10) == digit_char(b / 10),
        digit_char(a % 10) == digit_char(b % 10),
    ensures
        a == b,
{
    lemma_digit_char_injective(a / 10, b / 10);
    lemma_digit_char_injective(a % 10, b % 10);
}

/// A number below 10 000 is known by its four digits.
proof fn lemma_four_digits_identify(a: int, b: int)
    requires
        0 <= a < 10_000,
        0 <= b < 10_000,
        digit_char(a / 1000) == digit_char(b / 1000),
        digit_char(a / 100 % 10) == digit_char(b / 100 % 10),
        digit_char(a / 10 % 10) == digit_char(b / 10 % 10),
        digit_char(a % 10) == digit_char(b % 10),
    ensures
        a == b,
{
    lemma_digit_char_injective(a / 1000, b / 1000);
    lemma_digit_char_injective(a / 100 % 10, b / 100 % 10);
    lemma_digit_char_injective(a / 10 % 10, b / 10 % 10);
    lemma_digit_char_injective(a % 10, b % 10);
}

/// Different dates have different texts.
pub proof fn lemma_date_text_injective(y1: int, m1: int, d1: int, y2: int, m2: int, d2: int)
    requires
        is_calendar_date(y1, m1, d1),
        is_calendar_date(y2, m2, d2),
        date_text(y1, m1, d1) == date_text(y2, m2, d2),
    ensures
        y1 == y2,
        m1 == m2,
        d1 == d2,
{
    lemma_date_text_chars(y1, m1, d1);
    lemma_date_text_chars(y2, m2, d2);
    let a = date_text(y1, m1, d1);
    let b = date_text(y2, m2, d2);
    assert(a[0] == digit_char(y1 / 1000) && b[0] == digit_char(y2 / 1000));
    assert(a[1] == digit_char(y1 / 100 % 10) && b[1] == digit_char(y2 / 100 % 10));
    assert(a[2] == digit_char(y1 / 10 % 10) && b[2] == digit_char(y2 / 10 % 10));
    assert(a[3] == digit_char(y1 % 10) && b[3] == digit_char(y2 % 10));
    assert(a[5] == digit_char(m1 / 10) && b[5] == digit_char(m2 / 10));
    assert(a[6] == digit_char(m1 % 10) && b[6] == digit_char(m2 % 10));
    assert(a[8] == digit_char(d1 / 10) && b[8] == digit_char(d2 / 10));
    assert(a[9] == digit_char(d1 % 10) && b[9] == digit_char(d2 % 10));
    lemma_four_digits_identify(y1, y2);
    lemma_two_digits_identify(m1, m2);
    lemma_two_digits_identify(d1, d2);
}

/// The table of [`days_before_month`] adds up the lengths of the months.
pub proof fn lemma_days_before_month_step(year: int, month: int)
    requires
        1 <= month < 12,
    ensures
        days_before_month(year, month + 1) == days_before_month(year, month) + days_in_month(
            year,
            month,
        ),
        days_before_month(year, 1) == 0,
{
}

/// Going from `value - 1` to `value`, the quotient by a positive divisor
/// grows by one exactly at the multiples of the divisor.
proof fn lemma_quotient_step(value: int, divisor: int)
    requires
        divisor > 0,
    ensures
        value / divisor - (value - 1) / divisor == if value % divisor == 0 {
            1int
        } else {
            0int
        },
{
    vstd::arithmetic::div_mod::lemma_fundamental_div_mod(value, divisor);
    vstd::arithmetic::div_mod::lemma_fundamental_div_mod(value - 1, divisor);
    vstd::arithmetic::div_mod::lemma_mod_bound(value, divisor);
    vstd::arithmetic::div_mod::lemma_mod_bound(value - 1, divisor);
    let q = value / divisor;
    let p = (value - 1) / divisor;
    let r = value % divisor;
    let t = (value - 1) % divisor;
    assert(divisor * (q - p) == 1 + t - r) by (nonlinear_arith)
        requires
            value == divisor * q + r,
            value - 1 == divisor * p + t,
    ;
    assert(q - p == if r == 0 { 1int } else { 0int }) by (nonlinear_arith)
        requires
            divisor * (q - p) == 1 + t - r,
            0 <= r < divisor,
            0 <= t < divisor,
    ;
}

/// The multiples of 400 are multiples of 100, and those of 100 multiples
/// of 4.
proof fn lemma_century_multiples(year: int)
    ensures
        year % 400 == 0 ==> year % 100 == 0,
        year % 100 == 0 ==> year % 4 == 0,
{
    if year % 400 == 0 {
        vstd::arithmetic::div_mod::lemma_fundamental_div_mod(year, 400);
        let q = year / 400;
        assert(year == 100 * (4 * q));
        vstd::arithmetic::div_mod::lemma_mod_multiples_basic(4 * q, 100);
        assert((4 * q) * 100 == year);
    }
    if year % 100 == 0 {
        vstd::arithmetic::div_mod::lemma_fundamental_div_mod(year, 100);
        let q = year / 100;
        assert(year == 4 * (25 * q));
        vstd::arithmetic::div_mod::lemma_mod_multiples_basic(25 * q, 4);
        assert((25 * q) * 4 == year);
    }
}

/// A year has 365 days, and one more when it is a leap year.
pub proof fn lemma_days_before_year_step(year: int)
    ensures
        days_before_year(year + 1) == days_before_year(year) + 365 + if is_leap_year(year) {
            1int
        } else {
            0int
        },
{
    lemma_quotient_step(year, 4);
    lemma_quotient_step(year, 100);
    lemma_quotient_step(year, 400);
    lemma_century_multiples(year);
}

/// Later years start later, by at least the length of each year between.
pub proof fn lemma_days_before_year_grows(earlier: int, later: int)
    requires
        earlier < later,
    ensures
        days_before_year(earlier) + 365 + if is_leap_year(earlier) {
            1int
        } else {
            0int
        } <= days_before_year(later),
    decreases later - earlier,
{
    lemma_days_before_year_step(earlier);
    if earlier + 1 < later {
        lemma_days_before_year_grows(earlier + 1, later);
    }
}

/// The date after a calendar date is a calendar date again, unless the years
/// run out, and its number is one more.
pub proof fn lemma_next_date(year: int, month: int, day: int)
    requires
        is_calendar_date(year, month, day),
    ensures
        ({
            let (y, m, d) = next_date(year, month, day);
            &&& days_from_epoch(y, m, d) == days_from_epoch(year, month, day) + 1
            &&& is_calendar_date(y, m, d) <==> !(year == MAX_YEAR && month == 12 && day == 31)
        }),
{
    lemma_days_before_year_step(year);
}

/// Chronological order on the parts of two dates is the order of their
/// numbers.
pub proof fn lemma_date_order(y1: int, m1: int, d1: int, y2: int, m2: int, d2: int)
    requires
        is_calendar_date(y1, m1, d1),
        is_calendar_date(y2, m2, d2),
    ensures
        date_precedes(y1, m1, d1, y2, m2, d2) <==> days_from_epoch(y1, m1, d1) < days_from_epoch(
            y2,
            m2,
            d2,
        ),
        (y1 == y2 && m1 == m2 && d1 == d2) <==> days_from_epoch(y1, m1, d1) == days_from_epoch(
            y2,
            m2,
            d2,
        ),
{
    if y1 < y2 {
        lemma_days_before_year_grows(y1, y2);
    } else if y2 < y1 {
        lemma_days_before_year_grows(y2, y1);
    }
}

/// One calendar date in UTC: the unit of work, of scheduling and of
/// persistence.
#[derive(Clone, Copy, Debug, PartialEq, Eq, Structural, PartialOrd, Ord, Hash)]
pub struct Day {
    year: i32,
    month: u32,
    day: u32,
}

impl Day {
    pub closed spec fn spec_year(self) -> int {
        self.year as int
    }

    pub closed spec fn spec_month(self) -> int {
        self.month as int
    }

    pub closed spec fn spec_day(self) -> int {
        self.day as int
    }

    /// Every `Day` names a date of the calendar.
    #[verifier::type_invariant]
    pub open spec fn wf(self) -> bool {
        is_calendar_date(self.spec_year(), self.spec_month(), self.spec_day())
    }

    /// The day's number, counted from the first of January 1970.
    pub open spec fn number(self) -> int {
        days_from_epoch(self.spec_year(), self.spec_month(), self.spec_day())
    }

    /// The last day there is.
    pub open spec fn is_last(self) -> bool {
        self.spec_year() == MAX_YEAR && self.spec_month() == 12 && self.spec_day() == 31
    }

    /// Two days with the same parts are the same day.
    pub proof fn lemma_parts_identify(self, other: Day)
        requires
            self.spec_year() == other.spec_year(),
            self.spec_month() == other.spec_month(),
            self.spec_day() == other.spec_day(),
        ensures
            self == other,
    {
    }

    /// The day with the given parts, if the calendar has it.
    pub fn new(year: i32, month: u32, day: u32) -> (made: Option<Day>)
        ensures
            made is Some <==> is_calendar_date(year as int, month as int, day as int),
            made matches Some(d) ==> d.spec_year() == year && d.spec_month() == month
                && d.spec_day() == day,
    {
        if year < MIN_YEAR || year > MAX_YEAR || month < 1 || month > 12 || day < 1 {
            return None;
        }
        let leap = year % 4 == 0 && (year % 100 != 0 || year % 400 == 0);
        let length: u32 = if month == 2 {
            if leap {
                29
            } else {
                28
            }
        } else if month == 4 || month == 6 || month == 9 || month == 11 {
            30
        } else {
            31
        };
        if day > length {
            return None;
        }
        Some(Day { year, month, day })
    }

    pub fn year(&self) -> (year: i32)
        ensures
            year == self.spec_year(),
    {
        self.year
    }

    pub fn month(&self) -> (month: u32)
        ensures
            month == self.spec_month(),
    {
        self.month
    }

    pub fn day(&self) -> (day: u32)
        ensures
            day == self.spec_day(),
    {
        self.day
    }

    /// The following day; none after the last one.
    pub fn succ(&self) -> (next: Option<Day>)
        ensures
            next is None <==> self.is_last(),
            next matches Some(n) ==> n.number() == self.number() + 1 && (
                n.spec_year(),
                n.spec_month(),
                n.spec_day(),
            ) == next_date(self.spec_year(), self.spec_month(), self.spec_day()),
    {
        proof {
            use_type_invariant(self);
            lemma_next_date(self.year as int, self.month as int, self.day as int);
        }
        if self.year == MAX_YEAR && self.month == 12 && self.day == 31 {
            return None;
        }
        let (year, month, day) = following_date(self.year, self.month, self.day);
        Some(Day { year, month, day })
    }

    /// Whether this day comes before `other`.
    pub fn is_before(&self, other: &Day) -> (before: bool)
        ensures
            before == (self.number() < other.number()),
    {
        proof {
            use_type_invariant(self);
            use_type_invariant(other);
            lemma_date_order(
                self.year as int,
                self.month as int,
                self.day as int,
                other.year as int,
                other.month as int,
                other.day as int,
            );
        }
        self.year < other.year || (self.year == other.year && (self.month < other.month || (
        self.month == other.month && self.day < other.day)))
    }

    /// Whether this day is `other` or comes before it.
    pub fn is_on_or_before(&self, other: &Day) -> (within: bool)
        ensures
            within == (self.number() <= other.number()),
    {
        !other.is_before(self)
    }

    /// `YYYY/MM/DD`, as the artifact layout writes a day.
    pub fn date_path(&self) -> (text: String)
        ensures
            text@ == date_text(self.spec_year(), self.spec_month(), self.spec_day()),
    {
        proof {
            use_type_invariant(self);
        }
        format_date(self.year, self.month, self.day, "%Y/%m/%d")
    }

    /// `YYYY/MM`, the directory of the day's month in the artifact layout.
    pub fn month_path(&self) -> (text: String)
        ensures
            text@ == year_month_text(self.spec_year(), self.spec_month()),
    {
        proof {
            use_type_invariant(self);
        }
        format_date(self.year, self.month, self.day, "%Y/%m")
    }
}

/// Two days with the same number are the same day, and the order of the
/// numbers is the order of the dates.
pub proof fn lemma_day_number_orders(a: Day, b: Day)
    requires
        a.wf(),
        b.wf(),
    ensures
        a.number() == b.number() <==> a == b,
        a.number() < b.number() <==> date_precedes(
            a.spec_year(),
            a.spec_month(),
            a.spec_day(),
            b.spec_year(),
            b.spec_month(),
            b.spec_day(),
        ),
{
    lemma_date_order(
        a.spec_year(),
        a.spec_month(),
        a.spec_day(),
        b.spec_year(),
        b.spec_month(),
        b.spec_day(),
    );
}

/// Seconds from the start of 1970 to the midnight, in UTC, at which `date`
/// begins.
pub fn timestamp_of(date: Day) -> (seconds: i64)
    ensures
        seconds == SECONDS_PER_DAY * date.number(),
{
    proof {
        use_type_invariant(date);
    }
    midnight_timestamp(date.year, date.month, date.day)
}

/// The half-open window of timestamps that belongs to `date`: from its
/// midnight up to, and without, the next one.
pub fn window_of(date: Day) -> (window: (i64, i64))
    ensures
        window.0 == SECONDS_PER_DAY * date.number(),
        window.1 == SECONDS_PER_DAY * (date.number() + 1),
{
    proof {
        use_type_invariant(date);
        lemma_day_number_bounds(date);
    }
    let start = timestamp_of(date);
    (start, start + SECONDS_PER_DAY)
}

/// The numbers of all days lie between those of the first and the last one.
pub proof fn lemma_day_number_bounds(date: Day)
    requires
        date.wf(),
    ensures
        -719_162 <= date.number() <= 2_932_896,
{
    lemma_date_order(
        date.spec_year(),
        date.spec_month(),
        date.spec_day(),
        MAX_YEAR as int,
        12,
        31,
    );
    lemma_date_order(1, 1, 1, date.spec_year(), date.spec_month(), date.spec_day());
}

/// The last day has the greatest number, and no other day has it.
pub proof fn lemma_last_day_number(date: Day)
    requires
        date.wf(),
    ensures
        date.is_last() <==> date.number() == 2_932_896,
{
    lemma_date_order(
        date.spec_year(),
        date.spec_month(),
        date.spec_day(),
        MAX_YEAR as int,
        12,
        31,
    );
}

/// The window of a day ends where the window of the following day begins,
/// and lasts [`SECONDS_PER_DAY`] seconds.
pub proof fn lemma_windows_abut(date: Day, next: Day)
    requires
        date.wf(),
        next.wf(),
        (next.spec_year(), next.spec_month(), next.spec_day()) == next_date(
            date.spec_year(),
            date.spec_month(),
            date.spec_day(),
        ),
    ensures
        SECONDS_PER_DAY * next.number() == SECONDS_PER_DAY * date.number() + SECONDS_PER_DAY,
{
    lemma_next_date(date.spec_year(), date.spec_month(), date.spec_day());
}

/// `chrono::NaiveDate::succ_opt`, on a date given and returned by its parts
/// (`from_ymd_opt` going in, `Datelike::{year, month, day}` coming out): the
/// next date of the proleptic Gregorian calendar. The dates admitted are far
/// below chrono's last one, so there is always a next one.
#[verifier::external_body]
fn following_date(year: i32, month: u32, day: u32) -> (next: (i32, u32, u32))
    requires
        is_calendar_date(year as int, month as int, day as int),
    ensures
        (next.0 as int, next.1 as int, next.2 as int) == next_date(
            year as int,
            month as int,
            day as int,
        ),
{
    let next = NaiveDate::from_ymd_opt(year, month, day).unwrap().succ_opt().unwrap();
    (next.year(), next.month(), next.day())
}

/// `chrono::DateTime::<Utc>::timestamp` of the midnight of a date, which is
/// made with `NaiveDate::from_ymd_opt`, `and_hms_opt(0, 0, 0)` and `and_utc`:
/// the count of non-leap seconds since 1970-01-01 00:00:00 UTC, that is
/// 86 400 for each day since then.
#[verifier::external_body]
fn midnight_timestamp(year: i32, month: u32, day: u32) -> (seconds: i64)
    requires
        is_calendar_date(year as int, month as int, day as int),
    ensures
        seconds == 86_400 * days_from_epoch(year as int, month as int, day as int),
{
    NaiveDate::from_ymd_opt(year, month, day).unwrap().and_hms_opt(0, 0, 0).unwrap().and_utc().timestamp()
}

/// `chrono::NaiveDate::format` and the `to_string` of what it returns, for
/// the two patterns that the artifact layout uses. `%Y` writes a year from 0
/// to 9999 with four digits, `%m` and `%d` write month and day with two, all
/// padded with zeros; every other character of a pattern is copied.
#[verifier::external_body]
fn format_date(year: i32, month: u32, day: u32, pattern: &str) -> (text: String)
    requires
        is_calendar_date(year as int, month as int, day as int),
        pattern@ == "%Y/%m/%d"@ || pattern@ == "%Y/%m"@,
    ensures
        pattern@ == "%Y/%m/%d"@ ==> text@ == date_text(year as int, month as int, day as int),
        pattern@ == "%Y/%m"@ ==> text@ == year_month_text(year as int, month as int),
{
    NaiveDate::from_ymd_opt(year, month, day).unwrap().format(pattern).to_string()
}

} // verus!
