//! Dates of the proleptic Gregorian calendar.
//!
//! A `Date` is always a day that exists, within the years that `chrono` represents. The day
//! number counts days from 0001-01-01, which is day 1 and a Monday.
use crate::text::{
    decimal, digit_char, lemma_first_difference, lemma_text_lt_total, padded_text, text_lt,
    zero_padded,
};
use vstd::prelude::*;

verus! {

/// The first and the last year that a date can have.
pub const MIN_YEAR: i32 = -262143;

pub const MAX_YEAR: i32 = 262142;

/// The day numbers of the first and the last date.
pub const MIN_DAY: i32 = -95746129;

pub const MAX_DAY: i32 = 95745399;

/// Whether `y` is a leap year.
pub open spec fn leap_year(y: int) -> bool {
    y % 4 == 0 && (y % 100 != 0 || y % 400 == 0)
}

/// The number of days in month `m` of year `y`.
pub open spec fn month_length(y: int, m: int) -> int {
    if m == 2 {
        if leap_year(y) {
            29
        } else {
            28
        }
    } else if m == 4 || m == 6 || m == 9 || m == 11 {
        30
    } else {
        31
    }
}

/// Whether year, month and day name a date of the calendar.
pub open spec fn valid_ymd(y: int, m: int, d: int) -> bool {
    MIN_YEAR <= y <= MAX_YEAR && 1 <= m <= 12 && 1 <= d <= month_length(y, m)
}

/// The number of days from 0001-01-01 up to the beginning of year `y`.
pub open spec fn days_before_year(y: int) -> int {
    365 * (y - 1) + (y - 1) / 4 - (y - 1) / 100 + (y - 1) / 400
}

/// The number of days of year `y` before its month `m`.
pub open spec fn days_before_month(y: int, m: int) -> int
    decreases m,
{
    if m <= 1 {
        0
    } else {
        days_before_month(y, m - 1) + month_length(y, m - 1)
    }
}

/// The day number of a date; 0001-01-01 has the number 1.
pub open spec fn day_number(y: int, m: int, d: int) -> int {
    days_before_year(y) + days_before_month(y, m) + d
}

/// The text of a year as ISO 8601 writes it: four digits, or a sign and at least four.
pub open spec fn year_text(y: int) -> Seq<char> {
    if 0 <= y <= 9999 {
        zero_padded(decimal(y as nat), 4)
    } else if y < 0 {
        seq!['-'] + zero_padded(decimal((-y) as nat), 4)
    } else {
        seq!['+'] + zero_padded(decimal(y as nat), 4)
    }
}

/// Two digits for a number below 100.
pub open spec fn two_digits(n: int) -> Seq<char> {
    zero_padded(decimal(n as nat), 2)
}

/// The text of a date, such as `2026-02-17`.
pub open spec fn date_text(y: int, m: int, d: int) -> Seq<char> {
    year_text(y) + seq!['-'] + two_digits(m) + seq!['-'] + two_digits(d)
}

/// A date of the calendar.
#[derive(Clone, Copy, Debug, PartialEq, Eq, Structural)]
pub struct Date {
    year: i32,
    month: u32,
    day: u32,
}

/// Calls `chrono`'s `NaiveDate::from_ymd_opt` and `num_days_from_ce`: the latter counts the days
/// of the proleptic Gregorian calendar, with 0001-01-01 as day 1.
#[verifier::external_body]
fn chrono_day_number(year: i32, month: u32, day: u32) -> (r: i32)
    requires
        valid_ymd(year as int, month as int, day as int),
    ensures
        r == day_number(year as int, month as int, day as int),
{
    chrono::Datelike::num_days_from_ce(&chrono::NaiveDate::from_ymd_opt(year, month, day).unwrap())
}

/// Calls `chrono`'s `NaiveDate::from_num_days_from_ce_opt`: the date with the given day number,
/// or nothing when that lies outside the dates of `chrono`.
#[verifier::external_body]
fn chrono_date(days: i32) -> (r: Option<(i32, u32, u32)>)
    ensures
        match r {
            Some((y, m, d)) => valid_ymd(y as int, m as int, d as int) && day_number(
                y as int,
                m as int,
                d as int,
            ) == days,
            None => days < MIN_DAY || MAX_DAY < days,
        },
{
    let date = chrono::NaiveDate::from_num_days_from_ce_opt(days)?;
    Some((
        chrono::Datelike::year(&date),
        chrono::Datelike::month(&date),
        chrono::Datelike::day(&date),
    ))
}

/// What `chrono`'s `NaiveDate::parse_from_str` reads in a text with the format `%Y-%m-%d`, or the
/// text of its error.
pub uninterp spec fn date_reading(s: Seq<char>) -> Result<(i32, u32, u32), Seq<char>>;

/// Calls `chrono`'s `NaiveDate::parse_from_str` with the format `%Y-%m-%d`; an error comes as its
/// text. What it reads is a date, and the text of a date with a year of four digits reads back as
/// that date.
#[verifier::external_body]
fn chrono_parse_date(s: &str) -> (r: Result<(i32, u32, u32), String>)
    ensures
        match r {
            Ok(date) => date_reading(s@) matches Ok(read) && read == date,
            Err(e) => date_reading(s@) matches Err(reason) && reason == e@,
        },
        r matches Ok((y, m, d)) ==> valid_ymd(y as int, m as int, d as int),
        forall|y: i32, m: u32, d: u32|
            valid_ymd(y as int, m as int, d as int) && 0 <= y <= 9999 && s@ == #[trigger] date_text(
                y as int,
                m as int,
                d as int,
            ) ==> r is Ok && r->Ok_0 == (y, m, d),
{
    let read = chrono::NaiveDate::parse_from_str(s, "%Y-%m-%d");
    let date = read.map_err(|error| error.to_string())?;
    Ok((
        chrono::Datelike::year(&date),
        chrono::Datelike::month(&date),
        chrono::Datelike::day(&date),
    ))
}

/// Year, month and day that a text stands for in the format `%Y-%m-%d`.
pub open spec fn parsed_date(s: Seq<char>) -> Option<(i32, u32, u32)> {
    match date_reading(s) {
        Ok(date) => Some(date),
        Err(e) => None,
    }
}

/// The number of days in month `m` of year `y`.
pub fn days_in_month(y: i32, m: u32) -> (r: u32)
    requires
        1 <= m <= 12,
    ensures
        r == month_length(y as int, m as int),
        28 <= r <= 31,
{
    if m == 2 {
        let four: i32 = y.checked_rem_euclid(4).unwrap();
        let hundred: i32 = y.checked_rem_euclid(100).unwrap();
        let cycle: i32 = y.checked_rem_euclid(400).unwrap();
        if four == 0 && (hundred != 0 || cycle == 0) {
            29
        } else {
            28
        }
    } else if m == 4 || m == 6 || m == 9 || m == 11 {
        30
    } else {
        31
    }
}

impl Date {
    #[verifier::type_invariant]
    pub closed spec fn exists_in_calendar(self) -> bool {
        valid_ymd(self.year as int, self.month as int, self.day as int)
    }

    pub closed spec fn spec_year(&self) -> i32 {
        self.year
    }

    pub closed spec fn spec_month(&self) -> u32 {
        self.month
    }

    pub closed spec fn spec_day(&self) -> u32 {
        self.day
    }

    /// The day number of this date.
    pub open spec fn number(self) -> int {
        day_number(self.year() as int, self.month() as int, self.day() as int)
    }

    /// The year.
    #[verifier::when_used_as_spec(spec_year)]
    pub fn year(&self) -> (r: i32)
        ensures
            r == self.spec_year(),
            self.valid(),
    {
        proof {
            use_type_invariant(self);
        }
        self.year
    }

    /// The month, from 1.
    #[verifier::when_used_as_spec(spec_month)]
    pub fn month(&self) -> (r: u32)
        ensures
            r == self.spec_month(),
            self.valid(),
    {
        proof {
            use_type_invariant(self);
        }
        self.month
    }

    /// The day of the month, from 1.
    #[verifier::when_used_as_spec(spec_day)]
    pub fn day(&self) -> (r: u32)
        ensures
            r == self.spec_day(),
            self.valid(),
    {
        proof {
            use_type_invariant(self);
        }
        self.day
    }

    /// Whether year, month and day of this date name a date of the calendar.
    pub open spec fn valid(self) -> bool {
        valid_ymd(self.year() as int, self.month() as int, self.day() as int)
    }

    /// The date of the given year, month and day, if there is one.
    pub fn new(year: i32, month: u32, day: u32) -> (r: Option<Date>)
        ensures
            match r {
                Some(date) => valid_ymd(year as int, month as int, day as int) && date.year()
                    == year && date.month() == month && date.day() == day,
                None => !valid_ymd(year as int, month as int, day as int),
            },
    {
        if year < MIN_YEAR || year > MAX_YEAR || month < 1 || month > 12 || day < 1 {
            return None;
        }
        if day > days_in_month(year, month) {
            return None;
        }
        Some(Date { year, month, day })
    }

    /// The day number of this date.
    pub fn day_number(&self) -> (r: i32)
        ensures
            r == self.number(),
            self.valid(),
            MIN_DAY <= r <= MAX_DAY,
    {
        proof {
            use_type_invariant(self);
            lemma_day_number_range(self.year as int, self.month as int, self.day as int);
        }
        chrono_day_number(self.year, self.month, self.day)
    }

    /// The date with day number `n`, if there is one.
    pub fn from_number(n: i64) -> (r: Option<Date>)
        ensures
            match r {
                Some(date) => date.number() == n && date.valid(),
                None => n < MIN_DAY || MAX_DAY < n,
            },
    {
        if n < MIN_DAY as i64 || n > MAX_DAY as i64 {
            return None;
        }
        match chrono_date(n as i32) {
            Some((year, month, day)) => Some(Date { year, month, day }),
            None => None,
        }
    }

    /// The date `n` days later, or earlier when `n` is negative, if there is one.
    pub fn plus_days(&self, n: i64) -> (r: Option<Date>)
        ensures
            self.valid(),
            match r {
                Some(date) => date.number() == self.number() + n && date.valid(),
                None => self.number() + n < MIN_DAY || MAX_DAY < self.number() + n,
            },
    {
        let base: i64 = self.day_number() as i64;
        if n < -200_000_000 || n > 200_000_000 {
            return None;
        }
        Date::from_number(base + n)
    }

    /// The day of the week: 0 for Monday up to 6 for Sunday.
    pub fn weekday(&self) -> (r: u32)
        ensures
            r == weekday_of(self.number()),
            r < 7,
    {
        let n: i32 = self.day_number();
        (n - 1).checked_rem_euclid(7).unwrap() as u32
    }

    /// Whether this date comes before `other`.
    pub fn before(&self, other: &Date) -> (r: bool)
        ensures
            r == (self.number() < other.number()),
    {
        self.day_number() < other.day_number()
    }

    /// Whether this date and `other` are the same day.
    pub fn same_day(&self, other: &Date) -> (r: bool)
        ensures
            r == (*self == *other),
            r == (self.number() == other.number()),
    {
        proof {
            use_type_invariant(self);
            use_type_invariant(other);
            if self.number() == other.number() {
                lemma_number_determines_date(*self, *other);
            }
        }
        *self == *other
    }

    /// The first day of this date's month.
    pub fn first_of_month(&self) -> (r: Date)
        ensures
            r.year() == self.year(),
            r.month() == self.month(),
            r.day() == 1,
            r.valid(),
            r.number() == self.number() - self.day() + 1,
    {
        proof {
            use_type_invariant(self);
        }
        Date { year: self.year, month: self.month, day: 1 }
    }

    /// This date as text, such as `2026-02-17`.
    pub fn text(&self) -> (r: String)
        ensures
            r@ == self.written(),
            self.valid(),
    {
        proof {
            use_type_invariant(self);
        }
        let mut r = String::new();
        if 0 <= self.year && self.year <= 9999 {
            r.append(padded_text(self.year as u64, 4).as_str());
        } else if self.year < 0 {
            r.push('-');
            r.append(padded_text((-self.year) as u64, 4).as_str());
        } else {
            r.push('+');
            r.append(padded_text(self.year as u64, 4).as_str());
        }
        assert(r@ == year_text(self.year as int));
        r.push('-');
        r.append(padded_text(self.month as u64, 2).as_str());
        r.push('-');
        r.append(padded_text(self.day as u64, 2).as_str());
        assert(r@ == self.written());
        r
    }

    /// The text of this date.
    pub open spec fn written(self) -> Seq<char> {
        date_text(self.year() as int, self.month() as int, self.day() as int)
    }

    /// The date that `s` stands for in the format `%Y-%m-%d`, or why it stands for none.
    pub fn read(s: &str) -> (r: Result<Date, String>)
        ensures
            match r {
                Ok(date) => date_reading(s@) == Ok::<(i32, u32, u32), Seq<char>>(
                    (date.year(), date.month(), date.day()),
                ) && date.valid(),
                Err(e) => date_reading(s@) == Err::<(i32, u32, u32), Seq<char>>(e@),
            },
            forall|date: Date|
                date.valid() && 0 <= date.year() <= 9999 && s@ == #[trigger] date.written() ==> r
                    == Ok::<Date, String>(date),
    {
        let parsed = chrono_parse_date(s);
        proof {
            assert forall|date: Date|
                date.valid() && 0 <= date.year() <= 9999 && s@
                    == #[trigger] date.written() implies parsed == Ok::<(i32, u32, u32), String>(
                (date.year(), date.month(), date.day()),
            ) by {
                assert(s@ == date_text(date.year() as int, date.month() as int, date.day() as int));
            }
        }
        match parsed {
            Ok((year, month, day)) => Ok(Date { year, month, day }),
            Err(e) => Err(e),
        }
    }

    /// The date that `s` stands for in the format `%Y-%m-%d`.
    pub fn parse(s: &str) -> (r: Option<Date>)
        ensures
            match r {
                Some(date) => parsed_date(s@) == Some((date.year(), date.month(), date.day()))
                    && date.valid(),
                None => parsed_date(s@) is None,
            },
            forall|date: Date|
                date.valid() && 0 <= date.year() <= 9999 && s@ == #[trigger] date.written() ==> r
                    == Some(date),
    {
        match Date::read(s) {
            Ok(date) => Some(date),
            Err(_) => None,
        }
    }
}

/// The day of the week of day number `n`: 0 for Monday up to 6 for Sunday.
pub open spec fn weekday_of(n: int) -> int {
    (n - 1) % 7
}

/// A year has 365 days, and 366 when it is a leap year.
pub proof fn lemma_year_length(y: int)
    ensures
        days_before_year(y + 1) == days_before_year(y) + 365 + if leap_year(y) {
            1int
        } else {
            0int
        },
        days_before_month(y, 13) == 365 + if leap_year(y) {
            1int
        } else {
            0int
        },
{
    lemma_month_lengths_add_up(y);
    lemma_quotient_step(y, 4);
    lemma_quotient_step(y, 100);
    lemma_quotient_step(y, 400);
    assert(y % 100 == 0 ==> y % 4 == 0);
    assert(y % 400 == 0 ==> y % 100 == 0);
}

/// Quotients grow by one exactly at the multiples of the divisor.
proof fn lemma_quotient_step(y: int, d: int)
    by (nonlinear_arith)
    requires
        d > 0,
    ensures
        y / d == (y - 1) / d + if y % d == 0 {
            1int
        } else {
            0int
        },
{
}

/// The twelve months of a year fill it.
proof fn lemma_month_lengths_add_up(y: int)
    ensures
        days_before_month(y, 13) == 365 + if leap_year(y) {
            1int
        } else {
            0int
        },
{
    reveal_with_fuel(days_before_month, 14);
}

/// Years follow one another: a later year begins at a higher day number.
pub proof fn lemma_years_grow(y1: int, y2: int)
    requires
        y1 <= y2,
    ensures
        days_before_year(y1) + 365 * (y2 - y1) <= days_before_year(y2),
    decreases y2 - y1,
{
    if y1 < y2 {
        lemma_years_grow(y1, y2 - 1);
        lemma_year_length(y2 - 1);
    }
}

/// Months follow one another within a year.
pub proof fn lemma_months_grow(y: int, m1: int, m2: int)
    requires
        1 <= m1 <= m2 <= 13,
    ensures
        days_before_month(y, m1) <= days_before_month(y, m2),
        m1 < m2 ==> days_before_month(y, m1) + month_length(y, m1) <= days_before_month(y, m2),
    decreases m2 - m1,
{
    if m1 < m2 {
        lemma_months_grow(y, m1, m2 - 1);
    }
}

/// A date lies within its year.
pub proof fn lemma_day_in_year(y: int, m: int, d: int)
    requires
        1 <= m <= 12,
        1 <= d <= month_length(y, m),
    ensures
        days_before_year(y) < day_number(y, m, d) <= days_before_year(y + 1),
{
    lemma_year_length(y);
    lemma_months_grow(y, 1, m);
    lemma_months_grow(y, m, 13);
}

/// The day numbers of dates lie within `MIN_DAY..=MAX_DAY`.
pub proof fn lemma_day_number_range(y: int, m: int, d: int)
    requires
        valid_ymd(y, m, d),
    ensures
        MIN_DAY <= day_number(y, m, d) <= MAX_DAY,
{
    lemma_day_in_year(y, m, d);
    lemma_years_grow(MIN_YEAR as int, y);
    lemma_years_grow(y + 1, MAX_YEAR + 1);
    assert(days_before_year(-262143) == -95746130);
    assert(days_before_year(262143) == 95745399);
}

/// Dates are ordered by their day numbers: first by year, then by month, then by day.
pub proof fn lemma_number_orders_dates(a: Date, b: Date)
    requires
        a.valid(),
        b.valid(),
    ensures
        a.number() < b.number() <==> (a.year() < b.year() || (a.year() == b.year() && (a.month()
            < b.month() || (a.month() == b.month() && a.day() < b.day())))),
{
    let (y1, m1, d1) = (a.year() as int, a.month() as int, a.day() as int);
    let (y2, m2, d2) = (b.year() as int, b.month() as int, b.day() as int);
    lemma_day_in_year(y1, m1, d1);
    lemma_day_in_year(y2, m2, d2);
    if y1 < y2 {
        lemma_years_grow(y1 + 1, y2);
    } else if y2 < y1 {
        lemma_years_grow(y2 + 1, y1);
    } else if m1 < m2 {
        lemma_months_grow(y1, m1, m2);
    } else if m2 < m1 {
        lemma_months_grow(y1, m2, m1);
    }
}

/// Two dates with the same day number are the same date.
pub proof fn lemma_number_determines_date(a: Date, b: Date)
    requires
        a.valid(),
        b.valid(),
        a.number() == b.number(),
    ensures
        a == b,
{
    lemma_number_orders_dates(a, b);
    lemma_number_orders_dates(b, a);
}

/// Every day number of the range belongs to a date.
pub proof fn lemma_date_exists(n: int)
    requires
        MIN_DAY <= n <= MAX_DAY,
    ensures
        exists|date: Date| #[trigger] date.valid() && date.number() == n,
    decreases n - MIN_DAY,
{
    if n == MIN_DAY {
        let first = Date { year: MIN_YEAR, month: 1, day: 1 };
        assert(days_before_year(-262143) == -95746130);
        assert(first.valid() && first.number() == n);
    } else {
        lemma_date_exists(n - 1);
        let date = choose|date: Date| #[trigger] date.valid() && date.number() == n - 1;
        let (y, m, d) = (date.year, date.month, date.day);
        let next = if d < month_length(y as int, m as int) {
            Date { year: y, month: m, day: (d + 1) as u32 }
        } else if m < 12 {
            Date { year: y, month: (m + 1) as u32, day: 1 }
        } else {
            Date { year: (y + 1) as i32, month: 1, day: 1 }
        };
        lemma_year_length(y as int);
        assert(days_before_year(262143) == 95745399);
        assert(days_before_month(y as int, 13) == days_before_month(y as int, 12) + 31);
        assert(days_before_month(y + 1, 1) == 0);
        assert(next.valid() && next.number() == n);
    }
}

/// A day number between those of two years' beginnings belongs to a date of those years.
pub proof fn lemma_year_of_number(date: Date, from: int, to: int)
    requires
        date.valid(),
        days_before_year(from) < date.number() <= days_before_year(to),
    ensures
        from <= date.year() < to,
{
    lemma_day_in_year(date.year() as int, date.month() as int, date.day() as int);
    if date.year() < from {
        lemma_years_grow(date.year() + 1, from);
    }
    if date.year() >= to {
        lemma_years_grow(to, date.year() as int);
    }
}

/// The last `width` digits of a number.
spec fn last_digits(n: int, width: nat) -> Seq<char>
    decreases width,
{
    if width == 0 {
        Seq::empty()
    } else {
        last_digits(n / 10, (width - 1) as nat).push(digit_char(n % 10))
    }
}

/// Zero is written as zeros.
proof fn lemma_zeros(width: nat)
    ensures
        last_digits(0, width) == Seq::new(width, |i: int| '0'),
    decreases width,
{
    if width > 0 {
        lemma_zeros((width - 1) as nat);
        assert(digit_char(0) == '0');
        assert(last_digits(0, width) =~= Seq::new(width, |i: int| '0'));
    }
}

/// A number that is padded with zeros is written with its last digits.
proof fn lemma_padded(n: int, width: nat)
    requires
        0 <= n,
        decimal(n as nat).len() <= width,
    ensures
        zero_padded(decimal(n as nat), width) == last_digits(n, width),
    decreases width,
{
    let shorter = (width - 1) as nat;
    if n < 10 {
        lemma_zeros(shorter);
        assert(zero_padded(decimal(n as nat), width) =~= last_digits(0, shorter).push(
            digit_char(n),
        ));
    } else {
        lemma_padded(n / 10, shorter);
        let head = decimal((n / 10) as nat);
        assert(zero_padded(decimal(n as nat), width) =~= zero_padded(head, shorter).push(
            digit_char(n % 10),
        ));
    }
}

/// Texts that begin with as many digits compare by these where they differ.
proof fn lemma_smaller_digits(n: int, x: Seq<char>, m: int, y: Seq<char>, width: nat)
    requires
        0 <= n < m,
        decimal(n as nat).len() <= width,
        decimal(m as nat).len() <= width,
    ensures
        text_lt(last_digits(n, width) + x, last_digits(m, width) + y),
    decreases width,
{
    let shorter = (width - 1) as nat;
    let (c, d) = (digit_char(n % 10), digit_char(m % 10));
    let (head, other) = (last_digits(n / 10, shorter), last_digits(m / 10, shorter));
    assert(last_digits(n, width) + x =~= head + (seq![c] + x));
    assert(last_digits(m, width) + y =~= other + (seq![d] + y));
    if n / 10 < m / 10 {
        lemma_decimal_length((m / 10) as nat);
        lemma_smaller_digits(n / 10, seq![c] + x, m / 10, seq![d] + y, shorter);
    } else {
        assert(n / 10 == m / 10 && n % 10 < m % 10);
        lemma_common_beginning(head, seq![c] + x, seq![d] + y);
        lemma_first_difference(seq![c] + x, seq![d] + y, 0);
    }
}

/// How many digits a number has.
proof fn lemma_decimal_length(n: nat)
    ensures
        decimal(n).len() >= 1,
        n < 10 ==> decimal(n).len() == 1,
        10 <= n < 100 ==> decimal(n).len() == 2,
        100 <= n < 1000 ==> decimal(n).len() == 3,
        1000 <= n < 10_000 ==> decimal(n).len() == 4,
        10_000 <= n < 100_000 ==> decimal(n).len() == 5,
        100_000 <= n < 1_000_000 ==> decimal(n).len() == 6,
    decreases n,
{
    if n >= 10 {
        lemma_decimal_length(n / 10);
    }
}

/// A longer number begins as the number without its last digit.
proof fn lemma_leading_digit(n: nat)
    ensures
        decimal(n).len() > 0,
        n < 10 ==> decimal(n)[0] == digit_char(n as int),
        n >= 10 ==> decimal(n)[0] == decimal(n / 10)[0],
    decreases n,
{
    if n >= 10 {
        lemma_leading_digit(n / 10);
    }
}

/// The first digit of a number with four to six digits.
proof fn lemma_first_digit(n: nat)
    ensures
        decimal(n).len() > 0,
        1000 <= n < 10_000 ==> decimal(n)[0] == digit_char(n as int / 1000),
        10_000 <= n < 100_000 ==> decimal(n)[0] == digit_char(n as int / 10_000),
        100_000 <= n < 1_000_000 ==> decimal(n)[0] == digit_char(n as int / 100_000),
{
    lemma_leading_digit(n);
    lemma_leading_digit(n / 10);
    lemma_leading_digit(n / 10 / 10);
    lemma_leading_digit(n / 10 / 10 / 10);
    lemma_leading_digit(n / 10 / 10 / 10 / 10);
    lemma_leading_digit(n / 10 / 10 / 10 / 10 / 10);
}

/// A common beginning does not matter for the order of two texts.
pub proof fn lemma_common_beginning(p: Seq<char>, a: Seq<char>, b: Seq<char>)
    ensures
        text_lt(p + a, p + b) == text_lt(a, b),
    decreases p.len(),
{
    if p.len() == 0 {
        assert(p + a =~= a);
        assert(p + b =~= b);
    } else {
        let rest = p.subrange(1, p.len() as int);
        assert((p + a).subrange(1, (p + a).len() as int) =~= rest + a);
        assert((p + b).subrange(1, (p + b).len() as int) =~= rest + b);
        assert((p + a)[0] == p[0] && (p + b)[0] == p[0]);
        lemma_common_beginning(rest, a, b);
        if a.len() == 0 && b.len() == 0 {
            lemma_text_lt_total(p + a, p + b);
        }
    }
}

/// Whether the texts of dates in these years, the first not after the second, are ordered as the
/// dates are. Years beyond four digits have a sign in front: the texts stay in order among years
/// with as many digits, and from a year before the first to one of four digits. Of two years
/// before the first, the later one comes first, unless the earlier has one digit more and begins
/// with a smaller digit.
pub open spec fn years_sort(a: int, b: int) -> bool {
    ||| a == b
    ||| 0 <= a && b <= 9999
    ||| 10_000 <= a && b <= 99_999
    ||| 100_000 <= a
    ||| a < 0 && 0 <= b <= 9999
    ||| -19_999 <= a <= -10_000 && -9999 <= b <= -2000
    ||| -199_999 <= a <= -100_000 && -99_999 <= b <= -20_000
}

/// Texts of dates compare by their years where these differ.
proof fn lemma_earlier_year_text(y1: int, rest1: Seq<char>, y2: int, rest2: Seq<char>)
    requires
        y1 < y2,
        MIN_YEAR <= y1,
        y2 <= MAX_YEAR,
        years_sort(y1, y2),
    ensures
        text_lt(year_text(y1) + rest1, year_text(y2) + rest2),
{
    let (s, t) = (year_text(y1) + rest1, year_text(y2) + rest2);
    if 0 <= y1 {
        lemma_decimal_length(y1 as nat);
        lemma_decimal_length(y2 as nat);
        let width = if y2 <= 9999 {
            4nat
        } else if y2 <= 99_999 {
            5
        } else {
            6
        };
        lemma_padded(y1, width);
        lemma_padded(y2, width);
        lemma_smaller_digits(y1, rest1, y2, rest2, width);
        if y2 > 9999 {
            assert(s =~= seq!['+'] + (last_digits(y1, width) + rest1));
            assert(t =~= seq!['+'] + (last_digits(y2, width) + rest2));
            lemma_common_beginning(
                seq!['+'],
                last_digits(y1, width) + rest1,
                last_digits(y2, width) + rest2,
            );
        }
    } else if 0 <= y2 {
        lemma_decimal_length(y2 as nat);
        lemma_padded(y2, 4);
        lemma_leading_of_four(y2);
        assert(s[0] == '-');
        assert(t[0] == digit_char(y2 / 1000));
        lemma_first_difference(s, t, 0);
    } else {
        let (n, m) = ((-y1) as nat, (-y2) as nat);
        lemma_decimal_length(n);
        lemma_decimal_length(m);
        lemma_first_digit(n);
        lemma_first_digit(m);
        assert(s[0] == '-' && t[0] == '-');
        assert(s[1] == decimal(n)[0] && t[1] == decimal(m)[0]);
        lemma_first_difference(s, t, 1);
    }
}

/// The first of four digits.
proof fn lemma_leading_of_four(y: int)
    requires
        0 <= y <= 9999,
    ensures
        last_digits(y, 4).len() == 4,
        last_digits(y, 4)[0] == digit_char(y / 1000),
{
    reveal_with_fuel(last_digits, 5);
    assert(y / 10 / 10 / 10 == y / 1000);
    assert(y / 1000 % 10 == y / 1000);
}

/// Texts that begin with two digits compare by these where they differ.
pub proof fn lemma_smaller_pair_text(n: int, x: Seq<char>, m: int, y: Seq<char>)
    requires
        0 <= n < m < 100,
    ensures
        text_lt(two_digits(n) + x, two_digits(m) + y),
{
    lemma_decimal_length(n as nat);
    lemma_decimal_length(m as nat);
    lemma_padded(n, 2);
    lemma_padded(m, 2);
    lemma_smaller_digits(n, x, m, y, 2);
}

/// A text before another of the same length stays before it, whatever follows the two.
pub proof fn lemma_text_lt_extends(a: Seq<char>, x: Seq<char>, b: Seq<char>, y: Seq<char>)
    requires
        a.len() == b.len(),
        text_lt(a, b),
    ensures
        text_lt(a + x, b + y),
    decreases a.len(),
{
    if a[0] == b[0] {
        let (c, d) = (a.subrange(1, a.len() as int), b.subrange(1, b.len() as int));
        lemma_text_lt_extends(c, x, d, y);
        assert((a + x).subrange(1, (a + x).len() as int) =~= c + x);
        assert((b + y).subrange(1, (b + y).len() as int) =~= d + y);
    }
}

/// The text of a date with a year of four digits has ten characters.
pub proof fn lemma_date_text_length(y: int, m: int, d: int)
    requires
        0 <= y <= 9999,
        0 <= m < 100,
        0 <= d < 100,
    ensures
        date_text(y, m, d).len() == 10,
{
    lemma_decimal_length(y as nat);
    lemma_decimal_length(m as nat);
    lemma_decimal_length(d as nat);
}

/// The text of an earlier date comes first.
proof fn lemma_earlier_text(y1: int, m1: int, d1: int, y2: int, m2: int, d2: int)
    requires
        MIN_YEAR <= y1 <= y2 <= MAX_YEAR,
        years_sort(y1, y2),
        0 <= m1 < 100,
        0 <= m2 < 100,
        0 <= d1 < 100,
        0 <= d2 < 100,
        y1 < y2 || m1 < m2 || (m1 == m2 && d1 < d2),
    ensures
        text_lt(date_text(y1, m1, d1), date_text(y2, m2, d2)),
{
    let (end1, end2) = (two_digits(d1), two_digits(d2));
    let (rest1, rest2) = (seq!['-'] + end1, seq!['-'] + end2);
    let (tail1, tail2) = (two_digits(m1) + rest1, two_digits(m2) + rest2);
    assert(date_text(y1, m1, d1) =~= year_text(y1) + (seq!['-'] + tail1));
    assert(date_text(y2, m2, d2) =~= year_text(y2) + (seq!['-'] + tail2));
    if y1 < y2 {
        lemma_earlier_year_text(y1, seq!['-'] + tail1, y2, seq!['-'] + tail2);
    } else {
        lemma_common_beginning(year_text(y1), seq!['-'] + tail1, seq!['-'] + tail2);
        lemma_common_beginning(seq!['-'], tail1, tail2);
        if m1 < m2 {
            lemma_smaller_pair_text(m1, rest1, m2, rest2);
        } else {
            lemma_common_beginning(two_digits(m1), rest1, rest2);
            lemma_common_beginning(seq!['-'], end1, end2);
            lemma_smaller_pair_text(d1, Seq::empty(), d2, Seq::empty());
            assert(end1 + Seq::<char>::empty() =~= end1);
            assert(end2 + Seq::<char>::empty() =~= end2);
        }
    }
}

/// Where the texts of their years are in order, the text of an earlier date comes before that of a
/// later one.
pub proof fn texts_order_dates(a: Date, b: Date)
    requires
        a.valid(),
        b.valid(),
        a.number() <= b.number(),
        years_sort(a.year() as int, b.year() as int),
    ensures
        text_lt(a.written(), b.written()) <==> a.number() < b.number(),
        !text_lt(b.written(), a.written()),
{
    lemma_text_lt_total(a.written(), b.written());
    if a.number() < b.number() {
        lemma_number_orders_dates(a, b);
        lemma_earlier_text(
            a.year() as int,
            a.month() as int,
            a.day() as int,
            b.year() as int,
            b.month() as int,
            b.day() as int,
        );
    } else {
        lemma_number_determines_date(a, b);
    }
}

} // verus!
