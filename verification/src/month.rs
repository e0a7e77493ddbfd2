//! Months and the steps of the date pickers.
use crate::date::{
    days_before_month, days_in_month, lemma_day_number_range, lemma_number_determines_date,
    lemma_year_length, month_length, two_digits, weekday_of, Date, MAX_DAY, MAX_YEAR, MIN_DAY,
    MIN_YEAR,
};
use crate::text::{decimal, decimal_text, padded_text, signed_decimal, signed_text};
use vstd::prelude::*;

verus! {

/// From the first day of a month to that of the next there are as many days as the month has.
pub proof fn the_next_month_begins_after_the_last_day(month: Date, next: Date)
    requires
        month.valid(),
        next.valid(),
        month.day() == 1,
        next.day() == 1,
        month_index(next) == month_index(month) + 1,
    ensures
        next.number() == month.number() + month_length(month.year() as int, month.month() as int),
{
    let y = month.year() as int;
    if month.month() == 12 {
        assert(next.year() == y + 1 && next.month() == 1);
        lemma_year_length(y);
        assert(days_before_month(y, 13) == days_before_month(y, 12) + month_length(y, 12));
        assert(days_before_month(y + 1, 1) == 0);
    } else {
        assert(next.year() == y && next.month() == month.month() + 1);
    }
}

/// The earliest and the latest year of the date pickers.
pub const FIRST_PICKED_YEAR: i32 = 1900;

pub const LAST_PICKED_YEAR: i32 = 2100;

/// The months from January of year 0 to the month of a date.
pub open spec fn month_index(date: Date) -> int {
    date.year() * 12 + date.month() - 1
}

/// Whether the month `delta` months from that of `date` belongs to the calendar.
pub open spec fn has_month(date: Date, delta: int) -> bool {
    MIN_YEAR <= (month_index(date) + delta) / 12 <= MAX_YEAR
}

/// The first day of the month `delta` months from that of `month`.
pub fn shift_month(month: Date, delta: i32) -> (r: Date)
    requires
        has_month(month, delta as int),
    ensures
        r.valid(),
        r.day() == 1,
        month_index(r) == month_index(month) + delta,
{
    let total: i64 = month.year() as i64 * 12 + month.month() as i64 - 1 + delta as i64;
    let year: i64 = total.checked_div_euclid(12).unwrap();
    let rest: i64 = total.checked_rem_euclid(12).unwrap();
    Date::new(year as i32, rest as u32 + 1, 1).unwrap()
}

/// Going some months forward and as many back leads to the first day of the same month.
pub proof fn months_back_undo_months_forward(start: Date, there: Date, back: Date, delta: int)
    requires
        start.valid(),
        there.valid(),
        back.valid(),
        back.day() == 1,
        month_index(there) == month_index(start) + delta,
        month_index(back) == month_index(there) - delta,
    ensures
        back.year() == start.year(),
        back.month() == start.month(),
        start.day() == 1 ==> back == start,
{
    assert(back.year() == start.year() && back.month() == start.month());
    if start.day() == 1 {
        lemma_number_determines_date(back, start);
    }
}

/// The smaller of two numbers.
pub open spec fn smaller(a: int, b: int) -> int {
    if a <= b {
        a
    } else {
        b
    }
}

/// A year within the range of the date pickers.
pub open spec fn picked_year(year: int) -> int {
    if year < FIRST_PICKED_YEAR {
        FIRST_PICKED_YEAR as int
    } else if year > LAST_PICKED_YEAR {
        LAST_PICKED_YEAR as int
    } else {
        year
    }
}

/// Whether `r` is `date` after a step of a date picker: by years for part 0, by months for part 1,
/// and by days otherwise. Days that a month lacks become its last day.
pub open spec fn adjusted(date: Date, part: i32, delta: i32, r: Date) -> bool {
    if part == 0 {
        &&& r.year() == picked_year(date.year() + delta)
        &&& r.month() == date.month()
        &&& r.day() == smaller(
            date.day() as int,
            month_length(r.year() as int, r.month() as int),
        )
    } else if part == 1 {
        &&& month_index(r) == month_index(date) + delta
        &&& r.day() == smaller(
            date.day() as int,
            month_length(r.year() as int, r.month() as int),
        )
    } else {
        r.number() == date.number() + delta && FIRST_PICKED_YEAR <= r.year() <= LAST_PICKED_YEAR
            || (r == date && forall|other: Date| #[trigger]
            other.valid() && other.number() == date.number() + delta ==> !(FIRST_PICKED_YEAR
                <= other.year() <= LAST_PICKED_YEAR))
    }
}

/// `date` after a step of a date picker.
pub fn adjust_date(date: Date, part: i32, delta: i32) -> (r: Date)
    requires
        part == 1 ==> has_month(date, delta as int),
    ensures
        r.valid(),
        adjusted(date, part, delta, r),
{
    match part {
        0 => {
            let wanted: i64 = date.year() as i64 + delta as i64;
            let year: i32 = if wanted < FIRST_PICKED_YEAR as i64 {
                FIRST_PICKED_YEAR
            } else if wanted > LAST_PICKED_YEAR as i64 {
                LAST_PICKED_YEAR
            } else {
                wanted as i32
            };
            let month: u32 = date.month();
            let length: u32 = days_in_month(year, month);
            let day: u32 = if date.day() < length {
                date.day()
            } else {
                length
            };
            Date::new(year, month, day).unwrap()
        },
        1 => {
            let first = shift_month(date, delta);
            let length: u32 = days_in_month(first.year(), first.month());
            let day: u32 = if date.day() < length {
                date.day()
            } else {
                length
            };
            Date::new(first.year(), first.month(), day).unwrap()
        },
        _ => match date.plus_days(delta as i64) {
            Some(other) => {
                let year: i32 = other.year();
                proof {
                    assert forall|d: Date| #[trigger]
                        d.valid() && d.number() == date.number() + delta implies d == other by {
                        lemma_number_determines_date(d, other);
                    }
                }
                if FIRST_PICKED_YEAR <= year && year <= LAST_PICKED_YEAR {
                    other
                } else {
                    date
                }
            },
            None => {
                proof {
                    assert forall|d: Date| #[trigger]
                        d.valid() && d.number() == date.number() + delta implies false by {
                        lemma_day_number_range(d.year() as int, d.month() as int, d.day() as int);
                    }
                }
                date
            },
        },
    }
}

/// The name of a day of the week, 0 being Monday.
pub open spec fn weekday_text(day: int) -> Seq<char> {
    if day == 0 {
        "周一"@
    } else if day == 1 {
        "周二"@
    } else if day == 2 {
        "周三"@
    } else if day == 3 {
        "周四"@
    } else if day == 4 {
        "周五"@
    } else if day == 5 {
        "周六"@
    } else {
        "周日"@
    }
}

/// The name of a day of the week, 0 being Monday.
pub fn weekday_name(day: u32) -> (r: &'static str)
    ensures
        r@ == weekday_text(day as int),
{
    match day {
        0 => "周一",
        1 => "周二",
        2 => "周三",
        3 => "周四",
        4 => "周五",
        5 => "周六",
        _ => "周日",
    }
}

/// Month and day as users read them, such as `02月17日`.
pub open spec fn month_day_text(date: Date) -> Seq<char> {
    two_digits(date.month() as int) + "月"@ + two_digits(date.day() as int) + "日"@
}

/// Month and day as users read them.
pub fn month_day_label(date: &Date) -> (r: String)
    ensures
        r@ == month_day_text(*date),
{
    let mut r = padded_text(date.month() as u64, 2);
    r.append("月");
    r.append(padded_text(date.day() as u64, 2).as_str());
    r.append("日");
    r
}

/// The title of a month, such as `2026年 2月`.
pub open spec fn month_title_text(month: Date) -> Seq<char> {
    signed_decimal(month.year() as int) + "年 "@ + decimal(month.month() as nat) + "月"@
}

/// The title of a month.
pub fn month_title(month: &Date) -> (r: String)
    ensures
        r@ == month_title_text(*month),
{
    let mut r = signed_text(month.year() as i64);
    r.append("年 ");
    r.append(decimal_text(month.month() as u64).as_str());
    r.append("月");
    r
}

/// How many days the sheet of a month shows: six weeks.
pub const SHEET_DAYS: i64 = 42;

/// Whether all days on the sheet of `month` belong to the calendar.
pub open spec fn has_sheet(month: Date) -> bool {
    MIN_DAY + 6 <= month.number() <= MAX_DAY - 48
}

/// The day number of the first day on the sheet of `month`: the Monday on or before it.
pub open spec fn sheet_start(month: Date) -> int {
    month.number() - weekday_of(month.number())
}

/// The first day on the sheet of `month`.
pub fn first_on_sheet(month: &Date) -> (r: Date)
    requires
        has_sheet(*month),
    ensures
        r.valid(),
        r.number() == sheet_start(*month),
{
    let back: i64 = month.weekday() as i64;
    month.plus_days(-back).unwrap()
}

/// The sheet of a month begins with a Monday and shows every day of the month.
pub proof fn a_sheet_shows_the_whole_month(month: Date, day: Date)
    requires
        month.valid(),
        month.day() == 1,
        day.valid(),
        day.year() == month.year(),
        day.month() == month.month(),
    ensures
        weekday_of(sheet_start(month)) == 0,
        sheet_start(month) <= day.number() < sheet_start(month) + SHEET_DAYS,
{
    assert(day.number() == month.number() + day.day() - 1);
    assert(month_length(day.year() as int, day.month() as int) <= 31);
}

/// The days of the week have seven different names, from Monday to Sunday, and the name comes again
/// after seven days.
pub proof fn days_of_the_week_are_named_in_turn(day: int)
    ensures
        weekday_text(weekday_of(day)) == weekday_text(weekday_of(day + 7)),
        weekday_text(weekday_of(day)) == seq![
            '周',
            seq!['日', '一', '二', '三', '四', '五', '六'][day % 7],
        ],
{
    reveal_strlit("周一");
    reveal_strlit("周二");
    reveal_strlit("周三");
    reveal_strlit("周四");
    reveal_strlit("周五");
    reveal_strlit("周六");
    reveal_strlit("周日");
    assert(weekday_text(weekday_of(day)) =~= seq![
        '周',
        seq!['日', '一', '二', '三', '四', '五', '六'][day % 7],
    ]);
}

/// Dates that differ in month or day read differently, and so do months of different years.
pub proof fn dates_are_told_by_month_and_day(date: Date)
    ensures
        month_day_text(date) == two_digits(date.month() as int) + seq!['月'] + two_digits(
            date.day() as int,
        ) + seq!['日'],
        month_title_text(date) == signed_decimal(date.year() as int) + seq!['年', ' '] + decimal(
            date.month() as nat,
        ) + seq!['月'],
{
    reveal_strlit("月");
    reveal_strlit("日");
    reveal_strlit("年 ");
    assert("月"@ =~= seq!['月']);
    assert("日"@ =~= seq!['日']);
    assert("年 "@ =~= seq!['年', ' ']);
}

/// A step of the date picker by years keeps month and day, one by months keeps the day, as far as
/// the month has that day, and one by days goes that many days on, within the years of the picker.
pub proof fn a_step_keeps_what_it_does_not_turn(date: Date, part: i32, delta: i32, r: Date)
    requires
        date.valid(),
        r.valid(),
        adjusted(date, part, delta, r),
    ensures
        part == 0 || part == 1 ==> r.day() <= date.day(),
        (part == 0 || part == 1) && date.day() <= 28 ==> r.day() == date.day(),
        part == 0 ==> r.month() == date.month(),
        part == 0 && 1900 <= date.year() + delta <= 2100 ==> r.year() == date.year() + delta,
        part == 0 ==> 1900 <= r.year() <= 2100,
        part == 1 ==> r.year() * 12 + r.month() == date.year() * 12 + date.month() + delta,
        part != 0 && part != 1 && r != date ==> r.number() == date.number() + delta && 1900
            <= r.year() <= 2100,
{
}

} // verus!
