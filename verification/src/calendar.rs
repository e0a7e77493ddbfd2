//! When events take place: kinds of schedules, rest days and the lunar calendar.
use crate::date::{two_digits, weekday_of, Date};
use crate::instant::{
    a_local_time_is_what_the_zone_has, date_of_number, local_count, local_instant, shanghai_single,
    Instant, LAST_CLOCK_CHANGE, UNIX_DAY,
};
use crate::models::{CalendarEvent, EventView, Holiday};
use crate::text::{
    after_prefix, lemma_find, lemma_find_is, parse_unsigned, same_text, split_first, split_once,
    starts_with, strip_prefix, unsigned_number,
};
use vstd::prelude::*;

verus! {

/// How an event repeats.
#[derive(Clone, Copy, Debug, PartialEq, Eq, Structural)]
pub enum ScheduleKind {
    Specific,
    LegalRestDay,
    LegalWorkday,
    YearlySolar,
    YearlyLunar,
    Daily,
}

/// The kind with index `value`; an index without a kind of its own means a specific date.
pub open spec fn kind_at(value: int) -> ScheduleKind {
    if value == 1 {
        ScheduleKind::LegalRestDay
    } else if value == 2 {
        ScheduleKind::LegalWorkday
    } else if value == 3 {
        ScheduleKind::YearlySolar
    } else if value == 4 {
        ScheduleKind::YearlyLunar
    } else if value == 5 {
        ScheduleKind::Daily
    } else {
        ScheduleKind::Specific
    }
}

/// The index of a kind.
pub open spec fn kind_index(kind: ScheduleKind) -> int {
    match kind {
        ScheduleKind::Specific => 0,
        ScheduleKind::LegalRestDay => 1,
        ScheduleKind::LegalWorkday => 2,
        ScheduleKind::YearlySolar => 3,
        ScheduleKind::YearlyLunar => 4,
        ScheduleKind::Daily => 5,
    }
}

/// What users read for a kind.
pub open spec fn kind_label(kind: ScheduleKind) -> Seq<char> {
    match kind {
        ScheduleKind::Specific => "具体日期与时间"@,
        ScheduleKind::LegalRestDay => "每个法定休息日"@,
        ScheduleKind::LegalWorkday => "每个法定工作日"@,
        ScheduleKind::YearlySolar => "每年公历某一天"@,
        ScheduleKind::YearlyLunar => "每年农历某一天"@,
        ScheduleKind::Daily => "每天某个时刻"@,
    }
}

impl ScheduleKind {
    /// The kind with index `value`.
    pub fn from_index(value: i32) -> (r: Self)
        ensures
            r == kind_at(value as int),
    {
        match value {
            1 => ScheduleKind::LegalRestDay,
            2 => ScheduleKind::LegalWorkday,
            3 => ScheduleKind::YearlySolar,
            4 => ScheduleKind::YearlyLunar,
            5 => ScheduleKind::Daily,
            _ => ScheduleKind::Specific,
        }
    }

    /// The index of this kind.
    pub fn index(self) -> (r: i32)
        ensures
            r == kind_index(self),
    {
        match self {
            ScheduleKind::Specific => 0,
            ScheduleKind::LegalRestDay => 1,
            ScheduleKind::LegalWorkday => 2,
            ScheduleKind::YearlySolar => 3,
            ScheduleKind::YearlyLunar => 4,
            ScheduleKind::Daily => 5,
        }
    }

    /// What users read for this kind.
    pub fn label(self) -> (r: &'static str)
        ensures
            r@ == kind_label(self),
    {
        match self {
            ScheduleKind::Specific => "具体日期与时间",
            ScheduleKind::LegalRestDay => "每个法定休息日",
            ScheduleKind::LegalWorkday => "每个法定工作日",
            ScheduleKind::YearlySolar => "每年公历某一天",
            ScheduleKind::YearlyLunar => "每年农历某一天",
            ScheduleKind::Daily => "每天某个时刻",
        }
    }
}

/// Kinds and the indices 0 to 5 stand for each other.
pub proof fn kinds_and_indices_correspond(kind: ScheduleKind, value: int)
    ensures
        kind_at(kind_index(kind)) == kind,
        0 <= value <= 5 ==> kind_index(kind_at(value)) == value,
        !(0 <= value <= 5) ==> kind_at(value) == ScheduleKind::Specific,
{
}

/// The kind that a recurrence rule stands for.
pub open spec fn rule_kind(rule: Seq<char>) -> ScheduleKind {
    if rule == "LEGAL_REST_DAY"@ {
        ScheduleKind::LegalRestDay
    } else if rule == "LEGAL_WORKDAY"@ {
        ScheduleKind::LegalWorkday
    } else if "YEARLY_SOLAR:"@.is_prefix_of(rule) {
        ScheduleKind::YearlySolar
    } else if "YEARLY_LUNAR:"@.is_prefix_of(rule) {
        ScheduleKind::YearlyLunar
    } else if rule == "DAILY"@ {
        ScheduleKind::Daily
    } else {
        ScheduleKind::Specific
    }
}

/// How `event` repeats.
pub fn schedule_kind(event: &CalendarEvent) -> (r: ScheduleKind)
    ensures
        r == rule_kind(event@.recurrence_rule),
{
    let rule = event.recurrence_rule.as_str();
    if same_text(rule, "LEGAL_REST_DAY") {
        ScheduleKind::LegalRestDay
    } else if same_text(rule, "LEGAL_WORKDAY") {
        ScheduleKind::LegalWorkday
    } else if starts_with(rule, "YEARLY_SOLAR:") {
        ScheduleKind::YearlySolar
    } else if starts_with(rule, "YEARLY_LUNAR:") {
        ScheduleKind::YearlyLunar
    } else if same_text(rule, "DAILY") {
        ScheduleKind::Daily
    } else {
        ScheduleKind::Specific
    }
}

/// The month and day of a text such as `02-17`, both at most `max`.
pub open spec fn month_day(s: Seq<char>, max: int) -> Option<(int, int)> {
    match split_first(s, '-') {
        Some((month, day)) => match (
            unsigned_number(month, 10, max),
            unsigned_number(day, 10, max),
        ) {
            (Some(m), Some(d)) => Some((m, d)),
            _ => None,
        },
        None => None,
    }
}

/// The month and day of a text such as `02-17`, both at most `max`.
pub fn read_month_day(s: &str, max: u64) -> (r: Option<(u64, u64)>)
    ensures
        match r {
            Some((m, d)) => month_day(s@, max as int) == Some((m as int, d as int)) && m <= max
                && d <= max,
            None => month_day(s@, max as int) is None,
        },
{
    match split_once(s, '-') {
        Some((month, day)) => match (
            parse_unsigned(month.as_str(), 10, max),
            parse_unsigned(day.as_str(), 10, max),
        ) {
            (Some(m), Some(d)) => Some((m, d)),
            _ => None,
        },
        None => None,
    }
}

/// The month and day that a yearly rule of the solar calendar names.
pub open spec fn solar_rule(rule: Seq<char>) -> Option<(int, int)> {
    match after_prefix(rule, "YEARLY_SOLAR:"@) {
        Some(value) => month_day(value, u32::MAX as int),
        None => None,
    }
}

/// The month and day of the solar calendar on which `event` repeats: those of its rule, or else
/// those of its start.
pub open spec fn solar_parts(event: EventView) -> (int, int) {
    match solar_rule(event.recurrence_rule) {
        Some(parts) => parts,
        None => {
            let start = date_of_number(event.start_at.local_day());
            (start.month() as int, start.day() as int)
        },
    }
}

/// The month and day of the solar calendar on which `event` repeats.
pub fn yearly_solar_parts(event: &CalendarEvent) -> (r: (u32, u32))
    ensures
        solar_parts(event@) == (r.0 as int, r.1 as int),
{
    if let Some(value) = strip_prefix(event.recurrence_rule.as_str(), "YEARLY_SOLAR:") {
        if let Some((month, day)) = read_month_day(value.as_str(), u32::MAX as u64) {
            return (month as u32, day as u32);
        }
    }
    let date = event.start_at.local_date();
    proof {
        lemma_date_of_number(date);
    }
    (date.month(), date.day())
}

/// A date is the one that its day number names.
pub proof fn lemma_date_of_number(date: Date)
    requires
        date.valid(),
    ensures
        date_of_number(date.number()) == date,
{
    crate::date::lemma_number_determines_date(date, date_of_number(date.number()));
}

/// What stands before the first `:` of a text.
pub open spec fn first_field(s: Seq<char>) -> Seq<char> {
    match split_first(s, ':') {
        Some((head, rest)) => head,
        None => s,
    }
}

/// Whether the field after the first `:` of a text is `leap`.
pub open spec fn second_field_is_leap(s: Seq<char>) -> bool {
    match split_first(s, ':') {
        Some((head, rest)) => first_field(rest) == "leap"@,
        None => false,
    }
}

/// The month, day and leap mark that a yearly rule of the lunar calendar names.
pub open spec fn lunar_rule(rule: Seq<char>) -> Option<(int, int, bool)> {
    match after_prefix(rule, "YEARLY_LUNAR:"@) {
        Some(value) => match month_day(first_field(value), u8::MAX as int) {
            Some((month, day)) => Some((month, day, second_field_is_leap(value))),
            None => None,
        },
        None => None,
    }
}

/// Month, day and leap mark of a date in the Chinese lunar calendar, as `lunar_lite` has them.
pub uninterp spec fn lunar_of(year: i32, month: u32, day: u32) -> Option<(u8, u8, bool)>;

/// Calls `lunar_lite`'s `solar_to_lunar` and keeps month, day and leap mark. It refuses years
/// outside 1 to 9999.
#[verifier::external_body]
fn lunar_lite_parts(year: i32, month: u32, day: u32) -> (r: Option<(u8, u8, bool)>)
    requires
        1 <= month <= 12,
        1 <= day <= 31,
    ensures
        r == lunar_of(year, month, day),
        !(1 <= year <= 9999) ==> r is None,
{
    let solar = lunar_lite::SolarDate { year, month: month as u8, day: day as u8 };
    let lunar = lunar_lite::solar_to_lunar(solar).ok()?;
    Some((lunar.month, lunar.day, lunar.is_leap_month))
}

/// The lunar date of `date`.
pub open spec fn lunar_date(date: Date) -> Option<(u8, u8, bool)> {
    lunar_of(date.year(), date.month(), date.day())
}

/// Month, day and leap mark of `date` in the lunar calendar.
pub fn lunar_parts(date: Date) -> (r: Option<(u8, u8, bool)>)
    ensures
        r == lunar_date(date),
        !(1 <= date.year() <= 9999) ==> r is None,
{
    lunar_lite_parts(date.year(), date.month(), date.day())
}

/// The lunar month, day and leap mark on which `event` repeats: those of its rule, or else those
/// of its start, or else the first day of the year.
pub open spec fn lunar_event_parts(event: EventView) -> (int, int, bool) {
    match lunar_rule(event.recurrence_rule) {
        Some(parts) => parts,
        None => match lunar_date(date_of_number(event.start_at.local_day())) {
            Some((month, day, leap)) => (month as int, day as int, leap),
            None => (1, 1, false),
        },
    }
}

/// Whether the second field of `value` is the leap mark.
fn has_leap_field(value: &str) -> (r: bool)
    ensures
        r == second_field_is_leap(value@),
{
    match split_once(value, ':') {
        Some((head, rest)) => match split_once(rest.as_str(), ':') {
            Some((field, more)) => same_text(field.as_str(), "leap"),
            None => same_text(rest.as_str(), "leap"),
        },
        None => false,
    }
}

/// The first field of `value`.
fn head_field(value: &str) -> (r: String)
    ensures
        r@ == first_field(value@),
{
    match split_once(value, ':') {
        Some((head, rest)) => head,
        None => value.to_owned(),
    }
}

/// The lunar month, day and leap mark on which `event` repeats.
pub fn yearly_lunar_parts(event: &CalendarEvent) -> (r: (u8, u8, bool))
    ensures
        lunar_event_parts(event@) == (r.0 as int, r.1 as int, r.2),
{
    if let Some(value) = strip_prefix(event.recurrence_rule.as_str(), "YEARLY_LUNAR:") {
        let head = head_field(value.as_str());
        if let Some((month, day)) = read_month_day(head.as_str(), u8::MAX as u64) {
            return (month as u8, day as u8, has_leap_field(value.as_str()));
        }
    }
    let date = event.start_at.local_date();
    proof {
        lemma_date_of_number(date);
    }
    match lunar_parts(date) {
        Some(parts) => parts,
        None => (1, 1, false),
    }
}

/// The name of lunar month `n`; 0 counts as the first month.
pub open spec fn month_name_text(n: u8) -> Option<Seq<char>> {
    if n <= 1 {
        Some("正月"@)
    } else if n == 2 {
        Some("二月"@)
    } else if n == 3 {
        Some("三月"@)
    } else if n == 4 {
        Some("四月"@)
    } else if n == 5 {
        Some("五月"@)
    } else if n == 6 {
        Some("六月"@)
    } else if n == 7 {
        Some("七月"@)
    } else if n == 8 {
        Some("八月"@)
    } else if n == 9 {
        Some("九月"@)
    } else if n == 10 {
        Some("十月"@)
    } else if n == 11 {
        Some("冬月"@)
    } else if n == 12 {
        Some("腊月"@)
    } else {
        None
    }
}

/// The name of lunar month `n`; 0 counts as the first month.
pub fn month_name(n: u8) -> (r: Option<&'static str>)
    ensures
        match r {
            Some(name) => month_name_text(n) == Some(name@),
            None => month_name_text(n) is None,
        },
{
    match n {
        0 | 1 => Some("正月"),
        2 => Some("二月"),
        3 => Some("三月"),
        4 => Some("四月"),
        5 => Some("五月"),
        6 => Some("六月"),
        7 => Some("七月"),
        8 => Some("八月"),
        9 => Some("九月"),
        10 => Some("十月"),
        11 => Some("冬月"),
        12 => Some("腊月"),
        _ => None,
    }
}

/// The name of day `n` of a lunar month; 0 counts as the first day.
pub open spec fn day_name_text(n: u8) -> Option<Seq<char>> {
    if n <= 1 {
        Some("初一"@)
    } else if n == 2 {
        Some("初二"@)
    } else if n == 3 {
        Some("初三"@)
    } else if n == 4 {
        Some("初四"@)
    } else if n == 5 {
        Some("初五"@)
    } else if n == 6 {
        Some("初六"@)
    } else if n == 7 {
        Some("初七"@)
    } else if n == 8 {
        Some("初八"@)
    } else if n == 9 {
        Some("初九"@)
    } else if n == 10 {
        Some("初十"@)
    } else if n == 11 {
        Some("十一"@)
    } else if n == 12 {
        Some("十二"@)
    } else if n == 13 {
        Some("十三"@)
    } else if n == 14 {
        Some("十四"@)
    } else if n == 15 {
        Some("十五"@)
    } else if n == 16 {
        Some("十六"@)
    } else if n == 17 {
        Some("十七"@)
    } else if n == 18 {
        Some("十八"@)
    } else if n == 19 {
        Some("十九"@)
    } else if n == 20 {
        Some("二十"@)
    } else if n == 21 {
        Some("廿一"@)
    } else if n == 22 {
        Some("廿二"@)
    } else if n == 23 {
        Some("廿三"@)
    } else if n == 24 {
        Some("廿四"@)
    } else if n == 25 {
        Some("廿五"@)
    } else if n == 26 {
        Some("廿六"@)
    } else if n == 27 {
        Some("廿七"@)
    } else if n == 28 {
        Some("廿八"@)
    } else if n == 29 {
        Some("廿九"@)
    } else if n == 30 {
        Some("三十"@)
    } else {
        None
    }
}

/// The name of day `n` of a lunar month; 0 counts as the first day.
pub fn day_name(n: u8) -> (r: Option<&'static str>)
    ensures
        match r {
            Some(name) => day_name_text(n) == Some(name@),
            None => day_name_text(n) is None,
        },
{
    match n {
        0 | 1 => Some("初一"),
        2 => Some("初二"),
        3 => Some("初三"),
        4 => Some("初四"),
        5 => Some("初五"),
        6 => Some("初六"),
        7 => Some("初七"),
        8 => Some("初八"),
        9 => Some("初九"),
        10 => Some("初十"),
        11 => Some("十一"),
        12 => Some("十二"),
        13 => Some("十三"),
        14 => Some("十四"),
        15 => Some("十五"),
        16 => Some("十六"),
        17 => Some("十七"),
        18 => Some("十八"),
        19 => Some("十九"),
        20 => Some("二十"),
        21 => Some("廿一"),
        22 => Some("廿二"),
        23 => Some("廿三"),
        24 => Some("廿四"),
        25 => Some("廿五"),
        26 => Some("廿六"),
        27 => Some("廿七"),
        28 => Some("廿八"),
        29 => Some("廿九"),
        30 => Some("三十"),
        _ => None,
    }
}

/// The lunar date as users read it, such as `农历正月初一`; names outside the calendar fall back
/// to the first of their kind.
pub open spec fn lunar_date_text(month: u8, day: u8, leap: bool) -> Seq<char> {
    let month_part = match month_name_text(month) {
        Some(name) => name,
        None => "正月"@,
    };
    let day_part = match day_name_text(day) {
        Some(name) => name,
        None => "初一"@,
    };
    "农历"@ + if leap {
        "闰"@
    } else {
        ""@
    } + month_part + day_part
}

/// The lunar date as users read it.
pub fn lunar_date_label(month: u8, day: u8, leap: bool) -> (r: String)
    ensures
        r@ == lunar_date_text(month, day, leap),
{
    let month_part = match month_name(month) {
        Some(name) => name,
        None => "正月",
    };
    let day_part = match day_name(day) {
        Some(name) => name,
        None => "初一",
    };
    let mut r = "农历".to_owned();
    r.append(if leap {
        "闰"
    } else {
        ""
    });
    r.append(month_part);
    r.append(day_part);
    r
}

/// Whether a holiday record, where there is one, makes its day a rest day.
pub open spec fn off_day(holiday: Option<&Holiday>) -> Option<bool> {
    match holiday {
        Some(item) => Some(item.is_off_day),
        None => None,
    }
}

/// Whether the day with number `day` is a rest day: as its holiday record says, or else on
/// Saturdays and Sundays.
pub open spec fn rest_day(day: int, off: Option<bool>) -> bool {
    match off {
        Some(value) => value,
        None => weekday_of(day) >= 5,
    }
}

/// Whether `date` is a legal rest day, given its holiday record.
pub fn is_legal_rest_day(date: Date, holiday: Option<&Holiday>) -> (r: bool)
    ensures
        r == rest_day(date.number(), off_day(holiday)),
{
    match holiday {
        Some(item) => item.is_off_day,
        None => date.weekday() >= 5,
    }
}

/// Whether `event` takes place on `date`, given what the holiday record of the date says.
pub open spec fn occurs(event: EventView, date: Date, off: Option<bool>) -> bool {
    let anchor = event.start_at.local_day();
    !event.deleted && match rule_kind(event.recurrence_rule) {
        ScheduleKind::Specific => date.number() == anchor,
        ScheduleKind::LegalRestDay => date.number() >= anchor && rest_day(date.number(), off),
        ScheduleKind::LegalWorkday => date.number() >= anchor && !rest_day(date.number(), off),
        ScheduleKind::YearlySolar => solar_parts(event) == (
            date.month() as int,
            date.day() as int,
        ),
        ScheduleKind::YearlyLunar => match lunar_date(date) {
            Some((month, day, leap)) => lunar_event_parts(event) == (
                month as int,
                day as int,
                leap,
            ),
            None => false,
        },
        ScheduleKind::Daily => date.number() >= anchor,
    }
}

/// Whether `event` takes place on `date`, given its holiday record.
pub fn event_occurs_on(event: &CalendarEvent, date: Date, holiday: Option<&Holiday>) -> (r: bool)
    ensures
        r == occurs(event@, date, off_day(holiday)),
{
    if event.deleted {
        return false;
    }
    let anchor = event.start_at.local_date();
    match schedule_kind(event) {
        ScheduleKind::Specific => date.same_day(&anchor),
        ScheduleKind::LegalRestDay => !date.before(&anchor) && is_legal_rest_day(date, holiday),
        ScheduleKind::LegalWorkday => !date.before(&anchor) && !is_legal_rest_day(date, holiday),
        ScheduleKind::YearlySolar => {
            let (month, day) = yearly_solar_parts(event);
            date.month() == month && date.day() == day
        },
        ScheduleKind::YearlyLunar => {
            let (month, day, leap) = yearly_lunar_parts(event);
            match lunar_parts(date) {
                Some((m, d, l)) => m == month && d == day && l == leap,
                None => false,
            }
        },
        ScheduleKind::Daily => !date.before(&anchor),
    }
}

/// A deleted event takes place on no date.
pub proof fn deleted_events_never_occur(event: EventView, date: Date, off: Option<bool>)
    requires
        event.deleted,
    ensures
        !occurs(event, date, off),
{
}

/// An event without a rule takes place on its own date and on no other.
pub proof fn specific_events_occur_once(
    event: EventView,
    a: Date,
    b: Date,
    off_a: Option<bool>,
    off_b: Option<bool>,
)
    requires
        rule_kind(event.recurrence_rule) == ScheduleKind::Specific,
        !event.deleted,
        a.valid(),
        b.valid(),
    ensures
        occurs(event, a, off_a) <==> a.number() == event.start_at.local_day(),
        occurs(event, a, off_a) && occurs(event, b, off_b) ==> a == b,
{
    if a.number() == b.number() {
        crate::date::lemma_number_determines_date(a, b);
    }
}

/// Of an event for rest days and one for workdays with the same start, exactly one takes place on
/// each date from the start on, and neither before it. A daily event takes place where one of the
/// two does.
pub proof fn rest_days_and_workdays_share_the_dates(
    rest: EventView,
    work: EventView,
    daily: EventView,
    date: Date,
    off: Option<bool>,
)
    requires
        rule_kind(rest.recurrence_rule) == ScheduleKind::LegalRestDay,
        rule_kind(work.recurrence_rule) == ScheduleKind::LegalWorkday,
        rule_kind(daily.recurrence_rule) == ScheduleKind::Daily,
        rest.start_at == work.start_at,
        rest.start_at == daily.start_at,
        !rest.deleted && !work.deleted && !daily.deleted,
    ensures
        !(occurs(rest, date, off) && occurs(work, date, off)),
        occurs(daily, date, off) <==> occurs(rest, date, off) || occurs(work, date, off),
        occurs(daily, date, off) <==> date.number() >= rest.start_at.local_day(),
{
}

/// Why a calendar computation failed.
#[derive(Clone, Copy, Debug, PartialEq, Eq, Structural)]
pub enum CalendarError {
    /// The zone does not have exactly one instant for the local time of an occurrence.
    InvalidOccurrence,
}

impl CalendarError {
    /// What users read for this error.
    pub fn message(self) -> (r: &'static str)
        ensures
            r@ == "该日程发生时间无效"@,
    {
        "该日程发生时间无效"
    }
}

/// When the occurrence of `event` on `date` begins: an event without a rule at its start, any
/// other at the time of day of its start, or at midnight when it lasts all day.
pub open spec fn occurrence(event: EventView, date: Date) -> Option<Instant> {
    if rule_kind(event.recurrence_rule) == ScheduleKind::Specific {
        Some(event.start_at)
    } else if event.all_day {
        local_instant(date.number(), 0, 0)
    } else {
        local_instant(
            date.number(),
            event.start_at.local_clock(),
            event.start_at.nanos() as int,
        )
    }
}

/// The time of day at which the occurrences of a repeating event begin.
pub open spec fn occurrence_clock(event: EventView) -> int {
    if event.all_day {
        0
    } else {
        event.start_at.local_clock()
    }
}

/// When the occurrence of `event` on `date` begins. The occurrence of a repeating event falls on
/// that date, at the time of day of the event or at midnight. It fails only where the zone does
/// not have that time once, which it does since its last change.
pub fn occurrence_start(event: &CalendarEvent, date: Date) -> (r: Result<Instant, CalendarError>)
    ensures
        match r {
            Ok(t) => occurrence(event@, date) == Some(t),
            Err(_) => occurrence(event@, date) is None,
        },
        rule_kind(event@.recurrence_rule) != ScheduleKind::Specific ==> (r matches Ok(t)
            ==> t.local_day() == date.number() && t.local_clock() == occurrence_clock(event@)),
        r is Err ==> shanghai_single(
            local_count(date.number(), occurrence_clock(event@)) as i64,
        ) is None,
        local_count(date.number(), 0) >= LAST_CLOCK_CHANGE + 32_400 ==> r is Ok,
{
    if schedule_kind(event) == ScheduleKind::Specific {
        return Ok(event.start_at);
    }
    let start = if event.all_day {
        Instant::from_local(&date, 0, 0)
    } else {
        Instant::from_local(&date, event.start_at.local_second(), event.start_at.nanos())
    };
    proof {
        a_local_time_is_what_the_zone_has(
            date.number(),
            occurrence_clock(event@),
            if event.all_day {
                0
            } else {
                event.start_at.nanos()
            },
        );
    }
    match start {
        Some(t) => Ok(t),
        None => Err(CalendarError::InvalidOccurrence),
    }
}

/// The rules that have no parts name the kinds of their events, and an event without a rule or with
/// an unknown one is for one date.
pub proof fn plain_rules_name_their_kinds(rule: Seq<char>)
    ensures
        rule_kind("LEGAL_REST_DAY"@) == ScheduleKind::LegalRestDay,
        rule_kind("LEGAL_WORKDAY"@) == ScheduleKind::LegalWorkday,
        rule_kind("DAILY"@) == ScheduleKind::Daily,
        rule.len() < 5 ==> rule_kind(rule) == ScheduleKind::Specific,
        rule.len() > 0 && rule[0] != 'L' && rule[0] != 'Y' && rule[0] != 'D' ==> rule_kind(rule)
            == ScheduleKind::Specific,
{
    reveal_strlit("LEGAL_REST_DAY");
    reveal_strlit("LEGAL_WORKDAY");
    reveal_strlit("YEARLY_SOLAR:");
    reveal_strlit("YEARLY_LUNAR:");
    reveal_strlit("DAILY");
    assert("LEGAL_WORKDAY"@.len() != "LEGAL_REST_DAY"@.len());
    assert("DAILY"@.len() == 5 && "DAILY"@[0] == 'D');
    if "YEARLY_SOLAR:"@.is_prefix_of(rule) {
        assert(rule.subrange(0, 13)[0] == 'Y');
    }
    if "YEARLY_LUNAR:"@.is_prefix_of(rule) {
        assert(rule.subrange(0, 13)[0] == 'Y');
    }
}

/// The month and day of a yearly rule are those that it writes behind its beginning.
proof fn lemma_solar_rule(rule: Seq<char>, month: int, day: int)
    requires
        0 <= month <= 99,
        0 <= day <= 99,
        rule == "YEARLY_SOLAR:"@ + two_digits(month) + "-"@ + two_digits(day),
    ensures
        rule_kind(rule) == ScheduleKind::YearlySolar,
        solar_rule(rule) == Some((month, day)),
{
    reveal_strlit("LEGAL_REST_DAY");
    reveal_strlit("LEGAL_WORKDAY");
    reveal_strlit("YEARLY_SOLAR:");
    crate::editor::lemma_month_day(month, day, u32::MAX as int);
    let solar = "YEARLY_SOLAR:"@;
    let rest = two_digits(month) + "-"@ + two_digits(day);
    assert(rule =~= solar + rest);
    assert(rule[0] == 'Y');
    assert(solar.is_prefix_of(rule));
    assert(rule.subrange(solar.len() as int, rule.len() as int) =~= rest);
}

/// An event with the rule `YEARLY_SOLAR:MM-DD` takes place on a date exactly when the date has that
/// month and that day: on one date of a year at most, whatever the holidays are.
pub proof fn a_yearly_event_takes_place_on_its_day(
    event: EventView,
    month: int,
    day: int,
    date: Date,
    off: Option<bool>,
    other: Date,
    other_off: Option<bool>,
)
    requires
        0 <= month <= 99,
        0 <= day <= 99,
        event.recurrence_rule == "YEARLY_SOLAR:"@ + two_digits(month) + "-"@ + two_digits(day),
        !event.deleted,
        date.valid(),
        other.valid(),
    ensures
        occurs(event, date, off) <==> date.month() == month && date.day() == day,
        occurs(event, date, off) && occurs(event, other, other_off) && date.year() == other.year()
            ==> date == other,
{
    lemma_solar_rule(event.recurrence_rule, month, day);
    if date.year() == other.year() && date.month() == other.month() && date.day() == other.day() {
        crate::date::lemma_number_determines_date(date, other);
    }
}

/// A yearly event whose rule names no day takes place on the month and day of its start.
pub proof fn a_yearly_event_without_a_day_keeps_that_of_its_start(
    event: EventView,
    rest: Seq<char>,
    start: Date,
    date: Date,
    off: Option<bool>,
)
    requires
        event.recurrence_rule == "YEARLY_SOLAR:"@ + rest,
        forall|i: int| 0 <= i < rest.len() ==> #[trigger] rest[i] != '-',
        !event.deleted,
        start.valid(),
        start.number() == event.start_at.local_day(),
    ensures
        occurs(event, date, off) <==> date.month() == start.month() && date.day() == start.day(),
{
    reveal_strlit("LEGAL_REST_DAY");
    reveal_strlit("LEGAL_WORKDAY");
    reveal_strlit("YEARLY_SOLAR:");
    let rule = event.recurrence_rule;
    let solar = "YEARLY_SOLAR:"@;
    assert(rule[0] == 'Y');
    assert(solar.is_prefix_of(rule));
    assert(rule.subrange(solar.len() as int, rule.len() as int) =~= rest);
    lemma_find_is(rest, '-', rest.len() as int);
    lemma_date_of_number(start);
}

/// An event with the rule `YEARLY_LUNAR:MM-DD:leap` or `YEARLY_LUNAR:MM-DD:regular` takes place on a
/// date exactly when the lunar calendar has that month and day there, in a leap month or not.
pub proof fn a_yearly_lunar_event_takes_place_on_its_lunar_day(
    event: EventView,
    month: u8,
    day: u8,
    leap: bool,
    date: Date,
    off: Option<bool>,
)
    requires
        month <= 99,
        day <= 99,
        event.recurrence_rule == "YEARLY_LUNAR:"@ + two_digits(month as int) + "-"@ + two_digits(
            day as int,
        ) + ":"@ + (if leap {
            "leap"@
        } else {
            "regular"@
        }),
        !event.deleted,
    ensures
        occurs(event, date, off) <==> lunar_date(date) == Some((month, day, leap)),
{
    reveal_strlit("LEGAL_REST_DAY");
    reveal_strlit("LEGAL_WORKDAY");
    reveal_strlit("YEARLY_SOLAR:");
    reveal_strlit("YEARLY_LUNAR:");
    reveal_strlit(":");
    reveal_strlit("leap");
    reveal_strlit("regular");
    let rule = event.recurrence_rule;
    let solar = "YEARLY_SOLAR:"@;
    let lunar = "YEARLY_LUNAR:"@;
    let (m, d) = (month as int, day as int);
    crate::editor::lemma_month_day(m, d, u8::MAX as int);
    let head = two_digits(m) + "-"@ + two_digits(d);
    let mark = if leap {
        "leap"@
    } else {
        "regular"@
    };
    let rest = head + ":"@ + mark;
    assert(rule =~= lunar + rest);
    assert(rule[0] == 'Y');
    assert(lunar.is_prefix_of(rule));
    assert(rule[7] == 'L' && solar[7] == 'S');
    if solar.is_prefix_of(rule) {
        assert(rule.subrange(0, solar.len() as int)[7] == solar[7]);
    }
    assert(rule.subrange(lunar.len() as int, rule.len() as int) =~= rest);
    let n = head.len() as int;
    assert(forall|k: int| 0 <= k < n ==> #[trigger] rest[k] == head[k]);
    assert(rest[n] == ':');
    lemma_find_is(rest, ':', n);
    assert(rest.subrange(0, n) =~= head);
    assert(rest.subrange(n + 1, rest.len() as int) =~= mark);
    lemma_find_is(mark, ':', mark.len() as int);
    if !leap {
        assert(mark.len() != "leap"@.len());
    }
}

/// A holiday record decides whether its day is a rest day. Days without one are rest days on two
/// days of the week: the sixth and the seventh from 0001-01-01, which was a Monday.
pub proof fn records_and_weekends_make_rest_days(date: Date, holiday: Holiday, day: int)
    ensures
        rest_day(date.number(), off_day(Some(&holiday))) == holiday.is_off_day,
        rest_day(day, off_day(None)) <==> day % 7 == 6 || day % 7 == 0,
        crate::date::day_number(1, 1, 1) == 1,
{
    reveal_with_fuel(crate::date::days_before_month, 2);
}

/// Events for rest days and for workdays take place from their start on: the one where the record of
/// the day makes it a rest day, or it is a day of the weekend without a record, the other elsewhere.
/// A daily event takes place on all these days.
pub proof fn repeating_events_follow_the_days(event: EventView, date: Date, off: Option<bool>)
    requires
        !event.deleted,
        date.number() >= event.start_at.local_day(),
    ensures
        event.recurrence_rule == "LEGAL_REST_DAY"@ ==> (occurs(event, date, off) <==> (off == Some(
            true,
        ) || (off is None && (date.number() % 7 == 6 || date.number() % 7 == 0)))),
        event.recurrence_rule == "LEGAL_WORKDAY"@ ==> (occurs(event, date, off) <==> (off == Some(
            false,
        ) || (off is None && 1 <= date.number() % 7 <= 5))),
        event.recurrence_rule == "DAILY"@ ==> occurs(event, date, off),
{
    plain_rules_name_their_kinds(event.recurrence_rule);
}

/// Before its start no event for rest days, workdays or every day takes place.
pub proof fn repeating_events_wait_for_their_start(event: EventView, date: Date, off: Option<bool>)
    requires
        event.recurrence_rule == "LEGAL_REST_DAY"@ || event.recurrence_rule == "LEGAL_WORKDAY"@
            || event.recurrence_rule == "DAILY"@,
        date.number() < event.start_at.local_day(),
    ensures
        !occurs(event, date, off),
{
    plain_rules_name_their_kinds(event.recurrence_rule);
}

/// An occurrence of a repeating event begins on its date at the time of day at which the event
/// began, and at midnight when it lasts all day; an event for one date begins when it begins.
pub proof fn an_occurrence_keeps_the_time_of_day(event: EventView, date: Date)
    ensures
        rule_kind(event.recurrence_rule) == ScheduleKind::Specific ==> occurrence(event, date)
            == Some(event.start_at),
        rule_kind(event.recurrence_rule) != ScheduleKind::Specific && !event.all_day ==> match (
            shanghai_single(
                ((date.number() - UNIX_DAY) * 86_400 + event.start_at.local_clock()) as i64,
            ),
            occurrence(event, date),
        ) {
            (Some(seconds), Some(t)) => t.seconds() == seconds && t.nanos()
                == event.start_at.nanos(),
            (None, None) => true,
            _ => false,
        },
        rule_kind(event.recurrence_rule) != ScheduleKind::Specific && event.all_day ==> match (
            shanghai_single(((date.number() - UNIX_DAY) * 86_400) as i64),
            occurrence(event, date),
        ) {
            (Some(seconds), Some(t)) => t.seconds() == seconds && t.nanos() == 0,
            (None, None) => true,
            _ => false,
        },
{
    a_local_time_is_what_the_zone_has(
        date.number(),
        event.start_at.local_clock(),
        event.start_at.nanos(),
    );
    a_local_time_is_what_the_zone_has(date.number(), 0, 0);
}

/// What the calendar shows for a lunar date: the month on its first day, else the day.
pub open spec fn lunar_label_text(lunar: Option<(u8, u8, bool)>) -> Seq<char> {
    match lunar {
        None => ""@,
        Some((month, day, leap)) => if day == 1 {
            (if leap {
                "闰"@
            } else {
                ""@
            }) + match month_name_text(month) {
                Some(name) => name,
                None => ""@,
            }
        } else {
            match day_name_text(day) {
                Some(name) => name,
                None => ""@,
            }
        },
    }
}

/// What the calendar shows for a lunar date.
pub fn label_of_lunar(lunar: Option<(u8, u8, bool)>) -> (r: String)
    ensures
        r@ == lunar_label_text(lunar),
{
    match lunar {
        None => "".to_owned(),
        Some((month, day, leap)) => if day == 1 {
            let mut r = (if leap {
                "闰"
            } else {
                ""
            }).to_owned();
            r.append(
                match month_name(month) {
                    Some(name) => name,
                    None => "",
                },
            );
            r
        } else {
            (match day_name(day) {
                Some(name) => name,
                None => "",
            }).to_owned()
        },
    }
}

/// What the calendar shows for the lunar date of `date`; nothing outside the lunar calendar.
pub fn lunar_label(date: Date) -> (r: String)
    ensures
        r@ == lunar_label_text(lunar_date(date)),
{
    label_of_lunar(lunar_parts(date))
}

/// The festival of a lunar date; leap months have none.
pub open spec fn festival_text(lunar: Option<(u8, u8, bool)>) -> Option<Seq<char>> {
    match lunar {
        Some((month, day, leap)) => if leap {
            None
        } else if month == 1 && day == 1 {
            Some("春节"@)
        } else if month == 1 && day == 15 {
            Some("元宵"@)
        } else if month == 5 && day == 5 {
            Some("端午"@)
        } else if month == 7 && day == 7 {
            Some("七夕"@)
        } else if month == 8 && day == 15 {
            Some("中秋"@)
        } else if month == 9 && day == 9 {
            Some("重阳"@)
        } else if month == 12 && day == 8 {
            Some("腊八"@)
        } else {
            None
        },
        None => None,
    }
}

/// The festival of a lunar date.
pub fn festival_of_lunar(lunar: Option<(u8, u8, bool)>) -> (r: Option<&'static str>)
    ensures
        match r {
            Some(name) => festival_text(lunar) == Some(name@),
            None => festival_text(lunar) is None,
        },
{
    match lunar {
        Some((month, day, leap)) => {
            if leap {
                return None;
            }
            match (month, day) {
                (1, 1) => Some("春节"),
                (1, 15) => Some("元宵"),
                (5, 5) => Some("端午"),
                (7, 7) => Some("七夕"),
                (8, 15) => Some("中秋"),
                (9, 9) => Some("重阳"),
                (12, 8) => Some("腊八"),
                _ => None,
            }
        },
        None => None,
    }
}

/// The lunar festival that falls on `date`.
pub fn lunar_festival(date: Date) -> (r: Option<&'static str>)
    ensures
        match r {
            Some(name) => festival_text(lunar_date(date)) == Some(name@),
            None => festival_text(lunar_date(date)) is None,
        },
{
    festival_of_lunar(lunar_parts(date))
}

/// The numbers from one to ten, as the lunar calendar writes them.
pub open spec fn lunar_numerals() -> Seq<char> {
    seq!['一', '二', '三', '四', '五', '六', '七', '八', '九', '十']
}

/// The days of a lunar month are counted in tens: 初 stands before the first ten, 十 before the
/// second nine, 廿 before the third, and the twentieth and thirtieth are written out.
pub proof fn lunar_days_are_counted_in_tens(n: u8)
    requires
        1 <= n <= 10,
    ensures
        day_name_text(n) == Some(seq!['初', lunar_numerals()[n - 1]]),
        n < 10 ==> day_name_text((n + 10) as u8) == Some(seq!['十', lunar_numerals()[n - 1]]),
        n < 10 ==> day_name_text((n + 20) as u8) == Some(seq!['廿', lunar_numerals()[n - 1]]),
        day_name_text(20) == Some(seq!['二', '十']),
        day_name_text(30) == Some(seq!['三', '十']),
        day_name_text(0) == day_name_text(1),
        forall|m: u8| m > 30 ==> #[trigger] day_name_text(m) is None,
{
    if n <= 5 {
        lemma_first_days(n);
        lemma_second_days(n);
        lemma_third_days(n);
    } else {
        lemma_first_days(n);
        if n < 10 {
            lemma_second_days(n);
            lemma_third_days(n);
        }
    }
    reveal_strlit("二十");
    reveal_strlit("三十");
    assert("二十"@ =~= seq!['二', '十']);
    assert("三十"@ =~= seq!['三', '十']);
}

/// The names of the first ten days.
proof fn lemma_first_days(n: u8)
    requires
        1 <= n <= 10,
    ensures
        day_name_text(n) == Some(seq!['初', lunar_numerals()[n - 1]]),
{
    reveal_strlit("初一");
    reveal_strlit("初二");
    reveal_strlit("初三");
    reveal_strlit("初四");
    reveal_strlit("初五");
    reveal_strlit("初六");
    reveal_strlit("初七");
    reveal_strlit("初八");
    reveal_strlit("初九");
    reveal_strlit("初十");
    assert(day_name_text(n).unwrap() =~= seq!['初', lunar_numerals()[n - 1]]);
}

/// The names of the days from the eleventh to the nineteenth.
proof fn lemma_second_days(n: u8)
    requires
        1 <= n <= 9,
    ensures
        day_name_text((n + 10) as u8) == Some(seq!['十', lunar_numerals()[n - 1]]),
{
    reveal_strlit("十一");
    reveal_strlit("十二");
    reveal_strlit("十三");
    reveal_strlit("十四");
    reveal_strlit("十五");
    reveal_strlit("十六");
    reveal_strlit("十七");
    reveal_strlit("十八");
    reveal_strlit("十九");
    assert(day_name_text((n + 10) as u8).unwrap() =~= seq!['十', lunar_numerals()[n - 1]]);
}

/// The names of the days from the twenty-first to the twenty-ninth.
proof fn lemma_third_days(n: u8)
    requires
        1 <= n <= 9,
    ensures
        day_name_text((n + 20) as u8) == Some(seq!['廿', lunar_numerals()[n - 1]]),
{
    reveal_strlit("廿一");
    reveal_strlit("廿二");
    reveal_strlit("廿三");
    reveal_strlit("廿四");
    reveal_strlit("廿五");
    reveal_strlit("廿六");
    reveal_strlit("廿七");
    reveal_strlit("廿八");
    reveal_strlit("廿九");
    assert(day_name_text((n + 20) as u8).unwrap() =~= seq!['廿', lunar_numerals()[n - 1]]);
}

/// The lunar months are named by their numbers, but for the first and the last two.
pub proof fn lunar_months_are_named_by_their_numbers(n: u8)
    requires
        2 <= n <= 10,
    ensures
        month_name_text(n) == Some(seq![lunar_numerals()[n - 1], '月']),
        month_name_text(1) == Some(seq!['正', '月']),
        month_name_text(11) == Some(seq!['冬', '月']),
        month_name_text(12) == Some(seq!['腊', '月']),
        month_name_text(0) == month_name_text(1),
        forall|m: u8| m > 12 ==> #[trigger] month_name_text(m) is None,
{
    reveal_strlit("正月");
    reveal_strlit("二月");
    reveal_strlit("三月");
    reveal_strlit("四月");
    reveal_strlit("五月");
    reveal_strlit("六月");
    reveal_strlit("七月");
    reveal_strlit("八月");
    reveal_strlit("九月");
    reveal_strlit("十月");
    reveal_strlit("冬月");
    reveal_strlit("腊月");
    assert(month_name_text(n).unwrap() =~= seq![lunar_numerals()[n - 1], '月']);
    assert(month_name_text(1).unwrap() =~= seq!['正', '月']);
    assert(month_name_text(11).unwrap() =~= seq!['冬', '月']);
    assert(month_name_text(12).unwrap() =~= seq!['腊', '月']);
}

/// The calendar shows the month on the first day of a lunar month and the day on all others; users
/// read both in the form. A leap month shows where the month does.
pub proof fn lunar_labels_show_month_or_day(month: u8, day: u8, leap: bool)
    requires
        1 <= month <= 12,
        1 <= day <= 30,
    ensures
        day > 1 ==> Some(lunar_label_text(Some((month, day, leap)))) == day_name_text(day),
        Some(lunar_label_text(Some((month, 1, false)))) == month_name_text(month),
        lunar_label_text(Some((month, 1, true))) == seq!['闰'] + lunar_label_text(
            Some((month, 1, false)),
        ),
        lunar_date_text(month, day, leap) == seq!['农', '历'] + lunar_label_text(
            Some((month, 1, leap)),
        ) + day_name_text(day).unwrap(),
        lunar_label_text(None).len() == 0,
{
    reveal_strlit("闰");
    reveal_strlit("");
    reveal_strlit("农历");
    assert("闰"@ =~= seq!['闰']);
    assert("农历"@ =~= seq!['农', '历']);
    let name = month_name_text(month).unwrap();
    assert(""@ + name =~= name);
    assert(lunar_date_text(month, day, leap) =~= seq!['农', '历'] + lunar_label_text(
        Some((month, 1, leap)),
    ) + day_name_text(day).unwrap());
}

/// A festival has one lunar date, in no leap month; there are seven of them.
pub proof fn a_festival_has_one_lunar_date(a: (u8, u8, bool), b: (u8, u8, bool))
    ensures
        festival_text(Some(a)) is Some && festival_text(Some(a)) == festival_text(Some(b)) ==> a
            == b,
        festival_text(Some(a)) is Some ==> !a.2 && (a.0 == a.1 && (a.0 == 1 || a.0 == 5 || a.0 == 7
            || a.0 == 9) || a.1 == 15 && (a.0 == 1 || a.0 == 8) || (a.0, a.1) == (12u8, 8u8)),
        festival_text(None) is None,
{
    reveal_strlit("春节");
    reveal_strlit("元宵");
    reveal_strlit("端午");
    reveal_strlit("七夕");
    reveal_strlit("中秋");
    reveal_strlit("重阳");
    reveal_strlit("腊八");
    assert("春节"@[0] == '春' && "元宵"@[0] == '元' && "端午"@[0] == '端' && "七夕"@[0] == '七'
        && "中秋"@[0] == '中' && "重阳"@[0] == '重' && "腊八"@[0] == '腊');
}

/// A yearly lunar event whose rule names no day takes place on the lunar day of its start, in a
/// leap month exactly when it starts in one.
pub proof fn a_yearly_lunar_event_without_a_day_keeps_that_of_its_start(
    event: EventView,
    rest: Seq<char>,
    start: Date,
    date: Date,
    off: Option<bool>,
)
    requires
        event.recurrence_rule == "YEARLY_LUNAR:"@ + rest,
        forall|i: int| 0 <= i < rest.len() ==> #[trigger] rest[i] != '-',
        !event.deleted,
        start.valid(),
        start.number() == event.start_at.local_day(),
        lunar_date(start) is Some,
    ensures
        occurs(event, date, off) <==> lunar_date(date) == lunar_date(start),
{
    reveal_strlit("LEGAL_REST_DAY");
    reveal_strlit("LEGAL_WORKDAY");
    reveal_strlit("YEARLY_SOLAR:");
    reveal_strlit("YEARLY_LUNAR:");
    let rule = event.recurrence_rule;
    let solar = "YEARLY_SOLAR:"@;
    let lunar = "YEARLY_LUNAR:"@;
    assert(rule[0] == 'Y');
    assert(lunar.is_prefix_of(rule));
    assert(rule[7] == 'L' && solar[7] == 'S');
    if solar.is_prefix_of(rule) {
        assert(rule.subrange(0, solar.len() as int)[7] == solar[7]);
    }
    assert(rule.subrange(lunar.len() as int, rule.len() as int) =~= rest);
    lemma_find(rest, ':');
    let head = first_field(rest);
    assert(forall|i: int| 0 <= i < head.len() ==> #[trigger] head[i] == rest[i]);
    lemma_find_is(head, '-', head.len() as int);
    lemma_date_of_number(start);
}

} // verus!
