//! The form in which an event is edited.
use crate::calendar::{
    kind_at, kind_index, kind_label, lemma_date_of_number, lunar_date, lunar_date_label,
    lunar_date_text, lunar_event_parts, lunar_parts, month_day, rule_kind, schedule_kind,
    solar_parts, yearly_lunar_parts, ScheduleKind,
};
use crate::date::{
    day_number, lemma_number_determines_date, parsed_date, two_digits, Date, MAX_YEAR, MIN_YEAR,
};
use crate::instant::{
    a_local_time_is_what_the_zone_has, a_shift_adds_sixty_seconds_a_minute, date_of_number,
    hour_minute_text, instants_are_their_points, local_instant, parse_clock, parsed_clock,
    shanghai_single, shifted, whole_minutes, Instant, UNIX_DAY,
};
use crate::labels::{hour_minute_label, two_digit_label, two_digit_text};
use crate::models::{draft_view, fresh_id, hyphenated, CalendarEvent, EventView};
use crate::month::{adjust_date, adjusted, has_month};
use crate::text::{
    a_written_number_reads_back, decimal, digit_value, digits_value, is_blank, join, joined,
    lemma_bare_text_stays, lemma_decimal, lemma_find_is, parse_i32, parse_i64, signed_decimal,
    signed_number, signed_text, trim, trimmed, unsigned_number, views, white_space, without_sign,
};
use vstd::prelude::*;

verus! {

/// The longest an event may last, and the most minutes before it that it may remind: one year.
pub const YEAR_MINUTES: i64 = 525_600;

/// What the form for an event holds.
#[derive(Debug)]
pub struct EditorForm {
    pub title: String,
    pub schedule_kind: i32,
    pub schedule_label: String,
    pub date: String,
    pub date_year: i32,
    pub date_month: i32,
    pub date_day: i32,
    pub start_time: String,
    pub hour: i32,
    pub minute: i32,
    pub hour_input: String,
    pub minute_input: String,
    pub duration: String,
    pub location: String,
    pub notes: String,
    pub reminders: String,
    pub lunar_month: i32,
    pub lunar_day: i32,
    pub lunar_leap: bool,
    pub lunar_date: String,
    pub reminder_at_time: bool,
    pub reminder_10m: bool,
    pub reminder_1h: bool,
    pub reminder_1d: bool,
    pub custom_reminder: String,
    pub custom_applied: bool,
    pub force_reminder: bool,
    pub all_day: bool,
    pub completed: bool,
    pub saving: bool,
    pub feedback: String,
    pub feedback_error: bool,
}

/// The contents of the form.
#[verifier::ext_equal]
pub struct FormView {
    pub title: Seq<char>,
    pub schedule_kind: i32,
    pub schedule_label: Seq<char>,
    pub date: Seq<char>,
    pub date_year: i32,
    pub date_month: i32,
    pub date_day: i32,
    pub start_time: Seq<char>,
    pub hour: i32,
    pub minute: i32,
    pub hour_input: Seq<char>,
    pub minute_input: Seq<char>,
    pub duration: Seq<char>,
    pub location: Seq<char>,
    pub notes: Seq<char>,
    pub reminders: Seq<char>,
    pub lunar_month: i32,
    pub lunar_day: i32,
    pub lunar_leap: bool,
    pub lunar_date: Seq<char>,
    pub reminder_at_time: bool,
    pub reminder_10m: bool,
    pub reminder_1h: bool,
    pub reminder_1d: bool,
    pub custom_reminder: Seq<char>,
    pub custom_applied: bool,
    pub force_reminder: bool,
    pub all_day: bool,
    pub completed: bool,
    pub saving: bool,
    pub feedback: Seq<char>,
    pub feedback_error: bool,
}

impl View for EditorForm {
    type V = FormView;

    open spec fn view(&self) -> FormView {
        FormView {
            title: self.title@,
            schedule_kind: self.schedule_kind,
            schedule_label: self.schedule_label@,
            date: self.date@,
            date_year: self.date_year,
            date_month: self.date_month,
            date_day: self.date_day,
            start_time: self.start_time@,
            hour: self.hour,
            minute: self.minute,
            hour_input: self.hour_input@,
            minute_input: self.minute_input@,
            duration: self.duration@,
            location: self.location@,
            notes: self.notes@,
            reminders: self.reminders@,
            lunar_month: self.lunar_month,
            lunar_day: self.lunar_day,
            lunar_leap: self.lunar_leap,
            lunar_date: self.lunar_date@,
            reminder_at_time: self.reminder_at_time,
            reminder_10m: self.reminder_10m,
            reminder_1h: self.reminder_1h,
            reminder_1d: self.reminder_1d,
            custom_reminder: self.custom_reminder@,
            custom_applied: self.custom_applied,
            force_reminder: self.force_reminder,
            all_day: self.all_day,
            completed: self.completed,
            saving: self.saving,
            feedback: self.feedback@,
            feedback_error: self.feedback_error,
        }
    }
}

/// The form with nothing in it.
pub open spec fn empty_form() -> FormView {
    FormView {
        title: Seq::<char>::empty(),
        schedule_kind: 0,
        schedule_label: Seq::<char>::empty(),
        date: Seq::<char>::empty(),
        date_year: 0,
        date_month: 0,
        date_day: 0,
        start_time: Seq::<char>::empty(),
        hour: 0,
        minute: 0,
        hour_input: Seq::<char>::empty(),
        minute_input: Seq::<char>::empty(),
        duration: Seq::<char>::empty(),
        location: Seq::<char>::empty(),
        notes: Seq::<char>::empty(),
        reminders: Seq::<char>::empty(),
        lunar_month: 0,
        lunar_day: 0,
        lunar_leap: false,
        lunar_date: Seq::<char>::empty(),
        reminder_at_time: false,
        reminder_10m: false,
        reminder_1h: false,
        reminder_1d: false,
        custom_reminder: Seq::<char>::empty(),
        custom_applied: false,
        force_reminder: false,
        all_day: false,
        completed: false,
        saving: false,
        feedback: Seq::<char>::empty(),
        feedback_error: false,
    }
}

impl EditorForm {
    /// A form with nothing in it.
    pub fn new() -> (r: EditorForm)
        ensures
            r@ == empty_form(),
    {
        EditorForm {
            title: String::new(),
            schedule_kind: 0,
            schedule_label: String::new(),
            date: String::new(),
            date_year: 0,
            date_month: 0,
            date_day: 0,
            start_time: String::new(),
            hour: 0,
            minute: 0,
            hour_input: String::new(),
            minute_input: String::new(),
            duration: String::new(),
            location: String::new(),
            notes: String::new(),
            reminders: String::new(),
            lunar_month: 0,
            lunar_day: 0,
            lunar_leap: false,
            lunar_date: String::new(),
            reminder_at_time: false,
            reminder_10m: false,
            reminder_1h: false,
            reminder_1d: false,
            custom_reminder: String::new(),
            custom_applied: false,
            force_reminder: false,
            all_day: false,
            completed: false,
            saving: false,
            feedback: String::new(),
            feedback_error: false,
        }
    }
}

/// The form with another date.
pub open spec fn with_date(form: FormView, date: Date) -> FormView {
    FormView {
        date: date.written(),
        date_year: date.year(),
        date_month: date.month() as i32,
        date_day: date.day() as i32,
        ..form
    }
}

/// The form with another time of day.
pub open spec fn with_time(form: FormView, hour: int, minute: int) -> FormView {
    let h = hour % 24;
    let m = minute % 60;
    FormView {
        start_time: hour_minute_text(h, m),
        hour: h as i32,
        minute: m as i32,
        hour_input: two_digits(h),
        minute_input: two_digits(m),
        ..form
    }
}

/// The form with another lunar date.
pub open spec fn with_lunar(form: FormView, month: int, day: int, leap: bool) -> FormView {
    FormView {
        lunar_month: month as i32,
        lunar_day: day as i32,
        lunar_leap: leap,
        lunar_date: lunar_date_text(month as u8, day as u8, leap),
        ..form
    }
}

/// The form with another kind of schedule.
pub open spec fn with_kind(form: FormView, kind: ScheduleKind) -> FormView {
    FormView {
        schedule_kind: kind_index(kind) as i32,
        schedule_label: kind_label(kind),
        ..form
    }
}

/// Whether a reminder has a switch of its own in the form.
pub open spec fn has_switch(minutes: i64) -> bool {
    minutes == 0 || minutes == 10 || minutes == 60 || minutes == 1440
}

/// The first reminder without a switch.
pub open spec fn first_custom(values: Seq<i64>) -> Option<i64>
    decreases values.len(),
{
    if values.len() == 0 {
        None
    } else if !has_switch(values[0]) {
        Some(values[0])
    } else {
        first_custom(values.subrange(1, values.len() as int))
    }
}

/// The texts of some numbers.
pub open spec fn number_texts(values: Seq<i64>) -> Seq<Seq<char>> {
    Seq::new(values.len(), |i: int| signed_decimal(values[i] as int))
}

/// The form with the texts, reminders and marks of `event`.
pub open spec fn with_details(form: FormView, event: EventView) -> FormView {
    let values = event.reminder_minutes;
    FormView {
        title: event.title,
        duration: signed_decimal(whole_minutes(event.start_at, event.end_at)),
        location: event.location,
        notes: event.notes,
        reminders: joined(number_texts(values), ", "@),
        reminder_at_time: values.contains(0),
        reminder_10m: values.contains(10),
        reminder_1h: values.contains(60),
        reminder_1d: values.contains(1440),
        custom_reminder: match first_custom(values) {
            Some(minutes) => signed_decimal(minutes as int),
            None => ""@,
        },
        custom_applied: first_custom(values) is Some,
        force_reminder: event.force_reminder,
        all_day: event.all_day,
        completed: event.completed,
        saving: false,
        feedback: ""@,
        feedback_error: false,
        ..form
    }
}

/// The form filled with `event`.
pub open spec fn loaded(form: FormView, event: EventView) -> FormView {
    let (month, day, leap) = lunar_event_parts(event);
    let clock = event.start_at.local_clock();
    let dated = with_date(
        with_kind(form, rule_kind(event.recurrence_rule)),
        date_of_number(event.start_at.local_day()),
    );
    with_details(
        with_lunar(with_time(dated, clock / 3600, clock / 60 % 60), month, day, leap),
        event,
    )
}

/// The hour that a new event begins at: the next one, but not after 23.
pub open spec fn next_hour(hour: int) -> int {
    if hour + 1 < 23 {
        hour + 1
    } else {
        23
    }
}

/// The form for a new event on `date`, at the hour after `hour`.
pub open spec fn cleared(form: FormView, date: Date, hour: int) -> FormView {
    let (month, day, leap) = match lunar_date(date) {
        Some((m, d, l)) => (m as int, d as int, l),
        None => (1, 1, false),
    };
    let filled = with_lunar(
        with_time(
            with_date(with_kind(form, ScheduleKind::Specific), date),
            next_hour(hour),
            0,
        ),
        month,
        day,
        leap,
    );
    FormView {
        title: ""@,
        duration: "60"@,
        location: ""@,
        notes: ""@,
        reminders: "0"@,
        reminder_at_time: true,
        reminder_10m: false,
        reminder_1h: false,
        reminder_1d: false,
        custom_reminder: ""@,
        custom_applied: false,
        force_reminder: false,
        all_day: false,
        completed: false,
        saving: false,
        feedback: ""@,
        feedback_error: false,
        ..filled
    }
}

/// Why the form does not make an event.
#[derive(Clone, Copy, Debug, PartialEq, Eq, Structural)]
pub enum EditorError {
    EmptyTitle,
    InvalidDate,
    InvalidTime,
    InvalidDuration,
    DurationOutOfRange,
    InvalidLocalTime,
    InvalidReminder,
    ReminderOutOfRange,
}

/// What users read for an error of the form.
pub open spec fn editor_error_text(e: EditorError) -> Seq<char> {
    match e {
        EditorError::EmptyTitle => "标题不能为空"@,
        EditorError::InvalidDate => "日期格式应为 YYYY-MM-DD"@,
        EditorError::InvalidTime => "开始时间格式应为 HH:mm"@,
        EditorError::InvalidDuration => "时长必须是分钟数"@,
        EditorError::DurationOutOfRange => "时长必须在 1 分钟到 1 年之间"@,
        EditorError::InvalidLocalTime => "该本地时间无效"@,
        EditorError::InvalidReminder => "自定义提醒必须是分钟数"@,
        EditorError::ReminderOutOfRange => "自定义提醒需在 0 分钟到 1 年之间"@,
    }
}

impl EditorError {
    /// What users read for this error.
    pub fn message(self) -> (r: &'static str)
        ensures
            r@ == editor_error_text(self),
    {
        match self {
            EditorError::EmptyTitle => "标题不能为空",
            EditorError::InvalidDate => "日期格式应为 YYYY-MM-DD",
            EditorError::InvalidTime => "开始时间格式应为 HH:mm",
            EditorError::InvalidDuration => "时长必须是分钟数",
            EditorError::DurationOutOfRange => "时长必须在 1 分钟到 1 年之间",
            EditorError::InvalidLocalTime => "该本地时间无效",
            EditorError::InvalidReminder => "自定义提醒必须是分钟数",
            EditorError::ReminderOutOfRange => "自定义提醒需在 0 分钟到 1 年之间",
        }
    }
}

/// The number of minutes that a text stands for.
pub open spec fn minutes_of(s: Seq<char>) -> Option<int> {
    signed_number(trimmed(s), i64::MIN as int, i64::MAX as int)
}

/// Whether the form has a reminder without a switch.
pub open spec fn has_custom(form: FormView) -> bool {
    form.custom_applied && trimmed(form.custom_reminder).len() > 0
}

/// Whether the form asks for a reminder `minutes` before the start.
pub open spec fn asks_reminder(form: FormView, minutes: int) -> bool {
    ||| form.reminder_at_time && minutes == 0
    ||| form.reminder_10m && minutes == 10
    ||| form.reminder_1h && minutes == 60
    ||| form.reminder_1d && minutes == 1440
    ||| has_custom(form) && minutes_of(form.custom_reminder) == Some(minutes)
}

/// Whether `values` are the reminders that the form asks for, each once, in ascending order.
pub open spec fn reminders_of(form: FormView, values: Seq<i64>) -> bool {
    &&& forall|i: int, j: int| 0 <= i < j < values.len() ==> values[i] < values[j]
    &&& forall|v: i64| #[trigger] values.contains(v) <==> asks_reminder(form, v as int)
}

/// Whether the kind of schedule in the form can last all day, and the form says so.
pub open spec fn lasts_all_day(form: FormView) -> bool {
    form.all_day && (kind_at(form.schedule_kind as int) == ScheduleKind::Specific || kind_at(
        form.schedule_kind as int,
    ) == ScheduleKind::YearlySolar)
}

/// The rule that the form gives an event.
pub open spec fn rule_of(form: FormView, month: int, day: int) -> Seq<char> {
    match kind_at(form.schedule_kind as int) {
        ScheduleKind::Specific => ""@,
        ScheduleKind::LegalRestDay => "LEGAL_REST_DAY"@,
        ScheduleKind::LegalWorkday => "LEGAL_WORKDAY"@,
        ScheduleKind::YearlySolar => "YEARLY_SOLAR:"@ + two_digit_text(month) + "-"@
            + two_digit_text(day),
        ScheduleKind::YearlyLunar => "YEARLY_LUNAR:"@ + two_digit_text(form.lunar_month as int)
            + "-"@ + two_digit_text(form.lunar_day as int) + ":"@ + if form.lunar_leap {
            "leap"@
        } else {
            "regular"@
        },
        ScheduleKind::Daily => "DAILY"@,
    }
}

/// What the form says of the time of an event: month and day, start and end.
pub open spec fn time_of(form: FormView) -> Result<(int, int, Instant, Instant), EditorError> {
    match parsed_date(form.date) {
        None => Err(EditorError::InvalidDate),
        Some((year, month, day)) => {
            let clock = if lasts_all_day(form) {
                Some((0u32, 0u32))
            } else {
                parsed_clock(form.start_time)
            };
            match clock {
                None => Err(EditorError::InvalidTime),
                Some((hour, minute)) => match minutes_of(form.duration) {
                    None => Err(EditorError::InvalidDuration),
                    Some(duration) => if !(1 <= duration <= YEAR_MINUTES) {
                        Err(EditorError::DurationOutOfRange)
                    } else {
                        match local_instant(
                            day_number(year as int, month as int, day as int),
                            hour * 3600 + minute * 60,
                            0,
                        ) {
                            None => Err(EditorError::InvalidLocalTime),
                            Some(start) => match shifted(start, duration) {
                                None => Err(EditorError::InvalidLocalTime),
                                Some(end) => Ok((month as int, day as int, start, end)),
                            },
                        }
                    },
                },
            }
        },
    }
}

/// Why the form does not make an event, in the order in which it is looked at.
pub open spec fn form_error(form: FormView) -> Option<EditorError> {
    if trimmed(form.title).len() == 0 {
        Some(EditorError::EmptyTitle)
    } else {
        match time_of(form) {
            Err(e) => Some(e),
            Ok(_) => if has_custom(form) {
                match minutes_of(form.custom_reminder) {
                    None => Some(EditorError::InvalidReminder),
                    Some(minutes) => if 0 <= minutes <= YEAR_MINUTES {
                        None
                    } else {
                        Some(EditorError::ReminderOutOfRange)
                    },
                }
            } else {
                None
            },
        }
    }
}

/// Whether `event` is what the form makes of `base` at `now`.
pub open spec fn edited(form: FormView, base: EventView, now: Instant, event: EventView) -> bool {
    time_of(form) matches Ok((month, day, start, end)) && reminders_of(form, event.reminder_minutes)
        && event == (EventView {
        title: trimmed(form.title),
        location: form.location,
        notes: form.notes,
        start_at: start,
        end_at: end,
        all_day: lasts_all_day(form),
        recurrence_rule: rule_of(form, month, day),
        completed: form.completed,
        reminder_minutes: event.reminder_minutes,
        force_reminder: form.force_reminder,
        updated_seq: 0,
        updated_at: now,
        ..base
    })
}

/// Whether `values` holds `v`.
fn holds(values: &Vec<i64>, v: i64) -> (r: bool)
    ensures
        r == values@.contains(v),
{
    let mut i: usize = 0;
    while i < values.len()
        invariant
            i <= values@.len(),
            forall|j: int| 0 <= j < i ==> values@[j] != v,
        decreases values@.len() - i,
    {
        if values[i] == v {
            assert(values@[i as int] == v);
            return true;
        }
        i = i + 1;
    }
    false
}

/// The first of `values` without a switch.
fn find_custom(values: &Vec<i64>) -> (r: Option<i64>)
    ensures
        r == first_custom(values@),
{
    let mut i: usize = 0;
    assert(values@.subrange(0, values@.len() as int) =~= values@);
    while i < values.len()
        invariant
            i <= values@.len(),
            first_custom(values@) == first_custom(values@.subrange(i as int, values@.len() as int)),
        decreases values@.len() - i,
    {
        let v: i64 = values[i];
        let ghost here = values@.subrange(i as int, values@.len() as int);
        assert(here[0] == v);
        if v != 0 && v != 10 && v != 60 && v != 1440 {
            return Some(v);
        }
        assert(here.subrange(1, here.len() as int) =~= values@.subrange(
            i + 1,
            values@.len() as int,
        ));
        i = i + 1;
    }
    None
}

/// The texts of `values`, with commas between them.
fn number_list(values: &Vec<i64>) -> (r: String)
    ensures
        r@ == joined(number_texts(values@), ", "@),
{
    let mut parts: Vec<String> = Vec::new();
    let mut i: usize = 0;
    while i < values.len()
        invariant
            i <= values@.len(),
            parts@.len() == i,
            forall|j: int| 0 <= j < i ==> (#[trigger] parts@[j])@ == signed_decimal(values@[j] as int),
        decreases values@.len() - i,
    {
        parts.push(signed_text(values[i]));
        i = i + 1;
    }
    assert(views(parts@) =~= number_texts(values@));
    join(&parts, ", ")
}

/// Puts `v` into ascending `values`, unless it is there.
fn insert_ascending(values: &mut Vec<i64>, v: i64)
    requires
        forall|i: int, j: int| 0 <= i < j < old(values)@.len() ==> old(values)@[i] < old(values)@[j],
    ensures
        forall|i: int, j: int|
            0 <= i < j < final(values)@.len() ==> final(values)@[i] < final(values)@[j],
        forall|x: i64| #[trigger]
            final(values)@.contains(x) <==> old(values)@.contains(x) || x == v,
{
    let ghost before = values@;
    let mut i: usize = 0;
    while i < values.len() && values[i] < v
        invariant
            values@ == before,
            i <= before.len(),
            forall|j: int| 0 <= j < i ==> before[j] < v,
        decreases before.len() - i,
    {
        i = i + 1;
    }
    if i < values.len() && values[i] == v {
        assert(before[i as int] == v);
        return ;
    }
    values.insert(i, v);
    proof {
        assert(values@[i as int] == v);
        assert forall|x: i64| #[trigger] values@.contains(x) <==> before.contains(x) || x == v by {
            if before.contains(x) {
                let k = choose|k: int| 0 <= k < before.len() && before[k] == x;
                if k < i {
                    assert(values@[k] == x);
                } else {
                    assert(values@[k + 1] == x);
                }
            }
            if values@.contains(x) && x != v {
                let k = choose|k: int| 0 <= k < values@.len() && values@[k] == x;
                if k < i {
                    assert(before[k] == x);
                } else {
                    assert(before[k - 1] == x);
                }
            }
        }
        assert forall|a: int, b: int| 0 <= a < b < values@.len() implies values@[a] < values@[b] by {
            if b == i {
                assert(values@[a] == before[a]);
            } else if a == i {
                assert(values@[b] == before[b - 1]);
                if i < before.len() {
                    assert(before[i as int] > v);
                }
            } else {
                let x = if a < i {
                    a
                } else {
                    a - 1
                };
                let y = if b < i {
                    b
                } else {
                    b - 1
                };
                assert(values@[a] == before[x] && values@[b] == before[y]);
            }
        }
    }
}

/// The form with another feedback.
pub open spec fn with_feedback(
    form: FormView,
    saving: bool,
    feedback: Seq<char>,
    error: bool,
) -> FormView {
    FormView { saving, feedback, feedback_error: error, ..form }
}

impl EditorForm {
    /// Shows another feedback.
    pub fn set_feedback(&mut self, saving: bool, feedback: &str, error: bool)
        ensures
            final(self)@ == with_feedback(old(self)@, saving, feedback@, error),
    {
        self.saving = saving;
        self.feedback = feedback.to_owned();
        self.feedback_error = error;
    }

    /// Shows that nothing is being saved.
    pub fn stop_saving(&mut self)
        ensures
            final(self)@ == (FormView { saving: false, ..old(self)@ }),
    {
        self.saving = false;
    }

    /// Shows another date.
    pub fn set_editor_date(&mut self, date: Date)
        ensures
            final(self)@ == with_date(old(self)@, date),
    {
        self.date = date.text();
        self.date_year = date.year();
        self.date_month = date.month() as i32;
        self.date_day = date.day() as i32;
    }

    /// Shows another time of day; hours and minutes wrap around.
    pub fn set_editor_time(&mut self, hour: i32, minute: i32)
        ensures
            final(self)@ == with_time(old(self)@, hour as int, minute as int),
    {
        let h: i32 = hour.checked_rem_euclid(24).unwrap();
        let m: i32 = minute.checked_rem_euclid(60).unwrap();
        self.start_time = hour_minute_label(h as u32, m as u32);
        self.hour = h;
        self.minute = m;
        self.hour_input = two_digit_label(h);
        self.minute_input = two_digit_label(m);
    }

    /// Shows another lunar date.
    fn set_lunar(&mut self, month: u8, day: u8, leap: bool)
        ensures
            final(self)@ == with_lunar(old(self)@, month as int, day as int, leap),
    {
        self.lunar_month = month as i32;
        self.lunar_day = day as i32;
        self.lunar_leap = leap;
        self.lunar_date = lunar_date_label(month, day, leap);
    }

    /// Shows another kind of schedule.
    fn set_kind(&mut self, kind: ScheduleKind)
        ensures
            final(self)@ == with_kind(old(self)@, kind),
    {
        self.schedule_kind = kind.index();
        self.schedule_label = kind.label().to_owned();
    }

    /// Shows the texts, reminders and marks of `event`.
    fn set_details(&mut self, event: &CalendarEvent)
        ensures
            final(self)@ == with_details(old(self)@, event@),
    {
        let values = &event.reminder_minutes;
        self.title = event.title.clone();
        self.duration = signed_text(event.end_at.minutes_since(&event.start_at));
        self.location = event.location.clone();
        self.notes = event.notes.clone();
        self.reminders = number_list(values);
        self.reminder_at_time = holds(values, 0);
        self.reminder_10m = holds(values, 10);
        self.reminder_1h = holds(values, 60);
        self.reminder_1d = holds(values, 1440);
        let custom = find_custom(values);
        self.custom_reminder = match custom {
            Some(minutes) => signed_text(minutes),
            None => "".to_owned(),
        };
        self.custom_applied = custom.is_some();
        self.force_reminder = event.force_reminder;
        self.all_day = event.all_day;
        self.completed = event.completed;
        self.saving = false;
        self.feedback = "".to_owned();
        self.feedback_error = false;
    }

    /// Fills the form with `event`.
    pub fn load_event_into_editor(&mut self, event: &CalendarEvent)
        ensures
            final(self)@ == loaded(old(self)@, event@),
    {
        let start = event.start_at.local_date();
        proof {
            lemma_date_of_number(start);
        }
        let second: u32 = event.start_at.local_second();
        let (month, day, leap) = yearly_lunar_parts(event);
        self.set_kind(schedule_kind(event));
        self.set_editor_date(start);
        self.set_editor_time((second / 3600) as i32, (second / 60 % 60) as i32);
        self.set_lunar(month, day, leap);
        self.set_details(event);
    }

    /// Empties the form for a new event on `date`; `hour` is the present hour of the day.
    pub fn clear_editor(&mut self, date: Date, hour: u32)
        requires
            hour < 24,
        ensures
            final(self)@ == cleared(old(self)@, date, hour as int),
    {
        let next: i32 = if hour + 1 < 23 {
            hour as i32 + 1
        } else {
            23
        };
        let (month, day, leap) = match lunar_parts(date) {
            Some(parts) => parts,
            None => (1, 1, false),
        };
        self.set_kind(ScheduleKind::Specific);
        self.set_editor_date(date);
        self.set_editor_time(next, 0);
        self.set_lunar(month, day, leap);
        self.title = "".to_owned();
        self.duration = "60".to_owned();
        self.location = "".to_owned();
        self.notes = "".to_owned();
        self.reminders = "0".to_owned();
        self.reminder_at_time = true;
        self.reminder_10m = false;
        self.reminder_1h = false;
        self.reminder_1d = false;
        self.custom_reminder = "".to_owned();
        self.custom_applied = false;
        self.force_reminder = false;
        self.all_day = false;
        self.completed = false;
        self.saving = false;
        self.feedback = "".to_owned();
        self.feedback_error = false;
    }
}

impl EditorForm {
    /// The times that the form gives an event: its date, start and end.
    fn read_time(&self) -> (r: Result<(Date, Instant, Instant), EditorError>)
        ensures
            match r {
                Ok((date, start, end)) => date.valid() && time_of(self@) == Ok::<
                    (int, int, Instant, Instant),
                    EditorError,
                >((date.month() as int, date.day() as int, start, end)),
                Err(e) => time_of(self@) == Err::<(int, int, Instant, Instant), EditorError>(e),
            },
    {
        let date = match Date::parse(self.date.as_str()) {
            Some(date) => date,
            None => {
                return Err(EditorError::InvalidDate);
            },
        };
        let (hour, minute) = if self.is_all_day() {
            (0, 0)
        } else {
            match parse_clock(self.start_time.as_str()) {
                Some(clock) => clock,
                None => {
                    return Err(EditorError::InvalidTime);
                },
            }
        };
        let duration: i64 = match parse_i64(trim(self.duration.as_str()).as_str()) {
            Some(minutes) => minutes,
            None => {
                return Err(EditorError::InvalidDuration);
            },
        };
        if duration <= 0 || duration > YEAR_MINUTES {
            return Err(EditorError::DurationOutOfRange);
        }
        let start = match Instant::from_local(&date, hour * 3600 + minute * 60, 0) {
            Some(start) => start,
            None => {
                return Err(EditorError::InvalidLocalTime);
            },
        };
        match start.plus_minutes(duration) {
            Some(end) => Ok((date, start, end)),
            None => Err(EditorError::InvalidLocalTime),
        }
    }

    /// Whether the event of the form lasts all day.
    fn is_all_day(&self) -> (r: bool)
        ensures
            r == lasts_all_day(self@),
    {
        let kind = ScheduleKind::from_index(self.schedule_kind);
        self.all_day && (kind == ScheduleKind::Specific || kind == ScheduleKind::YearlySolar)
    }

    /// The reminders that the form asks for.
    fn read_reminders(&self) -> (r: Result<Vec<i64>, EditorError>)
        ensures
            match r {
                Ok(values) => reminders_of(self@, values@) && (has_custom(self@) ==> (minutes_of(
                    self@.custom_reminder,
                ) matches Some(minutes) && 0 <= minutes <= YEAR_MINUTES)),
                Err(e) => has_custom(self@) && match minutes_of(self@.custom_reminder) {
                    None => e == EditorError::InvalidReminder,
                    Some(minutes) => !(0 <= minutes <= YEAR_MINUTES) && e
                        == EditorError::ReminderOutOfRange,
                },
            },
    {
        let mut values: Vec<i64> = Vec::new();
        if self.reminder_at_time {
            insert_ascending(&mut values, 0);
        }
        if self.reminder_10m {
            insert_ascending(&mut values, 10);
        }
        if self.reminder_1h {
            insert_ascending(&mut values, 60);
        }
        if self.reminder_1d {
            insert_ascending(&mut values, 1440);
        }
        if self.custom_applied && !is_blank(self.custom_reminder.as_str()) {
            let custom: i64 = match parse_i64(trim(self.custom_reminder.as_str()).as_str()) {
                Some(minutes) => minutes,
                None => {
                    return Err(EditorError::InvalidReminder);
                },
            };
            if custom < 0 || custom > YEAR_MINUTES {
                return Err(EditorError::ReminderOutOfRange);
            }
            insert_ascending(&mut values, custom);
        }
        Ok(values)
    }

    /// The rule that the form gives an event.
    fn read_rule(&self, date: &Date) -> (r: String)
        ensures
            r@ == rule_of(self@, date.month() as int, date.day() as int),
    {
        match ScheduleKind::from_index(self.schedule_kind) {
            ScheduleKind::Specific => "".to_owned(),
            ScheduleKind::LegalRestDay => "LEGAL_REST_DAY".to_owned(),
            ScheduleKind::LegalWorkday => "LEGAL_WORKDAY".to_owned(),
            ScheduleKind::YearlySolar => {
                let mut r = "YEARLY_SOLAR:".to_owned();
                r.append(two_digit_label(date.month() as i32).as_str());
                r.append("-");
                r.append(two_digit_label(date.day() as i32).as_str());
                r
            },
            ScheduleKind::YearlyLunar => {
                let mut r = "YEARLY_LUNAR:".to_owned();
                r.append(two_digit_label(self.lunar_month).as_str());
                r.append("-");
                r.append(two_digit_label(self.lunar_day).as_str());
                r.append(":");
                r.append(if self.lunar_leap {
                    "leap"
                } else {
                    "regular"
                });
                r
            },
            ScheduleKind::Daily => "DAILY".to_owned(),
        }
    }

    /// The event that the form makes at `now`: of `existing` where it edits one, else of a new
    /// event with the identity `id`.
    pub fn event_from_editor_with(
        &self,
        existing: Option<CalendarEvent>,
        id: String,
        now: Instant,
    ) -> (r: Result<CalendarEvent, EditorError>)
        ensures
            match r {
                Ok(event) => form_error(self@) is None && match existing {
                    Some(base) => edited(self@, base@, now, event@),
                    None => edited(
                        self@,
                        draft_view(id@, event.start_at, event.end_at, now),
                        now,
                        event@,
                    ),
                },
                Err(e) => form_error(self@) == Some(e),
            },
    {
        let title = trim(self.title.as_str());
        if title.as_str().is_empty() {
            return Err(EditorError::EmptyTitle);
        }
        let (date, start, end) = match self.read_time() {
            Ok(times) => times,
            Err(e) => {
                return Err(e);
            },
        };
        let reminders = match self.read_reminders() {
            Ok(values) => values,
            Err(e) => {
                return Err(e);
            },
        };
        let mut event = match existing {
            Some(event) => event,
            None => CalendarEvent::draft_with(id, start, end, now),
        };
        event.title = title;
        event.location = self.location.clone();
        event.notes = self.notes.clone();
        event.start_at = start;
        event.end_at = end;
        event.all_day = self.is_all_day();
        event.recurrence_rule = self.read_rule(&date);
        event.completed = self.completed;
        event.reminder_minutes = reminders;
        event.force_reminder = self.force_reminder;
        event.updated_seq = 0;
        event.updated_at = now;
        Ok(event)
    }

    /// The event that the form makes now: of `existing` where it edits one, else a new one.
    pub fn event_from_editor(&self, existing: Option<CalendarEvent>) -> (r: Result<
        CalendarEvent,
        EditorError,
    >)
        ensures
            match r {
                Ok(event) => form_error(self@) is None && event.updated_at.of_the_clock()
                    && match existing {
                    Some(base) => edited(self@, base@, event.updated_at, event@),
                    None => edited(
                        self@,
                        draft_view(event.id@, event.start_at, event.end_at, event.updated_at),
                        event.updated_at,
                        event@,
                    ) && hyphenated(event.id@),
                },
                Err(e) => form_error(self@) == Some(e),
            },
    {
        self.event_from_editor_with(existing, fresh_id(), Instant::now())
    }

    /// Another kind of schedule was chosen. Kinds that cannot last all day reset that mark.
    pub fn change_schedule_kind(&mut self, value: i32)
        ensures
            final(self)@ == of_kind(old(self)@, value),
    {
        let kind = ScheduleKind::from_index(value);
        self.set_kind(kind);
        if !(kind == ScheduleKind::Specific || kind == ScheduleKind::YearlySolar) {
            self.all_day = false;
        }
    }

    /// The date was stepped. A text that is no date stays as it is, and so does the date where a
    /// step by months would leave the calendar.
    pub fn adjust_event_date(&mut self, part: i32, delta: i32)
        ensures
            match parsed_date(old(self)@.date) {
                None => final(self)@ == old(self)@,
                Some((year, month, day)) => forall|current: Date| #[trigger]
                    current.valid() && current.year() == year && current.month() == month
                        && current.day() == day ==> if part == 1 && !has_month(
                        current,
                        delta as int,
                    ) {
                        final(self)@ == old(self)@
                    } else {
                        exists|next: Date|
                            next.valid() && #[trigger] adjusted(current, part, delta, next)
                                && final(self)@ == with_date(old(self)@, next)
                    },
            },
    {
        if let Some(current) = Date::parse(self.date.as_str()) {
            let total: i64 = current.year() as i64 * 12 + current.month() as i64 - 1 + delta as i64;
            let year: i64 = total.checked_div_euclid(12).unwrap();
            proof {
                assert forall|other: Date| #[trigger]
                    other.valid() && other.year() == current.year() && other.month()
                        == current.month() && other.day() == current.day() implies other
                    == current by {
                    lemma_number_determines_date(other, current);
                }
            }
            if part == 1 && (year < MIN_YEAR as i64 || year > MAX_YEAR as i64) {
                return ;
            }
            let next = adjust_date(current, part, delta);
            self.set_editor_date(next);
            assert(adjusted(current, part, delta, next));
        }
    }

    /// The time of day was stepped: by hours for part 0, else by five minutes. It wraps around at
    /// midnight.
    pub fn adjust_event_time(&mut self, part: i32, delta: i32)
        ensures
            final(self)@ == stepped_time(old(self)@, part, delta),
    {
        let hour: i32 = read_input(self.hour_input.as_str(), self.hour, 23);
        let minute: i32 = read_input(self.minute_input.as_str(), self.minute, 59);
        let total: i64 = hour as i64 * 60 + minute as i64;
        let step: i64 = if part == 0 {
            60
        } else {
            5
        };
        let next: i64 = (total + delta as i64 * step).checked_rem_euclid(1440).unwrap();
        self.set_editor_time((next / 60) as i32, (next % 60) as i32);
    }

    /// A time of day was typed in. Returns what users read where it is none, and changes nothing
    /// then.
    pub fn apply_event_time(&mut self, hour: &str, minute: &str) -> (r: Result<(), &'static str>)
        ensures
            match typed_time(hour@, minute@) {
                Ok((h, m)) => r is Ok && final(self)@ == with_time(old(self)@, h, m),
                Err(reason) => (r matches Err(message) && message@ == reason) && final(self)@
                    == old(self)@,
            },
    {
        let h: i32 = match parse_i32(trim(hour).as_str()) {
            Some(h) => h,
            None => {
                return Err("小时必须是 0–23 的整数");
            },
        };
        let m: i32 = match parse_i32(trim(minute).as_str()) {
            Some(m) => m,
            None => {
                return Err("分钟必须是 0–59 的整数");
            },
        };
        if h < 0 || h > 23 {
            return Err("小时必须在 0–23 之间");
        }
        if m < 0 || m > 59 {
            return Err("分钟必须在 0–59 之间");
        }
        self.set_editor_time(h, m);
        Ok(())
    }

    /// The lunar date was stepped: its month for part 0, else its day. Both wrap around.
    pub fn adjust_lunar_date(&mut self, part: i32, delta: i32)
        ensures
            final(self)@ == stepped_lunar(old(self)@, part, delta),
    {
        let mut month: i64 = limit(self.lunar_month, 1, 12) as i64;
        let mut day: i64 = limit(self.lunar_day, 1, 30) as i64;
        if part == 0 {
            month = (month - 1 + delta as i64).checked_rem_euclid(12).unwrap() + 1;
        } else {
            day = (day - 1 + delta as i64).checked_rem_euclid(30).unwrap() + 1;
        }
        let leap: bool = self.lunar_leap;
        self.set_lunar(month as u8, day as u8, leap);
    }
}

/// The form of another kind of schedule; only some kinds can last all day.
pub open spec fn of_kind(form: FormView, value: i32) -> FormView {
    let kind = kind_at(value as int);
    FormView {
        all_day: form.all_day && (kind == ScheduleKind::Specific || kind
            == ScheduleKind::YearlySolar),
        ..with_kind(form, kind)
    }
}

/// The form with its time of day stepped: by hours for part 0, else by five minutes.
pub open spec fn stepped_time(form: FormView, part: i32, delta: i32) -> FormView {
    let total = input_or(form.hour_input, form.hour, 23) * 60 + input_or(
        form.minute_input,
        form.minute,
        59,
    );
    let step = if part == 0 {
        60int
    } else {
        5int
    };
    let next = (total + delta * step) % 1440;
    with_time(form, next / 60, next % 60)
}

/// The form with its lunar date stepped: its month for part 0, else its day.
pub open spec fn stepped_lunar(form: FormView, part: i32, delta: i32) -> FormView {
    let month = limited(form.lunar_month as int, 1, 12);
    let day = limited(form.lunar_day as int, 1, 30);
    with_lunar(
        form,
        if part == 0 {
            (month - 1 + delta) % 12 + 1
        } else {
            month
        },
        if part == 0 {
            day
        } else {
            (day - 1 + delta) % 30 + 1
        },
        form.lunar_leap,
    )
}

/// The time of day that is typed in, or what users read where it is none.
pub open spec fn typed_time(hour: Seq<char>, minute: Seq<char>) -> Result<(int, int), Seq<char>> {
    match (small_number(hour), small_number(minute)) {
        (None, _) => Err("小时必须是 0–23 的整数"@),
        (_, None) => Err("分钟必须是 0–59 的整数"@),
        (Some(h), Some(m)) => if !(0 <= h <= 23) {
            Err("小时必须在 0–23 之间"@)
        } else if !(0 <= m <= 59) {
            Err("分钟必须在 0–59 之间"@)
        } else {
            Ok((h, m))
        },
    }
}

/// A number within limits.
pub open spec fn limited(n: int, low: int, high: int) -> int {
    if n < low {
        low
    } else if n > high {
        high
    } else {
        n
    }
}

/// `n` within limits.
fn limit(n: i32, low: i32, high: i32) -> (r: i32)
    requires
        low <= high,
    ensures
        r == limited(n as int, low as int, high as int),
        low <= r <= high,
{
    if n < low {
        low
    } else if n > high {
        high
    } else {
        n
    }
}

/// The number that a text stands for, without white space at its ends.
pub open spec fn small_number(s: Seq<char>) -> Option<int> {
    signed_number(trimmed(s), i32::MIN as int, i32::MAX as int)
}

/// The number in an input field, or else `current`, between 0 and `high`.
pub open spec fn input_or(s: Seq<char>, current: i32, high: int) -> int {
    limited(
        match small_number(s) {
            Some(n) => n,
            None => current as int,
        },
        0,
        high,
    )
}

/// The number in an input field, or else `current`, between 0 and `high`.
fn read_input(s: &str, current: i32, high: i32) -> (r: i32)
    requires
        0 <= high,
    ensures
        r == input_or(s@, current, high as int),
        0 <= r <= high,
{
    match parse_i32(trim(s).as_str()) {
        Some(n) => limit(n, 0, high),
        None => limit(current, 0, high),
    }
}

/// A number that is written with two digits at least is made of digits, and reads back.
proof fn lemma_two_digits(n: int, max: int)
    requires
        0 <= n <= max,
    ensures
        unsigned_number(two_digit_text(n), 10, max) == Some(n),
        forall|k: int|
            0 <= k < two_digit_text(n).len() ==> digit_value(#[trigger] two_digit_text(n)[k]) < 10,
{
    let s = two_digit_text(n);
    let d = decimal(n as nat);
    lemma_decimal(n as nat);
    if n < 10 {
        assert(s =~= seq!['0'] + d);
        assert(s.drop_last() =~= seq!['0']);
        assert(s.drop_last().drop_last() =~= Seq::<char>::empty());
        reveal_with_fuel(digits_value, 3);
        assert(d.drop_last() =~= Seq::<char>::empty());
    } else {
        assert(d.len() >= 2) by {
            lemma_decimal((n / 10) as nat);
        }
        assert(s == d);
    }
    assert(digit_value(s[0]) < 10);
    assert(without_sign(s, '+') == s);
}

/// Two numbers with a hyphen between them read back as month and day.
pub proof fn lemma_month_day(month: int, day: int, max: int)
    requires
        0 <= month <= max,
        0 <= day <= max,
    ensures
        ({
            let s = two_digit_text(month) + "-"@ + two_digit_text(day);
            &&& month_day(s, max) == Some((month, day))
            &&& forall|k: int| 0 <= k < s.len() ==> #[trigger] s[k] != ':'
        }),
{
    reveal_strlit("-");
    lemma_two_digits(month, max);
    lemma_two_digits(day, max);
    let (m, d) = (two_digit_text(month), two_digit_text(day));
    let s = m + "-"@ + d;
    let at = m.len() as int;
    assert(s[at] == '-');
    assert forall|k: int| 0 <= k < at implies #[trigger] s[k] != '-' by {
        assert(digit_value(m[k]) < 10);
    }
    lemma_find_is(s, '-', at);
    assert(s.subrange(0, at) =~= m);
    assert(s.subrange(at + 1, s.len() as int) =~= d);
    assert forall|k: int| 0 <= k < s.len() implies #[trigger] s[k] != ':' by {
        if k < at {
            assert(digit_value(m[k]) < 10);
        } else if k > at {
            assert(digit_value(d[k - at - 1]) < 10);
        }
    }
}

/// The rule that the form writes stands for the kind of schedule in the form, and names the month
/// and day that the form shows.
pub proof fn the_written_rule_reads_back(form: FormView, month: int, day: int, event: EventView)
    requires
        0 <= month <= u32::MAX,
        0 <= day <= u32::MAX,
        0 <= form.lunar_month <= u8::MAX,
        0 <= form.lunar_day <= u8::MAX,
        event.recurrence_rule == rule_of(form, month, day),
    ensures
        rule_kind(event.recurrence_rule) == kind_at(form.schedule_kind as int),
        rule_kind(event.recurrence_rule) == ScheduleKind::YearlySolar ==> solar_parts(event) == (
            month,
            day,
        ),
        rule_kind(event.recurrence_rule) == ScheduleKind::YearlyLunar ==> lunar_event_parts(event)
            == (form.lunar_month as int, form.lunar_day as int, form.lunar_leap),
{
    reveal_strlit("");
    reveal_strlit("-");
    reveal_strlit(":");
    reveal_strlit("leap");
    reveal_strlit("regular");
    reveal_strlit("DAILY");
    reveal_strlit("LEGAL_REST_DAY");
    reveal_strlit("LEGAL_WORKDAY");
    reveal_strlit("YEARLY_SOLAR:");
    reveal_strlit("YEARLY_LUNAR:");
    let rule = event.recurrence_rule;
    let solar = "YEARLY_SOLAR:"@;
    let lunar = "YEARLY_LUNAR:"@;
    match kind_at(form.schedule_kind as int) {
        ScheduleKind::Specific => {
            assert(rule.len() == 0);
        },
        ScheduleKind::LegalRestDay => {},
        ScheduleKind::LegalWorkday => {
            assert(rule[6] != "LEGAL_REST_DAY"@[6]);
        },
        ScheduleKind::YearlySolar => {
            lemma_month_day(month, day, u32::MAX as int);
            let rest = two_digit_text(month) + "-"@ + two_digit_text(day);
            assert(rule =~= solar + rest);
            assert(rule[0] == 'Y');
            assert(solar.is_prefix_of(rule));
            assert(rule.subrange(solar.len() as int, rule.len() as int) =~= rest);
        },
        ScheduleKind::YearlyLunar => {
            let (m, d) = (form.lunar_month as int, form.lunar_day as int);
            lemma_month_day(m, d, u8::MAX as int);
            let head = two_digit_text(m) + "-"@ + two_digit_text(d);
            let mark = if form.lunar_leap {
                "leap"@
            } else {
                "regular"@
            };
            let rest = head + ":"@ + mark;
            assert(rule =~= lunar + rest);
            assert(rule[0] == 'Y');
            assert(lunar.is_prefix_of(rule));
            assert(rule[7] == 'L' && solar[7] == 'S');
            assert(!solar.is_prefix_of(rule)) by {
                if solar.is_prefix_of(rule) {
                    assert(rule.subrange(0, solar.len() as int)[7] == solar[7]);
                }
            }
            assert(rule.subrange(lunar.len() as int, rule.len() as int) =~= rest);
            let n = head.len() as int;
            assert(forall|k: int| 0 <= k < n ==> #[trigger] rest[k] == head[k]);
            assert(rest[n] == ':');
            lemma_find_is(rest, ':', n);
            assert(rest.subrange(0, n) =~= head);
            assert(rest.subrange(n + 1, rest.len() as int) =~= mark);
            lemma_find_is(mark, ':', mark.len() as int);
            if !form.lunar_leap {
                assert(mark.len() != "leap"@.len());
            }
        },
        ScheduleKind::Daily => {
            assert(rule[0] == 'D');
            assert(rule.len() == 5);
        },
    }
}

/// An event lasts as many minutes as the form says: between one and as many as a year has.
pub proof fn an_event_lasts_as_long_as_the_form_says(
    form: FormView,
    base: EventView,
    now: Instant,
    event: EventView,
)
    requires
        edited(form, base, now, event),
    ensures
        signed_number(trimmed(form.duration), i64::MIN as int, i64::MAX as int) matches Some(n)
            && 1 <= n <= 525_600 && event.end_at.seconds() == event.start_at.seconds() + 60 * n,
        event.start_at.nanos() == 0,
        event.end_at.nanos() == 0,
{
    let (month, day, start, end) = time_of(form)->Ok_0;
    let duration = minutes_of(form.duration).unwrap();
    lemma_start_of_form(form);
    a_shift_adds_sixty_seconds_a_minute(start, duration, end);
}

/// The start that a form gives is a local time without a fraction of a second.
proof fn lemma_start_of_form(form: FormView)
    requires
        time_of(form) is Ok,
    ensures
        ({
            let (year, month, day) = parsed_date(form.date).unwrap();
            let (hour, minute) = if lasts_all_day(form) {
                (0u32, 0u32)
            } else {
                parsed_clock(form.start_time).unwrap()
            };
            let (m, d, start, end) = time_of(form)->Ok_0;
            &&& m == month && d == day
            &&& start.nanos() == 0
            &&& shanghai_single(
                ((day_number(year as int, month as int, day as int) - UNIX_DAY) * 86_400 + hour
                    * 3600 + minute * 60) as i64,
            ) == Some(start.seconds())
        }),
{
    let (year, month, day) = parsed_date(form.date).unwrap();
    let (hour, minute) = if lasts_all_day(form) {
        (0u32, 0u32)
    } else {
        parsed_clock(form.start_time).unwrap()
    };
    a_local_time_is_what_the_zone_has(
        day_number(year as int, month as int, day as int),
        hour * 3600 + minute * 60,
        0,
    );
}

/// An event begins on the date of the form, at its time of day in the zone, and at midnight when it
/// lasts all day.
pub proof fn an_event_begins_when_the_form_says(
    form: FormView,
    base: EventView,
    now: Instant,
    event: EventView,
)
    requires
        edited(form, base, now, event),
    ensures
        parsed_date(form.date) is Some,
        !event.all_day ==> parsed_clock(form.start_time) is Some,
        ({
            let (year, month, day) = parsed_date(form.date).unwrap();
            let midnight = (day_number(year as int, month as int, day as int) - UNIX_DAY) * 86_400;
            let (hour, minute) = parsed_clock(form.start_time).unwrap();
            &&& event.all_day ==> shanghai_single(midnight as i64) == Some(event.start_at.seconds())
            &&& !event.all_day ==> shanghai_single(
                (midnight + hour * 3600 + minute * 60) as i64,
            ) == Some(event.start_at.seconds())
        }),
{
    lemma_start_of_form(form);
}

/// What the user typed and switched is what the event holds; what the form does not show stays as
/// it was. The event is marked as changed now and not yet known to the server.
pub proof fn an_event_holds_what_the_form_shows(
    form: FormView,
    base: EventView,
    now: Instant,
    event: EventView,
)
    requires
        edited(form, base, now, event),
    ensures
        event.title == trimmed(form.title),
        event.location == form.location,
        event.notes == form.notes,
        event.completed == form.completed,
        event.force_reminder == form.force_reminder,
        event.all_day <==> form.all_day && (form.schedule_kind == 3 || !(1 <= form.schedule_kind
            <= 5)),
        event.id == base.id,
        event.timezone == base.timezone,
        event.color == base.color,
        event.deleted == base.deleted,
        event.version == base.version,
        event.updated_seq == 0,
        event.updated_at == now,
{
}

/// The kind that was chosen makes the rule: by its place in the list of kinds. Yearly rules name the
/// month and day of the form's date, or its lunar date and whether that lies in a leap month.
pub proof fn the_chosen_kind_makes_the_rule(
    form: FormView,
    base: EventView,
    now: Instant,
    event: EventView,
)
    requires
        edited(form, base, now, event),
    ensures
        !(1 <= form.schedule_kind <= 5) ==> event.recurrence_rule.len() == 0,
        form.schedule_kind == 1 ==> event.recurrence_rule == "LEGAL_REST_DAY"@,
        form.schedule_kind == 2 ==> event.recurrence_rule == "LEGAL_WORKDAY"@,
        form.schedule_kind == 3 ==> (parsed_date(form.date) matches Some((year, month, day))
            && event.recurrence_rule == "YEARLY_SOLAR:"@ + two_digits(month as int) + "-"@
            + two_digits(day as int)),
        form.schedule_kind == 4 && form.lunar_month >= 0 && form.lunar_day >= 0
            ==> event.recurrence_rule == "YEARLY_LUNAR:"@ + two_digits(form.lunar_month as int)
            + "-"@ + two_digits(form.lunar_day as int) + ":"@ + (if form.lunar_leap {
            "leap"@
        } else {
            "regular"@
        }),
        form.schedule_kind == 5 ==> event.recurrence_rule == "DAILY"@,
{
    reveal_strlit("");
    lemma_start_of_form(form);
}

/// An event reminds at exactly the minutes that the form asks for: those of its four switches, and
/// the typed number where that is applied and not blank; each once, the smallest first.
pub proof fn an_event_reminds_as_the_form_asks(
    form: FormView,
    base: EventView,
    now: Instant,
    event: EventView,
    minutes: i64,
)
    requires
        edited(form, base, now, event),
        form_error(form) is None,
    ensures
        event.reminder_minutes.contains(0) <== form.reminder_at_time,
        event.reminder_minutes.contains(10) <== form.reminder_10m,
        event.reminder_minutes.contains(60) <== form.reminder_1h,
        event.reminder_minutes.contains(1440) <== form.reminder_1d,
        form.custom_applied && trimmed(form.custom_reminder).len() > 0 ==> (signed_number(
            trimmed(form.custom_reminder),
            i64::MIN as int,
            i64::MAX as int,
        ) matches Some(n) && 0 <= n <= 525_600 && event.reminder_minutes.contains(n as i64)),
        event.reminder_minutes.contains(minutes) ==> (minutes == 0 && form.reminder_at_time)
            || (minutes == 10 && form.reminder_10m) || (minutes == 60 && form.reminder_1h)
            || (minutes == 1440 && form.reminder_1d) || (form.custom_applied && signed_number(
            trimmed(form.custom_reminder),
            i64::MIN as int,
            i64::MAX as int,
        ) == Some(minutes as int)),
        event.reminder_minutes.contains(minutes) ==> 0 <= minutes <= 525_600,
        forall|i: int, j: int|
            0 <= i < j < event.reminder_minutes.len() ==> event.reminder_minutes[i]
                < event.reminder_minutes[j],
{
    assert(event.reminder_minutes.contains(0) <==> asks_reminder(form, 0));
    assert(event.reminder_minutes.contains(10) <==> asks_reminder(form, 10));
    assert(event.reminder_minutes.contains(60) <==> asks_reminder(form, 60));
    assert(event.reminder_minutes.contains(1440) <==> asks_reminder(form, 1440));
    if form.custom_applied && trimmed(form.custom_reminder).len() > 0 {
        let n = minutes_of(form.custom_reminder).unwrap();
        assert(event.reminder_minutes.contains(n as i64) <==> asks_reminder(
            form,
            (n as i64) as int,
        ));
    }
}

/// A form without a title makes no event, and neither does one whose duration is no number or none
/// between one minute and a year, or whose own reminder is none between zero minutes and a year.
pub proof fn a_form_is_refused_for_what_is_wrong_in_it(form: FormView)
    ensures
        trimmed(form.title).len() == 0 <==> form_error(form) == Some(EditorError::EmptyTitle),
        form_error(form) is None ==> {
            &&& parsed_date(form.date) is Some
            &&& signed_number(
                trimmed(form.duration),
                i64::MIN as int,
                i64::MAX as int,
            ) matches Some(n) && 1 <= n <= 525_600
            &&& form.custom_applied && trimmed(form.custom_reminder).len() > 0 ==> (signed_number(
                trimmed(form.custom_reminder),
                i64::MIN as int,
                i64::MAX as int,
            ) matches Some(n) && 0 <= n <= 525_600)
        },
        trimmed(form.title).len() > 0 && parsed_date(form.date) is None ==> form_error(form) == Some(
            EditorError::InvalidDate,
        ),
        form_error(form) == Some(EditorError::InvalidTime) ==> parsed_clock(form.start_time) is None,
        form_error(form) == Some(EditorError::InvalidDuration) ==> signed_number(
            trimmed(form.duration),
            i64::MIN as int,
            i64::MAX as int,
        ) is None,
        form_error(form) == Some(EditorError::DurationOutOfRange) ==> (signed_number(
            trimmed(form.duration),
            i64::MIN as int,
            i64::MAX as int,
        ) matches Some(n) && (n < 1 || 525_600 < n)),
        form_error(form) == Some(EditorError::InvalidReminder) ==> form.custom_applied
            && signed_number(
            trimmed(form.custom_reminder),
            i64::MIN as int,
            i64::MAX as int,
        ) is None,
        form_error(form) == Some(EditorError::ReminderOutOfRange) ==> form.custom_applied && (
        signed_number(
            trimmed(form.custom_reminder),
            i64::MIN as int,
            i64::MAX as int,
        ) matches Some(n) && (n < 0 || 525_600 < n)),
{
}

/// A number that was written is not blank, and is read in a field of the form.
proof fn lemma_written_minutes(n: int)
    requires
        i64::MIN <= n <= i64::MAX,
    ensures
        minutes_of(signed_decimal(n)) == Some(n),
        trimmed(signed_decimal(n)).len() > 0,
{
    let s = signed_decimal(n);
    a_written_number_reads_back(n, i64::MIN as int, i64::MAX as int);
    let d = if n < 0 {
        decimal((-n) as nat)
    } else {
        decimal(n as nat)
    };
    lemma_decimal(if n < 0 {
        (-n) as nat
    } else {
        n as nat
    });
    assert(d.len() > 0);
    assert(digit_value(d[0]) < 10 && digit_value(d[d.len() - 1]) < 10);
    assert(s.last() == d[d.len() - 1]);
    assert(!white_space(s[0]) && !white_space(s.last()));
    lemma_bare_text_stays(s);
}

/// The first reminder without a switch is one of the reminders.
proof fn lemma_first_custom(values: Seq<i64>)
    ensures
        match first_custom(values) {
            Some(v) => values.contains(v) && !has_switch(v),
            None => forall|i: int| 0 <= i < values.len() ==> has_switch(#[trigger] values[i]),
        },
    decreases values.len(),
{
    if values.len() > 0 {
        let rest = values.subrange(1, values.len() as int);
        if !has_switch(values[0]) {
            assert(values[0] == first_custom(values).unwrap());
        } else {
            lemma_first_custom(rest);
            match first_custom(rest) {
                Some(v) => {
                    let k = choose|k: int| 0 <= k < rest.len() && rest[k] == v;
                    assert(values[k + 1] == v);
                },
                None => {
                    assert forall|i: int| 0 <= i < values.len() implies has_switch(
                        #[trigger] values[i],
                    ) by {
                        if i > 0 {
                            assert(rest[i - 1] == values[i]);
                        }
                    }
                },
            }
        }
    }
}

/// Ascending numbers are determined by which they are.
proof fn lemma_ascending_numbers(a: Seq<i64>, b: Seq<i64>)
    requires
        forall|i: int, j: int| 0 <= i < j < a.len() ==> a[i] < a[j],
        forall|i: int, j: int| 0 <= i < j < b.len() ==> b[i] < b[j],
        forall|v: i64| #[trigger] a.contains(v) <==> b.contains(v),
    ensures
        a == b,
    decreases a.len(),
{
    if a.len() == 0 {
        if b.len() > 0 {
            assert(b.contains(b[0]));
            assert(a.contains(b[0]));
        }
        assert(a =~= b);
    } else if b.len() == 0 {
        assert(a.contains(a[0]));
        assert(b.contains(a[0]));
    } else {
        let (x, y) = (a.last(), b.last());
        assert(a[a.len() - 1] == x && b[b.len() - 1] == y);
        assert(a.contains(x) && b.contains(y));
        let i = choose|i: int| 0 <= i < b.len() && b[i] == x;
        assert(b.contains(x));
        assert(x <= y);
        assert(a.contains(y));
        let j = choose|j: int| 0 <= j < a.len() && a[j] == y;
        assert(y <= x);
        let (c, d) = (a.drop_last(), b.drop_last());
        assert forall|v: i64| #[trigger] c.contains(v) <==> d.contains(v) by {
            if c.contains(v) {
                let k = choose|k: int| 0 <= k < c.len() && c[k] == v;
                assert(a[k] == v);
                assert(a[k] < a[a.len() - 1]);
                assert(a.contains(v));
                assert(b.contains(v));
                let l = choose|l: int| 0 <= l < b.len() && b[l] == v;
                assert(d[l] == v);
            }
            if d.contains(v) {
                let k = choose|k: int| 0 <= k < d.len() && d[k] == v;
                assert(b[k] == v);
                assert(b[k] < b[b.len() - 1]);
                assert(b.contains(v));
                assert(a.contains(v));
                let l = choose|l: int| 0 <= l < a.len() && a[l] == v;
                assert(c[l] == v);
            }
        }
        lemma_ascending_numbers(c, d);
        assert(a =~= c.push(x) && b =~= d.push(y));
    }
}

/// Reminders that were loaded into the form are those that it asks for, as long as no more than one
/// of them has no switch of its own.
pub proof fn loaded_reminders_are_asked_for(form: FormView, event: EventView, values: Seq<i64>)
    requires
        forall|i: int, j: int|
            0 <= i < j < event.reminder_minutes.len() ==> event.reminder_minutes[i]
                < event.reminder_minutes[j],
        forall|i: int, j: int|
            0 <= i < event.reminder_minutes.len() && 0 <= j < event.reminder_minutes.len()
                && !has_switch(#[trigger] event.reminder_minutes[i]) && !has_switch(
                #[trigger] event.reminder_minutes[j],
            ) ==> i == j,
        reminders_of(loaded(form, event), values),
    ensures
        values == event.reminder_minutes,
{
    let shown = loaded(form, event);
    let own = event.reminder_minutes;
    lemma_first_custom(own);
    if let Some(c) = first_custom(own) {
        lemma_written_minutes(c as int);
    }
    assert forall|v: i64| #[trigger] values.contains(v) <==> own.contains(v) by {
        assert(values.contains(v) <==> asks_reminder(shown, v as int));
        if own.contains(v) && !has_switch(v) {
            let k = choose|k: int| 0 <= k < own.len() && own[k] == v;
            let c = first_custom(own).unwrap();
            let l = choose|l: int| 0 <= l < own.len() && own[l] == c;
            assert(!has_switch(own[k]) && !has_switch(own[l]));
        }
    }
    lemma_ascending_numbers(values, own);
}

/// An event that is loaded into the form and saved unchanged is the same event, but for the time of
/// the change: if it begins on a whole minute of a local time that the zone has once, and its texts
/// of date and time read back; if it lasts whole minutes; if its title has no white space at its
/// ends; if its reminders are in order, no more than one of them without a switch; and if its rule
/// is one that the form writes.
pub proof fn loading_and_saving_keeps_an_event(
    form: FormView,
    event: EventView,
    date: Date,
    minutes: int,
    now: Instant,
    saved: EventView,
)
    requires
        edited(loaded(form, event), event, now, saved),
        date.valid(),
        date.number() == event.start_at.local_day(),
        event.start_at.local_clock() % 60 == 0,
        event.start_at.nanos() == 0,
        event.start_at.valid(),
        parsed_date(date.written()) == Some((date.year(), date.month(), date.day())),
        ({
            let clock = event.start_at.local_clock();
            parsed_clock(hour_minute_text(clock / 3600, clock / 60 % 60)) == Some(
                ((clock / 3600) as u32, (clock / 60 % 60) as u32),
            )
        }),
        shanghai_single(
            ((date.number() - UNIX_DAY) * 86_400 + event.start_at.local_clock()) as i64,
        ) == Some(event.start_at.seconds()),
        minutes >= 1,
        event.end_at.nanos() == 0,
        event.end_at.seconds() == event.start_at.seconds() + 60 * minutes,
        trimmed(event.title) == event.title,
        event.all_day ==> event.start_at.local_clock() == 0 && (rule_kind(event.recurrence_rule)
            == ScheduleKind::Specific || rule_kind(event.recurrence_rule)
            == ScheduleKind::YearlySolar),
        event.recurrence_rule == rule_of(
            loaded(form, event),
            date.month() as int,
            date.day() as int,
        ),
        forall|i: int, j: int|
            0 <= i < j < event.reminder_minutes.len() ==> event.reminder_minutes[i]
                < event.reminder_minutes[j],
        forall|i: int, j: int|
            0 <= i < event.reminder_minutes.len() && 0 <= j < event.reminder_minutes.len()
                && !has_switch(#[trigger] event.reminder_minutes[i]) && !has_switch(
                #[trigger] event.reminder_minutes[j],
            ) ==> i == j,
    ensures
        saved == (EventView { updated_seq: 0, updated_at: now, ..event }),
{
    lemma_loaded_time(form, event, date, minutes);
    loaded_reminders_are_asked_for(form, event, saved.reminder_minutes);
    crate::calendar::kinds_and_indices_correspond(rule_kind(event.recurrence_rule), 0);
}

/// The times that the form gives after an event was loaded are those of the event.
proof fn lemma_loaded_time(form: FormView, event: EventView, date: Date, minutes: int)
    requires
        time_of(loaded(form, event)) is Ok,
        date.valid(),
        date.number() == event.start_at.local_day(),
        event.start_at.local_clock() % 60 == 0,
        event.start_at.nanos() == 0,
        event.start_at.valid(),
        parsed_date(date.written()) == Some((date.year(), date.month(), date.day())),
        ({
            let clock = event.start_at.local_clock();
            parsed_clock(hour_minute_text(clock / 3600, clock / 60 % 60)) == Some(
                ((clock / 3600) as u32, (clock / 60 % 60) as u32),
            )
        }),
        shanghai_single(
            ((date.number() - UNIX_DAY) * 86_400 + event.start_at.local_clock()) as i64,
        ) == Some(event.start_at.seconds()),
        minutes >= 1,
        event.end_at.nanos() == 0,
        event.end_at.seconds() == event.start_at.seconds() + 60 * minutes,
        event.all_day ==> event.start_at.local_clock() == 0,
    ensures
        time_of(loaded(form, event))->Ok_0 == (
            date.month() as int,
            date.day() as int,
            event.start_at,
            event.end_at,
        ),
{
    let shown = loaded(form, event);
    let (m, d, start, end) = time_of(shown)->Ok_0;
    let clock = event.start_at.local_clock();
    lemma_date_of_number(date);
    assert(shown.date == date.written());
    assert(0 <= clock < 86_400);
    assert((clock / 3600) * 3600 + (clock / 60 % 60) * 60 == clock);
    assert((clock / 3600) % 24 == clock / 3600);
    assert((clock / 60 % 60) % 60 == clock / 60 % 60);
    assert(shown.start_time == hour_minute_text(clock / 3600, clock / 60 % 60));
    lemma_start_of_form(shown);
    assert(start.seconds() == event.start_at.seconds());
    instants_are_their_points(start, event.start_at);
    let counted = whole_minutes(event.start_at, event.end_at);
    assert(counted == minutes);
    lemma_written_minutes(counted);
    assert(shifted(start, minutes) == Some(end));
    a_shift_adds_sixty_seconds_a_minute(start, minutes, end);
    instants_are_their_points(end, event.end_at);
}

/// The form for a new event, once it has a title, makes an event for one date that lasts an hour and
/// reminds when it begins.
pub proof fn a_new_form_makes_an_hour(
    form: FormView,
    date: Date,
    hour: int,
    title: Seq<char>,
    base: EventView,
    now: Instant,
    event: EventView,
)
    requires
        0 <= hour < 24,
        edited((FormView { title, ..cleared(form, date, hour) }), base, now, event),
    ensures
        event.end_at.seconds() == event.start_at.seconds() + 3600,
        event.recurrence_rule.len() == 0,
        event.reminder_minutes == seq![0i64],
        !event.all_day && !event.completed && !event.force_reminder,
        event.location.len() == 0 && event.notes.len() == 0,
        cleared(form, date, hour).date == date.written(),
        cleared(form, date, hour).hour == (if hour < 22 {
            hour + 1
        } else {
            23
        }),
        cleared(form, date, hour).minute == 0,
{
    let blank = FormView { title, ..cleared(form, date, hour) };
    reveal_strlit("");
    reveal_strlit("60");
    assert("60"@ =~= signed_decimal(60)) by {
        reveal_with_fuel(decimal, 3);
    }
    lemma_written_minutes(60);
    an_event_lasts_as_long_as_the_form_says(blank, base, now, event);
    assert(!has_custom(blank));
    assert forall|v: i64| #[trigger] event.reminder_minutes.contains(v) <==> seq![0i64].contains(
        v,
    ) by {
        assert(event.reminder_minutes.contains(v) <==> asks_reminder(blank, v as int));
        assert(seq![0i64][0] == 0);
    }
    lemma_ascending_numbers(event.reminder_minutes, seq![0i64]);
}

/// The time of day in the form is a time of the clock that reads the same in all its fields.
pub proof fn the_form_shows_a_time_of_day(form: FormView, hour: int, minute: int)
    ensures
        ({
            let shown = with_time(form, hour, minute);
            &&& 0 <= shown.hour < 24 && 0 <= shown.minute < 60
            &&& (shown.hour - hour) % 24 == 0 && (shown.minute - minute) % 60 == 0
            &&& shown.start_time == shown.hour_input + seq![':'] + shown.minute_input
            &&& shown.hour_input == two_digits(shown.hour as int)
            &&& shown.minute_input == two_digits(shown.minute as int)
        }),
{
}

/// A step of the time of day adds as many hours, or as many times five minutes, and turns around at
/// midnight. A step by hours keeps the minute. It begins at the time that is typed in, or at the
/// one that the form held where none can be read.
pub proof fn a_time_step_turns_around_at_midnight(
    form: FormView,
    part: i32,
    delta: i32,
    hour: int,
    minute: int,
)
    requires
        0 <= hour < 24,
        0 <= minute < 60,
        small_number(form.hour_input) == Some(hour) || (small_number(form.hour_input) is None
            && form.hour == hour),
        small_number(form.minute_input) == Some(minute) || (small_number(form.minute_input) is None
            && form.minute == minute),
    ensures
        ({
            let next = stepped_time(form, part, delta);
            let minutes = if part == 0 {
                delta * 60
            } else {
                delta * 5
            };
            &&& 0 <= next.hour < 24 && 0 <= next.minute < 60
            &&& (next.hour * 60 + next.minute - (hour * 60 + minute) - minutes) % 1440 == 0
            &&& part == 0 ==> next.minute == minute
            &&& next.start_time == two_digits(next.hour as int) + seq![':'] + two_digits(
                next.minute as int,
            )
            &&& next.date == form.date && next.duration == form.duration && next.title == form.title
        }),
{
    let minutes = if part == 0 {
        delta * 60
    } else {
        delta * 5
    };
    let next = (hour * 60 + minute + minutes) % 1440;
    lemma_time_step(hour, minute, minutes);
    assert(input_or(form.hour_input, form.hour, 23) == hour);
    assert(input_or(form.minute_input, form.minute, 59) == minute);
    assert(stepped_time(form, part, delta) == with_time(form, next / 60, next % 60));
}

/// A time of day, so many minutes on.
proof fn lemma_time_step(hour: int, minute: int, minutes: int)
    requires
        0 <= hour < 24,
        0 <= minute < 60,
    ensures
        ({
            let next = (hour * 60 + minute + minutes) % 1440;
            &&& 0 <= next / 60 < 24
            &&& next / 60 * 60 + next % 60 == next
            &&& (next - (hour * 60 + minute) - minutes) % 1440 == 0
            &&& minutes % 60 == 0 ==> next % 60 == minute
        }),
{
    let total = hour * 60 + minute + minutes;
    let next = total % 1440;
    assert(next == total - total / 1440 * 1440);
    assert(minutes % 60 == 0 ==> total == (hour + minutes / 60) * 60 + minute);
}

/// A step of the lunar date goes by months or by days and turns around after the twelfth month or
/// the thirtieth day; the opposite step leads back. Leap months are left as they are.
pub proof fn a_lunar_step_turns_around(form: FormView, part: i32, delta: i32)
    requires
        1 <= form.lunar_month <= 12,
        1 <= form.lunar_day <= 30,
        delta > i32::MIN,
    ensures
        ({
            let next = stepped_lunar(form, part, delta);
            let back = stepped_lunar(next, part, (-delta) as i32);
            &&& 1 <= next.lunar_month <= 12 && 1 <= next.lunar_day <= 30
            &&& next.lunar_leap == form.lunar_leap
            &&& part == 0 ==> (next.lunar_month - form.lunar_month - delta) % 12 == 0
                && next.lunar_day == form.lunar_day
            &&& part != 0 ==> (next.lunar_day - form.lunar_day - delta) % 30 == 0
                && next.lunar_month == form.lunar_month
            &&& back.lunar_month == form.lunar_month && back.lunar_day == form.lunar_day
            &&& next.date == form.date && next.start_time == form.start_time
        }),
{
}

/// An event lasts all day only if it has a date of its own or one each year: choosing another kind
/// takes the mark away, and no choice sets it.
pub proof fn only_dated_kinds_last_all_day(form: FormView, value: i32)
    ensures
        of_kind(form, value).all_day ==> form.all_day,
        kind_at(value as int) == ScheduleKind::Specific || kind_at(value as int)
            == ScheduleKind::YearlySolar ==> of_kind(form, value).all_day == form.all_day,
        kind_at(value as int) == ScheduleKind::LegalRestDay || kind_at(value as int)
            == ScheduleKind::LegalWorkday || kind_at(value as int) == ScheduleKind::YearlyLunar
            || kind_at(value as int) == ScheduleKind::Daily ==> !of_kind(form, value).all_day,
        of_kind(form, value).schedule_kind == kind_index(kind_at(value as int)),
        of_kind(form, value).title == form.title,
        of_kind(form, value).date == form.date,
        of_kind(form, value).start_time == form.start_time,
        of_kind(form, value).duration == form.duration,
{
}

/// A time of day that is typed in is taken exactly when both parts are numbers of a clock, and then
/// as they are.
pub proof fn a_typed_time_is_a_time_of_the_clock(hour: Seq<char>, minute: Seq<char>, h: int, m: int)
    ensures
        typed_time(hour, minute) == Ok::<(int, int), Seq<char>>((h, m)) <==> small_number(hour)
            == Some(h) && small_number(minute) == Some(m) && 0 <= h < 24 && 0 <= m < 60,
        small_number(hour) is None || small_number(minute) is None ==> typed_time(hour, minute)
            is Err,
{
}

} // verus!
