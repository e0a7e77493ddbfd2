//! What the calendar window shows.
use crate::calendar::{
    event_occurs_on, festival_text, is_legal_rest_day, kind_label, lemma_date_of_number, lunar_date,
    lunar_date_label, lunar_date_text, lunar_event_parts, lunar_festival, lunar_label,
    lunar_label_text, occurrence, occurrence_start, occurs, off_day, rest_day, rule_kind,
    schedule_kind, yearly_lunar_parts, ScheduleKind,
};
use crate::date::{two_digits, Date};
use crate::instant::date_of_number;
use crate::labels::{
    color_of, filled, join_filled, local_time_text, parse_color, reminder_summary, reminder_text,
    time_label, time_or_all_day, Rgb,
};
use crate::models::{event_views, CalendarEvent, EventView, Holiday, HolidayView};
use crate::month::{month_day_label, month_day_text};
use crate::text::{
    decimal, decimal_text, is_blank, join, joined, padded_text, text_lt, trimmed, views,
};
use vstd::prelude::*;

verus! {

/// One day on the sheet of a month.
#[derive(Debug)]
pub struct DayCell {
    pub date: String,
    pub day: String,
    pub lunar: String,
    pub holiday: String,
    pub events: String,
    pub in_month: bool,
    pub today: bool,
    pub selected: bool,
    pub off_day: bool,
    pub workday: bool,
    pub day_kind: String,
}

/// What a cell shows.
#[verifier::ext_equal]
pub struct CellView {
    pub date: Seq<char>,
    pub day: Seq<char>,
    pub lunar: Seq<char>,
    pub holiday: Seq<char>,
    pub events: Seq<char>,
    pub in_month: bool,
    pub today: bool,
    pub selected: bool,
    pub off_day: bool,
    pub workday: bool,
    pub day_kind: Seq<char>,
}

impl View for DayCell {
    type V = CellView;

    open spec fn view(&self) -> CellView {
        CellView {
            date: self.date@,
            day: self.day@,
            lunar: self.lunar@,
            holiday: self.holiday@,
            events: self.events@,
            in_month: self.in_month,
            today: self.today,
            selected: self.selected,
            off_day: self.off_day,
            workday: self.workday,
            day_kind: self.day_kind@,
        }
    }
}

/// One event in a list.
#[derive(Debug)]
pub struct EventRow {
    pub id: String,
    pub date: String,
    pub time: String,
    pub title: String,
    pub meta: String,
    pub color: Rgb,
    pub completed: bool,
}

/// What a row shows.
#[verifier::ext_equal]
pub struct RowView {
    pub id: Seq<char>,
    pub date: Seq<char>,
    pub time: Seq<char>,
    pub title: Seq<char>,
    pub meta: Seq<char>,
    pub color: Rgb,
    pub completed: bool,
}

impl View for EventRow {
    type V = RowView;

    open spec fn view(&self) -> RowView {
        RowView {
            id: self.id@,
            date: self.date@,
            time: self.time@,
            title: self.title@,
            meta: self.meta@,
            color: self.color,
            completed: self.completed,
        }
    }
}

/// The views of some rows.
pub open spec fn row_views(rows: Seq<EventRow>) -> Seq<RowView> {
    Seq::new(rows.len(), |i: int| rows[i]@)
}

/// What separates the details of an event.
pub open spec fn dot() -> Seq<char> {
    " · "@
}

/// The row of an event on a date.
pub open spec fn event_row_view(event: EventView, date: Date) -> RowView {
    let start = match occurrence(event, date) {
        Some(t) => t,
        None => event.start_at,
    };
    let kind = rule_kind(event.recurrence_rule);
    RowView {
        id: event.id,
        date: month_day_text(date),
        time: time_or_all_day(event.all_day, start),
        title: event.title,
        meta: joined(
            filled(
                seq![
                    if kind == ScheduleKind::Specific {
                        ""@
                    } else {
                        kind_label(kind)
                    },
                    event.location,
                    reminder_text(event.reminder_minutes),
                ],
            ),
            dot(),
        ),
        color: color_of(event.color),
        completed: event.completed,
    }
}

/// The row of `event` on `occurrence_date`.
pub fn event_row(event: &CalendarEvent, occurrence_date: Date) -> (r: EventRow)
    ensures
        r@ == event_row_view(event@, occurrence_date),
{
    let start = match occurrence_start(event, occurrence_date) {
        Ok(t) => t,
        Err(_) => event.start_at,
    };
    let kind = schedule_kind(event);
    let summary = if kind == ScheduleKind::Specific {
        ""
    } else {
        kind.label()
    };
    let mut parts: Vec<String> = Vec::new();
    parts.push(summary.to_owned());
    parts.push(event.location.clone());
    parts.push(reminder_summary(&event.reminder_minutes));
    assert(views(parts@) =~= seq![
        summary@,
        event@.location,
        reminder_text(event@.reminder_minutes),
    ]);
    EventRow {
        id: event.id.clone(),
        date: month_day_label(&occurrence_date),
        time: time_label(event.all_day, &start),
        title: event.title.clone(),
        meta: join_filled(&parts, " · "),
        color: parse_color(event.color.as_str()),
        completed: event.completed,
    }
}

/// When an event takes place, in the overview.
pub open spec fn overview_date(event: EventView) -> Seq<char> {
    let date = date_of_number(event.start_at.local_day());
    match rule_kind(event.recurrence_rule) {
        ScheduleKind::Specific => date.written(),
        ScheduleKind::LegalRestDay => "法定休息日"@,
        ScheduleKind::LegalWorkday => "法定工作日"@,
        ScheduleKind::YearlySolar => "每年 "@ + two_digits(date.month() as int) + "-"@ + two_digits(
            date.day() as int,
        ),
        ScheduleKind::YearlyLunar => {
            let (month, day, leap) = lunar_event_parts(event);
            "每年 "@ + lunar_date_text(month as u8, day as u8, leap)
        },
        ScheduleKind::Daily => "每天"@,
    }
}

/// The details of an event in the overview.
pub open spec fn overview_meta(event: EventView) -> Seq<Seq<char>> {
    let kind = rule_kind(event.recurrence_rule);
    let first = if kind == ScheduleKind::Specific {
        seq![]
    } else {
        seq![kind_label(kind)]
    };
    let second = if trimmed(event.location).len() == 0 {
        first
    } else {
        first.push(event.location)
    };
    let reminder = reminder_text(event.reminder_minutes);
    let third = if reminder.len() == 0 {
        second
    } else {
        second.push(reminder)
    };
    if event.force_reminder {
        third.push("强制提醒"@)
    } else {
        third
    }
}

/// The row of an event in the overview.
pub open spec fn overview_row_view(event: EventView) -> RowView {
    RowView {
        id: event.id,
        date: overview_date(event),
        time: time_or_all_day(event.all_day, event.start_at),
        title: event.title,
        meta: joined(overview_meta(event), dot()),
        color: color_of(event.color),
        completed: event.completed,
    }
}

/// When `event` takes place, in the overview.
fn overview_date_label(event: &CalendarEvent) -> (r: String)
    ensures
        r@ == overview_date(event@),
{
    let date = event.start_at.local_date();
    proof {
        lemma_date_of_number(date);
    }
    match schedule_kind(event) {
        ScheduleKind::Specific => date.text(),
        ScheduleKind::LegalRestDay => "法定休息日".to_owned(),
        ScheduleKind::LegalWorkday => "法定工作日".to_owned(),
        ScheduleKind::YearlySolar => {
            let mut r = "每年 ".to_owned();
            r.append(padded_text(date.month() as u64, 2).as_str());
            r.append("-");
            r.append(padded_text(date.day() as u64, 2).as_str());
            r
        },
        ScheduleKind::YearlyLunar => {
            let (month, day, leap) = yearly_lunar_parts(event);
            let mut r = "每年 ".to_owned();
            r.append(lunar_date_label(month, day, leap).as_str());
            r
        },
        ScheduleKind::Daily => "每天".to_owned(),
    }
}

/// The row of `event` in the overview.
pub fn overview_event_row(event: &CalendarEvent) -> (r: EventRow)
    ensures
        r@ == overview_row_view(event@),
{
    let kind = schedule_kind(event);
    let mut parts: Vec<String> = Vec::new();
    if kind != ScheduleKind::Specific {
        parts.push(kind.label().to_owned());
    }
    assert(views(parts@) =~= if kind == ScheduleKind::Specific {
        seq![]
    } else {
        seq![kind_label(kind)]
    });
    let ghost first = parts@;
    if !is_blank(event.location.as_str()) {
        parts.push(event.location.clone());
        assert(views(parts@) =~= views(first).push(event@.location));
    }
    let ghost second = parts@;
    let reminder = reminder_summary(&event.reminder_minutes);
    if !reminder.as_str().is_empty() {
        parts.push(reminder);
        assert(views(parts@) =~= views(second).push(reminder_text(event@.reminder_minutes)));
    }
    let ghost third = parts@;
    if event.force_reminder {
        parts.push("强制提醒".to_owned());
        assert(views(parts@) =~= views(third).push("强制提醒"@));
    }
    EventRow {
        id: event.id.clone(),
        date: overview_date_label(event),
        time: time_label(event.all_day, &event.start_at),
        title: event.title.clone(),
        meta: join(&parts, " · "),
        color: parse_color(event.color.as_str()),
        completed: event.completed,
    }
}

/// The holiday record of a date, among those from `first` to `last`.
pub open spec fn holiday_between(
    holidays: Map<Seq<char>, HolidayView>,
    first: Seq<char>,
    last: Seq<char>,
    date: Seq<char>,
) -> Option<HolidayView> {
    if holidays.contains_key(date) && !text_lt(date, first) && !text_lt(last, date) {
        Some(holidays[date])
    } else {
        None
    }
}

/// Whether a holiday record makes its day a rest day.
pub open spec fn off_of(holiday: Option<HolidayView>) -> Option<bool> {
    match holiday {
        Some(h) => Some(h.is_off_day),
        None => None,
    }
}

/// The events that take place on a date.
pub open spec fn events_on(
    events: Seq<EventView>,
    date: Date,
    off: Option<bool>,
) -> Seq<EventView> {
    events.filter(|e: EventView| occurs(e, date, off))
}

/// The titles of some events, each with a bullet.
pub open spec fn bullets(events: Seq<EventView>) -> Seq<Seq<char>> {
    Seq::new(events.len(), |i: int| "• "@ + events[i].title)
}

/// The first `n` of a sequence, or all when there are fewer.
pub open spec fn first_few<T>(s: Seq<T>, n: int) -> Seq<T> {
    if s.len() > n {
        s.take(n)
    } else {
        s
    }
}

/// What the cell of a date shows.
pub open spec fn cell_view(
    date: Date,
    holiday: Option<HolidayView>,
    events: Seq<EventView>,
    month: Date,
    today: Date,
    selected: Date,
) -> CellView {
    let festival = match festival_text(lunar_date(date)) {
        Some(name) => name,
        None => ""@,
    };
    let off = rest_day(date.number(), off_of(holiday));
    let workday = holiday matches Some(h) && !h.is_off_day;
    CellView {
        date: date.written(),
        day: decimal(date.day() as nat),
        lunar: lunar_label_text(lunar_date(date)),
        holiday: match holiday {
            Some(h) => if h.name.len() > 0 {
                h.name
            } else {
                festival
            },
            None => festival,
        },
        events: joined(
            bullets(first_few(events_on(events, date, off_of(holiday)), 3)),
            "\n"@,
        ),
        in_month: date.month() == month.month(),
        today: date == today,
        selected: date == selected,
        off_day: off,
        workday,
        day_kind: if workday {
            "班"@
        } else if off {
            "休"@
        } else {
            ""@
        },
    }
}

/// The positions of the events that take place on `date`.
pub fn occurring(
    events: &Vec<CalendarEvent>,
    date: Date,
    holiday: Option<&Holiday>,
) -> (r: Vec<usize>)
    ensures
        r@.len() == events_on(event_views(events@), date, off_day(holiday)).len(),
        forall|i: int|
            0 <= i < r@.len() ==> (#[trigger] r@[i]) < events@.len() && events@[r@[i] as int]@
                == events_on(event_views(events@), date, off_day(holiday))[i],
{
    let ghost all = event_views(events@);
    let ghost off = off_day(holiday);
    let mut r: Vec<usize> = Vec::new();
    let mut i: usize = 0;
    assert(events_on(all.take(0), date, off) =~= Seq::<EventView>::empty()) by {
        reveal(Seq::filter);
    }
    while i < events.len()
        invariant
            all == event_views(events@),
            off == off_day(holiday),
            i <= events@.len(),
            r@.len() == events_on(all.take(i as int), date, off).len(),
            forall|k: int|
                0 <= k < r@.len() ==> (#[trigger] r@[k]) < events@.len() && events@[r@[k] as int]@
                    == events_on(all.take(i as int), date, off)[k],
        decreases events@.len() - i,
    {
        proof {
            let next = all.take(i + 1);
            assert(next.drop_last() =~= all.take(i as int));
            assert(next.last() == events@[i as int]@);
            reveal(Seq::filter);
        }
        if event_occurs_on(&events[i], date, holiday) {
            r.push(i);
        }
        i = i + 1;
    }
    assert(all.take(all.len() as int) =~= all);
    r
}

/// The cell of `date`.
pub fn day_cell(
    date: Date,
    holiday: Option<&Holiday>,
    events: &Vec<CalendarEvent>,
    month: &Date,
    today: &Date,
    selected: &Date,
) -> (r: DayCell)
    ensures
        r@ == cell_view(
            date,
            match holiday {
                Some(h) => Some(h@),
                None => None,
            },
            event_views(events@),
            *month,
            *today,
            *selected,
        ),
{
    let found = occurring(events, date, holiday);
    let ghost here = events_on(event_views(events@), date, off_day(holiday));
    let count: usize = if found.len() > 3 {
        3
    } else {
        found.len()
    };
    let mut lines: Vec<String> = Vec::new();
    let mut i: usize = 0;
    while i < count
        invariant
            i <= count <= found@.len(),
            found@.len() == here.len(),
            forall|k: int|
                0 <= k < found@.len() ==> (#[trigger] found@[k]) < events@.len()
                    && events@[found@[k] as int]@ == here[k],
            lines@.len() == i,
            forall|k: int| 0 <= k < i ==> (#[trigger] lines@[k])@ == "• "@ + here[k].title,
        decreases count - i,
    {
        let mut line = "• ".to_owned();
        assert(events@[found@[i as int] as int]@ == here[i as int]);
        line.append(events[found[i]].title.as_str());
        lines.push(line);
        i = i + 1;
    }
    assert(views(lines@) =~= bullets(first_few(here, 3)));
    let festival = match lunar_festival(date) {
        Some(name) => name,
        None => "",
    };
    let name = match holiday {
        Some(h) => if h.name.as_str().is_empty() {
            festival
        } else {
            h.name.as_str()
        },
        None => festival,
    };
    let off: bool = is_legal_rest_day(date, holiday);
    let workday: bool = match holiday {
        Some(h) => !h.is_off_day,
        None => false,
    };
    let kind = if workday {
        "班"
    } else if off {
        "休"
    } else {
        ""
    };
    DayCell {
        date: date.text(),
        day: decimal_text(date.day() as u64),
        lunar: lunar_label(date),
        holiday: name.to_owned(),
        events: join(&lines, "\n"),
        in_month: date.month() == month.month(),
        today: date.same_day(today),
        selected: date.same_day(selected),
        off_day: off,
        workday,
        day_kind: kind.to_owned(),
    }
}

/// The texts that are not empty among three, in their order.
pub proof fn lemma_filled_three(a: Seq<char>, b: Seq<char>, c: Seq<char>)
    ensures
        filled(seq![a, b, c]) == (if a.len() > 0 {
            seq![a]
        } else {
            seq![]
        }) + (if b.len() > 0 {
            seq![b]
        } else {
            seq![]
        }) + (if c.len() > 0 {
            seq![c]
        } else {
            seq![]
        }),
{
    reveal(Seq::filter);
    let p = |part: Seq<char>| part.len() > 0;
    let all = seq![a, b, c];
    let two = seq![a, b];
    let one = seq![a];
    assert(all.drop_last() =~= two);
    assert(two.drop_last() =~= one);
    assert(one.drop_last() =~= Seq::<Seq<char>>::empty());
    assert(Seq::<Seq<char>>::empty().filter(p) =~= Seq::<Seq<char>>::empty());
    assert(one.filter(p) =~= (if a.len() > 0 {
        seq![a]
    } else {
        seq![]
    }));
    assert(two.filter(p) =~= one.filter(p) + (if b.len() > 0 {
        seq![b]
    } else {
        seq![]
    }));
    assert(all.filter(p) =~= two.filter(p) + (if c.len() > 0 {
        seq![c]
    } else {
        seq![]
    }));
}

/// The names of the kinds of repeating events are not empty.
proof fn lemma_kind_labels(kind: ScheduleKind)
    ensures
        kind_label(kind).len() > 0,
{
    reveal_strlit("具体日期与时间");
    reveal_strlit("每个法定休息日");
    reveal_strlit("每个法定工作日");
    reveal_strlit("每年公历某一天");
    reveal_strlit("每年农历某一天");
    reveal_strlit("每天某个时刻");
}

/// A day lists exactly the events that take place on it, in the order in which they are given.
pub proof fn a_day_lists_the_events_that_take_place(
    events: Seq<EventView>,
    date: Date,
    off: Option<bool>,
    event: EventView,
)
    ensures
        events_on(events, date, off).contains(event) <==> events.contains(event) && occurs(
            event,
            date,
            off,
        ),
        events_on(events.push(event), date, off) == if occurs(event, date, off) {
            events_on(events, date, off).push(event)
        } else {
            events_on(events, date, off)
        },
    decreases events.len(),
{
    reveal(Seq::filter);
    let p = |e: EventView| occurs(e, date, off);
    assert(events.push(event).drop_last() =~= events);
    if events.len() > 0 {
        let shorter = events.drop_last();
        let last = events.last();
        a_day_lists_the_events_that_take_place(shorter, date, off, event);
        let found = events_on(events, date, off);
        let before = events_on(shorter, date, off);
        assert(found == if occurs(last, date, off) {
            before.push(last)
        } else {
            before
        });
        assert(events =~= shorter.push(last));
        if events.contains(event) && occurs(event, date, off) {
            let k = choose|k: int| 0 <= k < events.len() && events[k] == event;
            if k < shorter.len() {
                assert(shorter[k] == event);
                let i = choose|i: int| 0 <= i < before.len() && before[i] == event;
                assert(found[i] == event);
            } else {
                assert(found[found.len() - 1] == event);
            }
        }
        if found.contains(event) {
            let i = choose|i: int| 0 <= i < found.len() && found[i] == event;
            if i < before.len() {
                assert(before[i] == event);
                let k = choose|k: int| 0 <= k < shorter.len() && shorter[k] == event;
                assert(events[k] == event);
            } else {
                assert(events[events.len() - 1] == event);
            }
        }
    }
}

/// The row of an event on a date tells the time of day of its occurrence there, or that it lasts all
/// day; the date; and of the event its title, whether it is completed, how it repeats, where it is
/// and its first reminder, as far as it has them.
pub proof fn a_row_tells_its_event(event: EventView, date: Date)
    ensures
        ({
            let row = event_row_view(event, date);
            let repeats = rule_kind(event.recurrence_rule) != ScheduleKind::Specific;
            &&& row.id == event.id
            &&& row.title == event.title
            &&& row.completed == event.completed
            &&& row.color == color_of(event.color)
            &&& row.date == month_day_text(date)
            &&& event.all_day ==> row.time == "全天"@
            &&& !event.all_day ==> row.time == match occurrence(event, date) {
                Some(t) => local_time_text(t),
                None => local_time_text(event.start_at),
            }
            &&& row.meta == joined(
                (if repeats {
                    seq![kind_label(rule_kind(event.recurrence_rule))]
                } else {
                    seq![]
                }) + (if event.location.len() > 0 {
                    seq![event.location]
                } else {
                    seq![]
                }) + (if event.reminder_minutes.len() > 0 {
                    seq![reminder_text(event.reminder_minutes)]
                } else {
                    seq![]
                }),
                seq![' ', '·', ' '],
            )
        }),
{
    reveal_strlit("");
    reveal_strlit(" · ");
    reveal_strlit("提前");
    assert(" · "@ =~= seq![' ', '·', ' ']);
    let kind = rule_kind(event.recurrence_rule);
    lemma_kind_labels(kind);
    lemma_filled_three(
        if kind == ScheduleKind::Specific {
            ""@
        } else {
            kind_label(kind)
        },
        event.location,
        reminder_text(event.reminder_minutes),
    );
}

/// The overview tells an event as its row does, but for when it takes place: an event for one date
/// on that date, a yearly one on the month and day of its start or on its lunar date, and others by
/// their kind. It adds whether the user has to confirm the reminders.
pub proof fn the_overview_tells_its_event(event: EventView, start: Date)
    requires
        start.valid(),
        start.number() == event.start_at.local_day(),
    ensures
        ({
            let row = overview_row_view(event);
            let kind = rule_kind(event.recurrence_rule);
            &&& row.id == event.id && row.title == event.title && row.completed == event.completed
            &&& row.color == color_of(event.color)
            &&& !event.all_day ==> row.time == local_time_text(event.start_at)
            &&& event.all_day ==> row.time == "全天"@
            &&& kind == ScheduleKind::Specific ==> row.date == start.written()
            &&& kind == ScheduleKind::YearlySolar ==> row.date == "每年 "@ + two_digits(
                start.month() as int,
            ) + seq!['-'] + two_digits(start.day() as int)
            &&& kind == ScheduleKind::LegalRestDay ==> row.date == "法定休息日"@
            &&& kind == ScheduleKind::LegalWorkday ==> row.date == "法定工作日"@
            &&& kind == ScheduleKind::Daily ==> row.date == "每天"@
            &&& row.meta == joined(
                (if kind != ScheduleKind::Specific {
                    seq![kind_label(kind)]
                } else {
                    seq![]
                }) + (if trimmed(event.location).len() > 0 {
                    seq![event.location]
                } else {
                    seq![]
                }) + (if event.reminder_minutes.len() > 0 {
                    seq![reminder_text(event.reminder_minutes)]
                } else {
                    seq![]
                }) + (if event.force_reminder {
                    seq!["强制提醒"@]
                } else {
                    seq![]
                }),
                seq![' ', '·', ' '],
            )
        }),
{
    reveal_strlit("");
    reveal_strlit("-");
    reveal_strlit(" · ");
    reveal_strlit("提前");
    assert(" · "@ =~= seq![' ', '·', ' ']);
    assert("-"@ =~= seq!['-']);
    lemma_date_of_number(start);
    let kind = rule_kind(event.recurrence_rule);
    assert(overview_meta(event) =~= (if kind != ScheduleKind::Specific {
        seq![kind_label(kind)]
    } else {
        seq![]
    }) + (if trimmed(event.location).len() > 0 {
        seq![event.location]
    } else {
        seq![]
    }) + (if event.reminder_minutes.len() > 0 {
        seq![reminder_text(event.reminder_minutes)]
    } else {
        seq![]
    }) + (if event.force_reminder {
        seq!["强制提醒"@]
    } else {
        seq![]
    }));
}

/// The cell of a day says what day it is: its number, its lunar date, whether it belongs to the
/// month, is today, or is selected; and what the holidays make of it. A make-up workday is marked 班,
/// a rest day 休, and no day is both.
pub proof fn a_cell_tells_its_day(
    date: Date,
    holiday: Option<HolidayView>,
    events: Seq<EventView>,
    month: Date,
    today: Date,
    selected: Date,
)
    ensures
        ({
            let cell = cell_view(date, holiday, events, month, today, selected);
            &&& cell.date == date.written()
            &&& cell.day == decimal(date.day() as nat)
            &&& cell.lunar == lunar_label_text(lunar_date(date))
            &&& cell.in_month <==> date.month() == month.month()
            &&& cell.today <==> date == today
            &&& cell.selected <==> date == selected
            &&& holiday matches Some(h) ==> {
                &&& cell.off_day == h.is_off_day
                &&& cell.workday == !h.is_off_day
                &&& h.is_off_day ==> cell.day_kind == seq!['休']
                &&& !h.is_off_day ==> cell.day_kind == seq!['班']
                &&& h.name.len() > 0 ==> cell.holiday == h.name
            }
            &&& holiday is None ==> {
                &&& cell.off_day <==> date.number() % 7 == 6 || date.number() % 7 == 0
                &&& !cell.workday
                &&& cell.off_day ==> cell.day_kind == seq!['休']
                &&& !cell.off_day ==> cell.day_kind.len() == 0
            }
            &&& holiday is None || holiday.unwrap().name.len() == 0 ==> (match festival_text(
                lunar_date(date),
            ) {
                Some(name) => cell.holiday == name,
                None => cell.holiday.len() == 0,
            })
        }),
{
    reveal_strlit("班");
    reveal_strlit("休");
    reveal_strlit("");
    assert("班"@ =~= seq!['班']);
    assert("休"@ =~= seq!['休']);
}

/// The cell of a day names the first three of its events, one below the other, and no more.
pub proof fn a_cell_names_up_to_three_events(
    date: Date,
    holiday: Option<HolidayView>,
    events: Seq<EventView>,
    month: Date,
    today: Date,
    selected: Date,
)
    ensures
        ({
            let text = cell_view(date, holiday, events, month, today, selected).events;
            let on = events_on(events, date, off_of(holiday));
            let mark = seq!['•', ' '];
            let next = seq!['\n', '•', ' '];
            &&& on.len() == 0 ==> text.len() == 0
            &&& on.len() == 1 ==> text == mark + on[0].title
            &&& on.len() == 2 ==> text == mark + on[0].title + next + on[1].title
            &&& on.len() >= 3 ==> text == mark + on[0].title + next + on[1].title + next
                + on[2].title
        }),
{
    reveal_strlit("• ");
    reveal_strlit("\n");
    assert("• "@ =~= seq!['•', ' ']);
    assert("\n"@ =~= seq!['\n']);
    let on = events_on(events, date, off_of(holiday));
    let few = first_few(on, 3);
    let lines = bullets(few);
    let sep = "\n"@;
    assert(few.len() <= 3);
    reveal_with_fuel(joined, 4);
    let mark = seq!['•', ' '];
    let next = seq!['\n', '•', ' '];
    if on.len() == 1 {
        assert(few == on);
    } else if on.len() == 2 {
        assert(few == on);
        assert(lines.drop_last()[0] == lines[0]);
        assert(joined(lines, sep) =~= mark + on[0].title + next + on[1].title);
    } else if on.len() >= 3 {
        assert(few[0] == on[0] && few[1] == on[1] && few[2] == on[2]);
        let two = lines.drop_last();
        assert(two[0] == lines[0] && two[1] == lines[1]);
        assert(two.drop_last()[0] == lines[0]);
        assert(joined(two, sep) =~= mark + on[0].title + next + on[1].title);
        assert(joined(lines, sep) =~= mark + on[0].title + next + on[1].title + next
            + on[2].title);
    }
}

} // verus!
