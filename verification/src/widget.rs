//! The calendar on the desktop: its state, what it shows, and how it follows its users.
use crate::api_client::text_in;
use crate::calendar::{
    lemma_date_of_number, lunar_date, lunar_label, lunar_label_text, occurrence, occurrence_start,
    off_day,
};
use crate::date::{
    lemma_date_exists, lemma_number_determines_date, lemma_number_orders_dates, parsed_date,
    texts_order_dates, weekday_of, Date, MAX_DAY, MAX_YEAR, MIN_DAY, MIN_YEAR,
};
use crate::desktop::DesktopDragOrigin;
use crate::instant::date_of_number;
use crate::labels::{local_time, local_time_text};
use crate::models::{event_views, holiday_views, CalendarEvent, EventView, Holiday, HolidayView};
use crate::month::{
    first_on_sheet, has_month, has_sheet, month_day_label, month_day_text, month_index, sheet_start,
    shift_month, weekday_name, weekday_text, SHEET_DAYS,
};
use crate::render::{events_on, occurring, off_of};
use crate::repository::{
    answers, holidays_between_dates_are_complete, holidays_in, EventQuery, LocalRepository,
    RepositoryView,
};
use crate::text::{decimal, decimal_text, same_text};
use crate::tray::DesktopWidgetConfig;
use vstd::prelude::*;

verus! {

/// How many characters of an event's title fit into a cell, a title and a note into a row.
pub const CELL_CHARS: usize = 7;

pub const TITLE_CHARS: usize = 10;

pub const NOTES_CHARS: usize = 16;

/// After how many milliseconds the events are read again.
pub const REFRESH_MILLIS: u64 = 30_000;

/// For how many milliseconds the widget has to stand still before its place is saved.
pub const SETTLE_MILLIS: u64 = 350;

/// The first `max` characters of a text, with an ellipsis when there are more.
pub open spec fn truncated(s: Seq<char>, max: int) -> Seq<char> {
    if s.len() > max {
        s.take(max) + "…"@
    } else {
        s
    }
}

/// The first `max` characters of a text, with an ellipsis when there are more.
pub fn truncate_calendar_text(value: &str, max: usize) -> (r: String)
    ensures
        r@ == truncated(value@, max as int),
{
    if value.unicode_len() > max {
        let mut r = value.substring_char(0, max).to_owned();
        assert(r@ =~= value@.take(max as int));
        r.append("…");
        r
    } else {
        value.to_owned()
    }
}

/// What the widget is about.
#[derive(Debug)]
pub struct CalendarWidget {
    pub visible_month: Date,
    pub selected_date: Date,
    pub selected_event_id: Option<String>,
    pub events: Vec<CalendarEvent>,
    pub holidays: Vec<Holiday>,
    pub config: DesktopWidgetConfig,
    /// When the events were read, in milliseconds.
    pub last_refresh: u64,
    pub last_position: Option<(i32, i32)>,
    /// When the widget was last seen at another place, until that is saved.
    pub position_changed_at: Option<u64>,
    pub drag: Option<DesktopDragOrigin>,
    /// Whether the window has yet to be shown.
    pub show_pending: bool,
}

/// The contents of the widget's state.
#[verifier::ext_equal]
pub struct WidgetView {
    pub visible_month: Date,
    pub selected_date: Date,
    pub selected_event_id: Option<Seq<char>>,
    pub events: Seq<EventView>,
    pub holidays: Seq<HolidayView>,
    pub config: DesktopWidgetConfig,
    pub last_refresh: u64,
    pub last_position: Option<(i32, i32)>,
    pub position_changed_at: Option<u64>,
    pub drag: Option<DesktopDragOrigin>,
    pub show_pending: bool,
}

/// The widget with its lock turned; a widget that is locked is not dragged any more.
pub open spec fn lock_toggled(widget: WidgetView) -> WidgetView {
    WidgetView {
        config: DesktopWidgetConfig { locked: !widget.config.locked, ..widget.config },
        drag: if widget.config.locked {
            widget.drag
        } else {
            None
        },
        ..widget
    }
}

/// The widget after a drag began, unless it is locked.
pub open spec fn drag_begun(widget: WidgetView, origin: Option<DesktopDragOrigin>) -> WidgetView {
    WidgetView {
        drag: if widget.config.locked {
            widget.drag
        } else {
            origin
        },
        ..widget
    }
}

/// Whether the widget is to be painted again after a moment of a drag, and the widget then.
pub open spec fn drag_stepped(
    widget: WidgetView,
    held: bool,
    moved: Option<(i32, i32)>,
    now: u64,
) -> (bool, WidgetView) {
    if widget.drag is None {
        (false, widget)
    } else if !held {
        (true, WidgetView { drag: None, ..widget })
    } else if moved is Some {
        (true, WidgetView { last_position: moved, position_changed_at: Some(now), ..widget })
    } else {
        (false, widget)
    }
}

impl View for CalendarWidget {
    type V = WidgetView;

    open spec fn view(&self) -> WidgetView {
        WidgetView {
            visible_month: self.visible_month,
            selected_date: self.selected_date,
            selected_event_id: text_in(self.selected_event_id),
            events: event_views(self.events@),
            holidays: holiday_views(self.holidays@),
            config: self.config,
            last_refresh: self.last_refresh,
            last_position: self.last_position,
            position_changed_at: self.position_changed_at,
            drag: self.drag,
            show_pending: self.show_pending,
        }
    }
}

/// Whether the days around a month for which holidays are read belong to the calendar.
pub open spec fn has_room(month: Date) -> bool {
    MIN_DAY + 7 <= month.number() <= MAX_DAY - 48
}

/// Whether there is a month `delta` months from that of `date`, with room around it.
pub open spec fn has_room_at(date: Date, delta: int) -> bool {
    has_month(date, delta) && forall|month: Date| #[trigger]
        month.valid() && month.day() == 1 && month_index(month) == month_index(date) + delta
            ==> has_room(month)
}

/// Whether the widget shows what the repository held at `now`.
pub open spec fn refreshed(
    repository: RepositoryView,
    before: WidgetView,
    after: WidgetView,
    now: u64,
) -> bool {
    &&& answers(repository.events, EventQuery::Active, after.events)
    &&& holidays_in(
        repository.holidays,
        date_of_number(before.visible_month.number() - 7).written(),
        date_of_number(before.visible_month.number() + 48).written(),
        after.holidays,
    )
    &&& after == (WidgetView {
        events: after.events,
        holidays: after.holidays,
        last_refresh: now,
        ..before
    })
}

/// The record for a date among holiday records; the last one counts.
pub open spec fn holiday_on(holidays: Seq<HolidayView>, date: Date) -> Option<HolidayView>
    decreases holidays.len(),
{
    if holidays.len() == 0 {
        None
    } else if parsed_date(holidays.last().date) == Some((date.year(), date.month(), date.day())) {
        Some(holidays.last())
    } else {
        holiday_on(holidays.drop_last(), date)
    }
}

impl CalendarWidget {
    /// The widget as it starts on the day `today`.
    pub fn new(
        repository: &LocalRepository,
        today: Date,
        config: DesktopWidgetConfig,
        now: u64,
    ) -> (r: CalendarWidget)
        requires
            repository.wf(),
            has_room_at(today, 0),
        ensures
            r.visible_month.valid() && month_index(r.visible_month) == month_index(today)
                && r.visible_month.day() == 1,
            r.selected_date == today,
            r.selected_event_id is None,
            r.config == config,
            r.last_position is None,
            r.position_changed_at is None,
            r.drag is None,
            r.show_pending,
            refreshed(repository@, r@, r@, now),
    {
        let mut r = CalendarWidget {
            visible_month: today.first_of_month(),
            selected_date: today,
            selected_event_id: None,
            events: Vec::new(),
            holidays: Vec::new(),
            config,
            last_refresh: now,
            last_position: None,
            position_changed_at: None,
            drag: None,
            show_pending: true,
        };
        r.refresh_data(repository, now);
        r
    }

    /// Reads the events, and the holidays around the visible month.
    pub fn refresh_data(&mut self, repository: &LocalRepository, now: u64)
        requires
            repository.wf(),
            has_room(old(self).visible_month),
        ensures
            refreshed(repository@, old(self)@, final(self)@, now),
    {
        let start = self.visible_month.plus_days(-7).unwrap();
        let end = self.visible_month.plus_days(48).unwrap();
        proof {
            lemma_date_of_number(start);
            lemma_date_of_number(end);
        }
        self.events = repository.active_events();
        self.holidays = repository.holidays_between(start.text().as_str(), end.text().as_str());
        self.last_refresh = now;
    }

    /// Shows the month before the visible one.
    pub fn previous_month(&mut self, repository: &LocalRepository, now: u64)
        requires
            repository.wf(),
            has_room_at(old(self).visible_month, -1),
        ensures
            final(self).visible_month.valid() && final(self).visible_month.day() == 1,
            month_index(final(self).visible_month) == month_index(old(self).visible_month) - 1,
            refreshed(
                repository@,
                WidgetView { visible_month: final(self).visible_month, ..old(self)@ },
                final(self)@,
                now,
            ),
    {
        self.visible_month = shift_month(self.visible_month, -1);
        self.refresh_data(repository, now);
    }

    /// Shows the month after the visible one.
    pub fn next_month(&mut self, repository: &LocalRepository, now: u64)
        requires
            repository.wf(),
            has_room_at(old(self).visible_month, 1),
        ensures
            final(self).visible_month.valid() && final(self).visible_month.day() == 1,
            month_index(final(self).visible_month) == month_index(old(self).visible_month) + 1,
            refreshed(
                repository@,
                WidgetView { visible_month: final(self).visible_month, ..old(self)@ },
                final(self)@,
                now,
            ),
    {
        self.visible_month = shift_month(self.visible_month, 1);
        self.refresh_data(repository, now);
    }

    /// Shows and selects the present day.
    pub fn go_today(&mut self, repository: &LocalRepository, today: Date, now: u64)
        requires
            repository.wf(),
            has_room_at(today, 0),
        ensures
            final(self).visible_month.valid() && final(self).visible_month.day() == 1,
            month_index(final(self).visible_month) == month_index(today),
            refreshed(
                repository@,
                WidgetView {
                    visible_month: final(self).visible_month,
                    selected_date: today,
                    ..old(self)@
                },
                final(self)@,
                now,
            ),
    {
        self.visible_month = today.first_of_month();
        self.selected_date = today;
        self.refresh_data(repository, now);
    }

    /// Selects a day, and no event.
    pub fn select_day(&mut self, date: Date)
        ensures
            final(self)@ == (WidgetView {
                selected_date: date,
                selected_event_id: None,
                ..old(self)@
            }),
    {
        self.selected_date = date;
        self.selected_event_id = None;
    }

    /// Selects an event.
    pub fn select_event(&mut self, id: &str)
        ensures
            final(self)@ == (WidgetView { selected_event_id: Some(id@), ..old(self)@ }),
    {
        self.selected_event_id = Some(id.to_owned());
    }

    /// Lets the widget be moved, or not any more. The configuration is to be saved.
    pub fn toggle_lock(&mut self)
        ensures
            final(self)@ == lock_toggled(old(self)@),
    {
        self.config.locked = !self.config.locked;
        if self.config.locked {
            self.drag = None;
        }
    }

    /// What the lock says.
    pub fn lock_label(&self) -> (r: &'static str)
        ensures
            r@ == if self.config.locked {
                "已锁定"@
            } else {
                "可拖动"@
            },
    {
        if self.config.locked {
            "已锁定"
        } else {
            "可拖动"
        }
    }

    /// The record for a date among those that were read.
    fn find_holiday(&self, date: &Date) -> (r: Option<&Holiday>)
        ensures
            match r {
                Some(h) => holiday_on(self@.holidays, *date) == Some(h@),
                None => holiday_on(self@.holidays, *date) is None,
            },
            off_day(r) == off_of(holiday_on(self@.holidays, *date)),
    {
        let ghost all = self@.holidays;
        let mut i: usize = self.holidays.len();
        assert(all.take(i as int) =~= all);
        while i > 0
            invariant
                all == holiday_views(self.holidays@),
                i <= self.holidays@.len(),
                holiday_on(all.take(i as int), *date) == holiday_on(all, *date),
            decreases i,
        {
            i = i - 1;
            let ghost here = all.take(i + 1);
            assert(here.last() == self.holidays@[i as int]@);
            assert(here.drop_last() =~= all.take(i as int));
            if let Some(day) = Date::parse(self.holidays[i].date.as_str()) {
                let year: i32 = date.year();
                if day.year() == year && day.month() == date.month() && day.day() == date.day() {
                    return Some(&self.holidays[i]);
                }
            }
        }
        None
    }
}

/// Whether there is a month `delta` months from that of `date`, with room around it.
pub fn room_at(date: &Date, delta: i32) -> (r: bool)
    ensures
        r == has_room_at(*date, delta as int),
{
    let total: i64 = date.year() as i64 * 12 + date.month() as i64 - 1 + delta as i64;
    let year: i64 = total.checked_div_euclid(12).unwrap();
    if year < MIN_YEAR as i64 || year > MAX_YEAR as i64 {
        return false;
    }
    let month = shift_month(*date, delta);
    let n: i32 = month.day_number();
    proof {
        assert forall|other: Date| #[trigger]
            other.valid() && other.day() == 1 && month_index(other) == month_index(*date)
                + delta implies other == month by {
            assert(other.year() == month.year() && other.month() == month.month());
            lemma_number_determines_date(other, month);
        }
        assert(month.valid());
    }
    MIN_DAY + 7 <= n && n <= MAX_DAY - 48
}

/// How strongly a text of the widget shows.
#[derive(Clone, Copy, Debug, PartialEq, Eq, Structural)]
pub enum Shade {
    Ink,
    Coral,
    Muted,
    Faint,
}

/// What the cell of a day shows.
#[derive(Debug)]
pub struct WidgetCell {
    pub date: Date,
    pub selected: bool,
    pub day: String,
    pub day_shade: Shade,
    pub lunar: String,
    pub lunar_shade: Shade,
    pub event: Option<String>,
    pub event_shade: Shade,
    pub holiday: Option<&'static str>,
}

/// The contents of such a cell.
#[verifier::ext_equal]
pub struct WidgetCellView {
    pub date: Date,
    pub selected: bool,
    pub day: Seq<char>,
    pub day_shade: Shade,
    pub lunar: Seq<char>,
    pub lunar_shade: Shade,
    pub event: Option<Seq<char>>,
    pub event_shade: Shade,
    pub holiday: Option<Seq<char>>,
}

impl View for WidgetCell {
    type V = WidgetCellView;

    open spec fn view(&self) -> WidgetCellView {
        WidgetCellView {
            date: self.date,
            selected: self.selected,
            day: self.day@,
            day_shade: self.day_shade,
            lunar: self.lunar@,
            lunar_shade: self.lunar_shade,
            event: text_in(self.event),
            event_shade: self.event_shade,
            holiday: match self.holiday {
                Some(kind) => Some(kind@),
                None => None,
            },
        }
    }
}

/// What the cell of a date shows: the days of other months are faint, and weekends stand out.
pub open spec fn widget_cell(widget: WidgetView, date: Date) -> WidgetCellView {
    let in_month = date.month() == widget.visible_month.month();
    let holiday = holiday_on(widget.holidays, date);
    let events = events_on(widget.events, date, off_of(holiday));
    WidgetCellView {
        date,
        selected: date == widget.selected_date,
        day: decimal(date.day() as nat),
        day_shade: if !in_month {
            Shade::Faint
        } else if weekday_of(date.number()) >= 5 {
            Shade::Coral
        } else {
            Shade::Ink
        },
        lunar: lunar_label_text(lunar_date(date)),
        lunar_shade: if in_month {
            Shade::Muted
        } else {
            Shade::Faint
        },
        event: if events.len() > 0 {
            Some("• "@ + truncated(events[0].title, CELL_CHARS as int))
        } else {
            None
        },
        event_shade: if in_month {
            Shade::Ink
        } else {
            Shade::Faint
        },
        holiday: match holiday {
            Some(h) => Some(
                if h.is_off_day {
                    "休"@
                } else {
                    "班"@
                },
            ),
            None => None,
        },
    }
}

/// What the widget shows of one event on the selected day.
#[derive(Debug)]
pub struct DetailRow {
    pub id: String,
    pub title: String,
    pub notes: Option<String>,
    pub time: String,
    pub selected: bool,
}

/// The contents of such a row.
#[verifier::ext_equal]
pub struct DetailView {
    pub id: Seq<char>,
    pub title: Seq<char>,
    pub notes: Option<Seq<char>>,
    pub time: Seq<char>,
    pub selected: bool,
}

impl View for DetailRow {
    type V = DetailView;

    open spec fn view(&self) -> DetailView {
        DetailView {
            id: self.id@,
            title: self.title@,
            notes: text_in(self.notes),
            time: self.time@,
            selected: self.selected,
        }
    }
}

/// What the row of an event shows.
pub open spec fn detail_of(widget: WidgetView, event: EventView) -> DetailView {
    DetailView {
        id: event.id,
        title: truncated(event.title, TITLE_CHARS as int),
        notes: if event.notes.len() > 0 {
            Some(truncated(event.notes, NOTES_CHARS as int))
        } else {
            None
        },
        time: local_time_text(
            match occurrence(event, widget.selected_date) {
                Some(t) => t,
                None => event.start_at,
            },
        ),
        selected: widget.selected_event_id == Some(event.id),
    }
}

impl CalendarWidget {
    /// The cell of a date.
    fn cell(&self, date: Date) -> (r: WidgetCell)
        ensures
            r@ == widget_cell(self@, date),
    {
        let holiday = self.find_holiday(&date);
        let found = occurring(&self.events, date, holiday);
        let in_month: bool = date.month() == self.visible_month.month();
        let event = if found.len() > 0 {
            let mut line = "• ".to_owned();
            assert(found@[0] < self.events@.len());
            line.append(
                truncate_calendar_text(self.events[found[0]].title.as_str(), CELL_CHARS).as_str(),
            );
            Some(line)
        } else {
            None
        };
        let kind = match holiday {
            Some(h) => Some(
                if h.is_off_day {
                    "休"
                } else {
                    "班"
                },
            ),
            None => None,
        };
        WidgetCell {
            date,
            selected: date.same_day(&self.selected_date),
            day: decimal_text(date.day() as u64),
            day_shade: if !in_month {
                Shade::Faint
            } else if date.weekday() >= 5 {
                Shade::Coral
            } else {
                Shade::Ink
            },
            lunar: lunar_label(date),
            lunar_shade: if in_month {
                Shade::Muted
            } else {
                Shade::Faint
            },
            event,
            event_shade: if in_month {
                Shade::Ink
            } else {
                Shade::Faint
            },
            holiday: kind,
        }
    }

    /// The cells of the sheet of the visible month, week by week from Monday to Sunday.
    pub fn calendar(&self) -> (r: Vec<WidgetCell>)
        requires
            has_sheet(self.visible_month),
        ensures
            r@.len() == SHEET_DAYS,
            forall|i: int|
                0 <= i < SHEET_DAYS ==> (#[trigger] r@[i])@ == widget_cell(
                    self@,
                    date_of_number(sheet_start(self.visible_month) + i),
                ),
    {
        let start = first_on_sheet(&self.visible_month);
        let mut r: Vec<WidgetCell> = Vec::new();
        let mut i: i64 = 0;
        while i < SHEET_DAYS
            invariant
                0 <= i <= SHEET_DAYS,
                has_sheet(self.visible_month),
                start.number() == sheet_start(self.visible_month),
                r@.len() == i,
                forall|k: int|
                    0 <= k < i ==> (#[trigger] r@[k])@ == widget_cell(
                        self@,
                        date_of_number(sheet_start(self.visible_month) + k),
                    ),
            decreases SHEET_DAYS - i,
        {
            let date = start.plus_days(i).unwrap();
            proof {
                lemma_date_of_number(date);
            }
            r.push(self.cell(date));
            i = i + 1;
        }
        r
    }

    /// The title of the selected day.
    pub fn details_title(&self) -> (r: String)
        ensures
            r@ == month_day_text(self.selected_date) + " · "@ + weekday_text(
                weekday_of(self.selected_date.number()),
            ),
    {
        let mut r = month_day_label(&self.selected_date);
        r.append(" · ");
        r.append(weekday_name(self.selected_date.weekday()));
        r
    }

    /// The row of an event.
    fn detail(&self, event: &CalendarEvent) -> (r: DetailRow)
        ensures
            r@ == detail_of(self@, event@),
    {
        let time = match occurrence_start(event, self.selected_date) {
            Ok(t) => t,
            Err(_) => event.start_at,
        };
        let notes = if event.notes.as_str().is_empty() {
            None
        } else {
            Some(truncate_calendar_text(event.notes.as_str(), NOTES_CHARS))
        };
        let selected: bool = match &self.selected_event_id {
            Some(id) => same_text(id.as_str(), event.id.as_str()),
            None => false,
        };
        DetailRow {
            id: event.id.clone(),
            title: truncate_calendar_text(event.title.as_str(), TITLE_CHARS),
            notes,
            time: local_time(&time),
            selected,
        }
    }

    /// The rows of the events on the selected day.
    pub fn details(&self) -> (r: Vec<DetailRow>)
        ensures
            ({
                let events = events_on(
                    self@.events,
                    self.selected_date,
                    off_of(holiday_on(self@.holidays, self.selected_date)),
                );
                r@.len() == events.len() && forall|i: int|
                    0 <= i < events.len() ==> (#[trigger] r@[i])@ == detail_of(self@, events[i])
            }),
    {
        let holiday = self.find_holiday(&self.selected_date);
        let found = occurring(&self.events, self.selected_date, holiday);
        let ghost here = events_on(self@.events, self.selected_date, off_day(holiday));
        let mut r: Vec<DetailRow> = Vec::new();
        let mut i: usize = 0;
        while i < found.len()
            invariant
                i <= found@.len(),
                found@.len() == here.len(),
                forall|k: int|
                    0 <= k < found@.len() ==> (#[trigger] found@[k]) < self.events@.len()
                        && self.events@[found@[k] as int]@ == here[k],
                r@.len() == i,
                forall|k: int| 0 <= k < i ==> (#[trigger] r@[k])@ == detail_of(self@, here[k]),
            decreases found@.len() - i,
        {
            assert(self.events@[found@[i as int] as int]@ == here[i as int]);
            r.push(self.detail(&self.events[found[i]]));
            i = i + 1;
        }
        r
    }
}

/// A request of the widget to the main program.
#[derive(Debug)]
pub struct WidgetCommand {
    pub action: &'static str,
    pub event_id: Option<String>,
    /// When it was made, in milliseconds.
    pub created_at: i64,
}

/// What a moment of the widget asks for.
#[derive(Clone, Copy, Debug, PartialEq, Eq, Structural)]
pub struct Tick {
    /// To close the widget; nothing else is asked for then.
    pub close: bool,
    /// To read the events again.
    pub refresh: bool,
    /// To save the configuration.
    pub save: bool,
    /// After how many milliseconds the next moment is.
    pub next_millis: u64,
}

/// Whether `millis` have passed from `since` to `now`.
pub open spec fn passed(since: u64, now: u64, millis: u64) -> bool {
    now >= since + millis
}

/// Whether `millis` have passed from `since` to `now`.
fn has_passed(since: u64, now: u64, millis: u64) -> (r: bool)
    requires
        millis > 0,
    ensures
        r == passed(since, now, millis),
{
    now >= since && now - since >= millis
}

/// When the widget was last seen at another place than before.
pub open spec fn moved_at(
    widget: WidgetView,
    now: u64,
    position: Option<(i32, i32)>,
) -> Option<u64> {
    if position is Some && position != widget.last_position {
        Some(now)
    } else {
        widget.position_changed_at
    }
}

/// Where the widget was last seen.
pub open spec fn seen_at(widget: WidgetView, position: Option<(i32, i32)>) -> Option<(i32, i32)> {
    if position is Some {
        position
    } else {
        widget.last_position
    }
}

/// Whether the place of the widget is to be saved.
pub open spec fn settled(widget: WidgetView, now: u64, position: Option<(i32, i32)>) -> bool {
    &&& moved_at(widget, now, position) matches Some(since) && passed(since, now, SETTLE_MILLIS)
    &&& seen_at(widget, position) is Some
}

/// After how many milliseconds the widget is looked at again: sooner while it is dragged.
pub open spec fn tick_millis(widget: WidgetView) -> u64 {
    if widget.drag is Some {
        8
    } else {
        16
    }
}

/// The widget after a moment at which it stood at `position`.
pub open spec fn after_tick(
    widget: WidgetView,
    now: u64,
    position: Option<(i32, i32)>,
) -> WidgetView {
    let save = settled(widget, now, position);
    WidgetView {
        last_position: seen_at(widget, position),
        position_changed_at: if save {
            None
        } else {
            moved_at(widget, now, position)
        },
        config: if save {
            DesktopWidgetConfig {
                x: Some(seen_at(widget, position).unwrap().0),
                y: Some(seen_at(widget, position).unwrap().1),
                ..widget.config
            }
        } else {
            widget.config
        },
        ..widget
    }
}

impl CalendarWidget {
    /// The request to open the main program.
    pub fn open_command(&self, now: i64) -> (r: WidgetCommand)
        ensures
            r.action@ == "open"@ && r.event_id is None && r.created_at == now,
    {
        WidgetCommand { action: "open", event_id: None, created_at: now }
    }

    /// The request to edit the selected event, if there is one.
    pub fn edit_command(&self, now: i64) -> (r: Option<WidgetCommand>)
        ensures
            match r {
                Some(command) => command.action@ == "edit"@ && text_in(command.event_id)
                    == self@.selected_event_id && command.event_id is Some && command.created_at
                    == now,
                None => self@.selected_event_id is None,
            },
    {
        match &self.selected_event_id {
            Some(id) => Some(
                WidgetCommand { action: "edit", event_id: Some(id.clone()), created_at: now },
            ),
            None => None,
        }
    }

    /// A drag begins at `origin`, unless the widget is locked.
    pub fn begin_drag(&mut self, origin: Option<DesktopDragOrigin>)
        ensures
            final(self)@ == drag_begun(old(self)@, origin),
    {
        if !self.config.locked {
            self.drag = origin;
        }
    }

    /// A moment of a drag: `moved` is where the widget was dragged to, if it was, while the button
    /// is held. Returns whether the widget is to be painted at once.
    pub fn drag_step(&mut self, held: bool, moved: Option<(i32, i32)>, now: u64) -> (repaint: bool)
        ensures
            (repaint, final(self)@) == drag_stepped(old(self)@, held, moved, now),
    {
        if self.drag.is_none() {
            return false;
        }
        if !held {
            self.drag = None;
            return true;
        }
        if moved.is_some() {
            self.last_position = moved;
            self.position_changed_at = Some(now);
            return true;
        }
        false
    }

    /// Whether the window is to be shown for the first time: its background and its shape are
    /// ready.
    pub fn take_first_show(&mut self, backdrop_ready: bool, window_ready: bool) -> (show: bool)
        ensures
            show == (old(self).show_pending && backdrop_ready && window_ready),
            final(self)@ == (WidgetView {
                show_pending: old(self).show_pending && !show,
                ..old(self)@
            }),
    {
        let show: bool = self.show_pending && backdrop_ready && window_ready;
        if show {
            self.show_pending = false;
        }
        show
    }

    /// A moment of the widget, which stands at `position`; `exit` says whether it was asked to
    /// close. Its place is saved once it stands still.
    pub fn tick(&mut self, exit: bool, now: u64, position: Option<(i32, i32)>) -> (r: Tick)
        ensures
            r.close == exit,
            exit ==> !r.refresh && !r.save && final(self)@ == old(self)@,
            !exit ==> {
                &&& r.refresh == passed(old(self).last_refresh, now, REFRESH_MILLIS)
                &&& r.save == settled(old(self)@, now, position)
                &&& r.next_millis == tick_millis(old(self)@)
                &&& final(self)@ == after_tick(old(self)@, now, position)
            },
    {
        if exit {
            return Tick { close: true, refresh: false, save: false, next_millis: 16 };
        }
        let refresh: bool = has_passed(self.last_refresh, now, REFRESH_MILLIS);
        if let Some((x, y)) = position {
            let same: bool = match self.last_position {
                Some((a, b)) => a == x && b == y,
                None => false,
            };
            if !same {
                self.last_position = Some((x, y));
                self.position_changed_at = Some(now);
            }
        }
        let still: bool = match self.position_changed_at {
            Some(since) => has_passed(since, now, SETTLE_MILLIS),
            None => false,
        };
        let mut save: bool = false;
        if still {
            if let Some((x, y)) = self.last_position {
                self.config.x = Some(x);
                self.config.y = Some(y);
                self.position_changed_at = None;
                save = true;
            }
        }
        let next_millis: u64 = if self.drag.is_some() {
            8
        } else {
            16
        };
        Tick { close: false, refresh, save, next_millis }
    }
}

/// The blurred picture behind the widget, which is made in the background.
#[derive(Clone, Copy, Debug, PartialEq, Eq, Structural)]
pub enum Backdrop {
    Waiting,
    Ready,
    Failed,
}

/// What a look at the work in the background gave.
#[derive(Clone, Copy, Debug, PartialEq, Eq, Structural)]
pub enum BackdropNews {
    Nothing,
    Picture,
    Failure,
    Disconnected,
}

impl Backdrop {
    /// The picture's state after a look; what is ready or failed stays so.
    pub fn poll(self, news: BackdropNews) -> (r: Backdrop)
        ensures
            r == (if self is Waiting {
                match news {
                    BackdropNews::Nothing => Backdrop::Waiting,
                    BackdropNews::Picture => Backdrop::Ready,
                    BackdropNews::Failure => Backdrop::Failed,
                    BackdropNews::Disconnected => Backdrop::Failed,
                }
            } else {
                self
            }),
    {
        match self {
            Backdrop::Waiting => match news {
                BackdropNews::Nothing => Backdrop::Waiting,
                BackdropNews::Picture => Backdrop::Ready,
                BackdropNews::Failure => Backdrop::Failed,
                BackdropNews::Disconnected => Backdrop::Failed,
            },
            other => other,
        }
    }
}

/// A place is saved once: when no move waits to be saved, none is saved until the widget is seen
/// somewhere else.
pub proof fn a_place_is_saved_once(widget: WidgetView, now: u64, position: Option<(i32, i32)>)
    requires
        widget.position_changed_at is None,
        position is None || position == widget.last_position,
    ensures
        !settled(widget, now, position),
{
}

/// A place that keeps changing is not saved.
pub proof fn a_moving_widget_is_not_saved(widget: WidgetView, now: u64, position: (i32, i32))
    requires
        widget.last_position != Some(position),
    ensures
        !settled(widget, now, Some(position)),
{
}

/// A text that fits is shown whole; of a longer one as many characters as fit are shown, and an
/// ellipsis.
pub proof fn a_long_text_is_cut(s: Seq<char>, max: int)
    requires
        0 <= max,
    ensures
        s.len() <= max ==> truncated(s, max) == s,
        s.len() > max ==> truncated(s, max).len() == max + 1 && truncated(s, max).last() == '…'
            && truncated(s, max).drop_last() == s.take(max),
{
    reveal_strlit("…");
    if s.len() > max {
        assert(truncated(s, max).drop_last() =~= s.take(max));
    }
}

/// The record that the widget has for a date is one of those that were read, and is for that date;
/// if one of them is, there is a record.
pub proof fn a_record_is_found_on_its_date(holidays: Seq<HolidayView>, date: Date)
    ensures
        match holiday_on(holidays, date) {
            Some(h) => holidays.contains(h) && parsed_date(h.date) == Some(
                (date.year(), date.month(), date.day()),
            ),
            None => forall|i: int|
                0 <= i < holidays.len() ==> parsed_date((#[trigger] holidays[i]).date) != Some(
                    (date.year(), date.month(), date.day()),
                ),
        },
    decreases holidays.len(),
{
    if holidays.len() > 0 {
        let shorter = holidays.drop_last();
        a_record_is_found_on_its_date(shorter, date);
        assert(holidays[holidays.len() - 1] == holidays.last());
        match holiday_on(shorter, date) {
            Some(h) => {
                let k = choose|k: int| 0 <= k < shorter.len() && shorter[k] == h;
                assert(holidays[k] == h);
            },
            None => {
                assert forall|i: int| 0 <= i < shorter.len() implies parsed_date(
                    (#[trigger] holidays[i]).date,
                ) != Some((date.year(), date.month(), date.day())) by {
                    assert(shorter[i] == holidays[i]);
                }
            },
        }
    }
}

/// A cell of the widget says what day it is and names its first event; a record marks it 休 or 班.
/// The days of other months are faint, and of those of the month the weekends stand out.
pub proof fn a_widget_cell_tells_its_day(widget: WidgetView, date: Date)
    ensures
        ({
            let cell = widget_cell(widget, date);
            let record = holiday_on(widget.holidays, date);
            let on = events_on(widget.events, date, off_of(record));
            let within = date.month() == widget.visible_month.month();
            let weekend = date.number() % 7 == 6 || date.number() % 7 == 0;
            &&& cell.date == date
            &&& cell.selected <==> date == widget.selected_date
            &&& cell.day == decimal(date.day() as nat)
            &&& cell.lunar == lunar_label_text(lunar_date(date))
            &&& on.len() == 0 <==> cell.event is None
            &&& on.len() > 0 && on[0].title.len() <= 7 ==> cell.event == Some(
                seq!['•', ' '] + on[0].title,
            )
            &&& on.len() > 0 && on[0].title.len() > 7 ==> cell.event == Some(
                seq!['•', ' '] + on[0].title.take(7) + seq!['…'],
            )
            &&& record matches Some(h) ==> cell.holiday == Some(
                if h.is_off_day {
                    seq!['休']
                } else {
                    seq!['班']
                },
            )
            &&& record is None ==> cell.holiday is None
            &&& cell.day_shade is Faint <==> !within
            &&& cell.lunar_shade is Faint <==> !within
            &&& cell.event_shade is Faint <==> !within
            &&& cell.day_shade is Coral <==> within && weekend
            &&& cell.day_shade is Ink <==> within && !weekend
        }),
{
    reveal_strlit("• ");
    reveal_strlit("…");
    reveal_strlit("休");
    reveal_strlit("班");
    assert("• "@ =~= seq!['•', ' ']);
    assert("…"@ =~= seq!['…']);
    assert("休"@ =~= seq!['休']);
    assert("班"@ =~= seq!['班']);
    let on = events_on(widget.events, date, off_of(holiday_on(widget.holidays, date)));
    if on.len() > 0 && on[0].title.len() > 7 {
        assert(seq!['•', ' '] + (on[0].title.take(7) + seq!['…']) =~= seq!['•', ' ']
            + on[0].title.take(7) + seq!['…']);
    }
}

/// A row of the widget tells its event: the beginning of its title and of its notes, the time of day
/// of its occurrence on the selected day, and whether it is the selected one.
pub proof fn a_widget_row_tells_its_event(widget: WidgetView, event: EventView)
    ensures
        ({
            let row = detail_of(widget, event);
            &&& row.id == event.id
            &&& event.title.len() <= 10 ==> row.title == event.title
            &&& event.title.len() > 10 ==> row.title == event.title.take(10) + seq!['…']
            &&& row.notes is None <==> event.notes.len() == 0
            &&& 0 < event.notes.len() <= 16 ==> row.notes == Some(event.notes)
            &&& event.notes.len() > 16 ==> row.notes == Some(event.notes.take(16) + seq!['…'])
            &&& row.time == match occurrence(event, widget.selected_date) {
                Some(t) => local_time_text(t),
                None => local_time_text(event.start_at),
            }
            &&& row.selected <==> widget.selected_event_id == Some(event.id)
        }),
{
    reveal_strlit("…");
    assert("…"@ =~= seq!['…']);
}

/// The events are read again when thirty seconds have passed, and not before.
pub proof fn the_events_are_read_every_thirty_seconds(widget: WidgetView, now: u64)
    ensures
        passed(widget.last_refresh, now, REFRESH_MILLIS) <==> now - widget.last_refresh >= 30_000,
{
}

/// A widget that was seen at another place and then stands still is saved there once 350
/// milliseconds have passed, and not before; its place in the configuration is where it stands, and
/// nothing else of the configuration changes.
pub proof fn a_place_is_saved_when_the_widget_stands_still(
    widget: WidgetView,
    since: u64,
    now: u64,
    place: (i32, i32),
)
    requires
        widget.position_changed_at == Some(since),
        widget.last_position == Some(place),
    ensures
        settled(widget, now, Some(place)) <==> now >= since + 350,
        settled(widget, now, Some(place)) == settled(widget, now, None),
        now >= since + 350 ==> {
            let after = after_tick(widget, now, Some(place));
            &&& after.config.x == Some(place.0) && after.config.y == Some(place.1)
            &&& after.config.locked == widget.config.locked
            &&& after.position_changed_at is None
            &&& after.last_position == Some(place)
        },
        now < since + 350 ==> after_tick(widget, now, Some(place)) == widget,
{
}

/// A moment of the widget turns no page and selects nothing; it notes where the widget was seen and
/// since when.
pub proof fn a_moment_changes_only_the_place(
    widget: WidgetView,
    now: u64,
    position: Option<(i32, i32)>,
)
    ensures
        ({
            let after = after_tick(widget, now, position);
            &&& after.visible_month == widget.visible_month
            &&& after.selected_date == widget.selected_date
            &&& after.selected_event_id == widget.selected_event_id
            &&& after.events == widget.events && after.holidays == widget.holidays
            &&& after.last_refresh == widget.last_refresh && after.drag == widget.drag
            &&& after.show_pending == widget.show_pending
            &&& position is Some ==> after.last_position == position
            &&& position is None ==> after.last_position == widget.last_position
            &&& position is Some && position != widget.last_position ==> after.position_changed_at
                == Some(now) && after.config == widget.config
        }),
        tick_millis(widget) < 20,
        widget.drag is Some ==> tick_millis(widget) == 8,
        widget.drag is None ==> tick_millis(widget) == 16,
{
}

/// With its events the widget reads the holiday records from a week before the visible month to
/// seven weeks after its first day, all of them and no others, in years of four digits.
pub proof fn a_refresh_reads_the_records_around_the_month(
    repository: RepositoryView,
    before: WidgetView,
    after: WidgetView,
    now: u64,
    date: Date,
)
    requires
        refreshed(repository, before, after, now),
        date.valid(),
        0 <= date.year() <= 9999,
        MIN_DAY <= before.visible_month.number() - 7,
        before.visible_month.number() + 48 <= MAX_DAY,
        0 <= date_of_number(before.visible_month.number() - 7).year(),
        date_of_number(before.visible_month.number() + 48).year() <= 9999,
        repository.holidays.contains_key(date.written()),
        repository.holidays[date.written()].date == date.written(),
    ensures
        after.holidays.contains(repository.holidays[date.written()]) <==> -7 <= date.number()
            - before.visible_month.number() <= 48,
        after.last_refresh == now,
        after.visible_month == before.visible_month,
        after.last_position == before.last_position,
{
    let first = date_of_number(before.visible_month.number() - 7);
    let last = date_of_number(before.visible_month.number() + 48);
    lemma_date_exists(before.visible_month.number() - 7);
    lemma_date_exists(before.visible_month.number() + 48);
    lemma_number_orders_dates(first, last);
    if first.number() <= date.number() {
        lemma_number_orders_dates(first, date);
        texts_order_dates(first, date);
    } else {
        lemma_number_orders_dates(date, first);
        texts_order_dates(date, first);
    }
    if date.number() <= last.number() {
        lemma_number_orders_dates(date, last);
        texts_order_dates(date, last);
    } else {
        lemma_number_orders_dates(last, date);
        texts_order_dates(last, date);
    }
    holidays_between_dates_are_complete(
        repository.holidays,
        first.written(),
        last.written(),
        after.holidays,
        date.written(),
    );
}

/// A widget that is locked in its place is not dragged: none begins a drag, and locking one ends
/// the drag that is on. Locking and unlocking lead back to each other, and change nothing else of
/// the settings.
pub proof fn a_locked_widget_is_not_dragged(widget: WidgetView, origin: Option<DesktopDragOrigin>)
    ensures
        widget.config.locked ==> drag_begun(widget, origin) == widget,
        !widget.config.locked ==> drag_begun(widget, origin).drag == origin,
        lock_toggled(widget).config.locked == !widget.config.locked,
        lock_toggled(widget).config.locked ==> lock_toggled(widget).drag is None,
        lock_toggled(lock_toggled(widget)).config == widget.config,
        lock_toggled(widget).last_position == widget.last_position,
        drag_begun(widget, origin).config == widget.config,
{
}

/// While the button is held a dragged widget is where it was moved to, and counts as moved just
/// now; with the button the drag ends, where the widget is. Without a drag nothing moves.
pub proof fn a_drag_ends_with_the_button(
    widget: WidgetView,
    held: bool,
    moved: Option<(i32, i32)>,
    now: u64,
)
    ensures
        ({
            let (repaint, after) = drag_stepped(widget, held, moved, now);
            &&& widget.drag is None ==> !repaint && after == widget
            &&& widget.drag is Some && !held ==> repaint && after.drag is None
                && after.last_position == widget.last_position && after.position_changed_at
                == widget.position_changed_at
            &&& widget.drag is Some && held ==> after.drag == widget.drag
            &&& widget.drag is Some && held && moved is Some ==> repaint && after.last_position
                == moved && after.position_changed_at == Some(now)
            &&& widget.drag is Some && held && moved is None ==> !repaint && after == widget
            &&& after.config == widget.config && after.events == widget.events
        }),
{
}

} // verus!
