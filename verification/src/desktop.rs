//! The state of the calendar window and of the desktop widget, and what they show.
use crate::api_client::text_in;
use crate::calendar::{lemma_date_of_number, off_day};
use crate::date::{
    lemma_date_exists, lemma_number_orders_dates, texts_order_dates, weekday_of, Date,
};
use crate::instant::date_of_number;
use crate::labels::{
    filled, join_filled, local_time_text, reminder_summary, reminder_text, time_label,
    time_or_all_day,
};
use crate::models::{event_views, CalendarEvent, EventView, Holiday, HolidayView};
use crate::month::{
    a_sheet_shows_the_whole_month, first_on_sheet, has_sheet, month_day_label, month_day_text, month_title, month_title_text,
    sheet_start, weekday_name, weekday_text, SHEET_DAYS,
};
use crate::render::{
    cell_view, day_cell, event_row, event_row_view, events_on, holiday_between,
    lemma_filled_three, occurring, off_of,
    overview_event_row, overview_row_view, row_views, DayCell, EventRow, RowView,
};
use crate::repository::{answers, read_event, EventQuery, LocalRepository, RepositoryView};
use crate::sync::{conflict_views, ConflictView, SyncConflict};
use crate::text::{joined, text_before, trim, trimmed, views};
use std::collections::VecDeque;
use vstd::prelude::*;

verus! {

/// Where a window and the cursor were when a drag began.
#[derive(Clone, Copy, Debug)]
pub struct DesktopDragOrigin {
    pub cursor: (i32, i32),
    pub window: (i32, i32),
}

/// What the windows are about.
#[derive(Debug)]
pub struct UiState {
    pub visible_month: Date,
    pub selected_date: Date,
    pub selected_event_id: Option<String>,
    pub calendar_view: i32,
    pub token: Option<String>,
    pub email: Option<String>,
    pub sync_conflicts: VecDeque<SyncConflict>,
    pub widget_preview_event_id: Option<String>,
    pub pending_sync_cursor: Option<i64>,
    pub sync_in_progress: bool,
    pub desktop_drag_origin: Option<DesktopDragOrigin>,
}

/// The contents of the state.
#[verifier::ext_equal]
pub struct UiView {
    pub visible_month: Date,
    pub selected_date: Date,
    pub selected_event_id: Option<Seq<char>>,
    pub calendar_view: i32,
    pub token: Option<Seq<char>>,
    pub email: Option<Seq<char>>,
    pub sync_conflicts: Seq<ConflictView>,
    pub widget_preview_event_id: Option<Seq<char>>,
    pub pending_sync_cursor: Option<i64>,
    pub sync_in_progress: bool,
    pub desktop_drag_origin: Option<DesktopDragOrigin>,
}

impl View for UiState {
    type V = UiView;

    open spec fn view(&self) -> UiView {
        UiView {
            visible_month: self.visible_month,
            selected_date: self.selected_date,
            selected_event_id: text_in(self.selected_event_id),
            calendar_view: self.calendar_view,
            token: text_in(self.token),
            email: text_in(self.email),
            sync_conflicts: conflict_views(self.sync_conflicts@),
            widget_preview_event_id: text_in(self.widget_preview_event_id),
            pending_sync_cursor: self.pending_sync_cursor,
            sync_in_progress: self.sync_in_progress,
            desktop_drag_origin: self.desktop_drag_origin,
        }
    }
}

/// The view of the calendar that lists what is completed.
pub const COMPLETED_VIEW: i32 = 3;

/// What the calendar window shows.
#[derive(Debug)]
pub struct CalendarPage {
    pub weeks: Vec<Vec<DayCell>>,
    pub selected_events: Vec<EventRow>,
    pub overview_events: Vec<EventRow>,
    pub calendar_view: i32,
    pub overview_title: String,
    pub overview_empty: String,
    pub month_title: String,
    pub selected_date_title: String,
    pub signed_in: bool,
    pub user_label: String,
    pub selected_event_id: String,
}

/// The holiday record that the sheet of `month` shows for a date.
pub open spec fn sheet_holiday(
    repository: RepositoryView,
    month: Date,
    date: Date,
) -> Option<HolidayView> {
    holiday_between(
        repository.holidays,
        date_of_number(sheet_start(month)).written(),
        date_of_number(sheet_start(month) + SHEET_DAYS - 1).written(),
        date.written(),
    )
}

/// The events of the overview: all, or the completed ones.
pub open spec fn overview_of(events: Seq<EventView>, calendar_view: i32) -> Seq<EventView> {
    events.filter(|e: EventView| calendar_view != COMPLETED_VIEW || e.completed)
}

/// The rows of some events on a date.
pub open spec fn rows_on(events: Seq<EventView>, date: Date) -> Seq<RowView> {
    Seq::new(events.len(), |i: int| event_row_view(events[i], date))
}

/// The rows of some events in the overview.
pub open spec fn overview_rows(events: Seq<EventView>) -> Seq<RowView> {
    Seq::new(events.len(), |i: int| overview_row_view(events[i]))
}

/// Whether `week` is week `w` on the sheet of the visible month.
pub open spec fn shows_week(
    repository: RepositoryView,
    events: Seq<EventView>,
    ui: UiView,
    today: Date,
    w: int,
    week: Seq<DayCell>,
) -> bool {
    week.len() == 7 && forall|d: int|
        0 <= d < 7 ==> {
            let date = date_of_number(sheet_start(ui.visible_month) + 7 * w + d);
            (#[trigger] week[d])@ == cell_view(
                date,
                sheet_holiday(repository, ui.visible_month, date),
                events,
                ui.visible_month,
                today,
                ui.selected_date,
            )
        }
}

/// Whether `weeks` are the six weeks on the sheet of the visible month.
pub open spec fn shows_sheet(
    repository: RepositoryView,
    events: Seq<EventView>,
    ui: UiView,
    today: Date,
    weeks: Seq<Vec<DayCell>>,
) -> bool {
    weeks.len() == 6 && forall|w: int|
        0 <= w < 6 ==> shows_week(repository, events, ui, today, w, (#[trigger] weeks[w])@)
}

/// Whether `page` shows the state of window and repository, with these active events.
pub open spec fn shows(
    repository: RepositoryView,
    events: Seq<EventView>,
    ui: UiView,
    today: Date,
    page: CalendarPage,
) -> bool {
    &&& shows_sheet(repository, events, ui, today, page.weeks@)
    &&& row_views(page.selected_events@) == rows_on(
        events_on(
            events,
            ui.selected_date,
            off_of(sheet_holiday(repository, ui.visible_month, ui.selected_date)),
        ),
        ui.selected_date,
    )
    &&& row_views(page.overview_events@) == overview_rows(overview_of(events, ui.calendar_view))
    &&& page.calendar_view == ui.calendar_view
    &&& page.overview_title@ == if ui.calendar_view == COMPLETED_VIEW {
        "已完成"@
    } else {
        "全部日程"@
    }
    &&& page.overview_empty@ == if ui.calendar_view == COMPLETED_VIEW {
        "还没有已完成的日程"@
    } else {
        "还没有日程，点击左上角新建"@
    }
    &&& page.month_title@ == month_title_text(ui.visible_month)
    &&& page.selected_date_title@ == month_day_text(ui.selected_date) + " · "@ + weekday_text(
        weekday_of(ui.selected_date.number()),
    )
    &&& page.signed_in == ui.token is Some
    &&& page.user_label@ == match ui.email {
        Some(email) => email,
        None => "登录 / 注册"@,
    }
    &&& page.selected_event_id@ == match ui.selected_event_id {
        Some(id) => id,
        None => ""@,
    }
}

/// The holiday record for `date` among those from `first` to `last`.
fn find_holiday<'a>(
    repository: &'a LocalRepository,
    first: &str,
    last: &str,
    date: &Date,
) -> (r: Option<&'a Holiday>)
    requires
        repository.wf(),
    ensures
        match r {
            Some(h) => holiday_between(repository@.holidays, first@, last@, date.written()) == Some(
                h@,
            ),
            None => holiday_between(repository@.holidays, first@, last@, date.written()) is None,
        },
{
    let text = date.text();
    if text_before(text.as_str(), first) || text_before(last, text.as_str()) {
        None
    } else {
        repository.holiday(text.as_str())
    }
}

impl UiState {
    /// The weeks on the sheet of the visible month.
    fn render_weeks(
        &self,
        repository: &LocalRepository,
        events: &Vec<CalendarEvent>,
        today: &Date,
        first: &str,
        last: &str,
    ) -> (r: Vec<Vec<DayCell>>)
        requires
            repository.wf(),
            has_sheet(self.visible_month),
            first@ == date_of_number(sheet_start(self.visible_month)).written(),
            last@ == date_of_number(sheet_start(self.visible_month) + SHEET_DAYS - 1).written(),
        ensures
            shows_sheet(repository@, event_views(events@), self@, *today, r@),
    {
        let start = first_on_sheet(&self.visible_month);
        let mut weeks: Vec<Vec<DayCell>> = Vec::new();
        let mut w: i64 = 0;
        while w < 6
            invariant
                0 <= w <= 6,
                repository.wf(),
                has_sheet(self.visible_month),
                start.number() == sheet_start(self.visible_month),
                first@ == date_of_number(sheet_start(self.visible_month)).written(),
                last@ == date_of_number(
                    sheet_start(self.visible_month) + SHEET_DAYS - 1,
                ).written(),
                weeks@.len() == w,
                forall|a: int|
                    0 <= a < w ==> shows_week(
                        repository@,
                        event_views(events@),
                        self@,
                        *today,
                        a,
                        (#[trigger] weeks@[a])@,
                    ),
            decreases 6 - w,
        {
            let mut cells: Vec<DayCell> = Vec::new();
            let mut d: i64 = 0;
            while d < 7
                invariant
                    0 <= w < 6,
                    0 <= d <= 7,
                    repository.wf(),
                    has_sheet(self.visible_month),
                    start.number() == sheet_start(self.visible_month),
                    first@ == date_of_number(sheet_start(self.visible_month)).written(),
                    last@ == date_of_number(
                        sheet_start(self.visible_month) + SHEET_DAYS - 1,
                    ).written(),
                    cells@.len() == d,
                    forall|k: int|
                        0 <= k < d ==> {
                            let date = date_of_number(sheet_start(self.visible_month) + 7 * w + k);
                            (#[trigger] cells@[k])@ == cell_view(
                                date,
                                sheet_holiday(repository@, self.visible_month, date),
                                event_views(events@),
                                self.visible_month,
                                *today,
                                self.selected_date,
                            )
                        },
                decreases 7 - d,
            {
                let date = start.plus_days(7 * w + d).unwrap();
                proof {
                    lemma_date_of_number(date);
                }
                let holiday = find_holiday(repository, first, last, &date);
                cells.push(
                    day_cell(
                        date,
                        holiday,
                        events,
                        &self.visible_month,
                        today,
                        &self.selected_date,
                    ),
                );
                d = d + 1;
            }
            assert(shows_week(
                repository@,
                event_views(events@),
                self@,
                *today,
                w as int,
                cells@,
            ));
            weeks.push(cells);
            w = w + 1;
        }
        weeks
    }

    /// What the calendar window shows on the day `today`.
    pub fn render_all(&self, repository: &LocalRepository, today: Date) -> (r: CalendarPage)
        requires
            repository.wf(),
            has_sheet(self.visible_month),
        ensures
            exists|events: Seq<EventView>| #[trigger]
                answers(repository@.events, EventQuery::Active, events) && shows(
                    repository@,
                    events,
                    self@,
                    today,
                    r,
                ),
    {
        let events = repository.active_events();
        let ghost all = event_views(events@);
        let start = first_on_sheet(&self.visible_month);
        let end = start.plus_days(SHEET_DAYS - 1).unwrap();
        proof {
            lemma_date_of_number(start);
            lemma_date_of_number(end);
        }
        let first = start.text();
        let last = end.text();
        let weeks = self.render_weeks(repository, &events, &today, first.as_str(), last.as_str());
        let holiday = find_holiday(
            repository,
            first.as_str(),
            last.as_str(),
            &self.selected_date,
        );
        let selected_events = selected_rows(&events, self.selected_date, holiday);
        let overview_events = overview_list(&events, self.calendar_view);
        let completed: bool = self.calendar_view == COMPLETED_VIEW;
        let mut selected_date_title = month_day_label(&self.selected_date);
        selected_date_title.append(" · ");
        selected_date_title.append(weekday_name(self.selected_date.weekday()));
        let page = CalendarPage {
            weeks,
            selected_events,
            overview_events,
            calendar_view: self.calendar_view,
            overview_title: (if completed {
                "已完成"
            } else {
                "全部日程"
            }).to_owned(),
            overview_empty: (if completed {
                "还没有已完成的日程"
            } else {
                "还没有日程，点击左上角新建"
            }).to_owned(),
            month_title: month_title(&self.visible_month),
            selected_date_title,
            signed_in: self.token.is_some(),
            user_label: match &self.email {
                Some(email) => email.clone(),
                None => "登录 / 注册".to_owned(),
            },
            selected_event_id: match &self.selected_event_id {
                Some(id) => id.clone(),
                None => "".to_owned(),
            },
        };
        assert(shows(repository@, all, self@, today, page));
        page
    }
}

/// The rows of the events on the selected date.
fn selected_rows(events: &Vec<CalendarEvent>, date: Date, holiday: Option<&Holiday>) -> (r: Vec<
    EventRow,
>)
    ensures
        row_views(r@) == rows_on(events_on(event_views(events@), date, off_day(holiday)), date),
{
    let found = occurring(events, date, holiday);
    let ghost here = events_on(event_views(events@), date, off_day(holiday));
    let mut r: Vec<EventRow> = Vec::new();
    let mut i: usize = 0;
    while i < found.len()
        invariant
            i <= found@.len(),
            found@.len() == here.len(),
            forall|k: int|
                0 <= k < found@.len() ==> (#[trigger] found@[k]) < events@.len()
                    && events@[found@[k] as int]@ == here[k],
            r@.len() == i,
            forall|k: int| 0 <= k < i ==> (#[trigger] r@[k])@ == event_row_view(here[k], date),
        decreases found@.len() - i,
    {
        assert(events@[found@[i as int] as int]@ == here[i as int]);
        r.push(event_row(&events[found[i]], date));
        i = i + 1;
    }
    assert(row_views(r@) =~= rows_on(here, date));
    r
}

/// The rows of the overview.
fn overview_list(events: &Vec<CalendarEvent>, calendar_view: i32) -> (r: Vec<EventRow>)
    ensures
        row_views(r@) == overview_rows(overview_of(event_views(events@), calendar_view)),
{
    let ghost all = event_views(events@);
    let mut r: Vec<EventRow> = Vec::new();
    let mut i: usize = 0;
    assert(overview_of(all.take(0), calendar_view) =~= Seq::<EventView>::empty()) by {
        reveal(Seq::filter);
    }
    assert(row_views(r@) =~= overview_rows(overview_of(all.take(0), calendar_view)));
    while i < events.len()
        invariant
            all == event_views(events@),
            i <= events@.len(),
            row_views(r@) == overview_rows(overview_of(all.take(i as int), calendar_view)),
        decreases events@.len() - i,
    {
        let ghost before = r@;
        proof {
            let next = all.take(i + 1);
            assert(next.drop_last() =~= all.take(i as int));
            assert(next.last() == events@[i as int]@);
            reveal(Seq::filter);
        }
        if calendar_view != COMPLETED_VIEW || events[i].completed {
            r.push(overview_event_row(&events[i]));
            assert(row_views(r@) =~= row_views(before).push(overview_row_view(all[i as int])));
        }
        i = i + 1;
        assert(row_views(r@) =~= overview_rows(overview_of(all.take(i as int), calendar_view)));
    }
    assert(all.take(all.len() as int) =~= all);
    r
}

/// What the desktop widget shows of one event.
#[derive(Debug)]
pub struct WidgetPreview {
    pub event_id: String,
    pub title: String,
    pub time: String,
    pub detail: String,
}

/// The contents of a preview.
#[verifier::ext_equal]
pub struct PreviewView {
    pub event_id: Seq<char>,
    pub title: Seq<char>,
    pub time: Seq<char>,
    pub detail: Seq<char>,
}

impl View for WidgetPreview {
    type V = PreviewView;

    open spec fn view(&self) -> PreviewView {
        PreviewView {
            event_id: self.event_id@,
            title: self.title@,
            time: self.time@,
            detail: self.detail@,
        }
    }
}

/// The preview of no event.
pub open spec fn empty_preview() -> PreviewView {
    PreviewView { event_id: ""@, title: "点击日程查看详情"@, time: ""@, detail: ""@ }
}

/// The preview of an event.
pub open spec fn preview_of(event: EventView) -> PreviewView {
    let detail = joined(
        filled(
            seq![
                trimmed(event.location),
                trimmed(event.notes),
                reminder_text(event.reminder_minutes),
            ],
        ),
        " · "@,
    );
    PreviewView {
        event_id: event.id,
        title: event.title,
        time: time_or_all_day(event.all_day, event.start_at),
        detail: if detail.len() == 0 {
            "没有额外备注"@
        } else {
            detail
        },
    }
}

/// The preview of no event.
pub fn clear_desktop_widget_preview() -> (r: WidgetPreview)
    ensures
        r@ == empty_preview(),
{
    WidgetPreview {
        event_id: "".to_owned(),
        title: "点击日程查看详情".to_owned(),
        time: "".to_owned(),
        detail: "".to_owned(),
    }
}

impl UiState {
    /// The preview that the desktop widget shows.
    pub fn render_desktop_widget(&self, repository: &LocalRepository) -> (r: WidgetPreview)
        requires
            repository.wf(),
        ensures
            r@ == match self@.widget_preview_event_id {
                None => empty_preview(),
                Some(id) => match read_event(repository@, id) {
                    None => empty_preview(),
                    Some(event) => preview_of(event),
                },
            },
    {
        let id = match &self.widget_preview_event_id {
            Some(id) => id,
            None => {
                return clear_desktop_widget_preview();
            },
        };
        let event = match repository.event(id.as_str()) {
            Some(event) => event,
            None => {
                return clear_desktop_widget_preview();
            },
        };
        let mut parts: Vec<String> = Vec::new();
        parts.push(trim(event.location.as_str()));
        parts.push(trim(event.notes.as_str()));
        parts.push(reminder_summary(&event.reminder_minutes));
        assert(views(parts@) =~= seq![
            trimmed(event@.location),
            trimmed(event@.notes),
            reminder_text(event@.reminder_minutes),
        ]);
        let detail = join_filled(&parts, " · ");
        let detail = if detail.as_str().is_empty() {
            "没有额外备注".to_owned()
        } else {
            detail
        };
        WidgetPreview {
            event_id: event.id.clone(),
            title: event.title.clone(),
            time: time_label(event.all_day, &event.start_at),
            detail,
        }
    }
}

/// The overview lists all active events, or those that are completed, and no others.
pub proof fn the_overview_lists_its_events(
    events: Seq<EventView>,
    calendar_view: i32,
    event: EventView,
)
    ensures
        overview_of(events, calendar_view).contains(event) <==> events.contains(event) && (
        calendar_view == 3 ==> event.completed),
        calendar_view != 3 ==> overview_of(events, calendar_view) == events,
        overview_of(events.push(event), calendar_view) == if calendar_view == 3
            && !event.completed {
            overview_of(events, calendar_view)
        } else {
            overview_of(events, calendar_view).push(event)
        },
    decreases events.len(),
{
    reveal(Seq::filter);
    let p = |e: EventView| calendar_view != COMPLETED_VIEW || e.completed;
    assert(events.push(event).drop_last() =~= events);
    if events.len() > 0 {
        let shorter = events.drop_last();
        let last = events.last();
        the_overview_lists_its_events(shorter, calendar_view, event);
        the_overview_lists_its_events(shorter, calendar_view, last);
        let found = overview_of(events, calendar_view);
        let before = overview_of(shorter, calendar_view);
        assert(events =~= shorter.push(last));
        if events.contains(event) && (calendar_view == 3 ==> event.completed) {
            let k = choose|k: int| 0 <= k < events.len() && events[k] == event;
            if k < shorter.len() {
                assert(shorter[k] == event);
                let i = choose|i: int| 0 <= i < before.len() && before[i] == event;
                assert(found[i] == event);
            } else {
                assert(found[found.len() - 1] == event);
            }
        }
        if found.contains(event) {
            let i = choose|i: int| 0 <= i < found.len() && found[i] == event;
            if i < before.len() {
                assert(before[i] == event);
                let k = choose|k: int| 0 <= k < shorter.len() && shorter[k] == event;
                assert(events[k] == event);
            } else {
                assert(events[events.len() - 1] == event);
            }
        }
    } else {
        assert(overview_of(events, calendar_view) =~= events);
    }
}

/// The sheet sees the holiday record of each of its days, in years of four digits.
pub proof fn the_sheet_sees_the_records_of_its_days(
    repository: RepositoryView,
    month: Date,
    date: Date,
)
    requires
        month.valid(),
        has_sheet(month),
        date.valid(),
        sheet_start(month) <= date.number() < sheet_start(month) + 42,
        0 <= date_of_number(sheet_start(month)).year(),
        date_of_number(sheet_start(month) + 41).year() <= 9999,
    ensures
        sheet_holiday(repository, month, date) == if repository.holidays.contains_key(
            date.written(),
        ) {
            Some(repository.holidays[date.written()])
        } else {
            None
        },
{
    let first = date_of_number(sheet_start(month));
    let last = date_of_number(sheet_start(month) + 41);
    lemma_date_exists(sheet_start(month));
    lemma_date_exists(sheet_start(month) + 41);
    lemma_number_orders_dates(date, first);
    lemma_number_orders_dates(last, date);
    texts_order_dates(first, date);
    texts_order_dates(date, last);
}

/// Every day of the visible month has its cell on the page, in the week and under the weekday where
/// it belongs, with its record and its events.
pub proof fn every_day_of_the_month_has_its_cell(
    repository: RepositoryView,
    events: Seq<EventView>,
    ui: UiView,
    today: Date,
    page: CalendarPage,
    day: Date,
)
    requires
        shows(repository, events, ui, today, page),
        ui.visible_month.valid(),
        ui.visible_month.day() == 1,
        day.valid(),
        day.year() == ui.visible_month.year(),
        day.month() == ui.visible_month.month(),
    ensures
        ({
            let week = (day.number() - sheet_start(ui.visible_month)) / 7;
            &&& 0 <= week < page.weeks@.len()
            &&& page.weeks@[week]@.len() == 7
            &&& page.weeks@[week]@[(day.number() - 1) % 7]@ == cell_view(
                day,
                sheet_holiday(repository, ui.visible_month, day),
                events,
                ui.visible_month,
                today,
                ui.selected_date,
            )
        }),
{
    a_sheet_shows_the_whole_month(ui.visible_month, day);
    let first = sheet_start(ui.visible_month);
    let week = (day.number() - first) / 7;
    let d = (day.number() - first) % 7;
    assert(first % 7 == 1);
    assert(d == (day.number() - 1) % 7);
    assert(shows_week(repository, events, ui, today, week, page.weeks@[week]@));
    assert(first + 7 * week + d == day.number());
    lemma_date_of_number(day);
    let cell = page.weeks@[week]@[d];
}

/// The page lists the events of the selected day, titled with that day, and says who is signed in.
pub proof fn the_page_tells_the_selected_day(
    repository: RepositoryView,
    events: Seq<EventView>,
    ui: UiView,
    today: Date,
    page: CalendarPage,
    i: int,
)
    requires
        shows(repository, events, ui, today, page),
    ensures
        ({
            let off = off_of(sheet_holiday(repository, ui.visible_month, ui.selected_date));
            let on = events_on(events, ui.selected_date, off);
            &&& page.selected_events@.len() == on.len()
            &&& 0 <= i < on.len() ==> page.selected_events@[i].id@ == on[i].id
                && page.selected_events@[i].title@ == on[i].title
                && page.selected_events@[i].completed == on[i].completed
        }),
        ({
            let all = overview_of(events, ui.calendar_view);
            &&& page.overview_events@.len() == all.len()
            &&& 0 <= i < all.len() ==> page.overview_events@[i].id@ == all[i].id
                && page.overview_events@[i].title@ == all[i].title
        }),
        page.signed_in <==> ui.token is Some,
        ui.email matches Some(email) ==> page.user_label@ == email,
        ui.selected_event_id matches Some(id) ==> page.selected_event_id@ == id,
        ui.selected_event_id is None ==> page.selected_event_id@.len() == 0,
        page.calendar_view == ui.calendar_view,
{
    reveal_strlit("");
    let off = off_of(sheet_holiday(repository, ui.visible_month, ui.selected_date));
    let on = events_on(events, ui.selected_date, off);
    let all = overview_of(events, ui.calendar_view);
    let rows = row_views(page.selected_events@);
    let lines = row_views(page.overview_events@);
    assert(rows.len() == on.len() && lines.len() == all.len());
    if 0 <= i < on.len() {
        assert(rows[i] == event_row_view(on[i], ui.selected_date));
        assert(rows[i] == page.selected_events@[i]@);
    }
    if 0 <= i < all.len() {
        assert(lines[i] == overview_row_view(all[i]));
        assert(lines[i] == page.overview_events@[i]@);
    }
}

/// The preview of an event tells its title, its time and its details; an event without place, notes
/// and reminders is said to have none. Without an event the preview names none.
pub proof fn a_preview_tells_its_event(event: EventView)
    ensures
        preview_of(event).event_id == event.id,
        preview_of(event).title == event.title,
        event.all_day ==> preview_of(event).time == "全天"@,
        !event.all_day ==> preview_of(event).time == local_time_text(event.start_at),
        trimmed(event.location).len() == 0 && trimmed(event.notes).len() == 0
            && event.reminder_minutes.len() == 0 ==> preview_of(event).detail == "没有额外备注"@,
        trimmed(event.location).len() > 0 || trimmed(event.notes).len() > 0
            || event.reminder_minutes.len() > 0 ==> preview_of(event).detail == joined(
            (if trimmed(event.location).len() > 0 {
                seq![trimmed(event.location)]
            } else {
                seq![]
            }) + (if trimmed(event.notes).len() > 0 {
                seq![trimmed(event.notes)]
            } else {
                seq![]
            }) + (if event.reminder_minutes.len() > 0 {
                seq![reminder_text(event.reminder_minutes)]
            } else {
                seq![]
            }),
            seq![' ', '·', ' '],
        ),
        empty_preview().event_id.len() == 0,
{
    reveal_strlit("");
    reveal_strlit(" · ");
    reveal_strlit("提前");
    assert(" · "@ =~= seq![' ', '·', ' ']);
    let (a, b, c) = (
        trimmed(event.location),
        trimmed(event.notes),
        reminder_text(event.reminder_minutes),
    );
    lemma_filled_three(a, b, c);
    let parts = filled(seq![a, b, c]);
    if parts.len() == 0 {
        assert(joined(parts, " · "@).len() == 0);
    } else {
        lemma_joined_shows(parts, " · "@);
    }
}

/// Joined texts of which the first is not empty are not empty.
proof fn lemma_joined_shows(parts: Seq<Seq<char>>, sep: Seq<char>)
    requires
        parts.len() > 0,
        parts[0].len() > 0,
    ensures
        joined(parts, sep).len() > 0,
    decreases parts.len(),
{
    if parts.len() > 1 {
        lemma_joined_shows(parts.drop_last(), sep);
    }
}

} // verus!
