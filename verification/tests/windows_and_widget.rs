use schedule_manager::date::Date;
use schedule_manager::desktop::DesktopDragOrigin;
use schedule_manager::instant::Instant;
use schedule_manager::models::{CalendarEvent, Holiday};
use schedule_manager::repository::LocalRepository;
use schedule_manager::tray::{
    drag_position, locked_config, ClickWatch, DesktopWidgetConfig, PositionWatch, TrayAction,
    TrayItem,
};
use schedule_manager::widget::{
    room_at, truncate_calendar_text, Backdrop, BackdropNews, CalendarWidget, Shade,
};
use schedule_manager::window::{
    attach_step, client_size, edgeless_style, first_position, frame_reply, frameless_style,
    place_in_parent, region_outdated, reminder_position, saved_position, suppress_chrome,
    wallpaper_area, widget_ready, AttachEvent, AttachStep, Bounds, FrameReply, Monitor, Role,
};

fn date(year: i32, month: u32, day: u32) -> Date {
    Date::new(year, month, day).unwrap()
}

fn event(id: &str, title: &str, start: &str) -> CalendarEvent {
    let start = Instant::parse(start).unwrap();
    let mut event =
        CalendarEvent::draft_with(id.to_string(), start, start.plus_minutes(60).unwrap(), start);
    event.title = title.to_string();
    event
}

fn widget() -> CalendarWidget {
    let mut repo = LocalRepository::new();
    let mut first = event("a", "一二三四五六七八", "2026-02-17T01:00:00Z");
    first.notes = "x".repeat(17);
    repo.upsert_event(&first);
    repo.upsert_event(&event("b", "短", "2026-02-17T02:30:00Z"));
    repo.replace_holidays(&vec![
        Holiday {
            date: "2026-02-14".to_string(),
            name: "班".to_string(),
            is_off_day: false,
            source_url: String::new(),
        },
        Holiday {
            date: "2026-02-17".to_string(),
            name: "春节".to_string(),
            is_off_day: true,
            source_url: String::new(),
        },
    ]);
    CalendarWidget::new(&repo, date(2026, 2, 17), DesktopWidgetConfig::default(), 1000)
}

#[test]
fn long_texts_are_cut() {
    assert_eq!(truncate_calendar_text("一二三", 3), "一二三");
    assert_eq!(truncate_calendar_text("一二三四", 3), "一二三…");
    assert_eq!(truncate_calendar_text("", 0), "");
    assert_eq!(truncate_calendar_text("a", 0), "…");
}

#[test]
fn the_sheet_has_forty_two_cells() {
    let widget = widget();
    let cells = widget.calendar();
    assert_eq!(cells.len(), 42);
    assert_eq!(cells[0].date, date(2026, 1, 26));
    assert_eq!(cells[0].day, "26");
    assert_eq!(cells[0].day_shade, Shade::Faint);
    assert_eq!(cells[0].lunar_shade, Shade::Faint);
    let new_year = &cells[22];
    assert_eq!(new_year.date, date(2026, 2, 17));
    assert!(new_year.selected);
    assert_eq!(new_year.lunar, "正月");
    assert_eq!(new_year.event.as_deref(), Some("• 一二三四五六七…"));
    assert_eq!(new_year.holiday, Some("休"));
    assert_eq!((new_year.day_shade, new_year.event_shade), (Shade::Ink, Shade::Ink));
    let makeup = &cells[19];
    assert_eq!(makeup.date, date(2026, 2, 14));
    assert_eq!((makeup.holiday, makeup.day_shade), (Some("班"), Shade::Coral));
    assert_eq!((makeup.event.as_deref(), makeup.selected), (None, false));
}

#[test]
fn details_list_the_selected_day() {
    let mut widget = widget();
    assert_eq!(widget.details_title(), "02月17日 · 周二");
    widget.select_event("b");
    let rows = widget.details();
    assert_eq!(rows.len(), 2);
    assert_eq!((rows[0].title.as_str(), rows[0].time.as_str()), ("一二三四五六七八", "09:00"));
    assert_eq!(rows[0].notes, Some(format!("{}…", "x".repeat(16))));
    assert!(!rows[0].selected && rows[1].selected);
    assert_eq!(rows[1].notes, None);
    assert_eq!(rows[1].time, "10:30");
    let command = widget.edit_command(5).unwrap();
    assert_eq!((command.action, command.event_id.as_deref()), ("edit", Some("b")));
    assert_eq!(command.created_at, 5);
    widget.select_day(date(2026, 2, 18));
    assert!(widget.details().is_empty());
    assert!(widget.edit_command(5).is_none());
    assert_eq!(widget.open_command(6).action, "open");
}

#[test]
fn months_turn_and_refresh() {
    let repo = LocalRepository::new();
    let mut widget = widget();
    assert_eq!(widget.events.len(), 2);
    widget.next_month(&repo, 2000);
    assert_eq!(widget.visible_month, date(2026, 3, 1));
    assert!(widget.events.is_empty());
    assert_eq!(widget.last_refresh, 2000);
    widget.previous_month(&repo, 3000);
    widget.previous_month(&repo, 3000);
    assert_eq!(widget.visible_month, date(2026, 1, 1));
    widget.go_today(&repo, date(2027, 5, 6), 4000);
    assert_eq!(widget.visible_month, date(2027, 5, 1));
    assert_eq!(widget.selected_date, date(2027, 5, 6));
    assert!(room_at(&date(2026, 1, 1), -1));
    assert!(!room_at(&date(-262143, 1, 1), 0));
    assert!(!room_at(&date(262142, 12, 1), 0));
    assert!(!room_at(&date(262142, 12, 1), 1));
}

#[test]
fn a_place_is_saved_when_the_widget_stands_still() {
    let mut widget = widget();
    let tick = widget.tick(false, 1100, Some((3, 4)));
    assert!(!tick.save && !tick.refresh && !tick.close);
    assert_eq!(tick.next_millis, 16);
    assert!(!widget.tick(false, 1449, Some((3, 4))).save);
    assert!(widget.tick(false, 1450, Some((3, 4))).save);
    assert_eq!((widget.config.x, widget.config.y), (Some(3), Some(4)));
    assert!(!widget.tick(false, 9000, Some((3, 4))).save);
    assert!(widget.tick(false, 31_000, None).refresh);
    assert!(widget.tick(true, 99_000, Some((9, 9))).close);
    assert_eq!(widget.last_position, Some((3, 4)));
}

#[test]
fn only_unlocked_widgets_are_dragged() {
    let mut widget = widget();
    let origin = Some(DesktopDragOrigin { cursor: (10, 10), window: (100, 200) });
    assert_eq!(widget.lock_label(), "已锁定");
    widget.begin_drag(origin);
    assert!(widget.drag.is_none());
    widget.toggle_lock();
    assert_eq!(widget.lock_label(), "可拖动");
    widget.begin_drag(origin);
    assert_eq!(widget.tick(false, 1000, None).next_millis, 8);
    assert!(widget.drag_step(true, Some((5, 6)), 1000));
    assert_eq!(widget.last_position, Some((5, 6)));
    assert!(!widget.drag_step(true, None, 1000));
    assert!(widget.drag_step(false, None, 1000));
    assert!(!widget.drag_step(false, None, 1000));
    widget.begin_drag(origin);
    widget.toggle_lock();
    assert!(widget.drag.is_none());
    assert_eq!(drag_position(&origin.unwrap(), (15, 8)), Some((105, 198)));
    let far = DesktopDragOrigin { cursor: (i32::MIN, 0), window: (i32::MAX, 0) };
    assert_eq!(drag_position(&far, (0, 0)), None);
}

#[test]
fn the_window_is_shown_once() {
    let mut widget = widget();
    assert!(!widget.take_first_show(true, false));
    assert!(!widget.take_first_show(false, true));
    assert!(widget.take_first_show(true, true));
    assert!(!widget.take_first_show(true, true));
    assert_eq!(Backdrop::Waiting.poll(BackdropNews::Nothing), Backdrop::Waiting);
    assert_eq!(Backdrop::Waiting.poll(BackdropNews::Picture), Backdrop::Ready);
    assert_eq!(Backdrop::Waiting.poll(BackdropNews::Disconnected), Backdrop::Failed);
    assert_eq!(Backdrop::Ready.poll(BackdropNews::Failure), Backdrop::Ready);
}

#[test]
fn windows_are_put_on_the_screen() {
    let screen = Monitor { x: 100, y: 50, width: 1920, height: 1080 };
    assert_eq!(reminder_position(&screen, 400), Some((1596, 74)));
    assert_eq!(reminder_position(&screen, 4000), Some((76, 74)));
    assert_eq!(first_position(&screen, 820), Some((1172, 94)));
    let screens = vec![screen];
    assert_eq!(saved_position(Some(21), Some(0), &screens), Some((21, 0)));
    assert_eq!(saved_position(Some(20), Some(0), &screens), None);
    assert_eq!(saved_position(Some(2020), Some(60), &screens), None);
    assert_eq!(saved_position(Some(2019), Some(1129), &screens), Some((2019, 1129)));
    assert_eq!(saved_position(None, Some(60), &screens), None);
    assert_eq!(saved_position(Some(300), Some(60), &Vec::new()), None);
}

#[test]
fn frames_are_taken_away() {
    let overlapped = 0x10CF_0000;
    assert_eq!(frameless_style(overlapped, Role::Quiet), 0x9000_0000);
    assert_eq!(frameless_style(overlapped, Role::Floating), 0x9000_0000);
    assert_eq!(frameless_style(overlapped, Role::OnDesktop), 0x5000_0000);
    assert_eq!(edgeless_style(0x0002_0301, Role::Floating), 0);
    assert_eq!(edgeless_style(0x0002_0301, Role::Quiet), 0x0800_0080);
    let change = suppress_chrome(overlapped, 0, Role::OnDesktop);
    assert_eq!((change.style, change.extended, change.frame_changed), (Some(0x5000_0000), None, true));
    let none = suppress_chrome(0x5000_0000, 0, Role::OnDesktop);
    assert_eq!((none.style, none.extended, none.frame_changed), (None, None, false));
    assert!(widget_ready(0x5000_0000, true, true, true));
    assert!(!widget_ready(0x5000_0000, true, false, true));
    assert!(!widget_ready(0x5000_0000, false, true, true));
    assert!(widget_ready(0x9000_0000, false, false, true));
    assert!(!widget_ready(0x9080_0000, false, false, true));
    assert!(!widget_ready(0x9000_0000, false, false, false));
}

#[test]
fn frame_messages_are_answered() {
    assert_eq!(frame_reply(0x83, 0, None, Role::Quiet), FrameReply::Answer(0));
    assert_eq!(frame_reply(0x85, 0, None, Role::Quiet), FrameReply::Answer(0));
    assert_eq!(frame_reply(0x86, 0, None, Role::Quiet), FrameReply::Answer(1));
    assert_eq!(frame_reply(0x7C, -16, Some(0x00CF_0000), Role::OnDesktop), FrameReply::Restyle(0x4000_0000));
    assert_eq!(frame_reply(0x7C, -20, Some(0x301), Role::Floating), FrameReply::Restyle(0));
    assert_eq!(frame_reply(0x7C, -20, None, Role::Floating), FrameReply::Pass);
    assert_eq!(frame_reply(0x7C, 0, Some(1), Role::Floating), FrameReply::Pass);
    assert_eq!(frame_reply(0x10, -16, Some(1), Role::Floating), FrameReply::Pass);
}

#[test]
fn shapes_and_places_are_measured() {
    let bounds = |l: i32, t: i32, r: i32, b: i32| Bounds { left: l, top: t, right: r, bottom: b };
    assert_eq!(client_size(&bounds(2, 3, 12, 33)), (10, 30));
    assert_eq!(client_size(&bounds(5, 5, 1, 5)), (0, 0));
    let size = (820, 610);
    let intact = Some(bounds(0, 1, 819, 609));
    assert!(!region_outdated(Some(size), size, intact));
    assert!(region_outdated(None, size, intact));
    assert!(region_outdated(Some(size), size, None));
    assert!(region_outdated(Some(size), size, Some(bounds(0, 0, 819, 609))));
    let area = wallpaper_area(&bounds(110, 220, 310, 420), &bounds(10, 20, 1010, 20));
    assert_eq!((area.left, area.right, area.width), (100, 300, 1000));
    assert_eq!((area.top, area.bottom, area.height), (200, 400, 1));
    assert_eq!(place_in_parent(5, 6, None), Some((5, 6)));
    assert_eq!(place_in_parent(5, 6, Some(bounds(1, 1, 0, 0))), Some((4, 5)));
    assert_eq!(place_in_parent(i32::MAX, 0, Some(bounds(-1, 0, 0, 0))), None);
}

#[test]
fn attaching_is_undone_when_it_fails() {
    let window = Bounds { left: 110, top: 60, right: 930, bottom: 60 };
    let desktop = Bounds { left: 10, top: 20, right: 2000, bottom: 1000 };
    let step = |event: AttachEvent| attach_step(&window, &desktop, event);
    assert_eq!(step(AttachEvent::Measured), AttachStep::Enter);
    assert_eq!(step(AttachEvent::Parented(false)), AttachStep::Leave);
    assert_eq!(step(AttachEvent::Parented(true)), AttachStep::Move(100, 40, 820, 1));
    assert_eq!(step(AttachEvent::Placed(true)), AttachStep::Attached);
    assert_eq!(step(AttachEvent::Placed(false)), AttachStep::Restore(110, 60, 820, 1));
}

#[test]
fn the_tray_offers_its_entries() {
    assert_eq!(TrayItem::Open.label(), "打开主界面");
    assert_eq!(TrayItem::Desktop.label(), "吸附到桌面");
    assert_eq!(TrayItem::Hide.label(), "隐藏到托盘");
    assert_eq!(TrayItem::Exit.label(), "同步并退出");
    assert_eq!(TrayItem::Exit.chosen(false), TrayAction::Exit);
    assert_eq!(TrayItem::Exit.chosen(true), TrayAction::Nothing);
    assert_eq!(TrayItem::Hide.chosen(true), TrayAction::Hide);
    let mut clicks = ClickWatch { last_release: None };
    assert!(!clicks.released(1000));
    assert!(clicks.released(1500));
    assert!(!clicks.released(1600));
    assert!(!clicks.released(2101));
    assert!(clicks.released(2101));
}

#[test]
fn positions_are_watched_while_unlocked() {
    let mut watch = PositionWatch { last: None };
    assert_eq!(watch.look(false, false, Some((1, 2))), None);
    assert_eq!(watch.look(true, true, Some((1, 2))), None);
    assert_eq!(watch.look(true, false, None), None);
    assert_eq!(watch.look(true, false, Some((1, 2))), Some((1, 2)));
    assert_eq!(watch.look(true, false, Some((1, 2))), None);
    assert_eq!(watch.look(true, false, Some((1, 3))), Some((1, 3)));
    let config = locked_config(&DesktopWidgetConfig::default(), false, Some((7, 8)));
    assert_eq!((config.x, config.y, config.locked), (Some(7), Some(8), false));
    let config = locked_config(&config, true, None);
    assert_eq!((config.x, config.y, config.locked), (Some(7), Some(8), true));
}
