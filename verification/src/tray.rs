//! The desktop widget's window, the tray and the commands that reach the main window.

use crate::date::{parsed_date, Date};
use crate::desktop::{DesktopDragOrigin, UiView};
use crate::editor::loaded;
use crate::handlers::{report_text, Desktop, Report, ScreenView};
use crate::month::{has_month, month_index, shift_month};
use crate::repository::{read_event, LocalRepository};
use crate::text::same_text;
use vstd::prelude::*;

verus! {

/// Where the desktop widget stands, and whether it can be moved.
#[derive(Clone, Copy, Debug, PartialEq, Eq, Structural)]
pub struct DesktopWidgetConfig {
    pub x: Option<i32>,
    pub y: Option<i32>,
    pub locked: bool,
}

impl Default for DesktopWidgetConfig {
    fn default() -> (r: Self)
        ensures
            r.x is None && r.y is None && r.locked,
    {
        DesktopWidgetConfig { x: None, y: None, locked: true }
    }
}

/// The configuration after the widget was locked or unlocked at `position`.
pub fn locked_config(
    config: &DesktopWidgetConfig,
    locked: bool,
    position: Option<(i32, i32)>,
) -> (r: DesktopWidgetConfig)
    ensures
        r.locked == locked,
        match position {
            Some((x, y)) => r.x == Some(x) && r.y == Some(y),
            None => r.x == config.x && r.y == config.y,
        },
{
    match position {
        Some((x, y)) => DesktopWidgetConfig { x: Some(x), y: Some(y), locked },
        None => DesktopWidgetConfig { x: config.x, y: config.y, locked },
    }
}

/// Watches where the widget stands.
#[derive(Clone, Copy, Debug)]
pub struct PositionWatch {
    pub last: Option<(i32, i32)>,
}

impl PositionWatch {
    /// Looks at the widget: `visible` and `locked` say how it is, `position` where. Returns where
    /// it stands when that is to be saved: it can be moved, and has been.
    pub fn look(&mut self, visible: bool, locked: bool, position: Option<(i32, i32)>) -> (r: Option<
        (i32, i32),
    >)
        ensures
            if visible && !locked && position is Some && position != old(self).last {
                r == position && final(self).last == position
            } else {
                r is None && final(self).last == old(self).last
            },
    {
        if !visible || locked {
            return None;
        }
        match position {
            None => None,
            Some((x, y)) => {
                if let Some((a, b)) = self.last {
                    if a == x && b == y {
                        return None;
                    }
                }
                self.last = Some((x, y));
                Some((x, y))
            },
        }
    }
}

/// Where a window goes while it is dragged: it follows the cursor.
pub open spec fn dragged_to(origin: DesktopDragOrigin, cursor: (i32, i32)) -> (int, int) {
    (
        origin.window.0 + cursor.0 - origin.cursor.0,
        origin.window.1 + cursor.1 - origin.cursor.1,
    )
}

/// Where a window goes while it is dragged, unless that is beyond all screens.
pub fn drag_position(origin: &DesktopDragOrigin, cursor: (i32, i32)) -> (r: Option<(i32, i32)>)
    ensures
        ({
            let (x, y) = dragged_to(*origin, cursor);
            match r {
                Some((a, b)) => a == x && b == y,
                None => !(i32::MIN <= x <= i32::MAX && i32::MIN <= y <= i32::MAX),
            }
        }),
{
    let x: i64 = origin.window.0 as i64 + cursor.0 as i64 - origin.cursor.0 as i64;
    let y: i64 = origin.window.1 as i64 + cursor.1 as i64 - origin.cursor.1 as i64;
    if x < i32::MIN as i64 || x > i32::MAX as i64 || y < i32::MIN as i64 || y > i32::MAX as i64 {
        None
    } else {
        Some((x as i32, y as i32))
    }
}

/// A dragged window keeps its distance to the cursor.
pub proof fn a_dragged_window_follows_the_cursor(
    origin: DesktopDragOrigin,
    a: (i32, i32),
    b: (i32, i32),
)
    ensures
        dragged_to(origin, origin.cursor) == (origin.window.0 as int, origin.window.1 as int),
        dragged_to(origin, b).0 - dragged_to(origin, a).0 == b.0 - a.0,
        dragged_to(origin, b).1 - dragged_to(origin, a).1 == b.1 - a.1,
{
}

impl Desktop {
    /// The widget shows the month before the visible one.
    pub fn widget_previous_month(&mut self)
        requires
            has_month(old(self).ui.visible_month, -1),
        ensures
            final(self).ui@ == (UiView {
                visible_month: final(self).ui.visible_month,
                widget_preview_event_id: None,
                ..old(self).ui@
            }),
            final(self).ui.visible_month.day() == 1,
            month_index(final(self).ui.visible_month) == month_index(old(self).ui.visible_month)
                - 1,
            final(self).screen@ == old(self).screen@,
            final(self).editor@ == old(self).editor@,
            final(self).keeps_settings(*old(self)),
    {
        self.ui.visible_month = shift_month(self.ui.visible_month, -1);
        self.ui.widget_preview_event_id = None;
    }

    /// The widget shows the month after the visible one.
    pub fn widget_next_month(&mut self)
        requires
            has_month(old(self).ui.visible_month, 1),
        ensures
            final(self).ui@ == (UiView {
                visible_month: final(self).ui.visible_month,
                widget_preview_event_id: None,
                ..old(self).ui@
            }),
            final(self).ui.visible_month.day() == 1,
            month_index(final(self).ui.visible_month) == month_index(old(self).ui.visible_month)
                + 1,
            final(self).screen@ == old(self).screen@,
            final(self).editor@ == old(self).editor@,
            final(self).keeps_settings(*old(self)),
    {
        self.ui.visible_month = shift_month(self.ui.visible_month, 1);
        self.ui.widget_preview_event_id = None;
    }

    /// The widget shows and selects the present day.
    pub fn widget_go_today(&mut self, today: Date)
        ensures
            ({
                let month = final(self).ui.visible_month;
                &&& month.year() == today.year() && month.month() == today.month() && month.day()
                    == 1
                &&& final(self).ui@ == (UiView {
                    visible_month: month,
                    selected_date: today,
                    widget_preview_event_id: None,
                    ..old(self).ui@
                })
            }),
            final(self).screen@ == old(self).screen@,
            final(self).editor@ == old(self).editor@,
            final(self).keeps_settings(*old(self)),
    {
        self.ui.visible_month = today.first_of_month();
        self.ui.selected_date = today;
        self.ui.widget_preview_event_id = None;
    }

    /// A day was selected in the widget, given as text.
    pub fn widget_select_day(&mut self, value: &str)
        ensures
            match parsed_date(value@) {
                None => final(self).ui@ == old(self).ui@,
                Some((year, month, day)) => {
                    let date = final(self).ui.selected_date;
                    let shown = final(self).ui.visible_month;
                    let before = old(self).ui.visible_month;
                    &&& date.year() == year && date.month() == month && date.day() == day
                    &&& if before.year() == year && before.month() == month {
                        shown == before
                    } else {
                        shown.year() == year && shown.month() == month && shown.day() == 1
                    }
                    &&& final(self).ui@ == (UiView {
                        selected_date: date,
                        visible_month: shown,
                        widget_preview_event_id: None,
                        ..old(self).ui@
                    })
                },
            },
            final(self).screen@ == old(self).screen@,
            final(self).editor@ == old(self).editor@,
            final(self).keeps_settings(*old(self)),
    {
        if let Some(date) = Date::parse(value) {
            self.ui.selected_date = date;
            self.ui.widget_preview_event_id = None;
            if date.month() != self.ui.visible_month.month() || date.year()
                != self.ui.visible_month.year() {
                self.ui.visible_month = date.first_of_month();
            }
        }
    }

    /// An event is to be previewed in the widget.
    pub fn widget_preview_event(&mut self, id: &str)
        ensures
            final(self).ui@ == (UiView { widget_preview_event_id: Some(id@), ..old(self).ui@ }),
            final(self).screen@ == old(self).screen@,
            final(self).editor@ == old(self).editor@,
            final(self).keeps_settings(*old(self)),
    {
        self.ui.widget_preview_event_id = Some(id.to_owned());
    }

    /// An event is to be edited from the widget. Returns whether the main window is to be shown:
    /// there is such an event.
    pub fn widget_edit_event(&mut self, repository: &LocalRepository, id: &str) -> (r: bool)
        requires
            repository.wf(),
        ensures
            final(self).ui@ == (UiView { selected_event_id: Some(id@), ..old(self).ui@ }),
            r == read_event(repository@, id@) is Some,
            match read_event(repository@, id@) {
                Some(event) => final(self).editor@ == loaded(old(self).editor@, event)
                    && final(self).screen@ == (ScreenView {
                    editor_visible: true,
                    status: "主界面已从系统托盘恢复"@,
                    ..old(self).screen@
                }),
                None => final(self).editor@ == old(self).editor@ && final(self).screen@
                    == (ScreenView {
                    status: report_text(Report::ReadEvent) + "event not found"@,
                    ..old(self).screen@
                }),
            },
            final(self).keeps_settings(*old(self)),
    {
        if self.select_event(repository, id) {
            self.show_main_window();
            true
        } else {
            false
        }
    }

    /// The widget was hidden.
    pub fn hide_widget(&mut self)
        ensures
            final(self).screen@ == (ScreenView {
                status: "桌面日历已隐藏到系统托盘"@,
                ..old(self).screen@
            }),
            final(self).ui@ == old(self).ui@,
            final(self).editor@ == old(self).editor@,
            final(self).keeps_settings(*old(self)),
    {
        self.set_status("桌面日历已隐藏到系统托盘");
    }

    /// A drag of the widget begins, unless it is locked.
    pub fn start_drag(&mut self, locked: bool, origin: Option<DesktopDragOrigin>)
        ensures
            final(self).ui@ == (if locked {
                old(self).ui@
            } else {
                UiView { desktop_drag_origin: origin, ..old(self).ui@ }
            }),
            final(self).screen@ == old(self).screen@,
            final(self).editor@ == old(self).editor@,
            final(self).keeps_settings(*old(self)),
    {
        if !locked {
            self.ui.desktop_drag_origin = origin;
        }
    }

    /// Where the widget goes while the cursor drags it; nowhere when it is not dragged.
    pub fn drag_move(&self, cursor: (i32, i32)) -> (r: Option<(i32, i32)>)
        ensures
            match self.ui@.desktop_drag_origin {
                None => r is None,
                Some(origin) => {
                    let (x, y) = dragged_to(origin, cursor);
                    match r {
                        Some((a, b)) => a == x && b == y,
                        None => !(i32::MIN <= x <= i32::MAX && i32::MIN <= y <= i32::MAX),
                    }
                },
            },
    {
        match self.ui.desktop_drag_origin {
            Some(origin) => drag_position(&origin, cursor),
            None => None,
        }
    }

    /// A drag of the widget ends. Returns whether there was one.
    pub fn end_drag(&mut self) -> (was_dragging: bool)
        ensures
            was_dragging == old(self).ui@.desktop_drag_origin is Some,
            final(self).ui@ == (UiView { desktop_drag_origin: None, ..old(self).ui@ }),
            final(self).screen@ == old(self).screen@,
            final(self).editor@ == old(self).editor@,
            final(self).keeps_settings(*old(self)),
    {
        let was_dragging: bool = self.ui.desktop_drag_origin.is_some();
        self.ui.desktop_drag_origin = None;
        was_dragging
    }

    /// A command of the widget's own process. Returns whether the main window is to be shown.
    pub fn widget_command(
        &mut self,
        repository: &LocalRepository,
        action: &str,
        event_id: Option<&str>,
    ) -> (show: bool)
        requires
            repository.wf(),
        ensures
            final(self).keeps_settings(*old(self)),
            if action@ == "open"@ {
                &&& show
                &&& final(self).ui@ == old(self).ui@
                &&& final(self).editor@ == old(self).editor@
                &&& final(self).screen@ == (ScreenView {
                    status: "主界面已从系统托盘恢复"@,
                    ..old(self).screen@
                })
            } else if action@ == "edit"@ && event_id is Some {
                let id = event_id.unwrap()@;
                &&& show
                &&& final(self).ui@ == (UiView { selected_event_id: Some(id), ..old(self).ui@ })
                &&& match read_event(repository@, id) {
                    Some(event) => final(self).editor@ == loaded(old(self).editor@, event)
                        && final(self).screen@ == (ScreenView {
                        editor_visible: true,
                        status: "主界面已从系统托盘恢复"@,
                        ..old(self).screen@
                    }),
                    None => final(self).editor@ == old(self).editor@ && final(self).screen@
                        == (ScreenView {
                        status: report_text(Report::ReadEvent) + "event not found"@,
                        ..old(self).screen@
                    }),
                }
            } else {
                &&& !show
                &&& final(self).ui@ == old(self).ui@
                &&& final(self).editor@ == old(self).editor@
                &&& final(self).screen@ == old(self).screen@
            },
    {
        proof {
            reveal_strlit("open");
            reveal_strlit("edit");
        }
        if same_text(action, "open") {
            self.show_main_window();
            return true;
        }
        if same_text(action, "edit") {
            if let Some(id) = event_id {
                let _ = self.widget_edit_event(repository, id);
                return true;
            }
        }
        false
    }
}

/// What the tray asks for.
#[derive(Clone, Copy, Debug, PartialEq, Eq, Structural)]
pub enum TrayAction {
    Nothing,
    Open,
    Dock,
    Hide,
    Exit,
}

/// The entries of the tray's menu.
#[derive(Clone, Copy, Debug, PartialEq, Eq, Structural)]
pub enum TrayItem {
    Open,
    Desktop,
    Hide,
    Exit,
}

/// The text of an entry.
pub open spec fn item_text(item: TrayItem) -> Seq<char> {
    match item {
        TrayItem::Open => "打开主界面"@,
        TrayItem::Desktop => "吸附到桌面"@,
        TrayItem::Hide => "隐藏到托盘"@,
        TrayItem::Exit => "同步并退出"@,
    }
}

/// What choosing an entry asks for; an exit that is on its way is not asked for again.
pub open spec fn tray_action(item: TrayItem, exit_pending: bool) -> TrayAction {
    match item {
        TrayItem::Open => TrayAction::Open,
        TrayItem::Desktop => TrayAction::Dock,
        TrayItem::Hide => TrayAction::Hide,
        TrayItem::Exit => if exit_pending {
            TrayAction::Nothing
        } else {
            TrayAction::Exit
        },
    }
}

impl TrayItem {
    /// The text of this entry.
    pub fn label(self) -> (r: &'static str)
        ensures
            r@ == item_text(self),
    {
        match self {
            TrayItem::Open => "打开主界面",
            TrayItem::Desktop => "吸附到桌面",
            TrayItem::Hide => "隐藏到托盘",
            TrayItem::Exit => "同步并退出",
        }
    }

    /// What choosing this entry asks for; an exit that is on its way is not asked for again.
    pub fn chosen(self, exit_pending: bool) -> (r: TrayAction)
        ensures
            r == tray_action(self, exit_pending),
    {
        match self {
            TrayItem::Open => TrayAction::Open,
            TrayItem::Desktop => TrayAction::Dock,
            TrayItem::Hide => TrayAction::Hide,
            TrayItem::Exit => if exit_pending {
                TrayAction::Nothing
            } else {
                TrayAction::Exit
            },
        }
    }
}

/// How long two clicks may lie apart to count as a double click, in milliseconds.
pub const DOUBLE_CLICK_MILLIS: u64 = 500;

/// Makes double clicks of clicks on the tray.
#[derive(Clone, Copy, Debug, PartialEq, Eq, Structural)]
pub struct ClickWatch {
    pub last_release: Option<u64>,
}

/// The watch after the left button was released at `now`, and whether that made a double click.
pub open spec fn clicked(watch: ClickWatch, now: u64) -> (ClickWatch, bool) {
    let double = watch.last_release matches Some(last) && now <= last + DOUBLE_CLICK_MILLIS;
    (
        ClickWatch {
            last_release: if double {
                None
            } else {
                Some(now)
            },
        },
        double,
    )
}

impl ClickWatch {
    /// The left button was released at `now`. Returns whether that made a double click; the click
    /// after one begins anew.
    pub fn released(&mut self, now: u64) -> (double: bool)
        ensures
            (*final(self), double) == clicked(*old(self), now),
    {
        let double: bool = match self.last_release {
            Some(last) => now <= last || now - last <= DOUBLE_CLICK_MILLIS,
            None => false,
        };
        self.last_release = if double {
            None
        } else {
            Some(now)
        };
        double
    }
}

/// Two clicks within half a second make a double click, and the click after it begins anew; clicks
/// that lie further apart are single ones.
pub proof fn two_quick_clicks_make_a_double_click(watch: ClickWatch, first: u64, second: u64, third: u64)
    requires
        first <= second <= third,
        !clicked(watch, first).1,
    ensures
        clicked(clicked(watch, first).0, second).1 <==> second - first <= 500,
        second - first <= 500 ==> !clicked(clicked(clicked(watch, first).0, second).0, third).1,
        second - first > 500 ==> (clicked(clicked(clicked(watch, first).0, second).0, third).1
            <==> third - second <= 500),
        watch.last_release is None ==> !clicked(watch, first).1,
{
}

/// Every entry of the tray asks for its own action; an exit is asked for once.
pub proof fn tray_entries_ask_for_different_actions(a: TrayItem, b: TrayItem)
    ensures
        tray_action(a, false) == tray_action(b, false) ==> a == b,
        tray_action(TrayItem::Exit, true) == TrayAction::Nothing,
        tray_action(a, false) != TrayAction::Nothing,
        a != TrayItem::Exit ==> tray_action(a, true) == tray_action(a, false),
        tray_action(TrayItem::Open, false) == TrayAction::Open,
        tray_action(TrayItem::Exit, false) == TrayAction::Exit,
        tray_action(TrayItem::Hide, false) == TrayAction::Hide,
{
}

} // verus!
