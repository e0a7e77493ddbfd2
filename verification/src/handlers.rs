//! What the windows do when their users act, and when outside work ends.
//!
//! A handler changes the state and returns what is to be done outside: a request to the server, a
//! write to the store of this device, a notification, the end of the program. When that is done,
//! another handler takes its outcome. The repository holds what the store holds: it changes once a
//! write has succeeded.
use crate::api_client::text_in;
use crate::date::{parsed_date, Date};
use crate::desktop::{UiState, UiView};
use crate::editor::{
    cleared, edited, editor_error_text, form_error, loaded, with_feedback, EditorForm, FormView,
};
use crate::instant::Instant;
use crate::models::{draft_view, hyphenated, CalendarEvent, EventView};
use crate::month::{has_month, month_index, shift_month};
use crate::repository::{configured, read_event, stored, tombstone, LocalRepository, RepositoryView};
use crate::sync::{
    conflict_views, resolve_sync_conflict, summary_text, sync_event_summary, ConflictView,
    Resolution, SyncConflict,
};
use crate::text::{same_text, signed_decimal, signed_text};
use std::collections::VecDeque;
use vstd::prelude::*;

verus! {

/// What the calendar window shows besides the calendar.
#[derive(Debug)]
pub struct Screen {
    pub status: String,
    pub editor_visible: bool,
    pub auth_visible: bool,
    pub auth_message: String,
    pub auth_password: String,
    pub conflict_visible: bool,
    pub conflict_title: String,
    pub conflict_local: String,
    pub conflict_cloud: String,
    pub exit_pending: bool,
}

/// The contents of the window.
#[verifier::ext_equal]
pub struct ScreenView {
    pub status: Seq<char>,
    pub editor_visible: bool,
    pub auth_visible: bool,
    pub auth_message: Seq<char>,
    pub auth_password: Seq<char>,
    pub conflict_visible: bool,
    pub conflict_title: Seq<char>,
    pub conflict_local: Seq<char>,
    pub conflict_cloud: Seq<char>,
    pub exit_pending: bool,
}

impl View for Screen {
    type V = ScreenView;

    open spec fn view(&self) -> ScreenView {
        ScreenView {
            status: self.status@,
            editor_visible: self.editor_visible,
            auth_visible: self.auth_visible,
            auth_message: self.auth_message@,
            auth_password: self.auth_password@,
            conflict_visible: self.conflict_visible,
            conflict_title: self.conflict_title@,
            conflict_local: self.conflict_local@,
            conflict_cloud: self.conflict_cloud@,
            exit_pending: self.exit_pending,
        }
    }
}

impl Screen {
    /// A window that shows nothing besides the calendar.
    pub fn new() -> (r: Screen)
        ensures
            r@ == (ScreenView {
                status: Seq::<char>::empty(),
                editor_visible: false,
                auth_visible: false,
                auth_message: Seq::<char>::empty(),
                auth_password: Seq::<char>::empty(),
                conflict_visible: false,
                conflict_title: Seq::<char>::empty(),
                conflict_local: Seq::<char>::empty(),
                conflict_cloud: Seq::<char>::empty(),
                exit_pending: false,
            }),
    {
        Screen {
            status: String::new(),
            editor_visible: false,
            auth_visible: false,
            auth_message: String::new(),
            auth_password: String::new(),
            conflict_visible: false,
            conflict_title: String::new(),
            conflict_local: String::new(),
            conflict_cloud: String::new(),
            exit_pending: false,
        }
    }

    /// Shows a status.
    pub fn show(&mut self, status: &str)
        ensures
            final(self)@ == (ScreenView { status: status@, ..old(self)@ }),
    {
        self.status = status.to_owned();
    }

    /// Closes the form for events and shows a status.
    pub fn close_editor(&mut self, status: &str)
        ensures
            final(self)@ == (ScreenView { status: status@, editor_visible: false, ..old(self)@ }),
    {
        self.status = status.to_owned();
        self.editor_visible = false;
    }
}

impl UiState {
    /// Selects an event, or none.
    pub fn select(&mut self, id: Option<String>)
        ensures
            final(self)@ == (UiView { selected_event_id: text_in(id), ..old(self)@ }),
    {
        self.selected_event_id = id;
    }
}

/// The switches of the program: those in force, and those on the settings page.
#[derive(Clone, Copy, Debug, PartialEq, Eq, Structural)]
pub struct Preferences {
    pub close_behavior: i32,
    pub notifications_enabled: bool,
    pub notification_sound_enabled: bool,
    pub autostart_enabled: bool,
}

/// The windows of the program: what they are about, what they show, the form for events, and the
/// preferences.
#[derive(Debug)]
pub struct Desktop {
    pub ui: UiState,
    pub screen: Screen,
    pub editor: EditorForm,
    pub preferences: Preferences,
    /// What the settings page shows.
    pub page: Preferences,
    pub settings_visible: bool,
    pub autostart_status: String,
}

/// What can go wrong outside, as users read it.
#[derive(Clone, Copy, Debug, PartialEq, Eq, Structural)]
pub enum Report {
    SaveCloseBehavior,
    Dock,
    FinalSync,
    SaveSettings,
    TestNotification,
    ReadEvent,
    Delete,
    Sync,
    Holidays,
    RestoreForced,
    ShowForced,
    QueueForced,
    AcknowledgeForced,
    MarkDelivered,
    Notify,
    Tray,
    Identity,
}

/// What users read before the reason of a failure.
pub open spec fn report_text(report: Report) -> Seq<char> {
    match report {
        Report::SaveCloseBehavior => "保存关闭行为失败："@,
        Report::Dock => "吸附到桌面失败："@,
        Report::FinalSync => "退出前同步失败："@,
        Report::SaveSettings => "保存设置失败："@,
        Report::TestNotification => "测试通知失败："@,
        Report::ReadEvent => "读取日程失败："@,
        Report::Delete => "删除失败："@,
        Report::Sync => "同步失败："@,
        Report::Holidays => "使用本地节假日缓存："@,
        Report::RestoreForced => "恢复强制提醒失败："@,
        Report::ShowForced => "显示强制提醒失败，将在下次启动恢复："@,
        Report::QueueForced => "记录强制提醒失败，将自动重试："@,
        Report::AcknowledgeForced => "处理强制提醒失败："@,
        Report::MarkDelivered => "记录提醒投递失败："@,
        Report::Notify => "系统通知发送失败，将自动重试："@,
        Report::Tray => "系统托盘启动失败，请关闭时选择完全退出："@,
        Report::Identity => "Windows 通知身份注册失败，将使用兼容模式："@,
    }
}

/// What users read before the reason of a failure.
pub fn report_label(report: Report) -> (r: &'static str)
    ensures
        r@ == report_text(report),
{
    match report {
        Report::SaveCloseBehavior => "保存关闭行为失败：",
        Report::Dock => "吸附到桌面失败：",
        Report::FinalSync => "退出前同步失败：",
        Report::SaveSettings => "保存设置失败：",
        Report::TestNotification => "测试通知失败：",
        Report::ReadEvent => "读取日程失败：",
        Report::Delete => "删除失败：",
        Report::Sync => "同步失败：",
        Report::Holidays => "使用本地节假日缓存：",
        Report::RestoreForced => "恢复强制提醒失败：",
        Report::ShowForced => "显示强制提醒失败，将在下次启动恢复：",
        Report::QueueForced => "记录强制提醒失败，将自动重试：",
        Report::AcknowledgeForced => "处理强制提醒失败：",
        Report::MarkDelivered => "记录提醒投递失败：",
        Report::Notify => "系统通知发送失败，将自动重试：",
        Report::Tray => "系统托盘启动失败，请关闭时选择完全退出：",
        Report::Identity => "Windows 通知身份注册失败，将使用兼容模式：",
    }
}

/// `prefix` and `rest` as one text.
pub fn both(prefix: &str, rest: &str) -> (r: String)
    ensures
        r@ == prefix@ + rest@,
{
    let mut r = prefix.to_owned();
    r.append(rest);
    r
}

impl Desktop {
    /// Whether nothing but status and state of the calendar differs from `other`.
    pub open spec fn keeps_settings(self, other: Desktop) -> bool {
        &&& self.preferences == other.preferences
        &&& self.page == other.page
        &&& self.settings_visible == other.settings_visible
        &&& self.autostart_status@ == other.autostart_status@
    }

    /// Shows that something failed outside.
    pub fn report(&mut self, report: Report, reason: &str)
        ensures
            final(self).screen@ == (ScreenView {
                status: report_text(report) + reason@,
                ..old(self).screen@
            }),
            final(self).ui@ == old(self).ui@,
            final(self).editor@ == old(self).editor@,
            final(self).keeps_settings(*old(self)),
    {
        self.screen.status = both(report_label(report), reason);
    }

    /// Shows a status.
    pub fn set_status(&mut self, status: &str)
        ensures
            final(self).screen@ == (ScreenView { status: status@, ..old(self).screen@ }),
            final(self).ui@ == old(self).ui@,
            final(self).editor@ == old(self).editor@,
            final(self).keeps_settings(*old(self)),
    {
        self.screen.status = status.to_owned();
    }

    /// Shows the month before the visible one.
    pub fn previous_month(&mut self)
        requires
            has_month(old(self).ui.visible_month, -1),
        ensures
            final(self).ui@ == (UiView {
                visible_month: final(self).ui.visible_month,
                calendar_view: 1,
                ..old(self).ui@
            }),
            final(self).ui.visible_month.valid(),
            final(self).ui.visible_month.day() == 1,
            month_index(final(self).ui.visible_month) == month_index(old(self).ui.visible_month)
                - 1,
            final(self).screen@ == old(self).screen@,
            final(self).editor@ == old(self).editor@,
            final(self).keeps_settings(*old(self)),
    {
        self.ui.visible_month = shift_month(self.ui.visible_month, -1);
        self.ui.calendar_view = 1;
    }

    /// Shows the month after the visible one.
    pub fn next_month(&mut self)
        requires
            has_month(old(self).ui.visible_month, 1),
        ensures
            final(self).ui@ == (UiView {
                visible_month: final(self).ui.visible_month,
                calendar_view: 1,
                ..old(self).ui@
            }),
            final(self).ui.visible_month.valid(),
            final(self).ui.visible_month.day() == 1,
            month_index(final(self).ui.visible_month) == month_index(old(self).ui.visible_month)
                + 1,
            final(self).screen@ == old(self).screen@,
            final(self).editor@ == old(self).editor@,
            final(self).keeps_settings(*old(self)),
    {
        self.ui.visible_month = shift_month(self.ui.visible_month, 1);
        self.ui.calendar_view = 1;
    }

    /// Shows and selects the present day.
    pub fn go_today(&mut self, today: Date)
        ensures
            ({
                let month = final(self).ui.visible_month;
                &&& month.valid() && month.year() == today.year() && month.month()
                    == today.month() && month.day() == 1
                &&& final(self).ui@ == (UiView {
                    visible_month: month,
                    selected_date: today,
                    selected_event_id: None,
                    calendar_view: 0,
                    ..old(self).ui@
                })
            }),
            final(self).screen@ == (ScreenView { editor_visible: false, ..old(self).screen@ }),
            final(self).editor@ == old(self).editor@,
            final(self).keeps_settings(*old(self)),
    {
        self.ui.visible_month = today.first_of_month();
        self.ui.selected_date = today;
        self.ui.selected_event_id = None;
        self.ui.calendar_view = 0;
        self.screen.editor_visible = false;
    }

    /// Shows another view of the calendar; there are the views 1 to 3.
    pub fn select_calendar_view(&mut self, view: i32)
        ensures
            if 1 <= view <= 3 {
                &&& final(self).ui@ == (UiView {
                    calendar_view: view,
                    selected_event_id: None,
                    ..old(self).ui@
                })
                &&& final(self).screen@ == (ScreenView {
                    editor_visible: false,
                    ..old(self).screen@
                })
            } else {
                final(self).ui@ == old(self).ui@ && final(self).screen@ == old(self).screen@
            },
            final(self).editor@ == old(self).editor@,
            final(self).keeps_settings(*old(self)),
    {
        if view < 1 || view > 3 {
            return ;
        }
        self.ui.calendar_view = view;
        self.ui.selected_event_id = None;
        self.screen.editor_visible = false;
    }

    /// Selects a day, given as text, and shows its month.
    pub fn select_day(&mut self, value: &str)
        ensures
            match parsed_date(value@) {
                None => final(self).ui@ == old(self).ui@,
                Some((year, month, day)) => {
                    let date = final(self).ui.selected_date;
                    let shown = final(self).ui.visible_month;
                    let before = old(self).ui.visible_month;
                    &&& date.valid() && date.year() == year && date.month() == month && date.day()
                        == day
                    &&& if before.year() == year && before.month() == month {
                        shown == before
                    } else {
                        shown.valid() && shown.year() == year && shown.month() == month
                            && shown.day() == 1
                    }
                    &&& final(self).ui@ == (UiView {
                        selected_date: date,
                        visible_month: shown,
                        selected_event_id: None,
                        calendar_view: 1,
                        ..old(self).ui@
                    })
                },
            },
            final(self).screen@ == (ScreenView { editor_visible: false, ..old(self).screen@ }),
            final(self).editor@ == old(self).editor@,
            final(self).keeps_settings(*old(self)),
    {
        if let Some(date) = Date::parse(value) {
            self.ui.selected_date = date;
            self.ui.selected_event_id = None;
            self.ui.calendar_view = 1;
            if date.month() != self.ui.visible_month.month() || date.year()
                != self.ui.visible_month.year() {
                self.ui.visible_month = date.first_of_month();
            }
        }
        self.screen.editor_visible = false;
    }

    /// Opens an event in the form. Returns whether there is such an event.
    pub fn select_event(&mut self, repository: &LocalRepository, id: &str) -> (found: bool)
        requires
            repository.wf(),
        ensures
            final(self).ui@ == (UiView { selected_event_id: Some(id@), ..old(self).ui@ }),
            found == read_event(repository@, id@) is Some,
            match read_event(repository@, id@) {
                Some(event) => final(self).editor@ == loaded(old(self).editor@, event)
                    && final(self).screen@ == (ScreenView {
                    editor_visible: true,
                    ..old(self).screen@
                }),
                None => final(self).editor@ == old(self).editor@ && final(self).screen@
                    == (ScreenView {
                    status: report_text(Report::ReadEvent) + "event not found"@,
                    ..old(self).screen@
                }),
            },
            final(self).keeps_settings(*old(self)),
    {
        self.ui.selected_event_id = Some(id.to_owned());
        match repository.event(id) {
            Some(event) => {
                self.editor.load_event_into_editor(&event);
                self.screen.editor_visible = true;
                true
            },
            None => {
                self.screen.status = both(report_label(Report::ReadEvent), "event not found");
                false
            },
        }
    }

    /// Opens the form for a new event on the selected date; `hour` is the present hour.
    pub fn new_event(&mut self, hour: u32)
        requires
            hour < 24,
        ensures
            final(self).ui@ == (UiView { selected_event_id: None, ..old(self).ui@ }),
            final(self).editor@ == cleared(
                old(self).editor@,
                old(self).ui.selected_date,
                hour as int,
            ),
            final(self).screen@ == (ScreenView { editor_visible: true, ..old(self).screen@ }),
            final(self).keeps_settings(*old(self)),
    {
        self.ui.selected_event_id = None;
        let date = self.ui.selected_date;
        self.editor.clear_editor(date, hour);
        self.screen.editor_visible = true;
    }

    /// Puts the window into the tray.
    pub fn hide_main_window(&mut self)
        ensures
            final(self).screen@ == (ScreenView {
                status: "已隐藏到系统托盘，双击托盘图标可恢复"@,
                ..old(self).screen@
            }),
            final(self).ui@ == old(self).ui@,
            final(self).editor@ == old(self).editor@,
            final(self).keeps_settings(*old(self)),
    {
        self.set_status("已隐藏到系统托盘，双击托盘图标可恢复");
    }

    /// Brings the window back from the tray.
    pub fn show_main_window(&mut self)
        ensures
            final(self).screen@ == (ScreenView {
                status: "主界面已从系统托盘恢复"@,
                ..old(self).screen@
            }),
            final(self).ui@ == old(self).ui@,
            final(self).editor@ == old(self).editor@,
            final(self).keeps_settings(*old(self)),
    {
        self.set_status("主界面已从系统托盘恢复");
    }

    /// The calendar was docked to the desktop.
    pub fn docked(&mut self)
        ensures
            final(self).screen@ == (ScreenView {
                status: "日历已吸附到桌面；可从托盘恢复主程序"@,
                ..old(self).screen@
            }),
            final(self).ui@ == old(self).ui@,
            final(self).editor@ == old(self).editor@,
            final(self).keeps_settings(*old(self)),
    {
        self.set_status("日历已吸附到桌面；可从托盘恢复主程序");
    }
}

/// The event that is being edited.
pub open spec fn existing_event(ui: UiView, repository: RepositoryView) -> Option<EventView> {
    match ui.selected_event_id {
        Some(id) => read_event(repository, id),
        None => None,
    }
}

/// Whether `event` is what the form makes, at a time of the clock, of the edited event or of a new
/// one, whose identity is a UUID.
pub open spec fn made_by_form(
    form: FormView,
    existing: Option<EventView>,
    event: EventView,
) -> bool {
    event.updated_at.of_the_clock() && match existing {
        Some(base) => edited(form, base, event.updated_at, event),
        None => edited(
            form,
            draft_view(event.id, event.start_at, event.end_at, event.updated_at),
            event.updated_at,
            event,
        ) && hyphenated(event.id),
    }
}

/// Whether `event` is the event `id` of `repository`, marked as deleted at a time of the clock.
pub open spec fn marked_deleted(
    repository: RepositoryView,
    id: Seq<char>,
    event: EventView,
) -> bool {
    event.updated_at.of_the_clock() && event == tombstone(
        repository.events[id],
        event.updated_at,
    )
}

/// What is to be done to save an event.
#[derive(Debug)]
pub enum SaveAction {
    /// Nothing.
    Idle,
    /// Send the event to the server, with this token.
    Upload(String, CalendarEvent),
    /// Store the event on this device.
    Store(CalendarEvent),
}

/// What is to be done to delete an event.
#[derive(Debug)]
pub enum DeleteAction {
    /// Nothing.
    Idle,
    /// Ask the server, with this token, to delete the event of this identity and version.
    Remote(String, String, i64),
    /// Store this event, marked as deleted, on this device.
    Mark(CalendarEvent),
}

impl Desktop {
    /// The form was saved: with a session the event goes to the server, without one it is to be
    /// stored on this device. A form that makes no event stays open, with the reason.
    pub fn save_event(&mut self, repository: &LocalRepository) -> (r: SaveAction)
        requires
            repository.wf(),
        ensures
            final(self).keeps_settings(*old(self)),
            final(self).ui@ == old(self).ui@,
            ({
                let form = old(self).editor@;
                let base = existing_event(old(self).ui@, repository@);
                if form.saving {
                    &&& r is Idle
                    &&& final(self).screen@ == old(self).screen@
                    &&& final(self).editor@ == form
                } else {
                    match form_error(form) {
                        Some(e) => {
                            let message = "无法保存："@ + editor_error_text(e);
                            &&& r is Idle
                            &&& final(self).screen@ == (ScreenView {
                                status: message,
                                ..old(self).screen@
                            })
                            &&& final(self).editor@ == with_feedback(form, false, message, true)
                        },
                        None => match old(self).ui@.token {
                            Some(token) => {
                                &&& r matches SaveAction::Upload(given, event) && given@ == token
                                    && made_by_form(form, base, event@)
                                &&& final(self).screen@ == (ScreenView {
                                    status: "正在保存到云端…"@,
                                    ..old(self).screen@
                                })
                                &&& final(self).editor@ == with_feedback(
                                    form,
                                    true,
                                    "正在保存到云端…"@,
                                    false,
                                )
                            },
                            None => {
                                &&& r matches SaveAction::Store(event) && made_by_form(
                                    form,
                                    base,
                                    event@,
                                )
                                &&& final(self).screen@ == old(self).screen@
                                &&& final(self).editor@ == with_feedback(form, true, ""@, false)
                            },
                        },
                    }
                }
            }),
    {
        if self.editor.saving {
            return SaveAction::Idle;
        }
        let existing = match &self.ui.selected_event_id {
            Some(id) => repository.event(id.as_str()),
            None => None,
        };
        let ghost base = existing_event(old(self).ui@, repository@);
        assert(match existing {
            Some(e) => base == Some(e@),
            None => base is None,
        });
        match self.editor.event_from_editor(existing) {
            Err(e) => {
                let message = both("无法保存：", e.message());
                self.editor.set_feedback(false, message.as_str(), true);
                self.screen.show(message.as_str());
                SaveAction::Idle
            },
            Ok(event) => {
                assert(made_by_form(old(self).editor@, base, event@));
                match &self.ui.token {
                    Some(token) => {
                        let token = token.clone();
                        self.editor.set_feedback(true, "正在保存到云端…", false);
                        self.screen.show("正在保存到云端…");
                        SaveAction::Upload(token, event)
                    },
                    None => {
                        self.editor.set_feedback(true, "", false);
                        SaveAction::Store(event)
                    },
                }
            },
        }
    }

    /// The event could not be stored on this device: the form stays open, with the reason.
    pub fn save_failed(&mut self, reason: &str)
        ensures
            ({
                let message = "保存失败："@ + reason@;
                &&& final(self).screen@ == (ScreenView { status: message, ..old(self).screen@ })
                &&& final(self).editor@ == with_feedback(old(self).editor@, false, message, true)
            }),
            final(self).ui@ == old(self).ui@,
            final(self).keeps_settings(*old(self)),
    {
        let message = both("保存失败：", reason);
        self.editor.set_feedback(false, message.as_str(), true);
        self.screen.show(message.as_str());
    }

    /// The event was written to the store of this device, or that failed.
    pub fn event_stored(
        &mut self,
        repository: &mut LocalRepository,
        event: CalendarEvent,
        result: Result<(), String>,
    )
        requires
            old(repository).wf(),
        ensures
            final(repository).wf(),
            final(self).keeps_settings(*old(self)),
            match result {
                Ok(()) => {
                    &&& final(repository)@ == stored(old(repository)@, event@)
                    &&& final(self).ui@ == (UiView {
                        selected_event_id: Some(event.id@),
                        ..old(self).ui@
                    })
                    &&& final(self).screen@ == (ScreenView {
                        status: "日程已保存到本机，登录后可选择同步"@,
                        editor_visible: false,
                        ..old(self).screen@
                    })
                    &&& final(self).editor@ == (FormView { saving: false, ..old(self).editor@ })
                },
                Err(e) => {
                    let message = "保存失败："@ + e@;
                    &&& final(repository)@ == old(repository)@
                    &&& final(self).ui@ == old(self).ui@
                    &&& final(self).screen@ == (ScreenView { status: message, ..old(self).screen@ })
                    &&& final(self).editor@ == with_feedback(
                        old(self).editor@,
                        false,
                        message,
                        true,
                    )
                },
            },
    {
        match result {
            Ok(()) => {
                self.editor.stop_saving();
                repository.upsert_event(&event);
                self.ui.select(Some(event.id));
                self.screen.close_editor("日程已保存到本机，登录后可选择同步");
            },
            Err(e) => self.save_failed(e.as_str()),
        }
    }

    /// The server answered to an event that was sent to it, and its answer was written to the
    /// store of this device, or one of the two failed.
    pub fn event_uploaded(
        &mut self,
        repository: &mut LocalRepository,
        result: Result<CalendarEvent, String>,
    )
        requires
            old(repository).wf(),
        ensures
            final(repository).wf(),
            final(self).keeps_settings(*old(self)),
            match result {
                Ok(remote) => {
                    &&& final(repository)@ == stored(old(repository)@, remote@)
                    &&& final(self).ui@ == (UiView {
                        selected_event_id: Some(remote.id@),
                        ..old(self).ui@
                    })
                    &&& final(self).screen@ == (ScreenView {
                        status: "日程已保存，云端与本地一致"@,
                        editor_visible: false,
                        ..old(self).screen@
                    })
                    &&& final(self).editor@ == (FormView { saving: false, ..old(self).editor@ })
                },
                Err(e) => {
                    let message = "云端保存失败，本地未修改："@ + e@;
                    &&& final(repository)@ == old(repository)@
                    &&& final(self).ui@ == old(self).ui@
                    &&& final(self).screen@ == (ScreenView { status: message, ..old(self).screen@ })
                    &&& final(self).editor@ == with_feedback(
                        old(self).editor@,
                        false,
                        message,
                        true,
                    )
                },
            },
    {
        match result {
            Ok(remote) => {
                self.editor.stop_saving();
                repository.upsert_event(&remote);
                self.ui.select(Some(remote.id));
                self.screen.close_editor("日程已保存，云端与本地一致");
            },
            Err(e) => {
                let message = both("云端保存失败，本地未修改：", e.as_str());
                self.editor.set_feedback(false, message.as_str(), true);
                self.screen.show(message.as_str());
            },
        }
    }

    /// The edited event is to be deleted: with a session the server deletes it, without one it is
    /// to be marked as deleted on this device.
    pub fn delete_event(&mut self, repository: &LocalRepository) -> (r: DeleteAction)
        requires
            repository.wf(),
        ensures
            final(self).keeps_settings(*old(self)),
            final(self).editor@ == old(self).editor@,
            final(self).ui@ == old(self).ui@,
            match old(self).ui@.selected_event_id {
                None => r is Idle && final(self).screen@ == old(self).screen@,
                Some(id) => match (read_event(repository@, id), old(self).ui@.token) {
                    (None, _) => {
                        &&& r is Idle
                        &&& final(self).screen@ == (ScreenView {
                            status: "日程不存在"@,
                            ..old(self).screen@
                        })
                    },
                    (Some(event), Some(token)) => {
                        &&& r matches DeleteAction::Remote(given, asked, version) && given@ == token
                            && asked@ == event.id && version == event.version
                        &&& final(self).screen@ == (ScreenView {
                            status: "正在从云端删除…"@,
                            ..old(self).screen@
                        })
                    },
                    (Some(event), None) => {
                        &&& r matches DeleteAction::Mark(marked) && marked_deleted(
                            repository@,
                            id,
                            marked@,
                        )
                        &&& final(self).screen@ == old(self).screen@
                    },
                },
            },
    {
        let id = match &self.ui.selected_event_id {
            Some(id) => id.clone(),
            None => {
                return DeleteAction::Idle;
            },
        };
        match &self.ui.token {
            Some(token) => match repository.event(id.as_str()) {
                Some(event) => {
                    let token = token.clone();
                    self.screen.show("正在从云端删除…");
                    DeleteAction::Remote(token, event.id, event.version)
                },
                None => {
                    self.screen.show("日程不存在");
                    DeleteAction::Idle
                },
            },
            None => match repository.deletion(id.as_str(), Instant::now()) {
                Some(marked) => DeleteAction::Mark(marked),
                None => {
                    self.screen.show("日程不存在");
                    DeleteAction::Idle
                },
            },
        }
    }

    /// The event, marked as deleted, was written to the store of this device, or that failed.
    pub fn event_marked(
        &mut self,
        repository: &mut LocalRepository,
        event: &CalendarEvent,
        result: Result<(), String>,
    )
        requires
            old(repository).wf(),
        ensures
            final(repository).wf(),
            final(self).keeps_settings(*old(self)),
            final(self).editor@ == old(self).editor@,
            match result {
                Ok(()) => {
                    &&& final(repository)@ == stored(old(repository)@, event@)
                    &&& final(self).ui@ == (UiView { selected_event_id: None, ..old(self).ui@ })
                    &&& final(self).screen@ == (ScreenView {
                        status: "日程已从本机删除，登录后可选择同步"@,
                        editor_visible: false,
                        ..old(self).screen@
                    })
                },
                Err(e) => {
                    &&& final(repository)@ == old(repository)@
                    &&& final(self).ui@ == old(self).ui@
                    &&& final(self).screen@ == (ScreenView {
                        status: report_text(Report::Delete) + e@,
                        ..old(self).screen@
                    })
                },
            },
    {
        match result {
            Ok(()) => {
                repository.upsert_event(event);
                self.ui.select(None);
                self.screen.close_editor("日程已从本机删除，登录后可选择同步");
            },
            Err(e) => self.report(Report::Delete, e.as_str()),
        }
    }

    /// The server answered to a deletion, and its answer was written to the store of this device,
    /// or one of the two failed.
    pub fn event_deleted(
        &mut self,
        repository: &mut LocalRepository,
        result: Result<CalendarEvent, String>,
    )
        requires
            old(repository).wf(),
        ensures
            final(repository).wf(),
            final(self).keeps_settings(*old(self)),
            final(self).editor@ == old(self).editor@,
            match result {
                Ok(remote) => {
                    &&& final(repository)@ == stored(old(repository)@, remote@)
                    &&& final(self).ui@ == (UiView { selected_event_id: None, ..old(self).ui@ })
                    &&& final(self).screen@ == (ScreenView {
                        status: "日程已从云端与本地删除"@,
                        editor_visible: false,
                        ..old(self).screen@
                    })
                },
                Err(e) => {
                    &&& final(repository)@ == old(repository)@
                    &&& final(self).ui@ == old(self).ui@
                    &&& final(self).screen@ == (ScreenView {
                        status: "云端删除失败，本地仍保留："@ + e@,
                        ..old(self).screen@
                    })
                },
            },
    {
        match result {
            Ok(remote) => {
                repository.upsert_event(&remote);
                self.ui.select(None);
                self.screen.close_editor("日程已从云端与本地删除");
            },
            Err(e) => {
                self.screen.show(both("云端删除失败，本地仍保留：", e.as_str()).as_str());
            },
        }
    }
}

/// What settles a difference, with the session that it needs.
#[derive(Debug)]
pub struct ResolveTask {
    pub token: String,
    pub conflict_id: String,
    pub resolution: Resolution,
}

/// The session with which a comparison may begin, if one may: none is running, and no differences
/// wait for the user.
pub open spec fn session_to_compare(ui: UiView) -> Option<Seq<char>> {
    if ui.sync_in_progress || ui.sync_conflicts.len() > 0 {
        None
    } else {
        ui.token
    }
}

/// The state while a comparison runs.
pub open spec fn comparing(ui: UiView) -> UiView {
    UiView { sync_in_progress: true, ..ui }
}

/// The state after a comparison that found differences, or none, and ended at `cursor`.
pub open spec fn after_comparison(ui: UiView, found: Seq<ConflictView>, cursor: i64) -> UiView {
    UiView {
        sync_conflicts: found,
        pending_sync_cursor: if found.len() > 0 {
            Some(cursor)
        } else {
            None
        },
        sync_in_progress: false,
        ..ui
    }
}

/// The state with another session, or none.
pub open spec fn with_session(
    ui: UiView,
    token: Option<Seq<char>>,
    email: Option<Seq<char>>,
) -> UiView {
    UiView {
        token,
        email,
        sync_conflicts: Seq::empty(),
        pending_sync_cursor: None,
        sync_in_progress: false,
        ..ui
    }
}

/// The window with the first difference shown, or none.
pub open spec fn with_conflict(screen: ScreenView, conflicts: Seq<ConflictView>) -> ScreenView {
    if conflicts.len() == 0 {
        ScreenView { conflict_visible: false, ..screen }
    } else {
        let first = conflicts[0];
        ScreenView {
            conflict_title: first.local.title,
            conflict_local: summary_text(Some(first.local)),
            conflict_cloud: summary_text(first.remote),
            conflict_visible: true,
            ..screen
        }
    }
}

/// The differences that are left after one was settled: the first one goes if it is that one.
pub open spec fn after_settling(conflicts: Seq<ConflictView>, id: Seq<char>) -> Seq<ConflictView> {
    if conflicts.len() > 0 && conflicts[0].local.id == id {
        conflicts.subrange(1, conflicts.len() as int)
    } else {
        conflicts
    }
}

/// The cursor that is kept once the difference of the event `id` is settled, if it is the last.
pub open spec fn kept_cursor(ui: UiView, id: Seq<char>) -> Option<Seq<char>> {
    match ui.pending_sync_cursor {
        Some(cursor) if after_settling(ui.sync_conflicts, id).len() == 0 => Some(
            signed_decimal(cursor as int),
        ),
        _ => None,
    }
}

/// Whether `r` is what settles `conflict`, as the user chose.
pub open spec fn settles(conflict: ConflictView, use_local: bool, r: Resolution) -> bool {
    match (use_local, conflict.local.deleted, conflict.remote) {
        (true, true, Some(remote)) => r matches Resolution::DeleteRemote(id, version) && id@
            == remote.id && version == remote.version,
        (true, true, None) => r matches Resolution::Purge(id) && id@ == conflict.local.id,
        (true, false, Some(remote)) => r matches Resolution::Push(event) && event@ == (EventView {
            version: remote.version,
            ..conflict.local
        }),
        (true, false, None) => r matches Resolution::Push(event) && event@ == conflict.local,
        (false, _, Some(remote)) => r matches Resolution::Take(event) && event@ == remote,
        (false, _, None) => r matches Resolution::Purge(id) && id@ == conflict.local.id,
    }
}

impl UiState {
    /// The first difference leaves if it is that of the event `id`. Returns whether differences
    /// are left, and the cursor that is to be kept when none is.
    fn drop_conflict(&mut self, id: &str) -> (r: (bool, Option<i64>))
        ensures
            ({
                let left = after_settling(old(self)@.sync_conflicts, id@);
                &&& r.0 == (left.len() > 0)
                &&& r.1 == (if left.len() == 0 {
                    old(self)@.pending_sync_cursor
                } else {
                    None
                })
                &&& final(self)@ == (UiView {
                    sync_conflicts: left,
                    pending_sync_cursor: if left.len() == 0 {
                        None
                    } else {
                        old(self)@.pending_sync_cursor
                    },
                    ..old(self)@
                })
            }),
    {
        let ghost before = self.sync_conflicts@;
        if self.sync_conflicts.len() > 0 && same_text(
            self.sync_conflicts[0].local.id.as_str(),
            id,
        ) {
            let _ = self.sync_conflicts.pop_front();
            assert(conflict_views(self.sync_conflicts@) =~= conflict_views(before).subrange(
                1,
                before.len() as int,
            ));
        }
        if self.sync_conflicts.len() == 0 {
            let cursor = self.pending_sync_cursor;
            self.pending_sync_cursor = None;
            (false, cursor)
        } else {
            (true, None)
        }
    }

    /// Takes over what a comparison with the server found.
    fn take_conflicts(&mut self, conflicts: VecDeque<SyncConflict>, cursor: i64)
        ensures
            final(self)@ == after_comparison(old(self)@, conflict_views(conflicts@), cursor),
    {
        self.sync_in_progress = false;
        self.pending_sync_cursor = if conflicts.len() > 0 {
            Some(cursor)
        } else {
            None
        };
        self.sync_conflicts = conflicts;
    }

    /// Changes the session; what belonged to the last one is gone.
    pub fn change_session(&mut self, token: Option<String>, email: Option<String>)
        ensures
            final(self)@ == with_session(old(self)@, text_in(token), text_in(email)),
    {
        self.token = token;
        self.email = email;
        self.sync_conflicts.clear();
        self.pending_sync_cursor = None;
        self.sync_in_progress = false;
        assert(conflict_views(self.sync_conflicts@) =~= Seq::<ConflictView>::empty());
    }
}

impl Screen {
    /// Shows the first of `conflicts`, or none.
    pub fn show_conflict(&mut self, conflicts: &VecDeque<SyncConflict>)
        ensures
            final(self)@ == with_conflict(old(self)@, conflict_views(conflicts@)),
    {
        if conflicts.len() == 0 {
            self.conflict_visible = false;
            return ;
        }
        let first = &conflicts[0];
        self.conflict_title = first.local.title.clone();
        self.conflict_local = sync_event_summary(Some(&first.local));
        self.conflict_cloud = match &first.remote {
            Some(remote) => sync_event_summary(Some(remote)),
            None => sync_event_summary(None),
        };
        self.conflict_visible = true;
    }

    /// Hides the differences and shows a status.
    pub fn hide_conflict(&mut self, status: &str)
        ensures
            final(self)@ == (ScreenView {
                status: status@,
                conflict_visible: false,
                ..old(self)@
            }),
    {
        self.conflict_visible = false;
        self.status = status.to_owned();
    }
}

impl Desktop {
    /// Shows the first difference, or none.
    pub fn show_current_sync_conflict(&mut self)
        ensures
            final(self).screen@ == with_conflict(
                old(self).screen@,
                old(self).ui@.sync_conflicts,
            ),
            final(self).ui@ == old(self).ui@,
            final(self).editor@ == old(self).editor@,
            final(self).keeps_settings(*old(self)),
    {
        self.screen.show_conflict(&self.ui.sync_conflicts);
    }

    /// The user decided about the first difference. Returns what settles it.
    pub fn resolve_sync_conflict(&mut self, use_local: bool) -> (r: Option<ResolveTask>)
        ensures
            final(self).ui@ == old(self).ui@,
            final(self).editor@ == old(self).editor@,
            final(self).keeps_settings(*old(self)),
            match old(self).ui@.token {
                None => r is None && final(self).screen@ == (ScreenView {
                    status: "登录状态已失效，请重新登录"@,
                    ..old(self).screen@
                }),
                Some(token) => if old(self).ui@.sync_conflicts.len() == 0 {
                    r is None && final(self).screen@ == (ScreenView {
                        conflict_visible: false,
                        ..old(self).screen@
                    })
                } else {
                    let first = old(self).ui@.sync_conflicts[0];
                    &&& r matches Some(task) && task.token@ == token && task.conflict_id@
                        == first.local.id && settles(first, use_local, task.resolution)
                    &&& final(self).screen@ == (ScreenView {
                        status: if use_local {
                            "正在将本地版本写入云端…"@
                        } else {
                            "正在采用云端版本…"@
                        },
                        conflict_visible: false,
                        ..old(self).screen@
                    })
                },
            },
    {
        let token = match &self.ui.token {
            Some(token) => token.clone(),
            None => {
                self.screen.show("登录状态已失效，请重新登录");
                return None;
            },
        };
        if self.ui.sync_conflicts.len() == 0 {
            self.screen.conflict_visible = false;
            return None;
        }
        let first = &self.ui.sync_conflicts[0];
        assert(first@ == self.ui@.sync_conflicts[0]);
        let resolution = resolve_sync_conflict(first, use_local);
        let conflict_id = first.local.id.clone();
        self.screen.hide_conflict(
            if use_local {
                "正在将本地版本写入云端…"
            } else {
                "正在采用云端版本…"
            },
        );
        Some(ResolveTask { token, conflict_id, resolution })
    }

    /// What is to be written under `sync_cursor` once the difference of the event `id` is settled:
    /// the cursor of the comparison, when that difference is the last one.
    pub fn cursor_to_write(&self, id: &str) -> (r: Option<String>)
        ensures
            text_in(r) == kept_cursor(self.ui@, id@),
    {
        let last = self.ui.sync_conflicts.len() == 0 || (self.ui.sync_conflicts.len() == 1
            && same_text(self.ui.sync_conflicts[0].local.id.as_str(), id));
        match self.ui.pending_sync_cursor {
            Some(cursor) if last => Some(signed_text(cursor)),
            _ => None,
        }
    }

    /// The difference of the event `id` was settled, or that failed. When the last one is settled,
    /// the cursor of the comparison is kept, if it could be `written` to the store of this device.
    pub fn conflict_resolved(
        &mut self,
        repository: &mut LocalRepository,
        id: &str,
        result: Result<(), String>,
        written: bool,
    )
        requires
            old(repository).wf(),
        ensures
            final(repository).wf(),
            final(self).editor@ == old(self).editor@,
            final(self).keeps_settings(*old(self)),
            ({
                let before = old(self).ui@;
                let left = after_settling(before.sync_conflicts, id@);
                match result {
                    Ok(()) => {
                        &&& final(self).ui@ == (UiView {
                            sync_conflicts: left,
                            pending_sync_cursor: if left.len() == 0 {
                                None
                            } else {
                                before.pending_sync_cursor
                            },
                            ..before
                        })
                        &&& final(repository)@ == match kept_cursor(before, id@) {
                            Some(cursor) if written => configured(
                                old(repository)@,
                                "sync_cursor"@,
                                cursor,
                            ),
                            _ => old(repository)@,
                        }
                        &&& final(self).screen@ == if left.len() > 0 {
                            with_conflict(old(self).screen@, left)
                        } else {
                            ScreenView {
                                status: "本地与云端已保持一致"@,
                                conflict_visible: false,
                                ..old(self).screen@
                            }
                        }
                    },
                    Err(e) => {
                        &&& final(self).ui@ == before
                        &&& final(repository)@ == old(repository)@
                        &&& final(self).screen@ == with_conflict(
                            ScreenView {
                                status: "处理数据差异失败："@ + e@,
                                ..old(self).screen@
                            },
                            before.sync_conflicts,
                        )
                    },
                }
            }),
    {
        match result {
            Ok(()) => {
                let (has_more, cursor) = self.ui.drop_conflict(id);
                if let Some(cursor) = cursor {
                    if written {
                        repository.set_setting("sync_cursor", signed_text(cursor).as_str());
                    }
                }
                if has_more {
                    self.screen.show_conflict(&self.ui.sync_conflicts);
                } else {
                    self.screen.hide_conflict("本地与云端已保持一致");
                }
            },
            Err(e) => {
                self.screen.show(both("处理数据差异失败：", e.as_str()).as_str());
                self.screen.show_conflict(&self.ui.sync_conflicts);
            },
        }
    }

    /// A comparison with the server is due. Returns the session for it, unless one is running,
    /// differences wait for the user, or there is no session.
    pub fn sync_in_background(&mut self) -> (r: Option<String>)
        ensures
            final(self).screen@ == old(self).screen@,
            final(self).editor@ == old(self).editor@,
            final(self).keeps_settings(*old(self)),
            text_in(r) == session_to_compare(old(self).ui@),
            final(self).ui@ == if r is Some {
                comparing(old(self).ui@)
            } else {
                old(self).ui@
            },
    {
        if self.ui.sync_in_progress || self.ui.sync_conflicts.len() > 0 {
            return None;
        }
        match &self.ui.token {
            Some(token) => {
                let token = token.clone();
                self.ui.sync_in_progress = true;
                Some(token)
            },
            None => None,
        }
    }

    /// A comparison with the server ended: with the differences that it found and the server's
    /// cursor, or with a failure.
    pub fn sync_finished(&mut self, result: Result<(VecDeque<SyncConflict>, i64), String>)
        ensures
            final(self).editor@ == old(self).editor@,
            final(self).keeps_settings(*old(self)),
            match result {
                Ok((conflicts, cursor)) => {
                    let found = conflict_views(conflicts@);
                    &&& final(self).ui@ == after_comparison(old(self).ui@, found, cursor)
                    &&& final(self).screen@ == if found.len() > 0 {
                        with_conflict(
                            ScreenView {
                                status: "检测到本地与云端差异，请选择采用哪一份"@,
                                ..old(self).screen@
                            },
                            found,
                        )
                    } else {
                        ScreenView {
                            status: "本地与云端已保持一致"@,
                            conflict_visible: false,
                            ..old(self).screen@
                        }
                    }
                },
                Err(e) => {
                    &&& final(self).ui@ == (UiView { sync_in_progress: false, ..old(self).ui@ })
                    &&& final(self).screen@ == (ScreenView {
                        status: report_text(Report::Sync) + e@,
                        ..old(self).screen@
                    })
                },
            },
    {
        match result {
            Ok((conflicts, cursor)) => {
                let has_conflicts: bool = conflicts.len() > 0;
                self.ui.take_conflicts(conflicts, cursor);
                if has_conflicts {
                    self.screen.show("检测到本地与云端差异，请选择采用哪一份");
                    self.screen.show_conflict(&self.ui.sync_conflicts);
                } else {
                    self.screen.hide_conflict("本地与云端已保持一致");
                }
            },
            Err(e) => {
                self.ui.sync_in_progress = false;
                self.screen.show(both(report_label(Report::Sync), e.as_str()).as_str());
            },
        }
    }
}

/// The side that the user chose wins. The server's choice never changes anything there: the
/// server's event is taken over, or the one that the server lacks is dropped. The choice of this
/// device is carried to the server: its event with all that the user set, under the version that
/// the server holds, or its deletion.
pub proof fn the_chosen_side_wins(conflict: ConflictView, use_local: bool, r: Resolution)
    requires
        settles(conflict, use_local, r),
    ensures
        !use_local ==> !(r is Push) && !(r is DeleteRemote),
        !use_local && conflict.remote is Some ==> (r matches Resolution::Take(event)
            && conflict.remote == Some(event@)),
        !use_local && conflict.remote is None ==> (r matches Resolution::Purge(id) && id@
            == conflict.local.id),
        use_local ==> !(r is Take),
        use_local && !conflict.local.deleted ==> (r matches Resolution::Push(event) && {
            let local = conflict.local;
            &&& event@.id == local.id
            &&& event@.title == local.title
            &&& event@.notes == local.notes
            &&& event@.location == local.location
            &&& event@.start_at == local.start_at
            &&& event@.end_at == local.end_at
            &&& event@.timezone == local.timezone
            &&& event@.all_day == local.all_day
            &&& event@.color == local.color
            &&& event@.recurrence_rule == local.recurrence_rule
            &&& event@.reminder_minutes == local.reminder_minutes
            &&& event@.force_reminder == local.force_reminder
            &&& event@.completed == local.completed
            &&& !event@.deleted
            &&& conflict.remote matches Some(remote) ==> event@.version == remote.version
            &&& conflict.remote is None ==> event@.version == local.version
        }),
        use_local && conflict.local.deleted ==> match conflict.remote {
            Some(remote) => r matches Resolution::DeleteRemote(id, version) && id@ == remote.id
                && version == remote.version,
            None => r matches Resolution::Purge(id) && id@ == conflict.local.id,
        },
{
}

/// Differences are settled one after another, in their order: the one that is settled leaves, all
/// others stay, and an answer that comes late for another event removes none.
pub proof fn differences_are_settled_in_turn(conflicts: Seq<ConflictView>, id: Seq<char>)
    ensures
        conflicts.len() > 0 && conflicts[0].local.id == id ==> {
            &&& after_settling(conflicts, id).len() == conflicts.len() - 1
            &&& forall|i: int|
                0 <= i < conflicts.len() - 1 ==> #[trigger] after_settling(conflicts, id)[i]
                    == conflicts[i + 1]
        },
        conflicts.len() > 0 && conflicts[0].local.id != id ==> after_settling(conflicts, id)
            == conflicts,
        conflicts.len() == 0 ==> after_settling(conflicts, id).len() == 0,
{
}

/// The window shows a difference exactly while there is one: the first, with the title and both
/// sides of it. Nothing else in the window changes.
pub proof fn the_first_difference_is_shown(screen: ScreenView, conflicts: Seq<ConflictView>)
    ensures
        with_conflict(screen, conflicts).conflict_visible == (conflicts.len() > 0),
        conflicts.len() > 0 ==> {
            let shown = with_conflict(screen, conflicts);
            &&& shown.conflict_title == conflicts[0].local.title
            &&& shown.conflict_local == summary_text(Some(conflicts[0].local))
            &&& shown.conflict_cloud == summary_text(conflicts[0].remote)
        },
        ({
            let shown = with_conflict(screen, conflicts);
            &&& shown.status == screen.status
            &&& shown.editor_visible == screen.editor_visible
            &&& shown.auth_visible == screen.auth_visible
            &&& shown.auth_message == screen.auth_message
            &&& shown.auth_password == screen.auth_password
            &&& shown.exit_pending == screen.exit_pending
        }),
{
}

/// The cursor of a comparison is kept exactly when its last difference is settled: while another
/// one waits, the next comparison begins where the last one did.
pub proof fn the_cursor_waits_for_the_last_difference(ui: UiView, id: Seq<char>, cursor: i64)
    ensures
        ui.pending_sync_cursor is None ==> kept_cursor(ui, id) is None,
        ui.pending_sync_cursor == Some(cursor) ==> (kept_cursor(ui, id) is Some <==> (
        ui.sync_conflicts.len() == 0 || (ui.sync_conflicts.len() == 1
            && ui.sync_conflicts[0].local.id == id))),
        ui.pending_sync_cursor == Some(cursor) && kept_cursor(ui, id) is Some ==> kept_cursor(
            ui,
            id,
        ) == Some(signed_decimal(cursor as int)),
{
}

/// Saving the form changes the event that is selected: its identity, its version, its color and
/// its time zone stay, and it is not deleted by that. Without one it makes a new event, which no
/// version on the server stands for yet.
pub proof fn saving_changes_the_selected_event(
    ui: UiView,
    repository: RepositoryView,
    form: FormView,
    event: EventView,
)
    requires
        made_by_form(form, existing_event(ui, repository), event),
    ensures
        ui.selected_event_id matches Some(id) ==> repository.events.contains_key(id) ==> {
            let base = repository.events[id];
            &&& event.id == base.id
            &&& event.version == base.version
            &&& event.color == base.color
            &&& event.timezone == base.timezone
            &&& event.deleted == base.deleted
        },
        ui.selected_event_id is None ==> {
            &&& event.id.len() == 36
            &&& event.version == 0
            &&& !event.deleted
            &&& event.color == "#6878d6"@
            &&& event.timezone == "Asia/Shanghai"@
        },
        event.updated_seq == 0,
{
}

/// Deleting the selected event on this device leaves all that the user set and its version, so
/// that the deletion can be compared with the server.
pub proof fn a_marked_event_keeps_its_contents(
    repository: RepositoryView,
    id: Seq<char>,
    event: EventView,
)
    requires
        marked_deleted(repository, id, event),
    ensures
        event.deleted,
        event.id == repository.events[id].id,
        event.title == repository.events[id].title,
        event.notes == repository.events[id].notes,
        event.location == repository.events[id].location,
        event.start_at == repository.events[id].start_at,
        event.end_at == repository.events[id].end_at,
        event.timezone == repository.events[id].timezone,
        event.all_day == repository.events[id].all_day,
        event.color == repository.events[id].color,
        event.recurrence_rule == repository.events[id].recurrence_rule,
        event.reminder_minutes == repository.events[id].reminder_minutes,
        event.force_reminder == repository.events[id].force_reminder,
        event.completed == repository.events[id].completed,
        event.version == repository.events[id].version,
{
}

/// One comparison runs at a time, and none while differences wait for the user or without a
/// session. One that ends without differences, or fails, lets the next one begin with the same
/// session.
pub proof fn one_comparison_runs_at_a_time(ui: UiView, found: Seq<ConflictView>, cursor: i64)
    ensures
        session_to_compare(ui) is Some ==> {
            &&& !ui.sync_in_progress && ui.sync_conflicts.len() == 0
            &&& session_to_compare(ui) == ui.token
            &&& session_to_compare(comparing(ui)) is None
            &&& after_comparison(comparing(ui), Seq::empty(), cursor) == ui || ui.pending_sync_cursor
                is Some
        },
        !ui.sync_in_progress && ui.sync_conflicts.len() == 0 ==> session_to_compare(ui) == ui.token,
        found.len() > 0 ==> {
            let after = after_comparison(ui, found, cursor);
            &&& session_to_compare(after) is None
            &&& after.sync_conflicts == found
            &&& after.pending_sync_cursor == Some(cursor)
        },
        found.len() == 0 ==> {
            let after = after_comparison(ui, found, cursor);
            &&& session_to_compare(after) == ui.token
            &&& after.pending_sync_cursor is None
        },
{
    assert(after_comparison(comparing(ui), Seq::empty(), cursor).sync_conflicts
        =~= Seq::<ConflictView>::empty());
    if session_to_compare(ui) is Some {
        assert(ui.sync_conflicts =~= Seq::<ConflictView>::empty());
    }
}

/// Another session takes over nothing of the last one: neither its token and address nor the
/// differences that it found. What the calendar shows stays.
pub proof fn a_session_takes_over_nothing(
    ui: UiView,
    token: Option<Seq<char>>,
    email: Option<Seq<char>>,
)
    ensures
        ({
            let after = with_session(ui, token, email);
            &&& after.token == token && after.email == email
            &&& after.sync_conflicts.len() == 0
            &&& after.pending_sync_cursor is None
            &&& session_to_compare(after) == token
            &&& after.visible_month == ui.visible_month
            &&& after.selected_date == ui.selected_date
            &&& after.selected_event_id == ui.selected_event_id
            &&& after.calendar_view == ui.calendar_view
        }),
{
}

} // verus!
