//! Account, settings, reminders and the end of the program.
use crate::api_client::text_in;
use crate::calendar::lemma_date_of_number;
use crate::date::Date;
use crate::desktop::{UiState, UiView};
use crate::editor::EditorForm;
use crate::handlers::{
    both, report_text, with_session, Desktop, Preferences, Report, Screen, ScreenView,
};
use crate::instant::{date_of_number, Instant};
use crate::labels::{human_offset, local_time, local_time_text, offset_text};
use crate::models::{AuthData, CalendarEvent, EventView};
use crate::month::{month_day_label, month_day_text};
use crate::reminders::{delivery_key, due_views, has_horizon, horizon, Due, Search};
use crate::repository::{
    answers, configured, delivered, EventQuery, LocalRepository, RepositoryView,
};
use crate::settings::{
    a_switch_reads_back, autostart_status, autostart_text, bool_setting, close_behavior,
    close_behavior_of, setting_in, switch, switch_label, switch_text, Platform,
};
use crate::sync::conflict_views;
use crate::text::{a_written_number_reads_back, decimal, decimal_text, signed_decimal, signed_text};
use std::collections::VecDeque;
use vstd::prelude::*;

verus! {

/// What the full exit asks for.
#[derive(Debug)]
pub enum ExitAction {
    /// Nothing: the exit is on its way.
    Idle,
    /// To show the reminders that wait for the user.
    ShowForced,
    /// To compare with the server once more, with this session if there is one, and exit.
    FinalSync(Option<String>),
}

impl Desktop {
    /// The account page is opened.
    pub fn show_account(&mut self)
        ensures
            final(self).screen@ == (ScreenView {
                auth_visible: true,
                auth_message: ""@,
                ..old(self).screen@
            }),
            final(self).ui@ == old(self).ui@,
            final(self).editor@ == old(self).editor@,
            final(self).keeps_settings(*old(self)),
    {
        self.screen.auth_visible = true;
        self.screen.auth_message = "".to_owned();
    }

    /// A code is asked for.
    pub fn request_code(&mut self)
        ensures
            final(self).screen@ == (ScreenView {
                auth_message: "正在发送验证码…"@,
                ..old(self).screen@
            }),
            final(self).ui@ == old(self).ui@,
            final(self).editor@ == old(self).editor@,
            final(self).keeps_settings(*old(self)),
    {
        self.screen.auth_message = "正在发送验证码…".to_owned();
    }

    /// A code was asked for, or that failed.
    pub fn code_requested(&mut self, result: Result<(), String>)
        ensures
            final(self).screen@ == (ScreenView {
                auth_message: match result {
                    Ok(()) => "验证码已发送，请查收邮箱"@,
                    Err(e) => "发送失败："@ + e@,
                },
                ..old(self).screen@
            }),
            final(self).ui@ == old(self).ui@,
            final(self).editor@ == old(self).editor@,
            final(self).keeps_settings(*old(self)),
    {
        self.screen.auth_message = match result {
            Ok(()) => "验证码已发送，请查收邮箱".to_owned(),
            Err(e) => both("发送失败：", e.as_str()),
        };
    }

    /// A registration or a sign-in begins.
    pub fn submit_auth(&mut self, register: bool)
        ensures
            final(self).screen@ == (ScreenView {
                auth_message: if register {
                    "正在注册…"@
                } else {
                    "正在登录…"@
                },
                ..old(self).screen@
            }),
            final(self).ui@ == old(self).ui@,
            final(self).editor@ == old(self).editor@,
            final(self).keeps_settings(*old(self)),
    {
        self.screen.auth_message = (if register {
            "正在注册…"
        } else {
            "正在登录…"
        }).to_owned();
    }

    /// A registration or a sign-in ended. A success begins a session, whose address is kept, if it
    /// could be `written` to the store of this device.
    pub fn auth_finished(
        &mut self,
        repository: &mut LocalRepository,
        result: Result<AuthData, String>,
        written: bool,
    )
        requires
            old(repository).wf(),
        ensures
            final(repository).wf(),
            final(self).editor@ == old(self).editor@,
            final(self).keeps_settings(*old(self)),
            match result {
                Ok(auth) => {
                    &&& final(repository)@ == if written {
                        configured(old(repository)@, "account_email"@, auth.user.email@)
                    } else {
                        old(repository)@
                    }
                    &&& final(self).ui@ == with_session(
                        old(self).ui@,
                        Some(auth.token@),
                        Some(auth.user.email@),
                    )
                    &&& final(self).screen@ == (ScreenView {
                        auth_visible: false,
                        auth_password: ""@,
                        status: "登录成功，正在同步"@,
                        ..old(self).screen@
                    })
                },
                Err(e) => {
                    &&& final(repository)@ == old(repository)@
                    &&& final(self).ui@ == old(self).ui@
                    &&& final(self).screen@ == (ScreenView {
                        auth_message: "操作失败："@ + e@,
                        ..old(self).screen@
                    })
                },
            },
    {
        match result {
            Ok(auth) => {
                if written {
                    repository.set_setting("account_email", auth.user.email.as_str());
                }
                self.ui.change_session(Some(auth.token), Some(auth.user.email));
                self.screen.auth_visible = false;
                self.screen.auth_password = "".to_owned();
                self.screen.status = "登录成功，正在同步".to_owned();
            },
            Err(e) => {
                self.screen.auth_message = both("操作失败：", e.as_str());
            },
        }
    }

    /// The session is ended; the events stay. The address is dropped, if that could be `written` to
    /// the store of this device. Returns the address whose token is to be forgotten.
    pub fn logout(&mut self, repository: &mut LocalRepository, written: bool) -> (r: Option<String>)
        requires
            old(repository).wf(),
        ensures
            final(repository).wf(),
            final(repository)@ == if written {
                configured(old(repository)@, "account_email"@, ""@)
            } else {
                old(repository)@
            },
            text_in(r) == old(self).ui@.email,
            final(self).ui@ == with_session(old(self).ui@, None, None),
            final(self).screen@ == (ScreenView {
                auth_visible: false,
                conflict_visible: false,
                status: "已退出账户，本机日程仍保留"@,
                ..old(self).screen@
            }),
            final(self).editor@ == old(self).editor@,
            final(self).keeps_settings(*old(self)),
    {
        let email = match &self.ui.email {
            Some(email) => Some(email.clone()),
            None => None,
        };
        if written {
            repository.set_setting("account_email", "");
        }
        self.ui.change_session(None, None);
        self.screen.auth_visible = false;
        self.screen.hide_conflict("已退出账户，本机日程仍保留");
        email
    }

    /// The program is to end; `pending` reminders still wait for the user.
    pub fn request_full_exit(&mut self, pending: usize) -> (r: ExitAction)
        ensures
            final(self).ui@ == old(self).ui@,
            final(self).editor@ == old(self).editor@,
            final(self).keeps_settings(*old(self)),
            if old(self).screen@.exit_pending {
                r is Idle && final(self).screen@ == old(self).screen@
            } else if pending > 0 {
                r is ShowForced && final(self).screen@ == (ScreenView {
                    status: "仍有强制提醒未处理，请先在提醒窗口点击“已处理”"@,
                    ..old(self).screen@
                })
            } else {
                (r matches ExitAction::FinalSync(token) && text_in(token) == old(self).ui@.token)
                    && final(self).screen@ == (ScreenView {
                    exit_pending: true,
                    status: "正在同步数据后退出…"@,
                    ..old(self).screen@
                })
            },
    {
        if self.screen.exit_pending {
            return ExitAction::Idle;
        }
        if pending > 0 {
            self.screen.show("仍有强制提醒未处理，请先在提醒窗口点击“已处理”");
            return ExitAction::ShowForced;
        }
        let token = match &self.ui.token {
            Some(token) => Some(token.clone()),
            None => None,
        };
        self.screen.exit_pending = true;
        self.screen.show("正在同步数据后退出…");
        ExitAction::FinalSync(token)
    }

    /// What closing the window does was chosen, and written to the store of this device, or that
    /// failed. There are the choices 0 to 3; nothing is done with another.
    pub fn choose_close_action(
        &mut self,
        repository: &mut LocalRepository,
        behavior: i32,
        result: Result<(), String>,
    )
        requires
            old(repository).wf(),
        ensures
            final(repository).wf(),
            final(self).ui@ == old(self).ui@,
            final(self).editor@ == old(self).editor@,
            final(self).page == old(self).page,
            final(self).settings_visible == old(self).settings_visible,
            final(self).autostart_status@ == old(self).autostart_status@,
            match (close_setting_text(behavior as int), result) {
                (Some(value), Ok(())) => {
                    &&& final(repository)@ == configured(
                        old(repository)@,
                        "close_behavior"@,
                        value,
                    )
                    &&& final(self).preferences == (Preferences {
                        close_behavior: behavior,
                        ..old(self).preferences
                    })
                    &&& final(self).screen@ == old(self).screen@
                },
                (Some(value), Err(e)) => {
                    &&& final(repository)@ == old(repository)@
                    &&& final(self).preferences == old(self).preferences
                    &&& final(self).screen@ == (ScreenView {
                        status: report_text(Report::SaveCloseBehavior) + e@,
                        ..old(self).screen@
                    })
                },
                (None, _) => {
                    &&& final(repository)@ == old(repository)@
                    &&& final(self).preferences == old(self).preferences
                    &&& final(self).screen@ == old(self).screen@
                },
            },
    {
        match (close_setting(behavior), result) {
            (Some(value), Ok(())) => {
                repository.set_setting("close_behavior", value.as_str());
                self.preferences.close_behavior = behavior;
            },
            (Some(_), Err(e)) => self.report(Report::SaveCloseBehavior, e.as_str()),
            (None, _) => {},
        }
    }

    /// The settings page was saved: the start with the system was turned on or off as the page
    /// says, and then the settings of the page were written to the store of this device one after
    /// another. A failure comes with how many of them were written before it.
    pub fn save_settings(
        &mut self,
        repository: &mut LocalRepository,
        platform: Platform,
        result: Result<(), (usize, String)>,
    )
        requires
            old(repository).wf(),
        ensures
            final(repository).wf(),
            final(self).ui@ == old(self).ui@,
            final(self).editor@ == old(self).editor@,
            final(self).page == old(self).page,
            match result {
                Ok(()) => {
                    &&& final(repository)@ == saved(old(repository)@, chosen(old(self).page))
                    &&& final(self).preferences == chosen(old(self).page)
                    &&& !final(self).settings_visible
                    &&& final(self).autostart_status@ == autostart_text(
                        platform,
                        old(self).page.autostart_enabled,
                        None,
                    )
                    &&& final(self).screen@ == (ScreenView {
                        status: "设置已保存"@,
                        ..old(self).screen@
                    })
                },
                Err((written, e)) => {
                    &&& final(repository)@ == partly_saved(
                        old(repository)@,
                        chosen(old(self).page),
                        written as int,
                    )
                    &&& final(self).keeps_settings(*old(self))
                    &&& final(self).screen@ == (ScreenView {
                        status: report_text(Report::SaveSettings) + e@,
                        ..old(self).screen@
                    })
                },
            },
    {
        let next = choice(&self.page);
        match result {
            Ok(()) => {
                save_preferences(repository, &next, 4);
                self.preferences = next;
                self.autostart_status = autostart_status(platform, next.autostart_enabled, None);
                self.settings_visible = false;
                self.screen.show("设置已保存");
            },
            Err((written, e)) => {
                save_preferences(repository, &next, written);
                self.report(Report::SaveSettings, e.as_str());
            },
        }
    }

    /// A trial notification is asked for. Returns whether it is to be sent.
    pub fn test_notification(&mut self) -> (r: bool)
        ensures
            r == old(self).page.notifications_enabled,
            final(self).screen@ == if r {
                old(self).screen@
            } else {
                ScreenView { status: "请先启用系统通知"@, ..old(self).screen@ }
            },
            final(self).ui@ == old(self).ui@,
            final(self).editor@ == old(self).editor@,
            final(self).keeps_settings(*old(self)),
    {
        if !self.page.notifications_enabled {
            self.screen.show("请先启用系统通知");
            return false;
        }
        true
    }

    /// The trial notification was sent, or that failed.
    pub fn notification_tested(&mut self, result: Result<(), String>)
        ensures
            final(self).screen@ == (ScreenView {
                status: match result {
                    Ok(()) => "测试通知已发送"@,
                    Err(e) => report_text(Report::TestNotification) + e@,
                },
                ..old(self).screen@
            }),
            final(self).ui@ == old(self).ui@,
            final(self).editor@ == old(self).editor@,
            final(self).keeps_settings(*old(self)),
    {
        match result {
            Ok(()) => self.set_status("测试通知已发送"),
            Err(e) => self.report(Report::TestNotification, e.as_str()),
        }
    }

    /// The comparison with the server before the exit ended; the program ends either way.
    pub fn exit_synced(&mut self, result: Result<(), String>)
        ensures
            final(self).screen@ == match result {
                Ok(()) => old(self).screen@,
                Err(e) => ScreenView {
                    status: report_text(Report::FinalSync) + e@,
                    ..old(self).screen@
                },
            },
            final(self).ui@ == old(self).ui@,
            final(self).editor@ == old(self).editor@,
            final(self).keeps_settings(*old(self)),
    {
        if let Err(e) = result {
            self.report(Report::FinalSync, e.as_str());
        }
    }

    /// The holidays were fetched, or that failed.
    pub fn holidays_refreshed(&mut self, result: Result<usize, String>)
        ensures
            final(self).screen@ == (ScreenView {
                status: match result {
                    Ok(count) => "法定节假日已更新 · "@ + decimal(count as nat) + " 条"@,
                    Err(e) => report_text(Report::Holidays) + e@,
                },
                ..old(self).screen@
            }),
            final(self).ui@ == old(self).ui@,
            final(self).editor@ == old(self).editor@,
            final(self).keeps_settings(*old(self)),
    {
        match result {
            Ok(count) => {
                let mut status = "法定节假日已更新 · ".to_owned();
                status.append(decimal_text(count as u64).as_str());
                status.append(" 条");
                self.screen.show(status.as_str());
            },
            Err(e) => {
                self.report(Report::Holidays, e.as_str());
            },
        }
    }
}

/// The preferences that the settings page makes; the close behavior is one of 0 to 3.
pub open spec fn chosen(page: Preferences) -> Preferences {
    Preferences {
        close_behavior: if page.close_behavior < 0 {
            0
        } else if page.close_behavior > 3 {
            3
        } else {
            page.close_behavior
        },
        ..page
    }
}

/// The preferences that the settings page makes; the close behavior is one of 0 to 3.
fn choice(page: &Preferences) -> (r: Preferences)
    ensures
        r == chosen(*page),
{
    let behavior: i32 = if page.close_behavior < 0 {
        0
    } else if page.close_behavior > 3 {
        3
    } else {
        page.close_behavior
    };
    Preferences {
        close_behavior: behavior,
        notifications_enabled: page.notifications_enabled,
        notification_sound_enabled: page.notification_sound_enabled,
        autostart_enabled: page.autostart_enabled,
    }
}

/// What is written of a choice of what closing the window does; there are the choices 0 to 3.
pub open spec fn close_setting_text(behavior: int) -> Option<Seq<char>> {
    if 0 <= behavior <= 3 {
        Some(signed_decimal(behavior))
    } else {
        None
    }
}

/// What is to be written under `close_behavior` for a choice of what closing the window does, if
/// it is one of the choices 0 to 3.
pub fn close_setting(behavior: i32) -> (r: Option<String>)
    ensures
        text_in(r) == close_setting_text(behavior as int),
{
    if behavior < 0 || behavior > 3 {
        None
    } else {
        Some(signed_text(behavior as i64))
    }
}

/// The settings that hold preferences, in the order in which they are written.
pub open spec fn settings_of(p: Preferences) -> Seq<(Seq<char>, Seq<char>)> {
    seq![
        ("close_behavior"@, signed_decimal(p.close_behavior as int)),
        ("notifications_enabled"@, switch_text(p.notifications_enabled)),
        ("notification_sound_enabled"@, switch_text(p.notification_sound_enabled)),
        ("autostart_enabled"@, switch_text(p.autostart_enabled)),
    ]
}

/// A repository after the setting of index `i` of preferences was written, if it was.
pub open spec fn saved_if(
    written: bool,
    repository: RepositoryView,
    p: Preferences,
    i: int,
) -> RepositoryView {
    if written {
        configured(repository, settings_of(p)[i].0, settings_of(p)[i].1)
    } else {
        repository
    }
}

/// A repository after the first `count` settings of preferences were written.
pub open spec fn partly_saved(
    repository: RepositoryView,
    p: Preferences,
    count: int,
) -> RepositoryView {
    let one = saved_if(count > 0, repository, p, 0);
    let two = saved_if(count > 1, one, p, 1);
    let three = saved_if(count > 2, two, p, 2);
    saved_if(count > 3, three, p, 3)
}

/// A repository after preferences were saved in it.
pub open spec fn saved(repository: RepositoryView, p: Preferences) -> RepositoryView {
    partly_saved(repository, p, 4)
}

/// The settings that the settings page asks to write, in the order in which they are written.
pub fn settings_to_write(page: &Preferences) -> (r: [(&'static str, String); 4])
    ensures
        forall|i: int|
            0 <= i < 4 ==> {
                let (key, value) = #[trigger] r@[i];
                (key@, value@) == settings_of(chosen(*page))[i]
            },
{
    let p = choice(page);
    [
        ("close_behavior", signed_text(p.close_behavior as i64)),
        ("notifications_enabled", switch_label(p.notifications_enabled).to_owned()),
        ("notification_sound_enabled", switch_label(p.notification_sound_enabled).to_owned()),
        ("autostart_enabled", switch_label(p.autostart_enabled).to_owned()),
    ]
}

/// Saves the first `count` settings of preferences.
fn save_preferences(repository: &mut LocalRepository, p: &Preferences, count: usize)
    requires
        old(repository).wf(),
    ensures
        final(repository).wf(),
        final(repository)@ == partly_saved(old(repository)@, *p, count as int),
{
    if count > 0 {
        repository.set_setting("close_behavior", signed_text(p.close_behavior as i64).as_str());
    }
    if count > 1 {
        repository.set_setting("notifications_enabled", switch_label(p.notifications_enabled));
    }
    if count > 2 {
        repository.set_setting(
            "notification_sound_enabled",
            switch_label(p.notification_sound_enabled),
        );
    }
    if count > 3 {
        repository.set_setting("autostart_enabled", switch_label(p.autostart_enabled));
    }
}

/// The preferences that a repository holds.
pub open spec fn preferences_in(repository: RepositoryView) -> Preferences {
    Preferences {
        close_behavior: close_behavior_of(setting_in(repository, "close_behavior"@)) as i32,
        notifications_enabled: switch(setting_in(repository, "notifications_enabled"@), true),
        notification_sound_enabled: switch(
            setting_in(repository, "notification_sound_enabled"@),
            true,
        ),
        autostart_enabled: switch(setting_in(repository, "autostart_enabled"@), false),
    }
}

/// The preferences that `repository` holds.
pub fn load_preferences(repository: &LocalRepository) -> (r: Preferences)
    requires
        repository.wf(),
    ensures
        r == preferences_in(repository@),
        -1 <= r.close_behavior <= 3,
{
    Preferences {
        close_behavior: close_behavior(repository),
        notifications_enabled: bool_setting(repository, "notifications_enabled", true),
        notification_sound_enabled: bool_setting(repository, "notification_sound_enabled", true),
        autostart_enabled: bool_setting(repository, "autostart_enabled", false),
    }
}

/// The settings page of `p`: a choice that was not made yet shows as the first one.
pub fn page_of(p: &Preferences) -> (r: Preferences)
    ensures
        r == (Preferences {
            close_behavior: if p.close_behavior < 0 {
                0
            } else {
                p.close_behavior
            },
            ..*p
        }),
{
    let behavior: i32 = if p.close_behavior < 0 {
        0
    } else {
        p.close_behavior
    };
    Preferences {
        close_behavior: behavior,
        notifications_enabled: p.notifications_enabled,
        notification_sound_enabled: p.notification_sound_enabled,
        autostart_enabled: p.autostart_enabled,
    }
}

impl Desktop {
    /// The windows as the program starts on the day `today`: with the session of the last address,
    /// if its token was found, and with the preferences that were saved. `autostart_error` says
    /// why the start with the system could not be set up.
    pub fn start(
        screen: Screen,
        editor: EditorForm,
        repository: &LocalRepository,
        today: Date,
        token: Option<String>,
        platform: Platform,
        autostart_error: Option<&str>,
    ) -> (r: Desktop)
        requires
            repository.wf(),
        ensures
            r.ui.visible_month.year() == today.year() && r.ui.visible_month.month()
                == today.month() && r.ui.visible_month.day() == 1,
            r.ui@ == (UiView {
                visible_month: r.ui.visible_month,
                selected_date: today,
                selected_event_id: None,
                calendar_view: 1,
                token: text_in(token),
                email: setting_in(repository@, "account_email"@),
                sync_conflicts: Seq::empty(),
                widget_preview_event_id: None,
                pending_sync_cursor: None,
                sync_in_progress: false,
                desktop_drag_origin: None,
            }),
            r.screen@ == screen@,
            r.editor@ == editor@,
            r.preferences == preferences_in(repository@),
            r.page == (Preferences {
                close_behavior: if r.preferences.close_behavior < 0 {
                    0
                } else {
                    r.preferences.close_behavior
                },
                ..r.preferences
            }),
            !r.settings_visible,
            r.autostart_status@ == autostart_text(
                platform,
                r.preferences.autostart_enabled,
                match autostart_error {
                    Some(e) => Some(e@),
                    None => None,
                },
            ),
    {
        let preferences = load_preferences(repository);
        let ui = UiState {
            visible_month: today.first_of_month(),
            selected_date: today,
            selected_event_id: None,
            calendar_view: 1,
            token,
            email: repository.setting("account_email"),
            sync_conflicts: VecDeque::new(),
            widget_preview_event_id: None,
            pending_sync_cursor: None,
            sync_in_progress: false,
            desktop_drag_origin: None,
        };
        assert(conflict_views(ui.sync_conflicts@) =~= Seq::empty());
        Desktop {
            ui,
            screen,
            editor,
            preferences,
            page: page_of(&preferences),
            settings_visible: false,
            autostart_status: autostart_status(
                platform,
                preferences.autostart_enabled,
                autostart_error,
            ),
        }
    }

    /// The tray could not be set up: closing the window asks what to do again. Returns whether
    /// the window may stay hidden, which it may not.
    pub fn tray_failed(&mut self, reason: &str) -> (hidden: bool)
        ensures
            !hidden,
            final(self).preferences == (Preferences {
                close_behavior: -1i32,
                ..old(self).preferences
            }),
            final(self).page == old(self).page,
            final(self).settings_visible == old(self).settings_visible,
            final(self).autostart_status@ == old(self).autostart_status@,
            final(self).screen@ == (ScreenView {
                status: report_text(Report::Tray) + reason@,
                ..old(self).screen@
            }),
            final(self).ui@ == old(self).ui@,
            final(self).editor@ == old(self).editor@,
    {
        self.report(Report::Tray, reason);
        self.preferences.close_behavior = -1;
        false
    }

    /// The widget's own process ended with a failure: the calendar window comes back.
    pub fn widget_stopped(&mut self, status: &str)
        ensures
            final(self).screen@ == (ScreenView {
                status: "桌面挂件异常退出（"@ + status@ + "），主界面已自动恢复"@,
                ..old(self).screen@
            }),
            final(self).ui@ == old(self).ui@,
            final(self).editor@ == old(self).editor@,
            final(self).keeps_settings(*old(self)),
    {
        let mut text = "桌面挂件异常退出（".to_owned();
        text.append(status);
        text.append("），主界面已自动恢复");
        self.set_status(text.as_str());
    }
}

/// When an occurrence begins, as a reminder says it.
pub open spec fn when_text(start: Instant, today: Date) -> Seq<char> {
    if start.local_day() == today.number() {
        "今天 "@ + local_time_text(start)
    } else {
        month_day_text(date_of_number(start.local_day())) + " "@ + local_time_text(start)
    }
}

/// What a reminder says.
pub open spec fn reminder_body_text(start: Instant, offset: i64, today: Date) -> Seq<char> {
    if offset == 0 {
        when_text(start, today) + " 开始"@
    } else {
        when_text(start, today) + " 开始 · 提前"@ + offset_text(offset as int) + "提醒"@
    }
}

/// What a reminder says on the day `today`.
pub fn reminder_body(start: &Instant, offset: i64, today: &Date) -> (r: String)
    ensures
        r@ == reminder_body_text(*start, offset, *today),
{
    let date = start.local_date();
    proof {
        lemma_date_of_number(date);
    }
    let mut r = if date.same_day(today) {
        "今天 ".to_owned()
    } else {
        let mut day = month_day_label(&date);
        day.append(" ");
        day
    };
    r.append(local_time(start).as_str());
    if offset == 0 {
        r.append(" 开始");
    } else {
        r.append(" 开始 · 提前");
        r.append(human_offset(offset).as_str());
        r.append("提醒");
    }
    r
}

/// How long it takes until the due reminders are looked for again.
pub const REMINDER_SECONDS: u64 = 30;

/// How long it takes until the events are compared with the server again.
pub const SYNC_SECONDS: u64 = 300;

/// How long it takes until the requests of the desktop widget are looked for again.
pub const WIDGET_COMMAND_MILLIS: u64 = 150;

/// What happened last with a reminder that is due.
#[derive(Debug)]
pub enum ReminderEvent {
    /// It was found to be due.
    Begun,
    /// It was put among those that the user has to confirm, or that failed.
    Queued(Result<(), String>),
    /// Its delivery was written to the store of this device, or that failed.
    Marked(Result<(), String>),
    /// The window of those that the user has to confirm was shown, or that failed.
    Shown(Result<(), String>),
    /// The system notified the user, or that failed.
    Notified(Result<(), String>),
}

/// What is to be done next with a reminder that is due.
#[derive(Clone, Copy, Debug, PartialEq, Eq, Structural)]
pub enum ReminderStep {
    /// To put it among those that the user has to confirm.
    Queue,
    /// To write its delivery to the store of this device.
    Mark,
    /// To show the window of those that the user has to confirm.
    Show,
    /// To let the system notify the user.
    Notify,
    /// Nothing.
    Done,
}

/// What is to be done next with a reminder. One that the user has to confirm is queued, noted as
/// delivered, shown and told by the system, up to the first that fails; another one is told by the
/// system and, if that succeeds, noted as delivered.
pub open spec fn next_step(forced: bool, event: ReminderEvent) -> ReminderStep {
    match (forced, event) {
        (true, ReminderEvent::Begun) => ReminderStep::Queue,
        (true, ReminderEvent::Queued(Ok(()))) => ReminderStep::Mark,
        (true, ReminderEvent::Marked(Ok(()))) => ReminderStep::Show,
        (true, ReminderEvent::Shown(Ok(()))) => ReminderStep::Notify,
        (false, ReminderEvent::Begun) => ReminderStep::Notify,
        (false, ReminderEvent::Notified(Ok(()))) => ReminderStep::Mark,
        _ => ReminderStep::Done,
    }
}

/// What the window says of a reminder after `event`, if anything.
pub open spec fn reminder_status(
    reminded: EventView,
    body: Seq<char>,
    event: ReminderEvent,
) -> Option<Seq<char>> {
    match (reminded.force_reminder, event) {
        (true, ReminderEvent::Queued(Err(e))) => Some(report_text(Report::QueueForced) + e@),
        (true, ReminderEvent::Marked(Err(e))) => Some(report_text(Report::QueueForced) + e@),
        (true, ReminderEvent::Shown(Err(e))) => Some(report_text(Report::ShowForced) + e@),
        (true, ReminderEvent::Notified(_)) => Some(
            "强制提醒："@ + reminded.title + " · "@ + body,
        ),
        (false, ReminderEvent::Notified(Err(e))) => Some(report_text(Report::Notify) + e@),
        (false, ReminderEvent::Marked(Err(e))) => Some(report_text(Report::MarkDelivered) + e@),
        (false, ReminderEvent::Marked(Ok(()))) => Some(
            "提醒："@ + reminded.title + " · "@ + body,
        ),
        _ => None,
    }
}

/// Whether `event` is an outcome of `step`.
pub open spec fn outcome_of(step: ReminderStep, event: ReminderEvent) -> bool {
    match step {
        ReminderStep::Queue => event is Queued,
        ReminderStep::Mark => event is Marked,
        ReminderStep::Show => event is Shown,
        ReminderStep::Notify => event is Notified,
        ReminderStep::Done => false,
    }
}

/// Whether `events` is what happens with a reminder, where each step that is asked for is taken.
pub open spec fn reminder_run(forced: bool, events: Seq<ReminderEvent>) -> bool {
    &&& events.len() > 0
    &&& events[0] is Begun
    &&& forall|i: int|
        0 < i < events.len() ==> outcome_of(
            next_step(forced, events[i - 1]),
            #[trigger] events[i],
        )
}

/// A reminder is noted as delivered only once it was given: right after it was queued for the user
/// to confirm it, or after the system notified the user.
pub proof fn a_reminder_is_noted_once_it_was_given(
    forced: bool,
    events: Seq<ReminderEvent>,
    i: int,
)
    requires
        reminder_run(forced, events),
        0 <= i < events.len(),
        events[i] is Marked,
    ensures
        i > 0,
        forced ==> events[i - 1] matches ReminderEvent::Queued(Ok(_)),
        !forced ==> events[i - 1] matches ReminderEvent::Notified(Ok(_)),
{
    assert(outcome_of(next_step(forced, events[i - 1]), events[i]));
}

/// A reminder comes to an end: after four steps at most there is nothing left to do, and the
/// window says how it ended.
pub proof fn a_reminder_comes_to_an_end(
    reminded: EventView,
    body: Seq<char>,
    events: Seq<ReminderEvent>,
)
    requires
        reminder_run(reminded.force_reminder, events),
    ensures
        events.len() <= 5,
        events.len() == 5 ==> next_step(reminded.force_reminder, events[4]) is Done,
        next_step(reminded.force_reminder, events.last()) is Done ==> reminder_status(
            reminded,
            body,
            events.last(),
        ) is Some,
{
    let forced = reminded.force_reminder;
    if events.len() > 1 {
        assert(outcome_of(next_step(forced, events[0]), events[1]));
    }
    if events.len() > 2 {
        assert(outcome_of(next_step(forced, events[1]), events[2]));
    }
    if events.len() > 3 {
        assert(outcome_of(next_step(forced, events[2]), events[3]));
    }
    if events.len() > 4 {
        assert(outcome_of(next_step(forced, events[3]), events[4]));
    }
    if events.len() > 5 {
        assert(outcome_of(next_step(forced, events[4]), events[5]));
    }
}

impl Desktop {
    /// Goes on with the reminder `due` after `event`: what was delivered is noted in the
    /// repository, and the window says how the reminder ended. What is not noted comes again.
    /// Returns what is to be done next.
    pub fn reminder_step(
        &mut self,
        repository: &mut LocalRepository,
        due: &Delivery,
        now: Instant,
        event: ReminderEvent,
    ) -> (r: ReminderStep)
        requires
            old(repository).wf(),
        ensures
            final(repository).wf(),
            r == next_step(due.event@.force_reminder, event),
            final(repository)@ == if event matches ReminderEvent::Marked(Ok(())) {
                delivered(old(repository)@, delivery_key(due.event@, due.start, due.offset), now)
            } else {
                old(repository)@
            },
            final(self).screen@ == match reminder_status(due.event@, due.body@, event) {
                Some(status) => ScreenView { status, ..old(self).screen@ },
                None => old(self).screen@,
            },
            final(self).ui@ == old(self).ui@,
            final(self).editor@ == old(self).editor@,
            final(self).keeps_settings(*old(self)),
    {
        let forced = due.event.force_reminder;
        match event {
            ReminderEvent::Begun => if forced {
                ReminderStep::Queue
            } else {
                ReminderStep::Notify
            },
            ReminderEvent::Queued(Ok(())) => if forced {
                ReminderStep::Mark
            } else {
                ReminderStep::Done
            },
            ReminderEvent::Queued(Err(e)) => {
                if forced {
                    self.report(Report::QueueForced, e.as_str());
                }
                ReminderStep::Done
            },
            ReminderEvent::Marked(Ok(())) => {
                repository.mark_reminder_delivered(
                    due.event.id.as_str(),
                    due.event.version,
                    due.start,
                    due.offset,
                    now,
                );
                if forced {
                    ReminderStep::Show
                } else {
                    self.say_reminder("提醒：", due);
                    ReminderStep::Done
                }
            },
            ReminderEvent::Marked(Err(e)) => {
                let report = if forced {
                    Report::QueueForced
                } else {
                    Report::MarkDelivered
                };
                self.report(report, e.as_str());
                ReminderStep::Done
            },
            ReminderEvent::Shown(Ok(())) => if forced {
                ReminderStep::Notify
            } else {
                ReminderStep::Done
            },
            ReminderEvent::Shown(Err(e)) => {
                if forced {
                    self.report(Report::ShowForced, e.as_str());
                }
                ReminderStep::Done
            },
            ReminderEvent::Notified(result) => {
                if forced {
                    self.say_reminder("强制提醒：", due);
                    return ReminderStep::Done;
                }
                match result {
                    Ok(()) => ReminderStep::Mark,
                    Err(e) => {
                        self.report(Report::Notify, e.as_str());
                        ReminderStep::Done
                    },
                }
            },
        }
    }

    /// Shows that a reminder was given.
    fn say_reminder(&mut self, prefix: &str, due: &Delivery)
        ensures
            final(self).screen@ == (ScreenView {
                status: prefix@ + due.event@.title + " · "@ + due.body@,
                ..old(self).screen@
            }),
            final(self).ui@ == old(self).ui@,
            final(self).editor@ == old(self).editor@,
            final(self).keeps_settings(*old(self)),
    {
        let mut status = both(prefix, due.event.title.as_str());
        status.append(" · ");
        status.append(due.body.as_str());
        self.screen.show(status.as_str());
    }

    /// A reminder was confirmed, or that failed; a success says whether others wait.
    pub fn forced_reminder_acknowledged(&mut self, result: Result<bool, String>)
        ensures
            final(self).screen@ == (ScreenView {
                status: match result {
                    Ok(true) => "已处理一条强制提醒，正在显示下一条"@,
                    Ok(false) => "强制提醒已处理"@,
                    Err(e) => report_text(Report::AcknowledgeForced) + e@,
                },
                ..old(self).screen@
            }),
            final(self).ui@ == old(self).ui@,
            final(self).editor@ == old(self).editor@,
            final(self).keeps_settings(*old(self)),
    {
        match result {
            Ok(true) => self.set_status("已处理一条强制提醒，正在显示下一条"),
            Ok(false) => self.set_status("强制提醒已处理"),
            Err(e) => self.report(Report::AcknowledgeForced, e.as_str()),
        }
    }
}

/// A reminder that waits for the user to confirm it.
#[derive(Debug)]
pub struct ForcedReminder {
    pub key: String,
    pub title: String,
    pub body: String,
}

/// What the window for such reminders shows: the first that waits, and how many there are.
#[derive(Debug)]
pub struct ForcedNotice {
    pub key: String,
    pub title: String,
    pub body: String,
    pub pending_count: i32,
}

/// What the window for reminders shows, or nothing when none waits.
pub fn forced_notice(pending: &Vec<ForcedReminder>) -> (r: Option<ForcedNotice>)
    ensures
        match r {
            Some(notice) => {
                &&& pending@.len() > 0
                &&& notice.key@ == pending@[0].key@
                &&& notice.title@ == pending@[0].title@
                &&& notice.body@ == pending@[0].body@
                &&& notice.pending_count == if pending@.len() < i32::MAX {
                    pending@.len() as int
                } else {
                    i32::MAX as int
                }
            },
            None => pending@.len() == 0,
        },
{
    let count: usize = pending.len();
    if count == 0 {
        return None;
    }
    let pending_count: i32 = if (count as u64) < i32::MAX as u64 {
        count as i32
    } else {
        i32::MAX
    };
    Some(
        ForcedNotice {
            key: pending[0].key.clone(),
            title: pending[0].title.clone(),
            body: pending[0].body.clone(),
            pending_count,
        },
    )
}

/// A reminder that is to be shown now.
#[derive(Debug)]
pub struct Delivery {
    pub event: CalendarEvent,
    pub start: Instant,
    pub offset: i64,
    pub body: String,
}

/// Whether `deliveries` are the due reminders `due`, in order, with what they say.
pub open spec fn delivers(deliveries: Seq<Delivery>, due: Seq<Due>, today: Date) -> bool {
    deliveries.len() == due.len() && forall|i: int|
        0 <= i < due.len() ==> {
            let d = #[trigger] deliveries[i];
            &&& (d.event@, d.start, d.offset) == due[i]
            &&& d.body@ == reminder_body_text(d.start, d.offset, today)
        }
}

impl LocalRepository {
    /// The reminders that are to be shown at `now`: those that are due, unless notifications are
    /// switched off or a due date cannot be computed.
    pub fn deliveries(&self, now: Instant, today: Date) -> (r: Vec<Delivery>)
        requires
            self.wf(),
            switch(setting_in(self@, "notifications_enabled"@), true) ==> has_horizon(self@, now),
        ensures
            !switch(setting_in(self@, "notifications_enabled"@), true) ==> r@.len() == 0,
            switch(setting_in(self@, "notifications_enabled"@), true) ==> exists|
                events: Seq<EventView>,
            |
                {
                    let search = Search { repository: self@, now, days: horizon(events) };
                    &&& #[trigger] answers(self@.events, EventQuery::Active, events)
                    &&& match search.due_of(events) {
                        Some(due) => delivers(r@, due, today),
                        None => r@.len() == 0,
                    }
                },
    {
        let mut r: Vec<Delivery> = Vec::new();
        if !bool_setting(self, "notifications_enabled", true) {
            return r;
        }
        match self.due_reminders(now) {
            Err(_) => {},
            Ok(found) => {
                let mut found = found;
                let ghost all = due_views(found@);
                let mut left: usize = found.len();
                while left > 0
                    invariant
                        left == found@.len(),
                        left <= all.len(),
                        due_views(found@) == all.take(left as int),
                        r@.len() == all.len() - left,
                        forall|i: int|
                            0 <= i < r@.len() ==> {
                                let d = #[trigger] r@[i];
                                &&& (d.event@, d.start, d.offset) == all[all.len() - 1 - i]
                                &&& d.body@ == reminder_body_text(d.start, d.offset, today)
                            },
                    decreases left,
                {
                    assert(due_views(found@)[left - 1] == all[left - 1]);
                    let (event, start, offset) = found.pop().unwrap();
                    let body = reminder_body(&start, offset, &today);
                    r.push(Delivery { event, start, offset, body });
                    left = left - 1;
                    assert(due_views(found@) =~= all.take(left as int));
                }
                r = reversed(r);
                assert(delivers(r@, all, today));
            },
        }
        r
    }
}

/// The deliveries in the opposite order.
fn reversed(deliveries: Vec<Delivery>) -> (r: Vec<Delivery>)
    ensures
        r@ == deliveries@.reverse(),
{
    let ghost all = deliveries@;
    let mut deliveries = deliveries;
    let mut r: Vec<Delivery> = Vec::new();
    let mut left: usize = deliveries.len();
    while left > 0
        invariant
            left == deliveries@.len(),
            left <= all.len(),
            deliveries@ == all.take(left as int),
            r@ == all.reverse().take(all.len() - left),
        decreases left,
    {
        let d = deliveries.pop().unwrap();
        r.push(d);
        left = left - 1;
        assert(deliveries@ =~= all.take(left as int));
        assert(r@ =~= all.reverse().take(all.len() - left));
    }
    r
}

/// Preferences that were saved are those that are found at the next start.
pub proof fn saved_preferences_read_back(repository: RepositoryView, p: Preferences)
    requires
        0 <= p.close_behavior <= 3,
    ensures
        preferences_in(saved(repository, p)) == p,
{
    reveal_strlit("close_behavior");
    reveal_strlit("notifications_enabled");
    reveal_strlit("notification_sound_enabled");
    reveal_strlit("autostart_enabled");
    assert("close_behavior"@.len() == 14 && "notifications_enabled"@.len() == 21
        && "notification_sound_enabled"@.len() == 26 && "autostart_enabled"@.len() == 17);
    a_written_number_reads_back(p.close_behavior as int, i32::MIN as int, i32::MAX as int);
    a_switch_reads_back(p.notifications_enabled, true);
    a_switch_reads_back(p.notification_sound_enabled, true);
    a_switch_reads_back(p.autostart_enabled, false);
}

/// Saving preferences, or some of them, touches nothing but the settings.
pub proof fn saving_preferences_keeps_the_calendar(
    repository: RepositoryView,
    p: Preferences,
    count: int,
)
    ensures
        partly_saved(repository, p, count) == (RepositoryView {
            settings: partly_saved(repository, p, count).settings,
            ..repository
        }),
{
}

/// Of the settings page, what closing the window does is brought to the nearest choice there is;
/// the switches are taken as they are.
pub proof fn the_page_is_taken_as_it_is(page: Preferences)
    ensures
        0 <= chosen(page).close_behavior <= 3,
        0 <= page.close_behavior <= 3 ==> chosen(page).close_behavior == page.close_behavior,
        page.close_behavior < 0 ==> chosen(page).close_behavior == 0,
        page.close_behavior > 3 ==> chosen(page).close_behavior == 3,
        chosen(page).notifications_enabled == page.notifications_enabled,
        chosen(page).notification_sound_enabled == page.notification_sound_enabled,
        chosen(page).autostart_enabled == page.autostart_enabled,
{
}

/// A choice of what closing the window does is written exactly when there is such a choice, and
/// reads back as itself.
pub proof fn a_close_choice_is_found_again(repository: RepositoryView, behavior: int)
    ensures
        close_setting_text(behavior) is Some <==> behavior == 0 || behavior == 1 || behavior == 2
            || behavior == 3,
        close_setting_text(behavior) matches Some(value) ==> preferences_in(
            configured(repository, "close_behavior"@, value),
        ).close_behavior == behavior,
{
    if 0 <= behavior <= 3 {
        a_written_number_reads_back(behavior, i32::MIN as int, i32::MAX as int);
    }
}

/// A reminder tells the time of day of the occurrence, and the day: the word for today exactly on
/// the day of the occurrence in China, else its month and day.
pub proof fn a_reminder_tells_the_day(start: Instant, today: Date)
    ensures
        start.local_day() == today.number() ==> when_text(start, today) == seq![
            '今',
            '天',
            ' ',
        ] + local_time_text(start),
        start.local_day() != today.number() ==> when_text(start, today) == month_day_text(
            date_of_number(start.local_day()),
        ) + seq![' '] + local_time_text(start),
{
    reveal_strlit("今天 ");
    reveal_strlit(" ");
    assert("今天 "@ =~= seq!['今', '天', ' ']);
    assert(" "@ =~= seq![' ']);
}

/// A reminder begins with when the occurrence begins, and tells how long before that it comes,
/// unless it comes at that moment.
pub proof fn a_reminder_tells_its_offset(start: Instant, offset: i64, today: Date)
    ensures
        offset == 0 ==> reminder_body_text(start, offset, today) == when_text(start, today) + seq![
            ' ',
            '开',
            '始',
        ],
        offset != 0 ==> reminder_body_text(start, offset, today) == when_text(start, today) + seq![
            ' ',
            '开',
            '始',
            ' ',
            '·',
            ' ',
            '提',
            '前',
        ] + offset_text(offset as int) + seq!['提', '醒'],
{
    reveal_strlit(" 开始");
    reveal_strlit(" 开始 · 提前");
    reveal_strlit("提醒");
    assert(" 开始"@ =~= seq![' ', '开', '始']);
    assert(" 开始 · 提前"@ =~= seq![' ', '开', '始', ' ', '·', ' ', '提', '前']);
    assert("提醒"@ =~= seq!['提', '醒']);
}

/// Each due reminder is shown once, in its place, with the event, the occurrence and the offset
/// that it is due for.
pub proof fn every_due_reminder_is_shown(
    deliveries: Seq<Delivery>,
    due: Seq<Due>,
    today: Date,
    i: int,
)
    requires
        delivers(deliveries, due, today),
        0 <= i < due.len(),
    ensures
        deliveries.len() == due.len(),
        deliveries[i].event@ == due[i].0,
        deliveries[i].start == due[i].1,
        deliveries[i].offset == due[i].2,
        deliveries[i].body@ == reminder_body_text(due[i].1, due[i].2, today),
{
    let d = deliveries[i];
    assert((d.event@, d.start, d.offset) == due[i]);
}

/// A reminder that failed is not noted: after a failure there is nothing left to do but, for the
/// next look, to find it again. One that the user has to confirm is told by the system last.
pub proof fn a_failure_ends_a_reminder(forced: bool, reason: String)
    ensures
        next_step(forced, ReminderEvent::Queued(Err(reason))) is Done,
        next_step(forced, ReminderEvent::Marked(Err(reason))) is Done,
        next_step(forced, ReminderEvent::Shown(Err(reason))) is Done,
        next_step(forced, ReminderEvent::Notified(Err(reason))) is Done,
        next_step(true, ReminderEvent::Begun) is Queue,
        next_step(true, ReminderEvent::Queued(Ok(()))) is Mark,
        next_step(true, ReminderEvent::Marked(Ok(()))) is Show,
        next_step(true, ReminderEvent::Shown(Ok(()))) is Notify,
        next_step(true, ReminderEvent::Notified(Ok(()))) is Done,
        next_step(false, ReminderEvent::Begun) is Notify,
        next_step(false, ReminderEvent::Notified(Ok(()))) is Mark,
        next_step(false, ReminderEvent::Marked(Ok(()))) is Done,
{
}

} // verus!
