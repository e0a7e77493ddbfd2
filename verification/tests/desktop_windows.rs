use schedule_manager::date::Date;
use schedule_manager::desktop::DesktopDragOrigin;
use schedule_manager::editor::{EditorError, EditorForm};
use schedule_manager::handlers::{DeleteAction, Desktop, Report, SaveAction, Screen};
use schedule_manager::instant::Instant;
use schedule_manager::models::{AuthData, CalendarEvent, Holiday, UserProfile};
use schedule_manager::render::{event_row, overview_event_row};
use schedule_manager::repository::LocalRepository;
use schedule_manager::session::{
    close_setting, forced_notice, load_preferences, reminder_body, settings_to_write, ExitAction,
    ForcedReminder, ReminderEvent, ReminderStep,
};
use schedule_manager::settings::{
    api_base_url, autostart_action, autostart_step, autostart_status, bool_setting, close_behavior,
    command_failure, launch_agent, launch_agent_installed, xml_escape, AutostartEvent,
    AutostartStep, Platform,
};
use schedule_manager::sync::{Resolution, SyncConflict};
use std::collections::VecDeque;

fn date(year: i32, month: u32, day: u32) -> Date {
    Date::new(year, month, day).unwrap()
}

fn at(text: &str) -> Instant {
    Instant::parse(text).unwrap()
}

fn event(id: &str, title: &str, start: &str) -> CalendarEvent {
    let start = at(start);
    let mut event =
        CalendarEvent::draft_with(id.to_string(), start, start.plus_minutes(90).unwrap(), start);
    event.title = title.to_string();
    event
}

fn desktop(repo: &LocalRepository, token: Option<&str>) -> Desktop {
    Desktop::start(
        Screen::new(),
        EditorForm::new(),
        repo,
        date(2026, 2, 17),
        token.map(|t| t.to_string()),
        Platform::Windows,
        None,
    )
}

fn filled_form(desktop: &mut Desktop) {
    desktop.new_event(8);
    desktop.editor.title = " 会议 ".to_string();
}

#[test]
fn the_calendar_window_shows_the_month() {
    let mut repo = LocalRepository::new();
    repo.upsert_event(&event("a", "会议", "2026-02-17T01:00:00Z"));
    let mut done = event("b", "完成", "2026-02-18T01:00:00Z");
    done.completed = true;
    repo.upsert_event(&done);
    repo.replace_holidays(&vec![Holiday {
        date: "2026-02-14".to_string(),
        name: String::new(),
        is_off_day: false,
        source_url: String::new(),
    }]);
    let mut desktop = desktop(&repo, None);
    let page = desktop.ui.render_all(&repo, date(2026, 2, 18));
    assert_eq!(page.weeks.len(), 6);
    assert!(page.weeks.iter().all(|week| week.len() == 7));
    assert_eq!(page.weeks[0][0].date, "2026-01-26");
    let cell = &page.weeks[3][1];
    assert_eq!((cell.date.as_str(), cell.lunar.as_str()), ("2026-02-17", "正月"));
    assert_eq!((cell.holiday.as_str(), cell.events.as_str()), ("春节", "• 会议"));
    assert!(cell.selected && !cell.today && cell.in_month && !cell.off_day);
    assert!(page.weeks[3][2].today);
    let makeup = &page.weeks[2][5];
    assert_eq!((makeup.day_kind.as_str(), makeup.workday, makeup.off_day), ("班", true, false));
    assert_eq!(page.weeks[2][6].day_kind, "休");
    assert_eq!(page.selected_events.len(), 1);
    assert_eq!(page.overview_events.len(), 2);
    assert_eq!(page.overview_title, "全部日程");
    assert_eq!(page.month_title, "2026年 2月");
    assert_eq!(page.selected_date_title, "02月17日 · 周二");
    assert_eq!((page.signed_in, page.user_label.as_str()), (false, "登录 / 注册"));
    desktop.select_calendar_view(3);
    let page = desktop.ui.render_all(&repo, date(2026, 2, 18));
    assert_eq!(page.overview_events.len(), 1);
    assert_eq!(page.overview_events[0].title, "完成");
    assert_eq!((page.overview_title.as_str(), page.overview_empty.as_str()), ("已完成", "还没有已完成的日程"));
}

#[test]
fn a_cell_lists_three_events() {
    let mut repo = LocalRepository::new();
    for (id, hour) in [("a", 1), ("b", 2), ("c", 3), ("d", 4)] {
        repo.upsert_event(&event(id, id, &format!("2026-02-17T0{}:00:00Z", hour)));
    }
    let page = desktop(&repo, None).ui.render_all(&repo, date(2026, 2, 18));
    assert_eq!(page.weeks[3][1].events, "• a\n• b\n• c");
    assert_eq!(page.selected_events.len(), 4);
}

#[test]
fn rows_tell_when_and_how() {
    let mut yearly = event("a", "生日", "2026-02-17T01:30:00Z");
    yearly.recurrence_rule = "YEARLY_LUNAR:01-01:regular".to_string();
    yearly.location = "家".to_string();
    yearly.reminder_minutes = vec![1440];
    let row = event_row(&yearly, date(2026, 2, 17));
    assert_eq!((row.date.as_str(), row.time.as_str()), ("02月17日", "09:30"));
    assert_eq!(row.meta, "每年农历某一天 · 家 · 提前1天");
    assert_eq!(row.color, (0x68, 0x78, 0xd6));
    yearly.force_reminder = true;
    let row = overview_event_row(&yearly);
    assert_eq!(row.date, "每年 农历正月初一");
    assert_eq!(row.meta, "每年农历某一天 · 家 · 提前1天 · 强制提醒");
    let mut plain = event("b", "x", "2026-02-17T01:30:00Z");
    plain.all_day = true;
    plain.location = "  ".to_string();
    plain.reminder_minutes.clear();
    let row = overview_event_row(&plain);
    assert_eq!((row.date.as_str(), row.time.as_str(), row.meta.as_str()), ("2026-02-17", "全天", ""));
    for (rule, shown) in [
        ("LEGAL_REST_DAY", "法定休息日"),
        ("LEGAL_WORKDAY", "法定工作日"),
        ("YEARLY_SOLAR:05-06", "每年 02-17"),
        ("DAILY", "每天"),
    ] {
        plain.recurrence_rule = rule.to_string();
        assert_eq!(overview_event_row(&plain).date, shown);
    }
}

#[test]
fn the_preview_shows_one_event() {
    let mut repo = LocalRepository::new();
    let mut first = event("a", "会议", "2026-02-17T01:30:00Z");
    first.location = " 家 ".to_string();
    repo.upsert_event(&first);
    let mut desktop = desktop(&repo, None);
    let preview = desktop.ui.render_desktop_widget(&repo);
    assert_eq!((preview.event_id.as_str(), preview.title.as_str()), ("", "点击日程查看详情"));
    desktop.widget_preview_event("a");
    let preview = desktop.ui.render_desktop_widget(&repo);
    assert_eq!((preview.title.as_str(), preview.time.as_str()), ("会议", "09:30"));
    assert_eq!(preview.detail, "家 · 提前0天");
    first.location.clear();
    first.reminder_minutes.clear();
    repo.upsert_event(&first);
    assert_eq!(desktop.ui.render_desktop_widget(&repo).detail, "没有额外备注");
    desktop.widget_preview_event("gone");
    assert_eq!(desktop.ui.render_desktop_widget(&repo).title, "点击日程查看详情");
}

#[test]
fn users_move_through_the_calendar() {
    let repo = LocalRepository::new();
    let mut desktop = desktop(&repo, None);
    desktop.next_month();
    assert_eq!(desktop.ui.visible_month, date(2026, 3, 1));
    desktop.previous_month();
    desktop.previous_month();
    assert_eq!(desktop.ui.visible_month, date(2026, 1, 1));
    desktop.select_calendar_view(0);
    assert_eq!(desktop.ui.calendar_view, 1);
    desktop.screen.editor_visible = true;
    desktop.select_day("2026-05-06");
    assert_eq!(desktop.ui.selected_date, date(2026, 5, 6));
    assert_eq!(desktop.ui.visible_month, date(2026, 5, 1));
    assert!(!desktop.screen.editor_visible);
    desktop.select_day("x");
    assert_eq!(desktop.ui.selected_date, date(2026, 5, 6));
    desktop.go_today(date(2027, 1, 2));
    assert_eq!((desktop.ui.visible_month, desktop.ui.calendar_view), (date(2027, 1, 1), 0));
    desktop.widget_next_month();
    assert_eq!(desktop.ui.visible_month, date(2027, 2, 1));
    desktop.widget_previous_month();
    desktop.widget_select_day("2027-03-04");
    assert_eq!(desktop.ui.visible_month, date(2027, 3, 1));
    desktop.widget_go_today(date(2026, 2, 17));
    assert_eq!(desktop.ui.selected_date, date(2026, 2, 17));
}

#[test]
fn an_event_is_stored_on_the_device() {
    let mut repo = LocalRepository::new();
    let mut desktop = desktop(&repo, None);
    filled_form(&mut desktop);
    assert_eq!((desktop.editor.date.as_str(), desktop.editor.start_time.as_str()), ("2026-02-17", "09:00"));
    let made = match desktop.save_event(&repo) {
        SaveAction::Store(event) => event,
        _ => panic!("expected an event to store"),
    };
    assert!(desktop.editor.saving && desktop.screen.editor_visible);
    assert!(matches!(desktop.save_event(&repo), SaveAction::Idle));
    desktop.event_stored(&mut repo, made.clone(), Err("磁盘已满".to_string()));
    assert_eq!(desktop.screen.status, "保存失败：磁盘已满");
    assert_eq!(desktop.editor.feedback, "保存失败：磁盘已满");
    assert!(desktop.editor.feedback_error && !desktop.editor.saving);
    assert!(desktop.screen.editor_visible && repo.all_events().is_empty());
    assert!(desktop.ui.selected_event_id.is_none());
    let again = match desktop.save_event(&repo) {
        SaveAction::Store(event) => event,
        _ => panic!("expected an event to store"),
    };
    desktop.event_stored(&mut repo, again, Ok(()));
    assert_eq!(desktop.screen.status, "日程已保存到本机，登录后可选择同步");
    assert!(!desktop.screen.editor_visible && !desktop.editor.saving);
    assert_eq!(desktop.editor.feedback, "");
    let stored = &repo.active_events()[0];
    assert_eq!(stored.title, "会议");
    assert!(stored.start_at.same(&at("2026-02-17T09:00:00+08:00")));
    assert_eq!(stored.end_at.minutes_since(&stored.start_at), 60);
    assert_eq!((stored.updated_seq, stored.reminder_minutes.clone()), (0, vec![0]));
    assert_eq!(desktop.ui.selected_event_id.as_deref(), Some(stored.id.as_str()));
    let marked = match desktop.delete_event(&repo) {
        DeleteAction::Mark(event) => event,
        _ => panic!("expected an event to mark"),
    };
    assert!(marked.deleted && marked.id == stored.id);
    desktop.event_marked(&mut repo, &marked, Err("磁盘已满".to_string()));
    assert_eq!(desktop.screen.status, "删除失败：磁盘已满");
    assert_eq!(repo.active_events().len(), 1);
    assert!(desktop.ui.selected_event_id.is_some());
    desktop.event_marked(&mut repo, &marked, Ok(()));
    assert_eq!(desktop.screen.status, "日程已从本机删除，登录后可选择同步");
    assert!(repo.active_events().is_empty());
    assert_eq!(repo.all_pending_events().len(), 1);
    assert!(matches!(desktop.delete_event(&repo), DeleteAction::Idle));
}

#[test]
fn with_a_session_the_server_confirms_first() {
    let mut repo = LocalRepository::new();
    let mut desktop = desktop(&repo, Some("t"));
    filled_form(&mut desktop);
    let sent = match desktop.save_event(&repo) {
        SaveAction::Upload(token, event) => {
            assert_eq!(token, "t");
            event
        }
        _ => panic!("expected an upload"),
    };
    assert!(repo.all_events().is_empty());
    assert_eq!(desktop.screen.status, "正在保存到云端…");
    assert!(matches!(desktop.save_event(&repo), SaveAction::Idle));
    desktop.event_uploaded(&mut repo, Err("断网".to_string()));
    assert_eq!(desktop.screen.status, "云端保存失败，本地未修改：断网");
    assert!(desktop.editor.feedback_error && repo.all_events().is_empty());
    let mut confirmed = sent.clone();
    confirmed.version = 1;
    desktop.event_uploaded(&mut repo, Ok(confirmed.clone()));
    assert_eq!(desktop.screen.status, "日程已保存，云端与本地一致");
    assert_eq!(repo.event(&sent.id).unwrap(), confirmed);
    match desktop.delete_event(&repo) {
        DeleteAction::Remote(token, id, version) => {
            assert_eq!((token.as_str(), id, version), ("t", sent.id.clone(), 1))
        }
        _ => panic!("expected a request"),
    }
    assert!(!repo.event(&sent.id).unwrap().deleted);
    desktop.event_deleted(&mut repo, Err("断网".to_string()));
    assert_eq!(desktop.screen.status, "云端删除失败，本地仍保留：断网");
    let mut gone = confirmed.clone();
    gone.deleted = true;
    desktop.event_deleted(&mut repo, Ok(gone));
    assert_eq!(desktop.screen.status, "日程已从云端与本地删除");
    assert!(repo.active_events().is_empty());
    desktop.ui.selected_event_id = Some("nobody".to_string());
    assert!(matches!(desktop.delete_event(&repo), DeleteAction::Idle));
    assert_eq!(desktop.screen.status, "日程不存在");
}

#[test]
fn forms_that_make_no_event_say_why() {
    let repo = LocalRepository::new();
    let mut desktop = desktop(&repo, None);
    filled_form(&mut desktop);
    let form = |change: &dyn Fn(&mut EditorForm)| -> EditorError {
        let mut fresh = EditorForm::new();
        fresh.clear_editor(date(2026, 2, 17), 8);
        fresh.title = "x".to_string();
        change(&mut fresh);
        fresh.event_from_editor(None).unwrap_err()
    };
    assert_eq!(form(&|f| f.title = " ".to_string()), EditorError::EmptyTitle);
    assert_eq!(form(&|f| f.date = "17.2.2026".to_string()), EditorError::InvalidDate);
    assert_eq!(form(&|f| f.start_time = "25:00".to_string()), EditorError::InvalidTime);
    assert_eq!(form(&|f| f.duration = "一".to_string()), EditorError::InvalidDuration);
    assert_eq!(form(&|f| f.duration = "0".to_string()), EditorError::DurationOutOfRange);
    assert_eq!(form(&|f| f.duration = "525601".to_string()), EditorError::DurationOutOfRange);
    assert_eq!(
        form(&|f| {
            f.date = "1986-05-04".to_string();
            f.start_time = "02:30".to_string();
        }),
        EditorError::InvalidLocalTime
    );
    let custom = |text: &str| -> EditorError {
        form(&|f| {
            f.custom_applied = true;
            f.custom_reminder = text.to_string();
        })
    };
    assert_eq!(custom("x"), EditorError::InvalidReminder);
    assert_eq!(custom("-1"), EditorError::ReminderOutOfRange);
    assert_eq!(custom("525601"), EditorError::ReminderOutOfRange);
    desktop.editor.title.clear();
    assert!(matches!(desktop.save_event(&repo), SaveAction::Idle));
    assert_eq!(desktop.screen.status, "无法保存：标题不能为空");
    assert_eq!(desktop.editor.feedback, "无法保存：标题不能为空");
    assert!(desktop.screen.editor_visible && desktop.editor.feedback_error);
}

#[test]
fn forms_write_rules_and_reminders() {
    let mut form = EditorForm::new();
    form.clear_editor(date(2026, 2, 17), 23);
    assert_eq!(form.start_time, "23:00");
    assert_eq!((form.lunar_month, form.lunar_day), (1, 1));
    assert_eq!(form.lunar_date, "农历正月初一");
    form.title = "x".to_string();
    form.reminder_1d = true;
    form.reminder_10m = true;
    form.custom_applied = true;
    form.custom_reminder = " 10 ".to_string();
    form.change_schedule_kind(4);
    let made = form.event_from_editor(None).unwrap();
    assert_eq!(made.recurrence_rule, "YEARLY_LUNAR:01-01:regular");
    assert_eq!(made.reminder_minutes, [0, 10, 1440]);
    form.all_day = true;
    form.change_schedule_kind(3);
    assert!(form.all_day);
    let made = form.event_from_editor(None).unwrap();
    assert_eq!(made.recurrence_rule, "YEARLY_SOLAR:02-17");
    assert!(made.all_day && made.start_at.same(&at("2026-02-17T00:00:00+08:00")));
    form.change_schedule_kind(5);
    assert!(!form.all_day);
    assert_eq!(form.schedule_label, "每天某个时刻");
    let base = made.clone();
    let again = form.event_from_editor_with(Some(base), "unused".to_string(), at("2026-03-01T00:00:00Z")).unwrap();
    assert_eq!(again.id, made.id);
    assert_eq!(again.recurrence_rule, "DAILY");
    assert!(again.updated_at.same(&at("2026-03-01T00:00:00Z")));
}

#[test]
fn events_are_loaded_into_the_form() {
    let mut repo = LocalRepository::new();
    let mut shown = event("a", "会议", "2026-02-17T01:30:00Z");
    shown.reminder_minutes = vec![0, 60, 45];
    repo.upsert_event(&shown);
    let mut desktop = desktop(&repo, None);
    assert!(desktop.select_event(&repo, "a"));
    let form = &desktop.editor;
    assert_eq!((form.title.as_str(), form.duration.as_str()), ("会议", "90"));
    assert_eq!((form.hour, form.minute, form.hour_input.as_str()), (9, 30, "09"));
    assert_eq!(form.reminders, "0, 60, 45");
    assert!(form.reminder_at_time && !form.reminder_10m && form.reminder_1h && !form.reminder_1d);
    assert_eq!((form.custom_reminder.as_str(), form.custom_applied), ("45", true));
    assert!(desktop.screen.editor_visible);
    assert!(!desktop.select_event(&repo, "b"));
    assert_eq!(desktop.screen.status, "读取日程失败：event not found");
}

#[test]
fn pickers_turn_the_form() {
    let mut form = EditorForm::new();
    form.clear_editor(date(2026, 1, 31), 8);
    form.adjust_event_date(1, 1);
    assert_eq!((form.date.as_str(), form.date_day), ("2026-02-28", 28));
    form.adjust_event_time(1, -1);
    assert_eq!(form.start_time, "08:55");
    form.adjust_event_time(0, 20);
    assert_eq!(form.start_time, "04:55");
    form.adjust_lunar_date(0, -1);
    assert_eq!(form.lunar_month, 11);
    form.adjust_lunar_date(1, 30);
    assert_eq!(form.apply_event_time(" 7 ", "5"), Ok(()));
    assert_eq!(form.start_time, "07:05");
    assert_eq!(form.apply_event_time("x", "5"), Err("小时必须是 0–23 的整数"));
    assert_eq!(form.apply_event_time("7", "x"), Err("分钟必须是 0–59 的整数"));
    assert_eq!(form.apply_event_time("24", "5"), Err("小时必须在 0–23 之间"));
    assert_eq!(form.apply_event_time("7", "60"), Err("分钟必须在 0–59 之间"));
    assert_eq!(form.start_time, "07:05");
}

#[test]
fn accounts_sign_in_and_out() {
    let mut repo = LocalRepository::new();
    let mut desktop = desktop(&repo, None);
    desktop.show_account();
    assert!(desktop.screen.auth_visible);
    desktop.request_code();
    assert_eq!(desktop.screen.auth_message, "正在发送验证码…");
    desktop.code_requested(Err("慢".to_string()));
    assert_eq!(desktop.screen.auth_message, "发送失败：慢");
    desktop.code_requested(Ok(()));
    assert_eq!(desktop.screen.auth_message, "验证码已发送，请查收邮箱");
    desktop.submit_auth(true);
    assert_eq!(desktop.screen.auth_message, "正在注册…");
    desktop.submit_auth(false);
    assert_eq!(desktop.screen.auth_message, "正在登录…");
    desktop.auth_finished(&mut repo, Err("不对".to_string()), true);
    assert_eq!(desktop.screen.auth_message, "操作失败：不对");
    assert_eq!(desktop.sync_in_background(), None);
    desktop.auth_finished(
        &mut repo,
        Ok(AuthData {
            token: "t".to_string(),
            user: UserProfile {
                id: "u".to_string(),
                email: "a@x.y".to_string(),
                display_name: "n".to_string(),
            },
        }),
        true,
    );
    assert!(!desktop.screen.auth_visible);
    assert_eq!(repo.setting("account_email"), Some("a@x.y".to_string()));
    assert_eq!(desktop.screen.status, "登录成功，正在同步");
    assert_eq!(desktop.sync_in_background(), Some("t".to_string()));
    assert_eq!(desktop.sync_in_background(), None);
    assert_eq!(desktop.logout(&mut repo, false), Some("a@x.y".to_string()));
    assert_eq!(repo.setting("account_email"), Some("a@x.y".to_string()));
    assert_eq!(desktop.logout(&mut repo, true), None);
    assert_eq!(repo.setting("account_email"), Some(String::new()));
    assert_eq!(desktop.screen.status, "已退出账户，本机日程仍保留");
    assert!(desktop.ui.token.is_none());
}

#[test]
fn conflicts_are_settled_one_after_another() {
    let mut repo = LocalRepository::new();
    let mut desktop = desktop(&repo, Some("t"));
    assert_eq!(desktop.sync_in_background(), Some("t".to_string()));
    let conflict = |id: &str| SyncConflict {
        local: event(id, id, "2026-02-17T01:30:00Z"),
        remote: None,
    };
    let conflicts = VecDeque::from(vec![conflict("a"), conflict("b")]);
    desktop.sync_finished(Ok((conflicts, 8)));
    assert_eq!(desktop.screen.status, "检测到本地与云端差异，请选择采用哪一份");
    assert!(desktop.screen.conflict_visible);
    assert_eq!(desktop.screen.conflict_title, "a");
    assert_eq!(desktop.screen.conflict_cloud, "云端不存在这条日程");
    desktop.screen.conflict_title = String::new();
    desktop.show_current_sync_conflict();
    assert_eq!(desktop.screen.conflict_title, "a");
    assert_eq!(desktop.sync_in_background(), None);
    let task = desktop.resolve_sync_conflict(false).unwrap();
    assert!(matches!(task.resolution, Resolution::Purge(id) if id == "a"));
    assert_eq!(desktop.screen.status, "正在采用云端版本…");
    assert_eq!(desktop.cursor_to_write("a"), None);
    desktop.conflict_resolved(&mut repo, "a", Err("断网".to_string()), false);
    assert_eq!(desktop.screen.status, "处理数据差异失败：断网");
    assert!(desktop.screen.conflict_visible);
    desktop.conflict_resolved(&mut repo, "a", Ok(()), true);
    assert_eq!(desktop.screen.conflict_title, "b");
    assert_eq!(repo.setting("sync_cursor"), None);
    assert_eq!(desktop.cursor_to_write("a"), None);
    assert_eq!(desktop.cursor_to_write("b"), Some("8".to_string()));
    desktop.conflict_resolved(&mut repo, "b", Ok(()), true);
    assert_eq!(desktop.screen.status, "本地与云端已保持一致");
    assert!(!desktop.screen.conflict_visible);
    assert_eq!(repo.setting("sync_cursor"), Some("8".to_string()));
    assert!(desktop.resolve_sync_conflict(true).is_none());
    desktop.logout(&mut repo, true);
    assert!(desktop.resolve_sync_conflict(true).is_none());
    assert_eq!(desktop.screen.status, "登录状态已失效，请重新登录");
    desktop.sync_finished(Err("断网".to_string()));
    assert_eq!(desktop.screen.status, "同步失败：断网");
}

#[test]
fn settings_are_saved_and_read_back() {
    let mut repo = LocalRepository::new();
    let mut desktop = desktop(&repo, None);
    assert_eq!(desktop.preferences.close_behavior, -1);
    assert_eq!(desktop.page.close_behavior, 0);
    assert!(desktop.preferences.notifications_enabled && !desktop.preferences.autostart_enabled);
    assert_eq!(desktop.autostart_status, "未启用");
    assert_eq!((close_setting(-1), close_setting(4)), (None, None));
    assert_eq!(close_setting(2), Some("2".to_string()));
    desktop.choose_close_action(&mut repo, 4, Ok(()));
    assert_eq!(repo.setting("close_behavior"), None);
    desktop.choose_close_action(&mut repo, 2, Err("满".to_string()));
    assert_eq!(desktop.screen.status, "保存关闭行为失败：满");
    assert_eq!((repo.setting("close_behavior"), desktop.preferences.close_behavior), (None, -1));
    desktop.choose_close_action(&mut repo, 2, Ok(()));
    assert_eq!(close_behavior(&repo), 2);
    desktop.page.close_behavior = 9;
    desktop.page.notifications_enabled = false;
    desktop.page.autostart_enabled = true;
    desktop.settings_visible = true;
    assert!(!desktop.test_notification());
    assert_eq!(desktop.screen.status, "请先启用系统通知");
    let wanted = settings_to_write(&desktop.page);
    assert_eq!(wanted[0], ("close_behavior", "3".to_string()));
    assert_eq!(wanted[1], ("notifications_enabled", "false".to_string()));
    assert_eq!(wanted[2], ("notification_sound_enabled", "true".to_string()));
    assert_eq!(wanted[3], ("autostart_enabled", "true".to_string()));
    desktop.save_settings(&mut repo, Platform::Windows, Err((1, "满".to_string())));
    assert_eq!(desktop.screen.status, "保存设置失败：满");
    assert!(desktop.settings_visible && desktop.autostart_status == "未启用");
    assert_eq!((close_behavior(&repo), desktop.preferences.close_behavior), (3, 2));
    assert_eq!(repo.setting("notifications_enabled"), None);
    desktop.save_settings(&mut repo, Platform::Windows, Ok(()));
    assert_eq!(desktop.screen.status, "设置已保存");
    assert!(!desktop.settings_visible);
    assert_eq!(desktop.autostart_status, "已启用：Windows 登录计划任务已检测并同步");
    let read = load_preferences(&repo);
    assert_eq!(read, desktop.preferences);
    assert_eq!((read.close_behavior, read.notifications_enabled), (3, false));
    repo.set_setting("close_behavior", "7");
    assert_eq!(close_behavior(&repo), -1);
    repo.set_setting("notifications_enabled", "TRUE");
    assert!(bool_setting(&repo, "notifications_enabled", true));
    assert!(!bool_setting(&repo, "notifications_enabled", false));
    desktop.notification_tested(Ok(()));
    assert_eq!(desktop.screen.status, "测试通知已发送");
    desktop.notification_tested(Err("x".to_string()));
    assert_eq!(desktop.screen.status, "测试通知失败：x");
    assert!(!desktop.tray_failed("无"));
    assert_eq!(desktop.preferences.close_behavior, -1);
    assert_eq!(desktop.screen.status, "系统托盘启动失败，请关闭时选择完全退出：无");
    desktop.report(Report::Dock, "y");
    assert_eq!(desktop.screen.status, "吸附到桌面失败：y");
}

#[test]
fn the_program_ends_after_a_last_comparison() {
    let repo = LocalRepository::new();
    let mut desktop = desktop(&repo, Some("t"));
    assert!(matches!(desktop.request_full_exit(1), ExitAction::ShowForced));
    assert!(!desktop.screen.exit_pending);
    match desktop.request_full_exit(0) {
        ExitAction::FinalSync(token) => assert_eq!(token.as_deref(), Some("t")),
        _ => panic!("expected the exit"),
    }
    assert_eq!(desktop.screen.status, "正在同步数据后退出…");
    assert!(matches!(desktop.request_full_exit(0), ExitAction::Idle));
    desktop.exit_synced(Err("断网".to_string()));
    assert_eq!(desktop.screen.status, "退出前同步失败：断网");
}

#[test]
fn reminders_say_when() {
    let start = at("2026-02-17T01:30:00Z");
    assert_eq!(reminder_body(&start, 0, &date(2026, 2, 17)), "今天 09:30 开始");
    assert_eq!(
        reminder_body(&start, 120, &date(2026, 2, 16)),
        "02月17日 09:30 开始 · 提前2小时提醒"
    );
}

#[test]
fn due_reminders_are_delivered_once() {
    let mut repo = LocalRepository::new();
    let mut plain = event("a", "会议", "2026-02-17T01:30:00Z");
    plain.reminder_minutes = vec![10];
    repo.upsert_event(&plain);
    let mut forced = event("b", "吃药", "2026-02-17T01:31:00Z");
    forced.reminder_minutes = vec![10];
    forced.force_reminder = true;
    repo.upsert_event(&forced);
    let now = at("2026-02-17T01:22:00Z");
    let today = date(2026, 2, 17);
    let mut desktop = desktop(&repo, None);
    repo.set_setting("notifications_enabled", "false");
    assert!(repo.deliveries(now, today).is_empty());
    repo.set_setting("notifications_enabled", "true");
    let due = repo.deliveries(now, today);
    assert_eq!(due.len(), 2);
    let first = &due[0];
    assert_eq!((first.event.id.as_str(), first.body.as_str()), ("a", "今天 09:30 开始 · 提前10分钟提醒"));
    let refused = || -> Result<(), String> { Err("无".to_string()) };
    let step = desktop.reminder_step(&mut repo, first, now, ReminderEvent::Begun);
    assert_eq!(step, ReminderStep::Notify);
    let step = desktop.reminder_step(&mut repo, first, now, ReminderEvent::Notified(refused()));
    assert_eq!(step, ReminderStep::Done);
    assert_eq!(desktop.screen.status, "系统通知发送失败，将自动重试：无");
    let step = desktop.reminder_step(&mut repo, first, now, ReminderEvent::Notified(Ok(())));
    assert_eq!(step, ReminderStep::Mark);
    let step = desktop.reminder_step(&mut repo, first, now, ReminderEvent::Marked(refused()));
    assert_eq!(step, ReminderStep::Done);
    assert_eq!(desktop.screen.status, "记录提醒投递失败：无");
    assert_eq!(repo.deliveries(now, today).len(), 2);
    let step = desktop.reminder_step(&mut repo, first, now, ReminderEvent::Marked(Ok(())));
    assert_eq!(step, ReminderStep::Done);
    assert_eq!(desktop.screen.status, "提醒：会议 · 今天 09:30 开始 · 提前10分钟提醒");
    assert_eq!(repo.deliveries(now, today).len(), 1);
    let second = &due[1];
    let step = desktop.reminder_step(&mut repo, second, now, ReminderEvent::Begun);
    assert_eq!(step, ReminderStep::Queue);
    let step = desktop.reminder_step(&mut repo, second, now, ReminderEvent::Queued(refused()));
    assert_eq!(step, ReminderStep::Done);
    assert_eq!(desktop.screen.status, "记录强制提醒失败，将自动重试：无");
    let step = desktop.reminder_step(&mut repo, second, now, ReminderEvent::Queued(Ok(())));
    assert_eq!(step, ReminderStep::Mark);
    desktop.set_status("");
    let step = desktop.reminder_step(&mut repo, second, now, ReminderEvent::Marked(refused()));
    assert_eq!(step, ReminderStep::Done);
    assert_eq!(desktop.screen.status, "记录强制提醒失败，将自动重试：无");
    assert_eq!(repo.deliveries(now, today).len(), 1);
    let step = desktop.reminder_step(&mut repo, second, now, ReminderEvent::Marked(Ok(())));
    assert_eq!(step, ReminderStep::Show);
    assert!(repo.deliveries(now, today).is_empty());
    let step = desktop.reminder_step(&mut repo, second, now, ReminderEvent::Shown(refused()));
    assert_eq!(step, ReminderStep::Done);
    assert_eq!(desktop.screen.status, "显示强制提醒失败，将在下次启动恢复：无");
    let step = desktop.reminder_step(&mut repo, second, now, ReminderEvent::Shown(Ok(())));
    assert_eq!(step, ReminderStep::Notify);
    let step = desktop.reminder_step(&mut repo, second, now, ReminderEvent::Notified(refused()));
    assert_eq!(step, ReminderStep::Done);
    assert_eq!(desktop.screen.status, "强制提醒：吃药 · 今天 09:31 开始 · 提前10分钟提醒");
}

#[test]
fn forced_reminders_wait_in_line() {
    let reminder = |key: &str| ForcedReminder {
        key: key.to_string(),
        title: format!("标题 {}", key),
        body: "正文".to_string(),
    };
    assert!(forced_notice(&Vec::new()).is_none());
    let notice = forced_notice(&vec![reminder("k1"), reminder("k2")]).unwrap();
    assert_eq!((notice.key.as_str(), notice.title.as_str()), ("k1", "标题 k1"));
    assert_eq!((notice.body.as_str(), notice.pending_count), ("正文", 2));
    let repo = LocalRepository::new();
    let mut desktop = desktop(&repo, None);
    desktop.forced_reminder_acknowledged(Ok(true));
    assert_eq!(desktop.screen.status, "已处理一条强制提醒，正在显示下一条");
    desktop.forced_reminder_acknowledged(Ok(false));
    assert_eq!(desktop.screen.status, "强制提醒已处理");
    desktop.forced_reminder_acknowledged(Err("x".to_string()));
    assert_eq!(desktop.screen.status, "处理强制提醒失败：x");
}

#[test]
fn the_widget_commands_the_main_window() {
    let mut repo = LocalRepository::new();
    repo.upsert_event(&event("a", "会议", "2026-02-17T01:30:00Z"));
    let mut desktop = desktop(&repo, None);
    assert!(!desktop.widget_command(&repo, "close", None));
    assert!(!desktop.widget_command(&repo, "edit", None));
    assert!(desktop.widget_command(&repo, "open", None));
    assert_eq!(desktop.screen.status, "主界面已从系统托盘恢复");
    assert!(desktop.widget_command(&repo, "edit", Some("a")));
    assert!(desktop.screen.editor_visible);
    assert_eq!(desktop.editor.title, "会议");
    assert!(desktop.widget_command(&repo, "edit", Some("b")));
    assert_eq!(desktop.screen.status, "读取日程失败：event not found");
    desktop.hide_widget();
    assert_eq!(desktop.screen.status, "桌面日历已隐藏到系统托盘");
    desktop.hide_main_window();
    assert_eq!(desktop.screen.status, "已隐藏到系统托盘，双击托盘图标可恢复");
    desktop.docked();
    assert_eq!(desktop.screen.status, "日历已吸附到桌面；可从托盘恢复主程序");
    desktop.widget_stopped("exit code: 1");
    assert_eq!(desktop.screen.status, "桌面挂件异常退出（exit code: 1），主界面已自动恢复");
    let origin = Some(DesktopDragOrigin { cursor: (1, 2), window: (10, 20) });
    desktop.start_drag(true, origin);
    assert_eq!(desktop.drag_move((5, 5)), None);
    desktop.start_drag(false, origin);
    assert_eq!(desktop.drag_move((5, 5)), Some((14, 23)));
    assert!(desktop.end_drag());
    assert!(!desktop.end_drag());
}

#[test]
fn fetched_holidays_are_reported() {
    let repo = LocalRepository::new();
    let mut desktop = desktop(&repo, None);
    desktop.holidays_refreshed(Ok(12));
    assert_eq!(desktop.screen.status, "法定节假日已更新 · 12 条");
    desktop.holidays_refreshed(Err("断网".to_string()));
    assert_eq!(desktop.screen.status, "使用本地节假日缓存：断网");
}

#[test]
fn the_start_with_the_system_is_set_up() {
    assert_eq!(autostart_status(Platform::Other, true, None), "当前系统不支持开机启动");
    assert_eq!(autostart_status(Platform::MacOs, true, None), "已启用：macOS 用户启动项已检测并同步");
    assert_eq!(autostart_status(Platform::MacOs, false, None), "未启用");
    assert_eq!(autostart_status(Platform::Other, false, Some("坏")), "启动项检测失败：坏");
    let step = |platform, enabled, event| autostart_step(platform, enabled, event);
    for system in [Platform::Windows, Platform::MacOs] {
        assert!(matches!(step(system, false, AutostartEvent::Begun), AutostartStep::Query));
        assert!(matches!(step(system, false, AutostartEvent::Queried(true)), AutostartStep::Delete));
        assert!(matches!(step(system, false, AutostartEvent::Queried(false)), AutostartStep::Done));
        assert!(matches!(step(system, false, AutostartEvent::Deleted), AutostartStep::Done));
        assert!(matches!(step(system, true, AutostartEvent::Begun), AutostartStep::Create));
        assert!(matches!(step(system, true, AutostartEvent::Created), AutostartStep::Query));
        assert!(matches!(step(system, true, AutostartEvent::Confirmed(true)), AutostartStep::Done));
    }
    assert!(matches!(
        step(Platform::Windows, true, AutostartEvent::Confirmed(false)),
        AutostartStep::Failed("计划任务创建后未能通过检测")
    ));
    assert!(matches!(
        step(Platform::MacOs, true, AutostartEvent::Confirmed(false)),
        AutostartStep::Failed("macOS 用户启动项写入后未能通过检测")
    ));
    assert!(matches!(
        step(Platform::Other, true, AutostartEvent::Begun),
        AutostartStep::Failed("当前系统不支持开机启动")
    ));
    assert!(matches!(step(Platform::Other, false, AutostartEvent::Begun), AutostartStep::Done));
    assert_eq!(autostart_action("C:\\a b.exe"), "\"C:\\a b.exe\" --startup-hidden");
    assert_eq!(command_failure("删除", " 拒绝 \n"), "删除失败：拒绝");
    assert_eq!(xml_escape("<a&\"b'>"), "&lt;a&amp;&quot;b&apos;&gt;");
    let agent = launch_agent("/Applications/A&B.app");
    assert!(agent.starts_with("<?xml version=\"1.0\" encoding=\"UTF-8\"?>\n<!DOCTYPE plist PUBLIC"));
    assert!(agent.contains("<array><string>/Applications/A&amp;B.app</string><string>--startup-hidden</string></array>"));
    assert!(agent.ends_with("</dict>\n</plist>\n"));
    assert!(launch_agent_installed(&agent, "/Applications/A&B.app"));
    assert!(!launch_agent_installed(&agent, "/Applications/C.app"));
    assert_eq!(api_base_url(None), "https://novel.emssion.com/schedule");
    assert_eq!(api_base_url(Some("http://x".to_string())), "http://x");
}
