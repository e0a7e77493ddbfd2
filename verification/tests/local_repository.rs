use schedule_manager::date::Date;
use schedule_manager::instant::Instant;
use schedule_manager::models::{CalendarEvent, Holiday, SyncPullData};
use schedule_manager::repository::LocalRepository;
use schedule_manager::sync::{
    apply_resolution, check_sync_consistency, event_content_equal, resolve_sync_conflict,
    sync_event_summary, Resolution, SyncConflict,
};

fn at(text: &str) -> Instant {
    Instant::parse(text).unwrap()
}

fn event(id: &str, start: &str) -> CalendarEvent {
    let start = at(start);
    let mut event =
        CalendarEvent::draft_with(id.to_string(), start, start.plus_minutes(60).unwrap(), start);
    event.title = format!("日程 {}", id);
    event
}

fn holiday(date: &str, name: &str) -> Holiday {
    Holiday {
        date: date.to_string(),
        name: name.to_string(),
        is_off_day: true,
        source_url: String::new(),
    }
}

#[test]
fn stores_and_reads_event() {
    let mut repo = LocalRepository::new();
    let start = Instant::now();
    let event = CalendarEvent::draft(start, start.plus_minutes(60).unwrap());
    repo.upsert_event(&event);
    assert_eq!(repo.event(&event.id).unwrap().id, event.id);
}

#[test]
fn recurring_event_reminders_are_deduplicated_per_occurrence() {
    let mut repo = LocalRepository::new();
    let occurrence = Instant::from_local(&Date::new(2026, 8, 24).unwrap(), 10 * 3600, 0).unwrap();
    let mut event = CalendarEvent::draft(occurrence, occurrence.plus_minutes(60).unwrap());
    event.recurrence_rule = "DAILY".into();
    event.reminder_minutes = vec![10];
    repo.upsert_event(&event);
    let now = occurrence.plus_minutes(-10).unwrap();
    assert_eq!(repo.due_reminders(now).unwrap().len(), 1);
    repo.mark_reminder_delivered(&event.id, event.version, occurrence, 10, now);
    assert!(repo.due_reminders(now).unwrap().is_empty());
}

#[test]
fn drafts_have_defaults() {
    let start = at("2026-03-05T01:00:00Z");
    let draft = CalendarEvent::draft(start, start.plus_minutes(60).unwrap());
    assert_eq!(draft.id.len(), 36);
    assert_eq!(draft.id.as_bytes()[14], b'4');
    assert_eq!(draft.timezone, "Asia/Shanghai");
    assert_eq!(draft.color, "#6878d6");
    assert_eq!(draft.reminder_minutes, [0]);
    assert_eq!((draft.version, draft.updated_seq), (0, 0));
    assert_ne!(draft.id, CalendarEvent::draft(start, start).id);
}

#[test]
fn queries_choose_and_order() {
    let mut repo = LocalRepository::new();
    repo.upsert_event(&event("late", "2026-03-05T05:00:00Z"));
    repo.upsert_event(&event("early", "2026-03-05T01:00:00Z"));
    let mut gone = event("gone", "2026-03-05T03:00:00Z");
    gone.deleted = true;
    gone.updated_seq = 4;
    repo.upsert_event(&gone);
    let ids = |events: Vec<CalendarEvent>| -> Vec<String> {
        events.into_iter().map(|e| e.id).collect()
    };
    assert_eq!(ids(repo.active_events()), ["early", "late"]);
    assert_eq!(ids(repo.all_events()), ["early", "gone", "late"]);
    assert_eq!(ids(repo.all_pending_events()), ["early", "late"]);
    let (from, to) = (at("2026-03-05T02:00:00Z"), at("2026-03-05T05:00:00Z"));
    assert_eq!(ids(repo.events_between(from, to)), ["early"]);
    let to = at("2026-03-05T05:00:01Z");
    assert_eq!(ids(repo.events_between(from, to)), ["early", "late"]);
    let mut changed = event("early", "2026-03-05T09:00:00Z");
    changed.title = "改".to_string();
    repo.upsert_event(&changed);
    assert_eq!(ids(repo.active_events()), ["late", "early"]);
    assert_eq!(repo.event("early").unwrap(), changed);
}

#[test]
fn deleted_events_wait_for_the_server_and_purged_ones_are_gone() {
    let mut repo = LocalRepository::new();
    let mut first = event("a", "2026-03-05T01:00:00Z");
    first.updated_seq = 9;
    repo.upsert_event(&first);
    let now = at("2026-03-06T00:00:00Z");
    let deleted = repo.mark_deleted_at("a", now).unwrap();
    assert!(deleted.deleted && deleted.updated_seq == 0 && deleted.updated_at.same(&now));
    assert_eq!(repo.all_pending_events().len(), 1);
    assert!(repo.active_events().is_empty());
    assert!(repo.mark_deleted("b").is_none());
    repo.mark_reminder_delivered("a", 0, now, 10, now);
    assert!(repo.was_delivered("a", 0, &now.text(), 10));
    assert!(!repo.was_delivered("a", 1, &now.text(), 10));
    repo.purge_event("a");
    assert!(repo.event("a").is_none());
    assert!(!repo.was_delivered("a", 0, &now.text(), 10));
}

#[test]
fn settings_and_holidays_are_kept() {
    let mut repo = LocalRepository::new();
    assert_eq!(repo.setting("k"), None);
    repo.set_setting("k", "1");
    repo.set_setting("k", "2");
    assert_eq!(repo.setting("k"), Some("2".to_string()));
    repo.replace_holidays(&vec![holiday("2026-05-01", "劳动节"), holiday("2026-01-01", "元旦")]);
    repo.replace_holidays(&vec![holiday("2026-01-01", "新年")]);
    let found = repo.holidays_between("2026-01-01", "2026-05-01");
    let names: Vec<&str> = found.iter().map(|h| h.name.as_str()).collect();
    assert_eq!(names, ["新年", "劳动节"]);
    assert_eq!(repo.holidays_between("2026-01-02", "2026-04-30").len(), 0);
    assert_eq!(repo.holiday("2026-05-01").unwrap().name, "劳动节");
    assert!(repo.holiday("2026-05-02").is_none());
}

#[test]
fn reminders_are_due_for_five_minutes() {
    let mut repo = LocalRepository::new();
    let start = at("2026-03-05T01:00:00Z");
    let mut once = event("a", "2026-03-05T01:00:00Z");
    once.reminder_minutes = vec![0, 10];
    repo.upsert_event(&once);
    let due = |minutes: i64| -> Vec<i64> {
        let now = start.plus_minutes(minutes).unwrap();
        repo.due_reminders(now).unwrap().into_iter().map(|d| d.2).collect()
    };
    assert!(due(-11).is_empty());
    assert_eq!(due(-10), [10]);
    assert_eq!(due(-5), [10]);
    assert!(due(-4).is_empty());
    assert_eq!(due(0), [0]);
    assert_eq!(due(5), [0]);
    assert!(due(6).is_empty());
}

#[test]
fn rest_day_reminders_follow_the_holidays() {
    let mut repo = LocalRepository::new();
    let mut rest = event("a", "2026-01-01T01:00:00Z");
    rest.recurrence_rule = "LEGAL_REST_DAY".to_string();
    rest.reminder_minutes = vec![1440];
    repo.upsert_event(&rest);
    // One day before Thursday, 12 March 2026, 09:00 in Shanghai.
    let now = at("2026-03-11T01:00:00Z");
    assert!(repo.due_reminders(now).unwrap().is_empty());
    repo.replace_holidays(&vec![holiday("2026-03-12", "假")]);
    let due = repo.due_reminders(now).unwrap();
    assert_eq!(due.len(), 1);
    assert!(due[0].1.same(&at("2026-03-12T01:00:00Z")));
}

#[test]
fn sync_comparison_ignores_server_metadata() {
    let start = Instant::now();
    let left = CalendarEvent::draft(start, start.plus_minutes(60).unwrap());
    let mut right = left.clone();
    right.version = 8;
    right.updated_seq = 42;
    right.updated_at = right.updated_at.plus_minutes(3).unwrap();
    assert!(event_content_equal(&left, &right));
}

#[test]
fn sync_comparison_detects_user_data_changes() {
    let start = Instant::now();
    let left = CalendarEvent::draft(start, start.plus_minutes(60).unwrap());
    let mut right = left.clone();
    right.title = "云端标题".into();
    assert!(!event_content_equal(&left, &right));

    let mut right = left.clone();
    right.force_reminder = true;
    assert!(!event_content_equal(&left, &right));
}

fn pulled(events: Vec<CalendarEvent>, cursor: i64) -> SyncPullData {
    SyncPullData { events, holidays: vec![holiday("2026-05-01", "劳动节")], cursor }
}

#[test]
fn agreeing_sides_are_merged() {
    let mut repo = LocalRepository::new();
    let same = event("same", "2026-03-05T01:00:00Z");
    repo.upsert_event(&same);
    let mut dead = event("dead", "2026-03-05T01:00:00Z");
    dead.deleted = true;
    repo.upsert_event(&dead);
    let mut remote = same.clone();
    remote.version = 3;
    remote.updated_seq = 7;
    let fresh = event("fresh", "2026-03-05T02:00:00Z");
    let conflicts = check_sync_consistency(&mut repo, &pulled(vec![remote.clone(), fresh], 7));
    assert!(conflicts.is_empty());
    assert_eq!(repo.event("same").unwrap(), remote);
    assert!(repo.event("dead").is_none());
    assert!(repo.event("fresh").is_some());
    assert_eq!(repo.setting("sync_cursor"), Some("7".to_string()));
    assert!(repo.holiday("2026-05-01").is_some());
}

#[test]
fn differing_sides_wait_for_a_decision() {
    let mut repo = LocalRepository::new();
    let mine = event("a", "2026-03-05T01:00:00Z");
    let alone = event("b", "2026-03-05T02:00:00Z");
    repo.upsert_event(&alone);
    repo.upsert_event(&mine);
    let mut theirs = mine.clone();
    theirs.title = "云端".to_string();
    theirs.version = 5;
    let conflicts = check_sync_consistency(&mut repo, &pulled(vec![theirs.clone()], 9));
    assert_eq!(conflicts.len(), 2);
    assert_eq!(conflicts[0].local, mine);
    assert_eq!(conflicts[0].remote.as_ref(), Some(&theirs));
    assert_eq!(conflicts[1].local, alone);
    assert!(conflicts[1].remote.is_none());
    assert_eq!(repo.event("a").unwrap(), mine);
    assert_eq!(repo.setting("sync_cursor"), None);
}

#[test]
fn decisions_become_steps() {
    let mine = event("a", "2026-03-05T01:00:00Z");
    let mut theirs = mine.clone();
    theirs.version = 5;
    let both = |local: &CalendarEvent| SyncConflict {
        local: local.clone(),
        remote: Some(theirs.clone()),
    };
    let alone = |local: &CalendarEvent| SyncConflict { local: local.clone(), remote: None };
    match resolve_sync_conflict(&both(&mine), true) {
        Resolution::Push(event) => assert_eq!((event.version, event.id.as_str()), (5, "a")),
        _ => panic!("expected a push"),
    }
    match resolve_sync_conflict(&alone(&mine), true) {
        Resolution::Push(event) => assert_eq!(event, mine),
        _ => panic!("expected a push"),
    }
    let mut dead = mine.clone();
    dead.deleted = true;
    assert!(matches!(
        resolve_sync_conflict(&both(&dead), true),
        Resolution::DeleteRemote(id, 5) if id == "a"
    ));
    assert!(matches!(resolve_sync_conflict(&alone(&dead), true), Resolution::Purge(id) if id == "a"));
    match resolve_sync_conflict(&both(&mine), false) {
        Resolution::Take(event) => assert_eq!(event, theirs),
        _ => panic!("expected the other side"),
    }
    assert!(matches!(resolve_sync_conflict(&alone(&mine), false), Resolution::Purge(id) if id == "a"));
}

#[test]
fn steps_are_applied() {
    let mut repo = LocalRepository::new();
    let mine = event("a", "2026-03-05T01:00:00Z");
    repo.upsert_event(&mine);
    let mut theirs = mine.clone();
    theirs.version = 5;
    assert!(!apply_resolution(&mut repo, &Resolution::Push(mine.clone()), None));
    assert_eq!(repo.event("a").unwrap().version, 0);
    assert!(apply_resolution(&mut repo, &Resolution::Push(mine.clone()), Some(&theirs)));
    assert_eq!(repo.event("a").unwrap().version, 5);
    assert!(apply_resolution(&mut repo, &Resolution::Take(mine.clone()), None));
    assert_eq!(repo.event("a").unwrap().version, 0);
    assert!(apply_resolution(&mut repo, &Resolution::Purge("a".to_string()), None));
    assert!(repo.event("a").is_none());
}

#[test]
fn summaries_tell_the_differences() {
    assert_eq!(sync_event_summary(None), "云端不存在这条日程");
    let mut mine = event("a", "2026-03-05T01:00:00Z");
    mine.reminder_minutes = vec![10];
    assert_eq!(
        sync_event_summary(Some(&mine)),
        "日程 a\n2026-03-05 09:00\n未填写地点\n提醒：提前10分钟"
    );
    mine.location = "会议室".to_string();
    mine.deleted = true;
    mine.force_reminder = true;
    assert_eq!(
        sync_event_summary(Some(&mine)),
        "已删除\n2026-03-05 09:00\n会议室\n提醒：提前10分钟（强制提醒）"
    );
}
