use schedule_manager::calendar::{
    event_occurs_on, festival_of_lunar, is_legal_rest_day, label_of_lunar, lunar_date_label,
    lunar_festival, lunar_label, lunar_parts, occurrence_start, schedule_kind, yearly_lunar_parts,
    yearly_solar_parts, CalendarError, ScheduleKind,
};
use schedule_manager::date::Date;
use schedule_manager::instant::Instant;
use schedule_manager::models::{CalendarEvent, Holiday};

fn date(year: i32, month: u32, day: u32) -> Date {
    Date::new(year, month, day).unwrap()
}

fn at(text: &str) -> Instant {
    Instant::parse(text).unwrap()
}

fn event(start: &str, rule: &str) -> CalendarEvent {
    let start = at(start);
    let mut event = CalendarEvent::draft(start, start.plus_minutes(60).unwrap());
    event.recurrence_rule = rule.to_string();
    event
}

fn holiday(date: &str, is_off_day: bool) -> Holiday {
    Holiday {
        date: date.to_string(),
        name: "节日".to_string(),
        is_off_day,
        source_url: String::new(),
    }
}

#[test]
fn chinese_new_year_is_first_lunar_day() {
    let date = Date::new(2026, 2, 17).unwrap();
    assert_eq!(lunar_label(date), "正月");
    assert_eq!(lunar_festival(date), Some("春节"));
}

#[test]
fn makeup_weekend_is_a_legal_workday() {
    let date = Date::new(2026, 2, 14).unwrap();
    let holiday = Holiday {
        date: date.text(),
        name: "春节调休".into(),
        is_off_day: false,
        source_url: String::new(),
    };
    assert!(!is_legal_rest_day(date, Some(&holiday)));
}

#[test]
fn yearly_lunar_rule_matches_chinese_new_year() {
    let date = Date::new(2026, 2, 17).unwrap();
    let start = at("2025-01-29T09:00:00+08:00");
    let mut event = CalendarEvent::draft(start, start.plus_minutes(60).unwrap());
    event.recurrence_rule = "YEARLY_LUNAR:01-01:regular".into();
    assert!(event_occurs_on(&event, date, None));
}

#[test]
fn every_kind_has_its_index_and_label() {
    let kinds = [
        (0, ScheduleKind::Specific, "具体日期与时间"),
        (1, ScheduleKind::LegalRestDay, "每个法定休息日"),
        (2, ScheduleKind::LegalWorkday, "每个法定工作日"),
        (3, ScheduleKind::YearlySolar, "每年公历某一天"),
        (4, ScheduleKind::YearlyLunar, "每年农历某一天"),
        (5, ScheduleKind::Daily, "每天某个时刻"),
    ];
    for (index, kind, label) in kinds {
        assert_eq!(kind.index(), index);
        assert_eq!(ScheduleKind::from_index(index), kind);
        assert_eq!(kind.label(), label);
    }
    assert_eq!(ScheduleKind::from_index(-1), ScheduleKind::Specific);
    assert_eq!(ScheduleKind::from_index(6), ScheduleKind::Specific);
}

#[test]
fn rules_tell_their_kind() {
    let start = "2026-03-04T09:00:00+08:00";
    assert_eq!(schedule_kind(&event(start, "")), ScheduleKind::Specific);
    assert_eq!(schedule_kind(&event(start, "LEGAL_REST_DAY")), ScheduleKind::LegalRestDay);
    assert_eq!(schedule_kind(&event(start, "LEGAL_WORKDAY")), ScheduleKind::LegalWorkday);
    assert_eq!(schedule_kind(&event(start, "YEARLY_SOLAR:03-04")), ScheduleKind::YearlySolar);
    assert_eq!(schedule_kind(&event(start, "YEARLY_LUNAR:01-15:leap")), ScheduleKind::YearlyLunar);
    assert_eq!(schedule_kind(&event(start, "DAILY")), ScheduleKind::Daily);
    assert_eq!(schedule_kind(&event(start, "WEEKLY")), ScheduleKind::Specific);
}

#[test]
fn a_specific_event_occurs_on_its_local_day() {
    let event = event("2026-03-03T17:30:00+00:00", "");
    assert!(!event_occurs_on(&event, date(2026, 3, 3), None));
    assert!(event_occurs_on(&event, date(2026, 3, 4), None));
    assert!(!event_occurs_on(&event, date(2026, 3, 5), None));
}

#[test]
fn a_deleted_event_does_not_occur() {
    let mut event = event("2026-03-04T09:00:00+08:00", "DAILY");
    assert!(event_occurs_on(&event, date(2026, 3, 6), None));
    event.deleted = true;
    assert!(!event_occurs_on(&event, date(2026, 3, 6), None));
}

#[test]
fn rest_days_and_workdays_follow_the_holidays() {
    let rest = event("2026-01-01T09:00:00+08:00", "LEGAL_REST_DAY");
    let work = event("2026-01-01T09:00:00+08:00", "LEGAL_WORKDAY");
    let saturday = date(2026, 2, 14);
    assert!(event_occurs_on(&rest, saturday, None));
    assert!(!event_occurs_on(&work, saturday, None));
    let makeup = holiday("2026-02-14", false);
    assert!(!event_occurs_on(&rest, saturday, Some(&makeup)));
    assert!(event_occurs_on(&work, saturday, Some(&makeup)));
    let tuesday = date(2026, 2, 17);
    let festival = holiday("2026-02-17", true);
    assert!(event_occurs_on(&rest, tuesday, Some(&festival)));
    assert!(!event_occurs_on(&work, tuesday, Some(&festival)));
    assert!(event_occurs_on(&work, tuesday, None));
    assert!(!event_occurs_on(&work, date(2025, 12, 31), None));
}

#[test]
fn yearly_solar_rules_fall_on_their_day() {
    let yearly = event("2026-03-04T09:00:00+08:00", "YEARLY_SOLAR:07-20");
    assert_eq!(yearly_solar_parts(&yearly), (7, 20));
    assert!(event_occurs_on(&yearly, date(2030, 7, 20), None));
    assert!(!event_occurs_on(&yearly, date(2030, 7, 21), None));
    let broken = event("2026-03-04T09:00:00+08:00", "YEARLY_SOLAR:x");
    assert_eq!(yearly_solar_parts(&broken), (3, 4));
}

#[test]
fn yearly_lunar_rules_tell_leap_months_apart() {
    let leap = event("2026-03-04T09:00:00+08:00", "YEARLY_LUNAR:06-01:leap");
    assert_eq!(yearly_lunar_parts(&leap), (6, 1, true));
    // The year 2025 has a second sixth month, which begins on 25 July.
    assert_eq!(lunar_parts(date(2025, 7, 25)), Some((6, 1, true)));
    assert!(event_occurs_on(&leap, date(2025, 7, 25), None));
    assert!(!event_occurs_on(&leap, date(2025, 6, 25), None));
    let regular = event("2026-03-04T09:00:00+08:00", "YEARLY_LUNAR:06-01:regular");
    assert!(event_occurs_on(&regular, date(2025, 6, 25), None));
    assert!(!event_occurs_on(&regular, date(2025, 7, 25), None));
}

#[test]
fn repeating_events_keep_their_local_time() {
    let daily = event("2026-03-04T09:30:00+08:00", "DAILY");
    let start = occurrence_start(&daily, date(2026, 8, 24)).unwrap();
    assert!(start.same(&at("2026-08-24T09:30:00+08:00")));
    let mut all_day = event("2026-03-04T09:30:00+08:00", "DAILY");
    all_day.all_day = true;
    let start = occurrence_start(&all_day, date(2026, 8, 24)).unwrap();
    assert!(start.same(&at("2026-08-24T00:00:00+08:00")));
    let once = event("2026-03-04T09:30:00+08:00", "");
    let start = occurrence_start(&once, date(2026, 8, 24)).unwrap();
    assert!(start.same(&once.start_at));
}

#[test]
fn a_skipped_local_time_has_no_occurrence() {
    // Clocks in Shanghai skipped the hour from 00:00 to 01:00 on 1 June 1940.
    let mut event = event("1940-01-01T00:30:00+08:00", "DAILY");
    event.all_day = false;
    assert_eq!(
        occurrence_start(&event, date(1940, 6, 1)).unwrap_err(),
        CalendarError::InvalidOccurrence
    );
    assert_eq!(CalendarError::InvalidOccurrence.message(), "该日程发生时间无效");
}

#[test]
fn lunar_labels_and_festivals() {
    assert_eq!(label_of_lunar(Some((6, 1, true))), "闰六月");
    assert_eq!(label_of_lunar(Some((6, 2, true))), "初二");
    assert_eq!(label_of_lunar(None), "");
    assert_eq!(lunar_date_label(1, 15, false), "农历正月十五");
    assert_eq!(lunar_date_label(6, 1, true), "农历闰六月初一");
    assert_eq!(lunar_date_label(13, 31, false), "农历正月初一");
    assert_eq!(festival_of_lunar(Some((1, 15, false))), Some("元宵"));
    assert_eq!(festival_of_lunar(Some((5, 5, false))), Some("端午"));
    assert_eq!(festival_of_lunar(Some((5, 5, true))), None);
    assert_eq!(festival_of_lunar(Some((7, 7, false))), Some("七夕"));
    assert_eq!(festival_of_lunar(Some((8, 15, false))), Some("中秋"));
    assert_eq!(festival_of_lunar(Some((9, 9, false))), Some("重阳"));
    assert_eq!(festival_of_lunar(Some((12, 8, false))), Some("腊八"));
    assert_eq!(festival_of_lunar(Some((12, 9, false))), None);
    assert_eq!(lunar_festival(date(2026, 9, 25)), Some("中秋"));
    assert_eq!(lunar_parts(date(0, 12, 31)), None);
    assert_eq!(lunar_parts(date(10000, 1, 1)), None);
}

#[test]
fn occurrences_reach_to_the_end_of_the_calendar() {
    let daily = event("2026-03-04T09:30:00+08:00", "DAILY");
    let late = occurrence_start(&daily, date(262140, 1, 1)).unwrap();
    assert!(late.local_date().same_day(&date(262140, 1, 1)));
    assert_eq!(late.local_second(), 9 * 3600 + 30 * 60);
    assert!(occurrence_start(&daily, date(262142, 12, 31)).is_ok());
}
