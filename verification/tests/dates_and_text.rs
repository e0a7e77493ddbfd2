use schedule_manager::date::{days_in_month, Date};
use schedule_manager::instant::{parse_clock, Instant};
use schedule_manager::labels::{
    human_offset, join_filled, local_time, parse_color, reminder_summary, time_label,
};
use schedule_manager::month::{
    adjust_date, first_on_sheet, month_day_label, month_title, shift_month, weekday_name,
};
use schedule_manager::order::{order_by, order_by_number};
use schedule_manager::table::Table;
use schedule_manager::text::{
    contains_part, is_blank, is_white_space, join, padded_text, parse_i32, parse_i64,
    parse_unsigned, same_ignoring_ascii_case, signed_text, split_once, starts_with, strip_prefix,
    text_before, to_ascii_lower, trim, wide, wide_length,
};

fn date(year: i32, month: u32, day: u32) -> Date {
    Date::new(year, month, day).unwrap()
}

fn at(text: &str) -> Instant {
    Instant::parse(text).unwrap()
}

#[test]
fn dates_agree_with_chrono() {
    for (y, m, d) in [(1, 1, 1), (2026, 2, 17), (2024, 2, 29), (1900, 12, 31), (-5, 3, 1)] {
        let ours = date(y, m, d);
        let theirs = chrono::NaiveDate::from_ymd_opt(y, m, d).unwrap();
        assert_eq!(ours.text(), theirs.to_string());
        assert_eq!(ours.day_number(), chrono::Datelike::num_days_from_ce(&theirs));
        assert_eq!(
            ours.weekday(),
            chrono::Datelike::weekday(&theirs).num_days_from_monday()
        );
    }
    assert_eq!(date(12345, 1, 2).text(), "+12345-01-02");
    assert_eq!(date(-5, 1, 2).text(), "-0005-01-02");
    assert!(Date::new(2025, 2, 29).is_none());
    assert!(Date::new(2025, 13, 1).is_none());
    assert!(Date::new(262143, 1, 1).is_none());
    assert_eq!(days_in_month(2024, 2), 29);
    assert_eq!(days_in_month(2100, 2), 28);
    assert_eq!(days_in_month(2026, 4), 30);
}

#[test]
fn dates_are_read_as_chrono_reads_them() {
    for text in ["2026-02-17", "2026-2-7", "+2026-02-17", " 2026-02-17", "2026-02-30", "x", ""] {
        let ours = Date::parse(text).map(|d| d.text());
        let theirs =
            chrono::NaiveDate::parse_from_str(text, "%Y-%m-%d").ok().map(|d| d.to_string());
        assert_eq!(ours, theirs, "{}", text);
    }
}

#[test]
fn days_and_months_move() {
    assert_eq!(date(2024, 2, 28).plus_days(2).unwrap(), date(2024, 3, 1));
    assert_eq!(date(2024, 3, 1).plus_days(-366).unwrap(), date(2023, 3, 1));
    assert!(date(262142, 12, 31).plus_days(1).is_none());
    assert!(date(2026, 1, 1).before(&date(2026, 1, 2)));
    assert_eq!(shift_month(date(2026, 1, 31), -1), date(2025, 12, 1));
    assert_eq!(shift_month(date(2026, 1, 31), 13), date(2027, 2, 1));
    let month = date(2026, 2, 1);
    assert_eq!(shift_month(shift_month(month, 17), -17), month);
    assert_eq!(first_on_sheet(&month), date(2026, 1, 26));
    assert_eq!(first_on_sheet(&date(2026, 6, 1)), date(2026, 6, 1));
    assert_eq!(month_title(&month), "2026年 2月");
    assert_eq!(month_day_label(&date(2026, 2, 7)), "02月07日");
    assert_eq!(weekday_name(0), "周一");
    assert_eq!(weekday_name(6), "周日");
}

#[test]
fn pickers_keep_dates_valid() {
    assert_eq!(adjust_date(date(2024, 2, 29), 0, 1), date(2025, 2, 28));
    assert_eq!(adjust_date(date(2024, 2, 29), 0, -500), date(1900, 2, 28));
    assert_eq!(adjust_date(date(2024, 2, 29), 0, 500), date(2100, 2, 28));
    assert_eq!(adjust_date(date(2026, 1, 31), 1, 1), date(2026, 2, 28));
    assert_eq!(adjust_date(date(2026, 1, 31), 1, -1), date(2025, 12, 31));
    assert_eq!(adjust_date(date(2026, 1, 31), 2, 1), date(2026, 2, 1));
    assert_eq!(adjust_date(date(2100, 12, 31), 2, 1), date(2100, 12, 31));
    assert_eq!(adjust_date(date(1900, 1, 1), 2, -1), date(1900, 1, 1));
}

#[test]
fn instants_agree_with_chrono() {
    for text in [
        "2026-02-17T08:00:00+08:00",
        "2026-02-17T08:00:00.5Z",
        "1970-01-01T00:00:00.000001+00:00",
        "1969-12-31T23:59:59.123456789Z",
    ] {
        let theirs = chrono::DateTime::parse_from_rfc3339(text).unwrap().to_utc();
        let ours = at(text);
        assert_eq!(ours.seconds(), theirs.timestamp());
        assert_eq!(ours.nanos(), theirs.timestamp_subsec_nanos());
        assert_eq!(ours.text(), theirs.to_rfc3339());
        assert!(at(&ours.text()).same(&ours));
    }
    assert!(Instant::parse("2026-02-17 08:00").is_none());
    assert!(Instant::new(0, 2_000_000_000).is_none());
    let now = Instant::now();
    let theirs = chrono::Utc::now().timestamp();
    assert!((theirs - now.seconds()).abs() < 60);
}

#[test]
fn instants_move_by_minutes() {
    let t = at("2026-02-17T08:00:30+08:00");
    let later = t.plus_minutes(90).unwrap();
    assert!(later.same(&at("2026-02-17T09:30:30+08:00")));
    assert!(t.before(&later));
    assert_eq!(later.minutes_since(&t), 90);
    assert_eq!(t.minutes_since(&later), 1);
    assert_eq!(at("1970-01-01T00:01:59Z").minutes_since(&at("1970-01-01T00:00:00Z")), 1);
    assert_eq!(at("1970-01-01T00:02:00Z").minutes_since(&at("1970-01-01T00:00:00Z")), 2);
    assert!(t.plus_minutes(i64::MAX).is_none());
}

#[test]
fn local_times_are_those_of_shanghai() {
    let t = at("2026-02-16T16:05:07Z");
    assert_eq!(t.local_date(), date(2026, 2, 17));
    assert_eq!(t.utc_date(), date(2026, 2, 16));
    assert_eq!(t.local_second(), 5 * 60 + 7);
    assert_eq!(local_time(&t), "00:05");
    assert_eq!(time_label(true, &t), "全天");
    assert_eq!(time_label(false, &t), "00:05");
    let back = Instant::from_local(&date(2026, 2, 17), 5 * 60 + 7, 0).unwrap();
    assert!(back.same(&t));
    // Summer time in Shanghai in 1986, and the hour that it skipped and repeated.
    assert_eq!(at("1986-07-01T00:00:00Z").local_second(), 9 * 3600);
    assert!(Instant::from_local(&date(1986, 5, 4), 2 * 3600 + 1800, 0).is_none());
    assert!(Instant::from_local(&date(1986, 9, 14), 3600 + 1800, 0).is_none());
}

#[test]
fn clock_texts_are_read() {
    assert_eq!(parse_clock("09:05"), Some((9, 5)));
    assert_eq!(parse_clock("9:5"), Some((9, 5)));
    assert_eq!(parse_clock("24:00"), None);
    assert_eq!(parse_clock("09:60"), None);
    assert_eq!(parse_clock("09:05:00"), None);
}

#[test]
fn offsets_and_colors_are_told() {
    assert_eq!(human_offset(0), "0天");
    assert_eq!(human_offset(2880), "2天");
    assert_eq!(human_offset(180), "3小时");
    assert_eq!(human_offset(61), "61分钟");
    assert_eq!(human_offset(-61), "-61分钟");
    assert_eq!(reminder_summary(&vec![10, 60]), "提前10分钟");
    assert_eq!(reminder_summary(&Vec::new()), "");
    let parts = vec!["a".to_string(), String::new(), "b".to_string()];
    assert_eq!(join_filled(&parts, " · "), "a · b");
    assert_eq!(parse_color("#6878d6"), (0x68, 0x78, 0xd6));
    assert_eq!(parse_color("##0102FF"), (1, 2, 255));
    assert_eq!(parse_color("#123"), (104, 120, 214));
    assert_eq!(parse_color("#12345g"), (104, 120, 214));
    assert_eq!(parse_color("+12345"), (0x01, 0x23, 0x45));
}

#[test]
fn white_space_is_that_of_std() {
    for n in 0..0x11_0000u32 {
        if let Some(c) = char::from_u32(n) {
            assert_eq!(is_white_space(c), c.is_whitespace(), "{:x}", n);
        }
    }
    assert_eq!(trim(" \u{3000}a b\t\n"), "a b");
    assert!(is_blank(" \u{a0} "));
    assert!(!is_blank(" x "));
}

#[test]
fn numbers_are_read_as_std_reads_them() {
    for text in ["0", "+5", "-7", "007", "", "+", "-", "1 ", "9223372036854775807",
        "9223372036854775808", "-9223372036854775808", "-9223372036854775809", "1_0", "４"]
    {
        assert_eq!(parse_i64(text), text.parse::<i64>().ok(), "{}", text);
        assert_eq!(parse_i32(text), text.parse::<i32>().ok(), "{}", text);
    }
    assert_eq!(parse_unsigned("ff", 16, 255), Some(255));
    assert_eq!(parse_unsigned("100", 16, 255), None);
    assert_eq!(parse_unsigned("-1", 10, 255), None);
    assert_eq!(parse_unsigned("+1", 10, 255), Some(1));
    assert_eq!(signed_text(-120), "-120");
    assert_eq!(signed_text(i64::MIN), i64::MIN.to_string());
    assert_eq!(padded_text(7, 3), "007");
    assert_eq!(padded_text(1234, 3), "1234");
}

#[test]
fn texts_are_taken_apart() {
    assert_eq!(split_once("a=b=c", '='), Some(("a".to_string(), "b=c".to_string())));
    assert_eq!(split_once("abc", '='), None);
    assert_eq!(strip_prefix("Bearer x", "Bearer "), Some("x".to_string()));
    assert_eq!(strip_prefix("bearer x", "Bearer "), None);
    assert!(starts_with("abc", "ab"));
    assert!(contains_part("xchunkedx", "chunked"));
    assert!(contains_part("x", ""));
    assert!(!contains_part("chunke", "chunked"));
    assert_eq!(to_ascii_lower("AbÄ"), "abÄ");
    assert!(same_ignoring_ascii_case("Console", "cONSOLE"));
    assert!(text_before("2026-01", "2026-02"));
    assert!(text_before("a", "ab"));
    assert!(!text_before("b", "ab"));
    assert_eq!(join(&vec!["a".to_string(), "b".to_string()], ", "), "a, b");
}

#[test]
fn wide_texts_are_utf16() {
    for text in ["", "Local\\Widget", "日历", "a\u{10000}\u{10ffff}\u{1F600}z"] {
        let mut expected: Vec<u16> = text.encode_utf16().collect();
        expected.push(0);
        assert_eq!(wide(text), expected);
        assert_eq!(wide_length(&expected), expected.len() - 1);
    }
    assert_eq!(wide_length(&vec![1, 2]), 2);
}

#[test]
fn texts_of_dates_are_ordered_as_the_dates() {
    for (first, second) in [
        (date(999, 12, 31), date(2026, 1, 1)),
        (date(2026, 2, 28), date(2026, 3, 1)),
        (date(10_000, 1, 1), date(99_999, 1, 1)),
        (date(100_000, 5, 1), date(262_142, 1, 1)),
        (date(-7, 1, 1), date(0, 1, 1)),
        (date(-12_000, 1, 1), date(-3000, 1, 1)),
    ] {
        assert!(first.before(&second) && first.text() < second.text());
    }
    assert_eq!(date(10_000, 1, 1).text(), "+10000-01-01");
    assert!(date(10_000, 1, 1).text() < date(9999, 1, 1).text());
    assert!(date(-7, 1, 1).text() < date(-8, 1, 1).text());
}

#[test]
fn unread_dates_say_why() {
    for text in ["", "x", "2026-02-30", "2026-13-01", "2026-02", "2026-02-17 ", "2026-2-7"] {
        let theirs = chrono::NaiveDate::parse_from_str(text, "%Y-%m-%d");
        match (Date::read(text), theirs) {
            (Ok(read), Ok(expected)) => assert_eq!(read.text(), expected.to_string()),
            (Err(reason), Err(expected)) => assert_eq!(reason, expected.to_string()),
            _ => panic!("expected the same outcome for {:?}", text),
        }
    }
}

#[test]
fn orders_are_stable() {
    let keys = vec!["b".to_string(), "a".to_string(), "b".to_string(), "".to_string()];
    assert_eq!(order_by(&keys), [3, 1, 0, 2]);
    assert_eq!(order_by_number(&vec![5, -1, 3]), [1, 2, 0]);
}

#[test]
fn tables_hold_one_row_per_key() {
    let mut table: Table<i32> = Table::new();
    table.put("a", 1);
    table.put("b", 2);
    table.put("a", 3);
    assert_eq!(table.len(), 2);
    assert_eq!(table.get("a"), Some(&3));
    assert_eq!(table.key_at(1), "b");
    assert_eq!(*table.value_at(1), 2);
    table.remove("a");
    assert_eq!(table.get("a"), None);
    assert_eq!(table.len(), 1);
    table.remove("a");
    assert_eq!(table.len(), 1);
}

#[test]
fn a_clock_is_read_up_to_the_last_instant() {
    let shown = Instant::of_clock(1_771_291_800, 250_000_000);
    assert_eq!((shown.seconds(), shown.nanos()), (1_771_291_800, 250_000_000));
    assert_eq!(shown.text(), "2026-02-17T01:30:00.250+00:00");
    let late = Instant::of_clock(8_210_266_876_799, 7);
    assert_eq!((late.seconds(), late.nanos()), (8_210_266_847_999, 7));
    let first = Instant::now();
    let second = Instant::now();
    assert!(first.seconds() > 1_700_000_000);
    assert!(second.seconds() - first.seconds() < 3600);
}

#[test]
fn instants_reach_to_both_ends_of_the_calendar() {
    let last = Instant::from_local(&date(262142, 12, 31), 86399, 0).unwrap();
    assert_eq!(last.seconds(), 8_210_266_847_999);
    assert!(last.local_date().same_day(&date(262142, 12, 31)));
    assert!(last.plus_minutes(1).is_none());
    assert!(Instant::new(8_210_266_848_000, 0).is_none());
    let first = Instant::from_local(&date(-262143, 1, 1), 29_143, 0).unwrap();
    assert_eq!(first.seconds(), -8_334_601_228_800);
    assert_eq!(first.text(), "-262143-01-01T00:00:00+00:00");
    assert!(Instant::from_local(&date(-262143, 1, 1), 29_142, 0).is_none());
    assert!(first.plus_minutes(-1).is_none());
}
