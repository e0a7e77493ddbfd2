use schedule_manager::accounts::{
    accept_email, code_mail_body, code_mail_subject, fresh_code, fresh_salt, fresh_token,
    hash_password, hash_password_with, normalize_email, ok, parse_utc, token_hash,
    validate_password, verify_password, ApiError, Config, Environment,
};
use schedule_manager::instant::Instant;
use schedule_manager::models::{CalendarEvent, Holiday};
use schedule_manager::server::{
    holiday_source_url, holiday_years, records_of_source, CodeRow, EventRow, FetchedYear,
    FreshValues, HolidayDay, HolidayRow, HolidaySource, RegisterRequest, Server, SessionRow,
    SourceError, UserRow,
};

fn at(text: &str) -> Instant {
    Instant::parse(text).unwrap()
}

#[test]
fn token_hash_is_stable_and_password_roundtrips() {
    assert_eq!(token_hash("abc"), token_hash("abc"));
    let hash = hash_password("correct horse").unwrap();
    assert_eq!(verify_password(&hash, "correct horse"), Some(true));
}

#[test]
fn digests_and_wrong_passwords() {
    assert_eq!(
        token_hash("abc"),
        "ba7816bf8f01cfea414140de5dae2223b00361a396177a9cb410ff61f20015ad"
    );
    let salt = vec![7u8; 16];
    let hash = hash_password_with("correct horse", &salt).unwrap();
    assert_eq!(hash_password_with("correct horse", &salt).unwrap(), hash);
    assert!(hash.starts_with("$argon2id$v=19$m=19456,t=2,p=1$"));
    assert_eq!(verify_password(&hash, "correct horse"), Some(true));
    assert_eq!(verify_password(&hash, "Correct horse"), Some(false));
    assert_eq!(verify_password("no hash", "x"), None);
}

#[test]
fn fresh_values_have_their_shape() {
    let code = fresh_code();
    assert_eq!(code.len(), 6);
    assert!(code.chars().all(|c| c.is_ascii_digit()));
    let token = fresh_token();
    assert_eq!(token.len(), 64);
    assert!(token.chars().all(|c| c.is_ascii_hexdigit()));
    assert_ne!(token, fresh_token());
    assert_eq!(fresh_salt().len(), 16);
    assert_ne!(fresh_salt(), fresh_salt());
}

#[test]
fn addresses_are_normalized() {
    assert_eq!(normalize_email("  A.B@Example.COM \n").unwrap(), "a.b@example.com");
    assert_eq!(normalize_email("ÄB@x.y").unwrap(), "äb@x.y");
    for bad in ["", "a", "@x.y", "a@xy", "a@x.", "a@"] {
        let error = normalize_email(bad).unwrap_err();
        assert_eq!(error.status, 400);
        assert_eq!(error.message, "邮箱格式不正确");
    }
    assert_eq!(accept_email("a@b@c.d".to_string()).unwrap(), "a@b@c.d");
    let long = format!("{}@x.y", "a".repeat(250));
    assert_eq!(normalize_email(&long).unwrap(), long);
    let longer = format!("{}@x.y", "a".repeat(251));
    assert_eq!(normalize_email(&longer).unwrap_err().status, 400);
}

#[test]
fn passwords_have_eight_to_128_characters() {
    assert!(validate_password("1234567").is_err());
    assert!(validate_password("密码密码密码密码").is_ok());
    assert!(validate_password(&"x".repeat(128)).is_ok());
    let error = validate_password(&"x".repeat(129)).unwrap_err();
    assert_eq!(error.message, "密码长度应为 8 到 128 个字符");
}

#[test]
fn refusals_become_envelopes() {
    assert_eq!(ApiError::bad_request("x").status, 400);
    assert_eq!(ApiError::unauthorized("x").status, 401);
    assert_eq!(ApiError::conflict("x").status, 409);
    let internal = ApiError::internal();
    assert_eq!(internal.status, 500);
    assert_eq!(internal.message, "服务暂时不可用");
    let envelope = ApiError::with_status(429, "慢").into_envelope();
    assert_eq!((envelope.code, envelope.message.as_str()), (429, "慢"));
    let envelope = ok(3);
    assert_eq!((envelope.code, envelope.message.as_str(), envelope.data), (0, "ok", 3));
}

fn environment() -> Environment {
    Environment {
        bind: None,
        database_path: None,
        public_base_url: None,
        email_delivery: None,
        email_from: None,
        smtp_host: None,
        smtp_port: None,
        smtp_username: None,
        smtp_password: None,
    }
}

#[test]
fn configuration_has_defaults() {
    let config = Config::from_env(environment());
    assert_eq!(config.bind, "127.0.0.1:8010");
    assert_eq!(config.database_path, "./schedule.db");
    assert_eq!(config.public_base_url, "https://novel.emssion.com/schedule");
    assert_eq!(config.email_from, "Schedule Manager <noreply@mail.emssion.com>");
    assert_eq!(config.smtp_host, "smtpdm.aliyun.com");
    assert_eq!(config.smtp_port, 465);
    assert_eq!(config.smtp_username, "");
    assert!(config.prints_codes());
    let config = Config::from_env(Environment {
        smtp_port: Some("25".to_string()),
        email_delivery: Some("CONSOLE".to_string()),
        ..environment()
    });
    assert_eq!(config.smtp_port, 25);
    assert!(config.prints_codes());
    let config = Config::from_env(Environment {
        smtp_port: Some("x".to_string()),
        email_delivery: Some("smtp".to_string()),
        ..environment()
    });
    assert_eq!(config.smtp_port, 465);
    assert!(!config.prints_codes());
}

#[test]
fn mails_tell_the_code() {
    assert_eq!(code_mail_subject(), "Schedule Manager 邮箱验证码");
    assert_eq!(
        code_mail_body("012345"),
        "你的验证码是：012345\n\n验证码 10 分钟内有效。若非本人操作，请忽略此邮件。"
    );
}

#[test]
fn instants_are_read_from_text() {
    assert!(parse_utc("2026-02-17T08:00:00+08:00").unwrap().same(&at("2026-02-17T00:00:00Z")));
    assert!(parse_utc("yesterday").is_none());
}

fn request(email: &str, code: &str) -> RegisterRequest {
    RegisterRequest {
        email: email.to_string(),
        password: "12345678".to_string(),
        display_name: " 小明 ".to_string(),
        code: code.to_string(),
    }
}

fn fresh(id: &str, token: &str) -> FreshValues {
    FreshValues { id: id.to_string(), salt: vec![1u8; 16], token: token.to_string() }
}

const START: &str = "2026-03-01T00:00:00+00:00";

fn server_with_account() -> Server {
    let mut server = Server::new();
    let now = at(START);
    assert_eq!(server.request_code_with("A@x.y", "123456", now).unwrap(), "a@x.y");
    let user = server.register_with(&request("a@X.y", " 123456 "), &fresh("u1", "t1"), now).unwrap();
    assert_eq!((user.id.as_str(), user.email.as_str()), ("u1", "a@x.y"));
    assert_eq!(user.display_name, "小明");
    server
}

#[test]
fn a_code_is_not_sent_twice_within_a_minute() {
    let mut server = Server::new();
    let now = at(START);
    assert!(server.request_code_with("a@x.y", "111111", now).is_ok());
    let error = server.request_code_with("A@x.y", "222222", now).unwrap_err();
    assert_eq!(error.status, 429);
    assert_eq!(error.message, "请 60 秒后再获取验证码");
    let later = now.plus_minutes(1).unwrap();
    assert!(server.request_code_with("a@x.y", "222222", later).is_ok());
    let mail = server.request_code("b@x.y").unwrap();
    assert_eq!(mail.email, "b@x.y");
    assert_eq!(mail.code.len(), 6);
}

#[test]
fn registrations_are_checked() {
    let mut server = Server::new();
    let now = at(START);
    let code = |s: &mut Server, r: &RegisterRequest, now: Instant| {
        s.register_with(r, &fresh("u", "t"), now).unwrap_err().message
    };
    assert_eq!(code(&mut server, &request("a", "1"), now), "邮箱格式不正确");
    let mut short = request("a@x.y", "1");
    short.password = "1234567".to_string();
    assert_eq!(code(&mut server, &short, now), "密码长度应为 8 到 128 个字符");
    let mut nameless = request("a@x.y", "1");
    nameless.display_name = "  ".to_string();
    assert_eq!(code(&mut server, &nameless, now), "昵称长度应为 1 到 80 个字符");
    nameless.display_name = "x".repeat(81);
    assert_eq!(code(&mut server, &nameless, now), "昵称长度应为 1 到 80 个字符");
    assert_eq!(code(&mut server, &request("a@x.y", "1"), now), "请先获取邮箱验证码");
    server.request_code_with("a@x.y", "123456", now).unwrap();
    let late = now.plus_minutes(11).unwrap();
    assert_eq!(code(&mut server, &request("a@x.y", "123456"), late), "验证码已失效，请重新获取");
    for _ in 0..6 {
        assert_eq!(code(&mut server, &request("a@x.y", "1"), now), "邮箱验证码不正确");
    }
    assert_eq!(code(&mut server, &request("a@x.y", "123456"), now), "验证码已失效，请重新获取");
}

#[test]
fn an_address_registers_once() {
    let mut server = server_with_account();
    let now = at(START);
    let later = now.plus_minutes(2).unwrap();
    server.request_code_with("a@x.y", "654321", later).unwrap();
    let error =
        server.register_with(&request("a@x.y", "654321"), &fresh("u2", "t2"), later).unwrap_err();
    assert_eq!(error.status, 409);
    assert_eq!(error.message, "该邮箱已注册，请直接登录");
    let (token, user) = {
        let mut other = Server::new();
        let mail = other.request_code("c@x.y").unwrap();
        other.register(&request("c@x.y", &mail.code)).unwrap()
    };
    assert_eq!(token.len(), 64);
    assert_eq!(user.id.len(), 36);
}

#[test]
fn sessions_authenticate_until_they_expire() {
    let mut server = server_with_account();
    let now = at(START);
    assert_eq!(server.authenticated_user(Some("Bearer t1"), &now).unwrap().id, "u1");
    let message = |header: Option<&str>, now: &Instant| {
        server.authenticated_user(header, now).unwrap_err().message
    };
    assert_eq!(message(None, &now), "请先登录");
    assert_eq!(message(Some("Basic t1"), &now), "请先登录");
    assert_eq!(message(Some("Bearer t2"), &now), "登录已失效，请重新登录");
    let last = now.plus_minutes(30 * 24 * 60).unwrap();
    assert!(server.authenticated_user(Some("Bearer t1"), &last).is_ok());
    let after = last.plus_minutes(1).unwrap();
    assert_eq!(message(Some("Bearer t1"), &after), "登录已过期，请重新登录");
    let user = server.login_with("A@x.y", "12345678", "t9", after).unwrap();
    assert_eq!(user.id, "u1");
    assert!(server.authenticated_user(Some("Bearer t9"), &after).is_ok());
    let error = server.login_with("a@x.y", "87654321", "t8", after).unwrap_err();
    assert_eq!((error.status, error.message.as_str()), (401, "邮箱或密码不正确"));
    let error = server.login_with("b@x.y", "12345678", "t8", after).unwrap_err();
    assert_eq!((error.status, error.message.as_str()), (401, "邮箱或密码不正确"));
    let (token, user) = server.login("a@x.y", "12345678").unwrap();
    assert_eq!((token.len(), user.email.as_str()), (64, "a@x.y"));
}

fn event(id: &str, title: &str) -> CalendarEvent {
    let start = at("2026-03-05T01:00:00+00:00");
    let mut event =
        CalendarEvent::draft_with(id.to_string(), start, start.plus_minutes(60).unwrap(), start);
    event.title = title.to_string();
    event
}

#[test]
fn events_are_stored_pulled_and_deleted() {
    let mut server = server_with_account();
    let now = at(START);
    let key = Some("Bearer t1");
    let stored = server.upsert_event(key, &event("e1", "会议"), now).unwrap();
    assert_eq!((stored.version, stored.updated_seq, stored.deleted), (1, 1, false));
    let second = server.upsert_event(key, &event("e2", "午饭"), now).unwrap();
    assert_eq!((second.version, second.updated_seq), (1, 2));
    let mut again = stored.clone();
    again.title = "大会".to_string();
    let again = server.upsert_event(key, &again, now).unwrap();
    assert_eq!((again.version, again.updated_seq), (2, 3));
    assert_eq!(server.next_sequence("u1"), Some(4));
    let pull = server.sync_pull(key, 0, now).unwrap();
    let titles: Vec<&str> = pull.events.iter().map(|e| e.title.as_str()).collect();
    assert_eq!(titles, ["午饭", "大会"]);
    assert_eq!(pull.cursor, 3);
    let pull = server.sync_pull(key, 3, now).unwrap();
    assert!(pull.events.is_empty());
    assert_eq!(pull.cursor, 3);
    let error = server.upsert_event(key, &stored, now).unwrap_err();
    assert_eq!((error.status, error.message.as_str()), (409, "此日程已在其他设备更新，请先同步"));
    let error = server.delete_event(key, "e1", 1, now).unwrap_err();
    assert_eq!(error.status, 409);
    let gone = server.delete_event(key, "e1", 2, now).unwrap();
    assert_eq!((gone.deleted, gone.version, gone.updated_seq), (true, 3, 4));
    let pull = server.sync_pull(key, 3, now).unwrap();
    assert_eq!((pull.events.len(), pull.events[0].deleted, pull.cursor), (1, true, 4));
    let error = server.delete_event(key, "e9", 1, now).unwrap_err();
    assert_eq!((error.status, error.message.as_str()), (404, "日程不存在"));
}

#[test]
fn events_are_checked_before_they_are_stored() {
    let mut server = server_with_account();
    let now = at(START);
    let key = Some("Bearer t1");
    let error = server.upsert_event(None, &event("e1", "x"), now).unwrap_err();
    assert_eq!(error.status, 401);
    let error = server.upsert_event(key, &event("e1", " \t"), now).unwrap_err();
    assert_eq!((error.status, error.message.as_str()), (400, "日程标题不能为空"));
    let mut empty = event("e1", "x");
    empty.end_at = empty.start_at;
    let error = server.upsert_event(key, &empty, now).unwrap_err();
    assert_eq!((error.status, error.message.as_str()), (400, "结束时间必须晚于开始时间"));
    for minutes in [-1, 525_601] {
        let mut early = event("e1", "x");
        early.reminder_minutes = vec![0, minutes];
        let error = server.upsert_event(key, &early, now).unwrap_err();
        assert_eq!((error.status, error.message.as_str()), (400, "提醒时间必须在事件前一年以内"));
    }
    server.upsert_event(key, &event("e1", "x"), now).unwrap();
    server.request_code_with("b@x.y", "123456", now).unwrap();
    server.register_with(&request("b@x.y", "123456"), &fresh("u2", "t2"), now).unwrap();
    let other = Some("Bearer t2");
    let error = server.upsert_event(other, &event("e1", "x"), now).unwrap_err();
    assert_eq!((error.status, error.message.as_str()), (403, "不能修改其他用户的日程"));
    let error = server.delete_event(other, "e1", 1, now).unwrap_err();
    assert_eq!((error.status, error.message.as_str()), (403, "不能删除其他用户的日程"));
    assert!(server.sync_pull(other, 0, now).unwrap().events.is_empty());
}

fn source(year: i32, dates: &[&str]) -> HolidaySource {
    HolidaySource {
        year,
        papers: vec!["https://paper".to_string()],
        days: dates
            .iter()
            .map(|date| HolidayDay {
                name: "节".to_string(),
                date: date.to_string(),
                is_off_day: true,
            })
            .collect(),
    }
}

#[test]
fn holiday_sources_are_checked() {
    let url = holiday_source_url(2026);
    assert_eq!(
        url,
        "https://raw.githubusercontent.com/NateScarlet/holiday-cn/master/2026.json"
    );
    let records = records_of_source(2026, &url, &source(2026, &["2026-01-01"])).unwrap();
    assert_eq!(records.len(), 1);
    assert_eq!(records[0].0, 2026);
    assert_eq!(records[0].1.source_url, "https://paper");
    let mut unsigned = source(2026, &["2026-01-01"]);
    unsigned.papers.clear();
    assert_eq!(records_of_source(2026, &url, &unsigned).unwrap()[0].1.source_url, url);
    let error = records_of_source(2026, &url, &source(2025, &[])).unwrap_err();
    assert!(matches!(error, SourceError::YearMismatch(2026, 2025)));
    assert_eq!(error.message(), "holiday source year mismatch: expected 2026, got 2025");
    let error = records_of_source(2026, &url, &source(2026, &["x"])).unwrap_err();
    assert!(matches!(error, SourceError::InvalidDate(_)));
    assert_eq!(error.message(), "input contains invalid characters");
    let error = records_of_source(2026, &url, &source(2026, &["2026-02-30"])).unwrap_err();
    assert_eq!(error.message(), "input is out of range");
    let error = records_of_source(2026, &url, &source(2026, &["2026-02"])).unwrap_err();
    assert_eq!(error.message(), "premature end of input");
    let error = records_of_source(2026, &url, &source(2026, &["2025-12-31"])).unwrap_err();
    assert_eq!(error.message(), "holiday date outside source year: 2025-12-31");
}

#[test]
fn stored_holidays_are_listed_and_kept() {
    let mut server = server_with_account();
    let now = at(START);
    let url = holiday_source_url(2026);
    let records =
        records_of_source(2026, &url, &source(2026, &["2026-05-01", "2026-01-01"])).unwrap();
    assert_eq!(server.store_holidays(&records, now), 2);
    assert_eq!(server.store_holidays(&Vec::new(), now), 0);
    let listed = server.list_holidays(2026, 2026, now).unwrap();
    let dates: Vec<&str> = listed.iter().map(|h| h.date.as_str()).collect();
    assert_eq!(dates, ["2026-01-01", "2026-05-01"]);
    assert!(server.list_holidays(2025, 2025, now).unwrap().is_empty());
    for (first, last) in [(2027, 2026), (2023, 2026), (2026, 2029)] {
        let error = server.list_holidays(first, last, now).unwrap_err();
        assert_eq!((error.status, error.message.as_str()), (400, "节假日年份范围无效"));
    }
    let pull = server.sync_pull(Some("Bearer t1"), 0, now).unwrap();
    assert_eq!(pull.holidays.len(), 2);
}

#[test]
fn refreshes_take_all_sources_or_none() {
    let mut server = Server::new();
    let now = at(START);
    assert_eq!(holiday_years(&now), (2025, 2027));
    let fetched = |year: i32, source: Option<HolidaySource>| FetchedYear { year, source };
    let years = vec![
        fetched(2025, None),
        fetched(2026, Some(source(2026, &["2026-05-01", "2026-01-01"]))),
        fetched(2027, Some(source(2027, &["2027-01-01"]))),
    ];
    assert_eq!(server.refresh_holidays(&years, now).unwrap(), 3);
    assert_eq!(server.list_holidays(2026, 2027, now).unwrap().len(), 3);
    let years = vec![
        fetched(2026, Some(source(2026, &["2026-10-01"]))),
        fetched(2027, Some(source(2026, &[]))),
    ];
    assert!(matches!(
        server.refresh_holidays(&years, now),
        Err(SourceError::YearMismatch(2027, 2026))
    ));
    assert_eq!(server.list_holidays(2026, 2027, now).unwrap().len(), 3);
    assert_eq!(server.refresh_holidays(&vec![fetched(2026, None)], now).unwrap(), 0);
    assert_eq!(server.list_holidays(2026, 2027, now).unwrap().len(), 3);
}

#[test]
fn saved_records_are_taken_back() {
    let now = at(START);
    let user = |id: &str, email: &str| UserRow {
        id: id.to_string(),
        email: email.to_string(),
        display_name: "n".to_string(),
        password_hash: "h".to_string(),
        created_at: now,
    };
    let row = |id: &str, seq: i64| {
        let mut event = event(id, "x");
        event.updated_seq = seq;
        EventRow { user_id: "u1".to_string(), event }
    };
    let mut server = Server::new();
    assert!(server.restore_user(user("u1", "a@x.y")));
    assert!(!server.restore_user(user("u2", "a@x.y")));
    assert!(!server.restore_user(user("u1", "b@x.y")));
    assert!(server.restore_event(row("e1", 1)));
    assert!(!server.restore_event(row("e1", 2)));
    assert!(!server.restore_event(row("e2", 1)));
    assert!(!server.restore_event(row("e2", 0)));
    assert!(server.restore_event(row("e2", 2)));
    server.restore_session(
        &token_hash("t1"),
        SessionRow {
            user_id: "u1".to_string(),
            expires_at: now.plus_minutes(5).unwrap(),
            created_at: now,
        },
    );
    server.restore_code(
        "c@x.y",
        CodeRow {
            code_hash: token_hash("123456"),
            expires_at: now.plus_minutes(5).unwrap(),
            attempts: 0,
            last_sent_at: now,
        },
    );
    server.restore_holiday(HolidayRow {
        year: 2026,
        holiday: Holiday {
            date: "2026-01-01".to_string(),
            name: "元旦".to_string(),
            is_off_day: true,
            source_url: String::new(),
        },
        updated_at: now,
    });
    let pull = server.sync_pull(Some("Bearer t1"), 0, now).unwrap();
    assert_eq!((pull.events.len(), pull.holidays.len(), pull.cursor), (2, 1, 2));
    assert!(server.register_with(&request("c@x.y", "123456"), &fresh("u3", "t3"), now).is_ok());
    assert_eq!(server.users().len(), 2);
    assert_eq!(server.codes().len(), 0);
    assert_eq!(server.sessions().len(), 2);
    assert_eq!(server.events().len(), 2);
    assert_eq!(server.events().key_at(0), "e1");
    assert_eq!(server.holidays().value_at(0).holiday.name, "元旦");
}

#[test]
fn an_accepted_address_is_accepted_unchanged() {
    let once = normalize_email("\t Some.One@Example.ORG ").unwrap();
    assert_eq!(once, "some.one@example.org");
    assert_eq!(normalize_email(&once).unwrap(), once);
    assert_eq!(normalize_email("SOME.ONE@example.org").unwrap(), once);
}
