//! The state of the calendar server and what its requests do to it.
use crate::accounts::{
    argon2_hash, fresh_code, fresh_salt, fresh_token, hash_password_with, is_code, is_token,
    normalize_email, normalized_email, password_matches, sha256_hex, token_hash, unavailable,
    valid_password, validate_password, verify_password, ApiError, Refusal,
};
use crate::calendar::lemma_date_of_number;
use crate::date::{date_reading, parsed_date, Date};
use crate::instant::{
    a_shift_adds_sixty_seconds_a_minute, date_of_number, earlier, shifted, Instant,
};
use crate::models::{
    event_views, fresh_id, holiday_views, hyphenated, CalendarEvent, EventView, Holiday,
    HolidayView, ProfileView, SyncPullData, UserProfile,
};
use crate::order::{in_number_order, in_order, order_by, order_by_number, ranks_before};
use crate::sync::same_content;
use crate::table::{has_key, lemma_row_in_map, Table};
use crate::text::{
    after_prefix, is_blank, lemma_text_lt_total, same_text, signed_decimal, signed_text,
    strip_prefix, text_lt, trim, trimmed, views,
};
use vstd::prelude::*;

verus! {

/// For how many minutes no second code is sent to an address.
pub const CODE_PAUSE_MINUTES: i64 = 1;

/// For how many minutes a code is valid.
pub const CODE_MINUTES: i64 = 10;

/// How many wrong codes make a code invalid.
pub const CODE_ATTEMPTS: i64 = 6;

/// For how many minutes a session is valid: 30 days.
pub const SESSION_MINUTES: i64 = 43_200;

/// The most minutes before its start at which an event may remind: one year.
pub const LONGEST_REMINDER: i64 = 525_600;

/// An account.
#[derive(Debug)]
pub struct UserRow {
    pub id: String,
    pub email: String,
    pub display_name: String,
    pub password_hash: String,
    pub created_at: Instant,
}

/// What an account holds.
#[verifier::ext_equal]
pub struct UserView {
    pub id: Seq<char>,
    pub email: Seq<char>,
    pub display_name: Seq<char>,
    pub password_hash: Seq<char>,
    pub created_at: Instant,
}

impl View for UserRow {
    type V = UserView;

    open spec fn view(&self) -> UserView {
        UserView {
            id: self.id@,
            email: self.email@,
            display_name: self.display_name@,
            password_hash: self.password_hash@,
            created_at: self.created_at,
        }
    }
}

/// A code that was sent to an address.
#[derive(Debug)]
pub struct CodeRow {
    pub code_hash: String,
    pub expires_at: Instant,
    pub attempts: i64,
    pub last_sent_at: Instant,
}

/// What is kept of a code.
#[verifier::ext_equal]
pub struct CodeView {
    pub code_hash: Seq<char>,
    pub expires_at: Instant,
    pub attempts: i64,
    pub last_sent_at: Instant,
}

impl View for CodeRow {
    type V = CodeView;

    open spec fn view(&self) -> CodeView {
        CodeView {
            code_hash: self.code_hash@,
            expires_at: self.expires_at,
            attempts: self.attempts,
            last_sent_at: self.last_sent_at,
        }
    }
}

/// A session.
#[derive(Debug)]
pub struct SessionRow {
    pub user_id: String,
    pub expires_at: Instant,
    pub created_at: Instant,
}

/// What is kept of a session.
#[verifier::ext_equal]
pub struct SessionView {
    pub user_id: Seq<char>,
    pub expires_at: Instant,
    pub created_at: Instant,
}

impl View for SessionRow {
    type V = SessionView;

    open spec fn view(&self) -> SessionView {
        SessionView {
            user_id: self.user_id@,
            expires_at: self.expires_at,
            created_at: self.created_at,
        }
    }
}

/// An event and whose it is.
#[derive(Debug)]
pub struct EventRow {
    pub user_id: String,
    pub event: CalendarEvent,
}

/// What is kept of an event.
#[verifier::ext_equal]
pub struct OwnedView {
    pub user_id: Seq<char>,
    pub event: EventView,
}

impl View for EventRow {
    type V = OwnedView;

    open spec fn view(&self) -> OwnedView {
        OwnedView { user_id: self.user_id@, event: self.event@ }
    }
}

/// A holiday record and the year that it came with.
#[derive(Debug)]
pub struct HolidayRow {
    pub year: i32,
    pub holiday: Holiday,
    pub updated_at: Instant,
}

/// What is kept of a holiday record.
#[verifier::ext_equal]
pub struct YearView {
    pub year: i32,
    pub holiday: HolidayView,
    pub updated_at: Instant,
}

impl View for HolidayRow {
    type V = YearView;

    open spec fn view(&self) -> YearView {
        YearView { year: self.year, holiday: self.holiday@, updated_at: self.updated_at }
    }
}

/// The state of the server: accounts and codes by address, sessions by the digest of their token,
/// events by identity, holidays by date.
#[verifier::ext_equal]
pub struct ServerView {
    pub users: Map<Seq<char>, UserView>,
    pub codes: Map<Seq<char>, CodeView>,
    pub sessions: Map<Seq<char>, SessionView>,
    pub events: Map<Seq<char>, OwnedView>,
    pub holidays: Map<Seq<char>, YearView>,
}

/// What every state of the server satisfies: records stand under their own keys, no two accounts
/// have the same identity, and no two events of a user the same sequence number.
pub open spec fn consistent(s: ServerView) -> bool {
    &&& forall|email: Seq<char>| #[trigger]
        s.users.contains_key(email) ==> s.users[email].email == email
    &&& forall|a: Seq<char>, b: Seq<char>| #[trigger]
        s.users.contains_key(a) && #[trigger] s.users.contains_key(b) && s.users[a].id
            == s.users[b].id ==> a == b
    &&& forall|id: Seq<char>| #[trigger]
        s.events.contains_key(id) ==> s.events[id].event.id == id && s.events[id].event.updated_seq
            >= 1
    &&& forall|a: Seq<char>, b: Seq<char>| #[trigger]
        s.events.contains_key(a) && #[trigger] s.events.contains_key(b) && s.events[a].user_id
            == s.events[b].user_id && s.events[a].event.updated_seq
            == s.events[b].event.updated_seq ==> a == b
    &&& forall|date: Seq<char>| #[trigger]
        s.holidays.contains_key(date) ==> s.holidays[date].holiday.date == date
}

/// The server's state in memory.
#[derive(Debug)]
pub struct Server {
    users: Table<UserRow>,
    codes: Table<CodeRow>,
    sessions: Table<SessionRow>,
    events: Table<EventRow>,
    holidays: Table<HolidayRow>,
}

impl View for Server {
    type V = ServerView;

    closed spec fn view(&self) -> ServerView {
        ServerView {
            users: self.users.map().map_values(|r: UserRow| r@),
            codes: self.codes.map().map_values(|r: CodeRow| r@),
            sessions: self.sessions.map().map_values(|r: SessionRow| r@),
            events: self.events.map().map_values(|r: EventRow| r@),
            holidays: self.holidays.map().map_values(|r: HolidayRow| r@),
        }
    }
}

/// The account with the identity `id`.
pub open spec fn account(s: ServerView, id: Seq<char>) -> Option<UserView> {
    if exists|email: Seq<char>| #[trigger] s.users.contains_key(email) && s.users[email].id == id {
        let email = choose|email: Seq<char>| #[trigger]
            s.users.contains_key(email) && s.users[email].id == id;
        Some(s.users[email])
    } else {
        None
    }
}

/// What others see of an account.
pub open spec fn profile(user: UserView) -> ProfileView {
    ProfileView { id: user.id, email: user.email, display_name: user.display_name }
}

/// Whose request it is, by its authorization header, or the refusal.
pub open spec fn authenticated(
    s: ServerView,
    header: Option<Seq<char>>,
    now: Instant,
) -> Result<ProfileView, Refusal> {
    let text = match header {
        Some(text) => text,
        None => ""@,
    };
    match after_prefix(text, "Bearer "@) {
        None => Err((401u16, "请先登录"@)),
        Some(token) => {
            let key = sha256_hex(token);
            if !s.sessions.contains_key(key) {
                Err((401u16, "登录已失效，请重新登录"@))
            } else {
                match account(s, s.sessions[key].user_id) {
                    None => Err((401u16, "登录已失效，请重新登录"@)),
                    Some(user) => if earlier(s.sessions[key].expires_at.point(), now.point()) {
                        Err((401u16, "登录已过期，请重新登录"@))
                    } else {
                        Ok(profile(user))
                    },
                }
            }
        },
    }
}

/// The state after a session with `token` began, if it can.
pub open spec fn with_session(
    s: ServerView,
    user_id: Seq<char>,
    token: Seq<char>,
    now: Instant,
) -> Option<ServerView> {
    match shifted(now, SESSION_MINUTES as int) {
        Some(expires_at) => if s.sessions.contains_key(sha256_hex(token)) {
            None
        } else {
            Some(
                ServerView {
                    sessions: s.sessions.insert(
                        sha256_hex(token),
                        SessionView { user_id, expires_at, created_at: now },
                    ),
                    ..s
                },
            )
        },
        None => None,
    }
}

/// The state after `code` was made for an address, and that address, or the refusal.
pub open spec fn with_code(
    s: ServerView,
    address: Seq<char>,
    code: Seq<char>,
    now: Instant,
) -> Result<(ServerView, Seq<char>), Refusal> {
    match normalized_email(address) {
        Err(refusal) => Err(refusal),
        Ok(email) => match (
            shifted(now, -CODE_PAUSE_MINUTES),
            shifted(now, CODE_MINUTES as int),
        ) {
            (Some(pause), Some(expires_at)) => if s.codes.contains_key(email) && earlier(
                pause.point(),
                s.codes[email].last_sent_at.point(),
            ) {
                Err((429u16, "请 60 秒后再获取验证码"@))
            } else {
                Ok(
                    (
                        ServerView {
                            codes: s.codes.insert(
                                email,
                                CodeView {
                                    code_hash: sha256_hex(code),
                                    expires_at,
                                    attempts: 0,
                                    last_sent_at: now,
                                },
                            ),
                            ..s
                        },
                        email,
                    ),
                )
            },
            _ => Err(unavailable()),
        },
    }
}

/// A code and the address that it goes to.
#[derive(Debug)]
pub struct CodeMail {
    pub email: String,
    pub code: String,
}

/// What a registration asks for.
#[derive(Debug)]
pub struct RegisterRequest {
    pub email: String,
    pub password: String,
    pub display_name: String,
    pub code: String,
}

/// What the server adds to a registration: a fresh identity, salt and token.
#[derive(Debug)]
pub struct FreshValues {
    pub id: String,
    pub salt: Vec<u8>,
    pub token: String,
}

/// Why a registration is refused before its code is looked at.
pub open spec fn registration_form(request: RegisterRequest) -> Result<Seq<char>, Refusal> {
    match normalized_email(request.email@) {
        Err(refusal) => Err(refusal),
        Ok(email) => if !valid_password(request.password@) {
            Err((400u16, "密码长度应为 8 到 128 个字符"@))
        } else if !(1 <= trimmed(request.display_name@).len() <= 80) {
            Err((400u16, "昵称长度应为 1 到 80 个字符"@))
        } else {
            Ok(email)
        },
    }
}

/// The state after a wrong code for `email`.
pub open spec fn with_failed_attempt(s: ServerView, email: Seq<char>) -> ServerView {
    ServerView {
        codes: s.codes.insert(
            email,
            CodeView { attempts: (s.codes[email].attempts + 1) as i64, ..s.codes[email] },
        ),
        ..s
    }
}

/// The state after an account was made and its code used up.
pub open spec fn with_account(s: ServerView, user: UserView) -> ServerView {
    ServerView { users: s.users.insert(user.email, user), codes: s.codes.remove(user.email), ..s }
}

/// The state after a registration, and the new account or the refusal.
pub open spec fn registered(
    s: ServerView,
    request: RegisterRequest,
    id: Seq<char>,
    salt: Seq<u8>,
    token: Seq<char>,
    now: Instant,
) -> (ServerView, Result<ProfileView, Refusal>) {
    match registration_form(request) {
        Err(refusal) => (s, Err(refusal)),
        Ok(email) => if !s.codes.contains_key(email) {
            (s, Err((400u16, "请先获取邮箱验证码"@)))
        } else if s.codes[email].attempts >= CODE_ATTEMPTS || earlier(
            s.codes[email].expires_at.point(),
            now.point(),
        ) {
            (s, Err((400u16, "验证码已失效，请重新获取"@)))
        } else if s.codes[email].code_hash != sha256_hex(trimmed(request.code@)) {
            (with_failed_attempt(s, email), Err((400u16, "邮箱验证码不正确"@)))
        } else if s.users.contains_key(email) {
            (s, Err((409u16, "该邮箱已注册，请直接登录"@)))
        } else {
            match argon2_hash(request.password@, salt) {
                None => (s, Err(unavailable())),
                Some(password_hash) => if account(s, id) is Some {
                    (s, Err(unavailable()))
                } else {
                    let user = UserView {
                        id,
                        email,
                        display_name: trimmed(request.display_name@),
                        password_hash,
                        created_at: now,
                    };
                    let made = with_account(s, user);
                    match with_session(made, id, token, now) {
                        None => (made, Err(unavailable())),
                        Some(done) => (done, Ok(profile(user))),
                    }
                },
            }
        },
    }
}

/// The state after a sign-in, and the account or the refusal.
pub open spec fn signed_in(
    s: ServerView,
    address: Seq<char>,
    password: Seq<char>,
    token: Seq<char>,
    now: Instant,
) -> (ServerView, Result<ProfileView, Refusal>) {
    match normalized_email(address) {
        Err(refusal) => (s, Err(refusal)),
        Ok(email) => if !s.users.contains_key(email) {
            (s, Err((401u16, "邮箱或密码不正确"@)))
        } else {
            let user = s.users[email];
            match password_matches(user.password_hash, password) {
                None => (s, Err(unavailable())),
                Some(false) => (s, Err((401u16, "邮箱或密码不正确"@))),
                Some(true) => match with_session(s, user.id, token, now) {
                    None => (s, Err(unavailable())),
                    Some(done) => (done, Ok(profile(user))),
                },
            }
        },
    }
}

/// Whether `found` is what a user pulls: the events of the user after the cursor, in the order of
/// their sequence numbers.
pub open spec fn pulled(
    s: ServerView,
    user_id: Seq<char>,
    cursor: i64,
    found: Seq<EventView>,
) -> bool {
    &&& forall|i: int|
        0 <= i < found.len() ==> {
            let e = #[trigger] found[i];
            s.events.contains_key(e.id) && s.events[e.id].event == e && s.events[e.id].user_id
                == user_id && e.updated_seq > cursor
        }
    &&& forall|id: Seq<char>| #[trigger]
        s.events.contains_key(id) && s.events[id].user_id == user_id
            && s.events[id].event.updated_seq > cursor ==> found.contains(s.events[id].event)
    &&& forall|i: int, j: int|
        0 <= i < j < found.len() ==> (#[trigger] found[i]).updated_seq < (
        #[trigger] found[j]).updated_seq
}

/// Where a pull leaves the cursor: at the last event, or where it was.
pub open spec fn next_cursor(found: Seq<EventView>, cursor: i64) -> i64 {
    if found.len() == 0 {
        cursor
    } else {
        found.last().updated_seq
    }
}

/// Whether `found` are the holidays of some years, in the order of their dates.
pub open spec fn holidays_of(
    s: ServerView,
    first: int,
    last: int,
    found: Seq<HolidayView>,
) -> bool {
    &&& forall|i: int|
        0 <= i < found.len() ==> {
            let h = #[trigger] found[i];
            s.holidays.contains_key(h.date) && s.holidays[h.date].holiday == h && first
                <= s.holidays[h.date].year <= last
        }
    &&& forall|date: Seq<char>| #[trigger]
        s.holidays.contains_key(date) && first <= s.holidays[date].year <= last ==> found.contains(
            s.holidays[date].holiday,
        )
    &&& forall|i: int, j: int|
        0 <= i < j < found.len() ==> text_lt((#[trigger] found[i]).date, (#[trigger] found[j]).date)
}

/// Whether `seq` is the highest sequence number of a user's events, or 0 when there are none.
pub open spec fn top_sequence(s: ServerView, user_id: Seq<char>, seq: int) -> bool {
    &&& forall|id: Seq<char>| #[trigger]
        s.events.contains_key(id) && s.events[id].user_id == user_id
            ==> s.events[id].event.updated_seq <= seq
    &&& seq == 0 || exists|id: Seq<char>| #[trigger]
        s.events.contains_key(id) && s.events[id].user_id == user_id
            && s.events[id].event.updated_seq == seq
}

/// Whether an event reminds at a time that the server does not accept.
pub open spec fn reminds_too_early(event: EventView) -> bool {
    exists|i: int|
        0 <= i < event.reminder_minutes.len() && !(0 <= #[trigger] event.reminder_minutes[i]
            <= LONGEST_REMINDER)
}

/// The version that `event` gets when `user_id` stores it, or the refusal.
pub open spec fn accepted_version(
    s: ServerView,
    user_id: Seq<char>,
    event: EventView,
) -> Result<i64, Refusal> {
    if trimmed(event.title).len() == 0 {
        Err((400u16, "日程标题不能为空"@))
    } else if !earlier(event.start_at.point(), event.end_at.point()) {
        Err((400u16, "结束时间必须晚于开始时间"@))
    } else if reminds_too_early(event) {
        Err((400u16, "提醒时间必须在事件前一年以内"@))
    } else if !s.events.contains_key(event.id) {
        Ok(1)
    } else if s.events[event.id].user_id != user_id {
        Err((403u16, "不能修改其他用户的日程"@))
    } else if s.events[event.id].event.version != event.version {
        Err((409u16, "此日程已在其他设备更新，请先同步"@))
    } else if event.version == i64::MAX {
        Err(unavailable())
    } else {
        Ok((event.version + 1) as i64)
    }
}

/// The version that the deletion of the event `id` by `user_id` gives, or the refusal.
pub open spec fn deleted_version(
    s: ServerView,
    user_id: Seq<char>,
    id: Seq<char>,
    base_version: i64,
) -> Result<i64, Refusal> {
    if !s.events.contains_key(id) {
        Err((404u16, "日程不存在"@))
    } else if s.events[id].user_id != user_id {
        Err((403u16, "不能删除其他用户的日程"@))
    } else if s.events[id].event.version != base_version {
        Err((409u16, "此日程已在其他设备更新，请先同步"@))
    } else if base_version == i64::MAX {
        Err(unavailable())
    } else {
        Ok((base_version + 1) as i64)
    }
}

/// What the server keeps of an event that it stores.
pub open spec fn stored_copy(
    event: EventView,
    version: i64,
    updated_seq: i64,
    now: Instant,
) -> EventView {
    EventView { version, updated_seq, updated_at: now, deleted: false, ..event }
}

/// What the server keeps of an event that it deletes.
pub open spec fn deleted_copy(
    event: EventView,
    version: i64,
    updated_seq: i64,
    now: Instant,
) -> EventView {
    EventView { version, updated_seq, updated_at: now, deleted: true, ..event }
}

/// The state after an event of `user_id` was stored.
pub open spec fn with_event(s: ServerView, user_id: Seq<char>, event: EventView) -> ServerView {
    ServerView { events: s.events.insert(event.id, OwnedView { user_id, event }), ..s }
}

/// Holiday records after some were put in, one after the other.
pub open spec fn with_year_records(
    holidays: Map<Seq<char>, YearView>,
    records: Seq<(i32, HolidayView)>,
    now: Instant,
) -> Map<Seq<char>, YearView>
    decreases records.len(),
{
    if records.len() == 0 {
        holidays
    } else {
        let (year, holiday) = records.last();
        with_year_records(holidays, records.drop_last(), now).insert(
            holiday.date,
            YearView { year, holiday, updated_at: now },
        )
    }
}

impl Server {
    /// What every server satisfies.
    pub closed spec fn wf(&self) -> bool {
        &&& self.users.wf()
        &&& self.codes.wf()
        &&& self.sessions.wf()
        &&& self.events.wf()
        &&& self.holidays.wf()
        &&& consistent(self@)
    }

    /// Every server is in a consistent state.
    pub proof fn a_server_is_consistent(&self)
        requires
            self.wf(),
        ensures
            consistent(self@),
    {
    }

    /// A server without accounts.
    pub fn new() -> (r: Self)
        ensures
            r.wf(),
            r@.users == Map::<Seq<char>, UserView>::empty(),
            r@.codes == Map::<Seq<char>, CodeView>::empty(),
            r@.sessions == Map::<Seq<char>, SessionView>::empty(),
            r@.events == Map::<Seq<char>, OwnedView>::empty(),
            r@.holidays == Map::<Seq<char>, YearView>::empty(),
    {
        let r = Server {
            users: Table::new(),
            codes: Table::new(),
            sessions: Table::new(),
            events: Table::new(),
            holidays: Table::new(),
        };
        assert(r@.users =~= Map::<Seq<char>, UserView>::empty());
        assert(r@.codes =~= Map::<Seq<char>, CodeView>::empty());
        assert(r@.sessions =~= Map::<Seq<char>, SessionView>::empty());
        assert(r@.events =~= Map::<Seq<char>, OwnedView>::empty());
        assert(r@.holidays =~= Map::<Seq<char>, YearView>::empty());
        r
    }

    /// The account with the identity `id`.
    fn find_account(&self, id: &str) -> (r: Option<&UserRow>)
        requires
            self.wf(),
        ensures
            match r {
                Some(user) => account(self@, id@) == Some(user@),
                None => account(self@, id@) is None,
            },
    {
        let ghost rows = self.users.rows();
        let mut i: usize = 0;
        while i < self.users.len()
            invariant
                self.wf(),
                rows == self.users.rows(),
                i <= rows.len(),
                forall|j: int| 0 <= j < i ==> (#[trigger] rows[j]).1.id@ != id@,
            decreases rows.len() - i,
        {
            let user = self.users.value_at(i);
            if same_text(user.id.as_str(), id) {
                proof {
                    lemma_row_in_map(rows, i as int);
                    let email = rows[i as int].0;
                    assert(self@.users.contains_key(email) && self@.users[email].id == id@);
                }
                return Some(user);
            }
            i = i + 1;
        }
        proof {
            assert forall|email: Seq<char>| #[trigger]
                self@.users.contains_key(email) implies self@.users[email].id != id@ by {
                let j = choose|j: int| 0 <= j < rows.len() && (#[trigger] rows[j]).0 == email;
                assert(has_key(rows, email));
                lemma_row_in_map(rows, j);
            }
        }
        None
    }

    /// Whose request it is, by its authorization header.
    pub fn authenticated_user(&self, header: Option<&str>, now: &Instant) -> (r: Result<
        UserProfile,
        ApiError,
    >)
        requires
            self.wf(),
        ensures
            ({
                let text = match header {
                    Some(text) => Some(text@),
                    None => None,
                };
                match r {
                    Ok(user) => authenticated(self@, text, *now) == Ok::<ProfileView, Refusal>(
                        user@,
                    ),
                    Err(e) => authenticated(self@, text, *now) == Err::<ProfileView, Refusal>(e@),
                }
            }),
    {
        let text = match header {
            Some(text) => text,
            None => "",
        };
        let token = match strip_prefix(text, "Bearer ") {
            Some(token) => token,
            None => {
                return Err(ApiError::unauthorized("请先登录"));
            },
        };
        let key = token_hash(token.as_str());
        match self.sessions.get(key.as_str()) {
            None => Err(ApiError::unauthorized("登录已失效，请重新登录")),
            Some(session) => match self.find_account(session.user_id.as_str()) {
                None => Err(ApiError::unauthorized("登录已失效，请重新登录")),
                Some(user) => if session.expires_at.before(now) {
                    Err(ApiError::unauthorized("登录已过期，请重新登录"))
                } else {
                    Ok(
                        UserProfile {
                            id: user.id.clone(),
                            email: user.email.clone(),
                            display_name: user.display_name.clone(),
                        },
                    )
                },
            },
        }
    }

    /// Begins a session of `user_id` with `token` at `now`. It fails when the token is in use or
    /// the session would end beyond the range of instants.
    pub fn create_session_with(&mut self, user_id: &str, token: &str, now: Instant) -> (r: Result<
        (),
        ApiError,
    >)
        requires
            old(self).wf(),
        ensures
            final(self).wf(),
            match r {
                Ok(()) => with_session(old(self)@, user_id@, token@, now) == Some(final(self)@),
                Err(e) => with_session(old(self)@, user_id@, token@, now) is None && e@
                    == unavailable() && final(self)@ == old(self)@,
            },
    {
        let expires_at = match now.plus_minutes(SESSION_MINUTES) {
            Some(t) => t,
            None => {
                return Err(ApiError::internal());
            },
        };
        let key = token_hash(token);
        if self.sessions.get(key.as_str()).is_some() {
            return Err(ApiError::internal());
        }
        let ghost before = self@;
        let row = SessionRow { user_id: user_id.to_owned(), expires_at, created_at: now };
        let ghost value = row@;
        self.sessions.put(key.as_str(), row);
        assert(self@.sessions =~= before.sessions.insert(key@, value));
        assert(self@ =~= (ServerView { sessions: self@.sessions, ..before }));
        Ok(())
    }

    /// Makes `code` for an address at `now`. Returns the address that it goes to.
    pub fn request_code_with(&mut self, address: &str, code: &str, now: Instant) -> (r: Result<
        String,
        ApiError,
    >)
        requires
            old(self).wf(),
        ensures
            final(self).wf(),
            match r {
                Ok(email) => with_code(old(self)@, address@, code@, now) == Ok::<
                    (ServerView, Seq<char>),
                    Refusal,
                >((final(self)@, email@)),
                Err(e) => with_code(old(self)@, address@, code@, now) == Err::<
                    (ServerView, Seq<char>),
                    Refusal,
                >(e@) && final(self)@ == old(self)@,
            },
    {
        let email = match normalize_email(address) {
            Ok(email) => email,
            Err(e) => {
                return Err(e);
            },
        };
        let (pause, expires_at) = match (
            now.plus_minutes(-CODE_PAUSE_MINUTES),
            now.plus_minutes(CODE_MINUTES),
        ) {
            (Some(pause), Some(expires_at)) => (pause, expires_at),
            _ => {
                return Err(ApiError::internal());
            },
        };
        if let Some(row) = self.codes.get(email.as_str()) {
            if pause.before(&row.last_sent_at) {
                return Err(ApiError::with_status(429, "请 60 秒后再获取验证码"));
            }
        }
        let ghost before = self@;
        let row = CodeRow {
            code_hash: token_hash(code),
            expires_at,
            attempts: 0,
            last_sent_at: now,
        };
        let ghost value = row@;
        self.codes.put(email.as_str(), row);
        assert(self@.codes =~= before.codes.insert(email@, value));
        assert(self@ =~= (ServerView { codes: self@.codes, ..before }));
        Ok(email)
    }

    /// Makes a fresh code for an address. Returns what is to be mailed.
    pub fn request_code(&mut self, address: &str) -> (r: Result<CodeMail, ApiError>)
        requires
            old(self).wf(),
        ensures
            final(self).wf(),
            r matches Ok(mail) ==> exists|code: Seq<char>, now: Instant|
                {
                    let outcome = #[trigger] with_code(old(self)@, address@, code, now);
                    is_code(code) && now.of_the_clock() && (outcome matches Ok((after, email))
                        && after == final(self)@ && email == mail.email@ && code == mail.code@)
                },
            r matches Err(e) ==> final(self)@ == old(self)@ && exists|
                code: Seq<char>,
                now: Instant,
            |
                is_code(code) && now.of_the_clock() && #[trigger] with_code(
                    old(self)@,
                    address@,
                    code,
                    now,
                ) == Err::<(ServerView, Seq<char>), Refusal>(e@),
    {
        let code = fresh_code();
        let now = Instant::now();
        match self.request_code_with(address, code.as_str(), now) {
            Ok(email) => {
                Ok(CodeMail { email, code })
            },
            Err(e) => Err(e),
        }
    }

    /// Registers an account with these fresh values at `now`.
    pub fn register_with(
        &mut self,
        request: &RegisterRequest,
        fresh: &FreshValues,
        now: Instant,
    ) -> (r: Result<UserProfile, ApiError>)
        requires
            old(self).wf(),
            fresh.salt@.len() == 16,
        ensures
            final(self).wf(),
            ({
                let (after, outcome) = registered(
                    old(self)@,
                    *request,
                    fresh.id@,
                    fresh.salt@,
                    fresh.token@,
                    now,
                );
                &&& final(self)@ == after
                &&& match r {
                    Ok(user) => outcome == Ok::<ProfileView, Refusal>(user@),
                    Err(e) => outcome == Err::<ProfileView, Refusal>(e@),
                }
            }),
            r matches Ok(user) ==> final(self)@.users.contains_key(user.email@) && password_matches(
                final(self)@.users[user.email@].password_hash,
                request.password@,
            ) == Some(true),
    {
        let email = match normalize_email(request.email.as_str()) {
            Ok(email) => email,
            Err(e) => {
                return Err(e);
            },
        };
        if let Err(e) = validate_password(request.password.as_str()) {
            return Err(e);
        }
        let display_name = trim(request.display_name.as_str());
        let length: usize = display_name.as_str().unicode_len();
        if length < 1 || length > 80 {
            return Err(ApiError::bad_request("昵称长度应为 1 到 80 个字符"));
        }
        let ghost before = self@;
        let (right, attempts, code_hash, expires_at, last_sent_at) = match self.codes.get(
            email.as_str(),
        ) {
            None => {
                return Err(ApiError::bad_request("请先获取邮箱验证码"));
            },
            Some(row) => {
                if row.attempts >= CODE_ATTEMPTS || row.expires_at.before(&now) {
                    return Err(ApiError::bad_request("验证码已失效，请重新获取"));
                }
                let given = token_hash(trim(request.code.as_str()).as_str());
                (
                    same_text(row.code_hash.as_str(), given.as_str()),
                    row.attempts,
                    row.code_hash.clone(),
                    row.expires_at,
                    row.last_sent_at,
                )
            },
        };
        if !right {
            let row = CodeRow { code_hash, expires_at, attempts: attempts + 1, last_sent_at };
            let ghost value = row@;
            self.codes.put(email.as_str(), row);
            assert(self@.codes =~= before.codes.insert(email@, value));
            assert(self@ =~= with_failed_attempt(before, email@));
            return Err(ApiError::bad_request("邮箱验证码不正确"));
        }
        if self.users.get(email.as_str()).is_some() {
            return Err(ApiError::conflict("该邮箱已注册，请直接登录"));
        }
        let password_hash = match hash_password_with(request.password.as_str(), &fresh.salt) {
            Some(hash) => hash,
            None => {
                return Err(ApiError::internal());
            },
        };
        if self.find_account(fresh.id.as_str()).is_some() {
            return Err(ApiError::internal());
        }
        let user = UserRow {
            id: fresh.id.clone(),
            email: email.clone(),
            display_name: display_name.clone(),
            password_hash,
            created_at: now,
        };
        let ghost value = user@;
        self.users.put(email.as_str(), user);
        self.codes.remove(email.as_str());
        proof {
            assert(self@.users =~= before.users.insert(email@, value));
            assert(self@.codes =~= before.codes.remove(email@));
            assert(self@ =~= with_account(before, value));
            assert(consistent(self@)) by {
                assert forall|a: Seq<char>, b: Seq<char>| #[trigger]
                    self@.users.contains_key(a) && #[trigger] self@.users.contains_key(b)
                        && self@.users[a].id == self@.users[b].id implies a == b by {
                    if a != email@ {
                        assert(before.users.contains_key(a));
                    }
                    if b != email@ {
                        assert(before.users.contains_key(b));
                    }
                }
            }
        }
        match self.create_session_with(fresh.id.as_str(), fresh.token.as_str(), now) {
            Ok(()) => Ok(UserProfile { id: fresh.id.clone(), email, display_name }),
            Err(e) => Err(e),
        }
    }

    /// Registers an account. Returns it with the token of its first session.
    pub fn register(&mut self, request: &RegisterRequest) -> (r: Result<
        (String, UserProfile),
        ApiError,
    >)
        requires
            old(self).wf(),
        ensures
            final(self).wf(),
            exists|id: Seq<char>, salt: Seq<u8>, token: Seq<char>, now: Instant|
                {
                    let (after, outcome) = #[trigger] registered(
                        old(self)@,
                        *request,
                        id,
                        salt,
                        token,
                        now,
                    );
                    &&& hyphenated(id) && salt.len() == 16 && is_token(token)
                        && now.of_the_clock()
                    &&& final(self)@ == after
                    &&& match r {
                        Ok((given, user)) => outcome == Ok::<ProfileView, Refusal>(user@) && given@
                            == token,
                        Err(e) => outcome == Err::<ProfileView, Refusal>(e@),
                    }
                },
            r matches Ok((given, user)) ==> final(self)@.users.contains_key(user.email@)
                && password_matches(
                final(self)@.users[user.email@].password_hash,
                request.password@,
            ) == Some(true),
    {
        let fresh = FreshValues {
            id: fresh_id(),
            salt: fresh_salt(),
            token: fresh_token(),
        };
        let now = Instant::now();
        match self.register_with(request, &fresh, now) {
            Ok(user) => Ok((fresh.token, user)),
            Err(e) => Err(e),
        }
    }

    /// Signs in to an account with `token` at `now`.
    pub fn login_with(&mut self, address: &str, password: &str, token: &str, now: Instant) -> (r:
        Result<UserProfile, ApiError>)
        requires
            old(self).wf(),
        ensures
            final(self).wf(),
            ({
                let (after, outcome) = signed_in(old(self)@, address@, password@, token@, now);
                &&& final(self)@ == after
                &&& match r {
                    Ok(user) => outcome == Ok::<ProfileView, Refusal>(user@),
                    Err(e) => outcome == Err::<ProfileView, Refusal>(e@),
                }
            }),
    {
        let email = match normalize_email(address) {
            Ok(email) => email,
            Err(e) => {
                return Err(e);
            },
        };
        let user = match self.users.get(email.as_str()) {
            None => {
                return Err(ApiError::unauthorized("邮箱或密码不正确"));
            },
            Some(row) => match verify_password(row.password_hash.as_str(), password) {
                None => {
                    return Err(ApiError::internal());
                },
                Some(matches) => {
                    if !matches {
                        return Err(ApiError::unauthorized("邮箱或密码不正确"));
                    }
                    UserProfile {
                        id: row.id.clone(),
                        email: row.email.clone(),
                        display_name: row.display_name.clone(),
                    }
                },
            },
        };
        match self.create_session_with(user.id.as_str(), token, now) {
            Ok(()) => Ok(user),
            Err(e) => Err(e),
        }
    }

    /// Signs in to an account. Returns it with the token of the session.
    pub fn login(&mut self, address: &str, password: &str) -> (r: Result<
        (String, UserProfile),
        ApiError,
    >)
        requires
            old(self).wf(),
        ensures
            final(self).wf(),
            exists|token: Seq<char>, now: Instant|
                {
                    let (after, outcome) = #[trigger] signed_in(
                        old(self)@,
                        address@,
                        password@,
                        token,
                        now,
                    );
                    &&& is_token(token) && now.of_the_clock()
                    &&& final(self)@ == after
                    &&& match r {
                        Ok((given, user)) => outcome == Ok::<ProfileView, Refusal>(user@) && given@
                            == token,
                        Err(e) => outcome == Err::<ProfileView, Refusal>(e@),
                    }
                },
    {
        let token = fresh_token();
        let now = Instant::now();
        match self.login_with(address, password, token.as_str(), now) {
            Ok(user) => Ok((token, user)),
            Err(e) => Err(e),
        }
    }
}

impl Server {
    /// The next sequence number of a user's events, unless the numbers are used up.
    pub fn next_sequence(&self, user_id: &str) -> (r: Option<i64>)
        requires
            self.wf(),
        ensures
            match r {
                Some(seq) => seq >= 1 && top_sequence(self@, user_id@, seq - 1),
                None => top_sequence(self@, user_id@, i64::MAX as int),
            },
    {
        let ghost rows = self.events.rows();
        let mut top: i64 = 0;
        let mut i: usize = 0;
        while i < self.events.len()
            invariant
                self.wf(),
                rows == self.events.rows(),
                i <= rows.len(),
                top >= 0,
                forall|j: int|
                    0 <= j < i && (#[trigger] rows[j]).1.user_id@ == user_id@
                        ==> rows[j].1.event.updated_seq <= top,
                top == 0 || exists|j: int|
                    0 <= j < i && (#[trigger] rows[j]).1.user_id@ == user_id@
                        && rows[j].1.event.updated_seq == top,
            decreases rows.len() - i,
        {
            let row = self.events.value_at(i);
            if same_text(row.user_id.as_str(), user_id) && row.event.updated_seq > top {
                top = row.event.updated_seq;
                assert(rows[i as int].1.event.updated_seq == top);
            }
            i = i + 1;
        }
        proof {
            assert forall|id: Seq<char>| #[trigger]
                self@.events.contains_key(id) && self@.events[id].user_id
                    == user_id@ implies self@.events[id].event.updated_seq <= top by {
                let j = choose|j: int| 0 <= j < rows.len() && (#[trigger] rows[j]).0 == id;
                assert(has_key(rows, id));
                lemma_row_in_map(rows, j);
            }
            if top != 0 {
                let j = choose|j: int|
                    0 <= j < rows.len() && (#[trigger] rows[j]).1.user_id@ == user_id@
                        && rows[j].1.event.updated_seq == top;
                lemma_row_in_map(rows, j);
                let id = rows[j].0;
                assert(self@.events.contains_key(id) && self@.events[id].user_id == user_id@
                    && self@.events[id].event.updated_seq == top);
            }
        }
        if top == i64::MAX {
            None
        } else {
            Some(top + 1)
        }
    }

    /// Stores an event of `user_id` under a new sequence number.
    fn put_event(&mut self, user_id: &str, event: &CalendarEvent)
        requires
            old(self).wf(),
            event@.updated_seq >= 1,
            top_sequence(old(self)@, user_id@, event@.updated_seq - 1),
        ensures
            final(self).wf(),
            final(self)@ == with_event(old(self)@, user_id@, event@),
    {
        let ghost before = self@;
        let row = EventRow { user_id: user_id.to_owned(), event: event.clone() };
        let ghost value = row@;
        self.events.put(event.id.as_str(), row);
        proof {
            assert(self@.events =~= before.events.insert(event@.id, value));
            assert(self@ =~= with_event(before, user_id@, event@));
            assert(consistent(self@)) by {
                assert forall|a: Seq<char>, b: Seq<char>| #[trigger]
                    self@.events.contains_key(a) && #[trigger] self@.events.contains_key(b)
                        && self@.events[a].user_id == self@.events[b].user_id
                        && self@.events[a].event.updated_seq
                        == self@.events[b].event.updated_seq implies a == b by {
                    if a != event@.id {
                        assert(before.events.contains_key(a));
                    }
                    if b != event@.id {
                        assert(before.events.contains_key(b));
                    }
                }
            }
        }
    }

    /// Stores `event` for the user that the header names. Returns it as stored.
    pub fn upsert_event(&mut self, header: Option<&str>, event: &CalendarEvent, now: Instant) -> (r:
        Result<CalendarEvent, ApiError>)
        requires
            old(self).wf(),
        ensures
            final(self).wf(),
            ({
                let text = match header {
                    Some(text) => Some(text@),
                    None => None,
                };
                let before = old(self)@;
                match authenticated(before, text, now) {
                    Err(refusal) => r is Err && r->Err_0@ == refusal && final(self)@ == before,
                    Ok(user) => match accepted_version(before, user.id, event@) {
                        Err(refusal) => r is Err && r->Err_0@ == refusal && final(self)@ == before,
                        Ok(version) => match r {
                            Ok(stored) => top_sequence(
                                before,
                                user.id,
                                stored.updated_seq - 1,
                            ) && stored@ == stored_copy(
                                event@,
                                version,
                                stored.updated_seq,
                                now,
                            ) && final(self)@ == with_event(before, user.id, stored@),
                            Err(e) => top_sequence(before, user.id, i64::MAX as int) && e@
                                == unavailable() && final(self)@ == before,
                        },
                    },
                }
            }),
    {
        let user = match self.authenticated_user(header, &now) {
            Ok(user) => user,
            Err(e) => {
                return Err(e);
            },
        };
        if is_blank(event.title.as_str()) {
            return Err(ApiError::bad_request("日程标题不能为空"));
        }
        if !event.start_at.before(&event.end_at) {
            return Err(ApiError::bad_request("结束时间必须晚于开始时间"));
        }
        let mut early: bool = false;
        let mut i: usize = 0;
        while i < event.reminder_minutes.len() && !early
            invariant
                i <= event@.reminder_minutes.len(),
                early ==> reminds_too_early(event@),
                !early ==> forall|j: int|
                    0 <= j < i ==> 0 <= #[trigger] event@.reminder_minutes[j] <= LONGEST_REMINDER,
            decreases event@.reminder_minutes.len() - i,
        {
            let value: i64 = event.reminder_minutes[i];
            assert(value == event@.reminder_minutes[i as int]);
            early = value < 0 || value > LONGEST_REMINDER;
            i = i + 1;
        }
        if early {
            return Err(ApiError::bad_request("提醒时间必须在事件前一年以内"));
        }
        let version: i64 = match self.events.get(event.id.as_str()) {
            None => 1,
            Some(row) => {
                if !same_text(row.user_id.as_str(), user.id.as_str()) {
                    return Err(ApiError::with_status(403, "不能修改其他用户的日程"));
                }
                if event.version != row.event.version {
                    return Err(ApiError::conflict("此日程已在其他设备更新，请先同步"));
                }
                if event.version == i64::MAX {
                    return Err(ApiError::internal());
                }
                event.version + 1
            },
        };
        let seq: i64 = match self.next_sequence(user.id.as_str()) {
            Some(seq) => seq,
            None => {
                return Err(ApiError::internal());
            },
        };
        let mut stored = event.clone();
        stored.version = version;
        stored.updated_seq = seq;
        stored.updated_at = now;
        stored.deleted = false;
        self.put_event(user.id.as_str(), &stored);
        Ok(stored)
    }

    /// Deletes the event `id` of the user that the header names, as far as it still has
    /// `base_version`. Returns the tombstone that stays.
    pub fn delete_event(
        &mut self,
        header: Option<&str>,
        id: &str,
        base_version: i64,
        now: Instant,
    ) -> (r: Result<CalendarEvent, ApiError>)
        requires
            old(self).wf(),
        ensures
            final(self).wf(),
            ({
                let text = match header {
                    Some(text) => Some(text@),
                    None => None,
                };
                let before = old(self)@;
                match authenticated(before, text, now) {
                    Err(refusal) => r is Err && r->Err_0@ == refusal && final(self)@ == before,
                    Ok(user) => match deleted_version(before, user.id, id@, base_version) {
                        Err(refusal) => r is Err && r->Err_0@ == refusal && final(self)@ == before,
                        Ok(version) => match r {
                            Ok(stored) => top_sequence(
                                before,
                                user.id,
                                stored.updated_seq - 1,
                            ) && stored@ == deleted_copy(
                                before.events[id@].event,
                                version,
                                stored.updated_seq,
                                now,
                            ) && final(self)@ == with_event(before, user.id, stored@),
                            Err(e) => top_sequence(before, user.id, i64::MAX as int) && e@
                                == unavailable() && final(self)@ == before,
                        },
                    },
                }
            }),
    {
        let user = match self.authenticated_user(header, &now) {
            Ok(user) => user,
            Err(e) => {
                return Err(e);
            },
        };
        let mut stored = match self.events.get(id) {
            None => {
                return Err(ApiError::with_status(404, "日程不存在"));
            },
            Some(row) => {
                if !same_text(row.user_id.as_str(), user.id.as_str()) {
                    return Err(ApiError::with_status(403, "不能删除其他用户的日程"));
                }
                if row.event.version != base_version {
                    return Err(ApiError::conflict("此日程已在其他设备更新，请先同步"));
                }
                if base_version == i64::MAX {
                    return Err(ApiError::internal());
                }
                row.event.clone()
            },
        };
        let seq: i64 = match self.next_sequence(user.id.as_str()) {
            Some(seq) => seq,
            None => {
                return Err(ApiError::internal());
            },
        };
        stored.deleted = true;
        stored.version = base_version + 1;
        stored.updated_seq = seq;
        stored.updated_at = now;
        self.put_event(user.id.as_str(), &stored);
        Ok(stored)
    }
}

/// The rows of a user after a cursor, put in the order of their sequence numbers, are what the
/// user pulls.
proof fn lemma_ordered_rows_are_pulled(
    server: Server,
    user_id: Seq<char>,
    cursor: i64,
    chosen: Seq<usize>,
    keys: Seq<i64>,
    order: Seq<usize>,
    found: Seq<EventView>,
)
    requires
        server.wf(),
        server.events.rows().len() <= usize::MAX,
        chosen.len() <= usize::MAX,
        keys.len() == chosen.len(),
        found.len() == chosen.len(),
        in_number_order(keys, order),
        forall|i: int|
            0 <= i < chosen.len() ==> {
                let row = server.events.rows()[(#[trigger] chosen[i]) as int].1;
                chosen[i] < server.events.rows().len() && row.user_id@ == user_id
                    && row.event.updated_seq > cursor && keys[i] == row.event.updated_seq
            },
        forall|i: int, j: int|
            0 <= i < j < chosen.len() ==> (#[trigger] chosen[i]) < (#[trigger] chosen[j]),
        forall|k: usize|
            k < server.events.rows().len() && (#[trigger] server.events.rows()[k as int]).1.user_id@
                == user_id && server.events.rows()[k as int].1.event.updated_seq > cursor
                ==> chosen.contains(k),
        forall|i: int|
            0 <= i < found.len() ==> #[trigger] found[i]
                == server.events.rows()[chosen[order[i] as int] as int].1.event@,
    ensures
        pulled(server@, user_id, cursor, found),
{
    let rows = server.events.rows();
    let s = server@;
    assert forall|i: int| 0 <= i < found.len() implies {
        let e = #[trigger] found[i];
        s.events.contains_key(e.id) && s.events[e.id].event == e && s.events[e.id].user_id
            == user_id && e.updated_seq > cursor
    } by {
        let at = chosen[order[i] as int] as int;
        lemma_row_in_map(rows, at);
        assert(s.events.contains_key(rows[at].0));
    }
    assert forall|id: Seq<char>| #[trigger]
        s.events.contains_key(id) && s.events[id].user_id == user_id
            && s.events[id].event.updated_seq > cursor implies found.contains(
        s.events[id].event,
    ) by {
        let k = choose|k: int| 0 <= k < rows.len() && (#[trigger] rows[k]).0 == id;
        lemma_row_in_map(rows, k);
        assert(rows[(k as usize) as int].1.user_id@ == user_id);
        let c = choose|c: int| 0 <= c < chosen.len() && chosen[c] == k as usize;
        assert(order.contains(c as usize));
        let o = choose|o: int| 0 <= o < order.len() && order[o] == c as usize;
        assert(found[o] == s.events[id].event);
    }
    assert forall|i: int, j: int| 0 <= i < j < found.len() implies (
    #[trigger] found[i]).updated_seq < (#[trigger] found[j]).updated_seq by {
        let a = order[i];
        let b = order[j];
        assert(keys[a as int] < keys[b as int] || (keys[a as int] == keys[b as int] && a < b));
        if keys[a as int] == keys[b as int] {
            let p = chosen[a as int] as int;
            let q = chosen[b as int] as int;
            assert(p < q);
            lemma_row_in_map(rows, p);
            lemma_row_in_map(rows, q);
            assert(s.events.contains_key(rows[p].0) && s.events.contains_key(rows[q].0));
            assert(rows[p].0 != rows[q].0);
        }
    }
}

/// The rows of some years, put in the order of their dates, are the holidays of those years.
proof fn lemma_ordered_holidays_of_years(
    server: Server,
    first: int,
    last: int,
    chosen: Seq<usize>,
    keys: Seq<Seq<char>>,
    order: Seq<usize>,
    found: Seq<HolidayView>,
)
    requires
        server.wf(),
        server.holidays.rows().len() <= usize::MAX,
        chosen.len() <= usize::MAX,
        keys.len() == chosen.len(),
        found.len() == chosen.len(),
        in_order(keys, order),
        forall|i: int|
            0 <= i < chosen.len() ==> {
                let row = server.holidays.rows()[(#[trigger] chosen[i]) as int];
                chosen[i] < server.holidays.rows().len() && first <= row.1.year <= last && keys[i]
                    == row.0
            },
        forall|i: int, j: int|
            0 <= i < j < chosen.len() ==> (#[trigger] chosen[i]) < (#[trigger] chosen[j]),
        forall|k: usize|
            k < server.holidays.rows().len() && first <= (
            #[trigger] server.holidays.rows()[k as int]).1.year <= last ==> chosen.contains(k),
        forall|i: int|
            0 <= i < found.len() ==> #[trigger] found[i]
                == server.holidays.rows()[chosen[order[i] as int] as int].1.holiday@,
    ensures
        holidays_of(server@, first, last, found),
{
    let rows = server.holidays.rows();
    let s = server@;
    assert forall|i: int| 0 <= i < found.len() implies {
        let h = #[trigger] found[i];
        s.holidays.contains_key(h.date) && s.holidays[h.date].holiday == h && first
            <= s.holidays[h.date].year <= last
    } by {
        let at = chosen[order[i] as int] as int;
        lemma_row_in_map(rows, at);
        assert(s.holidays.contains_key(rows[at].0));
    }
    assert forall|date: Seq<char>| #[trigger]
        s.holidays.contains_key(date) && first <= s.holidays[date].year
            <= last implies found.contains(s.holidays[date].holiday) by {
        let k = choose|k: int| 0 <= k < rows.len() && (#[trigger] rows[k]).0 == date;
        lemma_row_in_map(rows, k);
        assert(first <= rows[(k as usize) as int].1.year <= last);
        let c = choose|c: int| 0 <= c < chosen.len() && chosen[c] == k as usize;
        assert(order.contains(c as usize));
        let o = choose|o: int| 0 <= o < order.len() && order[o] == c as usize;
        assert(found[o] == s.holidays[date].holiday);
    }
    assert forall|i: int, j: int| 0 <= i < j < found.len() implies text_lt(
        (#[trigger] found[i]).date,
        (#[trigger] found[j]).date,
    ) by {
        let a = order[i];
        let b = order[j];
        assert(ranks_before(keys, a, b));
        let p = chosen[a as int] as int;
        let q = chosen[b as int] as int;
        lemma_row_in_map(rows, p);
        lemma_row_in_map(rows, q);
        assert(s.holidays.contains_key(rows[p].0) && s.holidays.contains_key(rows[q].0));
        lemma_text_lt_total(keys[a as int], keys[a as int]);
        if keys[a as int] == keys[b as int] {
            assert(p < q);
            assert(rows[p].0 != rows[q].0);
        }
    }
}

/// The year of an instant, in UTC.
pub open spec fn year_of(now: Instant) -> int {
    date_of_number(now.utc_day()).year() as int
}

/// Whether `found` are the holidays of the years around `now`.
pub open spec fn holidays_around(s: ServerView, now: Instant, found: Seq<HolidayView>) -> bool {
    holidays_of(s, year_of(now) - 1, year_of(now) + 1, found)
}

/// Whether the holidays of some years are listed at `now`.
pub open spec fn listable(now: Instant, first: int, last: int) -> bool {
    year_of(now) - 2 <= first <= last <= year_of(now) + 2
}

impl Server {
    /// The events of `user_id` after the cursor.
    fn events_after(&self, user_id: &str, cursor: i64) -> (r: Vec<CalendarEvent>)
        requires
            self.wf(),
        ensures
            pulled(self@, user_id@, cursor, event_views(r@)),
    {
        let n: usize = self.events.len();
        let ghost rows = self.events.rows();
        let mut chosen: Vec<usize> = Vec::new();
        let mut keys: Vec<i64> = Vec::new();
        let mut i: usize = 0;
        while i < n
            invariant
                n == rows.len(),
                rows == self.events.rows(),
                i <= n,
                keys@.len() == chosen@.len(),
                forall|k: int|
                    0 <= k < chosen@.len() ==> {
                        let row = rows[(#[trigger] chosen@[k]) as int].1;
                        chosen@[k] < i && row.user_id@ == user_id@ && row.event.updated_seq > cursor
                            && keys@[k] == row.event.updated_seq
                    },
                forall|a: int, b: int|
                    0 <= a < b < chosen@.len() ==> (#[trigger] chosen@[a]) < (#[trigger] chosen@[b]),
                forall|k: usize|
                    k < i && (#[trigger] rows[k as int]).1.user_id@ == user_id@
                        && rows[k as int].1.event.updated_seq > cursor ==> chosen@.contains(k),
            decreases n - i,
        {
            let row = self.events.value_at(i);
            let ghost before = chosen@;
            if same_text(row.user_id.as_str(), user_id) && row.event.updated_seq > cursor {
                chosen.push(i);
                keys.push(row.event.updated_seq);
                assert(chosen@[before.len() as int] == i);
            }
            proof {
                assert forall|k: usize|
                    k < i + 1 && (#[trigger] rows[k as int]).1.user_id@ == user_id@
                        && rows[k as int].1.event.updated_seq > cursor implies chosen@.contains(
                    k,
                ) by {
                    if k < i {
                        let at = choose|at: int| 0 <= at < before.len() && before[at] == k;
                        assert(before.contains(k));
                        assert(chosen@[at] == k);
                    }
                }
            }
            i = i + 1;
        }
        let order = order_by_number(&keys);
        let mut r: Vec<CalendarEvent> = Vec::new();
        let mut k: usize = 0;
        while k < order.len()
            invariant
                n == rows.len(),
                rows == self.events.rows(),
                k <= order@.len(),
                r@.len() == k,
                in_number_order(keys@, order@),
                keys@.len() == chosen@.len(),
                forall|j: int| 0 <= j < chosen@.len() ==> (#[trigger] chosen@[j]) < n,
                forall|j: int|
                    0 <= j < k ==> (#[trigger] r@[j])@
                        == rows[chosen@[order@[j] as int] as int].1.event@,
            decreases order@.len() - k,
        {
            r.push(self.events.value_at(chosen[order[k]]).event.clone());
            k = k + 1;
        }
        proof {
            lemma_ordered_rows_are_pulled(
                *self,
                user_id@,
                cursor,
                chosen@,
                keys@,
                order@,
                event_views(r@),
            );
        }
        r
    }

    /// The holidays of the years from `first` to `last`.
    fn holidays_of_years(&self, first: i32, last: i32) -> (r: Vec<Holiday>)
        requires
            self.wf(),
        ensures
            holidays_of(self@, first as int, last as int, holiday_views(r@)),
    {
        let n: usize = self.holidays.len();
        let ghost rows = self.holidays.rows();
        let mut chosen: Vec<usize> = Vec::new();
        let mut keys: Vec<String> = Vec::new();
        let mut i: usize = 0;
        while i < n
            invariant
                n == rows.len(),
                rows == self.holidays.rows(),
                i <= n,
                keys@.len() == chosen@.len(),
                forall|k: int|
                    0 <= k < chosen@.len() ==> {
                        let row = rows[(#[trigger] chosen@[k]) as int];
                        chosen@[k] < i && first <= row.1.year <= last && keys@[k]@ == row.0
                    },
                forall|a: int, b: int|
                    0 <= a < b < chosen@.len() ==> (#[trigger] chosen@[a]) < (#[trigger] chosen@[b]),
                forall|k: usize|
                    k < i && first <= (#[trigger] rows[k as int]).1.year <= last
                        ==> chosen@.contains(k),
            decreases n - i,
        {
            let row = self.holidays.value_at(i);
            let ghost before = chosen@;
            if first <= row.year && row.year <= last {
                chosen.push(i);
                keys.push(self.holidays.key_at(i).to_owned());
                assert(chosen@[before.len() as int] == i);
            }
            proof {
                assert forall|k: usize|
                    k < i + 1 && first <= (#[trigger] rows[k as int]).1.year
                        <= last implies chosen@.contains(k) by {
                    if k < i {
                        let at = choose|at: int| 0 <= at < before.len() && before[at] == k;
                        assert(before.contains(k));
                        assert(chosen@[at] == k);
                    }
                }
            }
            i = i + 1;
        }
        let order = order_by(&keys);
        let mut r: Vec<Holiday> = Vec::new();
        let mut k: usize = 0;
        while k < order.len()
            invariant
                n == rows.len(),
                rows == self.holidays.rows(),
                k <= order@.len(),
                r@.len() == k,
                in_order(views(keys@), order@),
                keys@.len() == chosen@.len(),
                forall|j: int| 0 <= j < chosen@.len() ==> (#[trigger] chosen@[j]) < n,
                forall|j: int|
                    0 <= j < k ==> (#[trigger] r@[j])@
                        == rows[chosen@[order@[j] as int] as int].1.holiday@,
            decreases order@.len() - k,
        {
            r.push(self.holidays.value_at(chosen[order[k]]).holiday.clone());
            k = k + 1;
        }
        proof {
            lemma_ordered_holidays_of_years(
                *self,
                first as int,
                last as int,
                chosen@,
                views(keys@),
                order@,
                holiday_views(r@),
            );
        }
        r
    }

    /// What changed after the cursor for the user that the header names, with the holidays of the
    /// years around `now`.
    pub fn sync_pull(&self, header: Option<&str>, cursor: i64, now: Instant) -> (r: Result<
        SyncPullData,
        ApiError,
    >)
        requires
            self.wf(),
        ensures
            ({
                let text = match header {
                    Some(text) => Some(text@),
                    None => None,
                };
                match authenticated(self@, text, now) {
                    Err(refusal) => r is Err && r->Err_0@ == refusal,
                    Ok(user) => r matches Ok(data) && pulled(
                        self@,
                        user.id,
                        cursor,
                        event_views(data.events@),
                    ) && data.cursor == next_cursor(event_views(data.events@), cursor)
                        && holidays_around(self@, now, holiday_views(data.holidays@)),
                }
            }),
    {
        let user = match self.authenticated_user(header, &now) {
            Ok(user) => user,
            Err(e) => {
                return Err(e);
            },
        };
        let events = self.events_after(user.id.as_str(), cursor);
        let next: i64 = if events.len() == 0 {
            cursor
        } else {
            events[events.len() - 1].updated_seq
        };
        assert(next == next_cursor(event_views(events@), cursor));
        let today = now.utc_date();
        proof {
            lemma_date_of_number(today);
        }
        let year: i32 = today.year();
        let holidays = self.holidays_of_years(year - 1, year + 1);
        Ok(SyncPullData { events, holidays, cursor: next })
    }

    /// The holidays of some years, which lie within two years of `now`.
    pub fn list_holidays(&self, start_year: i32, end_year: i32, now: Instant) -> (r: Result<
        Vec<Holiday>,
        ApiError,
    >)
        requires
            self.wf(),
        ensures
            match r {
                Ok(found) => listable(now, start_year as int, end_year as int)
                    && holidays_of(
                    self@,
                    start_year as int,
                    end_year as int,
                    holiday_views(found@),
                ),
                Err(e) => !listable(now, start_year as int, end_year as int) && e@ == (
                    400u16,
                    "节假日年份范围无效"@,
                ),
            },
    {
        let today = now.utc_date();
        proof {
            lemma_date_of_number(today);
        }
        let year: i32 = today.year();
        if start_year > end_year || start_year < year - 2 || end_year > year + 2 {
            return Err(ApiError::bad_request("节假日年份范围无效"));
        }
        Ok(self.holidays_of_years(start_year, end_year))
    }

    /// Puts in holiday records with their years, each in place of the one for the same date.
    /// Returns how many there were.
    pub fn store_holidays(&mut self, records: &Vec<(i32, Holiday)>, now: Instant) -> (r: usize)
        requires
            old(self).wf(),
        ensures
            final(self).wf(),
            r == records@.len(),
            final(self)@ == (ServerView {
                holidays: with_year_records(old(self)@.holidays, record_views(records@), now),
                ..old(self)@
            }),
    {
        let ghost all = record_views(records@);
        let ghost start = self@;
        let mut i: usize = 0;
        assert(all.take(0) =~= Seq::<(i32, HolidayView)>::empty());
        while i < records.len()
            invariant
                all == record_views(records@),
                i <= records@.len(),
                self.wf(),
                self@ == (ServerView {
                    holidays: with_year_records(start.holidays, all.take(i as int), now),
                    ..start
                }),
            decreases records@.len() - i,
        {
            let ghost before = self@;
            let row = HolidayRow {
                year: records[i].0,
                holiday: records[i].1.clone(),
                updated_at: now,
            };
            let ghost value = row@;
            self.holidays.put(records[i].1.date.as_str(), row);
            proof {
                let next = all.take(i + 1);
                assert(next.drop_last() =~= all.take(i as int));
                assert(next.last() == (value.year, value.holiday));
                assert(self@.holidays =~= before.holidays.insert(value.holiday.date, value));
                assert(self@ =~= (ServerView {
                    holidays: with_year_records(start.holidays, next, now),
                    ..start
                }));
                assert forall|date: Seq<char>| #[trigger]
                    self@.holidays.contains_key(
                        date,
                    ) implies self@.holidays[date].holiday.date == date by {
                    if date != value.holiday.date {
                        assert(before.holidays.contains_key(date));
                    }
                }
                assert(self@.users == before.users);
                assert(self@.events == before.events);
                assert(consistent(self@));
            }
            i = i + 1;
        }
        assert(all.take(all.len() as int) =~= all);
        records.len()
    }
}

/// The views of holiday records with their years.
pub open spec fn record_views(records: Seq<(i32, Holiday)>) -> Seq<(i32, HolidayView)> {
    Seq::new(records.len(), |i: int| (records[i].0, records[i].1@))
}

/// A day of a holiday source.
#[derive(Debug)]
pub struct HolidayDay {
    pub name: String,
    pub date: String,
    pub is_off_day: bool,
}

/// The holidays of one year as their source has them.
#[derive(Debug)]
pub struct HolidaySource {
    pub year: i32,
    pub papers: Vec<String>,
    pub days: Vec<HolidayDay>,
}

/// Why a holiday source is not taken.
#[derive(Debug)]
pub enum SourceError {
    /// The source is for another year than the expected one.
    YearMismatch(i32, i32),
    /// A date cannot be read, for this reason.
    InvalidDate(String),
    /// A date lies in another year.
    OutsideYear(String),
}

/// What the log says of a source that is not taken.
pub open spec fn source_error_text(e: SourceError) -> Seq<char> {
    match e {
        SourceError::YearMismatch(expected, got) => "holiday source year mismatch: expected "@
            + signed_decimal(expected as int) + ", got "@ + signed_decimal(got as int),
        SourceError::InvalidDate(reason) => reason@,
        SourceError::OutsideYear(date) => "holiday date outside source year: "@ + date@,
    }
}

impl SourceError {
    /// What the log says of this error.
    pub fn message(&self) -> (r: String)
        ensures
            r@ == source_error_text(*self),
    {
        match self {
            SourceError::YearMismatch(expected, got) => {
                let mut r = "holiday source year mismatch: expected ".to_owned();
                r.append(signed_text(*expected as i64).as_str());
                r.append(", got ");
                r.append(signed_text(*got as i64).as_str());
                r
            },
            SourceError::InvalidDate(reason) => reason.clone(),
            SourceError::OutsideYear(date) => {
                let mut r = "holiday date outside source year: ".to_owned();
                r.append(date.as_str());
                r
            },
        }
    }
}

/// Where the holidays of a year come from.
pub open spec fn source_url(year: i32) -> Seq<char> {
    "https://raw.githubusercontent.com/NateScarlet/holiday-cn/master/"@ + signed_decimal(
        year as int,
    ) + ".json"@
}

/// Where the holidays of a year come from.
pub fn holiday_source_url(year: i32) -> (r: String)
    ensures
        r@ == source_url(year),
{
    let mut r = "https://raw.githubusercontent.com/NateScarlet/holiday-cn/master/".to_owned();
    r.append(signed_text(year as i64).as_str());
    r.append(".json");
    r
}

/// The year of a date as text.
pub open spec fn text_year(date: Seq<char>) -> Option<i32> {
    match parsed_date(date) {
        Some((year, month, day)) => Some(year),
        None => None,
    }
}

/// The record that a day of a source gives.
pub open spec fn source_record(
    year: i32,
    day: HolidayDay,
    paper: Seq<char>,
) -> (i32, HolidayView) {
    (
        year,
        HolidayView {
            date: day.date@,
            name: day.name@,
            is_off_day: day.is_off_day,
            source_url: paper,
        },
    )
}

/// Whether day `i` of a source is the first that is not a date of `year`.
pub open spec fn first_bad_day(source: HolidaySource, year: i32, i: int) -> bool {
    0 <= i < source.days@.len() && text_year(source.days@[i].date@) != Some(year) && forall|j: int|
        0 <= j < i ==> text_year((#[trigger] source.days@[j]).date@) == Some(year)
}

/// Whether a source is taken for `year`: it is for that year, and so are its dates.
pub open spec fn taken(year: i32, source: HolidaySource) -> bool {
    source.year == year && forall|i: int|
        0 <= i < source.days@.len() ==> text_year((#[trigger] source.days@[i]).date@) == Some(year)
}

/// The records that a source gives for `year`; `url` stands in for its paper where it names none.
pub open spec fn source_records(
    year: i32,
    url: Seq<char>,
    source: HolidaySource,
) -> Seq<(i32, HolidayView)> {
    Seq::new(
        source.days@.len(),
        |i: int|
            source_record(
                year,
                source.days@[i],
                if source.papers@.len() == 0 {
                    url
                } else {
                    source.papers@[0]@
                },
            ),
    )
}

/// Whether `e` is why a source is not taken for `year`: its year, or its first date that is not
/// one of that year.
pub open spec fn refused_for(year: i32, source: HolidaySource, e: SourceError) -> bool {
    match e {
        SourceError::YearMismatch(expected, got) => expected == year && got == source.year && got
            != year,
        SourceError::InvalidDate(reason) => source.year == year && exists|i: int, text: Seq<char>|
            text == reason@ && #[trigger] unread_date(source, year, i, text),
        SourceError::OutsideYear(date) => source.year == year && exists|i: int, text: Seq<char>|
            text == date@ && #[trigger] bad_date(source, year, i, text),
    }
}

/// Whether day `i` of a source is the first that is not a date of `year`, and its date is `text`,
/// which lies in another year.
pub open spec fn bad_date(source: HolidaySource, year: i32, i: int, text: Seq<char>) -> bool {
    first_bad_day(source, year, i) && source.days@[i].date@ == text && text_year(text) is Some
}

/// Whether day `i` of a source is the first that is not a date of `year`, and cannot be read for
/// this reason.
pub open spec fn unread_date(source: HolidaySource, year: i32, i: int, reason: Seq<char>) -> bool {
    first_bad_day(source, year, i) && date_reading(source.days@[i].date@) == Err::<
        (i32, u32, u32),
        Seq<char>,
    >(reason)
}

/// The records that a source gives for `year`; `url` stands in for its paper where it names none.
pub fn records_of_source(year: i32, url: &str, source: &HolidaySource) -> (r: Result<
    Vec<(i32, Holiday)>,
    SourceError,
>)
    ensures
        match r {
            Ok(records) => taken(year, *source) && record_views(records@) == source_records(
                year,
                url@,
                *source,
            ),
            Err(e) => !taken(year, *source) && refused_for(year, *source, e),
        },
{
    if source.year != year {
        return Err(SourceError::YearMismatch(year, source.year));
    }
    let paper = if source.papers.len() == 0 {
        url.to_owned()
    } else {
        source.papers[0].clone()
    };
    let ghost all = source_records(year, url@, *source);
    let mut records: Vec<(i32, Holiday)> = Vec::new();
    let mut i: usize = 0;
    assert(record_views(records@) =~= all.take(0));
    while i < source.days.len()
        invariant
            source.year == year,
            i <= source.days@.len(),
            all == source_records(year, url@, *source),
            paper@ == (if source.papers@.len() == 0 {
                url@
            } else {
                source.papers@[0]@
            }),
            forall|j: int|
                0 <= j < i ==> text_year((#[trigger] source.days@[j]).date@) == Some(year),
            record_views(records@) == all.take(i as int),
        decreases source.days@.len() - i,
    {
        let day = &source.days[i];
        match Date::read(day.date.as_str()) {
            Err(reason) => {
                assert(unread_date(*source, year, i as int, reason@));
                return Err(SourceError::InvalidDate(reason));
            },
            Ok(date) => {
                if date.year() != year {
                    assert(bad_date(*source, year, i as int, day.date@));
                    return Err(SourceError::OutsideYear(day.date.clone()));
                }
            },
        }
        let ghost before = records@;
        records.push(
            (
                year,
                Holiday {
                    date: day.date.clone(),
                    name: day.name.clone(),
                    is_off_day: day.is_off_day,
                    source_url: paper.clone(),
                },
            ),
        );
        assert(record_views(records@) =~= record_views(before).push(all[i as int]));
        i = i + 1;
        assert(record_views(records@) =~= all.take(i as int));
    }
    assert(all.take(all.len() as int) =~= all);
    Ok(records)
}

/// The holidays of a year as they were fetched; nothing when the source could not be reached.
#[derive(Debug)]
pub struct FetchedYear {
    pub year: i32,
    pub source: Option<HolidaySource>,
}

/// Whether what was fetched for a year does not stop a refresh.
pub open spec fn usable(fetched: FetchedYear) -> bool {
    fetched.source matches Some(source) ==> taken(fetched.year, source)
}

/// The records of what was fetched for some years: a source that could not be reached gives none.
pub open spec fn fetched_records(fetched: Seq<FetchedYear>) -> Seq<(i32, HolidayView)>
    decreases fetched.len(),
{
    if fetched.len() == 0 {
        Seq::empty()
    } else {
        let last = fetched.last();
        fetched_records(fetched.drop_last()) + match last.source {
            Some(source) => source_records(last.year, source_url(last.year), source),
            None => Seq::empty(),
        }
    }
}

/// Whether what was fetched at position `i` is the first that stops a refresh, for the reason `e`.
pub open spec fn stopped_at(fetched: Seq<FetchedYear>, i: int, e: SourceError) -> bool {
    &&& 0 <= i < fetched.len()
    &&& forall|j: int| 0 <= j < i ==> usable(#[trigger] fetched[j])
    &&& fetched[i].source matches Some(source) && !taken(fetched[i].year, source) && refused_for(
        fetched[i].year,
        source,
        e,
    )
}

/// The first and the last year whose holidays are fetched at `now`.
pub fn holiday_years(now: &Instant) -> (r: (i32, i32))
    ensures
        r.0 == year_of(*now) - 1,
        r.1 == year_of(*now) + 1,
{
    let today = now.utc_date();
    proof {
        lemma_date_of_number(today);
    }
    let year: i32 = today.year();
    (year - 1, year + 1)
}

impl Server {
    /// Takes over what was fetched for some years, unless one of the sources is not taken: nothing
    /// changes then. Returns how many records there were.
    pub fn refresh_holidays(&mut self, fetched: &Vec<FetchedYear>, now: Instant) -> (r: Result<
        usize,
        SourceError,
    >)
        requires
            old(self).wf(),
        ensures
            final(self).wf(),
            match r {
                Ok(count) => {
                    &&& forall|i: int| 0 <= i < fetched@.len() ==> usable(#[trigger] fetched@[i])
                    &&& count == fetched_records(fetched@).len()
                    &&& final(self)@ == (ServerView {
                        holidays: with_year_records(
                            old(self)@.holidays,
                            fetched_records(fetched@),
                            now,
                        ),
                        ..old(self)@
                    })
                },
                Err(e) => final(self)@ == old(self)@ && refresh_stops(fetched@, e),
            },
    {
        let mut all: Vec<(i32, Holiday)> = Vec::new();
        let mut i: usize = 0;
        assert(fetched@.take(0) =~= Seq::<FetchedYear>::empty());
        assert(record_views(all@) =~= Seq::<(i32, HolidayView)>::empty());
        while i < fetched.len()
            invariant
                i <= fetched@.len(),
                self.wf(),
                self@ == old(self)@,
                forall|j: int| 0 <= j < i ==> usable(#[trigger] fetched@[j]),
                record_views(all@) == fetched_records(fetched@.take(i as int)),
            decreases fetched@.len() - i,
        {
            let ghost next = fetched@.take(i + 1);
            assert(next.drop_last() =~= fetched@.take(i as int));
            assert(next.last() == fetched@[i as int]);
            let year: i32 = fetched[i].year;
            match &fetched[i].source {
                None => {
                    assert(fetched_records(next) =~= record_views(all@));
                },
                Some(source) => {
                    let url = holiday_source_url(year);
                    match records_of_source(year, url.as_str(), source) {
                        Err(e) => {
                            assert(stopped_at(fetched@, i as int, e));
                            assert(refresh_stops(fetched@, e));
                            return Err(e);
                        },
                        Ok(records) => {
                            let ghost before = all@;
                            let ghost added = records@;
                            let mut records = records;
                            all.append(&mut records);
                            assert(record_views(all@) =~= record_views(before) + record_views(
                                added,
                            ));
                        },
                    }
                },
            }
            i = i + 1;
        }
        assert(fetched@.take(fetched@.len() as int) =~= fetched@);
        Ok(self.store_holidays(&all, now))
    }
}

/// Whether `e` is why a refresh stops: the reason of the first source that is not taken.
pub open spec fn refresh_stops(fetched: Seq<FetchedYear>, e: SourceError) -> bool {
    exists|i: int| #[trigger] stopped_at(fetched, i, e)
}

/// What is pulled after a pull that changed nothing is nothing: a cursor is never served an event
/// twice.
pub proof fn a_pull_is_not_repeated(
    s: ServerView,
    user_id: Seq<char>,
    cursor: i64,
    first: Seq<EventView>,
    second: Seq<EventView>,
)
    requires
        pulled(s, user_id, cursor, first),
        pulled(s, user_id, next_cursor(first, cursor), second),
    ensures
        second.len() == 0,
        next_cursor(first, cursor) >= cursor,
{
    if second.len() > 0 {
        let e = second[0];
        assert(s.events[e.id].event == e);
        assert(s.events.contains_key(e.id));
        if first.len() == 0 {
            assert(first.contains(e));
        } else {
            assert(first.last() == first[first.len() - 1]);
            assert(e.updated_seq > cursor);
            assert(first.contains(e));
            let i = choose|i: int| 0 <= i < first.len() && first[i] == e;
            if i < first.len() - 1 {
                assert(first[i].updated_seq < first[first.len() - 1].updated_seq);
            }
        }
    }
    if first.len() > 0 {
        assert(first.last() == first[first.len() - 1]);
    }
}

/// A stored event is pulled by its user from every cursor up to the user's highest sequence number
/// so far, as the last one; what other users pull does not change.
pub proof fn a_stored_event_is_pulled(
    s: ServerView,
    user_id: Seq<char>,
    event: EventView,
    cursor: i64,
    found: Seq<EventView>,
    other: Seq<char>,
    others: Seq<EventView>,
)
    requires
        event.updated_seq >= 1,
        top_sequence(s, user_id, event.updated_seq - 1),
        cursor < event.updated_seq,
        pulled(with_event(s, user_id, event), user_id, cursor, found),
        s.events.contains_key(event.id) ==> s.events[event.id].user_id == user_id,
        other != user_id,
    ensures
        found.len() > 0,
        found.last() == event,
        next_cursor(found, cursor) == event.updated_seq,
        pulled(s, other, cursor, others) <==> pulled(
            with_event(s, user_id, event),
            other,
            cursor,
            others,
        ),
{
    let after = with_event(s, user_id, event);
    assert(after.events.contains_key(event.id));
    assert(found.contains(event));
    let i = choose|i: int| 0 <= i < found.len() && found[i] == event;
    if i < found.len() - 1 {
        let last = found[found.len() - 1];
        assert(found[i].updated_seq < last.updated_seq);
        assert(after.events.contains_key(last.id));
        assert(after.events[last.id].event == last);
        assert(last.id != event.id);
        assert(s.events.contains_key(last.id));
    }
    if pulled(s, other, cursor, others) {
        assert forall|k: int| 0 <= k < others.len() implies {
            let e = #[trigger] others[k];
            after.events.contains_key(e.id) && after.events[e.id].event == e
                && after.events[e.id].user_id == other && e.updated_seq > cursor
        } by {
            let e = others[k];
            assert(s.events.contains_key(e.id) && s.events[e.id].user_id == other);
        }
        assert forall|id: Seq<char>| #[trigger]
            after.events.contains_key(id) && after.events[id].user_id == other
                && after.events[id].event.updated_seq > cursor implies others.contains(
            after.events[id].event,
        ) by {
            assert(s.events.contains_key(id));
        }
    }
    if pulled(after, other, cursor, others) {
        assert forall|k: int| 0 <= k < others.len() implies {
            let e = #[trigger] others[k];
            s.events.contains_key(e.id) && s.events[e.id].event == e && s.events[e.id].user_id
                == other && e.updated_seq > cursor
        } by {
            let e = others[k];
            assert(after.events.contains_key(e.id) && after.events[e.id].user_id == other);
        }
        assert forall|id: Seq<char>| #[trigger]
            s.events.contains_key(id) && s.events[id].user_id == other
                && s.events[id].event.updated_seq > cursor implies others.contains(
            s.events[id].event,
        ) by {
            assert(after.events.contains_key(id));
        }
    }
}

/// A stored version is refused when it is offered again: of two devices that changed the same
/// version, the second has to pull first. With the version that the first change gave, the next
/// change is accepted.
pub proof fn a_version_is_accepted_once(
    s: ServerView,
    user_id: Seq<char>,
    first: EventView,
    stored: EventView,
    second: EventView,
)
    requires
        accepted_version(s, user_id, first) == Ok::<i64, Refusal>(stored.version),
        stored.id == first.id,
        second.id == first.id,
        s.events.contains_key(first.id),
        trimmed(second.title).len() > 0,
        earlier(second.start_at.point(), second.end_at.point()),
        !reminds_too_early(second),
        stored.version < i64::MAX,
    ensures
        second.version == first.version ==> accepted_version(
            with_event(s, user_id, stored),
            user_id,
            second,
        ) == Err::<i64, Refusal>((409u16, "此日程已在其他设备更新，请先同步"@)),
        second.version == stored.version ==> accepted_version(
            with_event(s, user_id, stored),
            user_id,
            second,
        ) == Ok::<i64, Refusal>((stored.version + 1) as i64),
{
}

/// A deleted event stays as a tombstone that its user pulls like any other change.
pub proof fn a_deleted_event_is_pulled(
    s: ServerView,
    user_id: Seq<char>,
    tombstone: EventView,
    cursor: i64,
    found: Seq<EventView>,
)
    requires
        s.events.contains_key(tombstone.id),
        s.events[tombstone.id].user_id == user_id,
        tombstone.deleted,
        tombstone.updated_seq >= 1,
        top_sequence(s, user_id, tombstone.updated_seq - 1),
        cursor < tombstone.updated_seq,
        pulled(with_event(s, user_id, tombstone), user_id, cursor, found),
    ensures
        found.len() > 0,
        found.last() == tombstone,
        found.last().deleted,
{
    let other = user_id.push('x');
    assert(other.len() != user_id.len());
    a_stored_event_is_pulled(s, user_id, tombstone, cursor, found, other, Seq::empty());
}

/// The token of a session names its user until the session expires, and nobody afterwards.
pub proof fn a_session_lasts_until_it_expires(
    s: ServerView,
    user: UserView,
    token: Seq<char>,
    begin: Instant,
    after: ServerView,
    now: Instant,
)
    requires
        consistent(s),
        begin.valid(),
        s.users.contains_key(user.email),
        s.users[user.email] == user,
        with_session(s, user.id, token, begin) == Some(after),
    ensures
        shifted(begin, SESSION_MINUTES as int) is Some,
        ({
            let end = shifted(begin, SESSION_MINUTES as int).unwrap();
            authenticated(after, Some("Bearer "@ + token), now) == if earlier(
                end.point(),
                now.point(),
            ) {
                Err::<ProfileView, Refusal>((401u16, "登录已过期，请重新登录"@))
            } else {
                Ok::<ProfileView, Refusal>(profile(user))
            }
        }),
{
    let header = "Bearer "@ + token;
    assert("Bearer "@.is_prefix_of(header));
    assert(header.subrange("Bearer "@.len() as int, header.len() as int) =~= token);
    assert(after.users.contains_key(user.email) && after.users[user.email].id == user.id);
    let email = choose|email: Seq<char>| #[trigger]
        after.users.contains_key(email) && after.users[email].id == user.id;
    assert(s.users.contains_key(email));
}

/// A code that was made for an address bars a second one for a minute, and within ten minutes it
/// registers the address, as far as fewer than six wrong codes came in between.
pub proof fn a_code_registers_its_address(
    s: ServerView,
    address: Seq<char>,
    code: Seq<char>,
    made_at: Instant,
    after: ServerView,
    email: Seq<char>,
    again: Instant,
    pause: Instant,
    request: RegisterRequest,
    id: Seq<char>,
    salt: Seq<u8>,
    token: Seq<char>,
    now: Instant,
)
    requires
        with_code(s, address, code, made_at) == Ok::<(ServerView, Seq<char>), Refusal>(
            (after, email),
        ),
        shifted(again, -CODE_PAUSE_MINUTES) == Some(pause),
        shifted(again, CODE_MINUTES as int) is Some,
        registration_form(request) == Ok::<Seq<char>, Refusal>(email),
        !earlier(shifted(made_at, CODE_MINUTES as int).unwrap().point(), now.point()),
        trimmed(request.code@) == code,
        !s.users.contains_key(email),
        argon2_hash(request.password@, salt) is Some,
        account(s, id) is None,
        shifted(now, SESSION_MINUTES as int) is Some,
        !s.sessions.contains_key(sha256_hex(token)),
    ensures
        earlier(pause.point(), made_at.point()) ==> with_code(after, address, code, again) == Err::<
            (ServerView, Seq<char>),
            Refusal,
        >((429u16, "请 60 秒后再获取验证码"@)),
        registered(after, request, id, salt, token, now).1 is Ok,
        registered(after, request, id, salt, token, now).0.users.contains_key(email),
        !registered(after, request, id, salt, token, now).0.codes.contains_key(email),
{
    assert(account(after, id) is None) by {
        assert forall|e: Seq<char>| #[trigger]
            after.users.contains_key(e) implies after.users[e].id != id by {
            assert(s.users.contains_key(e));
        }
    }
}

/// The password of an account signs in to it, and no other does.
pub proof fn the_password_signs_in(
    s: ServerView,
    address: Seq<char>,
    email: Seq<char>,
    password: Seq<char>,
    token: Seq<char>,
    now: Instant,
)
    requires
        normalized_email(address) == Ok::<Seq<char>, Refusal>(email),
        s.users.contains_key(email),
        shifted(now, SESSION_MINUTES as int) is Some,
        !s.sessions.contains_key(sha256_hex(token)),
    ensures
        password_matches(s.users[email].password_hash, password) == Some(true) ==> signed_in(
            s,
            address,
            password,
            token,
            now,
        ).1 == Ok::<ProfileView, Refusal>(profile(s.users[email])),
        password_matches(s.users[email].password_hash, password) == Some(false) ==> signed_in(
            s,
            address,
            password,
            token,
            now,
        ) == (s, Err::<ProfileView, Refusal>((401u16, "邮箱或密码不正确"@))),
{
}

/// An address is registered at most once.
pub proof fn an_address_is_registered_once(
    s: ServerView,
    request: RegisterRequest,
    email: Seq<char>,
    id: Seq<char>,
    salt: Seq<u8>,
    token: Seq<char>,
    now: Instant,
)
    requires
        registration_form(request) == Ok::<Seq<char>, Refusal>(email),
        s.users.contains_key(email),
    ensures
        registered(s, request, id, salt, token, now).1 is Err,
        registered(s, request, id, salt, token, now).0.users == s.users,
{
}

/// Six wrong codes use a code up: after them the right one is refused too.
pub proof fn wrong_codes_use_a_code_up(
    s: ServerView,
    request: RegisterRequest,
    email: Seq<char>,
    id: Seq<char>,
    salt: Seq<u8>,
    token: Seq<char>,
    now: Instant,
)
    requires
        registration_form(request) == Ok::<Seq<char>, Refusal>(email),
        s.codes.contains_key(email),
    ensures
        s.codes[email].attempts >= CODE_ATTEMPTS ==> registered(
            s,
            request,
            id,
            salt,
            token,
            now,
        ) == (s, Err::<ProfileView, Refusal>((400u16, "验证码已失效，请重新获取"@))),
        s.codes[email].attempts < CODE_ATTEMPTS && !earlier(
            s.codes[email].expires_at.point(),
            now.point(),
        ) && s.codes[email].code_hash != sha256_hex(trimmed(request.code@)) ==> {
            let after = registered(s, request, id, salt, token, now).0;
            after.codes[email].attempts == s.codes[email].attempts + 1 && after.users == s.users
        },
{
}

/// Whether an account can be taken back: its address and its identity are free.
pub open spec fn account_fits(s: ServerView, user: UserView) -> bool {
    !s.users.contains_key(user.email) && account(s, user.id) is None
}

/// Whether an event can be taken back: its identity and its sequence number are free.
pub open spec fn event_fits(s: ServerView, row: OwnedView) -> bool {
    &&& row.event.updated_seq >= 1
    &&& !s.events.contains_key(row.event.id)
    &&& forall|id: Seq<char>| #[trigger]
        s.events.contains_key(id) && s.events[id].user_id == row.user_id
            ==> s.events[id].event.updated_seq != row.event.updated_seq
}

/// Saved records: what is read out of a server, and taken back into one.
impl Server {
    /// The accounts, by address.
    pub fn users(&self) -> (r: &Table<UserRow>)
        requires
            self.wf(),
        ensures
            r.wf(),
            self@.users == r.map().map_values(|row: UserRow| row@),
    {
        &self.users
    }

    /// The codes, by address.
    pub fn codes(&self) -> (r: &Table<CodeRow>)
        requires
            self.wf(),
        ensures
            r.wf(),
            self@.codes == r.map().map_values(|row: CodeRow| row@),
    {
        &self.codes
    }

    /// The sessions, by the digest of their token.
    pub fn sessions(&self) -> (r: &Table<SessionRow>)
        requires
            self.wf(),
        ensures
            r.wf(),
            self@.sessions == r.map().map_values(|row: SessionRow| row@),
    {
        &self.sessions
    }

    /// The events, by identity.
    pub fn events(&self) -> (r: &Table<EventRow>)
        requires
            self.wf(),
        ensures
            r.wf(),
            self@.events == r.map().map_values(|row: EventRow| row@),
    {
        &self.events
    }

    /// The holidays, by date.
    pub fn holidays(&self) -> (r: &Table<HolidayRow>)
        requires
            self.wf(),
        ensures
            r.wf(),
            self@.holidays == r.map().map_values(|row: HolidayRow| row@),
    {
        &self.holidays
    }

    /// Takes an account back. Returns whether it fits.
    pub fn restore_user(&mut self, user: UserRow) -> (fits: bool)
        requires
            old(self).wf(),
        ensures
            final(self).wf(),
            fits == account_fits(old(self)@, user@),
            final(self)@ == if fits {
                ServerView { users: old(self)@.users.insert(user@.email, user@), ..old(self)@ }
            } else {
                old(self)@
            },
    {
        if self.users.get(user.email.as_str()).is_some() || self.find_account(
            user.id.as_str(),
        ).is_some() {
            return false;
        }
        let ghost before = self@;
        let ghost value = user@;
        let email = user.email.clone();
        self.users.put(email.as_str(), user);
        proof {
            assert(self@.users =~= before.users.insert(value.email, value));
            assert(self@ =~= (ServerView { users: self@.users, ..before }));
            assert forall|a: Seq<char>, b: Seq<char>| #[trigger]
                self@.users.contains_key(a) && #[trigger] self@.users.contains_key(b)
                    && self@.users[a].id == self@.users[b].id implies a == b by {
                if a != b && a == value.email {
                    assert(before.users.contains_key(b) && before.users[b].id == value.id);
                }
                if a != b && b == value.email {
                    assert(before.users.contains_key(a) && before.users[a].id == value.id);
                }
                if a != value.email && b != value.email {
                    assert(before.users.contains_key(a) && before.users.contains_key(b));
                }
            }
            assert forall|a: Seq<char>| #[trigger]
                self@.users.contains_key(a) implies self@.users[a].email == a by {
                if a != value.email {
                    assert(before.users.contains_key(a));
                }
            }
            assert(consistent(self@));
        }
        true
    }

    /// Takes a code back.
    pub fn restore_code(&mut self, email: &str, code: CodeRow)
        requires
            old(self).wf(),
        ensures
            final(self).wf(),
            final(self)@ == (ServerView {
                codes: old(self)@.codes.insert(email@, code@),
                ..old(self)@
            }),
    {
        let ghost before = self@;
        let ghost value = code@;
        self.codes.put(email, code);
        assert(self@.codes =~= before.codes.insert(email@, value));
        assert(consistent(self@));
    }

    /// Takes a session back.
    pub fn restore_session(&mut self, digest: &str, session: SessionRow)
        requires
            old(self).wf(),
        ensures
            final(self).wf(),
            final(self)@ == (ServerView {
                sessions: old(self)@.sessions.insert(digest@, session@),
                ..old(self)@
            }),
    {
        let ghost before = self@;
        let ghost value = session@;
        self.sessions.put(digest, session);
        assert(self@.sessions =~= before.sessions.insert(digest@, value));
        assert(consistent(self@));
    }

    /// Whether the user has no event with this sequence number.
    fn sequence_free(&self, user_id: &str, sequence: i64) -> (r: bool)
        requires
            self.wf(),
        ensures
            r == forall|id: Seq<char>| #[trigger]
                self@.events.contains_key(id) && self@.events[id].user_id == user_id@
                    ==> self@.events[id].event.updated_seq != sequence,
    {
        let ghost rows = self.events.rows();
        let mut i: usize = 0;
        while i < self.events.len()
            invariant
                self.wf(),
                rows == self.events.rows(),
                i <= rows.len(),
                forall|j: int|
                    0 <= j < i && (#[trigger] rows[j]).1.user_id@ == user_id@
                        ==> rows[j].1.event.updated_seq != sequence,
            decreases rows.len() - i,
        {
            let row = self.events.value_at(i);
            if same_text(row.user_id.as_str(), user_id) && row.event.updated_seq == sequence {
                proof {
                    lemma_row_in_map(rows, i as int);
                    let id = rows[i as int].0;
                    assert(self@.events.contains_key(id) && self@.events[id].user_id == user_id@
                        && self@.events[id].event.updated_seq == sequence);
                }
                return false;
            }
            i = i + 1;
        }
        proof {
            assert forall|id: Seq<char>| #[trigger]
                self@.events.contains_key(id) && self@.events[id].user_id
                    == user_id@ implies self@.events[id].event.updated_seq != sequence by {
                let j = choose|j: int| 0 <= j < rows.len() && (#[trigger] rows[j]).0 == id;
                assert(has_key(rows, id));
                lemma_row_in_map(rows, j);
            }
        }
        true
    }

    /// Takes an event back. Returns whether it fits.
    pub fn restore_event(&mut self, row: EventRow) -> (fits: bool)
        requires
            old(self).wf(),
        ensures
            final(self).wf(),
            fits == event_fits(old(self)@, row@),
            final(self)@ == if fits {
                ServerView { events: old(self)@.events.insert(row@.event.id, row@), ..old(self)@ }
            } else {
                old(self)@
            },
    {
        if row.event.updated_seq < 1 || self.events.get(row.event.id.as_str()).is_some()
            || !self.sequence_free(row.user_id.as_str(), row.event.updated_seq) {
            return false;
        }
        let ghost before = self@;
        let ghost value = row@;
        let id = row.event.id.clone();
        self.events.put(id.as_str(), row);
        proof {
            assert(self@.events =~= before.events.insert(value.event.id, value));
            assert(self@ =~= (ServerView { events: self@.events, ..before }));
            assert forall|a: Seq<char>, b: Seq<char>| #[trigger]
                self@.events.contains_key(a) && #[trigger] self@.events.contains_key(b)
                    && self@.events[a].user_id == self@.events[b].user_id
                    && self@.events[a].event.updated_seq
                    == self@.events[b].event.updated_seq implies a == b by {
                if a != value.event.id {
                    assert(before.events.contains_key(a));
                }
                if b != value.event.id {
                    assert(before.events.contains_key(b));
                }
            }
            assert forall|a: Seq<char>| #[trigger]
                self@.events.contains_key(a) implies self@.events[a].event.id == a
                && self@.events[a].event.updated_seq >= 1 by {
                if a != value.event.id {
                    assert(before.events.contains_key(a));
                }
            }
            assert(consistent(self@));
        }
        true
    }

    /// Takes a holiday record back.
    pub fn restore_holiday(&mut self, row: HolidayRow)
        requires
            old(self).wf(),
        ensures
            final(self).wf(),
            final(self)@ == (ServerView {
                holidays: old(self)@.holidays.insert(row@.holiday.date, row@),
                ..old(self)@
            }),
    {
        let ghost before = self@;
        let ghost value = row@;
        let date = row.holiday.date.clone();
        self.holidays.put(date.as_str(), row);
        proof {
            assert(self@.holidays =~= before.holidays.insert(value.holiday.date, value));
            assert forall|date: Seq<char>| #[trigger]
                self@.holidays.contains_key(date) implies self@.holidays[date].holiday.date
                == date by {
                if date != value.holiday.date {
                    assert(before.holidays.contains_key(date));
                }
            }
            assert(consistent(self@));
        }
    }
}

/// Storing fetched holidays clears nothing: the records of other dates stay as they were.
pub proof fn a_refresh_keeps_other_holidays(
    holidays: Map<Seq<char>, YearView>,
    records: Seq<(i32, HolidayView)>,
    now: Instant,
    date: Seq<char>,
)
    requires
        forall|i: int| 0 <= i < records.len() ==> (#[trigger] records[i]).1.date != date,
    ensures
        with_year_records(holidays, records, now).contains_key(date) == holidays.contains_key(date),
        holidays.contains_key(date) ==> with_year_records(holidays, records, now)[date]
            == holidays[date],
    decreases records.len(),
{
    if records.len() > 0 {
        assert forall|i: int| 0 <= i < records.drop_last().len() implies (
        #[trigger] records.drop_last()[i]).1.date != date by {
            assert(records.drop_last()[i] == records[i]);
        }
        a_refresh_keeps_other_holidays(holidays, records.drop_last(), now, date);
        assert(records.last() == records[records.len() - 1]);
    }
}

/// The records of a source that is taken say what its days say, one for each day and in their order:
/// date, name, and whether the day is a rest day or a workday. They carry the year of the source,
/// and its paper or else where it came from.
pub proof fn records_say_what_the_source_says(
    year: i32,
    url: Seq<char>,
    source: HolidaySource,
    records: Seq<(i32, HolidayView)>,
    i: int,
)
    requires
        taken(year, source),
        records == source_records(year, url, source),
        0 <= i < source.days@.len(),
    ensures
        records.len() == source.days@.len(),
        records[i].0 == source.year,
        records[i].1.date == source.days@[i].date@,
        records[i].1.name == source.days@[i].name@,
        records[i].1.is_off_day == source.days@[i].is_off_day,
        source.papers@.len() > 0 ==> records[i].1.source_url == source.papers@[0]@,
        source.papers@.len() == 0 ==> records[i].1.source_url == url,
        parsed_date(source.days@[i].date@) matches Some((y, month, day)) && y == source.year,
{
    assert(text_year(source.days@[i].date@) == Some(year));
}

/// The last record for a date is the one that is kept, with its year.
pub proof fn the_last_record_of_a_date_is_kept(
    holidays: Map<Seq<char>, YearView>,
    records: Seq<(i32, HolidayView)>,
    now: Instant,
    i: int,
)
    requires
        0 <= i < records.len(),
        forall|j: int| i < j < records.len() ==> (#[trigger] records[j]).1.date != records[i].1.date,
    ensures
        with_year_records(holidays, records, now).contains_key(records[i].1.date),
        ({
            let kept = with_year_records(holidays, records, now)[records[i].1.date];
            kept.holiday == records[i].1 && kept.year == records[i].0 && kept.updated_at == now
        }),
    decreases records.len(),
{
    if i < records.len() - 1 {
        let shorter = records.drop_last();
        assert(shorter[i] == records[i]);
        assert forall|j: int| i < j < shorter.len() implies (#[trigger] shorter[j]).1.date
            != shorter[i].1.date by {
            assert(records[j].1.date != records[i].1.date);
        }
        the_last_record_of_a_date_is_kept(holidays, shorter, now, i);
        assert(records[records.len() - 1].1.date != records[i].1.date);
    }
}

/// A day of a source that is taken and stored is listed as the source has it: a make-up workday as a
/// workday, a rest day as a rest day.
pub proof fn a_stored_day_is_listed_as_its_source_has_it(
    s: ServerView,
    year: i32,
    url: Seq<char>,
    source: HolidaySource,
    now: Instant,
    i: int,
    first: int,
    last: int,
    found: Seq<HolidayView>,
)
    requires
        taken(year, source),
        0 <= i < source.days@.len(),
        forall|j: int|
            i < j < source.days@.len() ==> (#[trigger] source.days@[j]).date@
                != source.days@[i].date@,
        first <= source.year <= last,
        holidays_of(
            (ServerView {
                holidays: with_year_records(s.holidays, source_records(year, url, source), now),
                ..s
            }),
            first,
            last,
            found,
        ),
    ensures
        exists|k: int|
            0 <= k < found.len() && (#[trigger] found[k]).date == source.days@[i].date@
                && found[k].name == source.days@[i].name@ && found[k].is_off_day
                == source.days@[i].is_off_day,
{
    let records = source_records(year, url, source);
    records_say_what_the_source_says(year, url, source, records, i);
    assert forall|j: int| i < j < records.len() implies (#[trigger] records[j]).1.date
        != records[i].1.date by {
        assert(source.days@[j].date@ != source.days@[i].date@);
    }
    the_last_record_of_a_date_is_kept(s.holidays, records, now, i);
    let after = ServerView { holidays: with_year_records(s.holidays, records, now), ..s };
    let date = source.days@[i].date@;
    assert(after.holidays.contains_key(date));
    assert(found.contains(after.holidays[date].holiday));
}

/// A refresh takes the records of each year that was fetched, in the order of the years, and none of
/// the others.
pub proof fn a_refresh_takes_what_was_fetched(fetched: Seq<FetchedYear>, next: FetchedYear)
    ensures
        fetched_records(Seq::<FetchedYear>::empty()).len() == 0,
        next.source is None ==> fetched_records(fetched.push(next)) == fetched_records(fetched),
        next.source matches Some(source) ==> {
            let all = fetched_records(fetched.push(next));
            &&& all.len() == fetched_records(fetched).len() + source.days@.len()
            &&& all.take(fetched_records(fetched).len() as int) == fetched_records(fetched)
            &&& forall|i: int|
                0 <= i < source.days@.len() ==> {
                    let record = #[trigger] all[fetched_records(fetched).len() + i];
                    record.0 == next.year && record.1.date == source.days@[i].date@
                        && record.1.is_off_day == source.days@[i].is_off_day && record.1.name
                        == source.days@[i].name@
                }
        },
{
    let all = fetched.push(next);
    assert(all.drop_last() =~= fetched);
    assert(all.last() == next);
    assert(fetched_records(fetched) + Seq::<(i32, HolidayView)>::empty() =~= fetched_records(
        fetched,
    ));
    if let Some(source) = next.source {
        assert(fetched_records(all).take(fetched_records(fetched).len() as int) =~= fetched_records(
            fetched,
        ));
    }
}

/// A session begins for the user and lasts thirty days: the token names the user up to that second,
/// and is refused after it. Nothing else changes.
pub proof fn a_session_lasts_thirty_days(
    s: ServerView,
    user: UserView,
    token: Seq<char>,
    begin: Instant,
    after: ServerView,
    now: Instant,
)
    requires
        consistent(s),
        begin.valid(),
        begin.nanos() < 1_000_000_000,
        now.nanos() < 1_000_000_000,
        s.users.contains_key(user.email),
        s.users[user.email] == user,
        with_session(s, user.id, token, begin) == Some(after),
    ensures
        authenticated(after, Some("Bearer "@ + token), now) is Ok <==> now.seconds()
            * 1_000_000_000 + now.nanos() <= (begin.seconds() + 2_592_000) * 1_000_000_000
            + begin.nanos(),
        authenticated(after, Some("Bearer "@ + token), now) matches Ok(found) ==> found.id == user.id
            && found.email == user.email && found.display_name == user.display_name,
        after.users == s.users,
        after.codes == s.codes,
        after.events == s.events,
        after.holidays == s.holidays,
{
    a_session_lasts_until_it_expires(s, user, token, begin, after, now);
    a_shift_adds_sixty_seconds_a_minute(
        begin,
        SESSION_MINUTES as int,
        shifted(begin, SESSION_MINUTES as int).unwrap(),
    );
}

/// A new session leaves the other sessions as they were, and takes no token that is in use.
pub proof fn sessions_do_not_disturb_each_other(
    s: ServerView,
    user_id: Seq<char>,
    token: Seq<char>,
    begin: Instant,
    after: ServerView,
    header: Option<Seq<char>>,
    now: Instant,
)
    requires
        with_session(s, user_id, token, begin) == Some(after),
        header matches Some(text) ==> (after_prefix(text, "Bearer "@) matches Some(other)
            ==> sha256_hex(other) != sha256_hex(token)),
    ensures
        authenticated(after, header, now) == authenticated(s, header, now),
        !s.sessions.contains_key(sha256_hex(token)),
{
    reveal_strlit("");
    reveal_strlit("Bearer ");
    if let Some(text) = header {
        if let Some(other) = after_prefix(text, "Bearer "@) {
            lemma_same_accounts(s, after, s.sessions[sha256_hex(other)].user_id);
        }
    }
}

/// States with the same accounts find the same account.
proof fn lemma_same_accounts(a: ServerView, b: ServerView, id: Seq<char>)
    requires
        a.users == b.users,
    ensures
        account(a, id) == account(b, id),
{
    if exists|email: Seq<char>| #[trigger] a.users.contains_key(email) && a.users[email].id == id {
        let email = choose|email: Seq<char>| #[trigger]
            a.users.contains_key(email) && a.users[email].id == id;
        assert(b.users.contains_key(email) && b.users[email].id == id);
    }
    if exists|email: Seq<char>| #[trigger] b.users.contains_key(email) && b.users[email].id == id {
        let email = choose|email: Seq<char>| #[trigger]
            b.users.contains_key(email) && b.users[email].id == id;
        assert(a.users.contains_key(email) && a.users[email].id == id);
    }
}

/// A request is served for an account only with the token of a session of that account that has not
/// expired; the token stands behind `Bearer ` in the header. Every other request is refused with the
/// status 401.
pub proof fn only_a_session_opens_an_account(
    s: ServerView,
    header: Option<Seq<char>>,
    now: Instant,
)
    requires
        consistent(s),
    ensures
        match authenticated(s, header, now) {
            Ok(found) => header matches Some(text) && exists|token: Seq<char>|
                text == #[trigger] ("Bearer "@ + token) && s.sessions.contains_key(
                    sha256_hex(token),
                ) && s.sessions[sha256_hex(token)].user_id == found.id && !earlier(
                    s.sessions[sha256_hex(token)].expires_at.point(),
                    now.point(),
                ) && s.users.contains_key(found.email) && s.users[found.email].id == found.id
                    && s.users[found.email].display_name == found.display_name,
            Err(refusal) => refusal.0 == 401,
        },
{
    reveal_strlit("");
    reveal_strlit("Bearer ");
    if let Ok(found) = authenticated(s, header, now) {
        let text = header.unwrap_or(""@);
        let token = after_prefix(text, "Bearer "@).unwrap();
        assert(text =~= "Bearer "@ + token);
        let id = s.sessions[sha256_hex(token)].user_id;
        let email = choose|email: Seq<char>| #[trigger]
            s.users.contains_key(email) && s.users[email].id == id;
        assert(s.users[email].email == email);
        assert(text == ("Bearer "@ + token));
    }
}

/// A code is kept for ten minutes as its digest only, without failed attempts, under the address
/// that it goes to. Nothing else changes. A second one is refused for sixty seconds, and only then.
pub proof fn a_code_is_kept_for_ten_minutes(
    s: ServerView,
    address: Seq<char>,
    code: Seq<char>,
    now: Instant,
    email: Seq<char>,
)
    requires
        now.valid(),
        now.nanos() < 1_000_000_000,
        normalized_email(address) == Ok::<Seq<char>, Refusal>(email),
        shifted(now, -1) is Some,
        shifted(now, 10) is Some,
        s.codes.contains_key(email) ==> s.codes[email].last_sent_at.nanos() < 1_000_000_000,
    ensures
        match with_code(s, address, code, now) {
            Ok((after, to)) => {
                &&& to == email
                &&& after.codes.contains_key(email)
                &&& after.codes[email].code_hash == sha256_hex(code)
                &&& after.codes[email].expires_at.seconds() == now.seconds() + 600
                &&& after.codes[email].expires_at.nanos() == now.nanos()
                &&& after.codes[email].attempts == 0
                &&& after.codes[email].last_sent_at == now
                &&& after.codes.remove(email) == s.codes.remove(email)
                &&& after.users == s.users && after.sessions == s.sessions && after.events
                    == s.events && after.holidays == s.holidays
            },
            Err(refusal) => refusal.0 == 429,
        },
        with_code(s, address, code, now) is Err <==> s.codes.contains_key(email) && {
            let sent = s.codes[email].last_sent_at;
            sent.seconds() * 1_000_000_000 + sent.nanos() > (now.seconds() - 60) * 1_000_000_000
                + now.nanos()
        },
{
    a_shift_adds_sixty_seconds_a_minute(now, -1, shifted(now, -1).unwrap());
    a_shift_adds_sixty_seconds_a_minute(now, 10, shifted(now, 10).unwrap());
    if let Ok((after, to)) = with_code(s, address, code, now) {
        assert(after.codes.remove(email) =~= s.codes.remove(email));
    }
}

/// What a registration that succeeds has met, and what it makes: the address has a code that has not
/// expired and not been missed six times, the code is the right one, and the address was free. The
/// account holds the address, the name without white space at its ends, and the hash of the
/// password; its code is used up; and the session belongs to it. No other account changes.
pub proof fn a_registration_needs_its_code(
    s: ServerView,
    request: RegisterRequest,
    id: Seq<char>,
    salt: Seq<u8>,
    token: Seq<char>,
    now: Instant,
    other: Seq<char>,
)
    ensures
        ({
            let (after, outcome) = registered(s, request, id, salt, token, now);
            outcome matches Ok(user) ==> {
                let email = user.email;
                &&& normalized_email(request.email@) == Ok::<Seq<char>, Refusal>(email)
                &&& 8 <= request.password@.len() <= 128
                &&& 1 <= trimmed(request.display_name@).len() <= 80
                &&& s.codes.contains_key(email)
                &&& s.codes[email].attempts < 6
                &&& !earlier(s.codes[email].expires_at.point(), now.point())
                &&& s.codes[email].code_hash == sha256_hex(trimmed(request.code@))
                &&& !s.users.contains_key(email)
                &&& user.id == id && user.display_name == trimmed(request.display_name@)
                &&& after.users.contains_key(email) && after.users[email].id == id
                &&& after.users[email].email == email
                &&& after.users[email].display_name == trimmed(request.display_name@)
                &&& Some(after.users[email].password_hash) == argon2_hash(request.password@, salt)
                &&& after.users[email].created_at == now
                &&& !after.codes.contains_key(email)
                &&& after.sessions.contains_key(sha256_hex(token))
                &&& after.sessions[sha256_hex(token)].user_id == id
                &&& other != email ==> (after.users.contains_key(other) <==> s.users.contains_key(
                    other,
                )) && (after.codes.contains_key(other) <==> s.codes.contains_key(other))
                &&& other != email && s.users.contains_key(other) ==> after.users[other]
                    == s.users[other]
            }
        }),
        registered(s, request, id, salt, token, now).0.events == s.events,
        registered(s, request, id, salt, token, now).0.holidays == s.holidays,
{
}

/// Why a registration fails: each refusal with what was wrong, looked at in this order. A refusal
/// leaves all accounts and sessions as they were.
pub proof fn a_registration_is_refused_for_its_reason(
    s: ServerView,
    request: RegisterRequest,
    email: Seq<char>,
    id: Seq<char>,
    salt: Seq<u8>,
    token: Seq<char>,
    now: Instant,
)
    requires
        normalized_email(request.email@) == Ok::<Seq<char>, Refusal>(email),
    ensures
        ({
            let (after, outcome) = registered(s, request, id, salt, token, now);
            let named = 1 <= trimmed(request.display_name@).len() <= 80;
            let formed = 8 <= request.password@.len() <= 128 && named;
            let alive = s.codes.contains_key(email) && s.codes[email].attempts < 6 && !earlier(
                s.codes[email].expires_at.point(),
                now.point(),
            );
            let right = s.codes[email].code_hash == sha256_hex(trimmed(request.code@));
            &&& !formed ==> (outcome matches Err(refusal) && refusal.0 == 400) && after == s
            &&& formed && !alive ==> (outcome matches Err(refusal) && refusal.0 == 400) && after == s
            &&& formed && alive && !right ==> (outcome matches Err(refusal) && refusal.0 == 400)
                && after.users == s.users && after.sessions == s.sessions
                && after.codes[email].code_hash == s.codes[email].code_hash
                && after.codes[email].expires_at == s.codes[email].expires_at
            &&& formed && alive && right && s.users.contains_key(email) ==> (outcome matches Err(
                refusal,
            ) && refusal.0 == 409) && after == s
        }),
{
}

/// A sign-in succeeds only with the password of the account of that address, and does nothing but
/// begin a session of it; a failure does nothing.
pub proof fn a_sign_in_needs_the_password(
    s: ServerView,
    address: Seq<char>,
    password: Seq<char>,
    token: Seq<char>,
    now: Instant,
)
    ensures
        ({
            let (after, outcome) = signed_in(s, address, password, token, now);
            match outcome {
                Ok(user) => {
                    &&& normalized_email(address) matches Ok(email) && s.users.contains_key(email)
                        && password_matches(s.users[email].password_hash, password) == Some(true)
                        && user.id == s.users[email].id && user.email == s.users[email].email
                        && user.display_name == s.users[email].display_name
                    &&& after.sessions.contains_key(sha256_hex(token))
                    &&& after.sessions[sha256_hex(token)].user_id == user.id
                    &&& after.users == s.users && after.codes == s.codes && after.events
                        == s.events && after.holidays == s.holidays
                },
                Err(refusal) => after == s,
            }
        }),
{
}

/// What the server demands of an event that it stores, and the version that it gives: the title is
/// not blank, the event ends after it begins, and every reminder lies between its start and a year
/// before it. A new event gets the version 1; an event that the server has is changed only by its
/// owner, from the version that the server has, to the next.
pub proof fn an_accepted_event_is_sound(s: ServerView, user_id: Seq<char>, event: EventView)
    ensures
        accepted_version(s, user_id, event) matches Ok(version) ==> {
            &&& trimmed(event.title).len() > 0
            &&& earlier(event.start_at.point(), event.end_at.point())
            &&& forall|i: int|
                0 <= i < event.reminder_minutes.len() ==> 0 <= #[trigger] event.reminder_minutes[i]
                    <= 525_600
            &&& s.events.contains_key(event.id) ==> s.events[event.id].user_id == user_id
                && s.events[event.id].event.version == event.version && version == event.version
                + 1
            &&& !s.events.contains_key(event.id) ==> version == 1
        },
        accepted_version(s, user_id, event) matches Err(refusal) ==> {
            ||| trimmed(event.title).len() == 0 && refusal.0 == 400
            ||| !earlier(event.start_at.point(), event.end_at.point()) && refusal.0 == 400
            ||| refusal.0 == 400 && exists|i: int|
                0 <= i < event.reminder_minutes.len() && !(0 <= #[trigger] event.reminder_minutes[i]
                    <= 525_600)
            ||| s.events.contains_key(event.id) && s.events[event.id].user_id != user_id
                && refusal.0 == 403
            ||| s.events.contains_key(event.id) && s.events[event.id].event.version != event.version
                && refusal.0 == 409
            ||| event.version == i64::MAX && refusal.0 == 500
        },
{
}

/// An event is deleted only by its owner, from the version that the server has, to the next.
pub proof fn a_deletion_needs_the_owner_and_the_version(
    s: ServerView,
    user_id: Seq<char>,
    id: Seq<char>,
    base_version: i64,
)
    ensures
        deleted_version(s, user_id, id, base_version) matches Ok(version) ==> s.events.contains_key(
            id,
        ) && s.events[id].user_id == user_id && s.events[id].event.version == base_version
            && version == base_version + 1,
        deleted_version(s, user_id, id, base_version) matches Err(refusal) ==> {
            ||| !s.events.contains_key(id) && refusal.0 == 404
            ||| s.events.contains_key(id) && s.events[id].user_id != user_id && refusal.0 == 403
            ||| s.events.contains_key(id) && s.events[id].event.version != base_version && refusal.0
                == 409
            ||| base_version == i64::MAX && refusal.0 == 500
        },
{
}

/// What the server stores compares as the same with what was sent, unless that was deleted: a device
/// that sent an event finds no difference to what it pulls. A stored event is not deleted, and a
/// deleted one is the stored event but for that mark.
pub proof fn a_stored_event_is_the_one_that_was_sent(
    event: EventView,
    version: i64,
    updated_seq: i64,
    now: Instant,
)
    ensures
        ({
            let stored = stored_copy(event, version, updated_seq, now);
            let gone = deleted_copy(event, version, updated_seq, now);
            &&& !event.deleted ==> same_content(event, stored)
            &&& !stored.deleted && stored.id == event.id
            &&& stored.version == version && stored.updated_seq == updated_seq
                && stored.updated_at == now
            &&& gone.deleted && gone.id == event.id
            &&& gone.version == version && gone.updated_seq == updated_seq && gone.updated_at == now
            &&& same_content(stored, EventView { deleted: false, ..gone })
            &&& event.deleted ==> same_content(event, gone)
        }),
{
}

/// Storing an event of one user touches no other event, account or session.
pub proof fn storing_an_event_touches_nothing_else(
    s: ServerView,
    user_id: Seq<char>,
    event: EventView,
    other: Seq<char>,
)
    ensures
        with_event(s, user_id, event).events.contains_key(event.id),
        with_event(s, user_id, event).events[event.id].event == event,
        with_event(s, user_id, event).events[event.id].user_id == user_id,
        other != event.id ==> (with_event(s, user_id, event).events.contains_key(other)
            <==> s.events.contains_key(other)),
        other != event.id && s.events.contains_key(other) ==> with_event(
            s,
            user_id,
            event,
        ).events[other] == s.events[other],
        with_event(s, user_id, event).users == s.users,
        with_event(s, user_id, event).sessions == s.sessions,
        with_event(s, user_id, event).codes == s.codes,
        with_event(s, user_id, event).holidays == s.holidays,
{
}

/// What a user pulls are all and only the user's own events that changed after the cursor, each
/// once; a pull from the beginning gives all of them.
pub proof fn a_pull_gives_the_users_own_events(
    s: ServerView,
    user_id: Seq<char>,
    cursor: i64,
    found: Seq<EventView>,
    id: Seq<char>,
    i: int,
    j: int,
)
    requires
        consistent(s),
        pulled(s, user_id, cursor, found),
        s.events.contains_key(id),
        0 <= i < j < found.len(),
    ensures
        found.contains(s.events[id].event) <==> s.events[id].user_id == user_id
            && s.events[id].event.updated_seq > cursor,
        cursor <= 0 && s.events[id].user_id == user_id ==> found.contains(s.events[id].event),
        found[i].id != found[j].id,
        next_cursor(found, cursor) == found.last().updated_seq,
        forall|k: int|
            0 <= k < found.len() ==> (#[trigger] found[k]).updated_seq <= next_cursor(found, cursor),
{
    if found.contains(s.events[id].event) {
        let k = choose|k: int| 0 <= k < found.len() && found[k] == s.events[id].event;
        assert(s.events.contains_key(found[k].id));
    }
    assert(s.events.contains_key(found[i].id) && s.events.contains_key(found[j].id));
    assert(found[i].updated_seq < found[j].updated_seq);
    assert forall|k: int| 0 <= k < found.len() implies (#[trigger] found[k]).updated_seq
        <= next_cursor(found, cursor) by {
        if k < found.len() - 1 {
            assert(found[k].updated_seq < found[found.len() - 1].updated_seq);
        }
    }
}

/// A refresh is given up for the first year whose source does not fit it. A year that could not be
/// fetched stops nothing, and neither does one whose days all lie in it.
pub proof fn a_refresh_is_given_up_for_a_wrong_source(
    fetched: Seq<FetchedYear>,
    e: SourceError,
    i: int,
)
    ensures
        (forall|j: int| 0 <= j < fetched.len() ==> (#[trigger] fetched[j]).source is None)
            ==> !refresh_stops(fetched, e),
        0 <= i < fetched.len() && (forall|j: int|
            0 <= j < i ==> (#[trigger] fetched[j]).source is None) ==> (
        fetched[i].source matches Some(source) ==> source.year != fetched[i].year ==> (
        refresh_stops(fetched, e) <==> e == SourceError::YearMismatch(
            fetched[i].year,
            source.year,
        ))),
{
    if 0 <= i < fetched.len() && (forall|j: int|
        0 <= j < i ==> (#[trigger] fetched[j]).source is None) {
        if let Some(source) = fetched[i].source {
            if source.year != fetched[i].year {
                assert(forall|j: int| 0 <= j < i ==> usable(#[trigger] fetched[j]));
                assert(!taken(fetched[i].year, source));
                assert(!usable(fetched[i]));
                if e == SourceError::YearMismatch(fetched[i].year, source.year) {
                    assert(refused_for(fetched[i].year, source, e));
                    assert(stopped_at(fetched, i, e));
                }
                if refresh_stops(fetched, e) {
                    let k = choose|k: int| #[trigger] stopped_at(fetched, k, e);
                    if k < i {
                        assert(fetched[k].source is None);
                    }
                    if i < k {
                        assert(usable(fetched[i]));
                    }
                }
            }
        }
    }
}

/// With the events a pull gives the holidays of the year before, of the present year and of the
/// next one, all of them and no others.
pub proof fn a_pull_gives_the_holidays_of_three_years(
    s: ServerView,
    now: Instant,
    found: Seq<HolidayView>,
    date: Seq<char>,
)
    requires
        holidays_around(s, now, found),
        s.holidays.contains_key(date),
        s.holidays[date].holiday.date == date,
    ensures
        found.contains(s.holidays[date].holiday) <==> s.holidays[date].year == year_of(now) - 1
            || s.holidays[date].year == year_of(now) || s.holidays[date].year == year_of(now) + 1,
{
    if found.contains(s.holidays[date].holiday) {
        let k = choose|k: int| 0 <= k < found.len() && found[k] == s.holidays[date].holiday;
        assert(s.holidays.contains_key(found[k].date));
    }
}

/// Holidays are listed of the present year and of two years to either side, of one year or of some
/// in a row: the widest list has five years, and each list within one that is given is given.
pub proof fn holidays_are_listed_around_the_present(now: Instant, first: int, last: int, year: int)
    ensures
        year - 2 <= year_of(now) <= year + 2 ==> listable(now, year, year),
        listable(now, first, last) ==> first <= last && last - first <= 4,
        listable(now, first, last) && first <= year <= last ==> listable(now, first, year)
            && listable(now, year, last) && -2 <= year - year_of(now) <= 2,
        listable(now, year_of(now) - 2, year_of(now) + 2),
{
}

/// The changes of a user are counted from one: before the first the highest number is 0. There is
/// one highest number, which none of the user's events exceeds.
pub proof fn changes_are_counted_from_one(
    s: ServerView,
    user_id: Seq<char>,
    a: int,
    b: int,
    id: Seq<char>,
)
    requires
        consistent(s),
        top_sequence(s, user_id, a),
    ensures
        (forall|k: Seq<char>| #[trigger]
            s.events.contains_key(k) ==> s.events[k].user_id != user_id) ==> a == 0,
        top_sequence(s, user_id, b) ==> a == b,
        s.events.contains_key(id) && s.events[id].user_id == user_id ==> 1
            <= s.events[id].event.updated_seq <= a,
{
    if top_sequence(s, user_id, b) {
        if a != 0 {
            let i = choose|i: Seq<char>| #[trigger]
                s.events.contains_key(i) && s.events[i].user_id == user_id
                    && s.events[i].event.updated_seq == a;
            assert(s.events.contains_key(i));
        }
        if b != 0 {
            let j = choose|j: Seq<char>| #[trigger]
                s.events.contains_key(j) && s.events[j].user_id == user_id
                    && s.events[j].event.updated_seq == b;
            assert(s.events.contains_key(j));
        }
    }
}

/// A source of the right year is refused for the first of its days that does not lie in it: one
/// that is a date of another year is named, and of one that is no date it is told why.
pub proof fn a_source_is_refused_for_its_first_wrong_day(
    year: i32,
    source: HolidaySource,
    e: SourceError,
    i: int,
)
    requires
        source.year == year,
        0 <= i < source.days@.len(),
        text_year(source.days@[i].date@) != Some(year),
        forall|j: int|
            0 <= j < i ==> text_year((#[trigger] source.days@[j]).date@) == Some(year),
    ensures
        text_year(source.days@[i].date@) is Some ==> (e matches SourceError::OutsideYear(date)
            ==> (refused_for(year, source, e) <==> date@ == source.days@[i].date@)),
        e matches SourceError::InvalidDate(reason) ==> (refused_for(year, source, e) <==> (
        date_reading(source.days@[i].date@) matches Err(told) && told == reason@)),
        !(e matches SourceError::YearMismatch(_, got) && refused_for(year, source, e)),
{
    assert(first_bad_day(source, year, i));
    assert forall|k: int| first_bad_day(source, year, k) implies k == i by {
        if k < i {
            assert(text_year(source.days@[k].date@) == Some(year));
        }
        if i < k {
            assert(text_year(source.days@[i].date@) == Some(year));
        }
    }
    if let SourceError::OutsideYear(date) = e {
        if text_year(source.days@[i].date@) is Some && date@ == source.days@[i].date@ {
            assert(bad_date(source, year, i, date@));
        }
    }
    if let SourceError::InvalidDate(reason) = e {
        if let Err(told) = date_reading(source.days@[i].date@) {
            if told == reason@ {
                assert(unread_date(source, year, i, reason@));
            }
        }
    }
}

} // verus!
