//! The records that the calendar keeps and exchanges.
use crate::instant::Instant;
use vstd::prelude::*;

verus! {

/// A calendar event.
#[derive(Debug, PartialEq)]
pub struct CalendarEvent {
    pub id: String,
    pub title: String,
    pub notes: String,
    pub location: String,
    pub start_at: Instant,
    pub end_at: Instant,
    pub timezone: String,
    pub all_day: bool,
    pub color: String,
    pub recurrence_rule: String,
    pub reminder_minutes: Vec<i64>,
    pub force_reminder: bool,
    pub completed: bool,
    pub deleted: bool,
    pub version: i64,
    pub updated_seq: i64,
    pub updated_at: Instant,
}

/// What an event holds.
#[verifier::ext_equal]
pub struct EventView {
    pub id: Seq<char>,
    pub title: Seq<char>,
    pub notes: Seq<char>,
    pub location: Seq<char>,
    pub start_at: Instant,
    pub end_at: Instant,
    pub timezone: Seq<char>,
    pub all_day: bool,
    pub color: Seq<char>,
    pub recurrence_rule: Seq<char>,
    pub reminder_minutes: Seq<i64>,
    pub force_reminder: bool,
    pub completed: bool,
    pub deleted: bool,
    pub version: i64,
    pub updated_seq: i64,
    pub updated_at: Instant,
}

impl View for CalendarEvent {
    type V = EventView;

    open spec fn view(&self) -> EventView {
        EventView {
            id: self.id@,
            title: self.title@,
            notes: self.notes@,
            location: self.location@,
            start_at: self.start_at,
            end_at: self.end_at,
            timezone: self.timezone@,
            all_day: self.all_day,
            color: self.color@,
            recurrence_rule: self.recurrence_rule@,
            reminder_minutes: self.reminder_minutes@,
            force_reminder: self.force_reminder,
            completed: self.completed,
            deleted: self.deleted,
            version: self.version,
            updated_seq: self.updated_seq,
            updated_at: self.updated_at,
        }
    }
}

/// A copy of a list of numbers.
pub fn copy_numbers(v: &Vec<i64>) -> (r: Vec<i64>)
    ensures
        r@ == v@,
{
    let mut r: Vec<i64> = Vec::new();
    let mut i: usize = 0;
    while i < v.len()
        invariant
            i <= v@.len(),
            r@ == v@.take(i as int),
        decreases v@.len() - i,
    {
        r.push(v[i]);
        i = i + 1;
    }
    r
}

impl Clone for CalendarEvent {
    fn clone(&self) -> (r: Self)
        ensures
            r@ == self@,
    {
        CalendarEvent {
            id: self.id.clone(),
            title: self.title.clone(),
            notes: self.notes.clone(),
            location: self.location.clone(),
            start_at: self.start_at,
            end_at: self.end_at,
            timezone: self.timezone.clone(),
            all_day: self.all_day,
            color: self.color.clone(),
            recurrence_rule: self.recurrence_rule.clone(),
            reminder_minutes: copy_numbers(&self.reminder_minutes),
            force_reminder: self.force_reminder,
            completed: self.completed,
            deleted: self.deleted,
            version: self.version,
            updated_seq: self.updated_seq,
            updated_at: self.updated_at,
        }
    }
}

/// The views of a list of events.
pub open spec fn event_views(events: Seq<CalendarEvent>) -> Seq<EventView> {
    Seq::new(events.len(), |i: int| events[i]@)
}

/// The time zone of an event that names none.
pub fn default_timezone() -> (r: String)
    ensures
        r@ == "Asia/Shanghai"@,
{
    "Asia/Shanghai".to_owned()
}

/// The color of an event that names none.
pub fn default_color() -> (r: String)
    ensures
        r@ == "#6878d6"@,
{
    "#6878d6".to_owned()
}

/// The reminders of an event that names none: one at its start.
pub fn default_reminders() -> (r: Vec<i64>)
    ensures
        r@ == seq![0i64],
{
    let mut r: Vec<i64> = Vec::new();
    r.push(0);
    r
}

/// A lower-case hexadecimal digit.
pub open spec fn hex_digit(c: char) -> bool {
    48 <= c as int <= 57 || 97 <= c as int <= 102
}

/// The shape of a UUID in its hyphenated form.
pub open spec fn hyphenated(s: Seq<char>) -> bool {
    s.len() == 36 && forall|i: int|
        0 <= i < 36 ==> if i == 8 || i == 13 || i == 18 || i == 23 {
            #[trigger] s[i] == '-'
        } else {
            hex_digit(s[i])
        }
}

/// Calls `uuid`'s `Uuid::new_v4` and writes the result: a random UUID in its hyphenated form.
#[verifier::external_body]
pub(crate) fn fresh_id() -> (r: String)
    ensures
        hyphenated(r@),
{
    uuid::Uuid::new_v4().to_string()
}

/// An event that has nothing but an identity and a time span yet.
pub open spec fn draft_view(
    id: Seq<char>,
    start_at: Instant,
    end_at: Instant,
    updated_at: Instant,
) -> EventView {
    EventView {
        id,
        title: Seq::empty(),
        notes: Seq::empty(),
        location: Seq::empty(),
        start_at,
        end_at,
        timezone: "Asia/Shanghai"@,
        all_day: false,
        color: "#6878d6"@,
        recurrence_rule: Seq::empty(),
        reminder_minutes: seq![0i64],
        force_reminder: false,
        completed: false,
        deleted: false,
        version: 0,
        updated_seq: 0,
        updated_at,
    }
}

impl CalendarEvent {
    /// A new event over a time span, with an identity of its own.
    pub fn draft(start_at: Instant, end_at: Instant) -> (r: Self)
        ensures
            hyphenated(r.id@),
            r.updated_at.of_the_clock(),
            r@ == draft_view(r.id@, start_at, end_at, r.updated_at),
    {
        CalendarEvent::draft_with(fresh_id(), start_at, end_at, Instant::now())
    }

    /// A new event with the identity `id`, made at `now`.
    pub fn draft_with(id: String, start_at: Instant, end_at: Instant, now: Instant) -> (r: Self)
        ensures
            r@ == draft_view(id@, start_at, end_at, now),
    {
        CalendarEvent {
            id,
            title: String::new(),
            notes: String::new(),
            location: String::new(),
            start_at,
            end_at,
            timezone: default_timezone(),
            all_day: false,
            color: default_color(),
            recurrence_rule: String::new(),
            reminder_minutes: default_reminders(),
            force_reminder: false,
            completed: false,
            deleted: false,
            version: 0,
            updated_seq: 0,
            updated_at: now,
        }
    }
}

/// A day that the law makes a rest day, or a workday in spite of the weekday.
#[derive(Debug)]
pub struct Holiday {
    pub date: String,
    pub name: String,
    pub is_off_day: bool,
    pub source_url: String,
}

/// What a holiday record holds.
#[verifier::ext_equal]
pub struct HolidayView {
    pub date: Seq<char>,
    pub name: Seq<char>,
    pub is_off_day: bool,
    pub source_url: Seq<char>,
}

impl View for Holiday {
    type V = HolidayView;

    open spec fn view(&self) -> HolidayView {
        HolidayView {
            date: self.date@,
            name: self.name@,
            is_off_day: self.is_off_day,
            source_url: self.source_url@,
        }
    }
}

impl Clone for Holiday {
    fn clone(&self) -> (r: Self)
        ensures
            r@ == self@,
    {
        Holiday {
            date: self.date.clone(),
            name: self.name.clone(),
            is_off_day: self.is_off_day,
            source_url: self.source_url.clone(),
        }
    }
}

/// The views of a list of holidays.
pub open spec fn holiday_views(holidays: Seq<Holiday>) -> Seq<HolidayView> {
    Seq::new(holidays.len(), |i: int| holidays[i]@)
}

/// Who uses the calendar.
#[derive(Debug)]
pub struct UserProfile {
    pub id: String,
    pub email: String,
    pub display_name: String,
}

/// What a profile holds.
#[verifier::ext_equal]
pub struct ProfileView {
    pub id: Seq<char>,
    pub email: Seq<char>,
    pub display_name: Seq<char>,
}

impl View for UserProfile {
    type V = ProfileView;

    open spec fn view(&self) -> ProfileView {
        ProfileView { id: self.id@, email: self.email@, display_name: self.display_name@ }
    }
}

impl Clone for UserProfile {
    fn clone(&self) -> (r: Self)
        ensures
            r@ == self@,
    {
        UserProfile {
            id: self.id.clone(),
            email: self.email.clone(),
            display_name: self.display_name.clone(),
        }
    }
}

/// What a sign-in gives: a session token and whose it is.
#[derive(Clone, Debug)]
pub struct AuthData {
    pub token: String,
    pub user: UserProfile,
}

/// What every answer of the server is wrapped in; code 0 means success.
#[derive(Clone, Debug)]
pub struct ApiEnvelope<T> {
    pub code: i32,
    pub message: String,
    pub data: T,
}

/// What changed on the server since a cursor.
#[derive(Clone, Debug)]
pub struct SyncPullData {
    pub events: Vec<CalendarEvent>,
    pub holidays: Vec<Holiday>,
    pub cursor: i64,
}

/// A new event takes place, is not done, repeats never and reminds at its start; it has the time
/// span that it was made with, and no version of the server yet.
pub proof fn a_draft_is_an_open_event(
    id: Seq<char>,
    start_at: Instant,
    end_at: Instant,
    updated_at: Instant,
)
    ensures
        ({
            let draft = draft_view(id, start_at, end_at, updated_at);
            &&& draft.id == id
            &&& draft.start_at == start_at
            &&& draft.end_at == end_at
            &&& draft.updated_at == updated_at
            &&& !draft.deleted && !draft.completed && !draft.all_day && !draft.force_reminder
            &&& draft.title.len() == 0 && draft.notes.len() == 0 && draft.location.len() == 0
            &&& draft.recurrence_rule.len() == 0
            &&& draft.reminder_minutes == seq![0i64]
            &&& draft.version == 0 && draft.updated_seq == 0
        }),
{
}

} // verus!
