//! Points in time, and the wall clock of the Asia/Shanghai zone.
//!
//! An `Instant` counts seconds from 1970-01-01T00:00:00 UTC, with nanoseconds. As in `chrono`,
//! nanoseconds from 1,000,000,000 on stand for a leap second that follows the counted second.
use crate::date::{
    date_text, day_number, days_before_year, lemma_common_beginning, lemma_date_exists,
    lemma_date_text_length, lemma_number_determines_date, lemma_smaller_pair_text,
    lemma_text_lt_extends, lemma_year_of_number, texts_order_dates, two_digits, valid_ymd, Date,
    MAX_DAY, MIN_DAY,
};
use crate::text::{
    decimal, digits_value, leading_zeros_do_not_count, lemma_decimal, lemma_text_lt_total, text_lt,
    zero_padded,
};
use vstd::prelude::*;

verus! {

/// The first and the last second that an instant can have. The instants are all those that fall on
/// a date both in UTC and in Asia/Shanghai: from the first second of the first date in UTC to the
/// last second of the last date in Asia/Shanghai.
pub const MIN_SECONDS: i64 = -8_334_601_228_800;

pub const MAX_SECONDS: i64 = 8_210_266_847_999;

/// The day number of 1970-01-01.
pub const UNIX_DAY: i32 = 719163;

/// From this instant on the zone keeps its clock eight hours ahead of UTC.
pub const LAST_CLOCK_CHANGE: i64 = 684_867_600;

/// What the zone's clock is ahead of UTC since its last change.
pub const STANDARD_OFFSET: i32 = 28_800;

/// An instant in time.
#[derive(Clone, Copy, Debug, PartialEq, Eq, Structural)]
pub struct Instant {
    seconds: i64,
    nanos: u32,
}

/// The fraction of a second as RFC 3339 text: no digits, or three, six or nine.
pub open spec fn fraction_text(nanos: int) -> Seq<char> {
    if nanos == 0 {
        Seq::empty()
    } else if nanos % 1_000_000 == 0 {
        seq!['.'] + zero_padded(decimal((nanos / 1_000_000) as nat), 3)
    } else if nanos % 1_000 == 0 {
        seq!['.'] + zero_padded(decimal((nanos / 1_000) as nat), 6)
    } else {
        seq!['.'] + zero_padded(decimal(nanos as nat), 9)
    }
}

/// A time of day as RFC 3339 text; a leap second counts on from its minute's second 59.
pub open spec fn clock_text(second_of_day: int, nanos: int) -> Seq<char> {
    let leap = if nanos >= 1_000_000_000 {
        1int
    } else {
        0int
    };
    two_digits(second_of_day / 3600) + seq![':'] + two_digits(second_of_day / 60 % 60) + seq![':']
        + two_digits(second_of_day % 60 + leap) + fraction_text(nanos - leap * 1_000_000_000)
}

/// An instant of UTC as RFC 3339 text, such as `2026-02-17T01:30:00+00:00`.
pub open spec fn instant_text(y: int, m: int, d: int, second_of_day: int, nanos: int) -> Seq<char> {
    date_text(y, m, d) + seq!['T'] + clock_text(second_of_day, nanos) + seq![
        '+',
        '0',
        '0',
        ':',
        '0',
        '0',
    ]
}

/// Whether RFC 3339 has a text of its own for these nanoseconds of this second.
pub open spec fn writable_nanos(second_of_day: int, nanos: int) -> bool {
    0 <= nanos < 1_000_000_000 || (1_000_000_000 <= nanos < 2_000_000_000 && second_of_day % 60
        == 59)
}

/// Calls `chrono`'s `Utc::now`: the seconds and nanoseconds of the system clock, which `chrono`
/// refuses before 1970 and beyond its last date.
#[verifier::external_body]
fn chrono_now() -> (r: (i64, u32))
    ensures
        0 <= r.0 <= 8_210_266_876_799,
        r.1 < 1_000_000_000,
{
    let now = chrono::Utc::now();
    (now.timestamp(), now.timestamp_subsec_nanos())
}

/// Calls `chrono`'s `DateTime::to_rfc3339` on an instant of UTC: date and time of day, a fraction
/// of three, six or nine digits where there is one, and the offset `+00:00`.
#[verifier::external_body]
fn chrono_to_rfc3339(seconds: i64, nanos: u32) -> (r: String)
    requires
        MIN_SECONDS <= seconds <= MAX_SECONDS,
        nanos < 2_000_000_000,
    ensures
        forall|y: int, m: int, d: int|
            valid_ymd(y, m, d) && #[trigger] day_number(y, m, d) == UNIX_DAY + seconds as int / 86400
                ==> r@ == instant_text(y, m, d, seconds as int % 86400, nanos as int),
{
    let whole = chrono::DateTime::from_timestamp(seconds, 0).unwrap();
    chrono::Timelike::with_nanosecond(&whole, nanos).unwrap().to_rfc3339()
}

/// What `chrono`'s `DateTime::parse_from_rfc3339` reads in a text: seconds and nanoseconds of UTC.
pub uninterp spec fn parsed_instant(s: Seq<char>) -> Option<(i64, u32)>;

/// Calls `chrono`'s `DateTime::parse_from_rfc3339`. It reads years of four digits and offsets of
/// less than a day, and the text of an instant in such a year reads back as that instant.
#[verifier::external_body]
fn chrono_parse_rfc3339(s: &str) -> (r: Option<(i64, u32)>)
    ensures
        r == parsed_instant(s@),
        r matches Some((seconds, nanos)) ==> -62_167_305_600 < seconds < 253_402_387_200 && nanos
            < 2_000_000_000,
        forall|y: int, m: int, d: int, second: int, nanos: int|
            valid_ymd(y, m, d) && 0 <= y <= 9999 && 0 <= second < 86400 && writable_nanos(
                second,
                nanos,
            ) && s@ == #[trigger] instant_text(y, m, d, second, nanos) ==> r == Some(
                (
                    ((day_number(y, m, d) - UNIX_DAY) * 86400 + second) as i64,
                    nanos as u32,
                ),
            ),
{
    let value = chrono::DateTime::parse_from_rfc3339(s).ok()?;
    Some((value.timestamp(), value.timestamp_subsec_nanos()))
}

/// How many seconds the clock of Asia/Shanghai is ahead of UTC at `seconds`, as `chrono_tz` has it.
pub uninterp spec fn shanghai_offset(seconds: i64) -> i32;

/// Calls `chrono_tz`'s `offset_from_utc_datetime` for Asia/Shanghai. Its table holds offsets from
/// eight to nine hours, and eight hours since the last change.
#[verifier::external_body]
fn zone_offset(seconds: i64) -> (r: i32)
    requires
        MIN_SECONDS <= seconds <= MAX_SECONDS,
    ensures
        r == shanghai_offset(seconds),
        28_800 <= r <= 32_400,
        seconds >= LAST_CLOCK_CHANGE ==> r == STANDARD_OFFSET,
{
    let utc = chrono::DateTime::from_timestamp(seconds, 0).unwrap().naive_utc();
    let offset = chrono::TimeZone::offset_from_utc_datetime(&chrono_tz::Asia::Shanghai, &utc);
    chrono::Offset::fix(&offset).local_minus_utc()
}

/// The one instant at which the clock of Asia/Shanghai shows `local` seconds since 1970-01-01, if
/// there is exactly one and it falls on a date in UTC, as `chrono_tz` has it.
pub uninterp spec fn shanghai_single(local: i64) -> Option<i64>;

/// Calls `chrono_tz`'s `from_local_datetime` for Asia/Shanghai and takes its single result, which
/// falls on a date in UTC. At that instant the clock shows what was asked for; after the last
/// change of the clock there is always one, eight hours before.
#[verifier::external_body]
fn zone_single(local: i64) -> (r: Option<i64>)
    requires
        MIN_SECONDS <= local <= MAX_SECONDS + STANDARD_OFFSET,
    ensures
        r == shanghai_single(local),
        r matches Some(seconds) ==> MIN_SECONDS <= seconds && seconds + shanghai_offset(seconds)
            == local && local - 32_400 <= seconds <= local - 28_800,
        local >= LAST_CLOCK_CHANGE + 32_400 ==> r == Some((local - STANDARD_OFFSET) as i64),
{
    let clock = chrono::DateTime::from_timestamp(local, 0)?.naive_utc();
    let zone = chrono_tz::Asia::Shanghai;
    chrono::TimeZone::from_local_datetime(&zone, &clock).single().map(|value| value.timestamp())
}

/// The hour and the minute that `chrono`'s `NaiveTime::parse_from_str` reads in a text with the
/// format `%H:%M`.
pub uninterp spec fn parsed_clock(s: Seq<char>) -> Option<(u32, u32)>;

/// A time of day as hour and minute, such as `09:30`.
pub open spec fn hour_minute_text(hour: int, minute: int) -> Seq<char> {
    two_digits(hour) + seq![':'] + two_digits(minute)
}

/// Calls `chrono`'s `NaiveTime::parse_from_str` with the format `%H:%M`. What it reads is a time
/// of day, and the text of a time of day reads back as that time.
#[verifier::external_body]
fn chrono_parse_clock(s: &str) -> (r: Option<(u32, u32)>)
    ensures
        r == parsed_clock(s@),
        r matches Some((hour, minute)) ==> hour < 24 && minute < 60,
        forall|hour: int, minute: int|
            0 <= hour < 24 && 0 <= minute < 60 && s@ == #[trigger] hour_minute_text(hour, minute)
                ==> r == Some((hour as u32, minute as u32)),
{
    let time = chrono::NaiveTime::parse_from_str(s, "%H:%M").ok()?;
    Some((chrono::Timelike::hour(&time), chrono::Timelike::minute(&time)))
}

/// The hour and the minute that `s` gives in the format `%H:%M`.
pub fn parse_clock(s: &str) -> (r: Option<(u32, u32)>)
    ensures
        r == parsed_clock(s@),
        r matches Some((hour, minute)) ==> hour < 24 && minute < 60,
        forall|hour: int, minute: int|
            0 <= hour < 24 && 0 <= minute < 60 && s@ == #[trigger] hour_minute_text(hour, minute)
                ==> r == Some((hour as u32, minute as u32)),
{
    chrono_parse_clock(s)
}

/// What the clock of Asia/Shanghai shows at `seconds`, in seconds since 1970-01-01.
pub open spec fn local_seconds(seconds: i64) -> int {
    seconds + shanghai_offset(seconds)
}

/// The date with day number `n`.
pub open spec fn date_of_number(n: int) -> Date {
    choose|date: Date| #[trigger] date.valid() && date.number() == n
}

/// `seconds` and `nanos` moved by some minutes: a leap second that is left counts as the first
/// second of the next minute when going back, and as second 59 when going on.
pub open spec fn moved(seconds: int, nanos: int, minutes: int) -> (int, int) {
    if minutes == 0 || nanos < 1_000_000_000 {
        (seconds + 60 * minutes, nanos)
    } else if minutes > 0 {
        (seconds + 60 * minutes, nanos - 1_000_000_000)
    } else {
        (seconds + 1 + 60 * minutes, nanos - 1_000_000_000)
    }
}

/// Whether the point in time `a` comes before `b`; both are seconds and nanoseconds.
pub open spec fn earlier(a: (int, int), b: (int, int)) -> bool {
    a.0 < b.0 || (a.0 == b.0 && a.1 < b.1)
}

impl Instant {
    #[verifier::type_invariant]
    spec fn in_range(self) -> bool {
        MIN_SECONDS <= self.seconds <= MAX_SECONDS && self.nanos < 2_000_000_000
    }

    /// The seconds since 1970-01-01T00:00:00 UTC.
    pub closed spec fn spec_seconds(&self) -> i64 {
        self.seconds
    }

    /// The nanoseconds within the second.
    pub closed spec fn spec_nanos(&self) -> u32 {
        self.nanos
    }

    /// What every instant satisfies.
    pub open spec fn valid(self) -> bool {
        MIN_SECONDS <= self.seconds() <= MAX_SECONDS && self.nanos() < 2_000_000_000
    }

    /// What every reading of the system clock satisfies: it is not before 1970, and no leap second.
    pub open spec fn of_the_clock(self) -> bool {
        self.valid() && self.seconds() >= 0 && self.nanos() < 1_000_000_000
    }

    /// Seconds and nanoseconds as a point in time.
    pub open spec fn point(self) -> (int, int) {
        (self.seconds() as int, self.nanos() as int)
    }

    /// The day number of this instant's date in Asia/Shanghai.
    pub open spec fn local_day(self) -> int {
        UNIX_DAY + local_seconds(self.seconds()) / 86400
    }

    /// The second of the day that the clock of Asia/Shanghai shows at this instant.
    pub open spec fn local_clock(self) -> int {
        local_seconds(self.seconds()) % 86400
    }

    /// The RFC 3339 text of this instant.
    pub open spec fn written(self) -> Seq<char> {
        let date = date_of_number(UNIX_DAY + self.seconds() as int / 86400);
        instant_text(
            date.year() as int,
            date.month() as int,
            date.day() as int,
            self.seconds() as int % 86400,
            self.nanos() as int,
        )
    }

    /// Whether this instant has an RFC 3339 text that reads back as this instant.
    pub open spec fn readable(self) -> bool {
        -62_167_219_200 <= self.seconds() <= 253_402_300_799 && writable_nanos(
            self.seconds() as int % 86400,
            self.nanos() as int,
        )
    }

    /// The seconds since 1970-01-01T00:00:00 UTC.
    #[verifier::when_used_as_spec(spec_seconds)]
    pub fn seconds(&self) -> (r: i64)
        ensures
            r == self.spec_seconds(),
            self.valid(),
    {
        proof {
            use_type_invariant(self);
        }
        self.seconds
    }

    /// The nanoseconds within the second.
    #[verifier::when_used_as_spec(spec_nanos)]
    pub fn nanos(&self) -> (r: u32)
        ensures
            r == self.spec_nanos(),
            self.valid(),
    {
        proof {
            use_type_invariant(self);
        }
        self.nanos
    }

    /// The instant with these seconds and nanoseconds, if there is one.
    pub fn new(seconds: i64, nanos: u32) -> (r: Option<Instant>)
        ensures
            match r {
                Some(t) => t.seconds() == seconds && t.nanos() == nanos && t.valid(),
                None => seconds < MIN_SECONDS || MAX_SECONDS < seconds || nanos >= 2_000_000_000,
            },
    {
        if seconds < MIN_SECONDS || MAX_SECONDS < seconds || nanos >= 2_000_000_000 {
            None
        } else {
            Some(Instant { seconds, nanos })
        }
    }

    /// The present instant of the system clock.
    pub fn now() -> (r: Instant)
        ensures
            r.of_the_clock(),
    {
        let (seconds, nanos) = chrono_now();
        Instant::of_clock(seconds, nanos)
    }

    /// The instant that a clock shows with these seconds and nanoseconds; beyond the last second
    /// that an instant holds, that second.
    pub fn of_clock(seconds: i64, nanos: u32) -> (r: Instant)
        requires
            seconds >= MIN_SECONDS,
            nanos < 2_000_000_000,
        ensures
            r.seconds() == (if seconds <= MAX_SECONDS {
                seconds
            } else {
                MAX_SECONDS
            }),
            r.nanos() == nanos,
            r.valid(),
    {
        if seconds > MAX_SECONDS {
            Instant { seconds: MAX_SECONDS, nanos }
        } else {
            Instant { seconds, nanos }
        }
    }

    /// Whether this instant comes before `other`.
    pub fn before(&self, other: &Instant) -> (r: bool)
        ensures
            r == earlier(self.point(), other.point()),
    {
        self.seconds < other.seconds || (self.seconds == other.seconds && self.nanos < other.nanos)
    }

    /// Whether this instant and `other` are the same.
    pub fn same(&self, other: &Instant) -> (r: bool)
        ensures
            r == (*self == *other),
            r == (self.point() == other.point()),
    {
        *self == *other
    }

    /// The instant some minutes later, or earlier when `minutes` is negative, if there is one.
    pub fn plus_minutes(&self, minutes: i64) -> (r: Option<Instant>)
        ensures
            r == shifted(*self, minutes as int),
            match r {
                Some(t) => t.valid() && t.point() == moved(
                    self.seconds() as int,
                    self.nanos() as int,
                    minutes as int,
                ),
                None => {
                    let target = moved(self.seconds() as int, self.nanos() as int, minutes as int);
                    target.0 < MIN_SECONDS || MAX_SECONDS < target.0
                },
            },
            self.valid(),
    {
        proof {
            use_type_invariant(self);
        }
        let leap: bool = minutes != 0 && self.nanos >= 1_000_000_000;
        let nanos: u32 = if leap {
            self.nanos - 1_000_000_000
        } else {
            self.nanos
        };
        let extra: i128 = if leap && minutes < 0 {
            1
        } else {
            0
        };
        let target: i128 = self.seconds as i128 + extra + 60 * (minutes as i128);
        if target < MIN_SECONDS as i128 || target > MAX_SECONDS as i128 {
            None
        } else {
            Some(Instant { seconds: target as i64, nanos })
        }
    }

    /// How many whole minutes pass from `other` to this instant, but at least one.
    pub fn minutes_since(&self, other: &Instant) -> (r: i64)
        ensures
            r == whole_minutes(*other, *self),
            r >= 1,
    {
        proof {
            use_type_invariant(self);
            use_type_invariant(other);
        }
        let clock: i64 = self.seconds.checked_rem_euclid(86400).unwrap();
        let other_clock: i64 = other.seconds.checked_rem_euclid(86400).unwrap();
        let leap: i64 = if clock > other_clock && other.nanos >= 1_000_000_000 {
            1
        } else if clock < other_clock && self.nanos >= 1_000_000_000 {
            -1
        } else {
            0
        };
        let carry: i64 = (self.nanos as i64 - other.nanos as i64).checked_div_euclid(
            1_000_000_000,
        ).unwrap();
        let seconds: i64 = self.seconds - other.seconds + leap + carry;
        let minutes: i64 = seconds.checked_div_euclid(60).unwrap();
        if minutes < 1 {
            1
        } else {
            minutes
        }
    }

    /// The date that the calendar of Asia/Shanghai shows at this instant.
    pub fn local_date(&self) -> (r: Date)
        ensures
            r.number() == self.local_day(),
            MIN_DAY <= r.number() <= MAX_DAY,
            28_800 <= shanghai_offset(self.seconds()) <= 32_400,
            self.seconds() >= LAST_CLOCK_CHANGE ==> self.local_day() == UNIX_DAY + (self.seconds()
                + STANDARD_OFFSET) / 86400,
            r.valid(),
            self.valid(),
    {
        proof {
            use_type_invariant(self);
        }
        let local: i64 = self.seconds + zone_offset(self.seconds) as i64;
        let day: i64 = local.checked_div_euclid(86400).unwrap();
        Date::from_number(UNIX_DAY as i64 + day).unwrap()
    }

    /// The day number of this instant's date in UTC.
    pub open spec fn utc_day(self) -> int {
        UNIX_DAY + self.seconds() as int / 86400
    }

    /// The date of this instant in UTC.
    pub fn utc_date(&self) -> (r: Date)
        ensures
            r.number() == self.utc_day(),
            r.valid(),
            self.valid(),
    {
        proof {
            use_type_invariant(self);
        }
        let day: i64 = self.seconds.checked_div_euclid(86400).unwrap();
        Date::from_number(UNIX_DAY as i64 + day).unwrap()
    }

    /// The second of the day that the clock of Asia/Shanghai shows at this instant.
    pub fn local_second(&self) -> (r: u32)
        ensures
            r == self.local_clock(),
            r < 86400,
            self.seconds() >= LAST_CLOCK_CHANGE ==> self.local_clock() == (self.seconds()
                + STANDARD_OFFSET) % 86400,
            self.valid(),
    {
        proof {
            use_type_invariant(self);
        }
        let local: i64 = self.seconds + zone_offset(self.seconds) as i64;
        local.checked_rem_euclid(86400).unwrap() as u32
    }

    /// The one instant at which Asia/Shanghai has this date and time of day. There is none where
    /// the zone has no such time or has it twice; since its last change it has each time once.
    pub fn from_local(date: &Date, second_of_day: u32, nanos: u32) -> (r: Option<Instant>)
        requires
            second_of_day < 86400,
            nanos < 2_000_000_000,
        ensures
            r == local_instant(date.number(), second_of_day as int, nanos as int),
            r matches Some(t) ==> t.valid() && t.local_day() == date.number() && t.local_clock()
                == second_of_day && t.nanos() == nanos,
            local_count(date.number(), second_of_day as int) >= LAST_CLOCK_CHANGE + 32_400 ==> (
            r matches Some(t) && t.seconds() == local_count(date.number(), second_of_day as int)
                - STANDARD_OFFSET),
    {
        let number: i32 = date.day_number();
        let local: i64 = (number as i64 - UNIX_DAY as i64) * 86400 + second_of_day as i64;
        assert((local as int) / 86400 == number - UNIX_DAY && (local as int) % 86400
            == second_of_day);
        match zone_single(local) {
            Some(seconds) => Some(Instant { seconds, nanos }),
            None => None,
        }
    }

    /// The RFC 3339 text of this instant.
    pub fn text(&self) -> (r: String)
        ensures
            r@ == self.written(),
            self.valid(),
    {
        proof {
            use_type_invariant(self);
        }
        let day: i64 = UNIX_DAY as i64 + self.seconds.checked_div_euclid(86400).unwrap();
        let date = Date::from_number(day).unwrap();
        proof {
            lemma_number_determines_date(date, date_of_number(day as int));
            assert(day_number(date.year() as int, date.month() as int, date.day() as int)
                == UNIX_DAY + self.seconds as int / 86400);
        }
        chrono_to_rfc3339(self.seconds, self.nanos)
    }

    /// The instant that `s` stands for in RFC 3339.
    pub fn parse(s: &str) -> (r: Option<Instant>)
        ensures
            match r {
                Some(t) => parsed_instant(s@) == Some((t.seconds(), t.nanos())) && t.valid(),
                None => parsed_instant(s@) is None,
            },
            forall|t: Instant|
                t.valid() && t.readable() && s@ == #[trigger] t.written() ==> r == Some(t),
    {
        let parsed = chrono_parse_rfc3339(s);
        proof {
            assert forall|t: Instant|
                t.valid() && t.readable() && s@ == #[trigger] t.written() implies parsed == Some(
                (t.seconds(), t.nanos()),
            ) by {
                lemma_readable_year(t);
            }
        }
        match parsed {
            Some((seconds, nanos)) => Some(Instant { seconds, nanos }),
            None => None,
        }
    }
}

/// The date with number `day` and a time of day as seconds since 1970-01-01 of the same clock.
pub open spec fn local_count(day: int, second_of_day: int) -> int {
    (day - UNIX_DAY) * 86400 + second_of_day
}

/// The instant at which Asia/Shanghai has the date with number `day` and this time of day.
pub closed spec fn local_instant(day: int, second_of_day: int, nanos: int) -> Option<Instant> {
    match shanghai_single(local_count(day, second_of_day) as i64) {
        Some(seconds) => Some(Instant { seconds, nanos: nanos as u32 }),
        None => None,
    }
}

/// A local time is an instant exactly where the zone has it once, and then that instant.
pub proof fn a_local_time_is_what_the_zone_has(day: int, second_of_day: int, nanos: u32)
    ensures
        match shanghai_single(local_count(day, second_of_day) as i64) {
            Some(seconds) => local_instant(day, second_of_day, nanos as int) matches Some(t)
                && t.seconds() == seconds && t.nanos() == nanos,
            None => local_instant(day, second_of_day, nanos as int) is None,
        },
{
}

/// The instant some minutes after `t`, or before it when `minutes` is negative, if there is one.
pub closed spec fn shifted(t: Instant, minutes: int) -> Option<Instant> {
    let target = moved(t.seconds as int, t.nanos as int, minutes);
    if target.0 < MIN_SECONDS || MAX_SECONDS < target.0 {
        None
    } else {
        Some(Instant { seconds: target.0 as i64, nanos: target.1 as u32 })
    }
}

/// A shifted instant is where it was moved to; there is one unless that is out of range.
pub proof fn shifting_moves_an_instant(t: Instant, minutes: int)
    requires
        t.valid(),
    ensures
        match shifted(t, minutes) {
            Some(u) => u.valid() && u.point() == moved(
                t.seconds() as int,
                t.nanos() as int,
                minutes,
            ),
            None => {
                let target = moved(t.seconds() as int, t.nanos() as int, minutes);
                target.0 < MIN_SECONDS || MAX_SECONDS < target.0
            },
        },
{
}

/// How many seconds pass from `a` to `b`, rounded down. A leap second counts where the time of day
/// has passed it.
pub open spec fn seconds_between(a: Instant, b: Instant) -> int {
    let clock_a = a.seconds() as int % 86400;
    let clock_b = b.seconds() as int % 86400;
    let leap = if clock_b > clock_a && a.nanos() >= 1_000_000_000 {
        1int
    } else if clock_b < clock_a && b.nanos() >= 1_000_000_000 {
        -1int
    } else {
        0int
    };
    b.seconds() - a.seconds() + leap + (b.nanos() - a.nanos()) / 1_000_000_000
}

/// How many whole minutes pass from `a` to `b`, but at least one.
pub open spec fn whole_minutes(a: Instant, b: Instant) -> int {
    let minutes = seconds_between(a, b) / 60;
    if minutes < 1 {
        1
    } else {
        minutes
    }
}

/// The date of a readable instant has a year of four digits.
proof fn lemma_readable_year(t: Instant)
    requires
        t.valid(),
        t.readable(),
    ensures
        ({
            let n = UNIX_DAY + t.seconds() as int / 86400;
            let date = date_of_number(n);
            date.valid() && date.number() == n && 0 <= date.year() <= 9999
        }),
{
    let n = UNIX_DAY + t.seconds() as int / 86400;
    assert(-365 <= n <= 3652059);
    lemma_date_exists(n);
    assert(days_before_year(0) == -366);
    assert(days_before_year(10000) == 3652059);
    lemma_year_of_number(date_of_number(n), 0, 10000);
}

/// Two instants with the same seconds and nanoseconds are the same.
pub proof fn instants_are_their_points(a: Instant, b: Instant)
    requires
        a.point() == b.point(),
    ensures
        a == b,
{
}

/// Going on by some minutes adds sixty seconds for each and nothing else, and going back by as many
/// leads to where one began. Zero minutes lead nowhere else.
pub proof fn a_shift_adds_sixty_seconds_a_minute(t: Instant, minutes: int, u: Instant)
    requires
        t.nanos() < 1_000_000_000,
        shifted(t, minutes) == Some(u),
    ensures
        u.seconds() == t.seconds() + 60 * minutes,
        u.nanos() == t.nanos(),
        t.valid() ==> shifted(u, -minutes) == Some(t),
        minutes == 0 ==> u == t,
{
}

/// The minutes from an instant to the one that is some minutes later are those minutes.
pub proof fn the_minutes_of_a_shift_are_counted(t: Instant, minutes: int, u: Instant)
    requires
        t.nanos() < 1_000_000_000,
        minutes >= 1,
        shifted(t, minutes) == Some(u),
    ensures
        whole_minutes(t, u) == minutes,
{
    a_shift_adds_sixty_seconds_a_minute(t, minutes, u);
}

/// The count of minutes is that of whole minutes of sixty seconds, and one where less has passed.
pub proof fn whole_minutes_are_sixty_seconds(a: Instant, b: Instant)
    requires
        a.nanos() < 1_000_000_000,
        b.nanos() < 1_000_000_000,
    ensures
        ({
            let passed = (b.seconds() - a.seconds()) * 1_000_000_000 + b.nanos() - a.nanos();
            let minutes = whole_minutes(a, b);
            &&& minutes >= 1
            &&& passed >= 60_000_000_000 ==> minutes * 60_000_000_000 <= passed < (minutes + 1)
                * 60_000_000_000
            &&& passed < 60_000_000_000 ==> minutes == 1
        }),
{
}

/// Of two instants the one with fewer nanoseconds since 1970 is the earlier, and of two different
/// ones exactly one is.
pub proof fn instants_are_ordered_by_time(a: Instant, b: Instant)
    requires
        a.nanos() < 1_000_000_000,
        b.nanos() < 1_000_000_000,
    ensures
        earlier(a.point(), b.point()) <==> a.seconds() * 1_000_000_000 + a.nanos() < b.seconds()
            * 1_000_000_000 + b.nanos(),
        a != b ==> (earlier(a.point(), b.point()) <==> !earlier(b.point(), a.point())),
{
}

/// Three numbers with colons between them, and something behind them.
#[verifier::opaque]
spec fn three_parts(h: int, m: int, s: int, x: Seq<char>) -> Seq<char> {
    two_digits(h) + (seq![':'] + (two_digits(m) + (seq![':'] + (two_digits(s) + x))))
}

/// A time of day without a fraction is written as hour, minute and second.
proof fn lemma_clock_parts(a: int, x: Seq<char>)
    ensures
        clock_text(a, 0) + x == three_parts(a / 3600, a / 60 % 60, a % 60, x),
{
    reveal(three_parts);
    assert(fraction_text(0) =~= Seq::<char>::empty());
    assert(clock_text(a, 0) + x =~= three_parts(a / 3600, a / 60 % 60, a % 60, x));
}

/// Of two such texts the one with the smaller first number that differs comes first.
proof fn lemma_three_parts(
    h1: int,
    m1: int,
    s1: int,
    h2: int,
    m2: int,
    s2: int,
    x: Seq<char>,
    y: Seq<char>,
)
    requires
        0 <= h1 <= h2 < 100,
        0 <= m1 < 100,
        0 <= m2 < 100,
        0 <= s1 < 100,
        0 <= s2 < 100,
        h1 < h2 || m1 < m2 || (m1 == m2 && s1 < s2),
    ensures
        text_lt(three_parts(h1, m1, s1, x), three_parts(h2, m2, s2, y)),
{
    reveal(three_parts);
    let (tail1, tail2) = (two_digits(s1) + x, two_digits(s2) + y);
    let (rest1, rest2) = (seq![':'] + tail1, seq![':'] + tail2);
    let (mid1, mid2) = (two_digits(m1) + rest1, two_digits(m2) + rest2);
    if h1 < h2 {
        lemma_smaller_pair_text(h1, seq![':'] + mid1, h2, seq![':'] + mid2);
    } else {
        lemma_common_beginning(two_digits(h1), seq![':'] + mid1, seq![':'] + mid2);
        lemma_common_beginning(seq![':'], mid1, mid2);
        if m1 < m2 {
            lemma_smaller_pair_text(m1, rest1, m2, rest2);
        } else {
            lemma_common_beginning(two_digits(m1), rest1, rest2);
            lemma_common_beginning(seq![':'], tail1, tail2);
            lemma_smaller_pair_text(s1, x, s2, y);
        }
    }
}

/// Of two times of day the earlier has the smaller first number that differs.
proof fn lemma_earlier_clock(a: int, b: int)
    requires
        0 <= a < b < 86_400,
    ensures
        0 <= a / 3600 <= b / 3600 < 24,
        0 <= a / 60 % 60 < 60 && 0 <= b / 60 % 60 < 60,
        0 <= a % 60 < 60 && 0 <= b % 60 < 60,
        a / 3600 < b / 3600 || a / 60 % 60 < b / 60 % 60 || (a / 60 % 60 == b / 60 % 60 && a % 60
            < b % 60),
{
    assert(a / 60 / 60 == a / 3600 && b / 60 / 60 == b / 3600);
    assert(a / 60 <= b / 60);
}

/// Times of day without a fraction are ordered by their texts, whatever follows.
#[verifier::spinoff_prover]
#[verifier::rlimit(60)]
proof fn lemma_earlier_clock_text(a: int, b: int, x: Seq<char>, y: Seq<char>)
    requires
        0 <= a < b < 86_400,
    ensures
        text_lt(clock_text(a, 0) + x, clock_text(b, 0) + y),
{
    lemma_clock_parts(a, x);
    lemma_clock_parts(b, y);
    lemma_earlier_clock(a, b);
    lemma_three_parts(a / 3600, a / 60 % 60, a % 60, b / 3600, b / 60 % 60, b % 60, x, y);
}

/// An earlier whole second of a year with four digits has a text that comes first.
#[verifier::spinoff_prover]
#[verifier::rlimit(60)]
proof fn lemma_earlier_instant_text(a: Instant, b: Instant)
    requires
        a.valid() && a.readable() && a.nanos() == 0,
        b.valid() && b.readable() && b.nanos() == 0,
        a.seconds() < b.seconds(),
    ensures
        text_lt(a.written(), b.written()),
{
    lemma_readable_year(a);
    lemma_readable_year(b);
    let (n1, n2) = (UNIX_DAY + a.seconds() as int / 86400, UNIX_DAY + b.seconds() as int / 86400);
    let (d1, d2) = (date_of_number(n1), date_of_number(n2));
    let (c1, c2) = (a.seconds() as int % 86400, b.seconds() as int % 86400);
    let end = seq!['+', '0', '0', ':', '0', '0'];
    lemma_date_text_length(d1.year() as int, d1.month() as int, d1.day() as int);
    lemma_date_text_length(d2.year() as int, d2.month() as int, d2.day() as int);
    let (rest1, rest2) = (clock_text(c1, 0) + end, clock_text(c2, 0) + end);
    let (t1, t2) = (
        date_text(d1.year() as int, d1.month() as int, d1.day() as int),
        date_text(d2.year() as int, d2.month() as int, d2.day() as int),
    );
    assert(a.written() =~= t1 + (seq!['T'] + rest1));
    assert(b.written() =~= t2 + (seq!['T'] + rest2));
    if n1 < n2 {
        texts_order_dates(d1, d2);
        lemma_text_lt_extends(t1, seq!['T'] + rest1, t2, seq!['T'] + rest2);
    } else {
        assert(n1 == n2 && c1 < c2);
        lemma_common_beginning(t1, seq!['T'] + rest1, seq!['T'] + rest2);
        lemma_common_beginning(seq!['T'], rest1, rest2);
        lemma_earlier_clock_text(c1, c2, end, end);
    }
}

/// Whole seconds of years with four digits are ordered by their texts as they are in time.
pub proof fn texts_order_instants(a: Instant, b: Instant)
    requires
        a.valid() && a.readable() && a.nanos() == 0,
        b.valid() && b.readable() && b.nanos() == 0,
    ensures
        text_lt(a.written(), b.written()) <==> a.seconds() < b.seconds(),
        a.written() == b.written() ==> a == b,
{
    lemma_text_lt_total(a.written(), b.written());
    if a.seconds() < b.seconds() {
        lemma_earlier_instant_text(a, b);
    } else if b.seconds() < a.seconds() {
        lemma_earlier_instant_text(b, a);
    } else {
        instants_are_their_points(a, b);
    }
}

/// The fraction of a second is written to the nanosecond: in three, six or nine digits after a
/// point, which make up all of it, or not at all where there is none.
pub proof fn a_fraction_is_written_to_the_nanosecond(nanos: int)
    requires
        0 <= nanos < 1_000_000_000,
    ensures
        ({
            let text = fraction_text(nanos);
            let digits = text.subrange(1, text.len() as int);
            &&& text.len() == 0 <==> nanos == 0
            &&& nanos > 0 ==> {
                &&& text[0] == '.'
                &&& digits.len() == 3 || digits.len() == 6 || digits.len() == 9
                &&& digits.len() == 3 ==> digits_value(digits, 10) * 1_000_000 == nanos
                &&& digits.len() == 6 ==> digits_value(digits, 10) * 1_000 == nanos
                &&& digits.len() == 9 ==> digits_value(digits, 10) == nanos
            }
        }),
{
    if nanos > 0 {
        let (n, width) = if nanos % 1_000_000 == 0 {
            (nanos / 1_000_000, 3nat)
        } else if nanos % 1_000 == 0 {
            (nanos / 1_000, 6nat)
        } else {
            (nanos, 9nat)
        };
        let s = decimal(n as nat);
        assert(fraction_text(nanos) =~= seq!['.'] + zero_padded(s, width));
        let text = fraction_text(nanos);
        assert(text.subrange(1, text.len() as int) =~= zero_padded(s, width));
        lemma_decimal(n as nat);
        leading_zeros_do_not_count(s, width);
        reveal_with_fuel(decimal, 9);
    }
}

/// No time lies between an instant and itself, also within a leap second.
pub proof fn no_time_lies_between_an_instant_and_itself(a: Instant, b: Instant)
    ensures
        seconds_between(a, a) == 0,
        a.seconds() == b.seconds() && a.nanos() <= b.nanos() < a.nanos() + 1_000_000_000
            ==> seconds_between(a, b) == 0,
        a.nanos() < 1_000_000_000 && b.nanos() < 1_000_000_000 ==> seconds_between(a, b) == (
        b.seconds() * 1_000_000_000 + b.nanos() - a.seconds() * 1_000_000_000 - a.nanos())
            / 1_000_000_000,
{
}

/// Day and time of day in China make up the seconds that are counted there; a day has 86400 of
/// them.
pub proof fn a_local_day_has_all_its_seconds(t: Instant, day: int, second: int)
    ensures
        local_count(t.local_day(), t.local_clock()) == t.seconds() + shanghai_offset(t.seconds()),
        0 <= t.local_clock() < 86400,
        local_count(day + 1, second) == local_count(day, second + 86400),
        local_count(day, second + 1) == local_count(day, second) + 1,
{
}

/// A shift from within a leap second leads to an ordinary second: forward as many minutes on as
/// are asked for, back from the second after it. Two shifts forward are the one that is as long.
pub proof fn a_shift_leaves_a_leap_second(seconds: int, nanos: int, a: int, b: int)
    requires
        1_000_000_000 <= nanos < 2_000_000_000,
        a > 0,
    ensures
        moved(seconds, nanos, a) == (seconds + a * 60, nanos - 1_000_000_000),
        moved(seconds, nanos, -a) == (seconds + 1 - a * 60, nanos - 1_000_000_000),
        moved(seconds, nanos, 0) == (seconds, nanos),
        moved(moved(seconds, nanos, a).0, moved(seconds, nanos, a).1, b) == (
            seconds + (a + b) * 60,
            nanos - 1_000_000_000,
        ),
{
}

} // verus!
