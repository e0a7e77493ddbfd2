//! Which reminders are due.
use crate::calendar::{
    event_occurs_on, lemma_date_of_number, occurrence, occurrence_start, occurs, rule_kind,
    CalendarError, ScheduleKind,
};
use crate::date::{
    lemma_date_exists, lemma_number_orders_dates, texts_order_dates, years_sort, Date, MAX_DAY,
    MIN_DAY,
};
use crate::instant::{date_of_number, earlier, moved, shanghai_offset, Instant};
use crate::models::{event_views, CalendarEvent, EventView, HolidayView};
use crate::repository::{
    answers, delivered, DeliveryKey, EventQuery, LocalRepository, RepositoryView,
};
use crate::text::{text_before, text_lt};
use vstd::prelude::*;

verus! {

/// For how many minutes a reminder stays due.
pub const GRACE_MINUTES: i64 = 5;

/// A reminder that is due: the event, the start of its occurrence, and the minutes before it.
pub type Due = (EventView, Instant, i64);

/// The views of some due reminders.
pub open spec fn due_views(due: Seq<(CalendarEvent, Instant, i64)>) -> Seq<Due> {
    Seq::new(due.len(), |i: int| (due[i].0@, due[i].1, due[i].2))
}

/// The larger of two numbers.
pub open spec fn larger(a: int, b: int) -> int {
    if a >= b {
        a
    } else {
        b
    }
}

/// The most minutes before an occurrence at which some events remind.
pub open spec fn longest_offset(offsets: Seq<i64>) -> Option<int>
    decreases offsets.len(),
{
    if offsets.len() == 0 {
        None
    } else {
        match longest_offset(offsets.drop_last()) {
            Some(most) => Some(larger(most, offsets.last() as int)),
            None => Some(offsets.last() as int),
        }
    }
}

/// All offsets of some events, one after the other.
pub open spec fn all_offsets(events: Seq<EventView>) -> Seq<i64>
    decreases events.len(),
{
    if events.len() == 0 {
        Seq::empty()
    } else {
        all_offsets(events.drop_last()) + events.last().reminder_minutes
    }
}

/// How many days ahead occurrences can remind today: what the longest offset reaches and two more,
/// at least 2 and at most 367.
pub open spec fn horizon(events: Seq<EventView>) -> int {
    let most = match longest_offset(all_offsets(events)) {
        Some(most) => most,
        None => 0,
    };
    let days = most / 1440 + 2;
    if days < 2 {
        2
    } else if days > 367 {
        367
    } else {
        days
    }
}

/// Whether all dates up to the horizon of the stored events exist at `now`.
pub open spec fn has_horizon(repository: RepositoryView, now: Instant) -> bool {
    forall|events: Seq<EventView>| #[trigger]
        answers(repository.events, EventQuery::Active, events) ==> now.local_day() + horizon(events)
            <= MAX_DAY
}

/// The longest horizon suffices for any repository: with that many dates left, all exist.
pub proof fn a_year_ahead_is_horizon_enough(repository: RepositoryView, now: Instant)
    requires
        now.local_day() + 367 <= MAX_DAY,
    ensures
        has_horizon(repository, now),
{
}

/// The dates on which an event may occur to remind now: its own when it has no rule, else those
/// from today on, up to the horizon.
pub open spec fn candidates(event: EventView, today: int, days: int) -> Seq<Date> {
    if event.recurrence_rule.len() == 0 {
        seq![date_of_number(event.start_at.local_day())]
    } else {
        Seq::new((days + 1) as nat, |i: int| date_of_number(today + i))
    }
}

/// What the holiday records from `first` to `last` say of `date`.
pub open spec fn off_between(
    holidays: Map<Seq<char>, HolidayView>,
    first: Seq<char>,
    last: Seq<char>,
    date: Seq<char>,
) -> Option<bool> {
    if holidays.contains_key(date) && !text_lt(date, first) && !text_lt(last, date) {
        Some(holidays[date].is_off_day)
    } else {
        None
    }
}

/// Whether a reminder `offset` minutes before `start` is to be given at `now`: from its time on,
/// for as long as it stays due.
pub open spec fn is_time(start: Instant, offset: i64, now: Instant) -> bool {
    let trigger = moved(start.seconds() as int, start.nanos() as int, -offset);
    !earlier(now.point(), trigger) && !earlier(
        moved(trigger.0, trigger.1, GRACE_MINUTES as int),
        now.point(),
    )
}

/// What a reminder of `event` is delivered under.
pub open spec fn delivery_key(event: EventView, start: Instant, offset: i64) -> DeliveryKey {
    (event.id, event.version, start.written(), offset)
}

/// Whether a reminder is due: it is time, and it was not delivered.
pub open spec fn is_due(
    deliveries: Map<DeliveryKey, Instant>,
    event: EventView,
    start: Instant,
    offset: i64,
    now: Instant,
) -> bool {
    is_time(start, offset, now) && !deliveries.contains_key(delivery_key(event, start, offset))
}

/// The due reminders of one occurrence, in the order of the offsets.
pub open spec fn due_of_occurrence(
    deliveries: Map<DeliveryKey, Instant>,
    event: EventView,
    start: Instant,
    offsets: Seq<i64>,
    now: Instant,
) -> Seq<Due>
    decreases offsets.len(),
{
    if offsets.len() == 0 {
        Seq::empty()
    } else {
        let earlier_ones = due_of_occurrence(deliveries, event, start, offsets.drop_last(), now);
        if is_due(deliveries, event, start, offsets.last(), now) {
            earlier_ones.push((event, start, offsets.last()))
        } else {
            earlier_ones
        }
    }
}

/// What the search for due reminders looks at.
pub struct Search {
    pub repository: RepositoryView,
    pub now: Instant,
    pub days: int,
}

impl Search {
    /// The day number of today.
    pub open spec fn today(self) -> int {
        self.now.local_day()
    }

    /// What the holiday records of the searched days say of `date`.
    pub open spec fn off(self, date: Date) -> Option<bool> {
        off_between(
            self.repository.holidays,
            date_of_number(self.today()).written(),
            date_of_number(self.today() + self.days).written(),
            date.written(),
        )
    }

    /// Whether `event` takes place on `date`, from `start` on.
    pub open spec fn begins(self, event: EventView, date: Date, start: Instant) -> bool {
        occurs(event, date, self.off(date)) && occurrence(event, date) == Some(start)
    }

    /// The due reminders of `event` on some dates, or nothing when the start of an occurrence on
    /// one of them does not exist.
    pub open spec fn due_on(self, event: EventView, dates: Seq<Date>) -> Option<Seq<Due>>
        decreases dates.len(),
    {
        if dates.len() == 0 {
            Some(Seq::empty())
        } else {
            let date = dates.last();
            match self.due_on(event, dates.drop_last()) {
                None => None,
                Some(found) => if !occurs(event, date, self.off(date)) {
                    Some(found)
                } else {
                    match occurrence(event, date) {
                        None => None,
                        Some(start) => Some(
                            found + due_of_occurrence(
                                self.repository.deliveries,
                                event,
                                start,
                                event.reminder_minutes,
                                self.now,
                            ),
                        ),
                    }
                },
            }
        }
    }

    /// The due reminders of some events.
    pub open spec fn due_of(self, events: Seq<EventView>) -> Option<Seq<Due>>
        decreases events.len(),
    {
        if events.len() == 0 {
            Some(Seq::empty())
        } else {
            let event = events.last();
            match (
                self.due_of(events.drop_last()),
                self.due_on(event, candidates(event, self.today(), self.days)),
            ) {
                (Some(found), Some(more)) => Some(found + more),
                _ => None,
            }
        }
    }
}

/// Whether `trigger` and the time that follows it hold `now`.
fn time_has_come(start: &Instant, offset: i64, now: &Instant) -> (r: bool)
    ensures
        r == is_time(*start, offset, *now),
{
    let seconds: i128 = start.seconds() as i128;
    let nanos: u32 = start.nanos();
    let now_seconds: i128 = now.seconds() as i128;
    let now_nanos: u32 = now.nanos();
    let leap: bool = offset != 0 && nanos >= 1_000_000_000;
    let trigger_nanos: u32 = if leap {
        nanos - 1_000_000_000
    } else {
        nanos
    };
    let step: i128 = if leap && offset > 0 {
        1
    } else {
        0
    };
    let trigger: i128 = seconds + step - 60 * (offset as i128);
    let end_nanos: u32 = if trigger_nanos >= 1_000_000_000 {
        trigger_nanos - 1_000_000_000
    } else {
        trigger_nanos
    };
    let end: i128 = trigger + 300;
    let early: bool = now_seconds < trigger || (now_seconds == trigger && now_nanos
        < trigger_nanos);
    let late: bool = end < now_seconds || (end == now_seconds && end_nanos < now_nanos);
    !early && !late
}

/// The most minutes before an occurrence at which `events` remind, and how many days ahead that
/// makes occurrences remind today.
fn horizon_of(events: &Vec<CalendarEvent>) -> (r: i64)
    ensures
        r == horizon(event_views(events@)),
        2 <= r <= 367,
{
    let ghost all = event_views(events@);
    let mut most: Option<i64> = None;
    let mut i: usize = 0;
    assert(all.take(0) =~= Seq::<EventView>::empty());
    while i < events.len()
        invariant
            all == event_views(events@),
            i <= events@.len(),
            longest_offset(all_offsets(all.take(i as int))) == match most {
                Some(m) => Some(m as int),
                None => None,
            },
        decreases events@.len() - i,
    {
        let ghost before = all_offsets(all.take(i as int));
        let offsets = &events[i].reminder_minutes;
        let mut k: usize = 0;
        assert(before + offsets@.take(0) =~= before);
        while k < offsets.len()
            invariant
                k <= offsets@.len(),
                longest_offset(before + offsets@.take(k as int)) == match most {
                    Some(m) => Some(m as int),
                    None => None,
                },
            decreases offsets@.len() - k,
        {
            let value: i64 = offsets[k];
            proof {
                let next = before + offsets@.take(k + 1);
                assert(next.drop_last() =~= before + offsets@.take(k as int));
                assert(next.last() == value);
            }
            most = match most {
                Some(m) => if m >= value {
                    Some(m)
                } else {
                    Some(value)
                },
                None => Some(value),
            };
            k = k + 1;
        }
        proof {
            assert(offsets@.take(offsets@.len() as int) =~= offsets@);
            assert(all.take(i + 1).drop_last() =~= all.take(i as int));
            assert(all.take(i + 1).last() == events@[i as int]@);
        }
        i = i + 1;
    }
    assert(all.take(all.len() as int) =~= all);
    let most: i64 = match most {
        Some(m) => m,
        None => 0,
    };
    let days: i64 = most.checked_div_euclid(1440).unwrap() + 2;
    if days < 2 {
        2
    } else if days > 367 {
        367
    } else {
        days
    }
}

impl LocalRepository {
    /// Adds the due reminders of one occurrence.
    fn push_due(
        &self,
        event: &CalendarEvent,
        start: Instant,
        now: &Instant,
        due: &mut Vec<(CalendarEvent, Instant, i64)>,
    )
        requires
            self.wf(),
        ensures
            due_views(final(due)@) == due_views(old(due)@) + due_of_occurrence(
                self@.deliveries,
                event@,
                start,
                event@.reminder_minutes,
                *now,
            ),
    {
        let ghost offsets = event@.reminder_minutes;
        let ghost earlier_ones = due_views(due@);
        let text = start.text();
        let mut k: usize = 0;
        assert(offsets.take(0) =~= Seq::<i64>::empty());
        assert(due_views(due@) =~= earlier_ones + Seq::<Due>::empty());
        while k < event.reminder_minutes.len()
            invariant
                self.wf(),
                offsets == event@.reminder_minutes,
                k <= offsets.len(),
                text@ == start.written(),
                due_views(due@) == earlier_ones + due_of_occurrence(
                    self@.deliveries,
                    event@,
                    start,
                    offsets.take(k as int),
                    *now,
                ),
            decreases offsets.len() - k,
        {
            let offset: i64 = event.reminder_minutes[k];
            let ghost before = due@;
            proof {
                let next = offsets.take(k + 1);
                assert(next.drop_last() =~= offsets.take(k as int));
                assert(next.last() == offset);
            }
            if time_has_come(&start, offset, now) && !self.was_delivered(
                event.id.as_str(),
                event.version,
                text.as_str(),
                offset,
            ) {
                due.push((event.clone(), start, offset));
                assert(due_views(due@) =~= due_views(before).push((event@, start, offset)));
            }
            k = k + 1;
            assert(due_views(due@) =~= earlier_ones + due_of_occurrence(
                self@.deliveries,
                event@,
                start,
                offsets.take(k as int),
                *now,
            ));
        }
        assert(offsets.take(offsets.len() as int) =~= offsets);
    }

    /// Adds the due reminders of `event` on `date`.
    fn push_due_on(
        &self,
        event: &CalendarEvent,
        date: Date,
        first: &str,
        last: &str,
        now: &Instant,
        Ghost(search): Ghost<Search>,
        due: &mut Vec<(CalendarEvent, Instant, i64)>,
    ) -> (r: Result<(), CalendarError>)
        requires
            self.wf(),
            search.repository == self@,
            search.now == *now,
            first@ == date_of_number(search.today()).written(),
            last@ == date_of_number(search.today() + search.days).written(),
        ensures
            match r {
                Ok(()) => if occurs(event@, date, search.off(date)) {
                    occurrence(event@, date) matches Some(start) && due_views(final(due)@)
                        == due_views(old(due)@) + due_of_occurrence(
                        self@.deliveries,
                        event@,
                        start,
                        event@.reminder_minutes,
                        *now,
                    )
                } else {
                    due_views(final(due)@) == due_views(old(due)@)
                },
                Err(_) => occurs(event@, date, search.off(date)) && occurrence(event@, date) is None,
            },
    {
        let text = date.text();
        let holiday = if text_before(text.as_str(), first) || text_before(last, text.as_str()) {
            None
        } else {
            self.holiday(text.as_str())
        };
        if !event_occurs_on(event, date, holiday) {
            return Ok(());
        }
        match occurrence_start(event, date) {
            Ok(start) => {
                self.push_due(event, start, now, due);
                Ok(())
            },
            Err(e) => Err(e),
        }
    }

    /// Adds the due reminders of `event`.
    fn push_due_of(
        &self,
        event: &CalendarEvent,
        today: &Date,
        days: i64,
        first: &str,
        last: &str,
        now: &Instant,
        Ghost(search): Ghost<Search>,
        due: &mut Vec<(CalendarEvent, Instant, i64)>,
    ) -> (r: Result<(), CalendarError>)
        requires
            self.wf(),
            search == (Search { repository: self@, now: *now, days: days as int }),
            2 <= days <= 367,
            today.number() == search.today(),
            MIN_DAY <= today.number() <= MAX_DAY - days,
            first@ == date_of_number(search.today()).written(),
            last@ == date_of_number(search.today() + search.days).written(),
        ensures
            ({
                let more = search.due_on(event@, candidates(event@, search.today(), search.days));
                match r {
                    Ok(()) => more is Some && due_views(final(due)@) == due_views(old(due)@)
                        + more.unwrap(),
                    Err(_) => more is None,
                }
            }),
    {
        let ghost found = due_views(due@);
        let ghost dates = candidates(event@, search.today(), days as int);
        if event.recurrence_rule.as_str().is_empty() {
            let date = event.start_at.local_date();
            proof {
                lemma_date_of_number(date);
                assert(dates.drop_last() =~= Seq::<Date>::empty());
                assert(dates.last() == date);
                assert(search.due_on(event@, dates.drop_last()) == Some(Seq::<Due>::empty()));
            }
            match self.push_due_on(event, date, first, last, now, Ghost(search), due) {
                Ok(()) => {
                    assert(due_views(due@) =~= found + search.due_on(event@, dates).unwrap());
                    Ok(())
                },
                Err(e) => Err(e),
            }
        } else {
            let mut k: i64 = 0;
            proof {
                assert(dates.take(0) =~= Seq::<Date>::empty());
                assert(due_views(due@) =~= found + Seq::<Due>::empty());
            }
            while k <= days
                invariant
                    self.wf(),
                    search == (Search { repository: self@, now: *now, days: days as int }),
                    2 <= days <= 367,
                    today.number() == search.today(),
                    MIN_DAY <= today.number() <= MAX_DAY - days,
                    first@ == date_of_number(search.today()).written(),
                    last@ == date_of_number(search.today() + search.days).written(),
                    event@.recurrence_rule.len() > 0,
                    dates == candidates(event@, search.today(), days as int),
                    dates.len() == days + 1,
                    0 <= k <= days + 1,
                    search.due_on(event@, dates.take(k as int)) is Some,
                    due_views(due@) == found + search.due_on(
                        event@,
                        dates.take(k as int),
                    ).unwrap(),
                decreases days + 1 - k,
            {
                let date = today.plus_days(k).unwrap();
                proof {
                    lemma_date_of_number(date);
                    let next = dates.take(k + 1);
                    assert(next.drop_last() =~= dates.take(k as int));
                    assert(next.last() == date);
                }
                if let Err(e) = self.push_due_on(
                    event,
                    date,
                    first,
                    last,
                    now,
                    Ghost(search),
                    due,
                ) {
                    proof {
                        lemma_failed_date_stays(search, event@, dates, k + 1);
                    }
                    return Err(e);
                }
                k = k + 1;
                proof {
                    let more = search.due_on(event@, dates.take(k as int)).unwrap();
                    assert(due_views(due@) =~= found + more);
                }
            }
            assert(dates.take(dates.len() as int) =~= dates);
            Ok(())
        }
    }

    /// The reminders that are due at `now`. It fails where an occurrence falls on a local time
    /// that the zone does not have exactly once.
    pub fn due_reminders(&self, now: Instant) -> (r: Result<
        Vec<(CalendarEvent, Instant, i64)>,
        CalendarError,
    >)
        requires
            self.wf(),
            has_horizon(self@, now),
        ensures
            exists|events: Seq<EventView>|
                {
                    let search = Search { repository: self@, now, days: horizon(events) };
                    &&& #[trigger] answers(self@.events, EventQuery::Active, events)
                    &&& match r {
                        Ok(due) => search.due_of(events) == Some(due_views(due@)),
                        Err(_) => search.due_of(events) is None,
                    }
                },
    {
        let events = self.active_events();
        let ghost all = event_views(events@);
        let days: i64 = horizon_of(&events);
        let today = now.local_date();
        let last = today.plus_days(days).unwrap();
        proof {
            lemma_date_of_number(today);
            lemma_date_of_number(last);
        }
        let first_text = today.text();
        let last_text = last.text();
        let ghost search = Search { repository: self@, now, days: days as int };
        let mut due: Vec<(CalendarEvent, Instant, i64)> = Vec::new();
        let mut i: usize = 0;
        assert(all.take(0) =~= Seq::<EventView>::empty());
        assert(due_views(due@) =~= Seq::<Due>::empty());
        while i < events.len()
            invariant
                self.wf(),
                all == event_views(events@),
                answers(self@.events, EventQuery::Active, all),
                search == (Search { repository: self@, now, days: days as int }),
                days == horizon(all),
                2 <= days <= 367,
                today.number() == search.today(),
                MIN_DAY <= today.number() <= MAX_DAY - days,
                first_text@ == date_of_number(search.today()).written(),
                last_text@ == date_of_number(search.today() + search.days).written(),
                i <= events@.len(),
                search.due_of(all.take(i as int)) == Some(due_views(due@)),
            decreases events@.len() - i,
        {
            proof {
                let next = all.take(i + 1);
                assert(next.drop_last() =~= all.take(i as int));
                assert(next.last() == events@[i as int]@);
            }
            if let Err(e) = self.push_due_of(
                &events[i],
                &today,
                days,
                first_text.as_str(),
                last_text.as_str(),
                &now,
                Ghost(search),
                &mut due,
            ) {
                proof {
                    lemma_failure_stays(search, all, i as int);
                }
                return Err(e);
            }
            i = i + 1;
        }
        assert(all.take(all.len() as int) =~= all);
        Ok(due)
    }
}

/// A search that fails on the first events fails on all.
proof fn lemma_failure_stays(search: Search, events: Seq<EventView>, i: int)
    requires
        0 <= i < events.len(),
        search.due_of(events.take(i + 1)) is None,
    ensures
        search.due_of(events) is None,
    decreases events.len(),
{
    if events.len() == i + 1 {
        assert(events.take(i + 1) =~= events);
    } else {
        let shorter = events.drop_last();
        assert(shorter.take(i + 1) =~= events.take(i + 1));
        lemma_failure_stays(search, shorter, i);
    }
}

/// A search that fails on the first dates fails on all.
proof fn lemma_failed_date_stays(search: Search, event: EventView, dates: Seq<Date>, k: int)
    requires
        0 <= k <= dates.len(),
        search.due_on(event, dates.take(k)) is None,
    ensures
        search.due_on(event, dates) is None,
    decreases dates.len(),
{
    if dates.len() == k {
        assert(dates.take(k) =~= dates);
    } else {
        let shorter = dates.drop_last();
        assert(shorter.take(k) =~= dates.take(k));
        lemma_failed_date_stays(search, event, shorter, k);
    }
}

/// What is found for one occurrence is exactly what is due of it.
pub proof fn lemma_due_of_occurrence(
    deliveries: Map<DeliveryKey, Instant>,
    event: EventView,
    start: Instant,
    offsets: Seq<i64>,
    now: Instant,
)
    ensures
        forall|offset: i64| #[trigger]
            due_of_occurrence(deliveries, event, start, offsets, now).contains(
                (event, start, offset),
            ) <==> offsets.contains(offset) && is_due(deliveries, event, start, offset, now),
        forall|i: int|
            0 <= i < due_of_occurrence(deliveries, event, start, offsets, now).len() ==> {
                let d = #[trigger] due_of_occurrence(deliveries, event, start, offsets, now)[i];
                d.0 == event && d.1 == start && offsets.contains(d.2) && is_due(
                    deliveries,
                    event,
                    start,
                    d.2,
                    now,
                )
            },
    decreases offsets.len(),
{
    let found = due_of_occurrence(deliveries, event, start, offsets, now);
    if offsets.len() > 0 {
        let shorter = offsets.drop_last();
        let last = offsets.last();
        lemma_due_of_occurrence(deliveries, event, start, shorter, now);
        let before = due_of_occurrence(deliveries, event, start, shorter, now);
        assert(offsets =~= shorter.push(last));
        assert forall|offset: i64| #[trigger] found.contains((event, start, offset))
            <==> offsets.contains(offset) && is_due(deliveries, event, start, offset, now) by {
            assert(before.contains((event, start, offset)) <==> shorter.contains(offset)
                && is_due(deliveries, event, start, offset, now));
            if found.contains((event, start, offset)) {
                let i = choose|i: int|
                    0 <= i < found.len() && found[i] == (event, start, offset);
                if i < before.len() {
                    assert(before[i] == found[i]);
                    let k = choose|k: int| 0 <= k < shorter.len() && shorter[k] == offset;
                    assert(offsets[k] == offset);
                } else {
                    assert(offsets[offsets.len() - 1] == offset);
                }
            }
            if offsets.contains(offset) && is_due(deliveries, event, start, offset, now) {
                let k = choose|k: int| 0 <= k < offsets.len() && offsets[k] == offset;
                if k < shorter.len() {
                    assert(shorter[k] == offset);
                    let i = choose|i: int|
                        0 <= i < before.len() && before[i] == (event, start, offset);
                    assert(found[i] == (event, start, offset));
                } else {
                    assert(found[found.len() - 1] == (event, start, offset));
                }
            }
        }
        assert forall|i: int| 0 <= i < found.len() implies {
            let d = #[trigger] found[i];
            d.0 == event && d.1 == start && offsets.contains(d.2) && is_due(
                deliveries,
                event,
                start,
                d.2,
                now,
            )
        } by {
            if i < before.len() {
                assert(before[i] == found[i]);
                let k = choose|k: int| 0 <= k < shorter.len() && shorter[k] == found[i].2;
                assert(offsets[k] == found[i].2);
            } else {
                assert(offsets[offsets.len() - 1] == found[i].2);
            }
        }
    }
}

/// Whether `d` is a reminder of `event` that is due: for one of its offsets, before an occurrence on
/// one of `dates`.
pub open spec fn due_reminder(search: Search, event: EventView, dates: Seq<Date>, d: Due) -> bool {
    &&& d.0 == event
    &&& event.reminder_minutes.contains(d.2)
    &&& is_due(search.repository.deliveries, event, d.1, d.2, search.now)
    &&& exists|date: Date| dates.contains(date) && #[trigger] search.begins(event, date, d.1)
}

/// What is found for an event on some dates is due.
pub proof fn lemma_due_on_is_due(search: Search, event: EventView, dates: Seq<Date>)
    ensures
        search.due_on(event, dates) matches Some(found) ==> forall|i: int|
            0 <= i < found.len() ==> due_reminder(search, event, dates, #[trigger] found[i]),
    decreases dates.len(),
{
    if dates.len() > 0 && search.due_on(event, dates) is Some {
        let found = search.due_on(event, dates).unwrap();
        let earlier_dates = dates.drop_last();
        let before = search.due_on(event, earlier_dates).unwrap();
        lemma_due_on_is_due(search, event, earlier_dates);
        assert forall|i: int| 0 <= i < found.len() implies due_reminder(
            search,
            event,
            dates,
            #[trigger] found[i],
        ) by {
            if i < before.len() {
                assert(before[i] == found[i]);
                let date = choose|date: Date|
                    earlier_dates.contains(date) && #[trigger] search.begins(
                        event,
                        date,
                        before[i].1,
                    );
                let k = choose|k: int| 0 <= k < earlier_dates.len() && earlier_dates[k] == date;
                assert(dates[k] == date);
            } else {
                let start = occurrence(event, dates.last()).unwrap();
                let here = due_of_occurrence(
                    search.repository.deliveries,
                    event,
                    start,
                    event.reminder_minutes,
                    search.now,
                );
                lemma_due_of_occurrence(
                    search.repository.deliveries,
                    event,
                    start,
                    event.reminder_minutes,
                    search.now,
                );
                assert(here[i - before.len()] == found[i]);
                assert(dates[dates.len() - 1] == dates.last());
                assert(search.begins(event, dates.last(), start));
            }
        }
    }
}

/// Every reminder that is found belongs to one of the events and to one of its offsets, stands
/// before an occurrence of the event on one of its candidate dates, has come to its time, and was
/// not delivered: a reminder is given once for each occurrence, version and offset.
pub proof fn found_reminders_are_due(search: Search, events: Seq<EventView>)
    ensures
        search.due_of(events) matches Some(found) ==> forall|i: int|
            0 <= i < found.len() ==> {
                let d = #[trigger] found[i];
                events.contains(d.0) && due_reminder(
                    search,
                    d.0,
                    candidates(d.0, search.today(), search.days),
                    d,
                )
            },
    decreases events.len(),
{
    if events.len() > 0 {
        let shorter = events.drop_last();
        let event = events.last();
        found_reminders_are_due(search, shorter);
        let dates = candidates(event, search.today(), search.days);
        lemma_due_on_is_due(search, event, dates);
        assert(events[events.len() - 1] == event);
        if let Some(found) = search.due_of(events) {
            let before = search.due_of(shorter).unwrap();
            assert forall|i: int| 0 <= i < found.len() implies {
                let d = #[trigger] found[i];
                events.contains(d.0) && due_reminder(
                    search,
                    d.0,
                    candidates(d.0, search.today(), search.days),
                    d,
                )
            } by {
                if i < before.len() {
                    assert(before[i] == found[i]);
                    let k = choose|k: int| 0 <= k < shorter.len() && shorter[k] == found[i].0;
                    assert(shorter.contains(before[i].0));
                    assert(events[k] == found[i].0);
                } else {
                    assert(search.due_on(event, dates).unwrap()[i - before.len()] == found[i]);
                }
            }
        }
    }
}

/// Every reminder that is found belongs to a stored event that is not deleted.
pub proof fn found_reminders_are_of_stored_events(search: Search, events: Seq<EventView>, i: int)
    requires
        answers(search.repository.events, EventQuery::Active, events),
        search.due_of(events) is Some,
        0 <= i < search.due_of(events).unwrap().len(),
    ensures
        ({
            let event = search.due_of(events).unwrap()[i].0;
            &&& search.repository.events.contains_key(event.id)
            &&& search.repository.events[event.id] == event
            &&& !event.deleted
        }),
{
    found_reminders_are_due(search, events);
    let found = search.due_of(events).unwrap();
    let k = choose|k: int| 0 <= k < events.len() && events[k] == found[i].0;
    assert(events.contains(found[i].0));
    assert(events[k] == found[i].0);
}

/// What is due of an occurrence on one of the dates is found.
pub proof fn lemma_due_date_is_found(
    search: Search,
    event: EventView,
    dates: Seq<Date>,
    k: int,
    offset: i64,
)
    requires
        0 <= k < dates.len(),
        occurs(event, dates[k], search.off(dates[k])),
        occurrence(event, dates[k]) is Some,
        event.reminder_minutes.contains(offset),
        is_due(
            search.repository.deliveries,
            event,
            occurrence(event, dates[k]).unwrap(),
            offset,
            search.now,
        ),
        search.due_on(event, dates) is Some,
    ensures
        search.due_on(event, dates).unwrap().contains(
            (event, occurrence(event, dates[k]).unwrap(), offset),
        ),
    decreases dates.len(),
{
    let start = occurrence(event, dates[k]).unwrap();
    let wanted = (event, start, offset);
    let found = search.due_on(event, dates).unwrap();
    let before = search.due_on(event, dates.drop_last()).unwrap();
    if k == dates.len() - 1 {
        lemma_due_of_occurrence(
            search.repository.deliveries,
            event,
            start,
            event.reminder_minutes,
            search.now,
        );
        let here = due_of_occurrence(
            search.repository.deliveries,
            event,
            start,
            event.reminder_minutes,
            search.now,
        );
        assert(here.contains(wanted));
        let i = choose|i: int| 0 <= i < here.len() && here[i] == wanted;
        assert(found[before.len() + i] == wanted);
    } else {
        assert(dates.drop_last()[k] == dates[k]);
        lemma_due_date_is_found(search, event, dates.drop_last(), k, offset);
        let i = choose|i: int| 0 <= i < before.len() && before[i] == wanted;
        assert(found[i] == wanted);
    }
}

/// Every reminder whose time has come on a candidate date, and that was not delivered, is found.
pub proof fn due_reminders_are_found(
    search: Search,
    events: Seq<EventView>,
    e: int,
    k: int,
    offset: i64,
)
    requires
        0 <= e < events.len(),
        ({
            let event = events[e];
            let dates = candidates(event, search.today(), search.days);
            &&& 0 <= k < dates.len()
            &&& occurs(event, dates[k], search.off(dates[k]))
            &&& event.reminder_minutes.contains(offset)
            &&& occurrence(event, dates[k]) matches Some(start) && is_due(
                search.repository.deliveries,
                event,
                start,
                offset,
                search.now,
            )
        }),
        search.due_of(events) is Some,
    ensures
        ({
            let event = events[e];
            let dates = candidates(event, search.today(), search.days);
            search.due_of(events).unwrap().contains(
                (event, occurrence(event, dates[k]).unwrap(), offset),
            )
        }),
    decreases events.len(),
{
    let event = events[e];
    let dates = candidates(event, search.today(), search.days);
    let wanted = (event, occurrence(event, dates[k]).unwrap(), offset);
    let found = search.due_of(events).unwrap();
    let before = search.due_of(events.drop_last()).unwrap();
    if e == events.len() - 1 {
        lemma_due_date_is_found(search, event, dates, k, offset);
        let here = search.due_on(event, dates).unwrap();
        let i = choose|i: int| 0 <= i < here.len() && here[i] == wanted;
        assert(found[before.len() + i] == wanted);
    } else {
        assert(events.drop_last()[e] == event);
        due_reminders_are_found(search, events.drop_last(), e, k, offset);
        let i = choose|i: int| 0 <= i < before.len() && before[i] == wanted;
        assert(found[i] == wanted);
    }
}

/// What the holiday records say of `date`.
pub open spec fn recorded_off(holidays: Map<Seq<char>, HolidayView>, date: Date) -> Option<bool> {
    if holidays.contains_key(date.written()) {
        Some(holidays[date.written()].is_off_day)
    } else {
        None
    }
}

/// The search sees the holiday record of a day from today to the horizon, as far as the texts of
/// the years from today to that day and from that day to the horizon are in order.
pub proof fn searched_days_have_their_records(search: Search, date: Date)
    requires
        date.valid(),
        search.today() <= date.number() <= search.today() + search.days,
        MIN_DAY <= search.today(),
        search.today() + search.days <= MAX_DAY,
        years_sort(date_of_number(search.today()).year() as int, date.year() as int),
        years_sort(date.year() as int, date_of_number(search.today() + search.days).year() as int),
    ensures
        search.off(date) == recorded_off(search.repository.holidays, date),
{
    lemma_date_exists(search.today());
    lemma_date_exists(search.today() + search.days);
    texts_order_dates(date_of_number(search.today()), date);
    texts_order_dates(date, date_of_number(search.today() + search.days));
}

/// Whether the search sees the records of all its days: the texts of their years are in order.
pub open spec fn sees_all_records(search: Search) -> bool {
    &&& 0 <= search.days
    &&& MIN_DAY <= search.today()
    &&& search.today() + search.days <= MAX_DAY
    &&& forall|date: Date| #[trigger]
        date.valid() && search.today() <= date.number() <= search.today() + search.days
            ==> years_sort(date_of_number(search.today()).year() as int, date.year() as int)
            && years_sort(
            date.year() as int,
            date_of_number(search.today() + search.days).year() as int,
        )
}

/// Every search of days in years of four digits sees all its records.
pub proof fn four_digits_see_all_records(search: Search)
    requires
        0 <= search.days,
        MIN_DAY <= search.today(),
        search.today() + search.days <= MAX_DAY,
        0 <= date_of_number(search.today()).year(),
        date_of_number(search.today() + search.days).year() <= 9999,
    ensures
        sees_all_records(search),
{
    let first = date_of_number(search.today());
    let last = date_of_number(search.today() + search.days);
    lemma_date_exists(search.today());
    lemma_date_exists(search.today() + search.days);
    assert forall|date: Date| #[trigger]
        date.valid() && search.today() <= date.number() <= search.today() + search.days implies
        years_sort(first.year() as int, date.year() as int) && years_sort(
        date.year() as int,
        last.year() as int,
    ) by {
        lemma_number_orders_dates(date, first);
        lemma_number_orders_dates(last, date);
    }
}

/// Whether `event` takes place on `date` by the stored holiday records, from `start` on.
pub open spec fn takes_place(
    repository: RepositoryView,
    event: EventView,
    date: Date,
    start: Instant,
) -> bool {
    occurs(event, date, recorded_off(repository.holidays, date)) && occurrence(event, date) == Some(
        start,
    )
}

/// An event without a rule is of the kind that takes place on one date.
proof fn lemma_no_rule(event: EventView)
    requires
        event.recurrence_rule.len() == 0,
    ensures
        rule_kind(event.recurrence_rule) == ScheduleKind::Specific,
{
    reveal_strlit("LEGAL_REST_DAY");
    reveal_strlit("LEGAL_WORKDAY");
    reveal_strlit("YEARLY_SOLAR:");
    reveal_strlit("YEARLY_LUNAR:");
    reveal_strlit("DAILY");
}

/// Every reminder that is found stands before an occurrence of its event on a day on which it takes
/// place by the stored holiday records.
pub proof fn found_reminders_follow_the_records(search: Search, events: Seq<EventView>, i: int)
    requires
        sees_all_records(search),
        search.due_of(events) is Some,
        0 <= i < search.due_of(events).unwrap().len(),
    ensures
        ({
            let d = search.due_of(events).unwrap()[i];
            exists|date: Date| #[trigger] takes_place(search.repository, d.0, date, d.1)
        }),
{
    found_reminders_are_due(search, events);
    let d = search.due_of(events).unwrap()[i];
    let event = d.0;
    let dates = candidates(event, search.today(), search.days);
    assert(due_reminder(search, event, dates, d));
    let date = choose|date: Date|
        dates.contains(date) && #[trigger] search.begins(event, date, d.1);
    if event.recurrence_rule.len() == 0 {
        lemma_no_rule(event);
    } else {
        let k = choose|k: int| 0 <= k < dates.len() && dates[k] == date;
        lemma_date_exists(search.today() + k);
        searched_days_have_their_records(search, date);
    }
    assert(takes_place(search.repository, event, date, d.1));
}

/// Of an event without a rule every due reminder is found, whatever its date.
pub proof fn reminders_of_single_events_are_found(
    search: Search,
    events: Seq<EventView>,
    e: int,
    date: Date,
    start: Instant,
    offset: i64,
)
    requires
        0 <= e < events.len(),
        events[e].recurrence_rule.len() == 0,
        date.valid(),
        takes_place(search.repository, events[e], date, start),
        events[e].reminder_minutes.contains(offset),
        is_due(search.repository.deliveries, events[e], start, offset, search.now),
        search.due_of(events) is Some,
    ensures
        search.due_of(events).unwrap().contains((events[e], start, offset)),
{
    let event = events[e];
    lemma_no_rule(event);
    lemma_date_of_number(date);
    assert(candidates(event, search.today(), search.days)[0] == date);
    due_reminders_are_found(search, events, e, 0, offset);
}

/// A reminder that was noted as delivered is not due any more; the other reminders are due as
/// before.
pub proof fn delivery_settles_one_reminder(
    repository: RepositoryView,
    event: EventView,
    start: Instant,
    offset: i64,
    at: Instant,
    now: Instant,
    other: EventView,
    other_start: Instant,
    other_offset: i64,
)
    ensures
        ({
            let after = delivered(repository, delivery_key(event, start, offset), at).deliveries;
            &&& !is_due(after, event, start, offset, now)
            &&& delivery_key(other, other_start, other_offset) != delivery_key(event, start, offset)
                ==> is_due(after, other, other_start, other_offset, now) == is_due(
                repository.deliveries,
                other,
                other_start,
                other_offset,
                now,
            )
        }),
{
}

/// A reminder is given from its time on for five minutes: `offset` minutes before the start, and
/// until five minutes after that, to the nanosecond.
pub proof fn a_reminder_stays_due_for_five_minutes(start: Instant, offset: i64, now: Instant)
    requires
        start.nanos() < 1_000_000_000,
        now.nanos() < 1_000_000_000,
    ensures
        is_time(start, offset, now) <==> {
            let begin = start.seconds() * 1_000_000_000 + start.nanos() - offset * 60_000_000_000;
            let time = now.seconds() * 1_000_000_000 + now.nanos();
            begin <= time <= begin + 300_000_000_000
        },
{
}

/// What was delivered is told apart by event, version, start and offset: a reminder that differs in
/// one of them is not taken for delivered with another.
pub proof fn deliveries_are_told_apart(
    event: EventView,
    start: Instant,
    offset: i64,
    other: EventView,
    other_start: Instant,
    other_offset: i64,
)
    ensures
        delivery_key(event, start, offset) == delivery_key(other, other_start, other_offset)
            <==> event.id == other.id && event.version == other.version && start.written()
            == other_start.written() && offset == other_offset,
{
}

/// The offsets of an event are among all offsets.
proof fn lemma_offset_listed(events: Seq<EventView>, e: int, offset: i64)
    requires
        0 <= e < events.len(),
        events[e].reminder_minutes.contains(offset),
    ensures
        all_offsets(events).contains(offset),
    decreases events.len(),
{
    let shorter = events.drop_last();
    let all = all_offsets(events);
    let before = all_offsets(shorter);
    if e == events.len() - 1 {
        let k = choose|k: int|
            0 <= k < events[e].reminder_minutes.len() && events[e].reminder_minutes[k] == offset;
        assert(all[before.len() + k] == offset);
    } else {
        assert(shorter[e] == events[e]);
        lemma_offset_listed(shorter, e, offset);
        let k = choose|k: int| 0 <= k < before.len() && before[k] == offset;
        assert(all[k] == offset);
    }
}

/// No offset is longer than the longest.
proof fn lemma_longest(offsets: Seq<i64>, offset: i64)
    requires
        offsets.contains(offset),
    ensures
        longest_offset(offsets) matches Some(most) && most >= offset,
    decreases offsets.len(),
{
    let k = choose|k: int| 0 <= k < offsets.len() && offsets[k] == offset;
    if k < offsets.len() - 1 {
        assert(offsets.drop_last()[k] == offset);
        lemma_longest(offsets.drop_last(), offset);
    }
}

/// A day whose occurrence can remind now lies within the horizon: an occurrence that begins at
/// `start` and reminds up to a year before it, at an offset of one of the events, is no more days
/// ahead than are searched. The clock of the zone is eight to nine hours ahead of UTC at both times.
pub proof fn the_horizon_reaches_every_reminder(
    events: Seq<EventView>,
    e: int,
    start: Instant,
    offset: i64,
    now: Instant,
)
    requires
        0 <= e < events.len(),
        events[e].reminder_minutes.contains(offset),
        0 <= offset <= 525_600,
        is_time(start, offset, now),
        28_800 <= shanghai_offset(start.seconds()) <= 32_400,
        28_800 <= shanghai_offset(now.seconds()) <= 32_400,
    ensures
        start.local_day() <= now.local_day() + horizon(events),
{
    lemma_offset_listed(events, e, offset);
    lemma_longest(all_offsets(events), offset);
    let there = crate::instant::local_seconds(start.seconds());
    let here = crate::instant::local_seconds(now.seconds());
    assert(start.seconds() <= now.seconds() + 60 * offset);
    assert(there <= here + 60 * offset + 3600);
    let q = offset as int / 1440;
    let r = offset as int % 1440;
    assert(offset == 1440 * q + r && 0 <= r < 1440);
    assert(60 * offset + 3600 <= 86_400 * q + 89_940);
    assert(there <= here + 86_400 * (q + 2));
    assert(there / 86_400 <= here / 86_400 + q + 2);
    let most = longest_offset(all_offsets(events)).unwrap();
    assert(most / 1440 >= q) by (nonlinear_arith)
        requires
            most >= offset,
            q == offset as int / 1440,
    ;
    assert(q <= 365);
}

/// Of a repeating event every due reminder is found: for every date from today on, on which it
/// takes place by the stored holiday records, and each of its offsets up to a year. An occurrence
/// falls on its date, and the clock of the zone is eight to nine hours ahead of UTC.
pub proof fn reminders_of_repeating_events_are_found(
    search: Search,
    events: Seq<EventView>,
    e: int,
    date: Date,
    start: Instant,
    offset: i64,
)
    requires
        0 <= e < events.len(),
        search.days == horizon(events),
        sees_all_records(search),
        events[e].recurrence_rule.len() > 0,
        date.valid(),
        date.number() >= search.today(),
        takes_place(search.repository, events[e], date, start),
        start.local_day() == date.number(),
        28_800 <= shanghai_offset(start.seconds()) <= 32_400,
        28_800 <= shanghai_offset(search.now.seconds()) <= 32_400,
        events[e].reminder_minutes.contains(offset),
        0 <= offset <= 525_600,
        is_due(search.repository.deliveries, events[e], start, offset, search.now),
        search.due_of(events) is Some,
    ensures
        search.due_of(events).unwrap().contains((events[e], start, offset)),
{
    the_horizon_reaches_every_reminder(events, e, start, offset, search.now);
    let k = date.number() - search.today();
    let dates = candidates(events[e], search.today(), search.days);
    lemma_date_of_number(date);
    assert(dates[k] == date);
    searched_days_have_their_records(search, date);
    due_reminders_are_found(search, events, e, k, offset);
}

/// A reminder is given once: one that was noted as delivered is found at no later time.
pub proof fn a_noted_reminder_is_not_found_again(
    search: Search,
    events: Seq<EventView>,
    event: EventView,
    start: Instant,
    offset: i64,
    at: Instant,
    later: Instant,
)
    ensures
        ({
            let noted = Search {
                repository: delivered(search.repository, delivery_key(event, start, offset), at),
                now: later,
                days: search.days,
            };
            noted.due_of(events) matches Some(found) ==> !found.contains((event, start, offset))
        }),
{
    let noted = Search {
        repository: delivered(search.repository, delivery_key(event, start, offset), at),
        now: later,
        days: search.days,
    };
    found_reminders_are_due(noted, events);
    if let Some(found) = noted.due_of(events) {
        if found.contains((event, start, offset)) {
            let i = choose|i: int| 0 <= i < found.len() && found[i] == (event, start, offset);
            assert(due_reminder(
                noted,
                found[i].0,
                candidates(found[i].0, noted.today(), noted.days),
                found[i],
            ));
        }
    }
}

} // verus!
