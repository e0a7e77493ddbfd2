//! The events, holidays, settings and delivered reminders of one device.
use crate::instant::{texts_order_instants, Instant};
use crate::models::{event_views, holiday_views, CalendarEvent, EventView, Holiday, HolidayView};
use crate::order::{in_order, order_by, ranks_before};
use crate::table::{
    as_map, distinct_keys, has_key, lemma_push_row, lemma_remove_row, lemma_row_in_map, Table,
};
use crate::text::{lemma_text_lt_total, same_text, text_before, text_lt, views};
use vstd::prelude::*;

verus! {

/// What identifies a delivered reminder: event, version, start of the occurrence, and minutes
/// before it.
pub type DeliveryKey = (Seq<char>, i64, Seq<char>, i64);

/// A reminder that was delivered.
#[derive(Debug)]
struct Delivery {
    event_id: String,
    event_version: i64,
    occurrence_at: String,
    offset_minutes: i64,
    delivered_at: Instant,
}

/// What a repository holds.
#[verifier::ext_equal]
pub struct RepositoryView {
    pub events: Map<Seq<char>, EventView>,
    pub holidays: Map<Seq<char>, HolidayView>,
    pub settings: Map<Seq<char>, Seq<char>>,
    pub deliveries: Map<DeliveryKey, Instant>,
}

/// Events by identity, holidays by date, settings by key, and the reminders delivered so far.
#[derive(Debug)]
pub struct LocalRepository {
    events: Table<CalendarEvent>,
    holidays: Table<Holiday>,
    settings: Table<String>,
    deliveries: Vec<Delivery>,
}

/// A query for events.
#[derive(Clone, Copy, Debug, PartialEq, Eq, Structural)]
pub enum EventQuery {
    /// Events that are not deleted and overlap the time from the first instant to the second.
    Between(Instant, Instant),
    /// Events that the server has not seen yet.
    Pending,
    /// Events that are not deleted.
    Active,
    /// All events.
    All,
}

/// Whether a query asks for `event`. Instants compare as their texts do.
pub open spec fn asks_for(query: EventQuery, event: EventView) -> bool {
    match query {
        EventQuery::Between(start, end) => !event.deleted && text_lt(
            event.start_at.written(),
            end.written(),
        ) && !text_lt(event.end_at.written(), start.written()),
        EventQuery::Pending => event.updated_seq == 0,
        EventQuery::Active => !event.deleted,
        EventQuery::All => true,
    }
}

/// What a query orders `event` by.
pub open spec fn sort_key(query: EventQuery, event: EventView) -> Seq<char> {
    match query {
        EventQuery::Pending => event.updated_at.written(),
        _ => event.start_at.written(),
    }
}

/// Whether `found` answers a query: exactly the events it asks for, each once, in the order of
/// their sort keys.
pub open spec fn answers(
    events: Map<Seq<char>, EventView>,
    query: EventQuery,
    found: Seq<EventView>,
) -> bool {
    &&& forall|i: int|
        0 <= i < found.len() ==> {
            let e = #[trigger] found[i];
            events.contains_key(e.id) && events[e.id] == e && asks_for(query, e)
        }
    &&& forall|id: Seq<char>| #[trigger]
        events.contains_key(id) && asks_for(query, events[id]) ==> found.contains(events[id])
    &&& forall|i: int, j: int|
        0 <= i < j < found.len() ==> (#[trigger] found[i]).id != (#[trigger] found[j]).id
            && !text_lt(sort_key(query, found[j]), sort_key(query, found[i]))
}

/// Whether `found` are the holidays from `start` to `end`, each once, in the order of their dates.
pub open spec fn holidays_in(
    holidays: Map<Seq<char>, HolidayView>,
    start: Seq<char>,
    end: Seq<char>,
    found: Seq<HolidayView>,
) -> bool {
    &&& forall|i: int|
        0 <= i < found.len() ==> {
            let h = #[trigger] found[i];
            holidays.contains_key(h.date) && holidays[h.date] == h && !text_lt(h.date, start)
                && !text_lt(end, h.date)
        }
    &&& forall|date: Seq<char>| #[trigger]
        holidays.contains_key(date) && !text_lt(date, start) && !text_lt(end, date)
            ==> found.contains(holidays[date])
    &&& forall|i: int, j: int|
        0 <= i < j < found.len() ==> text_lt((#[trigger] found[i]).date, (#[trigger] found[j]).date)
}

/// Deliveries without those of the event `id`.
pub open spec fn without_event(
    deliveries: Map<DeliveryKey, Instant>,
    id: Seq<char>,
) -> Map<DeliveryKey, Instant> {
    Map::new(
        |k: DeliveryKey| deliveries.contains_key(k) && k.0 != id,
        |k: DeliveryKey| deliveries[k],
    )
}

/// Holidays after some records were put in, one after the other.
pub open spec fn with_holidays(
    holidays: Map<Seq<char>, HolidayView>,
    records: Seq<HolidayView>,
) -> Map<Seq<char>, HolidayView>
    decreases records.len(),
{
    if records.len() == 0 {
        holidays
    } else {
        with_holidays(holidays, records.drop_last()).insert(records.last().date, records.last())
    }
}

/// An event as it stands after its deletion on this device.
pub open spec fn tombstone(event: EventView, now: Instant) -> EventView {
    EventView { deleted: true, updated_seq: 0, updated_at: now, ..event }
}

/// The views of the events in a table.
pub open spec fn event_map(m: Map<Seq<char>, CalendarEvent>) -> Map<Seq<char>, EventView> {
    m.map_values(|e: CalendarEvent| e@)
}

/// The views of the holidays in a table.
pub open spec fn holiday_map(m: Map<Seq<char>, Holiday>) -> Map<Seq<char>, HolidayView> {
    m.map_values(|h: Holiday| h@)
}

/// The texts in a table.
pub open spec fn text_map(m: Map<Seq<char>, String>) -> Map<Seq<char>, Seq<char>> {
    m.map_values(|s: String| s@)
}

/// Whether every record stands under its own identity.
spec fn events_under_ids(rows: Seq<(Seq<char>, CalendarEvent)>) -> bool {
    forall|i: int| 0 <= i < rows.len() ==> (#[trigger] rows[i]).1.id@ == rows[i].0
}

/// Whether every record stands under its own date.
spec fn holidays_under_dates(rows: Seq<(Seq<char>, Holiday)>) -> bool {
    forall|i: int| 0 <= i < rows.len() ==> (#[trigger] rows[i]).1.date@ == rows[i].0
}

impl EventQuery {
    /// Whether this query asks for `event`.
    fn wants(&self, event: &CalendarEvent) -> (r: bool)
        ensures
            r == asks_for(*self, event@),
    {
        match self {
            EventQuery::Between(start, end) => !event.deleted && text_before(
                event.start_at.text().as_str(),
                end.text().as_str(),
            ) && !text_before(event.end_at.text().as_str(), start.text().as_str()),
            EventQuery::Pending => event.updated_seq == 0,
            EventQuery::Active => !event.deleted,
            EventQuery::All => true,
        }
    }

    /// What this query orders `event` by.
    fn key_of(&self, event: &CalendarEvent) -> (r: String)
        ensures
            r@ == sort_key(*self, event@),
    {
        match self {
            EventQuery::Pending => event.updated_at.text(),
            _ => event.start_at.text(),
        }
    }
}

impl LocalRepository {
    /// The delivered reminders, in the order of delivery.
    closed spec fn delivery_rows(&self) -> Seq<(DeliveryKey, Instant)> {
        Seq::new(
            self.deliveries@.len(),
            |i: int|
                {
                    let d = self.deliveries@[i];
                    (
                        (d.event_id@, d.event_version, d.occurrence_at@, d.offset_minutes),
                        d.delivered_at,
                    )
                },
        )
    }

    /// What every repository satisfies: no key occurs twice, and every record stands under its
    /// own key.
    pub closed spec fn wf(&self) -> bool {
        &&& self.events.wf()
        &&& self.holidays.wf()
        &&& self.settings.wf()
        &&& events_under_ids(self.events.rows())
        &&& holidays_under_dates(self.holidays.rows())
        &&& distinct_keys(self.delivery_rows())
    }
}

impl View for LocalRepository {
    type V = RepositoryView;

    closed spec fn view(&self) -> RepositoryView {
        RepositoryView {
            events: event_map(self.events.map()),
            holidays: holiday_map(self.holidays.map()),
            settings: text_map(self.settings.map()),
            deliveries: as_map(self.delivery_rows()),
        }
    }
}

/// Where records stand under their identities, so do those of the map.
proof fn lemma_events_under_ids(rows: Seq<(Seq<char>, CalendarEvent)>)
    requires
        distinct_keys(rows),
        events_under_ids(rows),
    ensures
        forall|id: Seq<char>| #[trigger]
            as_map(rows).contains_key(id) ==> as_map(rows)[id].id@ == id,
{
    assert forall|id: Seq<char>| #[trigger] as_map(rows).contains_key(id) implies as_map(
        rows,
    )[id].id@ == id by {
        let i = choose|i: int| 0 <= i < rows.len() && (#[trigger] rows[i]).0 == id;
        lemma_row_in_map(rows, i);
    }
}

/// The rows that a query asks for, put in the order of their sort keys, answer it.
proof fn lemma_ordered_rows_answer(
    rows: Seq<(Seq<char>, CalendarEvent)>,
    query: EventQuery,
    chosen: Seq<usize>,
    keys: Seq<Seq<char>>,
    order: Seq<usize>,
    found: Seq<EventView>,
)
    requires
        distinct_keys(rows),
        events_under_ids(rows),
        rows.len() <= usize::MAX,
        chosen.len() <= usize::MAX,
        keys.len() == chosen.len(),
        found.len() == chosen.len(),
        in_order(keys, order),
        forall|i: int|
            0 <= i < chosen.len() ==> (#[trigger] chosen[i]) < rows.len() && asks_for(
                query,
                rows[chosen[i] as int].1@,
            ) && keys[i] == sort_key(query, rows[chosen[i] as int].1@),
        forall|i: int, j: int|
            0 <= i < j < chosen.len() ==> (#[trigger] chosen[i]) < (#[trigger] chosen[j]),
        forall|k: usize|
            k < rows.len() && asks_for(query, (#[trigger] rows[k as int]).1@) ==> chosen.contains(k),
        forall|i: int|
            0 <= i < found.len() ==> #[trigger] found[i] == rows[chosen[order[i] as int] as int].1@,
    ensures
        answers(event_map(as_map(rows)), query, found),
{
    let events = event_map(as_map(rows));
    assert forall|i: int| 0 <= i < found.len() implies {
        let e = #[trigger] found[i];
        events.contains_key(e.id) && events[e.id] == e && asks_for(query, e)
    } by {
        let at = chosen[order[i] as int] as int;
        lemma_row_in_map(rows, at);
    }
    assert forall|id: Seq<char>| #[trigger] events.contains_key(id) && asks_for(
        query,
        events[id],
    ) implies found.contains(events[id]) by {
        let k = choose|k: int| 0 <= k < rows.len() && (#[trigger] rows[k]).0 == id;
        lemma_row_in_map(rows, k);
        assert(asks_for(query, rows[(k as usize) as int].1@));
        let c = choose|c: int| 0 <= c < chosen.len() && chosen[c] == k as usize;
        assert(order.contains(c as usize));
        let o = choose|o: int| 0 <= o < order.len() && order[o] == c as usize;
        assert(found[o] == events[id]);
    }
    assert forall|i: int, j: int| 0 <= i < j < found.len() implies (#[trigger] found[i]).id != (
    #[trigger] found[j]).id && !text_lt(sort_key(query, found[j]), sort_key(query, found[i])) by {
        assert(ranks_before(keys, order[i], order[j]));
        lemma_text_lt_total(keys[order[i] as int], keys[order[j] as int]);
        lemma_text_lt_total(keys[order[i] as int], keys[order[i] as int]);
        let a = order[i];
        let b = order[j];
        assert(a != b);
        if a < b {
            assert(chosen[a as int] < chosen[b as int]);
        } else {
            assert(chosen[b as int] < chosen[a as int]);
        }
        assert(rows[chosen[a as int] as int].0 != rows[chosen[b as int] as int].0);
    }
}

/// What a read of the event `id` gives.
pub open spec fn read_event(repository: RepositoryView, id: Seq<char>) -> Option<EventView> {
    if repository.events.contains_key(id) {
        Some(repository.events[id])
    } else {
        None
    }
}

/// A repository after `event` was stored.
pub open spec fn stored(repository: RepositoryView, event: EventView) -> RepositoryView {
    RepositoryView { events: repository.events.insert(event.id, event), ..repository }
}

/// A repository after the event `id` and all that was delivered of it were purged.
pub open spec fn purged(repository: RepositoryView, id: Seq<char>) -> RepositoryView {
    RepositoryView {
        events: repository.events.remove(id),
        deliveries: without_event(repository.deliveries, id),
        ..repository
    }
}

/// A repository after a reminder was noted as delivered; the first note of a reminder stays.
pub open spec fn delivered(
    repository: RepositoryView,
    key: DeliveryKey,
    at: Instant,
) -> RepositoryView {
    if repository.deliveries.contains_key(key) {
        repository
    } else {
        RepositoryView { deliveries: repository.deliveries.insert(key, at), ..repository }
    }
}

/// A repository after the setting `key` got `value`.
pub open spec fn configured(
    repository: RepositoryView,
    key: Seq<char>,
    value: Seq<char>,
) -> RepositoryView {
    RepositoryView { settings: repository.settings.insert(key, value), ..repository }
}

impl LocalRepository {
    /// An empty repository.
    pub fn new() -> (r: Self)
        ensures
            r.wf(),
            r@.events == Map::<Seq<char>, EventView>::empty(),
            r@.holidays == Map::<Seq<char>, HolidayView>::empty(),
            r@.settings == Map::<Seq<char>, Seq<char>>::empty(),
            r@.deliveries == Map::<DeliveryKey, Instant>::empty(),
    {
        let r = LocalRepository {
            events: Table::new(),
            holidays: Table::new(),
            settings: Table::new(),
            deliveries: Vec::new(),
        };
        assert(r.delivery_rows() =~= Seq::<(DeliveryKey, Instant)>::empty());
        assert(r@.events =~= Map::<Seq<char>, EventView>::empty());
        assert(r@.holidays =~= Map::<Seq<char>, HolidayView>::empty());
        assert(r@.settings =~= Map::<Seq<char>, Seq<char>>::empty());
        assert(r@.deliveries =~= Map::<DeliveryKey, Instant>::empty());
        r
    }

    /// Stores `event`, in place of the event with the same identity.
    pub fn upsert_event(&mut self, event: &CalendarEvent)
        requires
            old(self).wf(),
        ensures
            final(self).wf(),
            final(self)@ == stored(old(self)@, event@),
    {
        let ghost before = self.events;
        let copy = event.clone();
        let ghost value = copy;
        self.events.put(event.id.as_str(), copy);
        proof {
            lemma_put_event(before, self.events, value);
            assert(self@.events =~= event_map(before.map()).insert(event@.id, event@));
            assert(self.delivery_rows() =~= old(self).delivery_rows());
            assert(self@ =~= stored(old(self)@, event@));
        }
    }

    /// The event `id`.
    pub fn event(&self, id: &str) -> (r: Option<CalendarEvent>)
        requires
            self.wf(),
        ensures
            match r {
                Some(event) => read_event(self@, id@) == Some(event@) && event@.id == id@,
                None => read_event(self@, id@) is None,
            },
    {
        proof {
            lemma_events_under_ids(self.events.rows());
        }
        match self.events.get(id) {
            Some(event) => Some(event.clone()),
            None => None,
        }
    }

    /// The answer to a query.
    pub fn select(&self, query: EventQuery) -> (r: Vec<CalendarEvent>)
        requires
            self.wf(),
        ensures
            answers(self@.events, query, event_views(r@)),
    {
        let n: usize = self.events.len();
        let ghost rows = self.events.rows();
        let mut chosen: Vec<usize> = Vec::new();
        let mut keys: Vec<String> = Vec::new();
        let mut i: usize = 0;
        while i < n
            invariant
                n == rows.len(),
                rows == self.events.rows(),
                i <= n,
                keys@.len() == chosen@.len(),
                forall|k: int|
                    0 <= k < chosen@.len() ==> (#[trigger] chosen@[k]) < i && asks_for(
                        query,
                        rows[chosen@[k] as int].1@,
                    ) && keys@[k]@ == sort_key(query, rows[chosen@[k] as int].1@),
                forall|a: int, b: int|
                    0 <= a < b < chosen@.len() ==> (#[trigger] chosen@[a]) < (#[trigger] chosen@[b]),
                forall|k: usize|
                    k < i && asks_for(query, (#[trigger] rows[k as int]).1@) ==> chosen@.contains(k),
            decreases n - i,
        {
            let event = self.events.value_at(i);
            let ghost before = chosen@;
            if query.wants(event) {
                chosen.push(i);
                keys.push(query.key_of(event));
                assert(chosen@[before.len() as int] == i);
            }
            proof {
                assert forall|k: usize|
                    k < i + 1 && asks_for(
                        query,
                        (#[trigger] rows[k as int]).1@,
                    ) implies chosen@.contains(k) by {
                    if k < i {
                        let at = choose|at: int| 0 <= at < before.len() && before[at] == k;
                        assert(before.contains(k));
                        assert(chosen@[at] == k);
                    }
                }
            }
            i = i + 1;
        }
        let order = order_by(&keys);
        let mut r: Vec<CalendarEvent> = Vec::new();
        let mut k: usize = 0;
        while k < order.len()
            invariant
                n == rows.len(),
                rows == self.events.rows(),
                k <= order@.len(),
                r@.len() == k,
                in_order(views(keys@), order@),
                keys@.len() == chosen@.len(),
                forall|j: int| 0 <= j < chosen@.len() ==> (#[trigger] chosen@[j]) < n,
                forall|j: int|
                    0 <= j < k ==> (#[trigger] r@[j])@ == rows[chosen@[order@[j] as int] as int].1@,
            decreases order@.len() - k,
        {
            r.push(self.events.value_at(chosen[order[k]]).clone());
            k = k + 1;
        }
        proof {
            lemma_ordered_rows_answer(
                rows,
                query,
                chosen@,
                views(keys@),
                order@,
                event_views(r@),
            );
        }
        r
    }

    /// The events that are not deleted and overlap the time from `start` to `end`.
    pub fn events_between(&self, start: Instant, end: Instant) -> (r: Vec<CalendarEvent>)
        requires
            self.wf(),
        ensures
            answers(self@.events, EventQuery::Between(start, end), event_views(r@)),
    {
        self.select(EventQuery::Between(start, end))
    }

    /// The events that the server has not seen yet.
    pub fn all_pending_events(&self) -> (r: Vec<CalendarEvent>)
        requires
            self.wf(),
        ensures
            answers(self@.events, EventQuery::Pending, event_views(r@)),
    {
        self.select(EventQuery::Pending)
    }

    /// The events that are not deleted.
    pub fn active_events(&self) -> (r: Vec<CalendarEvent>)
        requires
            self.wf(),
        ensures
            answers(self@.events, EventQuery::Active, event_views(r@)),
    {
        self.select(EventQuery::Active)
    }

    /// All events.
    pub fn all_events(&self) -> (r: Vec<CalendarEvent>)
        requires
            self.wf(),
        ensures
            answers(self@.events, EventQuery::All, event_views(r@)),
            forall|id: Seq<char>| #[trigger]
                self@.events.contains_key(id) ==> self@.events[id].id == id,
    {
        proof {
            lemma_events_under_ids(self.events.rows());
        }
        self.select(EventQuery::All)
    }

    /// The event `id` as it is once it was marked as deleted at `now`.
    pub fn deletion(&self, id: &str, now: Instant) -> (r: Option<CalendarEvent>)
        requires
            self.wf(),
        ensures
            match r {
                Some(event) => read_event(self@, id@) is Some && event@ == tombstone(
                    self@.events[id@],
                    now,
                ),
                None => read_event(self@, id@) is None,
            },
    {
        match self.event(id) {
            Some(found) => {
                let mut event = found;
                event.deleted = true;
                event.updated_seq = 0;
                event.updated_at = now;
                Some(event)
            },
            None => None,
        }
    }

    /// Marks the event `id` as deleted at `now`, to be told to the server.
    pub fn mark_deleted_at(&mut self, id: &str, now: Instant) -> (r: Option<CalendarEvent>)
        requires
            old(self).wf(),
        ensures
            final(self).wf(),
            match r {
                Some(event) => read_event(old(self)@, id@) is Some && event@ == tombstone(
                    old(self)@.events[id@],
                    now,
                ) && final(self)@ == stored(old(self)@, event@),
                None => read_event(old(self)@, id@) is None && final(self)@ == old(self)@,
            },
    {
        match self.deletion(id, now) {
            Some(event) => {
                self.upsert_event(&event);
                Some(event)
            },
            None => None,
        }
    }

    /// Marks the event `id` as deleted now, to be told to the server.
    pub fn mark_deleted(&mut self, id: &str) -> (r: Option<CalendarEvent>)
        requires
            old(self).wf(),
        ensures
            final(self).wf(),
            match r {
                Some(event) => read_event(old(self)@, id@) is Some && event@ == tombstone(
                    old(self)@.events[id@],
                    event.updated_at,
                ) && event.updated_at.of_the_clock() && final(self)@ == stored(
                    old(self)@,
                    event@,
                ),
                None => read_event(old(self)@, id@) is None && final(self)@ == old(self)@,
            },
    {
        self.mark_deleted_at(id, Instant::now())
    }

    /// Forgets the deliveries of the event `id`.
    fn forget_deliveries(&mut self, id: &str)
        requires
            old(self).wf(),
        ensures
            final(self).wf(),
            final(self)@ == (RepositoryView {
                deliveries: without_event(old(self)@.deliveries, id@),
                ..old(self)@
            }),
    {
        let ghost all = self@.deliveries;
        let mut i: usize = 0;
        while i < self.deliveries.len()
            invariant
                i <= self.deliveries@.len(),
                self.wf(),
                self@.events == old(self)@.events,
                self@.holidays == old(self)@.holidays,
                self@.settings == old(self)@.settings,
                all == old(self)@.deliveries,
                forall|k: DeliveryKey|
                    k.0 != id@ ==> #[trigger] self@.deliveries.contains_key(k) == all.contains_key(
                        k,
                    ) && (all.contains_key(k) ==> self@.deliveries[k] == all[k]),
                forall|j: int| 0 <= j < i ==> (#[trigger] self.delivery_rows()[j]).0.0 != id@,
            decreases self.deliveries@.len() - i,
        {
            if same_text(self.deliveries[i].event_id.as_str(), id) {
                let ghost rows = self.delivery_rows();
                let ghost so_far = self@.deliveries;
                proof {
                    lemma_remove_row(rows, i as int);
                }
                let _ = self.deliveries.remove(i);
                assert(self.delivery_rows() =~= rows.remove(i as int));
                assert(self@.deliveries == so_far.remove(rows[i as int].0));
                assert forall|k: DeliveryKey|
                    k.0 != id@ implies #[trigger] self@.deliveries.contains_key(k)
                    == all.contains_key(k) && (all.contains_key(k) ==> self@.deliveries[k]
                    == all[k]) by {
                    assert(so_far.contains_key(k) == all.contains_key(k));
                }
            } else {
                i = i + 1;
            }
        }
        assert forall|k: DeliveryKey| #[trigger] self@.deliveries.contains_key(k) implies k.0
            != id@ by {
            let j = choose|j: int|
                0 <= j < self.delivery_rows().len() && (#[trigger] self.delivery_rows()[j]).0 == k;
            assert(has_key(self.delivery_rows(), k));
            assert(self.delivery_rows()[j].0.0 != id@);
        }
        assert(self@.deliveries =~= without_event(all, id@));
    }

    /// Removes the event `id` and all that was delivered of it.
    pub fn purge_event(&mut self, id: &str)
        requires
            old(self).wf(),
        ensures
            final(self).wf(),
            final(self)@ == purged(old(self)@, id@),
    {
        self.forget_deliveries(id);
        let ghost before = self.events;
        self.events.remove(id);
        proof {
            lemma_remove_event(before, self.events, id@);
            assert(self@.events =~= event_map(before.map()).remove(id@));
            assert(self@ =~= purged(old(self)@, id@));
        }
    }

    /// Puts in holiday records, each in place of the one for the same date.
    pub fn replace_holidays(&mut self, holidays: &Vec<Holiday>)
        requires
            old(self).wf(),
        ensures
            final(self).wf(),
            final(self)@ == (RepositoryView {
                holidays: with_holidays(old(self)@.holidays, holiday_views(holidays@)),
                ..old(self)@
            }),
    {
        let ghost all = holiday_views(holidays@);
        let ghost start = self@.holidays;
        let mut i: usize = 0;
        assert(all.take(0) =~= Seq::<HolidayView>::empty());
        while i < holidays.len()
            invariant
                all == holiday_views(holidays@),
                start == old(self)@.holidays,
                i <= holidays@.len(),
                self.wf(),
                self@.holidays == with_holidays(start, all.take(i as int)),
                self@.events == old(self)@.events,
                self@.settings == old(self)@.settings,
                self@.deliveries == old(self)@.deliveries,
            decreases holidays@.len() - i,
        {
            let ghost before = self.holidays;
            let ghost earlier_rows = self.delivery_rows();
            let copy = holidays[i].clone();
            let ghost value = copy;
            self.holidays.put(holidays[i].date.as_str(), copy);
            proof {
                lemma_put_holiday(before, self.holidays, value);
                assert(self.delivery_rows() =~= earlier_rows);
                let next = all.take(i + 1);
                assert(next.drop_last() =~= all.take(i as int));
                assert(next.last() == value@);
                assert(self@.holidays =~= holiday_map(before.map()).insert(value@.date, value@));
            }
            i = i + 1;
        }
        assert(all.take(all.len() as int) =~= all);
    }

    /// The holidays from `start` to `end`, which are dates as texts.
    pub fn holidays_between(&self, start: &str, end: &str) -> (r: Vec<Holiday>)
        requires
            self.wf(),
        ensures
            holidays_in(self@.holidays, start@, end@, holiday_views(r@)),
    {
        let n: usize = self.holidays.len();
        let ghost rows = self.holidays.rows();
        let mut chosen: Vec<usize> = Vec::new();
        let mut keys: Vec<String> = Vec::new();
        let mut i: usize = 0;
        while i < n
            invariant
                n == rows.len(),
                rows == self.holidays.rows(),
                i <= n,
                keys@.len() == chosen@.len(),
                forall|k: int|
                    0 <= k < chosen@.len() ==> (#[trigger] chosen@[k]) < i && keys@[k]@
                        == rows[chosen@[k] as int].0 && !text_lt(keys@[k]@, start@) && !text_lt(
                        end@,
                        keys@[k]@,
                    ),
                forall|a: int, b: int|
                    0 <= a < b < chosen@.len() ==> (#[trigger] chosen@[a]) < (#[trigger] chosen@[b]),
                forall|k: usize|
                    k < i && !text_lt((#[trigger] rows[k as int]).0, start@) && !text_lt(
                        end@,
                        rows[k as int].0,
                    ) ==> chosen@.contains(k),
            decreases n - i,
        {
            let date = self.holidays.key_at(i);
            let ghost before = chosen@;
            if !text_before(date, start) && !text_before(end, date) {
                chosen.push(i);
                keys.push(date.to_owned());
                assert(chosen@[before.len() as int] == i);
            }
            proof {
                assert forall|k: usize|
                    k < i + 1 && !text_lt((#[trigger] rows[k as int]).0, start@) && !text_lt(
                        end@,
                        rows[k as int].0,
                    ) implies chosen@.contains(k) by {
                    if k < i {
                        let at = choose|at: int| 0 <= at < before.len() && before[at] == k;
                        assert(before.contains(k));
                        assert(chosen@[at] == k);
                    }
                }
            }
            i = i + 1;
        }
        let order = order_by(&keys);
        let mut r: Vec<Holiday> = Vec::new();
        let mut k: usize = 0;
        while k < order.len()
            invariant
                n == rows.len(),
                rows == self.holidays.rows(),
                k <= order@.len(),
                r@.len() == k,
                in_order(views(keys@), order@),
                keys@.len() == chosen@.len(),
                forall|j: int| 0 <= j < chosen@.len() ==> (#[trigger] chosen@[j]) < n,
                forall|j: int|
                    0 <= j < k ==> (#[trigger] r@[j])@ == rows[chosen@[order@[j] as int] as int].1@,
            decreases order@.len() - k,
        {
            r.push(self.holidays.value_at(chosen[order[k]]).clone());
            k = k + 1;
        }
        proof {
            lemma_ordered_holidays(
                rows,
                start@,
                end@,
                chosen@,
                views(keys@),
                order@,
                holiday_views(r@),
            );
        }
        r
    }

    /// The setting `key`.
    pub fn setting(&self, key: &str) -> (r: Option<String>)
        requires
            self.wf(),
        ensures
            match r {
                Some(value) => self@.settings.contains_key(key@) && self@.settings[key@] == value@,
                None => !self@.settings.contains_key(key@),
            },
    {
        match self.settings.get(key) {
            Some(value) => Some(value.clone()),
            None => None,
        }
    }

    /// Gives the setting `key` a value.
    pub fn set_setting(&mut self, key: &str, value: &str)
        requires
            old(self).wf(),
        ensures
            final(self).wf(),
            final(self)@ == configured(old(self)@, key@, value@),
    {
        let ghost before = self.settings;
        let text = value.to_owned();
        let ghost copy = text;
        self.settings.put(key, text);
        assert(self.delivery_rows() =~= old(self).delivery_rows());
        assert(self@.settings =~= text_map(before.map()).insert(key@, value@));
        assert(self@ =~= configured(old(self)@, key@, value@));
    }

    /// The holiday record for a date as text.
    pub fn holiday(&self, date: &str) -> (r: Option<&Holiday>)
        requires
            self.wf(),
        ensures
            match r {
                Some(h) => self@.holidays.contains_key(date@) && self@.holidays[date@] == h@,
                None => !self@.holidays.contains_key(date@),
            },
    {
        self.holidays.get(date)
    }

    /// Whether a reminder was delivered.
    pub fn was_delivered(
        &self,
        event_id: &str,
        event_version: i64,
        occurrence_at: &str,
        offset_minutes: i64,
    ) -> (r: bool)
        requires
            self.wf(),
        ensures
            r == self@.deliveries.contains_key(
                (event_id@, event_version, occurrence_at@, offset_minutes),
            ),
    {
        let ghost key = (event_id@, event_version, occurrence_at@, offset_minutes);
        let mut i: usize = 0;
        while i < self.deliveries.len()
            invariant
                i <= self.deliveries@.len(),
                key == (event_id@, event_version, occurrence_at@, offset_minutes),
                forall|j: int| 0 <= j < i ==> (#[trigger] self.delivery_rows()[j]).0 != key,
            decreases self.deliveries@.len() - i,
        {
            let d = &self.deliveries[i];
            if same_text(d.event_id.as_str(), event_id) && d.event_version == event_version
                && same_text(d.occurrence_at.as_str(), occurrence_at) && d.offset_minutes
                == offset_minutes {
                assert(self.delivery_rows()[i as int].0 == key);
                assert(has_key(self.delivery_rows(), key));
                return true;
            }
            assert(self.delivery_rows()[i as int].0 != key);
            i = i + 1;
        }
        assert(!has_key(self.delivery_rows(), key));
        false
    }

    /// Notes that a reminder was delivered; the first note of a reminder stays.
    pub fn mark_reminder_delivered(
        &mut self,
        event_id: &str,
        event_version: i64,
        occurrence_at: Instant,
        offset_minutes: i64,
        delivered_at: Instant,
    )
        requires
            old(self).wf(),
        ensures
            final(self).wf(),
            final(self)@ == delivered(
                old(self)@,
                (event_id@, event_version, occurrence_at.written(), offset_minutes),
                delivered_at,
            ),
    {
        let text = occurrence_at.text();
        if self.was_delivered(event_id, event_version, text.as_str(), offset_minutes) {
            return ;
        }
        let ghost rows = self.delivery_rows();
        let ghost key = (event_id@, event_version, text@, offset_minutes);
        proof {
            lemma_push_row(rows, key, delivered_at);
        }
        self.deliveries.push(
            Delivery {
                event_id: event_id.to_owned(),
                event_version,
                occurrence_at: text,
                offset_minutes,
                delivered_at,
            },
        );
        assert(self.delivery_rows() =~= rows.push((key, delivered_at)));
        assert(self@ =~= delivered(old(self)@, key, delivered_at));
    }
}

/// Putting an event under its identity keeps every event under its own.
proof fn lemma_put_event(
    before: Table<CalendarEvent>,
    after: Table<CalendarEvent>,
    value: CalendarEvent,
)
    requires
        before.wf(),
        after.wf(),
        events_under_ids(before.rows()),
        after.map() == before.map().insert(value.id@, value),
    ensures
        events_under_ids(after.rows()),
{
    lemma_events_under_ids(before.rows());
    assert forall|i: int| 0 <= i < after.rows().len() implies (#[trigger] after.rows()[i]).1.id@
        == after.rows()[i].0 by {
        lemma_row_in_map(after.rows(), i);
        let id = after.rows()[i].0;
        assert(after.map().contains_key(id));
        assert(id == value.id@ || before.map().contains_key(id));
    }
}

/// Removing an event keeps every other under its identity.
proof fn lemma_remove_event(
    before: Table<CalendarEvent>,
    after: Table<CalendarEvent>,
    id: Seq<char>,
)
    requires
        before.wf(),
        after.wf(),
        events_under_ids(before.rows()),
        after.map() == before.map().remove(id),
    ensures
        events_under_ids(after.rows()),
{
    lemma_events_under_ids(before.rows());
    assert forall|i: int| 0 <= i < after.rows().len() implies (#[trigger] after.rows()[i]).1.id@
        == after.rows()[i].0 by {
        lemma_row_in_map(after.rows(), i);
        assert(before.map().contains_key(after.rows()[i].0));
    }
}

/// Putting a holiday under its date keeps every holiday under its own.
proof fn lemma_put_holiday(before: Table<Holiday>, after: Table<Holiday>, value: Holiday)
    requires
        before.wf(),
        after.wf(),
        holidays_under_dates(before.rows()),
        after.map() == before.map().insert(value.date@, value),
    ensures
        holidays_under_dates(after.rows()),
{
    assert forall|i: int| 0 <= i < after.rows().len() implies (#[trigger] after.rows()[i]).1.date@
        == after.rows()[i].0 by {
        lemma_row_in_map(after.rows(), i);
        let date = after.rows()[i].0;
        if date != value.date@ {
            assert(after.map().contains_key(date));
            assert(before.map().contains_key(date));
            let j = choose|j: int|
                0 <= j < before.rows().len() && (#[trigger] before.rows()[j]).0 == date;
            lemma_row_in_map(before.rows(), j);
        }
    }
}

/// The rows between two dates, put in the order of their dates, are the holidays between them.
proof fn lemma_ordered_holidays(
    rows: Seq<(Seq<char>, Holiday)>,
    start: Seq<char>,
    end: Seq<char>,
    chosen: Seq<usize>,
    keys: Seq<Seq<char>>,
    order: Seq<usize>,
    found: Seq<HolidayView>,
)
    requires
        distinct_keys(rows),
        holidays_under_dates(rows),
        rows.len() <= usize::MAX,
        chosen.len() <= usize::MAX,
        keys.len() == chosen.len(),
        found.len() == chosen.len(),
        in_order(keys, order),
        forall|i: int|
            0 <= i < chosen.len() ==> (#[trigger] chosen[i]) < rows.len() && keys[i]
                == rows[chosen[i] as int].0 && !text_lt(keys[i], start) && !text_lt(end, keys[i]),
        forall|i: int, j: int|
            0 <= i < j < chosen.len() ==> (#[trigger] chosen[i]) < (#[trigger] chosen[j]),
        forall|k: usize|
            k < rows.len() && !text_lt((#[trigger] rows[k as int]).0, start) && !text_lt(
                end,
                rows[k as int].0,
            ) ==> chosen.contains(k),
        forall|i: int|
            0 <= i < found.len() ==> #[trigger] found[i] == rows[chosen[order[i] as int] as int].1@,
    ensures
        holidays_in(holiday_map(as_map(rows)), start, end, found),
{
    let holidays = holiday_map(as_map(rows));
    assert forall|i: int| 0 <= i < found.len() implies {
        let h = #[trigger] found[i];
        holidays.contains_key(h.date) && holidays[h.date] == h && !text_lt(h.date, start)
            && !text_lt(end, h.date)
    } by {
        lemma_row_in_map(rows, chosen[order[i] as int] as int);
    }
    assert forall|date: Seq<char>| #[trigger] holidays.contains_key(date) && !text_lt(date, start)
        && !text_lt(end, date) implies found.contains(holidays[date]) by {
        let k = choose|k: int| 0 <= k < rows.len() && (#[trigger] rows[k]).0 == date;
        lemma_row_in_map(rows, k);
        assert(!text_lt(rows[(k as usize) as int].0, start));
        let c = choose|c: int| 0 <= c < chosen.len() && chosen[c] == k as usize;
        assert(order.contains(c as usize));
        let o = choose|o: int| 0 <= o < order.len() && order[o] == c as usize;
        assert(found[o] == holidays[date]);
    }
    assert forall|i: int, j: int| 0 <= i < j < found.len() implies text_lt(
        (#[trigger] found[i]).date,
        (#[trigger] found[j]).date,
    ) by {
        assert(ranks_before(keys, order[i], order[j]));
        let a = order[i];
        let b = order[j];
        if !text_lt(keys[a as int], keys[b as int]) {
            assert(chosen[a as int] < chosen[b as int]);
            assert(rows[chosen[a as int] as int].0 != rows[chosen[b as int] as int].0);
        }
    }
}

/// A stored event reads back as it was stored, and no other event changes.
pub proof fn a_stored_event_reads_back(
    repository: RepositoryView,
    event: EventView,
    other: Seq<char>,
)
    ensures
        read_event(stored(repository, event), event.id) == Some(event),
        other != event.id ==> read_event(stored(repository, event), other) == read_event(
            repository,
            other,
        ),
        stored(stored(repository, event), event) == stored(repository, event),
{
    assert(stored(stored(repository, event), event) =~= stored(repository, event));
}

/// A purged event is gone with its deliveries, and nothing of other events changes.
pub proof fn a_purged_event_is_gone(
    repository: RepositoryView,
    id: Seq<char>,
    other: Seq<char>,
    key: DeliveryKey,
)
    ensures
        read_event(purged(repository, id), id) is None,
        other != id ==> read_event(purged(repository, id), other) == read_event(repository, other),
        key.0 == id ==> !purged(repository, id).deliveries.contains_key(key),
        key.0 != id ==> (purged(repository, id).deliveries.contains_key(key)
            <==> repository.deliveries.contains_key(key)),
{
}

/// A setting reads back as it was set, and no other setting changes.
pub proof fn a_setting_reads_back(
    repository: RepositoryView,
    key: Seq<char>,
    value: Seq<char>,
    other: Seq<char>,
)
    ensures
        configured(repository, key, value).settings.contains_key(key),
        configured(repository, key, value).settings[key] == value,
        other != key && repository.settings.contains_key(other) ==> configured(
            repository,
            key,
            value,
        ).settings[other] == repository.settings[other],
        configured(repository, key, value).events == repository.events,
{
}

/// A deleted event is kept as a tombstone for the server: it answers the query for pending events
/// and no query for events that are shown.
pub proof fn a_deleted_event_waits_for_the_server(event: EventView, now: Instant, query: EventQuery)
    ensures
        asks_for(EventQuery::Pending, tombstone(event, now)),
        asks_for(EventQuery::All, tombstone(event, now)),
        query is Between || query is Active ==> !asks_for(query, tombstone(event, now)),
        tombstone(event, now).id == event.id,
        tombstone(event, now).version == event.version,
{
}

/// Taking over fetched holidays clears nothing: the records of other dates stay as they were.
pub proof fn fetched_holidays_keep_the_others(
    holidays: Map<Seq<char>, HolidayView>,
    records: Seq<HolidayView>,
    date: Seq<char>,
)
    requires
        forall|i: int| 0 <= i < records.len() ==> (#[trigger] records[i]).date != date,
    ensures
        with_holidays(holidays, records).contains_key(date) == holidays.contains_key(date),
        holidays.contains_key(date) ==> with_holidays(holidays, records)[date] == holidays[date],
    decreases records.len(),
{
    if records.len() > 0 {
        assert forall|i: int| 0 <= i < records.drop_last().len() implies (
        #[trigger] records.drop_last()[i]).date != date by {
            assert(records.drop_last()[i] == records[i]);
        }
        fetched_holidays_keep_the_others(holidays, records.drop_last(), date);
        assert(records.last() == records[records.len() - 1]);
    }
}

/// The queries ask for what they say: events that are not deleted, events that the server has not
/// seen, or all of them.
pub proof fn queries_tell_events_apart(event: EventView)
    ensures
        asks_for(EventQuery::Active, event) <==> !event.deleted,
        asks_for(EventQuery::Pending, event) <==> event.updated_seq == 0,
        asks_for(EventQuery::All, event),
{
}

/// The query for a time span asks for the events that are not deleted, begin before its end, and do
/// not end before its beginning. The times are whole seconds of years with four digits.
pub proof fn a_time_span_holds_what_overlaps_it(event: EventView, start: Instant, end: Instant)
    requires
        start.valid() && start.readable() && start.nanos() == 0,
        end.valid() && end.readable() && end.nanos() == 0,
        event.start_at.valid() && event.start_at.readable() && event.start_at.nanos() == 0,
        event.end_at.valid() && event.end_at.readable() && event.end_at.nanos() == 0,
    ensures
        asks_for(EventQuery::Between(start, end), event) <==> !event.deleted
            && event.start_at.seconds() < end.seconds() && event.end_at.seconds()
            >= start.seconds(),
{
    texts_order_instants(event.start_at, end);
    texts_order_instants(event.end_at, start);
}

/// Events are listed in the order in which they begin, and those that the server has not seen in
/// the order in which they were changed. The times are whole seconds of years with four digits.
pub proof fn events_are_listed_in_the_order_of_time(
    events: Map<Seq<char>, EventView>,
    query: EventQuery,
    found: Seq<EventView>,
    i: int,
    j: int,
)
    requires
        answers(events, query, found),
        0 <= i < j < found.len(),
        forall|k: int|
            0 <= k < found.len() ==> {
                let e = #[trigger] found[k];
                e.start_at.valid() && e.start_at.readable() && e.start_at.nanos() == 0
                    && e.updated_at.valid() && e.updated_at.readable() && e.updated_at.nanos() == 0
            },
    ensures
        !(query is Pending) ==> found[i].start_at.seconds() <= found[j].start_at.seconds(),
        query is Pending ==> found[i].updated_at.seconds() <= found[j].updated_at.seconds(),
        found[i].id != found[j].id,
{
    let (a, b) = (found[i], found[j]);
    texts_order_instants(b.start_at, a.start_at);
    texts_order_instants(b.updated_at, a.updated_at);
}

/// Of the records that are put in, the last one for a date is the one that is found there.
pub proof fn the_last_holiday_of_a_date_counts(
    holidays: Map<Seq<char>, HolidayView>,
    records: Seq<HolidayView>,
    i: int,
)
    requires
        0 <= i < records.len(),
        forall|j: int| i < j < records.len() ==> (#[trigger] records[j]).date != records[i].date,
    ensures
        with_holidays(holidays, records).contains_key(records[i].date),
        with_holidays(holidays, records)[records[i].date] == records[i],
    decreases records.len(),
{
    if i < records.len() - 1 {
        let shorter = records.drop_last();
        assert(shorter[i] == records[i]);
        assert forall|j: int| i < j < shorter.len() implies (#[trigger] shorter[j]).date
            != shorter[i].date by {
            assert(records[j].date != records[i].date);
        }
        the_last_holiday_of_a_date_counts(holidays, shorter, i);
        assert(records[records.len() - 1].date != records[i].date);
    }
}

/// A reminder that was noted stays noted as it was first; no other note changes, and nothing but the
/// notes.
pub proof fn the_first_note_of_a_reminder_stays(
    repository: RepositoryView,
    key: DeliveryKey,
    at: Instant,
    again: Instant,
    other: DeliveryKey,
)
    ensures
        ({
            let noted = delivered(repository, key, at);
            &&& noted.deliveries.contains_key(key)
            &&& !repository.deliveries.contains_key(key) ==> noted.deliveries[key] == at
            &&& repository.deliveries.contains_key(key) ==> noted == repository
            &&& delivered(noted, key, again) == noted
            &&& other != key ==> (noted.deliveries.contains_key(other)
                <==> repository.deliveries.contains_key(other))
            &&& other != key && repository.deliveries.contains_key(other)
                ==> noted.deliveries[other] == repository.deliveries[other]
            &&& noted.events == repository.events && noted.holidays == repository.holidays
                && noted.settings == repository.settings
        }),
{
}

/// Deleting an event on this device changes nothing of it but that it is deleted, when it was
/// changed, and that the server has yet to be told.
pub proof fn a_deletion_keeps_the_event(event: EventView, now: Instant)
    ensures
        tombstone(event, now).deleted,
        tombstone(event, now).updated_at == now,
        tombstone(event, now).updated_seq == 0,
        event == (EventView {
            deleted: event.deleted,
            updated_at: event.updated_at,
            updated_seq: event.updated_seq,
            ..tombstone(event, now)
        }),
{
}

/// Storing, purging and setting leave all else of the repository as it was.
pub proof fn changes_stay_where_they_belong(
    repository: RepositoryView,
    event: EventView,
    id: Seq<char>,
    key: Seq<char>,
    value: Seq<char>,
)
    ensures
        stored(repository, event).holidays == repository.holidays,
        stored(repository, event).settings == repository.settings,
        stored(repository, event).deliveries == repository.deliveries,
        purged(repository, id).holidays == repository.holidays,
        purged(repository, id).settings == repository.settings,
        configured(repository, key, value).holidays == repository.holidays,
        configured(repository, key, value).deliveries == repository.deliveries,
{
}

/// The holidays between two dates are all those and no others, each once, from the first to the
/// last.
pub proof fn holidays_between_dates_are_complete(
    holidays: Map<Seq<char>, HolidayView>,
    start: Seq<char>,
    end: Seq<char>,
    found: Seq<HolidayView>,
    date: Seq<char>,
)
    requires
        holidays_in(holidays, start, end, found),
        holidays.contains_key(date),
        holidays[date].date == date,
    ensures
        found.contains(holidays[date]) <==> !text_lt(date, start) && !text_lt(end, date),
{
    if found.contains(holidays[date]) {
        let k = choose|k: int| 0 <= k < found.len() && found[k] == holidays[date];
        assert(holidays.contains_key(found[k].date));
    }
}

} // verus!
