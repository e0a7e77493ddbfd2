//! Comparing the events of this device with those of the server.
use crate::calendar::lemma_date_of_number;
use crate::instant::{date_of_number, Instant};
use crate::labels::{local_time, local_time_text, reminder_summary, reminder_text};
use crate::models::{event_views, holiday_views, CalendarEvent, EventView, SyncPullData};
use crate::repository::{
    answers, purged, stored, with_holidays, DeliveryKey, EventQuery, LocalRepository,
    RepositoryView,
};
use crate::table::{has_key, lemma_row_in_map, Table};
use crate::text::{same_text, signed_decimal, signed_text};
use std::collections::VecDeque;
use vstd::prelude::*;

verus! {

/// Whether two events hold the same for their user; versions, sequence numbers and the time of the
/// last change are the server's own.
pub open spec fn same_content(a: EventView, b: EventView) -> bool {
    &&& a.title == b.title
    &&& a.notes == b.notes
    &&& a.location == b.location
    &&& a.start_at == b.start_at
    &&& a.end_at == b.end_at
    &&& a.timezone == b.timezone
    &&& a.all_day == b.all_day
    &&& a.color == b.color
    &&& a.recurrence_rule == b.recurrence_rule
    &&& a.reminder_minutes == b.reminder_minutes
    &&& a.force_reminder == b.force_reminder
    &&& a.completed == b.completed
    &&& a.deleted == b.deleted
}

/// Whether two lists hold the same numbers.
fn same_numbers(a: &Vec<i64>, b: &Vec<i64>) -> (r: bool)
    ensures
        r == (a@ == b@),
{
    if a.len() != b.len() {
        return false;
    }
    let mut i: usize = 0;
    while i < a.len()
        invariant
            a@.len() == b@.len(),
            i <= a@.len(),
            forall|j: int| 0 <= j < i ==> a@[j] == b@[j],
        decreases a@.len() - i,
    {
        if a[i] != b[i] {
            return false;
        }
        i = i + 1;
    }
    assert(a@ =~= b@);
    true
}

/// Whether `left` and `right` hold the same for their user.
pub fn event_content_equal(left: &CalendarEvent, right: &CalendarEvent) -> (r: bool)
    ensures
        r == same_content(left@, right@),
{
    same_text(left.title.as_str(), right.title.as_str()) && same_text(
        left.notes.as_str(),
        right.notes.as_str(),
    ) && same_text(left.location.as_str(), right.location.as_str()) && left.start_at.same(
        &right.start_at,
    ) && left.end_at.same(&right.end_at) && same_text(
        left.timezone.as_str(),
        right.timezone.as_str(),
    ) && left.all_day == right.all_day && same_text(left.color.as_str(), right.color.as_str())
        && same_text(left.recurrence_rule.as_str(), right.recurrence_rule.as_str()) && same_numbers(
        &left.reminder_minutes,
        &right.reminder_minutes,
    ) && left.force_reminder == right.force_reminder && left.completed == right.completed
        && left.deleted == right.deleted
}

/// The comparison of events ignores what the server keeps about them, and is an equivalence.
pub proof fn the_comparison_is_an_equivalence(
    a: EventView,
    b: EventView,
    c: EventView,
    version: i64,
    updated_seq: i64,
    updated_at: Instant,
)
    ensures
        same_content(a, a),
        same_content(a, b) ==> same_content(b, a),
        same_content(a, b) && same_content(b, c) ==> same_content(a, c),
        same_content(a, EventView { version, updated_seq, updated_at, ..a }),
{
}

/// Two events compare as the same exactly when one of them is the other with another identity,
/// version, sequence number or time of the last change: nothing that the user can see or set may
/// differ.
pub proof fn equal_events_differ_in_nothing_the_user_set(a: EventView, b: EventView)
    ensures
        same_content(a, b) <==> b == (EventView {
            id: b.id,
            version: b.version,
            updated_seq: b.updated_seq,
            updated_at: b.updated_at,
            ..a
        }),
{
}

/// An event that differs between this device and the server; the server may not have it.
#[derive(Debug)]
pub struct SyncConflict {
    pub local: CalendarEvent,
    pub remote: Option<CalendarEvent>,
}

/// What a difference holds.
#[verifier::ext_equal]
pub struct ConflictView {
    pub local: EventView,
    pub remote: Option<EventView>,
}

/// The view of an optional event.
pub open spec fn event_in(event: Option<CalendarEvent>) -> Option<EventView> {
    match event {
        Some(e) => Some(e@),
        None => None,
    }
}

impl View for SyncConflict {
    type V = ConflictView;

    open spec fn view(&self) -> ConflictView {
        ConflictView { local: self.local@, remote: event_in(self.remote) }
    }
}

impl Clone for SyncConflict {
    fn clone(&self) -> (r: Self)
        ensures
            r@ == self@,
    {
        SyncConflict {
            local: self.local.clone(),
            remote: match &self.remote {
                Some(event) => Some(event.clone()),
                None => None,
            },
        }
    }
}

/// The views of some differences.
pub open spec fn conflict_views(conflicts: Seq<SyncConflict>) -> Seq<ConflictView> {
    Seq::new(conflicts.len(), |i: int| conflicts[i]@)
}

/// Events by identity; of two with the same identity the later counts.
pub open spec fn by_id(events: Seq<EventView>) -> Map<Seq<char>, EventView>
    decreases events.len(),
{
    if events.len() == 0 {
        Map::empty()
    } else {
        by_id(events.drop_last()).insert(events.last().id, events.last())
    }
}

/// The server's event with the identity of a local one.
pub open spec fn remote_of(remote: Map<Seq<char>, EventView>, id: Seq<char>) -> Option<EventView> {
    if remote.contains_key(id) {
        Some(remote[id])
    } else {
        None
    }
}

/// Whether a local event needs the user's decision: the server has another content, or does not
/// have an event that is not deleted here.
pub open spec fn needs_decision(local: EventView, remote: Option<EventView>) -> bool {
    match remote {
        Some(r) => !same_content(local, r),
        None => !local.deleted,
    }
}

/// What is kept of the local event after the comparison with the server: where they agree the
/// server's event, where the user has to decide the local one, and nothing where the server does
/// not know an event that is deleted here.
pub open spec fn reconciled(local: Option<EventView>, remote: Option<EventView>) -> Option<
    EventView,
> {
    match local {
        Some(l) => if needs_decision(l, remote) {
            Some(l)
        } else {
            remote
        },
        None => remote,
    }
}

/// Whether the comparison removes the local event for good.
pub open spec fn is_purged(local: Option<EventView>, remote: Option<EventView>) -> bool {
    local is Some && reconciled(local, remote) is None
}

/// The differences among some local events that need a decision, in their order.
pub open spec fn decisions(locals: Seq<EventView>, remote: Map<Seq<char>, EventView>) -> Seq<
    ConflictView,
>
    decreases locals.len(),
{
    if locals.len() == 0 {
        Seq::empty()
    } else {
        let earlier = decisions(locals.drop_last(), remote);
        let local = locals.last();
        let other = remote_of(remote, local.id);
        if needs_decision(local, other) {
            earlier.push(ConflictView { local, remote: other })
        } else {
            earlier
        }
    }
}

/// The events of the device after the comparison.
pub open spec fn reconciled_events(
    locals: Map<Seq<char>, EventView>,
    remote: Map<Seq<char>, EventView>,
) -> Map<Seq<char>, EventView> {
    Map::new(
        |id: Seq<char>| reconciled(remote_of(locals, id), remote_of(remote, id)) is Some,
        |id: Seq<char>| reconciled(remote_of(locals, id), remote_of(remote, id)).unwrap(),
    )
}

/// The deliveries of the device after the comparison: those of purged events are gone.
pub open spec fn reconciled_deliveries(
    repository: RepositoryView,
    remote: Map<Seq<char>, EventView>,
) -> Map<DeliveryKey, Instant> {
    Map::new(
        |k: DeliveryKey|
            repository.deliveries.contains_key(k) && !is_purged(
                remote_of(repository.events, k.0),
                remote_of(remote, k.0),
            ),
        |k: DeliveryKey| repository.deliveries[k],
    )
}

/// Whether `id` is the identity of one of the first `n` events.
pub open spec fn among(events: Seq<EventView>, n: int, id: Seq<char>) -> bool {
    exists|i: int| 0 <= i < n && (#[trigger] events[i]).id == id
}

/// The server's events by identity.
fn index_events(events: &Vec<CalendarEvent>) -> (r: Table<CalendarEvent>)
    ensures
        r.wf(),
        r.map().map_values(|e: CalendarEvent| e@) == by_id(event_views(events@)),
{
    let ghost all = event_views(events@);
    let mut table: Table<CalendarEvent> = Table::new();
    let mut i: usize = 0;
    assert(all.take(0) =~= Seq::<EventView>::empty());
    assert(table.map().map_values(|e: CalendarEvent| e@) =~= Map::<Seq<char>, EventView>::empty());
    while i < events.len()
        invariant
            all == event_views(events@),
            i <= events@.len(),
            table.wf(),
            table.map().map_values(|e: CalendarEvent| e@) == by_id(all.take(i as int)),
        decreases events@.len() - i,
    {
        let copy = events[i].clone();
        let ghost value = copy;
        let ghost before = table.map();
        table.put(events[i].id.as_str(), copy);
        proof {
            let next = all.take(i + 1);
            assert(next.drop_last() =~= all.take(i as int));
            assert(next.last() == value@);
            assert(table.map().map_values(|e: CalendarEvent| e@) =~= before.map_values(
                |e: CalendarEvent| e@,
            ).insert(value@.id, value@));
        }
        i = i + 1;
    }
    assert(all.take(all.len() as int) =~= all);
    table
}

/// Events stand under their own identities.
proof fn lemma_by_id(events: Seq<EventView>)
    ensures
        forall|id: Seq<char>| #[trigger]
            by_id(events).contains_key(id) ==> by_id(events)[id].id == id,
    decreases events.len(),
{
    if events.len() > 0 {
        let shorter = by_id(events.drop_last());
        lemma_by_id(events.drop_last());
        assert forall|id: Seq<char>| #[trigger] by_id(events).contains_key(id) implies by_id(
            events,
        )[id].id == id by {
            if id != events.last().id {
                assert(shorter.contains_key(id));
            }
        }
    }
}

/// What a repository holds after the comparison of the first `n` local events.
spec fn compared(
    before: RepositoryView,
    remote: Map<Seq<char>, EventView>,
    locals: Seq<EventView>,
    n: int,
    now: RepositoryView,
) -> bool {
    &&& now.holidays == before.holidays
    &&& now.settings == before.settings
    &&& forall|id: Seq<char>| #[trigger]
        remote_of(now.events, id) == if among(locals, n, id) {
            reconciled(remote_of(before.events, id), remote_of(remote, id))
        } else {
            remote_of(before.events, id)
        }
    &&& forall|k: DeliveryKey| #[trigger]
        now.deliveries.contains_key(k) <==> before.deliveries.contains_key(k) && !(among(
            locals,
            n,
            k.0,
        ) && is_purged(remote_of(before.events, k.0), remote_of(remote, k.0)))
    &&& forall|k: DeliveryKey| #[trigger]
        now.deliveries.contains_key(k) ==> now.deliveries[k] == before.deliveries[k]
}

/// One more local event was compared.
proof fn lemma_compared_step(
    before: RepositoryView,
    remote: Map<Seq<char>, EventView>,
    locals: Seq<EventView>,
    n: int,
    now: RepositoryView,
    next: RepositoryView,
)
    requires
        answers(before.events, EventQuery::All, locals),
        0 <= n < locals.len(),
        compared(before, remote, locals, n, now),
        ({
            let local = locals[n];
            let other = remote_of(remote, local.id);
            if needs_decision(local, other) {
                next == now
            } else {
                match other {
                    Some(r) => r.id == local.id && next == stored(now, r),
                    None => next == purged(now, local.id),
                }
            }
        }),
    ensures
        compared(before, remote, locals, n + 1, next),
{
    let local = locals[n];
    let own = local.id;
    assert(before.events.contains_key(own) && before.events[own] == local);
    assert(remote_of(before.events, own) == Some(local));
    assert(!among(locals, n, own)) by {
        if among(locals, n, own) {
            let i = choose|i: int| 0 <= i < n && (#[trigger] locals[i]).id == own;
            assert(locals[i].id != locals[n].id);
        }
    }
    assert(among(locals, n + 1, own)) by {
        assert(locals[n].id == own);
    }
    assert forall|id: Seq<char>| id != own implies #[trigger] among(locals, n + 1, id) == among(
        locals,
        n,
        id,
    ) by {
        if among(locals, n + 1, id) {
            let i = choose|i: int| 0 <= i < n + 1 && (#[trigger] locals[i]).id == id;
            assert(i != n);
            assert(locals[i].id == id);
        }
        if among(locals, n, id) {
            let i = choose|i: int| 0 <= i < n && (#[trigger] locals[i]).id == id;
            assert(locals[i].id == id);
        }
    }
    assert(remote_of(now.events, own) == Some(local));
    assert forall|id: Seq<char>| #[trigger] remote_of(next.events, id) == if among(
        locals,
        n + 1,
        id,
    ) {
        reconciled(remote_of(before.events, id), remote_of(remote, id))
    } else {
        remote_of(before.events, id)
    } by {
        assert(remote_of(now.events, id) == if among(locals, n, id) {
            reconciled(remote_of(before.events, id), remote_of(remote, id))
        } else {
            remote_of(before.events, id)
        });
    }
    assert forall|k: DeliveryKey| #[trigger]
        next.deliveries.contains_key(k) <==> before.deliveries.contains_key(k) && !(among(
            locals,
            n + 1,
            k.0,
        ) && is_purged(remote_of(before.events, k.0), remote_of(remote, k.0))) by {
        assert(now.deliveries.contains_key(k) <==> before.deliveries.contains_key(k) && !(among(
            locals,
            n,
            k.0,
        ) && is_purged(remote_of(before.events, k.0), remote_of(remote, k.0))));
    }
    assert forall|k: DeliveryKey| #[trigger]
        next.deliveries.contains_key(k) implies next.deliveries[k] == before.deliveries[k] by {
        assert(now.deliveries.contains_key(k));
    }
}

/// Compares the events of this device with what the server has, takes over what the user need not
/// decide, and returns what needs a decision. Without such differences the server's cursor is
/// kept.
pub fn check_sync_consistency(repository: &mut LocalRepository, pull: &SyncPullData) -> (r:
    VecDeque<SyncConflict>)
    requires
        old(repository).wf(),
    ensures
        final(repository).wf(),
        ({
            let before = old(repository)@;
            let after = final(repository)@;
            let remote = by_id(event_views(pull.events@));
            &&& after.events == reconciled_events(before.events, remote)
            &&& after.deliveries == reconciled_deliveries(before, remote)
            &&& after.holidays == with_holidays(before.holidays, holiday_views(pull.holidays@))
            &&& after.settings == if r@.len() == 0 {
                before.settings.insert("sync_cursor"@, signed_decimal(pull.cursor as int))
            } else {
                before.settings
            }
            &&& exists|locals: Seq<EventView>| #[trigger]
                answers(before.events, EventQuery::All, locals) && conflict_views(r@) == decisions(
                    locals,
                    remote,
                )
        }),
{
    let ghost before = repository@;
    let table = index_events(&pull.events);
    let ghost remote = by_id(event_views(pull.events@));
    proof {
        lemma_by_id(event_views(pull.events@));
    }
    let locals = repository.all_events();
    let ghost all = event_views(locals@);
    let mut conflicts: VecDeque<SyncConflict> = VecDeque::new();
    let mut i: usize = 0;
    proof {
        assert(all.take(0) =~= Seq::<EventView>::empty());
        assert(conflict_views(conflicts@) =~= Seq::<ConflictView>::empty());
        assert(forall|id: Seq<char>| !among(all, 0, id));
        assert(compared(before, remote, all, 0, repository@));
    }
    while i < locals.len()
        invariant
            repository.wf(),
            table.wf(),
            remote == by_id(event_views(pull.events@)),
            table.map().map_values(|e: CalendarEvent| e@) == remote,
            forall|id: Seq<char>| #[trigger] remote.contains_key(id) ==> remote[id].id == id,
            all == event_views(locals@),
            answers(before.events, EventQuery::All, all),
            i <= locals@.len(),
            compared(before, remote, all, i as int, repository@),
            conflict_views(conflicts@) == decisions(all.take(i as int), remote),
        decreases locals@.len() - i,
    {
        let local = &locals[i];
        let ghost now = repository@;
        let ghost own = local@.id;
        let ghost so_far = conflicts@;
        proof {
            let next = all.take(i + 1);
            assert(next.drop_last() =~= all.take(i as int));
            assert(next.last() == local@);
            assert(table.map().contains_key(own) == remote.contains_key(own));
        }
        match table.get(local.id.as_str()) {
            Some(other) => {
                assert(remote[own] == other@);
                if event_content_equal(local, other) {
                    repository.upsert_event(other);
                } else {
                    conflicts.push_back(
                        SyncConflict { local: local.clone(), remote: Some(other.clone()) },
                    );
                    assert(conflict_views(conflicts@) =~= conflict_views(so_far).push(
                        ConflictView { local: local@, remote: Some(other@) },
                    ));
                }
            },
            None => {
                if local.deleted {
                    repository.purge_event(local.id.as_str());
                } else {
                    conflicts.push_back(SyncConflict { local: local.clone(), remote: None });
                    assert(conflict_views(conflicts@) =~= conflict_views(so_far).push(
                        ConflictView { local: local@, remote: None },
                    ));
                }
            },
        }
        proof {
            lemma_compared_step(before, remote, all, i as int, now, repository@);
        }
        i = i + 1;
    }
    proof {
        assert(all.take(all.len() as int) =~= all);
        assert forall|id: Seq<char>| #[trigger]
            among(all, all.len() as int, id) == before.events.contains_key(id) by {
            if among(all, all.len() as int, id) {
                let k = choose|k: int| 0 <= k < all.len() && (#[trigger] all[k]).id == id;
                assert(before.events.contains_key(all[k].id));
            }
            if before.events.contains_key(id) {
                let e = before.events[id];
                assert(all.contains(e));
                let k = choose|k: int| 0 <= k < all.len() && all[k] == e;
                lemma_listed_under_id(before.events, all, id, k);
            }
        }
    }
    let ghost middle = repository@;
    let ghost rows = table.rows();
    let mut j: usize = 0;
    while j < table.len()
        invariant
            repository.wf(),
            table.wf(),
            rows == table.rows(),
            j <= rows.len(),
            table.map().map_values(|e: CalendarEvent| e@) == remote,
            forall|id: Seq<char>| #[trigger] remote.contains_key(id) ==> remote[id].id == id,
            compared(before, remote, all, all.len() as int, middle),
            forall|id: Seq<char>| #[trigger]
                among(all, all.len() as int, id) == before.events.contains_key(id),
            repository@.holidays == before.holidays,
            repository@.settings == before.settings,
            repository@.deliveries == middle.deliveries,
            forall|id: Seq<char>| #[trigger]
                remote_of(repository@.events, id) == if before.events.contains_key(id) {
                    reconciled(remote_of(before.events, id), remote_of(remote, id))
                } else if key_among(rows, j as int, id) {
                    remote_of(remote, id)
                } else {
                    None
                },
        decreases rows.len() - j,
    {
        let event = table.value_at(j);
        let ghost now = repository@;
        let ghost own = rows[j as int].0;
        proof {
            lemma_row_in_map(rows, j as int);
            assert(remote.contains_key(own) && remote[own] == event@);
            assert(!key_among(rows, j as int, own)) by {
                if key_among(rows, j as int, own) {
                    let a = choose|a: int| 0 <= a < j && (#[trigger] rows[a]).0 == own;
                    assert(rows[a].0 != rows[j as int].0);
                }
            }
            assert(key_among(rows, j + 1, own)) by {
                assert(rows[j as int].0 == own);
            }
            assert forall|id: Seq<char>| id != own implies #[trigger] key_among(rows, j + 1, id)
                == key_among(rows, j as int, id) by {
                if key_among(rows, j + 1, id) {
                    let a = choose|a: int| 0 <= a < j + 1 && (#[trigger] rows[a]).0 == id;
                    assert(a != j);
                    assert(rows[a].0 == id);
                }
                if key_among(rows, j as int, id) {
                    let a = choose|a: int| 0 <= a < j && (#[trigger] rows[a]).0 == id;
                    assert(rows[a].0 == id);
                }
            }
            assert(remote_of(now.events, own) == if before.events.contains_key(own) {
                reconciled(remote_of(before.events, own), remote_of(remote, own))
            } else {
                None
            });
        }
        if repository.event(event.id.as_str()).is_none() {
            repository.upsert_event(event);
        }
        proof {
            assert forall|id: Seq<char>| #[trigger] remote_of(repository@.events, id)
                == if before.events.contains_key(id) {
                reconciled(remote_of(before.events, id), remote_of(remote, id))
            } else if key_among(rows, j + 1, id) {
                remote_of(remote, id)
            } else {
                None
            } by {
                assert(remote_of(now.events, id) == if before.events.contains_key(id) {
                    reconciled(remote_of(before.events, id), remote_of(remote, id))
                } else if key_among(rows, j as int, id) {
                    remote_of(remote, id)
                } else {
                    None
                });
            }
        }
        j = j + 1;
    }
    proof {
        let after = repository@.events;
        assert forall|id: Seq<char>| #[trigger] remote_of(after, id) == reconciled(
            remote_of(before.events, id),
            remote_of(remote, id),
        ) by {
            assert(key_among(rows, rows.len() as int, id) == remote.contains_key(id)) by {
                assert(table.map().contains_key(id) == remote.contains_key(id));
                if key_among(rows, rows.len() as int, id) {
                    let a = choose|a: int| 0 <= a < rows.len() && (#[trigger] rows[a]).0 == id;
                    assert(has_key(rows, id));
                }
                if has_key(rows, id) {
                    let a = choose|a: int| 0 <= a < rows.len() && (#[trigger] rows[a]).0 == id;
                    assert(rows[a].0 == id);
                }
            }
        }
        lemma_pointwise(after, before.events, remote);
        assert(repository@.deliveries =~= reconciled_deliveries(before, remote)) by {
            assert forall|k: DeliveryKey| #[trigger]
                repository@.deliveries.contains_key(k) == reconciled_deliveries(
                    before,
                    remote,
                ).contains_key(k) by {
                assert(middle.deliveries.contains_key(k) <==> before.deliveries.contains_key(k)
                    && !(among(all, all.len() as int, k.0) && is_purged(
                    remote_of(before.events, k.0),
                    remote_of(remote, k.0),
                )));
            }
            assert forall|k: DeliveryKey| #[trigger]
                repository@.deliveries.contains_key(k) implies repository@.deliveries[k]
                == reconciled_deliveries(before, remote)[k] by {
                assert(middle.deliveries.contains_key(k));
            }
        }
    }
    repository.replace_holidays(&pull.holidays);
    if conflicts.len() == 0 {
        repository.set_setting("sync_cursor", signed_text(pull.cursor).as_str());
    }
    conflicts
}

/// Whether `id` is the key of one of the first `n` rows.
pub open spec fn key_among(rows: Seq<(Seq<char>, CalendarEvent)>, n: int, id: Seq<char>) -> bool {
    exists|i: int| 0 <= i < n && (#[trigger] rows[i]).0 == id
}

/// An event of a complete list is listed under its identity.
proof fn lemma_listed_under_id(
    events: Map<Seq<char>, EventView>,
    all: Seq<EventView>,
    id: Seq<char>,
    k: int,
)
    requires
        answers(events, EventQuery::All, all),
        0 <= k < all.len(),
        all[k] == events[id],
        events.contains_key(id),
        events_own_ids(events),
    ensures
        among(all, all.len() as int, id),
{
    assert(all[k].id == id);
}

/// Whether every event stands under its own identity.
pub open spec fn events_own_ids(events: Map<Seq<char>, EventView>) -> bool {
    forall|id: Seq<char>| #[trigger] events.contains_key(id) ==> events[id].id == id
}

/// Maps that agree on every identity are the same.
proof fn lemma_pointwise(
    after: Map<Seq<char>, EventView>,
    locals: Map<Seq<char>, EventView>,
    remote: Map<Seq<char>, EventView>,
)
    requires
        forall|id: Seq<char>| #[trigger]
            remote_of(after, id) == reconciled(remote_of(locals, id), remote_of(remote, id)),
    ensures
        after == reconciled_events(locals, remote),
{
    let wanted = reconciled_events(locals, remote);
    assert forall|id: Seq<char>| #[trigger] after.contains_key(id) == wanted.contains_key(id) by {
        assert(remote_of(after, id) == reconciled(remote_of(locals, id), remote_of(remote, id)));
    }
    assert forall|id: Seq<char>| #[trigger] after.contains_key(id) implies after[id]
        == wanted[id] by {
        assert(remote_of(after, id) == reconciled(remote_of(locals, id), remote_of(remote, id)));
    }
    assert(after =~= wanted);
}

/// Where no local event needs a decision, the device holds exactly what the server has afterwards;
/// a comparison with the same events then finds no difference and changes nothing.
pub proof fn without_decisions_both_sides_agree(
    locals: Map<Seq<char>, EventView>,
    remote: Map<Seq<char>, EventView>,
    id: Seq<char>,
)
    requires
        forall|k: Seq<char>| #[trigger]
            locals.contains_key(k) ==> !needs_decision(locals[k], remote_of(remote, k)),
    ensures
        reconciled_events(locals, remote) == remote,
        remote.contains_key(id) ==> !needs_decision(remote[id], remote_of(remote, id)),
        reconciled_events(remote, remote) == remote,
{
    assert(reconciled_events(locals, remote) =~= remote) by {
        assert forall|k: Seq<char>| #[trigger]
            reconciled_events(locals, remote).contains_key(k) == remote.contains_key(k) by {
            if locals.contains_key(k) {
                assert(!needs_decision(locals[k], remote_of(remote, k)));
            }
        }
        assert forall|k: Seq<char>| #[trigger]
            remote.contains_key(k) implies reconciled_events(locals, remote)[k] == remote[k] by {
            if locals.contains_key(k) {
                assert(!needs_decision(locals[k], remote_of(remote, k)));
            }
            assert(reconciled_events(locals, remote).contains_key(k));
        }
    }
    assert(reconciled_events(remote, remote) =~= remote);
}

/// The user is asked about exactly the local events that differ, and nothing of them is changed.
pub proof fn differing_events_wait_for_the_user(
    locals: Map<Seq<char>, EventView>,
    remote: Map<Seq<char>, EventView>,
    listed: Seq<EventView>,
    id: Seq<char>,
)
    requires
        answers(locals, EventQuery::All, listed),
        events_own_ids(locals),
        locals.contains_key(id),
    ensures
        needs_decision(locals[id], remote_of(remote, id)) ==> remote_of(
            reconciled_events(locals, remote),
            id,
        ) == Some(locals[id]),
        decisions(listed, remote).contains(
            ConflictView { local: locals[id], remote: remote_of(remote, id) },
        ) <==> needs_decision(locals[id], remote_of(remote, id)),
{
    lemma_decisions(listed, remote);
    assert(listed.contains(locals[id]));
    let wanted = ConflictView { local: locals[id], remote: remote_of(remote, id) };
    assert(wanted.local.id == id);
}

/// The decisions are those that some listed event needs.
proof fn lemma_decisions(listed: Seq<EventView>, remote: Map<Seq<char>, EventView>)
    ensures
        forall|c: ConflictView| #[trigger]
            decisions(listed, remote).contains(c) <==> listed.contains(c.local) && c.remote
                == remote_of(remote, c.local.id) && needs_decision(c.local, c.remote),
    decreases listed.len(),
{
    let found = decisions(listed, remote);
    if listed.len() > 0 {
        let shorter = listed.drop_last();
        let last = listed.last();
        let other = remote_of(remote, last.id);
        let before = decisions(shorter, remote);
        lemma_decisions(shorter, remote);
        assert(listed =~= shorter.push(last));
        assert forall|c: ConflictView| #[trigger] found.contains(c) <==> listed.contains(c.local)
            && c.remote == remote_of(remote, c.local.id) && needs_decision(c.local, c.remote) by {
            assert(before.contains(c) <==> shorter.contains(c.local) && c.remote == remote_of(
                remote,
                c.local.id,
            ) && needs_decision(c.local, c.remote));
            if found.contains(c) {
                let i = choose|i: int| 0 <= i < found.len() && found[i] == c;
                if i < before.len() {
                    assert(before[i] == c);
                    let k = choose|k: int| 0 <= k < shorter.len() && shorter[k] == c.local;
                    assert(listed[k] == c.local);
                } else {
                    assert(listed[listed.len() - 1] == c.local);
                }
            }
            if listed.contains(c.local) && c.remote == remote_of(remote, c.local.id)
                && needs_decision(c.local, c.remote) {
                let k = choose|k: int| 0 <= k < listed.len() && listed[k] == c.local;
                if k < shorter.len() {
                    assert(shorter[k] == c.local);
                    let i = choose|i: int| 0 <= i < before.len() && before[i] == c;
                    assert(found[i] == c);
                } else {
                    assert(c =~= ConflictView { local: last, remote: other });
                    assert(found[found.len() - 1] == c);
                }
            }
        }
    }
}

/// An event that this device and the server have, but not alike, stays on the device as it is and
/// is put before the user with both sides. It does not matter in which of the things that the user
/// can set they differ.
pub proof fn a_changed_event_waits_for_the_user(
    locals: Map<Seq<char>, EventView>,
    remote: Map<Seq<char>, EventView>,
    listed: Seq<EventView>,
    id: Seq<char>,
)
    requires
        answers(locals, EventQuery::All, listed),
        events_own_ids(locals),
        events_own_ids(remote),
        locals.contains_key(id),
        remote.contains_key(id),
        locals[id] != (EventView {
            version: locals[id].version,
            updated_seq: locals[id].updated_seq,
            updated_at: locals[id].updated_at,
            ..remote[id]
        }),
    ensures
        reconciled_events(locals, remote).contains_key(id),
        reconciled_events(locals, remote)[id] == locals[id],
        decisions(listed, remote).contains(
            ConflictView { local: locals[id], remote: Some(remote[id]) },
        ),
{
    assert(remote.contains_key(id) && remote[id].id == id);
    assert(locals.contains_key(id) && locals[id].id == id);
    equal_events_differ_in_nothing_the_user_set(locals[id], remote[id]);
    if same_content(locals[id], remote[id]) {
        assert(locals[id] =~= EventView {
            version: locals[id].version,
            updated_seq: locals[id].updated_seq,
            updated_at: locals[id].updated_at,
            ..remote[id]
        });
    }
    differing_events_wait_for_the_user(locals, remote, listed, id);
}

/// An event that the server does not have waits for the user and stays, unless it was deleted on
/// this device: then it is removed with all that was delivered of it.
pub proof fn an_event_of_this_device_alone_waits_or_goes(
    repository: RepositoryView,
    remote: Map<Seq<char>, EventView>,
    listed: Seq<EventView>,
    id: Seq<char>,
    key: DeliveryKey,
)
    requires
        answers(repository.events, EventQuery::All, listed),
        events_own_ids(repository.events),
        repository.events.contains_key(id),
        !remote.contains_key(id),
    ensures
        !repository.events[id].deleted ==> {
            &&& reconciled_events(repository.events, remote).contains_key(id)
            &&& reconciled_events(repository.events, remote)[id] == repository.events[id]
            &&& decisions(listed, remote).contains(
                ConflictView { local: repository.events[id], remote: None },
            )
        },
        repository.events[id].deleted ==> {
            &&& !reconciled_events(repository.events, remote).contains_key(id)
            &&& !decisions(listed, remote).contains(
                ConflictView { local: repository.events[id], remote: None },
            )
            &&& key.0 == id ==> !reconciled_deliveries(repository, remote).contains_key(key)
        },
        !repository.events[id].deleted && key.0 == id && repository.deliveries.contains_key(key)
            ==> reconciled_deliveries(repository, remote).contains_key(key)
            && reconciled_deliveries(repository, remote)[key] == repository.deliveries[key],
{
    differing_events_wait_for_the_user(repository.events, remote, listed, id);
}

/// What the device takes over without asking: an event that only the server has, and the server's
/// version, sequence number and time of an event that both have alike. Nobody is asked about these,
/// and what was delivered of them stays noted.
pub proof fn the_rest_is_taken_over(
    repository: RepositoryView,
    remote: Map<Seq<char>, EventView>,
    listed: Seq<EventView>,
    id: Seq<char>,
    key: DeliveryKey,
)
    requires
        answers(repository.events, EventQuery::All, listed),
        events_own_ids(repository.events),
        events_own_ids(remote),
        remote.contains_key(id),
        !repository.events.contains_key(id) || repository.events[id] == (EventView {
            version: repository.events[id].version,
            updated_seq: repository.events[id].updated_seq,
            updated_at: repository.events[id].updated_at,
            ..remote[id]
        }),
    ensures
        reconciled_events(repository.events, remote).contains_key(id),
        reconciled_events(repository.events, remote)[id] == remote[id],
        forall|c: ConflictView| #[trigger]
            decisions(listed, remote).contains(c) ==> c.local.id != id,
        key.0 == id ==> (reconciled_deliveries(repository, remote).contains_key(key)
            <==> repository.deliveries.contains_key(key)),
{
    lemma_decisions(listed, remote);
    assert(remote.contains_key(id) && remote[id].id == id);
    if repository.events.contains_key(id) {
        equal_events_differ_in_nothing_the_user_set(repository.events[id], remote[id]);
        assert(remote[id] =~= EventView {
            id: remote[id].id,
            version: remote[id].version,
            updated_seq: remote[id].updated_seq,
            updated_at: remote[id].updated_at,
            ..repository.events[id]
        });
    }
    assert forall|c: ConflictView| #[trigger] decisions(listed, remote).contains(c) implies
        c.local.id != id by {
        if c.local.id == id {
            assert(listed.contains(c.local));
            let k = choose|k: int| 0 <= k < listed.len() && listed[k] == c.local;
            assert(repository.events.contains_key(listed[k].id));
        }
    }
}

/// The user is asked about no event twice, and only about events of this device.
pub proof fn each_difference_is_shown_once(
    locals: Map<Seq<char>, EventView>,
    remote: Map<Seq<char>, EventView>,
    listed: Seq<EventView>,
    i: int,
    j: int,
)
    requires
        answers(locals, EventQuery::All, listed),
        0 <= i < j < decisions(listed, remote).len(),
    ensures
        decisions(listed, remote)[i].local.id != decisions(listed, remote)[j].local.id,
        locals.contains_key(decisions(listed, remote)[i].local.id),
        locals[decisions(listed, remote)[i].local.id] == decisions(listed, remote)[i].local,
{
    lemma_decision_positions(listed, remote, i);
    lemma_decision_positions(listed, remote, j);
    let found = decisions(listed, remote);
    lemma_decision_order(listed, remote, i, j);
}

/// Every decision is about a listed event.
proof fn lemma_decision_positions(listed: Seq<EventView>, remote: Map<Seq<char>, EventView>, i: int)
    requires
        0 <= i < decisions(listed, remote).len(),
    ensures
        exists|k: int| 0 <= k < listed.len() && #[trigger] listed[k] == decisions(listed, remote)[i].local,
{
    lemma_decisions(listed, remote);
    let c = decisions(listed, remote)[i];
    assert(decisions(listed, remote).contains(c));
    assert(listed.contains(c.local));
}

/// Two decisions are about two events of the list, in its order.
proof fn lemma_decision_order(
    listed: Seq<EventView>,
    remote: Map<Seq<char>, EventView>,
    i: int,
    j: int,
)
    requires
        0 <= i < j < decisions(listed, remote).len(),
    ensures
        exists|a: int, b: int|
            0 <= a < b < listed.len() && #[trigger] listed[a] == decisions(listed, remote)[i].local
                && #[trigger] listed[b] == decisions(listed, remote)[j].local,
    decreases listed.len(),
{
    let found = decisions(listed, remote);
    let shorter = listed.drop_last();
    let before = decisions(shorter, remote);
    if j < before.len() {
        lemma_decision_order(shorter, remote, i, j);
        let (a, b) = choose|a: int, b: int|
            0 <= a < b < shorter.len() && #[trigger] shorter[a] == before[i].local
                && #[trigger] shorter[b] == before[j].local;
        assert(listed[a] == found[i].local && listed[b] == found[j].local);
    } else {
        lemma_decision_positions(shorter, remote, i);
        let a = choose|a: int| 0 <= a < shorter.len() && #[trigger] shorter[a] == before[i].local;
        assert(listed[a] == found[i].local);
        assert(listed[listed.len() - 1] == found[j].local);
    }
}

/// Of the server's events each counts under its own identity, where no two have the same.
pub proof fn the_servers_events_stand_under_their_ids(events: Seq<EventView>, i: int)
    requires
        0 <= i < events.len(),
        forall|j: int| i < j < events.len() ==> (#[trigger] events[j]).id != events[i].id,
    ensures
        by_id(events).contains_key(events[i].id),
        by_id(events)[events[i].id] == events[i],
        events_own_ids(by_id(events)),
    decreases events.len(),
{
    let shorter = events.drop_last();
    lemma_own_ids(events);
    if i < events.len() - 1 {
        assert(shorter[i] == events[i]);
        assert forall|j: int| i < j < shorter.len() implies (#[trigger] shorter[j]).id
            != shorter[i].id by {
            assert(events[j].id != events[i].id);
        }
        the_servers_events_stand_under_their_ids(shorter, i);
        assert(events[events.len() - 1].id != events[i].id);
    }
}

/// Events by identity stand under their own, and there are no others.
proof fn lemma_own_ids(events: Seq<EventView>)
    ensures
        events_own_ids(by_id(events)),
    decreases events.len(),
{
    if events.len() > 0 {
        lemma_own_ids(events.drop_last());
    }
}

/// What settles a difference.
#[derive(Debug)]
pub enum Resolution {
    /// The server deletes the event of this identity and version, and its answer is kept.
    DeleteRemote(String, i64),
    /// The event is removed from the device.
    Purge(String),
    /// The event goes to the server, and its answer is kept.
    Push(CalendarEvent),
    /// The server's event is kept.
    Take(CalendarEvent),
}

/// What settles `conflict`, as the user chose the local side or the server's.
pub fn resolve_sync_conflict(conflict: &SyncConflict, use_local: bool) -> (r: Resolution)
    ensures
        match (use_local, conflict@.local.deleted, conflict@.remote) {
            (true, true, Some(remote)) => r matches Resolution::DeleteRemote(id, version) && id@
                == remote.id && version == remote.version,
            (true, true, None) => r matches Resolution::Purge(id) && id@ == conflict@.local.id,
            (true, false, Some(remote)) => r matches Resolution::Push(event) && event@
                == (EventView { version: remote.version, ..conflict@.local }),
            (true, false, None) => r matches Resolution::Push(event) && event@ == conflict@.local,
            (false, _, Some(remote)) => r matches Resolution::Take(event) && event@ == remote,
            (false, _, None) => r matches Resolution::Purge(id) && id@ == conflict@.local.id,
        },
{
    if use_local {
        if conflict.local.deleted {
            match &conflict.remote {
                Some(remote) => Resolution::DeleteRemote(remote.id.clone(), remote.version),
                None => Resolution::Purge(conflict.local.id.clone()),
            }
        } else {
            let mut event = conflict.local.clone();
            if let Some(remote) = &conflict.remote {
                event.version = remote.version;
            }
            Resolution::Push(event)
        }
    } else {
        match &conflict.remote {
            Some(remote) => Resolution::Take(remote.clone()),
            None => Resolution::Purge(conflict.local.id.clone()),
        }
    }
}

/// Whether a difference is settled, and the repository after that. What goes to the server needs
/// its answer.
pub open spec fn resolved(
    repository: RepositoryView,
    resolution: Resolution,
    answer: Option<EventView>,
) -> (bool, RepositoryView) {
    match resolution {
        Resolution::Purge(id) => (true, purged(repository, id@)),
        Resolution::Take(event) => (true, stored(repository, event@)),
        _ => match answer {
            Some(event) => (true, stored(repository, event)),
            None => (false, repository),
        },
    }
}

/// Settles a difference on the device. `answer` is the event that the server returned, where it was
/// asked. Returns whether the difference is settled.
pub fn apply_resolution(
    repository: &mut LocalRepository,
    resolution: &Resolution,
    answer: Option<&CalendarEvent>,
) -> (settled: bool)
    requires
        old(repository).wf(),
    ensures
        final(repository).wf(),
        (settled, final(repository)@) == resolved(
            old(repository)@,
            *resolution,
            match answer {
                Some(event) => Some(event@),
                None => None,
            },
        ),
{
    match resolution {
        Resolution::Purge(id) => {
            repository.purge_event(id.as_str());
            true
        },
        Resolution::Take(event) => {
            repository.upsert_event(event);
            true
        },
        _ => match answer {
            Some(event) => {
                repository.upsert_event(event);
                true
            },
            None => false,
        },
    }
}

/// What users read of one side of a difference.
pub open spec fn summary_text(event: Option<EventView>) -> Seq<char> {
    match event {
        None => "云端不存在这条日程"@,
        Some(e) => (if e.deleted {
            "已删除"@
        } else {
            e.title
        }) + "\n"@ + date_of_number(e.start_at.local_day()).written() + " "@ + local_time_text(
            e.start_at,
        ) + "\n"@ + (if e.location.len() == 0 {
            "未填写地点"@
        } else {
            e.location
        }) + "\n提醒："@ + reminder_text(e.reminder_minutes) + (if e.force_reminder {
            "（强制提醒）"@
        } else {
            ""@
        }),
    }
}

/// What users read of one side of a difference.
pub fn sync_event_summary(event: Option<&CalendarEvent>) -> (r: String)
    ensures
        r@ == summary_text(
            match event {
                Some(e) => Some(e@),
                None => None,
            },
        ),
{
    match event {
        None => "云端不存在这条日程".to_owned(),
        Some(e) => {
            let date = e.start_at.local_date();
            proof {
                lemma_date_of_number(date);
            }
            let mut r = (if e.deleted {
                "已删除"
            } else {
                e.title.as_str()
            }).to_owned();
            r.append("\n");
            r.append(date.text().as_str());
            r.append(" ");
            r.append(local_time(&e.start_at).as_str());
            r.append("\n");
            r.append(if e.location.as_str().is_empty() {
                "未填写地点"
            } else {
                e.location.as_str()
            });
            r.append("\n提醒：");
            r.append(reminder_summary(&e.reminder_minutes).as_str());
            r.append(if e.force_reminder {
                "（强制提醒）"
            } else {
                ""
            });
            r
        },
    }
}

/// What users read of one side of a difference: the title, or that the event is deleted, when it
/// begins, where it takes place, how it reminds, and whether its reminders have to be confirmed.
/// A side without the event says so.
pub proof fn a_side_tells_its_event(e: EventView)
    ensures
        summary_text(None) == seq!['云', '端', '不', '存', '在', '这', '条', '日', '程'],
        ({
            let begins = date_of_number(e.start_at.local_day()).written() + seq![' ']
                + local_time_text(e.start_at);
            let name = if e.deleted {
                seq!['已', '删', '除']
            } else {
                e.title
            };
            let place = if e.location.len() == 0 {
                seq!['未', '填', '写', '地', '点']
            } else {
                e.location
            };
            let told = name + seq!['\n'] + begins + seq!['\n'] + place + seq![
                '\n',
                '提',
                '醒',
                '：',
            ] + reminder_text(e.reminder_minutes);
            &&& !e.force_reminder ==> summary_text(Some(e)) == told
            &&& e.force_reminder ==> summary_text(Some(e)) == told + seq![
                '（',
                '强',
                '制',
                '提',
                '醒',
                '）',
            ]
        }),
{
    reveal_strlit("云端不存在这条日程");
    reveal_strlit("已删除");
    reveal_strlit("\n");
    reveal_strlit(" ");
    reveal_strlit("未填写地点");
    reveal_strlit("\n提醒：");
    reveal_strlit("（强制提醒）");
    reveal_strlit("");
    assert("云端不存在这条日程"@ =~= seq!['云', '端', '不', '存', '在', '这', '条', '日', '程']);
    assert("已删除"@ =~= seq!['已', '删', '除']);
    assert("\n"@ =~= seq!['\n']);
    assert(" "@ =~= seq![' ']);
    assert("未填写地点"@ =~= seq!['未', '填', '写', '地', '点']);
    assert("\n提醒："@ =~= seq!['\n', '提', '醒', '：']);
    assert("（强制提醒）"@ =~= seq!['（', '强', '制', '提', '醒', '）']);
    let begins = date_of_number(e.start_at.local_day()).written() + seq![' '] + local_time_text(
        e.start_at,
    );
    let name = if e.deleted {
        seq!['已', '删', '除']
    } else {
        e.title
    };
    let place = if e.location.len() == 0 {
        seq!['未', '填', '写', '地', '点']
    } else {
        e.location
    };
    let told = name + seq!['\n'] + begins + seq!['\n'] + place + seq!['\n', '提', '醒', '：']
        + reminder_text(e.reminder_minutes);
    assert(summary_text(Some(e)) =~= told + (if e.force_reminder {
        "（强制提醒）"@
    } else {
        ""@
    }));
    assert(told + ""@ =~= told);
}

/// Settling a difference brings the chosen event onto this device: the server's event, or the
/// server's answer, is the one that is found there, and one that is removed is gone together with
/// the notes of its reminders. Without the server's answer nothing changes. No other event, and no
/// setting or holiday, is touched.
pub proof fn a_settled_event_is_found(
    repository: RepositoryView,
    resolution: Resolution,
    answer: Option<EventView>,
    other: Seq<char>,
)
    ensures
        ({
            let (settled, after) = resolved(repository, resolution, answer);
            &&& !settled <==> answer is None && (resolution is Push || resolution is DeleteRemote)
            &&& !settled ==> after == repository
            &&& resolution matches Resolution::Take(event) ==> after.events.contains_key(event@.id)
                && after.events[event@.id] == event@
            &&& resolution matches Resolution::Purge(id) ==> !after.events.contains_key(id@)
                && forall|k: DeliveryKey| #[trigger]
                after.deliveries.contains_key(k) ==> k.0 != id@
            &&& settled && (resolution is Push || resolution is DeleteRemote) ==> (
            answer matches Some(event) && after.events.contains_key(event.id)
                && after.events[event.id] == event)
            &&& after.settings == repository.settings && after.holidays == repository.holidays
            &&& !(resolution matches Resolution::Take(event) && event@.id == other) && !(
            resolution matches Resolution::Purge(id) && id@ == other) && !(
            answer matches Some(event) && event.id == other) ==> (after.events.contains_key(other)
                <==> repository.events.contains_key(other)) && (repository.events.contains_key(
                other,
            ) ==> after.events[other] == repository.events[other])
        }),
{
}

} // verus!
