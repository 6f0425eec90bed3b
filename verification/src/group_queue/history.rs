//! What becomes of the queue over time: over any history of requests and ends of
//! runs, and once nothing new is asked for.

use vstd::prelude::*;

use crate::group_queue::{
    active_groups, after_messages, drain_waiting, finish_keeps_order, finish_step, group_named,
    group_of, has_pending, lemma_active_insert, message_check_keeps_order, message_check_step,
    queue_ok, same_settings, start_pending, stopped, task_keeps_order,
    task_step, with_group, ActionView, ActiveRunKind, GroupView, QueueView,
};

verus! {

// ---------------------------------------------------------------------------
// Histories
// ---------------------------------------------------------------------------

/// What happens to the queue.
pub enum QueueEvent<T> {
    /// A message check is asked for.
    Check { jid: Seq<char> },
    /// A task is given.
    Give { jid: Seq<char>, id: Seq<char>, run: T },
    /// The run of a group ends.
    End { jid: Seq<char>, success: bool },
}

/// Whether a group runs.
pub open spec fn runs<T, P>(queue: QueueView<T, P>, jid: Seq<char>) -> bool {
    queue.groups.contains_key(jid) && queue.groups[jid].active
}

/// What the end of its run leaves of a group.
pub open spec fn after_run<T>(group: GroupView<T>, success: bool, max_retries: u32) -> GroupView<T> {
    if group.active_run == Some(ActiveRunKind::Messages) {
        after_messages(group, success, max_retries)
    } else {
        stopped(group)
    }
}

/// An action that may be none, as a list.
pub open spec fn listed<T>(action: Option<ActionView<T>>) -> Seq<ActionView<T>> {
    match action {
        Some(action) => seq![action],
        None => Seq::empty(),
    }
}

/// The queue after an event, and the runs that it starts.
pub open spec fn event_step<T, P>(queue: QueueView<T, P>, event: QueueEvent<T>) -> (
    QueueView<T, P>,
    Seq<ActionView<T>>,
) {
    match event {
        QueueEvent::Check { jid } => {
            let (after, action) = message_check_step(queue, jid);
            (after, listed(action))
        },
        QueueEvent::Give { jid, id, run } => {
            let (after, action, _) = task_step(queue, jid, id, run);
            (after, listed(action))
        },
        QueueEvent::End { jid, success } => finish_step(
            queue,
            jid,
            after_run(queue.groups[jid], success, queue.max_retries),
        ),
    }
}

/// Whether an event can happen: only what runs can end.
pub open spec fn can_happen<T, P>(queue: QueueView<T, P>, event: QueueEvent<T>) -> bool {
    match event {
        QueueEvent::End { jid, .. } => runs(queue, jid),
        _ => true,
    }
}

/// Whether events can happen one after another.
pub open spec fn can_follow<T, P>(queue: QueueView<T, P>, events: Seq<QueueEvent<T>>) -> bool
    decreases events.len(),
{
    events.len() == 0 || (can_happen(queue, events[0]) && can_follow(
        event_step(queue, events[0]).0,
        events.drop_first(),
    ))
}

/// The queue after events, and the runs that they start, in order.
pub open spec fn history<T, P>(queue: QueueView<T, P>, events: Seq<QueueEvent<T>>) -> (
    QueueView<T, P>,
    Seq<ActionView<T>>,
)
    decreases events.len(),
{
    if events.len() == 0 {
        (queue, Seq::empty())
    } else {
        let (next, first) = event_step(queue, events[0]);
        let (end, rest) = history(next, events.drop_first());
        (end, first + rest)
    }
}

proof fn lemma_event_keeps_order<T, P>(queue: QueueView<T, P>, event: QueueEvent<T>)
    requires
        queue_ok(queue),
        can_happen(queue, event),
    ensures
        queue_ok(event_step(queue, event).0),
        same_settings(event_step(queue, event).0, queue),
{
    match event {
        QueueEvent::Check { jid } => message_check_keeps_order(queue, jid),
        QueueEvent::Give { jid, id, run } => task_keeps_order(queue, jid, id, run),
        QueueEvent::End { jid, success } => finish_keeps_order(
            queue,
            jid,
            after_run(queue.groups[jid], success, queue.max_retries),
        ),
    }
}

/// Over any history of requests and ends of runs the queue stays in order: the
/// runs never exceed the limit, and no group has more than one.
pub proof fn history_keeps_order<T, P>(queue: QueueView<T, P>, events: Seq<QueueEvent<T>>)
    requires
        queue_ok(queue),
        can_follow(queue, events),
    ensures
        queue_ok(history(queue, events).0),
        same_settings(history(queue, events).0, queue),
    decreases events.len(),
{
    if events.len() > 0 {
        lemma_event_keeps_order(queue, events[0]);
        history_keeps_order(event_step(queue, events[0]).0, events.drop_first());
    }
}

// ---------------------------------------------------------------------------
// Requests are not lost
// ---------------------------------------------------------------------------

/// A check is not lost: until shutdown it starts a run, or the group has messages
/// pending and, unless it runs, waits.
pub proof fn check_is_not_lost<T, P>(queue: QueueView<T, P>, jid: Seq<char>)
    requires
        queue_ok(queue),
        !queue.shutting_down,
    ensures
        ({
            let (after, action) = message_check_step(queue, jid);
            ||| action == Some(ActionView::<T>::RunMessages { group_jid: jid })
            ||| after.groups.contains_key(jid) && after.groups[jid].pending_messages && (
            after.groups[jid].active || after.waiting.contains(jid))
        }),
{
    message_check_keeps_order(queue, jid);
    let after = message_check_step(queue, jid).0;
    assert(after.groups.contains_key(jid));
}

/// A busy group goes on: where work was asked for while it ran, the end of its
/// run starts the group again first of all, with its oldest task, or with its
/// messages where no task is pending.
pub proof fn busy_group_goes_on<T, P>(
    queue: QueueView<T, P>,
    jid: Seq<char>,
    group: GroupView<T>,
)
    requires
        !queue.shutting_down,
        !group.active,
        has_pending(group),
    ensures
        ({
            let actions = finish_step(queue, jid, group).1;
            &&& actions.len() > 0
            &&& actions[0] == pending_starts(jid, group)[0]
        }),
{
}

/// Whether an event frees a slot: a run ends whose group has nothing more
/// pending.
pub open spec fn frees_slot<T, P>(queue: QueueView<T, P>, event: QueueEvent<T>) -> bool {
    match event {
        QueueEvent::End { jid, .. } => !has_pending(queue.groups[jid]),
        _ => false,
    }
}

/// How many events free a slot.
pub open spec fn freed_slots<T, P>(queue: QueueView<T, P>, events: Seq<QueueEvent<T>>) -> nat
    decreases events.len(),
{
    if events.len() == 0 {
        0
    } else {
        let rest = freed_slots(event_step(queue, events[0]).0, events.drop_first());
        if frees_slot(queue, events[0]) {
            rest + 1
        } else {
            rest
        }
    }
}

/// Whether a group is named by one of the actions.
pub open spec fn starts_group<T>(actions: Seq<ActionView<T>>, jid: Seq<char>) -> bool {
    exists|i: int| 0 <= i < actions.len() && group_named(#[trigger] actions[i]) == jid
}

proof fn lemma_starts_group_concat<T>(
    first: Seq<ActionView<T>>,
    rest: Seq<ActionView<T>>,
    jid: Seq<char>,
)
    requires
        starts_group(first, jid) || starts_group(rest, jid),
    ensures
        starts_group(first + rest, jid),
{
    let all = first + rest;
    if starts_group(first, jid) {
        let i = choose|i: int| 0 <= i < first.len() && group_named(#[trigger] first[i]) == jid;
        assert(all[i] == first[i]);
    } else {
        let i = choose|i: int| 0 <= i < rest.len() && group_named(#[trigger] rest[i]) == jid;
        assert(all[first.len() + i] == rest[i]);
    }
}

/// Whether the group at a place in the waiting list has work and does not run.
pub open spec fn waits_at<T, P>(queue: QueueView<T, P>, place: int) -> bool {
    &&& 0 <= place < queue.waiting.len()
    &&& queue.groups.contains_key(queue.waiting[place])
    &&& !queue.groups[queue.waiting[place]].active
    &&& has_pending(queue.groups[queue.waiting[place]])
}

/// Draining starts the group at a place, or brings it forward.
proof fn lemma_drain_reaches<T, P>(queue: QueueView<T, P>, place: int)
    requires
        queue.waiting.no_duplicates(),
        queue.active_count < queue.max_concurrent,
        waits_at(queue, place),
    ensures
        ({
            let (after, actions) = drain_waiting(queue);
            let n = queue.waiting.len() - after.waiting.len();
            ||| starts_group(actions, queue.waiting[place])
            ||| n >= 1 && n <= place && waits_at(after, place - n) && after.waiting[place - n]
                == queue.waiting[place]
        }),
    decreases queue.waiting.len(),
{
    let jid = queue.waiting[place];
    let front = queue.waiting[0];
    let popped = QueueView { waiting: queue.waiting.drop_first(), ..queue };
    let (started, first) = start_pending(popped, front);
    let (after, rest) = drain_waiting(started);
    if place == 0 {
        assert(first.len() == 1);
        assert(group_named(first[0]) == jid);
        lemma_starts_group_concat(first, rest, jid);
    } else {
        assert(front != jid);
        assert(popped.waiting[place - 1] == jid);
        assert(started.waiting == popped.waiting);
        assert(started.groups[jid] == queue.groups[jid]);
        assert(waits_at(started, place - 1));
        if started.active_count < started.max_concurrent {
            assert(started.waiting.no_duplicates()) by {
                assert forall|i: int, j: int|
                    0 <= i < started.waiting.len() && 0 <= j < started.waiting.len() && i
                        != j implies started.waiting[i] != started.waiting[j] by {
                    assert(started.waiting[i] == queue.waiting[i + 1]);
                    assert(started.waiting[j] == queue.waiting[j + 1]);
                }
            }
            lemma_drain_reaches(started, place - 1);
            if starts_group(rest, jid) {
                lemma_starts_group_concat(first, rest, jid);
            }
        }
    }
}

/// One event starts the group at a place, or keeps its turn: it comes forward
/// where a slot was freed, and never falls back.
proof fn lemma_event_reaches<T, P>(queue: QueueView<T, P>, event: QueueEvent<T>, place: int)
    requires
        queue_ok(queue),
        !queue.shutting_down,
        can_happen(queue, event),
        waits_at(queue, place),
    ensures
        ({
            let (after, actions) = event_step(queue, event);
            ||| starts_group(actions, queue.waiting[place])
            ||| exists|p: int|
                p <= place && (frees_slot(queue, event) ==> p < place) && #[trigger] waits_at(
                    after,
                    p,
                ) && after.waiting[p] == queue.waiting[place]
        }),
{
    let jid = queue.waiting[place];
    let (after, actions) = event_step(queue, event);
    match event {
        QueueEvent::Check { jid: other } => {
            assert(after.waiting[place] == jid);
            assert(waits_at(after, place));
        },
        QueueEvent::Give { jid: other, id, run } => {
            assert(after.waiting[place] == jid);
            assert(waits_at(after, place));
        },
        QueueEvent::End { jid: other, success } => {
            let group = after_run(queue.groups[other], success, queue.max_retries);
            let freed = QueueView {
                active_count: (queue.active_count - 1) as nat,
                ..with_group(queue, other, group)
            };
            let (started, first) = start_pending(freed, other);
            let (drained, rest) = drain_waiting(started);
            lemma_active_insert(queue.groups, other, group);
            assert(active_groups(queue.groups).contains(other));
            assert(queue.active_count > 0);
            assert(other != jid);
            assert(started.groups[jid] == queue.groups[jid]);
            assert(started.waiting == queue.waiting);
            assert(waits_at(started, place));
            if has_pending(group) {
                assert(started.active_count == queue.max_concurrent);
                assert(drained == started);
                assert(waits_at(after, place));
            } else {
                lemma_drain_reaches(started, place);
                if starts_group(rest, jid) {
                    lemma_starts_group_concat(first, rest, jid);
                } else {
                    let n = queue.waiting.len() - drained.waiting.len();
                    assert(waits_at(after, place - n));
                }
            }
        },
    }
}

/// A waiting group gets its turn, whatever else is asked for: a group that waits
/// behind `place` others is started before more than `place` runs have ended whose
/// groups had nothing more pending.
pub proof fn waiting_group_gets_its_turn<T, P>(
    queue: QueueView<T, P>,
    events: Seq<QueueEvent<T>>,
    place: int,
)
    requires
        queue_ok(queue),
        !queue.shutting_down,
        can_follow(queue, events),
        waits_at(queue, place),
        freed_slots(queue, events) > place,
    ensures
        starts_group(history(queue, events).1, queue.waiting[place]),
    decreases events.len(),
{
    let event = events[0];
    let (next, first) = event_step(queue, event);
    let rest = history(next, events.drop_first()).1;
    let jid = queue.waiting[place];
    lemma_event_keeps_order(queue, event);
    lemma_event_reaches(queue, event, place);
    if !starts_group(first, jid) {
        let p = choose|p: int|
            p <= place && (frees_slot(queue, event) ==> p < place) && #[trigger] waits_at(next, p)
                && next.waiting[p] == jid;
        waiting_group_gets_its_turn(next, events.drop_first(), p);
    }
    lemma_starts_group_concat(first, rest, jid);
}

// ---------------------------------------------------------------------------
// When nothing new is asked for
// ---------------------------------------------------------------------------

/// Whether nothing new is asked for: runs only end.
pub open spec fn only_ends<T>(events: Seq<QueueEvent<T>>) -> bool {
    forall|i: int| 0 <= i < events.len() ==> #[trigger] events[i] is End
}

/// The runs that a group's pending work calls for: its tasks in order, then its
/// messages.
pub open spec fn pending_starts<T>(jid: Seq<char>, group: GroupView<T>) -> Seq<ActionView<T>> {
    Seq::new(
        group.pending_tasks.len(),
        |i: int|
            ActionView::RunTask {
                group_jid: jid,
                task_id: group.pending_tasks[i].0,
                run: group.pending_tasks[i].1,
            },
    ) + (if group.pending_messages {
        seq![ActionView::RunMessages { group_jid: jid }]
    } else {
        seq![]
    })
}

/// The runs that a group of the queue still waits for.
pub open spec fn pending_of<T, P>(queue: QueueView<T, P>, jid: Seq<char>) -> Seq<ActionView<T>> {
    pending_starts(jid, group_of(queue, jid))
}

/// The actions that are for a group, in order.
pub open spec fn starts_of<T>(actions: Seq<ActionView<T>>, jid: Seq<char>) -> Seq<ActionView<T>>
    decreases actions.len(),
{
    if actions.len() == 0 {
        Seq::empty()
    } else {
        let rest = starts_of(actions.drop_first(), jid);
        if group_named(actions[0]) == jid {
            seq![actions[0]] + rest
        } else {
            rest
        }
    }
}

proof fn lemma_starts_of_concat<T>(
    first: Seq<ActionView<T>>,
    rest: Seq<ActionView<T>>,
    jid: Seq<char>,
)
    ensures
        starts_of(first + rest, jid) == starts_of(first, jid) + starts_of(rest, jid),
    decreases first.len(),
{
    let all = first + rest;
    if first.len() == 0 {
        assert(all =~= rest);
        assert(starts_of(first, jid) + starts_of(rest, jid) =~= starts_of(rest, jid));
    } else {
        assert(all.drop_first() =~= first.drop_first() + rest);
        lemma_starts_of_concat(first.drop_first(), rest, jid);
        assert(starts_of(all, jid) =~= starts_of(first, jid) + starts_of(rest, jid));
    }
}

/// What a start takes from a group's pending work is what it starts.
proof fn lemma_start_takes<T, P>(queue: QueueView<T, P>, other: Seq<char>, jid: Seq<char>)
    ensures
        starts_of(start_pending(queue, other).1, jid) + pending_of(
            start_pending(queue, other).0,
            jid,
        ) == pending_of(queue, jid),
{
    let (after, actions) = start_pending(queue, other);
    let taken = starts_of(actions, jid);
    reveal_with_fuel(starts_of, 2);
    if actions.len() == 0 {
        assert(taken + pending_of(after, jid) =~= pending_of(queue, jid));
    } else {
        assert(actions.len() == 1);
        assert(actions.drop_first() =~= Seq::<ActionView<T>>::empty());
        assert(group_named(actions[0]) == other);
        if other != jid {
            assert(taken =~= Seq::<ActionView<T>>::empty());
            assert(group_of(after, jid) == group_of(queue, jid));
            assert(taken + pending_of(after, jid) =~= pending_of(queue, jid));
        } else {
            let group = queue.groups[jid];
            assert(taken =~= actions);
            assert(taken + pending_of(after, jid) =~= pending_starts(jid, group));
        }
    }
}

proof fn lemma_drain_takes<T, P>(queue: QueueView<T, P>, jid: Seq<char>)
    ensures
        starts_of(drain_waiting(queue).1, jid) + pending_of(drain_waiting(queue).0, jid)
            == pending_of(queue, jid),
    decreases queue.waiting.len(),
{
    let (after, actions) = drain_waiting(queue);
    if queue.active_count < queue.max_concurrent && queue.waiting.len() > 0 {
        let popped = QueueView { waiting: queue.waiting.drop_first(), ..queue };
        let (started, first) = start_pending(popped, queue.waiting[0]);
        let rest = drain_waiting(started).1;
        lemma_start_takes(popped, queue.waiting[0], jid);
        lemma_drain_takes(started, jid);
        lemma_starts_of_concat(first, rest, jid);
        assert(starts_of(actions, jid) + pending_of(after, jid) =~= pending_of(queue, jid));
    } else {
        assert(starts_of(actions, jid) + pending_of(after, jid) =~= pending_of(queue, jid));
    }
}

proof fn lemma_end_takes<T, P>(queue: QueueView<T, P>, event: QueueEvent<T>, jid: Seq<char>)
    requires
        event is End,
        can_happen(queue, event),
    ensures
        starts_of(event_step(queue, event).1, jid) + pending_of(event_step(queue, event).0, jid)
            == pending_of(queue, jid),
{
    let other = event->End_jid;
    let group = after_run(queue.groups[other], event->End_success, queue.max_retries);
    let freed = QueueView {
        active_count: (queue.active_count - 1) as nat,
        ..with_group(queue, other, group)
    };
    let (after, actions) = event_step(queue, event);
    assert(pending_of(freed, jid) =~= pending_of(queue, jid));
    if queue.shutting_down {
        assert(starts_of(actions, jid) + pending_of(after, jid) =~= pending_of(queue, jid));
    } else {
        let (started, first) = start_pending(freed, other);
        let rest = drain_waiting(started).1;
        lemma_start_takes(freed, other, jid);
        lemma_drain_takes(started, jid);
        lemma_starts_of_concat(first, rest, jid);
        assert(starts_of(actions, jid) + pending_of(after, jid) =~= pending_of(queue, jid));
    }
}

/// Nothing pending is lost, doubled or reordered: while runs only end, what is
/// started for a group and what it still waits for are together what it waited
/// for before, its tasks in order and its messages last.
pub proof fn pending_work_is_kept<T, P>(
    queue: QueueView<T, P>,
    events: Seq<QueueEvent<T>>,
    jid: Seq<char>,
)
    requires
        can_follow(queue, events),
        only_ends(events),
    ensures
        starts_of(history(queue, events).1, jid) + pending_of(history(queue, events).0, jid)
            == pending_of(queue, jid),
    decreases events.len(),
{
    let (end, started) = history(queue, events);
    if events.len() > 0 {
        let (next, first) = event_step(queue, events[0]);
        let rest = history(next, events.drop_first()).1;
        assert(events[0] is End);
        assert(only_ends(events.drop_first())) by {
            assert forall|i: int| 0 <= i < events.drop_first().len() implies
                #[trigger] events.drop_first()[i] is End by {
                assert(events.drop_first()[i] == events[i + 1]);
            }
        }
        lemma_end_takes(queue, events[0], jid);
        pending_work_is_kept(next, events.drop_first(), jid);
        lemma_starts_of_concat(first, rest, jid);
    }
    assert(starts_of(started, jid) + pending_of(end, jid) =~= pending_of(queue, jid));
}

/// How many runs a group's pending work calls for.
pub open spec fn pending_count<T>(group: GroupView<T>) -> nat {
    group.pending_tasks.len() + (if group.pending_messages {
        1nat
    } else {
        0
    })
}

/// How many runs the pending work of the named groups calls for.
pub open spec fn pending_total<T>(
    groups: Map<Seq<char>, GroupView<T>>,
    names: Set<Seq<char>>,
) -> nat
    decreases names.len(),
{
    if names.finite() && names.len() > 0 {
        let jid = names.choose();
        pending_count(groups[jid]) + pending_total(groups, names.remove(jid))
    } else {
        0
    }
}

/// How many runs are still to end: those that go on, and those that pending work
/// calls for.
pub open spec fn runs_left<T, P>(queue: QueueView<T, P>) -> nat {
    queue.active_count + pending_total(queue.groups, queue.groups.dom())
}

proof fn lemma_total_split<T>(
    groups: Map<Seq<char>, GroupView<T>>,
    names: Set<Seq<char>>,
    jid: Seq<char>,
)
    requires
        names.finite(),
        names.contains(jid),
    ensures
        pending_total(groups, names) == pending_count(groups[jid]) + pending_total(
            groups,
            names.remove(jid),
        ),
    decreases names.len(),
{
    let chosen = names.choose();
    assert(names.len() > 0);
    assert(names.contains(chosen));
    if chosen != jid {
        lemma_total_split(groups, names.remove(chosen), jid);
        lemma_total_split(groups, names.remove(jid), chosen);
        assert(names.remove(chosen).remove(jid) =~= names.remove(jid).remove(chosen));
    }
}

proof fn lemma_total_same<T>(
    a: Map<Seq<char>, GroupView<T>>,
    b: Map<Seq<char>, GroupView<T>>,
    names: Set<Seq<char>>,
)
    requires
        forall|jid: Seq<char>| #[trigger] names.contains(jid) ==> a[jid] == b[jid],
    ensures
        pending_total(a, names) == pending_total(b, names),
    decreases names.len(),
{
    if names.finite() && names.len() > 0 {
        let jid = names.choose();
        assert(names.contains(jid));
        assert forall|other: Seq<char>| #[trigger] names.remove(jid).contains(other) implies a[other]
            == b[other] by {
            assert(names.contains(other));
        }
        lemma_total_same(a, b, names.remove(jid));
    }
}

proof fn lemma_total_insert<T>(
    groups: Map<Seq<char>, GroupView<T>>,
    jid: Seq<char>,
    group: GroupView<T>,
)
    requires
        groups.dom().finite(),
        groups.contains_key(jid),
    ensures
        groups.insert(jid, group).dom() == groups.dom(),
        pending_total(groups.insert(jid, group), groups.dom()) + pending_count(groups[jid])
            == pending_total(groups, groups.dom()) + pending_count(group),
{
    let after = groups.insert(jid, group);
    assert(after.dom() =~= groups.dom());
    lemma_total_split(groups, groups.dom(), jid);
    lemma_total_split(after, groups.dom(), jid);
    lemma_total_same(groups, after, groups.dom().remove(jid));
}

proof fn lemma_total_none<T>(groups: Map<Seq<char>, GroupView<T>>, names: Set<Seq<char>>)
    requires
        forall|jid: Seq<char>| #[trigger] names.contains(jid) ==> !has_pending(groups[jid]),
    ensures
        pending_total(groups, names) == 0,
    decreases names.len(),
{
    if names.finite() && names.len() > 0 {
        let jid = names.choose();
        assert(names.contains(jid));
        assert forall|other: Seq<char>| #[trigger] names.remove(jid).contains(other) implies
            !has_pending(groups[other]) by {
            assert(names.contains(other));
        }
        lemma_total_none(groups, names.remove(jid));
    }
}

proof fn lemma_start_counts<T, P>(queue: QueueView<T, P>, jid: Seq<char>)
    requires
        queue.groups.dom().finite(),
    ensures
        start_pending(queue, jid).0.groups.dom() == queue.groups.dom(),
        runs_left(start_pending(queue, jid).0) == runs_left(queue),
{
    if queue.groups.contains_key(jid) {
        let after = start_pending(queue, jid).0;
        lemma_total_insert(queue.groups, jid, after.groups[jid]);
        if after.groups[jid] == queue.groups[jid] {
            assert(after.groups =~= queue.groups);
        }
    }
}

proof fn lemma_drain_counts<T, P>(queue: QueueView<T, P>)
    requires
        queue.groups.dom().finite(),
    ensures
        runs_left(drain_waiting(queue).0) == runs_left(queue),
    decreases queue.waiting.len(),
{
    if queue.active_count < queue.max_concurrent && queue.waiting.len() > 0 {
        let popped = QueueView { waiting: queue.waiting.drop_first(), ..queue };
        lemma_start_counts(popped, queue.waiting[0]);
        lemma_drain_counts(start_pending(popped, queue.waiting[0]).0);
    }
}

proof fn lemma_end_counts<T, P>(queue: QueueView<T, P>, event: QueueEvent<T>)
    requires
        queue_ok(queue),
        !queue.shutting_down,
        event is End,
        can_happen(queue, event),
    ensures
        runs_left(event_step(queue, event).0) + 1 == runs_left(queue),
{
    let jid = event->End_jid;
    let group = after_run(queue.groups[jid], event->End_success, queue.max_retries);
    let freed = QueueView {
        active_count: (queue.active_count - 1) as nat,
        ..with_group(queue, jid, group)
    };
    lemma_active_insert(queue.groups, jid, group);
    assert(active_groups(queue.groups).contains(jid));
    assert(queue.active_count > 0);
    lemma_total_insert(queue.groups, jid, group);
    assert(pending_count(group) == pending_count(queue.groups[jid]));
    lemma_start_counts(freed, jid);
    lemma_drain_counts(start_pending(freed, jid).0);
}

/// Where nothing runs, nothing waits and nothing is pending.
proof fn lemma_nothing_runs<T, P>(queue: QueueView<T, P>)
    requires
        queue_ok(queue),
        !queue.shutting_down,
    ensures
        queue.active_count == 0 ==> queue.waiting.len() == 0 && runs_left(queue) == 0 && forall|
            jid: Seq<char>,
        | #[trigger]
            queue.groups.contains_key(jid) ==> !queue.groups[jid].active && !has_pending(
                queue.groups[jid],
            ),
        queue.active_count > 0 ==> exists|jid: Seq<char>| runs(queue, jid),
{
    queue.groups.dom().lemma_len_filter(|j: Seq<char>| queue.groups[j].active);
    let active = active_groups(queue.groups);
    if queue.active_count == 0 {
        assert(queue.waiting.len() == 0);
        assert forall|jid: Seq<char>| #[trigger] queue.groups.contains_key(jid) implies
            !queue.groups[jid].active && !has_pending(queue.groups[jid]) by {
            assert(!active.contains(jid));
        }
        lemma_total_none(queue.groups, queue.groups.dom());
    } else {
        let jid = active.choose();
        assert(active.contains(jid));
        assert(runs(queue, jid));
    }
}

/// Every end of a run uses up one of the runs that are left, so that at most that
/// many can end; and until none is left, some group runs.
pub proof fn runs_are_used_up<T, P>(queue: QueueView<T, P>, events: Seq<QueueEvent<T>>)
    requires
        queue_ok(queue),
        !queue.shutting_down,
        can_follow(queue, events),
        only_ends(events),
    ensures
        runs_left(history(queue, events).0) + events.len() == runs_left(queue),
        runs_left(history(queue, events).0) > 0 ==> exists|jid: Seq<char>|
            runs(history(queue, events).0, jid),
    decreases events.len(),
{
    if events.len() == 0 {
        lemma_nothing_runs(queue);
    } else {
        let next = event_step(queue, events[0]).0;
        assert(events[0] is End);
        assert(only_ends(events.drop_first())) by {
            assert forall|i: int| 0 <= i < events.drop_first().len() implies
                #[trigger] events.drop_first()[i] is End by {
                assert(events.drop_first()[i] == events[i + 1]);
            }
        }
        lemma_event_keeps_order(queue, events[0]);
        lemma_end_counts(queue, events[0]);
        runs_are_used_up(next, events.drop_first());
    }
}

/// Every waiting group is started in the end: once nothing new is asked for and as
/// many runs have ended as were left, nothing runs and no group waits, and for each
/// group every piece of its pending work was started exactly once, its tasks in
/// order and its messages last.
pub proof fn pending_work_is_started<T, P>(queue: QueueView<T, P>, events: Seq<QueueEvent<T>>)
    requires
        queue_ok(queue),
        !queue.shutting_down,
        can_follow(queue, events),
        only_ends(events),
        events.len() == runs_left(queue),
    ensures
        history(queue, events).0.active_count == 0,
        history(queue, events).0.waiting.len() == 0,
        forall|jid: Seq<char>| #[trigger]
            starts_of(history(queue, events).1, jid) == pending_of(queue, jid),
{
    let (end, started) = history(queue, events);
    history_keeps_order(queue, events);
    runs_are_used_up(queue, events);
    lemma_nothing_runs(end);
    assert forall|jid: Seq<char>| #[trigger] starts_of(started, jid) == pending_of(queue, jid) by {
        pending_work_is_kept(queue, events, jid);
        assert(!has_pending(group_of(end, jid))) by {
            if end.groups.contains_key(jid) {
                assert(!has_pending(end.groups[jid]));
            }
        }
        assert(pending_of(end, jid) =~= Seq::<ActionView<T>>::empty());
        assert(starts_of(started, jid) + pending_of(end, jid) =~= starts_of(started, jid));
    }
}

proof fn lemma_starts_are_actions<T>(
    actions: Seq<ActionView<T>>,
    jid: Seq<char>,
    action: ActionView<T>,
)
    requires
        starts_of(actions, jid).contains(action),
    ensures
        actions.contains(action),
    decreases actions.len(),
{
    if actions.len() > 0 {
        let rest = starts_of(actions.drop_first(), jid);
        if actions[0] != action {
            let all = starts_of(actions, jid);
            let i = choose|i: int| 0 <= i < all.len() && all[i] == action;
            if group_named(actions[0]) == jid {
                assert(rest[i - 1] == action);
            } else {
                assert(rest[i] == action);
            }
            lemma_starts_are_actions(actions.drop_first(), jid, action);
            let k = choose|k: int|
                0 <= k < actions.drop_first().len() && actions.drop_first()[k] == action;
            assert(actions[k + 1] == action);
        }
    }
}

/// A message check is answered: it starts the group's messages at once, or, once
/// nothing new is asked for and all runs that are left have ended, they were
/// started since.
pub proof fn check_is_answered<T, P>(
    queue: QueueView<T, P>,
    jid: Seq<char>,
    events: Seq<QueueEvent<T>>,
)
    requires
        queue_ok(queue),
        !queue.shutting_down,
        can_follow(message_check_step(queue, jid).0, events),
        only_ends(events),
        events.len() == runs_left(message_check_step(queue, jid).0),
    ensures
        ({
            let (after, action) = message_check_step(queue, jid);
            let run = ActionView::<T>::RunMessages { group_jid: jid };
            action == Some(run) || history(after, events).1.contains(run)
        }),
{
    let (after, action) = message_check_step(queue, jid);
    let run = ActionView::<T>::RunMessages { group_jid: jid };
    if action is None {
        let started = history(after, events).1;
        message_check_keeps_order(queue, jid);
        pending_work_is_started(after, events);
        let pending = pending_of(after, jid);
        assert(starts_of(started, jid) == pending);
        assert(pending[pending.len() - 1] == run);
        assert(starts_of(started, jid).contains(run));
        lemma_starts_are_actions(started, jid, run);
    }
}

/// How many of the events are the end of a run of a group.
pub open spec fn ends_of<T>(events: Seq<QueueEvent<T>>, jid: Seq<char>) -> nat
    decreases events.len(),
{
    if events.len() == 0 {
        0
    } else {
        ends_of(events.drop_first(), jid) + (if events[0] is End && events[0]->End_jid == jid {
            1nat
        } else {
            0
        })
    }
}

/// How many of the events give a task to a group.
pub open spec fn given_to<T>(events: Seq<QueueEvent<T>>, jid: Seq<char>) -> nat
    decreases events.len(),
{
    if events.len() == 0 {
        0
    } else {
        given_to(events.drop_first(), jid) + (if events[0] is Give && events[0]->Give_jid == jid {
            1nat
        } else {
            0
        })
    }
}

/// An event starts a group's pending messages, or leaves them pending; then a task
/// that the event gives the group comes before them, and where the event ends a run
/// of the group, one task less.
proof fn lemma_event_nears_messages<T, P>(
    queue: QueueView<T, P>,
    event: QueueEvent<T>,
    jid: Seq<char>,
)
    requires
        queue_ok(queue),
        !queue.shutting_down,
        can_happen(queue, event),
        group_of(queue, jid).pending_messages,
    ensures
        ({
            let (after, actions) = event_step(queue, event);
            let before = group_of(queue, jid).pending_tasks.len() + given_to(seq![event], jid);
            ||| actions.contains(ActionView::<T>::RunMessages { group_jid: jid })
            ||| group_of(after, jid).pending_messages && group_of(after, jid).pending_tasks.len()
                + ends_of(seq![event], jid) <= before
        }),
{
    let (after, actions) = event_step(queue, event);
    let run = ActionView::<T>::RunMessages { group_jid: jid };
    reveal_with_fuel(ends_of, 2);
    reveal_with_fuel(given_to, 2);
    assert(seq![event].drop_first() =~= Seq::<QueueEvent<T>>::empty());
    match event {
        QueueEvent::Check { jid: other } => {
            if other == jid && message_check_step(queue, jid).1 is Some {
                assert(actions[0] == run);
            }
        },
        QueueEvent::Give { jid: other, id, run: work } => {},
        QueueEvent::End { jid: other, success } => {
            let started = starts_of(actions, jid);
            let left = pending_of(after, jid);
            let all = pending_of(queue, jid);
            lemma_end_takes(queue, event, jid);
            assert(all == started + left);
            assert(all[all.len() - 1] == run);
            if left.len() == 0 {
                assert(started =~= all);
                assert(started[all.len() - 1] == run);
                assert(started.contains(run));
                lemma_starts_are_actions(actions, jid, run);
            } else {
                assert(left[left.len() - 1] == run);
                assert(group_of(after, jid).pending_messages);
                if other == jid {
                    let group = after_run(queue.groups[jid], success, queue.max_retries);
                    busy_group_goes_on(queue, jid, group);
                    assert(group_named(actions[0]) == jid);
                    assert(started.len() >= 1);
                }
            }
        },
    }
}

/// A group's messages come after its own tasks, whatever else is asked for: pending
/// messages are started before more runs of the group have ended than tasks of the
/// group were pending or have been given since.
pub proof fn messages_follow_own_tasks<T, P>(
    queue: QueueView<T, P>,
    events: Seq<QueueEvent<T>>,
    jid: Seq<char>,
)
    requires
        queue_ok(queue),
        !queue.shutting_down,
        can_follow(queue, events),
        group_of(queue, jid).pending_messages,
        ends_of(events, jid) > group_of(queue, jid).pending_tasks.len() + given_to(events, jid),
    ensures
        history(queue, events).1.contains(ActionView::<T>::RunMessages { group_jid: jid }),
    decreases events.len(),
{
    let run = ActionView::<T>::RunMessages { group_jid: jid };
    let event = events[0];
    let (next, first) = event_step(queue, event);
    let rest = history(next, events.drop_first()).1;
    reveal_with_fuel(ends_of, 2);
    reveal_with_fuel(given_to, 2);
    assert(seq![event].drop_first() =~= Seq::<QueueEvent<T>>::empty());
    lemma_event_keeps_order(queue, event);
    lemma_event_nears_messages(queue, event, jid);
    if first.contains(run) {
        let i = choose|i: int| 0 <= i < first.len() && first[i] == run;
        assert((first + rest)[i] == run);
    } else {
        messages_follow_own_tasks(next, events.drop_first(), jid);
        let i = choose|i: int| 0 <= i < rest.len() && rest[i] == run;
        assert((first + rest)[first.len() + i] == run);
    }
}

/// A message check is answered over any history, whatever else is asked for: it
/// starts the group's messages at once, or they are started before more runs of the
/// group have ended than tasks of the group were pending or have been given since.
pub proof fn check_is_answered_in_turn<T, P>(
    queue: QueueView<T, P>,
    jid: Seq<char>,
    events: Seq<QueueEvent<T>>,
)
    requires
        queue_ok(queue),
        !queue.shutting_down,
        can_follow(message_check_step(queue, jid).0, events),
        ends_of(events, jid) > group_of(queue, jid).pending_tasks.len() + given_to(events, jid),
    ensures
        ({
            let (after, action) = message_check_step(queue, jid);
            let run = ActionView::<T>::RunMessages { group_jid: jid };
            action == Some(run) || history(after, events).1.contains(run)
        }),
{
    let (after, action) = message_check_step(queue, jid);
    if action is None {
        message_check_keeps_order(queue, jid);
        messages_follow_own_tasks(after, events, jid);
    }
}

/// That many runs can indeed end, one after another.
pub proof fn all_runs_can_end<T, P>(queue: QueueView<T, P>) -> (events: Seq<QueueEvent<T>>)
    requires
        queue_ok(queue),
        !queue.shutting_down,
    ensures
        can_follow(queue, events),
        only_ends(events),
        events.len() == runs_left(queue),
    decreases runs_left(queue),
{
    lemma_nothing_runs(queue);
    if queue.active_count == 0 {
        Seq::empty()
    } else {
        let jid = choose|jid: Seq<char>| runs(queue, jid);
        let event = QueueEvent::<T>::End { jid, success: true };
        lemma_event_keeps_order(queue, event);
        lemma_end_counts(queue, event);
        let next = event_step(queue, event).0;
        let rest = all_runs_can_end(next);
        let events = seq![event] + rest;
        assert(events.drop_first() =~= rest);
        assert(only_ends(events)) by {
            assert forall|i: int| 0 <= i < events.len() implies #[trigger] events[i] is End by {
                if i > 0 {
                    assert(events[i] == rest[i - 1]);
                }
            }
        }
        events
    }
}

} // verus!
