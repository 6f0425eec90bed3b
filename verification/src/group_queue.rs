//! The queue that decides which group runs when.

use vstd::prelude::*;
use vstd::string::*;

use std::collections::VecDeque;

use crate::duration::{max_nanos, Duration};
use crate::json::{display_json, displayed_json, lemma_object_content, Json, JsonValue};
use crate::name_map::NameMap;
use crate::number::{decimal, u128_text, u64_text};
use crate::paths::{join_path, joined_path};
use crate::text::same_text;

pub mod history;

verus! {

pub const DEFAULT_MAX_CONCURRENT: usize = 5;

pub const DEFAULT_MAX_RETRIES: u32 = 5;

pub const DEFAULT_BASE_RETRY_MS: u64 = 5_000;

#[derive(Debug, Clone, Copy, PartialEq, Eq, Structural)]
pub enum ActiveRunKind {
    Messages,
    Task,
}

/// A task that waits for its group.
#[derive(Debug)]
pub struct QueuedTask<T> {
    pub id: String,
    pub run: T,
}

/// Where one group stands.
#[derive(Debug)]
pub struct GroupState<T> {
    pub active: bool,
    pub active_run: Option<ActiveRunKind>,
    pub active_task_id: Option<String>,
    pub pending_messages: bool,
    pub pending_tasks: VecDeque<QueuedTask<T>>,
    pub process_id: Option<u32>,
    pub container_name: Option<String>,
    pub group_folder: Option<String>,
    pub retry_count: u32,
}

/// What runs for a group.
#[derive(Debug, PartialEq, Eq)]
pub struct ActiveContainerContext {
    pub active: bool,
    pub process_id: Option<u32>,
    pub container_name: Option<String>,
    pub group_folder: Option<String>,
}

/// What is to be done after a step of the queue.
#[derive(Debug)]
pub enum QueueAction<T> {
    /// Process the group's messages.
    RunMessages { group_jid: String },
    /// Run a task of the group.
    RunTask { group_jid: String, task: QueuedTask<T> },
    /// Check the group's messages again after a time.
    ScheduleRetry { group_jid: String, delay: Duration },
}

/// The queue over all groups. `T` is what runs a task, `P` what processes
/// messages.
#[derive(Debug)]
pub struct GroupQueue<T, P> {
    groups: NameMap<GroupState<T>>,
    active_count: usize,
    waiting_groups: VecDeque<String>,
    shutting_down: bool,
    process_messages: Option<P>,
    ipc_base_dir: Option<String>,
    max_concurrent: usize,
    base_retry: Duration,
    max_retries: u32,
}

// ---------------------------------------------------------------------------
// The model
// ---------------------------------------------------------------------------

/// The content of a [`GroupState`].
#[verifier::reject_recursive_types(T)]
pub struct GroupView<T> {
    pub active: bool,
    pub active_run: Option<ActiveRunKind>,
    pub active_task_id: Option<Seq<char>>,
    pub pending_messages: bool,
    pub pending_tasks: Seq<(Seq<char>, T)>,
    pub process_id: Option<u32>,
    pub container_name: Option<Seq<char>>,
    pub group_folder: Option<Seq<char>>,
    pub retry_count: u32,
}

/// The content of a [`QueueAction`].
#[verifier::reject_recursive_types(T)]
pub enum ActionView<T> {
    RunMessages { group_jid: Seq<char> },
    RunTask { group_jid: Seq<char>, task_id: Seq<char>, run: T },
    ScheduleRetry { group_jid: Seq<char>, delay: Duration },
}

/// The content of a [`GroupQueue`].
#[verifier::reject_recursive_types(T)]
#[verifier::reject_recursive_types(P)]
pub struct QueueView<T, P> {
    pub groups: Map<Seq<char>, GroupView<T>>,
    pub active_count: nat,
    pub waiting: Seq<Seq<char>>,
    pub shutting_down: bool,
    pub process_messages: Option<P>,
    pub ipc_base_dir: Option<Seq<char>>,
    pub max_concurrent: nat,
    pub base_retry: Duration,
    pub max_retries: u32,
}

pub open spec fn tasks_view<T>(tasks: Seq<QueuedTask<T>>) -> Seq<(Seq<char>, T)> {
    Seq::new(tasks.len(), |i: int| (tasks[i].id@, tasks[i].run))
}

impl<T> View for GroupState<T> {
    type V = GroupView<T>;

    open spec fn view(&self) -> GroupView<T> {
        GroupView {
            active: self.active,
            active_run: self.active_run,
            active_task_id: self.active_task_id.deep_view(),
            pending_messages: self.pending_messages,
            pending_tasks: tasks_view(self.pending_tasks@),
            process_id: self.process_id,
            container_name: self.container_name.deep_view(),
            group_folder: self.group_folder.deep_view(),
            retry_count: self.retry_count,
        }
    }
}

impl<T> View for QueueAction<T> {
    type V = ActionView<T>;

    open spec fn view(&self) -> ActionView<T> {
        match *self {
            QueueAction::RunMessages { group_jid } => ActionView::RunMessages {
                group_jid: group_jid@,
            },
            QueueAction::RunTask { group_jid, task } => ActionView::RunTask {
                group_jid: group_jid@,
                task_id: task.id@,
                run: task.run,
            },
            QueueAction::ScheduleRetry { group_jid, delay } => ActionView::ScheduleRetry {
                group_jid: group_jid@,
                delay,
            },
        }
    }
}

pub open spec fn actions_view<T>(actions: Seq<QueueAction<T>>) -> Seq<ActionView<T>> {
    Seq::new(actions.len(), |i: int| actions[i]@)
}

pub open spec fn names_view(names: Seq<String>) -> Seq<Seq<char>> {
    Seq::new(names.len(), |i: int| names[i]@)
}

pub open spec fn groups_view<T>(groups: Map<Seq<char>, GroupState<T>>) -> Map<
    Seq<char>,
    GroupView<T>,
> {
    Map::new(
        |jid: Seq<char>| groups.contains_key(jid),
        |jid: Seq<char>| groups[jid]@,
    )
}

impl<T, P> View for GroupQueue<T, P> {
    type V = QueueView<T, P>;

    closed spec fn view(&self) -> QueueView<T, P> {
        QueueView {
            groups: groups_view(self.groups@),
            active_count: self.active_count as nat,
            waiting: names_view(self.waiting_groups@),
            shutting_down: self.shutting_down,
            process_messages: self.process_messages,
            ipc_base_dir: self.ipc_base_dir.deep_view(),
            max_concurrent: self.max_concurrent as nat,
            base_retry: self.base_retry,
            max_retries: self.max_retries,
        }
    }
}

/// A group of which nothing is known.
pub open spec fn fresh_group<T>() -> GroupView<T> {
    GroupView {
        active: false,
        active_run: None,
        active_task_id: None,
        pending_messages: false,
        pending_tasks: Seq::empty(),
        process_id: None,
        container_name: None,
        group_folder: None,
        retry_count: 0,
    }
}

/// Whether work waits for the group.
pub open spec fn has_pending<T>(group: GroupView<T>) -> bool {
    group.pending_messages || group.pending_tasks.len() > 0
}

/// Whether a task of that id runs or waits.
pub open spec fn knows_task<T>(group: GroupView<T>, id: Seq<char>) -> bool {
    group.active_task_id == Some(id) || exists|i: int|
        0 <= i < group.pending_tasks.len() && (#[trigger] group.pending_tasks[i]).0 == id
}

/// A group without its run and what belongs to it.
pub open spec fn stopped<T>(group: GroupView<T>) -> GroupView<T> {
    GroupView {
        active: false,
        active_run: None,
        active_task_id: None,
        process_id: None,
        container_name: None,
        group_folder: None,
        ..group
    }
}

/// A group whose messages are processed.
pub open spec fn running_messages<T>(group: GroupView<T>) -> GroupView<T> {
    GroupView {
        active: true,
        active_run: Some(ActiveRunKind::Messages),
        active_task_id: None,
        pending_messages: false,
        ..group
    }
}

/// A group whose first pending task runs.
pub open spec fn running_first_task<T>(group: GroupView<T>) -> GroupView<T> {
    GroupView {
        active: true,
        active_run: Some(ActiveRunKind::Task),
        active_task_id: Some(group.pending_tasks[0].0),
        pending_tasks: group.pending_tasks.drop_first(),
        ..group
    }
}

/// The groups that run.
pub open spec fn active_groups<T>(groups: Map<Seq<char>, GroupView<T>>) -> Set<Seq<char>> {
    groups.dom().filter(|jid: Seq<char>| groups[jid].active)
}

/// What holds of one group: what runs is described exactly while it runs, and
/// no two tasks that run or wait have one id.
pub open spec fn group_ok<T>(group: GroupView<T>) -> bool {
    &&& group.active <==> group.active_run is Some
    &&& group.active_task_id is Some <==> group.active_run == Some(ActiveRunKind::Task)
    &&& !group.active ==> group.process_id is None && group.container_name is None
        && group.group_folder is None
    &&& forall|i: int, j: int|
        0 <= i < j < group.pending_tasks.len() ==> (#[trigger] group.pending_tasks[i]).0 != (
        #[trigger] group.pending_tasks[j]).0
    &&& forall|i: int|
        0 <= i < group.pending_tasks.len() ==> Some((#[trigger] group.pending_tasks[i]).0)
            != group.active_task_id
}

/// What holds of the queue between steps: the runs are counted and never exceed
/// the limit, and no group waits twice. Until shutdown a group with pending work
/// that does not run waits, and groups wait only while all slots are taken.
pub open spec fn queue_ok<T, P>(queue: QueueView<T, P>) -> bool {
    &&& queue.groups.dom().finite()
    &&& queue.active_count == active_groups(queue.groups).len()
    &&& queue.active_count <= queue.max_concurrent
    &&& 1 <= queue.max_concurrent
    &&& queue.base_retry.wf()
    &&& queue.waiting.no_duplicates()
    &&& forall|jid: Seq<char>| #[trigger] queue.groups.contains_key(jid) ==> group_ok(
        queue.groups[jid],
    )
    &&& !queue.shutting_down ==> all_wait(queue)
    &&& !queue.shutting_down && queue.waiting.len() > 0 ==> queue.active_count
        == queue.max_concurrent
}

/// The group of a name, or a fresh one.
pub open spec fn group_of<T, P>(queue: QueueView<T, P>, jid: Seq<char>) -> GroupView<T> {
    if queue.groups.contains_key(jid) {
        queue.groups[jid]
    } else {
        fresh_group()
    }
}

pub open spec fn with_group<T, P>(
    queue: QueueView<T, P>,
    jid: Seq<char>,
    group: GroupView<T>,
) -> QueueView<T, P> {
    QueueView { groups: queue.groups.insert(jid, group), ..queue }
}

/// The waiting list with a group at its end, unless it waits already.
pub open spec fn with_waiting(waiting: Seq<Seq<char>>, jid: Seq<char>) -> Seq<Seq<char>> {
    if waiting.contains(jid) {
        waiting
    } else {
        waiting.push(jid)
    }
}

// ---------------------------------------------------------------------------
// Steps
// ---------------------------------------------------------------------------

/// The queue after a message check was asked for, and the action that follows.
pub open spec fn message_check_step<T, P>(queue: QueueView<T, P>, jid: Seq<char>) -> (
    QueueView<T, P>,
    Option<ActionView<T>>,
) {
    let group = group_of(queue, jid);
    let full = queue.active_count >= queue.max_concurrent;
    if queue.shutting_down {
        (queue, None)
    } else if group.active || full {
        (
            QueueView {
                waiting: if full {
                    with_waiting(queue.waiting, jid)
                } else {
                    queue.waiting
                },
                ..with_group(queue, jid, GroupView { pending_messages: true, ..group })
            },
            None,
        )
    } else {
        (
            QueueView {
                active_count: queue.active_count + 1,
                ..with_group(queue, jid, running_messages(group))
            },
            Some(ActionView::RunMessages { group_jid: jid }),
        )
    }
}

/// The queue after a task was given, the action that follows, and whether the
/// group's message run is to be asked to end. A task whose id runs or waits is
/// dropped.
pub open spec fn task_step<T, P>(
    queue: QueueView<T, P>,
    jid: Seq<char>,
    id: Seq<char>,
    run: T,
) -> (QueueView<T, P>, Option<ActionView<T>>, bool) {
    let group = group_of(queue, jid);
    if queue.shutting_down {
        (queue, None, false)
    } else if knows_task(group, id) {
        (with_group(queue, jid, group), None, false)
    } else if group.active {
        (
            with_group(
                queue,
                jid,
                GroupView { pending_tasks: group.pending_tasks.push((id, run)), ..group },
            ),
            None,
            group.active_run == Some(ActiveRunKind::Messages),
        )
    } else if queue.active_count >= queue.max_concurrent {
        (
            QueueView {
                waiting: with_waiting(queue.waiting, jid),
                ..with_group(
                    queue,
                    jid,
                    GroupView { pending_tasks: group.pending_tasks.push((id, run)), ..group },
                )
            },
            None,
            false,
        )
    } else {
        (
            QueueView {
                active_count: queue.active_count + 1,
                ..with_group(
                    queue,
                    jid,
                    GroupView {
                        active: true,
                        active_run: Some(ActiveRunKind::Task),
                        active_task_id: Some(id),
                        ..group
                    },
                )
            },
            Some(ActionView::RunTask { group_jid: jid, task_id: id, run }),
            false,
        )
    }
}

/// Starts what a group waits for, tasks first: nothing where it runs or has
/// nothing pending.
pub open spec fn start_pending<T, P>(queue: QueueView<T, P>, jid: Seq<char>) -> (
    QueueView<T, P>,
    Seq<ActionView<T>>,
) {
    if !queue.groups.contains_key(jid) {
        (queue, Seq::empty())
    } else {
        let group = queue.groups[jid];
        if group.active {
            (queue, Seq::empty())
        } else if group.pending_tasks.len() > 0 {
            (
                QueueView {
                    active_count: queue.active_count + 1,
                    ..with_group(queue, jid, running_first_task(group))
                },
                seq![
                    ActionView::RunTask {
                        group_jid: jid,
                        task_id: group.pending_tasks[0].0,
                        run: group.pending_tasks[0].1,
                    },
                ],
            )
        } else if group.pending_messages {
            (
                QueueView {
                    active_count: queue.active_count + 1,
                    ..with_group(queue, jid, running_messages(group))
                },
                seq![ActionView::RunMessages { group_jid: jid }],
            )
        } else {
            (queue, Seq::empty())
        }
    }
}

/// Starts waiting groups from the front while slots are free.
pub open spec fn drain_waiting<T, P>(queue: QueueView<T, P>) -> (
    QueueView<T, P>,
    Seq<ActionView<T>>,
)
    decreases queue.waiting.len(),
{
    if queue.active_count >= queue.max_concurrent || queue.waiting.len() == 0 {
        (queue, Seq::empty())
    } else {
        let popped = QueueView { waiting: queue.waiting.drop_first(), ..queue };
        let (started, first) = start_pending(popped, queue.waiting[0]);
        let (drained, rest) = drain_waiting(started);
        (drained, first + rest)
    }
}

/// Starts what a group waits for, then waiting groups; nothing on shutdown.
pub open spec fn drain_group<T, P>(queue: QueueView<T, P>, jid: Seq<char>) -> (
    QueueView<T, P>,
    Seq<ActionView<T>>,
) {
    if queue.shutting_down {
        (queue, Seq::empty())
    } else {
        let (started, first) = start_pending(queue, jid);
        let (drained, rest) = drain_waiting(started);
        (drained, first + rest)
    }
}

pub open spec fn power_of_two(n: nat) -> nat
    decreases n,
{
    if n == 0 {
        1
    } else {
        2 * power_of_two((n - 1) as nat)
    }
}

/// How much longer than the first wait the `n`-th one is, within `u32`.
pub open spec fn retry_factor(n: nat) -> nat {
    if power_of_two((n - 1) as nat) > u32::MAX {
        u32::MAX as nat
    } else {
        power_of_two((n - 1) as nat)
    }
}

/// Whether `delay` is the wait before the `n`-th retry: the base wait doubled
/// with each retry, or the base wait where that is too long to hold.
pub open spec fn is_retry_delay(delay: Duration, base: Duration, n: nat) -> bool {
    let scaled = base.total() * retry_factor(n);
    if scaled > max_nanos() {
        delay == base
    } else {
        delay.wf() && delay.total() == scaled
    }
}

/// The failures of a group after one more; none once the retries are used up.
pub open spec fn failures_after(retry_count: u32, max_retries: u32) -> u32 {
    let n = if retry_count == u32::MAX {
        u32::MAX
    } else {
        (retry_count + 1) as u32
    };
    if n > max_retries {
        0
    } else {
        n
    }
}

/// The group after its message run ended.
pub open spec fn after_messages<T>(
    group: GroupView<T>,
    success: bool,
    max_retries: u32,
) -> GroupView<T> {
    GroupView {
        retry_count: if success {
            0
        } else {
            failures_after(group.retry_count, max_retries)
        },
        ..stopped(group)
    }
}

/// The queue after a group's run ended and left it as `group`: the slot is
/// free, and what waits is started.
pub open spec fn finish_step<T, P>(
    queue: QueueView<T, P>,
    jid: Seq<char>,
    group: GroupView<T>,
) -> (QueueView<T, P>, Seq<ActionView<T>>) {
    drain_group(
        QueueView {
            active_count: (queue.active_count - 1) as nat,
            ..with_group(queue, jid, group)
        },
        jid,
    )
}

// ---------------------------------------------------------------------------
// What every step keeps
// ---------------------------------------------------------------------------

proof fn lemma_active_insert<T>(
    groups: Map<Seq<char>, GroupView<T>>,
    jid: Seq<char>,
    group: GroupView<T>,
)
    requires
        groups.dom().finite(),
    ensures
        active_groups(groups).finite(),
        active_groups(groups.insert(jid, group)).finite(),
        active_groups(groups.insert(jid, group)) == if group.active {
            active_groups(groups).insert(jid)
        } else {
            active_groups(groups).remove(jid)
        },
        groups.contains_key(jid) && groups[jid].active <==> active_groups(groups).contains(jid),
{
    groups.dom().lemma_len_filter(|j: Seq<char>| groups[j].active);
    let after = groups.insert(jid, group);
    assert(after.dom().finite());
    after.dom().lemma_len_filter(|j: Seq<char>| after[j].active);
    if group.active {
        assert(active_groups(after) =~= active_groups(groups).insert(jid));
    } else {
        assert(active_groups(after) =~= active_groups(groups).remove(jid));
    }
}

/// What holds of the queue even while a step is under way.
pub open spec fn queue_core<T, P>(queue: QueueView<T, P>) -> bool {
    &&& queue.groups.dom().finite()
    &&& queue.active_count == active_groups(queue.groups).len()
    &&& queue.active_count <= queue.max_concurrent
    &&& 1 <= queue.max_concurrent
    &&& queue.base_retry.wf()
    &&& queue.waiting.no_duplicates()
    &&& forall|jid: Seq<char>| #[trigger] queue.groups.contains_key(jid) ==> group_ok(
        queue.groups[jid],
    )
}

/// Whether every group but one that has pending work and does not run waits.
pub open spec fn others_wait<T, P>(queue: QueueView<T, P>, but: Seq<char>) -> bool {
    forall|jid: Seq<char>| #[trigger]
        queue.groups.contains_key(jid) && jid != but ==> !queue.groups[jid].active && has_pending(
            queue.groups[jid],
        ) ==> queue.waiting.contains(jid)
}

/// Whether every group that has pending work and does not run waits.
pub open spec fn all_wait<T, P>(queue: QueueView<T, P>) -> bool {
    forall|jid: Seq<char>| #[trigger]
        queue.groups.contains_key(jid) ==> !queue.groups[jid].active && has_pending(
            queue.groups[jid],
        ) ==> queue.waiting.contains(jid)
}

pub open spec fn same_settings<T, P>(a: QueueView<T, P>, b: QueueView<T, P>) -> bool {
    &&& a.max_concurrent == b.max_concurrent
    &&& a.base_retry == b.base_retry
    &&& a.max_retries == b.max_retries
    &&& a.shutting_down == b.shutting_down
    &&& a.process_messages == b.process_messages
    &&& a.ipc_base_dir == b.ipc_base_dir
}

proof fn lemma_start_pending<T, P>(queue: QueueView<T, P>, jid: Seq<char>)
    requires
        queue_core(queue),
        queue.active_count < queue.max_concurrent,
        others_wait(queue, jid),
    ensures
        queue_core(start_pending(queue, jid).0),
        all_wait(start_pending(queue, jid).0),
        start_pending(queue, jid).0.waiting == queue.waiting,
        same_settings(start_pending(queue, jid).0, queue),
{
    if queue.groups.contains_key(jid) {
        let group = queue.groups[jid];
        let after = start_pending(queue, jid).0;
        lemma_active_insert(queue.groups, jid, after.groups[jid]);
        if !group.active && group.pending_tasks.len() > 0 {
            let next = running_first_task(group);
            assert forall|i: int, j: int| 0 <= i < j < next.pending_tasks.len() implies (
            #[trigger] next.pending_tasks[i]).0 != (#[trigger] next.pending_tasks[j]).0 by {
                assert(next.pending_tasks[i] == group.pending_tasks[i + 1]);
                assert(next.pending_tasks[j] == group.pending_tasks[j + 1]);
            }
            assert forall|i: int| 0 <= i < next.pending_tasks.len() implies Some(
                (#[trigger] next.pending_tasks[i]).0,
            ) != next.active_task_id by {
                assert(next.pending_tasks[i] == group.pending_tasks[i + 1]);
                assert(group.pending_tasks[0].0 != group.pending_tasks[i + 1].0);
            }
            assert(group_ok(next));
        }
    }
}

proof fn lemma_drain_waiting<T, P>(queue: QueueView<T, P>)
    requires
        queue_core(queue),
        all_wait(queue),
    ensures
        queue_core(drain_waiting(queue).0),
        all_wait(drain_waiting(queue).0),
        drain_waiting(queue).0.waiting.len() > 0 ==> drain_waiting(queue).0.active_count
            == queue.max_concurrent,
        same_settings(drain_waiting(queue).0, queue),
    decreases queue.waiting.len(),
{
    if queue.active_count < queue.max_concurrent && queue.waiting.len() > 0 {
        let popped = QueueView { waiting: queue.waiting.drop_first(), ..queue };
        let jid = queue.waiting[0];
        assert(popped.waiting.no_duplicates()) by {
            assert forall|i: int, j: int|
                0 <= i < popped.waiting.len() && 0 <= j < popped.waiting.len() && i != j implies popped.waiting[i]
                != popped.waiting[j] by {
                assert(popped.waiting[i] == queue.waiting[i + 1]);
                assert(popped.waiting[j] == queue.waiting[j + 1]);
            }
        }
        assert(others_wait(popped, jid)) by {
            assert forall|other: Seq<char>| #[trigger]
                popped.groups.contains_key(other) && other != jid && !popped.groups[other].active
                    && has_pending(popped.groups[other]) implies popped.waiting.contains(
                other,
            ) by {
                assert(queue.groups.contains_key(other));
                let i = choose|i: int|
                    0 <= i < queue.waiting.len() && queue.waiting[i] == other;
                assert(popped.waiting[i - 1] == other);
            }
        }
        lemma_start_pending(popped, jid);
        lemma_drain_waiting(start_pending(popped, jid).0);
    }
}

/// A message check keeps the queue in order.
pub proof fn message_check_keeps_order<T, P>(queue: QueueView<T, P>, jid: Seq<char>)
    requires
        queue_ok(queue),
    ensures
        queue_ok(message_check_step(queue, jid).0),
{
    let after = message_check_step(queue, jid).0;
    if !queue.shutting_down {
        lemma_active_insert(queue.groups, jid, after.groups[jid]);
        lemma_with_waiting(queue.waiting, jid);
        assert(group_ok(after.groups[jid]));
        assert forall|other: Seq<char>| #[trigger]
            after.groups.contains_key(other) && !after.groups[other].active && has_pending(
                after.groups[other],
            ) implies after.waiting.contains(other) by {
            if other != jid {
                assert(queue.groups.contains_key(other));
            }
        }
    }
}

proof fn lemma_with_waiting(waiting: Seq<Seq<char>>, jid: Seq<char>)
    requires
        waiting.no_duplicates(),
    ensures
        with_waiting(waiting, jid).no_duplicates(),
        with_waiting(waiting, jid).contains(jid),
        forall|other: Seq<char>|
            waiting.contains(other) ==> #[trigger] with_waiting(waiting, jid).contains(other),
{
    let after = with_waiting(waiting, jid);
    if !waiting.contains(jid) {
        assert(after[waiting.len() as int] == jid);
        assert forall|other: Seq<char>| waiting.contains(other) implies #[trigger] after.contains(
            other,
        ) by {
            let i = choose|i: int| 0 <= i < waiting.len() && waiting[i] == other;
            assert(after[i] == other);
        }
    }
}

/// Giving a task keeps the queue in order.
pub proof fn task_keeps_order<T, P>(
    queue: QueueView<T, P>,
    jid: Seq<char>,
    id: Seq<char>,
    run: T,
)
    requires
        queue_ok(queue),
    ensures
        queue_ok(task_step(queue, jid, id, run).0),
{
    let after = task_step(queue, jid, id, run).0;
    if !queue.shutting_down {
        let group = group_of(queue, jid);
        assert(group_ok(group));
        lemma_active_insert(queue.groups, jid, after.groups[jid]);
        lemma_with_waiting(queue.waiting, jid);
        if !knows_task(group, id) {
            assert(group_ok(after.groups[jid]));
        } else {
            assert(active_groups(after.groups) =~= active_groups(queue.groups));
        }
        assert forall|other: Seq<char>| #[trigger]
            after.groups.contains_key(other) && !after.groups[other].active && has_pending(
                after.groups[other],
            ) implies after.waiting.contains(other) by {
            if other != jid {
                assert(queue.groups.contains_key(other));
            }
        }
    }
}

/// The end of a run keeps the queue in order.
pub proof fn finish_keeps_order<T, P>(
    queue: QueueView<T, P>,
    jid: Seq<char>,
    group: GroupView<T>,
)
    requires
        queue_ok(queue),
        queue.groups.contains_key(jid),
        queue.groups[jid].active,
        group_ok(group),
        !group.active,
    ensures
        queue_ok(finish_step(queue, jid, group).0),
        same_settings(finish_step(queue, jid, group).0, queue),
{
    lemma_active_insert(queue.groups, jid, group);
    let freed = QueueView {
        active_count: (queue.active_count - 1) as nat,
        ..with_group(queue, jid, group)
    };
    assert(active_groups(queue.groups).contains(jid));
    assert(queue_core(freed));
    assert(!queue.shutting_down ==> others_wait(freed, jid)) by {
        assert forall|other: Seq<char>| #[trigger]
            freed.groups.contains_key(other) && !queue.shutting_down && other != jid && !freed.groups[other].active
                && has_pending(freed.groups[other]) implies freed.waiting.contains(other) by {
            assert(queue.groups.contains_key(other));
        }
    }
    if !queue.shutting_down {
        lemma_start_pending(freed, jid);
        lemma_drain_waiting(start_pending(freed, jid).0);
    }
}

// ---------------------------------------------------------------------------
// The queue
// ---------------------------------------------------------------------------

/// The wait before the `n`-th retry.
fn retry_delay(base: Duration, n: u32) -> (delay: Duration)
    requires
        base.wf(),
        n > 0,
    ensures
        is_retry_delay(delay, base, n as nat),
{
    let mut factor: u32 = 1;
    let mut i: u32 = 1;
    while i < n && i < 32
        invariant
            1 <= i <= n,
            i <= 32,
            factor == power_of_two((i - 1) as nat),
        decreases n - i,
    {
        proof {
            lemma_power_grows((i - 1) as nat, 31);
            lemma_largest_power();
        }
        factor = factor * 2;
        i += 1;
    }
    if i < n {
        proof {
            lemma_power_grows(31, (n - 1) as nat);
            lemma_largest_power();
        }
        factor = u32::MAX;
    } else {
        proof {
            lemma_largest_power();
            if i < 32 {
                lemma_power_grows((i - 1) as nat, 31);
            }
        }
    }
    match base.checked_mul(factor) {
        Some(delay) => delay,
        None => base,
    }
}

proof fn lemma_power_grows(a: nat, b: nat)
    requires
        a < b,
    ensures
        power_of_two(b) >= 2 * power_of_two(a),
        power_of_two(a) >= 1,
    decreases b,
{
    if a + 1 < b {
        lemma_power_grows(a, (b - 1) as nat);
    } else {
        lemma_power_positive(a);
    }
}

proof fn lemma_largest_power()
    ensures
        power_of_two(31) == 0x8000_0000,
{
    reveal_with_fuel(power_of_two, 32);
}

proof fn lemma_power_positive(a: nat)
    ensures
        power_of_two(a) >= 1,
    decreases a,
{
    if a > 0 {
        lemma_power_positive((a - 1) as nat);
    }
}

fn clear_active_context<T>(state: &mut GroupState<T>)
    ensures
        final(state)@ == (GroupView { active: old(state).active, ..stopped(old(state)@) }),
{
    state.active_run = None;
    state.active_task_id = None;
    state.process_id = None;
    state.container_name = None;
    state.group_folder = None;
}

impl<T> GroupState<T> {
    /// A group of which nothing is known.
    fn fresh() -> (state: GroupState<T>)
        ensures
            state@ == fresh_group::<T>(),
    {
        let state = GroupState {
            active: false,
            active_run: None,
            active_task_id: None,
            pending_messages: false,
            pending_tasks: VecDeque::new(),
            process_id: None,
            container_name: None,
            group_folder: None,
            retry_count: 0,
        };
        proof {
            assert(state@.pending_tasks =~= Seq::<(Seq<char>, T)>::empty());
        }
        state
    }

    /// Whether a task of that id runs or waits.
    fn has_task(&self, id: &str) -> (yes: bool)
        ensures
            yes == knows_task(self@, id@),
    {
        if let Some(active) = &self.active_task_id {
            if same_text(active.as_str(), id) {
                return true;
            }
        }
        let mut i: usize = 0;
        while i < self.pending_tasks.len()
            invariant
                i <= self.pending_tasks@.len(),
                self@.active_task_id != Some(id@),
                forall|k: int| 0 <= k < i ==> (#[trigger] self@.pending_tasks[k]).0 != id@,
            decreases self.pending_tasks@.len() - i,
        {
            if same_text(self.pending_tasks[i].id.as_str(), id) {
                proof {
                    assert(self@.pending_tasks[i as int].0 == id@);
                }
                return true;
            }
            i += 1;
        }
        false
    }
}

impl<T, P> GroupQueue<T, P> {
    pub closed spec fn groups_wf(&self) -> bool {
        self.groups.wf()
    }

    /// What holds of the queue between steps.
    pub open spec fn wf(&self) -> bool {
        self.groups_wf() && queue_ok(self@)
    }

    /// A queue with the default retries.
    pub fn new(max_concurrent: usize) -> (queue: GroupQueue<T, P>)
        ensures
            queue.wf(),
            queue@.groups == Map::<Seq<char>, GroupView<T>>::empty(),
            queue@.active_count == 0,
            queue@.waiting == Seq::<Seq<char>>::empty(),
            !queue@.shutting_down,
            queue@.process_messages is None,
            queue@.ipc_base_dir is None,
            queue@.max_concurrent == if max_concurrent < 1 {
                1
            } else {
                max_concurrent as nat
            },
            queue@.base_retry.total() == DEFAULT_BASE_RETRY_MS * 1_000_000,
            queue@.max_retries == DEFAULT_MAX_RETRIES,
    {
        GroupQueue::with_retry_config(
            max_concurrent,
            Duration::from_millis(DEFAULT_BASE_RETRY_MS),
            DEFAULT_MAX_RETRIES,
        )
    }

    /// A queue that runs at most `max_concurrent` groups at once, at least one,
    /// and retries a group's messages up to `max_retries` times.
    pub fn with_retry_config(
        max_concurrent: usize,
        base_retry: Duration,
        max_retries: u32,
    ) -> (queue: GroupQueue<T, P>)
        requires
            base_retry.wf(),
        ensures
            queue.wf(),
            queue@.groups == Map::<Seq<char>, GroupView<T>>::empty(),
            queue@.active_count == 0,
            queue@.waiting == Seq::<Seq<char>>::empty(),
            !queue@.shutting_down,
            queue@.process_messages is None,
            queue@.ipc_base_dir is None,
            queue@.max_concurrent == if max_concurrent < 1 {
                1
            } else {
                max_concurrent as nat
            },
            queue@.base_retry == base_retry,
            queue@.max_retries == max_retries,
    {
        let limit: usize = if max_concurrent < 1 {
            1
        } else {
            max_concurrent
        };
        let queue = GroupQueue {
            groups: NameMap::new(),
            active_count: 0,
            waiting_groups: VecDeque::new(),
            shutting_down: false,
            process_messages: None,
            ipc_base_dir: None,
            max_concurrent: limit,
            base_retry,
            max_retries,
        };
        proof {
            assert(queue@.groups =~= Map::<Seq<char>, GroupView<T>>::empty());
            assert(queue@.waiting =~= Seq::<Seq<char>>::empty());
            assert(active_groups(queue@.groups) =~= Set::<Seq<char>>::empty());
        }
        queue
    }

    /// Sets what processes messages.
    pub fn set_process_messages_fn(&mut self, callback: P)
        ensures
            final(self)@ == (QueueView { process_messages: Some(callback), ..old(self)@ }),
            old(self).wf() ==> final(self).wf(),
    {
        self.process_messages = Some(callback);
    }

    /// What processes messages, where it was set.
    pub fn process_messages_fn(&self) -> (callback: Option<&P>)
        ensures
            match callback {
                Some(p) => self@.process_messages == Some(*p),
                None => self@.process_messages is None,
            },
    {
        match &self.process_messages {
            Some(callback) => Some(callback),
            None => None,
        }
    }

    /// Sets the directory through which groups are talked to.
    pub fn set_ipc_base_dir(&mut self, path: String)
        ensures
            final(self)@ == (QueueView { ipc_base_dir: Some(path@), ..old(self)@ }),
            old(self).wf() ==> final(self).wf(),
    {
        self.ipc_base_dir = Some(path);
    }

    /// Takes a group, or a fresh one, out of the queue.
    fn take_group(&mut self, group_jid: &str) -> (state: GroupState<T>)
        requires
            old(self).groups_wf(),
        ensures
            final(self).groups_wf(),
            state@ == group_of(old(self)@, group_jid@),
            final(self)@ == (QueueView {
                groups: old(self)@.groups.remove(group_jid@),
                ..old(self)@
            }),
    {
        let ghost before = self.groups@;
        let taken = self.groups.remove(group_jid);
        proof {
            assert(groups_view(self.groups@) =~= groups_view(before).remove(group_jid@));
        }
        match taken {
            Some(state) => state,
            None => GroupState::fresh(),
        }
    }

    /// Puts a group into the queue.
    fn put_group(&mut self, group_jid: &str, state: GroupState<T>)
        requires
            old(self).groups_wf(),
        ensures
            final(self).groups_wf(),
            final(self)@ == with_group(old(self)@, group_jid@, state@),
    {
        let ghost before = self.groups@;
        self.groups.insert(group_jid, state);
        proof {
            assert(groups_view(self.groups@) =~= groups_view(before).insert(group_jid@, state@));
        }
    }

    /// Puts a group at the end of the waiting list, unless it waits already.
    fn push_waiting_group(&mut self, group_jid: &str)
        ensures
            final(self)@ == (QueueView {
                waiting: with_waiting(old(self)@.waiting, group_jid@),
                ..old(self)@
            }),
            final(self).groups_wf() == old(self).groups_wf(),
    {
        let ghost before = names_view(self.waiting_groups@);
        let mut i: usize = 0;
        while i < self.waiting_groups.len()
            invariant
                *self == *old(self),
                i <= self.waiting_groups@.len(),
                before == names_view(self.waiting_groups@),
                forall|k: int| 0 <= k < i ==> before[k] != group_jid@,
            decreases self.waiting_groups@.len() - i,
        {
            if same_text(self.waiting_groups[i].as_str(), group_jid) {
                proof {
                    assert(before[i as int] == group_jid@);
                }
                return;
            }
            i += 1;
        }
        self.waiting_groups.push_back(group_jid.to_owned());
        proof {
            assert(names_view(self.waiting_groups@) =~= before.push(group_jid@));
        }
    }

    /// Notes the folder of a group that runs.
    pub fn register_active_group_folder(&mut self, group_jid: &str, group_folder: &str)
        requires
            old(self).wf(),
        ensures
            final(self)@ == registered(old(self)@, group_jid@, group_folder@, None, None),
            final(self).wf(),
    {
        self.register_active_container(group_jid, group_folder, None, None);
    }

    /// Notes the container of a group that runs; the group is known from then
    /// on even where it does not run.
    pub fn register_active_container(
        &mut self,
        group_jid: &str,
        group_folder: &str,
        process_id: Option<u32>,
        container_name: Option<String>,
    )
        requires
            old(self).wf(),
        ensures
            final(self)@ == registered(
                old(self)@,
                group_jid@,
                group_folder@,
                process_id,
                container_name.deep_view(),
            ),
            final(self).wf(),
    {
        let ghost before = self@;
        let mut state = self.take_group(group_jid);
        if state.active {
            state.group_folder = Some(group_folder.to_owned());
            state.process_id = process_id;
            state.container_name = container_name;
        }
        self.put_group(group_jid, state);
        proof {
            let group = group_of(before, group_jid@);
            assert(before.groups.remove(group_jid@).insert(group_jid@, state@)
                =~= before.groups.insert(group_jid@, state@));
            registering_keeps_order(
                before,
                group_jid@,
                group_folder@,
                process_id,
                container_name.deep_view(),
            );
        }
    }

    /// What runs for a group, where the group is known.
    pub fn active_container_context(&self, group_jid: &str) -> (context: Option<
        ActiveContainerContext,
    >)
        requires
            self.wf(),
        ensures
            match context {
                Some(c) => {
                    &&& self@.groups.contains_key(group_jid@)
                    &&& c.active == self@.groups[group_jid@].active
                    &&& c.process_id == self@.groups[group_jid@].process_id
                    &&& c.container_name.deep_view() == self@.groups[group_jid@].container_name
                    &&& c.group_folder.deep_view() == self@.groups[group_jid@].group_folder
                },
                None => !self@.groups.contains_key(group_jid@),
            },
    {
        match self.groups.get(group_jid) {
            Some(state) => Some(
                ActiveContainerContext {
                    active: state.active,
                    process_id: state.process_id,
                    container_name: state.container_name.clone(),
                    group_folder: state.group_folder.clone(),
                },
            ),
            None => None,
        }
    }

    /// The directory in which a folder's group finds its input.
    pub fn input_dir_for(&self, group_folder: &str) -> (dir: Option<String>)
        ensures
            dir.deep_view() == input_dir(self@.ipc_base_dir, group_folder@),
    {
        match &self.ipc_base_dir {
            Some(base) => Some(
                join_path(join_path(base.as_str(), group_folder).as_str(), "input"),
            ),
            None => None,
        }
    }

    /// The directory in which a group that runs finds its input. A message for
    /// the group, or the request to end, is written there; with none it cannot
    /// be reached.
    pub fn active_input_dir(&self, group_jid: &str) -> (dir: Option<String>)
        requires
            self.wf(),
        ensures
            dir.deep_view() == reachable_dir(self@, group_jid@),
    {
        match self.groups.get(group_jid) {
            Some(state) => {
                if !state.active {
                    return None;
                }
                match &state.group_folder {
                    Some(folder) => self.input_dir_for(folder.as_str()),
                    None => None,
                }
            },
            None => None,
        }
    }

    /// Asks for a check of a group's messages: it runs now, after what the
    /// group runs, or when a slot is free. Nothing is taken after shutdown.
    pub fn enqueue_message_check(&mut self, group_jid: &str) -> (action: Option<QueueAction<T>>)
        requires
            old(self).wf(),
        ensures
            final(self)@ == message_check_step(old(self)@, group_jid@).0,
            action_content(action) == message_check_step(old(self)@, group_jid@).1,
            final(self).wf(),
    {
        let ghost before = self@;
        if self.shutting_down {
            return None;
        }
        proof {
            message_check_keeps_order(before, group_jid@);
        }
        let at_limit = self.active_count >= self.max_concurrent;
        let mut state = self.take_group(group_jid);
        let ghost group = state@;
        if state.active || at_limit {
            state.pending_messages = true;
            self.put_group(group_jid, state);
            if at_limit {
                self.push_waiting_group(group_jid);
            }
            proof {
                assert(before.groups.remove(group_jid@).insert(group_jid@, state@)
                    =~= before.groups.insert(group_jid@, state@));
            }
            return None;
        }
        state.active = true;
        state.active_run = Some(ActiveRunKind::Messages);
        state.active_task_id = None;
        state.pending_messages = false;
        self.put_group(group_jid, state);
        self.active_count = self.active_count + 1;
        proof {
            assert(before.groups.remove(group_jid@).insert(group_jid@, state@)
                =~= before.groups.insert(group_jid@, state@));
        }
        Some(QueueAction::RunMessages { group_jid: group_jid.to_owned() })
    }

    /// Gives a task to a group. It runs now, after what the group runs, or when
    /// a slot is free; a task whose id runs or waits already is dropped. The
    /// flag says that the group's message run is to be asked to end. Nothing is
    /// taken after shutdown.
    pub fn enqueue_task(&mut self, group_jid: &str, task_id: &str, run: T) -> (next: (
        Option<QueueAction<T>>,
        bool,
    ))
        requires
            old(self).wf(),
        ensures
            final(self)@ == task_step(old(self)@, group_jid@, task_id@, run).0,
            action_content(next.0) == task_step(old(self)@, group_jid@, task_id@, run).1,
            next.1 == task_step(old(self)@, group_jid@, task_id@, run).2,
            final(self).wf(),
    {
        let ghost before = self@;
        if self.shutting_down {
            return (None, false);
        }
        proof {
            task_keeps_order(before, group_jid@, task_id@, run);
        }
        let at_limit = self.active_count >= self.max_concurrent;
        let mut state = self.take_group(group_jid);
        let ghost group = state@;
        if state.has_task(task_id) {
            self.put_group(group_jid, state);
            proof {
                assert(before.groups.remove(group_jid@).insert(group_jid@, group)
                    =~= before.groups.insert(group_jid@, group));
            }
            return (None, false);
        }
        if state.active || at_limit {
            let push_waiting = !state.active;
            let close = state.active && state.active_run == Some(ActiveRunKind::Messages);
            state.pending_tasks.push_back(QueuedTask { id: task_id.to_owned(), run });
            proof {
                assert(state@.pending_tasks =~= group.pending_tasks.push((task_id@, run)));
            }
            self.put_group(group_jid, state);
            if push_waiting {
                self.push_waiting_group(group_jid);
            }
            proof {
                assert(before.groups.remove(group_jid@).insert(group_jid@, state@)
                    =~= before.groups.insert(group_jid@, state@));
            }
            return (None, close);
        }
        state.active = true;
        state.active_run = Some(ActiveRunKind::Task);
        state.active_task_id = Some(task_id.to_owned());
        self.put_group(group_jid, state);
        self.active_count = self.active_count + 1;
        proof {
            assert(before.groups.remove(group_jid@).insert(group_jid@, state@)
                =~= before.groups.insert(group_jid@, state@));
        }
        (
            Some(
                QueueAction::RunTask {
                    group_jid: group_jid.to_owned(),
                    task: QueuedTask { id: task_id.to_owned(), run },
                },
            ),
            false,
        )
    }

    /// Starts what a group waits for, tasks first.
    fn start_pending_run(&mut self, group_jid: &str) -> (action: Option<QueueAction<T>>)
        requires
            old(self).groups_wf(),
            old(self)@.active_count < old(self)@.max_concurrent,
        ensures
            final(self).groups_wf(),
            final(self)@ == start_pending(old(self)@, group_jid@).0,
            match action {
                Some(a) => start_pending(old(self)@, group_jid@).1 == seq![a@],
                None => start_pending(old(self)@, group_jid@).1.len() == 0,
            },
    {
        let ghost before = self@;
        match self.groups.get(group_jid) {
            Some(state) => {
                if state.active {
                    return None;
                }
                if state.pending_tasks.len() == 0 && !state.pending_messages {
                    return None;
                }
            },
            None => {
                return None;
            },
        }
        let mut state = self.take_group(group_jid);
        let ghost group = state@;
        let action = match state.pending_tasks.pop_front() {
            Some(task) => {
                state.active = true;
                state.active_run = Some(ActiveRunKind::Task);
                state.active_task_id = Some(task.id.clone());
                proof {
                    assert(state@.pending_tasks =~= group.pending_tasks.drop_first());
                    assert(state@ == running_first_task(group));
                }
                QueueAction::RunTask { group_jid: group_jid.to_owned(), task }
            },
            None => {
                state.pending_messages = false;
                state.active = true;
                state.active_run = Some(ActiveRunKind::Messages);
                state.active_task_id = None;
                proof {
                    assert(state@ == running_messages(group));
                }
                QueueAction::RunMessages { group_jid: group_jid.to_owned() }
            },
        };
        self.put_group(group_jid, state);
        self.active_count = self.active_count + 1;
        proof {
            assert(before.groups.remove(group_jid@).insert(group_jid@, state@)
                =~= before.groups.insert(group_jid@, state@));
        }
        Some(action)
    }

    /// Starts waiting groups from the front while slots are free.
    fn drain_waiting_groups(&mut self) -> (actions: Vec<QueueAction<T>>)
        requires
            old(self).groups_wf(),
        ensures
            final(self).groups_wf(),
            final(self)@ == drain_waiting(old(self)@).0,
            actions_view(actions@) == drain_waiting(old(self)@).1,
    {
        let mut actions: Vec<QueueAction<T>> = Vec::new();
        let ghost start = self@;
        proof {
            assert(actions_view(actions@) + drain_waiting(start).1 =~= drain_waiting(start).1);
        }
        while self.active_count < self.max_concurrent && self.waiting_groups.len() > 0
            invariant
                self.groups_wf(),
                drain_waiting(self@).0 == drain_waiting(start).0,
                actions_view(actions@) + drain_waiting(self@).1 == drain_waiting(start).1,
            decreases self.waiting_groups@.len(),
        {
            let ghost before = self@;
            let ghost done = actions_view(actions@);
            match self.waiting_groups.pop_front() {
                None => {},
                Some(jid) => {
                    let ghost popped = self@;
                    proof {
                        assert(popped.waiting =~= before.waiting.drop_first());
                        assert(jid@ == before.waiting[0]);
                    }
                    let action = self.start_pending_run(jid.as_str());
                    if let Some(action) = action {
                        actions.push(action);
                        proof {
                            assert(actions_view(actions@) =~= done + seq![action@]);
                        }
                    } else {
                        proof {
                            assert(actions_view(actions@) =~= done + start_pending(
                                popped,
                                jid@,
                            ).1);
                        }
                    }
                    proof {
                        let rest = drain_waiting(self@).1;
                        let first = start_pending(popped, jid@).1;
                        assert((done + first) + rest =~= done + (first + rest));
                    }
                },
            }
        }
        proof {
            assert(actions_view(actions@) + Seq::<ActionView<T>>::empty() =~= actions_view(
                actions@,
            ));
        }
        actions
    }

    /// Starts what a group waits for, then waiting groups; nothing on shutdown.
    fn drain_group_runs(&mut self, group_jid: &str) -> (actions: Vec<QueueAction<T>>)
        requires
            old(self).groups_wf(),
            old(self)@.active_count < old(self)@.max_concurrent,
        ensures
            final(self).groups_wf(),
            final(self)@ == drain_group(old(self)@, group_jid@).0,
            actions_view(actions@) == drain_group(old(self)@, group_jid@).1,
    {
        let mut actions: Vec<QueueAction<T>> = Vec::new();
        if self.shutting_down {
            proof {
                assert(actions_view(actions@) =~= Seq::<ActionView<T>>::empty());
            }
            return actions;
        }
        let ghost before = self@;
        let first = self.start_pending_run(group_jid);
        if let Some(action) = first {
            actions.push(action);
            proof {
                assert(actions_view(actions@) =~= seq![action@]);
            }
        }
        let ghost started = actions_view(actions@);
        proof {
            assert(started =~= start_pending(before, group_jid@).1);
        }
        let mut rest = self.drain_waiting_groups();
        let ghost more = actions_view(rest@);
        actions.append(&mut rest);
        proof {
            assert(actions_view(actions@) =~= started + more);
        }
        actions
    }

    /// Notes a failed run of messages and says when to try again; nothing once
    /// the retries are used up.
    fn compute_retry_action(&self, group_jid: &str, state: &mut GroupState<T>) -> (action: Option<
        QueueAction<T>,
    >)
        requires
            self@.base_retry.wf(),
        ensures
            final(state)@ == (GroupView {
                retry_count: failures_after(old(state).retry_count, self@.max_retries),
                ..old(state)@
            }),
            retry_follows(action, group_jid@, final(state).retry_count, self@.base_retry),
    {
        let count: u32 = if state.retry_count == u32::MAX {
            u32::MAX
        } else {
            state.retry_count + 1
        };
        if count > self.max_retries {
            state.retry_count = 0;
            return None;
        }
        state.retry_count = count;
        Some(
            QueueAction::ScheduleRetry {
                group_jid: group_jid.to_owned(),
                delay: retry_delay(self.base_retry, count),
            },
        )
    }

    /// A group's message run ended. What waits is started; after a failure the
    /// messages are checked again later, unless the retries are used up.
    pub fn finish_messages_run(&mut self, group_jid: &str, success: bool) -> (actions: Vec<
        QueueAction<T>,
    >)
        requires
            old(self).wf(),
            old(self)@.groups.contains_key(group_jid@),
            old(self)@.groups[group_jid@].active,
        ensures
            final(self)@ == finish_step(
                old(self)@,
                group_jid@,
                after_messages(
                    old(self)@.groups[group_jid@],
                    success,
                    old(self)@.max_retries,
                ),
            ).0,
            finished_with(
                actions@,
                finish_step(
                    old(self)@,
                    group_jid@,
                    after_messages(
                        old(self)@.groups[group_jid@],
                        success,
                        old(self)@.max_retries,
                    ),
                ).1,
                group_jid@,
                if success {
                    0
                } else {
                    failures_after(
                        old(self)@.groups[group_jid@].retry_count,
                        old(self)@.max_retries,
                    )
                },
                old(self)@.base_retry,
            ),
            final(self).wf(),
    {
        let ghost before = self@;
        proof {
            lemma_active_insert(before.groups, group_jid@, before.groups[group_jid@]);
            assert(active_groups(before.groups).contains(group_jid@));
            assert(active_groups(before.groups).len() > 0);
        }
        self.active_count = self.active_count - 1;
        let mut state = self.take_group(group_jid);
        let ghost group = state@;
        state.active = false;
        clear_active_context(&mut state);
        let retry = if success {
            state.retry_count = 0;
            None
        } else {
            self.compute_retry_action(group_jid, &mut state)
        };
        proof {
            assert(state@ == after_messages(group, success, before.max_retries));
        }
        self.put_group(group_jid, state);
        proof {
            assert(before.groups.remove(group_jid@).insert(group_jid@, state@)
                =~= before.groups.insert(group_jid@, state@));
            assert(group_ok(state@));
            finish_keeps_order(before, group_jid@, state@);
        }
        let mut actions = self.drain_group_runs(group_jid);
        let ghost started = actions_view(actions@);
        if let Some(action) = retry {
            let ghost drained = actions@;
            actions.push(action);
            proof {
                assert(actions@.drop_last() =~= drained);
            }
        }
        actions
    }

    /// A group's task ended. What waits is started.
    pub fn finish_task_run(&mut self, group_jid: &str) -> (actions: Vec<QueueAction<T>>)
        requires
            old(self).wf(),
            old(self)@.groups.contains_key(group_jid@),
            old(self)@.groups[group_jid@].active,
        ensures
            final(self)@ == finish_step(
                old(self)@,
                group_jid@,
                stopped(old(self)@.groups[group_jid@]),
            ).0,
            actions_view(actions@) == finish_step(
                old(self)@,
                group_jid@,
                stopped(old(self)@.groups[group_jid@]),
            ).1,
            final(self).wf(),
    {
        let ghost before = self@;
        proof {
            lemma_active_insert(before.groups, group_jid@, before.groups[group_jid@]);
            assert(active_groups(before.groups).contains(group_jid@));
            assert(active_groups(before.groups).len() > 0);
        }
        self.active_count = self.active_count - 1;
        let mut state = self.take_group(group_jid);
        state.active = false;
        clear_active_context(&mut state);
        self.put_group(group_jid, state);
        proof {
            assert(before.groups.remove(group_jid@).insert(group_jid@, state@)
                =~= before.groups.insert(group_jid@, state@));
            assert(group_ok(state@));
            finish_keeps_order(before, group_jid@, state@);
        }
        self.drain_group_runs(group_jid)
    }

    /// Stops taking work. Runs go on detached: the result says how many there
    /// are and names their containers, each run's once.
    pub fn shutdown(&mut self) -> (detached: (usize, Vec<String>))
        requires
            old(self).wf(),
        ensures
            final(self)@ == (QueueView { shutting_down: true, ..old(self)@ }),
            final(self).wf(),
            detached.0 == active_groups(old(self)@.groups).len(),
            lists_containers(old(self)@.groups, detached.1.deep_view()),
    {
        self.shutting_down = true;
        let ghost groups = self@.groups;
        let ghost mut jids: Seq<Seq<char>> = Seq::empty();
        let mut names: Vec<String> = Vec::new();
        let mut i: usize = 0;
        proof {
            self.groups.lemma_listed();
        }
        while i < self.groups.len()
            invariant
                self@ == (QueueView { shutting_down: true, ..old(self)@ }),
                self@.groups == groups,
                self.groups_wf(),
                i <= self.groups.entry_count(),
                jids.no_duplicates(),
                jids.len() == names@.len(),
                forall|k: int|
                    0 <= k < jids.len() ==> has_container(
                        groups,
                        #[trigger] jids[k],
                        names.deep_view()[k],
                    ),
                forall|k: int|
                    0 <= k < jids.len() ==> exists|p: int|
                        0 <= p < i && self.groups.name_at(p) == #[trigger] jids[k],
                forall|p: int|
                    0 <= p < i && groups[#[trigger] self.groups.name_at(p)].active
                        && groups[self.groups.name_at(p)].container_name is Some
                        ==> jids.contains(self.groups.name_at(p)),
            decreases self.groups.entry_count() - i,
        {
            let (jid, state) = self.groups.entry(i);
            let ghost before = names.deep_view();
            let ghost listed = jids;
            proof {
                self.groups.lemma_listed();
                assert(groups[jid@] == state@);
                assert(groups.contains_key(jid@));
            }
            if state.active {
                if let Some(name) = &state.container_name {
                    names.push(name.clone());
                    proof {
                        assert(names.deep_view() =~= before.push(name@));
                        jids = listed.push(jid@);
                        assert(!listed.contains(jid@)) by {
                            if listed.contains(jid@) {
                                let k = choose|k: int| 0 <= k < listed.len() && listed[k] == jid@;
                                let p = choose|p: int|
                                    0 <= p < i && self.groups.name_at(p) == listed[k];
                                assert(self.groups.name_at(p) != self.groups.name_at(i as int));
                            }
                        }
                        assert forall|k: int| 0 <= k < jids.len() implies has_container(
                            groups,
                            #[trigger] jids[k],
                            names.deep_view()[k],
                        ) by {
                            if k < listed.len() {
                                assert(jids[k] == listed[k]);
                            }
                        }
                        assert forall|k: int| 0 <= k < jids.len() implies exists|p: int|
                            0 <= p < i + 1 && self.groups.name_at(p) == #[trigger] jids[k] by {
                            if k < listed.len() {
                                assert(jids[k] == listed[k]);
                            } else {
                                assert(self.groups.name_at(i as int) == jids[k]);
                            }
                        }
                        assert forall|p: int|
                            0 <= p < i + 1 && groups[#[trigger] self.groups.name_at(p)].active
                                && groups[self.groups.name_at(p)].container_name is Some
                                implies jids.contains(self.groups.name_at(p)) by {
                            if p == i {
                                assert(jids[listed.len() as int] == self.groups.name_at(p));
                            } else {
                                let k = choose|k: int|
                                    0 <= k < listed.len() && listed[k] == self.groups.name_at(p);
                                assert(jids[k] == self.groups.name_at(p));
                            }
                        }
                    }
                }
            }
            i += 1;
        }
        proof {
            assert forall|jid: Seq<char>, name: Seq<char>| #[trigger]
                has_container(groups, jid, name) implies jids.contains(jid) by {
                self.groups.lemma_listed();
                assert(self.groups@.contains_key(jid));
                let p = choose|p: int|
                    0 <= p < self.groups.entry_count() && self.groups.name_at(p) == jid;
                assert(groups[self.groups.name_at(p)].active);
            }
            assert(names_containers(groups, jids, names.deep_view()));
        }
        (self.active_count, names)
    }
}

impl<T, P> Default for GroupQueue<T, P> {
    fn default() -> (queue: GroupQueue<T, P>)
        ensures
            queue.wf(),
            queue@.groups == Map::<Seq<char>, GroupView<T>>::empty(),
            queue@.active_count == 0,
            queue@.waiting == Seq::<Seq<char>>::empty(),
            !queue@.shutting_down,
            queue@.process_messages is None,
            queue@.ipc_base_dir is None,
            queue@.max_concurrent == DEFAULT_MAX_CONCURRENT,
            queue@.base_retry.total() == DEFAULT_BASE_RETRY_MS * 1_000_000,
            queue@.max_retries == DEFAULT_MAX_RETRIES,
    {
        GroupQueue::new(DEFAULT_MAX_CONCURRENT)
    }
}

/// The name of a file of input, from the time and the process that writes it.
pub fn unique_ipc_name(now_ms: u128, process_id: u32) -> (name: String)
    ensures
        name@ == decimal(now_ms as nat) + "-"@ + decimal(process_id as nat),
{
    u128_text(now_ms).concat("-").concat(u64_text(process_id as u64).as_str())
}

/// What a file of input says for a group that runs: the text of a message.
pub fn input_payload(text: &str) -> (payload: String)
    ensures
        payload@ == displayed_json(
            Json::Object(
                seq![("text"@, Json::Text(text@)), ("type"@, Json::Text("message"@))],
            ),
        ),
{
    let members: Vec<(String, JsonValue)> = vec![
        ("text".to_owned(), JsonValue::Text(text.to_owned())),
        ("type".to_owned(), JsonValue::Text("message".to_owned())),
    ];
    proof {
        lemma_object_content(members);
        assert(members.deep_view() =~= seq![
            ("text"@, Json::Text(text@)),
            ("type"@, Json::Text("message"@)),
        ]);
    }
    display_json(&JsonValue::Object(members))
}

/// Whether a group runs in a container of that name.
pub open spec fn has_container<T>(
    groups: Map<Seq<char>, GroupView<T>>,
    jid: Seq<char>,
    name: Seq<char>,
) -> bool {
    groups.contains_key(jid) && groups[jid].active && groups[jid].container_name == Some(name)
}

/// Whether `jids` are the groups that run in a container, each once, and `names`
/// are their containers.
pub open spec fn names_containers<T>(
    groups: Map<Seq<char>, GroupView<T>>,
    jids: Seq<Seq<char>>,
    names: Seq<Seq<char>>,
) -> bool {
    &&& jids.no_duplicates()
    &&& jids.len() == names.len()
    &&& forall|i: int| 0 <= i < jids.len() ==> has_container(groups, #[trigger] jids[i], names[i])
    &&& forall|jid: Seq<char>, name: Seq<char>| #[trigger]
        has_container(groups, jid, name) ==> jids.contains(jid)
}

/// Whether `names` are the containers of the groups that run in one, each
/// group's once.
pub open spec fn lists_containers<T>(
    groups: Map<Seq<char>, GroupView<T>>,
    names: Seq<Seq<char>>,
) -> bool {
    exists|jids: Seq<Seq<char>>| #[trigger] names_containers(groups, jids, names)
}

/// Whether an action is the retry of a group with that many failures.
pub open spec fn retry_follows<T>(
    action: Option<QueueAction<T>>,
    jid: Seq<char>,
    failures: u32,
    base: Duration,
) -> bool {
    match action {
        Some(QueueAction::ScheduleRetry { group_jid, delay }) => failures > 0 && group_jid@ == jid
            && is_retry_delay(delay, base, failures as nat),
        Some(_) => false,
        None => failures == 0,
    }
}

/// Whether the actions are those started, and after them the retry that
/// follows that many failures.
pub open spec fn finished_with<T>(
    actions: Seq<QueueAction<T>>,
    started: Seq<ActionView<T>>,
    jid: Seq<char>,
    failures: u32,
    base: Duration,
) -> bool {
    if failures == 0 {
        actions_view(actions) == started
    } else {
        &&& actions.len() > 0
        &&& actions_view(actions.drop_last()) == started
        &&& retry_follows(Some(actions.last()), jid, failures, base)
    }
}

pub open spec fn action_content<T>(action: Option<QueueAction<T>>) -> Option<ActionView<T>> {
    match action {
        Some(action) => Some(action@),
        None => None,
    }
}

pub open spec fn input_dir(base: Option<Seq<char>>, folder: Seq<char>) -> Option<Seq<char>> {
    match base {
        Some(base) => Some(joined_path(joined_path(base, folder), "input"@)),
        None => None,
    }
}

/// The directory in which a group that runs finds its input.
pub open spec fn reachable_dir<T, P>(queue: QueueView<T, P>, jid: Seq<char>) -> Option<Seq<char>> {
    let group = group_of(queue, jid);
    if !group.active {
        None
    } else {
        match group.group_folder {
            Some(folder) => input_dir(queue.ipc_base_dir, folder),
            None => None,
        }
    }
}

/// The queue after a group's container was noted.
pub open spec fn registered<T, P>(
    queue: QueueView<T, P>,
    jid: Seq<char>,
    folder: Seq<char>,
    process_id: Option<u32>,
    container_name: Option<Seq<char>>,
) -> QueueView<T, P> {
    let group = group_of(queue, jid);
    with_group(
        queue,
        jid,
        if group.active {
            GroupView { group_folder: Some(folder), process_id, container_name, ..group }
        } else {
            group
        },
    )
}

/// Noting a container keeps the queue in order.
pub proof fn registering_keeps_order<T, P>(
    queue: QueueView<T, P>,
    jid: Seq<char>,
    folder: Seq<char>,
    process_id: Option<u32>,
    container_name: Option<Seq<char>>,
)
    requires
        queue_ok(queue),
    ensures
        queue_ok(registered(queue, jid, folder, process_id, container_name)),
{
    let after = registered(queue, jid, folder, process_id, container_name);
    lemma_active_insert(queue.groups, jid, after.groups[jid]);
    assert(active_groups(after.groups) =~= active_groups(queue.groups));
    assert(group_ok(group_of(queue, jid)));
    assert forall|other: Seq<char>| #[trigger]
        after.groups.contains_key(other) && !queue.shutting_down && !after.groups[other].active
            && has_pending(after.groups[other]) implies after.waiting.contains(other) by {
        assert(queue.groups.contains_key(other));
    }
}

// ---------------------------------------------------------------------------
// Laws
// ---------------------------------------------------------------------------

/// The group that an action is for.
pub open spec fn group_named<T>(action: ActionView<T>) -> Seq<char> {
    match action {
        ActionView::RunMessages { group_jid } => group_jid,
        ActionView::RunTask { group_jid, .. } => group_jid,
        ActionView::ScheduleRetry { group_jid, .. } => group_jid,
    }
}

/// Whether the actions each start a group that did not run, no group twice, and
/// leave running what ran.
pub open spec fn starts_idle_groups<T, P>(
    before: QueueView<T, P>,
    after: QueueView<T, P>,
    actions: Seq<ActionView<T>>,
) -> bool {
    &&& forall|i: int|
        0 <= i < actions.len() ==> {
            let jid = group_named(#[trigger] actions[i]);
            &&& !(actions[i] is ScheduleRetry)
            &&& before.groups.contains_key(jid) && !before.groups[jid].active
            &&& after.groups.contains_key(jid) && after.groups[jid].active
        }
    &&& forall|i: int, j: int|
        0 <= i < j < actions.len() ==> group_named(#[trigger] actions[i]) != group_named(
            #[trigger] actions[j],
        )
    &&& forall|jid: Seq<char>| #[trigger]
        before.groups.contains_key(jid) && before.groups[jid].active ==> after.groups.contains_key(
            jid,
        ) && after.groups[jid] == before.groups[jid]
    &&& after.active_count == before.active_count + actions.len()
}

proof fn lemma_start_is_idle<T, P>(queue: QueueView<T, P>, jid: Seq<char>)
    ensures
        starts_idle_groups(queue, start_pending(queue, jid).0, start_pending(queue, jid).1),
{
}

proof fn lemma_starts_compose<T, P>(
    a: QueueView<T, P>,
    b: QueueView<T, P>,
    c: QueueView<T, P>,
    first: Seq<ActionView<T>>,
    rest: Seq<ActionView<T>>,
)
    requires
        starts_idle_groups(a, b, first),
        starts_idle_groups(b, c, rest),
        forall|jid: Seq<char>| #[trigger]
            b.groups.contains_key(jid) ==> a.groups.contains_key(jid),
        forall|jid: Seq<char>|
            a.groups.contains_key(jid) && a.groups[jid].active ==> #[trigger] b.groups[jid].active,
    ensures
        starts_idle_groups(a, c, first + rest),
{
    let all = first + rest;
    assert forall|i: int| 0 <= i < all.len() implies {
        let jid = group_named(#[trigger] all[i]);
        &&& !(all[i] is ScheduleRetry)
        &&& a.groups.contains_key(jid) && !a.groups[jid].active
        &&& c.groups.contains_key(jid) && c.groups[jid].active
    } by {
        if i < first.len() {
            assert(all[i] == first[i]);
        } else {
            assert(all[i] == rest[i - first.len()]);
        }
    }
    assert forall|i: int, j: int| 0 <= i < j < all.len() implies group_named(#[trigger] all[i])
        != group_named(#[trigger] all[j]) by {
        if j < first.len() {
            assert(all[i] == first[i] && all[j] == first[j]);
        } else if i >= first.len() {
            assert(all[i] == rest[i - first.len()] && all[j] == rest[j - first.len()]);
        } else {
            assert(all[i] == first[i] && all[j] == rest[j - first.len()]);
        }
    }
    assert forall|jid: Seq<char>| #[trigger]
        a.groups.contains_key(jid) && a.groups[jid].active implies c.groups.contains_key(jid)
        && c.groups[jid] == a.groups[jid] by {
        assert(b.groups.contains_key(jid));
    }
}

proof fn lemma_drain_is_idle<T, P>(queue: QueueView<T, P>)
    ensures
        starts_idle_groups(queue, drain_waiting(queue).0, drain_waiting(queue).1),
    decreases queue.waiting.len(),
{
    if queue.active_count < queue.max_concurrent && queue.waiting.len() > 0 {
        let popped = QueueView { waiting: queue.waiting.drop_first(), ..queue };
        let (started, first) = start_pending(popped, queue.waiting[0]);
        lemma_start_is_idle(popped, queue.waiting[0]);
        lemma_drain_is_idle(started);
        lemma_starts_compose(popped, started, drain_waiting(started).0, first, drain_waiting(
            started,
        ).1);
    }
}

/// At most one run per group: when a run ends, every run that is started is of
/// a group that runs nothing, and no group is started twice.
pub proof fn finish_starts_idle_groups_only<T, P>(
    queue: QueueView<T, P>,
    jid: Seq<char>,
    group: GroupView<T>,
)
    requires
        queue_ok(queue),
        queue.groups.contains_key(jid),
        queue.groups[jid].active,
        !group.active,
    ensures
        starts_idle_groups(
            QueueView {
                active_count: (queue.active_count - 1) as nat,
                ..with_group(queue, jid, group)
            },
            finish_step(queue, jid, group).0,
            finish_step(queue, jid, group).1,
        ),
{
    let freed = QueueView {
        active_count: (queue.active_count - 1) as nat,
        ..with_group(queue, jid, group)
    };
    if !queue.shutting_down {
        let (started, first) = start_pending(freed, jid);
        lemma_start_is_idle(freed, jid);
        lemma_drain_is_idle(started);
        lemma_starts_compose(freed, started, drain_waiting(started).0, first, drain_waiting(
            started,
        ).1);
    }
}

/// At most one run per group: a message check or a task starts a run only where
/// the group runs nothing and a slot is free.
pub proof fn request_starts_idle_group_only<T, P>(
    queue: QueueView<T, P>,
    jid: Seq<char>,
    id: Seq<char>,
    run: T,
)
    ensures
        message_check_step(queue, jid).1 is Some ==> !group_of(queue, jid).active
            && queue.active_count < queue.max_concurrent && !queue.shutting_down,
        task_step(queue, jid, id, run).1 is Some ==> !group_of(queue, jid).active
            && queue.active_count < queue.max_concurrent && !queue.shutting_down,
{
}

/// After shutdown nothing starts: requests are dropped, and the end of a run
/// starts nothing.
pub proof fn nothing_starts_after_shutdown<T, P>(
    queue: QueueView<T, P>,
    jid: Seq<char>,
    id: Seq<char>,
    run: T,
    group: GroupView<T>,
)
    requires
        queue.shutting_down,
    ensures
        message_check_step(queue, jid) == (queue, None::<ActionView<T>>),
        task_step(queue, jid, id, run) == (queue, None::<ActionView<T>>, false),
        finish_step(queue, jid, group).1.len() == 0,
{
}

/// Tasks before messages: where a group has a task waiting, what is started for
/// it next is its oldest task.
pub proof fn tasks_run_before_messages<T, P>(
    queue: QueueView<T, P>,
    jid: Seq<char>,
    group: GroupView<T>,
)
    requires
        !queue.shutting_down,
        !group.active,
        group.pending_tasks.len() > 0,
    ensures
        ({
            let actions = finish_step(queue, jid, group).1;
            &&& actions.len() > 0
            &&& actions[0] == (ActionView::RunTask {
                group_jid: jid,
                task_id: group.pending_tasks[0].0,
                run: group.pending_tasks[0].1,
            })
        }),
{
}

/// A task is never run twice: while its id runs or waits, giving it again
/// changes nothing of the group.
pub proof fn known_task_is_dropped<T, P>(
    queue: QueueView<T, P>,
    jid: Seq<char>,
    id: Seq<char>,
    run: T,
)
    requires
        knows_task(group_of(queue, jid), id),
    ensures
        task_step(queue, jid, id, run).1 is None,
        group_of(task_step(queue, jid, id, run).0, jid) == group_of(queue, jid),
{
}

/// Retries are bounded: a group counts at most as many failures as there are
/// retries, and the failure after the last retry starts over without one.
pub proof fn retries_are_bounded(retry_count: u32, max_retries: u32)
    ensures
        failures_after(retry_count, max_retries) <= max_retries,
        retry_count >= max_retries && max_retries < u32::MAX ==> failures_after(
            retry_count,
            max_retries,
        ) == 0,
        retry_count < max_retries ==> failures_after(retry_count, max_retries) == retry_count + 1,
{
}

/// Each retry waits twice as long as the one before, as long as the wait can be
/// held and its factor fits.
pub proof fn waits_double(base: Duration, n: nat, shorter: Duration, longer: Duration)
    requires
        n >= 1,
        is_retry_delay(shorter, base, n),
        is_retry_delay(longer, base, n + 1),
        retry_factor(n + 1) < u32::MAX,
        base.total() * retry_factor(n + 1) <= max_nanos(),
    ensures
        longer.total() == 2 * shorter.total(),
{
    assert(retry_factor(n + 1) == 2 * retry_factor(n));
    assert(base.total() * retry_factor(n + 1) == 2 * (base.total() * retry_factor(n)))
        by (nonlinear_arith)
        requires
            retry_factor(n + 1) == 2 * retry_factor(n),
    ;
}

/// A task is not lost: until shutdown, one whose id is not known yet starts at once, or
/// waits behind the group's other tasks, and the group runs or waits for its turn. A group
/// that processes messages is told to end for it.
pub proof fn given_task_is_not_lost<T, P>(
    queue: QueueView<T, P>,
    jid: Seq<char>,
    id: Seq<char>,
    run: T,
)
    requires
        queue_ok(queue),
        !queue.shutting_down,
        !knows_task(group_of(queue, jid), id),
    ensures
        ({
            let (after, action, close) = task_step(queue, jid, id, run);
            let group = group_of(queue, jid);
            &&& action matches Some(started) ==> started == (ActionView::RunTask {
                group_jid: jid,
                task_id: id,
                run,
            })
            &&& action is None ==> after.groups.contains_key(jid)
                && after.groups[jid].pending_tasks == group.pending_tasks.push((id, run)) && (
            after.groups[jid].active || after.waiting.contains(jid))
            &&& action is Some <==> !group.active && queue.active_count < queue.max_concurrent
            &&& close <==> group.active && group.active_run == Some(ActiveRunKind::Messages)
        }),
{
    task_keeps_order(queue, jid, id, run);
    let after = task_step(queue, jid, id, run).0;
    assert(after.groups.contains_key(jid));
    assert(has_pending(after.groups[jid]) || task_step(queue, jid, id, run).1 is Some);
}

/// A group that does not run is started at once where there is room, for its messages as
/// for a task; where it runs or there is none, it is not.
pub proof fn idle_group_starts_where_there_is_room<T, P>(queue: QueueView<T, P>, jid: Seq<char>)
    requires
        !queue.shutting_down,
    ensures
        ({
            let (after, action) = message_check_step(queue, jid);
            let room = !group_of(queue, jid).active && queue.active_count < queue.max_concurrent;
            &&& room ==> action == Some(ActionView::<T>::RunMessages { group_jid: jid })
                && after.groups[jid].active && after.active_count == queue.active_count + 1
            &&& !room ==> action is None && after.groups[jid].pending_messages
                && after.active_count == queue.active_count
        }),
{
}

/// A group that succeeded starts over without failures; what waited for it still waits,
/// and nothing of its run stays.
pub proof fn ended_run_leaves_nothing<T>(group: GroupView<T>, success: bool, max_retries: u32)
    ensures
        ({
            let after = after_messages(group, success, max_retries);
            &&& !after.active
            &&& after.process_id is None && after.container_name is None && after.group_folder
                is None && after.active_task_id is None
            &&& after.pending_messages == group.pending_messages
            &&& after.pending_tasks == group.pending_tasks
            &&& success ==> after.retry_count == 0
            &&& !success && group.retry_count < max_retries ==> after.retry_count
                == group.retry_count + 1
        }),
{
}

/// The first retry waits as long as is set, and a retry is for the group that failed.
pub proof fn first_retry_waits_as_set<T>(
    delay: Duration,
    base: Duration,
    action: Option<QueueAction<T>>,
    jid: Seq<char>,
    failures: u32,
)
    requires
        base.wf(),
    ensures
        is_retry_delay(delay, base, 1) ==> delay.total() == base.total(),
        retry_follows(action, jid, failures, base) ==> (failures > 0 <==> action is Some),
        retry_follows(action, jid, failures, base) && failures > 0 ==> (action matches Some(
            QueueAction::ScheduleRetry { group_jid, .. },
        ) && group_jid@ == jid),
{
    assert(power_of_two(0) == 1);
    assert(base.total() * retry_factor(1) == base.total()) by (nonlinear_arith)
        requires
            retry_factor(1) == 1,
    ;
}

/// A group that runs finds its input in its own folder under the directory that is set,
/// and one that does not run is not reached.
pub proof fn running_group_is_reached_in_its_folder<T, P>(
    queue: QueueView<T, P>,
    jid: Seq<char>,
    folder: Seq<char>,
    process_id: Option<u32>,
    container_name: Option<Seq<char>>,
    base: Seq<char>,
)
    ensures
        ({
            let after = registered(queue, jid, folder, process_id, container_name);
            &&& group_of(queue, jid).active && queue.ipc_base_dir == Some(base) ==> reachable_dir(
                after,
                jid,
            ) == Some(joined_path(joined_path(base, folder), "input"@))
            &&& group_of(queue, jid).active ==> group_of(after, jid).container_name
                == container_name && group_of(after, jid).process_id == process_id
            &&& !group_of(queue, jid).active ==> reachable_dir(after, jid) is None
        }),
{
}

} // verus!
