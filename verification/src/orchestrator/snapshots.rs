//! What a group sees of tasks, groups and skills while its agent runs.

use vstd::prelude::*;
use vstd::string::*;

use crate::orchestrator::state::{RouterState, RouterView};
use crate::paths::{join_path, joined_path};
use crate::text::{finishes_with, same_text};
use crate::timestamp::{rfc3339_text, to_rfc3339, Timestamp};
use crate::types::{ChatInfo, ScheduledTask};

verus! {

#[derive(Debug, PartialEq, Eq)]
pub struct AvailableGroup {
    pub jid: String,
    pub name: String,
    pub last_activity: String,
    pub is_registered: bool,
}

/// The content of an [`AvailableGroup`].
pub struct AvailableView {
    pub jid: Seq<char>,
    pub name: Seq<char>,
    pub last_activity: Seq<char>,
    pub is_registered: bool,
}

impl DeepView for AvailableGroup {
    type V = AvailableView;

    open spec fn deep_view(&self) -> AvailableView {
        AvailableView {
            jid: self.jid@,
            name: self.name@,
            last_activity: self.last_activity@,
            is_registered: self.is_registered,
        }
    }
}

/// Whether a chat may be registered as a group.
pub open spec fn is_group_chat(jid: Seq<char>) -> bool {
    jid != "__group_sync__"@ && "@discord"@.is_suffix_of(jid)
}

/// The chats that may be registered, and whether they are.
pub open spec fn available(chats: Seq<ChatInfo>, state: RouterView) -> Seq<AvailableView>
    decreases chats.len(),
{
    if chats.len() == 0 {
        Seq::empty()
    } else {
        let before = available(chats.drop_last(), state);
        let chat = chats.last();
        if is_group_chat(chat.jid@) {
            before.push(
                AvailableView {
                    jid: chat.jid@,
                    name: chat.name@,
                    last_activity: chat.last_message_time@,
                    is_registered: state.registered_groups.contains_key(chat.jid@),
                },
            )
        } else {
            before
        }
    }
}

impl RouterState {
    /// The chats that may be registered, and whether they are.
    pub fn get_available_groups(&self, chats: &Vec<ChatInfo>) -> (groups: Vec<AvailableGroup>)
        requires
            self.wf(),
        ensures
            groups.deep_view() == available(chats@, self@),
    {
        let mut groups: Vec<AvailableGroup> = Vec::new();
        let mut i: usize = 0;
        while i < chats.len()
            invariant
                self.wf(),
                i <= chats@.len(),
                groups.deep_view() =~= available(chats@.take(i as int), self@),
            decreases chats@.len() - i,
        {
            let ghost before = groups.deep_view();
            proof {
                assert(chats@.take(i as int + 1).drop_last() =~= chats@.take(i as int));
            }
            let chat = &chats[i];
            if !same_text(chat.jid.as_str(), "__group_sync__") && finishes_with(
                chat.jid.as_str(),
                "@discord",
            ) {
                let group = AvailableGroup {
                    jid: chat.jid.clone(),
                    name: chat.name.clone(),
                    last_activity: chat.last_message_time.clone(),
                    is_registered: self.registered_groups.get(chat.jid.as_str()).is_some(),
                };
                groups.push(group);
                proof {
                    assert(groups.deep_view() =~= before.push(group.deep_view()));
                }
            }
            i += 1;
        }
        proof {
            assert(chats@.take(chats@.len() as int) =~= chats@);
        }
        groups
    }

    /// The groups that a group sees: the main group all, the others none.
    pub fn visible_groups(&self, chats: &Vec<ChatInfo>, is_main: bool) -> (groups: Vec<
        AvailableGroup,
    >)
        requires
            self.wf(),
        ensures
            groups.deep_view() == if is_main {
                available(chats@, self@)
            } else {
                Seq::empty()
            },
    {
        if is_main {
            self.get_available_groups(chats)
        } else {
            let groups: Vec<AvailableGroup> = Vec::new();
            proof {
                assert(groups.deep_view() =~= Seq::<AvailableView>::empty());
            }
            groups
        }
    }
}

/// A task as a group sees it.
#[derive(Debug, PartialEq, Eq)]
pub struct TaskSnapshot {
    pub id: String,
    pub group_folder: String,
    pub prompt: String,
    pub schedule_type: String,
    pub schedule_value: String,
    pub status: String,
    pub next_run: Option<String>,
}

/// The content of a [`TaskSnapshot`].
pub struct TaskSnapshotView {
    pub id: Seq<char>,
    pub group_folder: Seq<char>,
    pub prompt: Seq<char>,
    pub schedule_type: Seq<char>,
    pub schedule_value: Seq<char>,
    pub status: Seq<char>,
    pub next_run: Option<Seq<char>>,
}

impl DeepView for TaskSnapshot {
    type V = TaskSnapshotView;

    open spec fn deep_view(&self) -> TaskSnapshotView {
        TaskSnapshotView {
            id: self.id@,
            group_folder: self.group_folder@,
            prompt: self.prompt@,
            schedule_type: self.schedule_type@,
            schedule_value: self.schedule_value@,
            status: self.status@,
            next_run: self.next_run.deep_view(),
        }
    }
}

pub open spec fn instant_text(instant: Option<Timestamp>) -> Option<Seq<char>> {
    match instant {
        Some(t) => Some(rfc3339_text(t)),
        None => None,
    }
}

pub open spec fn task_seen(task: ScheduledTask) -> TaskSnapshotView {
    TaskSnapshotView {
        id: task.id@,
        group_folder: task.group_folder@,
        prompt: task.prompt@,
        schedule_type: task.schedule_type.text(),
        schedule_value: task.schedule_value@,
        status: task.status.text(),
        next_run: instant_text(task.next_run),
    }
}

/// The tasks that a group sees: the main group all, the others their own.
pub open spec fn tasks_seen(tasks: Seq<ScheduledTask>, folder: Seq<char>, is_main: bool) -> Seq<
    TaskSnapshotView,
>
    decreases tasks.len(),
{
    if tasks.len() == 0 {
        Seq::empty()
    } else {
        let before = tasks_seen(tasks.drop_last(), folder, is_main);
        if is_main || tasks.last().group_folder@ == folder {
            before.push(task_seen(tasks.last()))
        } else {
            before
        }
    }
}

/// Whether the times of a task lie in the calendar.
pub open spec fn task_times_ok(task: ScheduledTask) -> bool {
    &&& task.next_run matches Some(t) ==> t.wf()
    &&& task.last_run matches Some(t) ==> t.wf()
    &&& task.created_at.wf()
}

fn show_task(task: &ScheduledTask) -> (seen: TaskSnapshot)
    requires
        task_times_ok(*task),
    ensures
        seen.deep_view() == task_seen(*task),
{
    TaskSnapshot {
        id: task.id.clone(),
        group_folder: task.group_folder.clone(),
        prompt: task.prompt.clone(),
        schedule_type: task.schedule_type.as_str().to_owned(),
        schedule_value: task.schedule_value.clone(),
        status: task.status.as_str().to_owned(),
        next_run: match task.next_run {
            Some(t) => Some(to_rfc3339(t)),
            None => None,
        },
    }
}

/// The tasks that a group sees: the main group all, the others their own.
pub fn task_snapshots(tasks: &Vec<ScheduledTask>, group_folder: &str, is_main: bool) -> (seen: Vec<
    TaskSnapshot,
>)
    requires
        forall|i: int| 0 <= i < tasks@.len() ==> task_times_ok(#[trigger] tasks@[i]),
    ensures
        seen.deep_view() == tasks_seen(tasks@, group_folder@, is_main),
{
    let mut seen: Vec<TaskSnapshot> = Vec::new();
    let mut i: usize = 0;
    while i < tasks.len()
        invariant
            i <= tasks@.len(),
            forall|i: int| 0 <= i < tasks@.len() ==> task_times_ok(#[trigger] tasks@[i]),
            seen.deep_view() =~= tasks_seen(tasks@.take(i as int), group_folder@, is_main),
        decreases tasks@.len() - i,
    {
        let ghost before = seen.deep_view();
        proof {
            assert(tasks@.take(i as int + 1).drop_last() =~= tasks@.take(i as int));
        }
        if is_main || same_text(tasks[i].group_folder.as_str(), group_folder) {
            let one = show_task(&tasks[i]);
            seen.push(one);
            proof {
                assert(seen.deep_view() =~= before.push(one.deep_view()));
            }
        }
        i += 1;
    }
    proof {
        assert(tasks@.take(tasks@.len() as int) =~= tasks@);
    }
    seen
}

/// A group other than the main one sees no task of another group.
pub proof fn groups_see_only_their_tasks(tasks: Seq<ScheduledTask>, folder: Seq<char>)
    ensures
        forall|i: int|
            0 <= i < tasks_seen(tasks, folder, false).len() ==> (#[trigger] tasks_seen(
                tasks,
                folder,
                false,
            )[i]).group_folder == folder,
    decreases tasks.len(),
{
    if tasks.len() > 0 {
        groups_see_only_their_tasks(tasks.drop_last(), folder);
        let before = tasks_seen(tasks.drop_last(), folder, false);
        let all = tasks_seen(tasks, folder, false);
        assert forall|i: int| 0 <= i < all.len() implies (#[trigger] all[i]).group_folder
            == folder by {
            if i < before.len() {
                assert(all[i] == before[i]);
            }
        }
    }
}

/// The main group sees every task.
pub proof fn main_group_sees_all_tasks(tasks: Seq<ScheduledTask>, folder: Seq<char>)
    ensures
        tasks_seen(tasks, folder, true).len() == tasks.len(),
        forall|i: int|
            0 <= i < tasks.len() ==> tasks_seen(tasks, folder, true)[i] == task_seen(
                #[trigger] tasks[i],
            ),
    decreases tasks.len(),
{
    if tasks.len() > 0 {
        main_group_sees_all_tasks(tasks.drop_last(), folder);
        let before = tasks_seen(tasks.drop_last(), folder, true);
        let all = tasks_seen(tasks, folder, true);
        assert forall|i: int| 0 <= i < tasks.len() implies all[i] == task_seen(
            #[trigger] tasks[i],
        ) by {
            if i < before.len() {
                assert(all[i] == before[i]);
                assert(tasks.drop_last()[i] == tasks[i]);
            }
        }
    }
}

/// The files that a group's snapshots are written to.
#[derive(Debug, PartialEq, Eq)]
pub struct SnapshotPaths {
    pub directory: String,
    pub tasks: String,
    pub groups: String,
    pub skills: String,
}

/// The files that a group's snapshots are written to.
pub fn snapshot_paths(ipc_base_dir: &str, group_folder: &str) -> (paths: SnapshotPaths)
    ensures
        paths.directory@ == joined_path(ipc_base_dir@, group_folder@),
        paths.tasks@ == joined_path(paths.directory@, "current_tasks.json"@),
        paths.groups@ == joined_path(paths.directory@, "available_groups.json"@),
        paths.skills@ == joined_path(paths.directory@, "current_skills.json"@),
{
    let directory = join_path(ipc_base_dir, group_folder);
    SnapshotPaths {
        tasks: join_path(directory.as_str(), "current_tasks.json"),
        groups: join_path(directory.as_str(), "available_groups.json"),
        skills: join_path(directory.as_str(), "current_skills.json"),
        directory,
    }
}

} // verus!
