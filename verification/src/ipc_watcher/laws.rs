//! What can be relied on of a group's requests: each does what its type says with what
//! the payload names, and nothing else does it.

use vstd::prelude::*;
use vstd::string::*;

use crate::ipc_watcher::{
    aside_name, asked, asked_first_run, extension_of, file_fate, filled_text, first_flag,
    group_to_register, is_asked_task, may_change, message_to_send, names_json, schedule_granted,
    schedule_permitted, task_id_of, FileFate, RegisterRequest, RequestView, ScheduleView,
};
use crate::json::{field, text_field, Json};
use crate::number::{decimal, decimal_reads_back, signed_decimal};
use crate::task_scheduler::is_due;
use crate::text::{ascii_lower, contains_text, occurs_at};
use crate::timestamp::{no_later, Timestamp};
use crate::timezone::Zone;
use crate::types::{
    ContainerConfig, ContextMode, RegisteredGroup, ScheduleType, ScheduledTask, TaskStatus,
};

verus! {

/// Whether a field of a payload holds a text, other than the empty one.
pub open spec fn says(payload: Json, key: Seq<char>, text: Seq<char>) -> bool {
    text_field(payload, key) == Some(text) && text.len() > 0
}

/// Whether a payload says nothing under a name.
pub open spec fn is_silent(payload: Json, key: Seq<char>) -> bool {
    text_field(payload, key) matches Some(text) ==> text.len() == 0
}

/// Whether a payload says a text under a name or, where it says nothing under that one,
/// under another.
pub open spec fn says_either(
    payload: Json,
    key: Seq<char>,
    other: Seq<char>,
    text: Seq<char>,
) -> bool {
    says(payload, key, text) || (is_silent(payload, key) && says(payload, other, text))
}

proof fn lemma_one(payload: Json, key: Seq<char>)
    ensures
        forall|text: Seq<char>|
            filled_text(payload, seq![key]) == Some(text) <==> #[trigger] says(payload, key, text),
        filled_text(payload, seq![key]) is None <==> is_silent(payload, key),
{
    reveal_with_fuel(filled_text, 2);
    assert(seq![key].drop_first() =~= Seq::<Seq<char>>::empty());
}

proof fn lemma_two(payload: Json, key: Seq<char>, other: Seq<char>)
    ensures
        forall|text: Seq<char>|
            filled_text(payload, seq![key, other]) == Some(text) <==> #[trigger] says_either(
                payload,
                key,
                other,
                text,
            ),
        filled_text(payload, seq![key, other]) is None <==> is_silent(payload, key) && is_silent(
            payload,
            other,
        ),
{
    reveal_with_fuel(filled_text, 3);
    assert(seq![key, other].drop_first() =~= seq![other]);
    assert(seq![other].drop_first() =~= Seq::<Seq<char>>::empty());
}

#[verifier::spinoff_prover]
proof fn lemma_kinds()
    ensures
        "schedule_task"@.len() == 13,
        "pause_task"@.len() == 10,
        "resume_task"@.len() == 11,
        "cancel_task"@.len() == 11,
        "enable_skill"@.len() == 12,
        "disable_skill"@.len() == 13,
        "register_group"@.len() == 14,
        "refresh_groups"@.len() == 14,
        "refresh_skills"@.len() == 14,
        "schedule_task"@[0] == 's',
        "disable_skill"@[0] == 'd',
        "resume_task"@[0] == 'r',
        "cancel_task"@[0] == 'c',
        "register_group"@[2] == 'g',
        "refresh_groups"@[2] == 'f',
        "refresh_skills"@[2] == 'f',
        "refresh_groups"@[8] == 'g',
        "refresh_skills"@[8] == 's',
{
    reveal_strlit("schedule_task");
    reveal_strlit("pause_task");
    reveal_strlit("resume_task");
    reveal_strlit("cancel_task");
    reveal_strlit("enable_skill");
    reveal_strlit("disable_skill");
    reveal_strlit("register_group");
    reveal_strlit("refresh_groups");
    reveal_strlit("refresh_skills");
}

// ---------------------------------------------------------------------------
// Tasks
// ---------------------------------------------------------------------------

/// A task that is named is paused, resumed or cancelled as the request says: that very
/// task, whichever of its two names the id is given under. Nothing else pauses, resumes
/// or cancels a task.
pub proof fn task_requests_do_what_they_say(
    payload: Json,
    source: Seq<char>,
    is_main: bool,
    id: Seq<char>,
)
    ensures
        ({
            let request = asked(payload, source, is_main);
            let names = says_either(payload, "taskId"@, "task_id"@, id);
            &&& request == (RequestView::SetStatus { task_id: id, status: TaskStatus::Active })
                <==> says(payload, "type"@, "resume_task"@) && names
            &&& request == (RequestView::SetStatus { task_id: id, status: TaskStatus::Paused })
                <==> says(payload, "type"@, "pause_task"@) && names
            &&& request == (RequestView::Cancel { task_id: id }) <==> says(
                payload,
                "type"@,
                "cancel_task"@,
            ) && names
            &&& !(request matches RequestView::SetStatus { status: TaskStatus::Completed, .. })
        }),
{
    lemma_one(payload, "type"@);
    lemma_two(payload, "taskId"@, "task_id"@);
    lemma_kinds();
    assert(says(payload, "type"@, "resume_task"@) <==> filled_text(payload, seq!["type"@]) == Some(
        "resume_task"@,
    ));
    assert(says(payload, "type"@, "pause_task"@) <==> filled_text(payload, seq!["type"@]) == Some(
        "pause_task"@,
    ));
    assert(says(payload, "type"@, "cancel_task"@) <==> filled_text(payload, seq!["type"@]) == Some(
        "cancel_task"@,
    ));
    assert(says_either(payload, "taskId"@, "task_id"@, id) <==> filled_text(
        payload,
        seq!["taskId"@, "task_id"@],
    ) == Some(id));
}

/// A task as it is after its status was set.
pub open spec fn carried_out(task: ScheduledTask, request: RequestView) -> ScheduledTask {
    match request {
        RequestView::SetStatus { status, .. } => ScheduledTask { status, ..task },
        _ => task,
    }
}

/// A task that was resumed runs when its time has come, and one that was paused does
/// not; pausing and resuming changes nothing else, so that a task that was active is as
/// it was after both.
pub proof fn resumed_task_is_due_again(
    pause: Json,
    resume: Json,
    source: Seq<char>,
    is_main: bool,
    id: Seq<char>,
    task: ScheduledTask,
    now: Timestamp,
)
    requires
        says(pause, "type"@, "pause_task"@),
        says_either(pause, "taskId"@, "task_id"@, id),
        says(resume, "type"@, "resume_task"@),
        says_either(resume, "taskId"@, "task_id"@, id),
    ensures
        ({
            let paused = carried_out(task, asked(pause, source, is_main));
            let resumed = carried_out(paused, asked(resume, source, is_main));
            &&& !is_due(paused, now)
            &&& is_due(resumed, now) <==> (task.next_run matches Some(t) && no_later(t, now))
            &&& task.status == TaskStatus::Active ==> resumed == task
        }),
{
    task_requests_do_what_they_say(pause, source, is_main, id);
    task_requests_do_what_they_say(resume, source, is_main, id);
}

/// Whether a payload names the chat that a task is for.
pub open spec fn says_target(payload: Json, jid: Seq<char>) -> bool {
    ||| says_either(payload, "targetJid"@, "target_jid"@, jid)
    ||| is_silent(payload, "targetJid"@) && is_silent(payload, "target_jid"@) && says_either(
        payload,
        "chatJid"@,
        "chat_jid"@,
        jid,
    )
}

proof fn lemma_target(payload: Json)
    ensures
        forall|jid: Seq<char>|
            filled_text(payload, seq!["targetJid"@, "target_jid"@, "chatJid"@, "chat_jid"@])
                == Some(jid) <==> #[trigger] says_target(payload, jid),
{
    reveal_with_fuel(filled_text, 5);
    let all = seq!["targetJid"@, "target_jid"@, "chatJid"@, "chat_jid"@];
    assert(all.drop_first() =~= seq!["target_jid"@, "chatJid"@, "chat_jid"@]);
    assert(all.drop_first().drop_first() =~= seq!["chatJid"@, "chat_jid"@]);
    assert(all.drop_first().drop_first().drop_first() =~= seq!["chat_jid"@]);
    assert(all.drop_first().drop_first().drop_first().drop_first() =~= Seq::<Seq<char>>::empty());
}

/// A task is asked for as the payload says: its prompt, its kind of schedule and its
/// schedule, the chat that it is for, and whether it shares the group's context, which
/// it does only where the payload says so. It is asked for only where all is said.
pub proof fn schedule_request_says_what_was_asked(
    payload: Json,
    source: Seq<char>,
    is_main: bool,
    wanted: ScheduleView,
)
    ensures
        asked(payload, source, is_main) == RequestView::Schedule(wanted) <==> {
            &&& says(payload, "type"@, "schedule_task"@)
            &&& says(payload, "prompt"@, wanted.prompt)
            &&& says_either(payload, "schedule_type"@, "scheduleType"@, wanted.schedule_type)
            &&& says_either(payload, "schedule_value"@, "scheduleValue"@, wanted.schedule_value)
            &&& says_target(payload, wanted.target_jid)
            &&& (wanted.context_mode == ContextMode::Group) == says_either(
                payload,
                "context_mode"@,
                "contextMode"@,
                "group"@,
            )
        },
{
    lemma_one(payload, "type"@);
    lemma_one(payload, "prompt"@);
    lemma_two(payload, "schedule_type"@, "scheduleType"@);
    lemma_two(payload, "schedule_value"@, "scheduleValue"@);
    lemma_two(payload, "context_mode"@, "contextMode"@);
    lemma_target(payload);
    lemma_kinds();
    let kind = filled_text(payload, seq!["type"@]);
    assert(says(payload, "type"@, "schedule_task"@) <==> kind == Some("schedule_task"@));
    assert(says(payload, "prompt"@, wanted.prompt) <==> filled_text(payload, seq!["prompt"@])
        == Some(wanted.prompt));
    assert(says_either(payload, "schedule_type"@, "scheduleType"@, wanted.schedule_type)
        <==> filled_text(payload, seq!["schedule_type"@, "scheduleType"@]) == Some(
        wanted.schedule_type,
    ));
    assert(says_either(payload, "schedule_value"@, "scheduleValue"@, wanted.schedule_value)
        <==> filled_text(payload, seq!["schedule_value"@, "scheduleValue"@]) == Some(
        wanted.schedule_value,
    ));
    assert(says_target(payload, wanted.target_jid) <==> filled_text(
        payload,
        seq!["targetJid"@, "target_jid"@, "chatJid"@, "chat_jid"@],
    ) == Some(wanted.target_jid));
    assert(says_either(payload, "context_mode"@, "contextMode"@, "group"@) <==> filled_text(
        payload,
        seq!["context_mode"@, "contextMode"@],
    ) == Some("group"@));
}

/// A task that is granted is the one that was asked for: it does what the prompt says
/// for the chat that was named and in that chat's folder, on the schedule that was
/// written; it is active, was never run, and is due as soon as its first run has come.
pub proof fn granted_task_is_the_one_asked_for(
    task: ScheduledTask,
    request: ScheduleView,
    groups: Map<Seq<char>, RegisteredGroup>,
    source: Seq<char>,
    is_main: bool,
    id: Seq<char>,
    now: Timestamp,
    later: Timestamp,
    zone: Zone,
)
    requires
        schedule_granted(request, groups, source, is_main, now, zone),
        is_asked_task(task, request, groups, id, now, zone),
    ensures
        task.id@ == id,
        task.prompt@ == request.prompt,
        task.chat_jid@ == request.target_jid,
        groups.contains_key(task.chat_jid@),
        task.group_folder@ == groups[task.chat_jid@].folder@,
        ScheduleType::named(request.schedule_type) == Some(task.schedule_type),
        task.schedule_value@ == request.schedule_value,
        task.context_mode == request.context_mode,
        task.last_run is None && task.last_result is None,
        task.created_at == now,
        asked_first_run(request, now, zone) matches Ok(first) && task.next_run == Some(first)
            && is_due(task, later) == no_later(first, later),
        is_main || groups[request.target_jid].folder@ == source,
{
}

/// A request to schedule is refused only for a chat that is unknown or, from a group
/// other than the main one, another group's, or for an unknown kind of schedule.
pub proof fn main_group_may_schedule_everywhere(
    request: ScheduleView,
    groups: Map<Seq<char>, RegisteredGroup>,
    source: Seq<char>,
    is_main: bool,
)
    ensures
        schedule_permitted(request, groups, source, is_main) <==> {
            &&& groups.contains_key(request.target_jid)
            &&& ScheduleType::named(request.schedule_type) is Some
            &&& is_main || groups[request.target_jid].folder@ == source
        },
{
}

/// The main group may change every task, another group its own tasks and no others.
pub proof fn groups_change_their_own_tasks(task: ScheduledTask, source: Seq<char>)
    ensures
        may_change(task, source, true),
        may_change(task, source, false) <==> task.group_folder@ == source,
{
}

// ---------------------------------------------------------------------------
// Skills and groups
// ---------------------------------------------------------------------------

/// A skill is switched on or off as the request says: that very skill, in the folder
/// that is named or else in the group's own; a group other than the main one switches
/// none in another's folder. Nothing else switches a skill.
pub proof fn skill_requests_do_what_they_say(
    payload: Json,
    source: Seq<char>,
    is_main: bool,
    skill: Seq<char>,
    folder: Seq<char>,
    enabled: bool,
)
    ensures
        asked(payload, source, is_main) == (RequestView::SetSkill {
            group_folder: folder,
            skill_name: skill,
            enabled,
        }) <==> {
            &&& enabled ==> says(payload, "type"@, "enable_skill"@)
            &&& !enabled ==> says(payload, "type"@, "disable_skill"@)
            &&& says_either(payload, "skillName"@, "skill_name"@, skill)
            &&& is_main || folder == source
            &&& {
                ||| says_either(payload, "targetGroupFolder"@, "target_group_folder"@, folder)
                ||| folder == source && is_silent(payload, "targetGroupFolder"@) && is_silent(
                    payload,
                    "target_group_folder"@,
                )
            }
        },
{
    lemma_one(payload, "type"@);
    lemma_two(payload, "skillName"@, "skill_name"@);
    lemma_two(payload, "targetGroupFolder"@, "target_group_folder"@);
    lemma_kinds();
    let kind = filled_text(payload, seq!["type"@]);
    assert(says(payload, "type"@, "enable_skill"@) <==> kind == Some("enable_skill"@));
    assert(says(payload, "type"@, "disable_skill"@) <==> kind == Some("disable_skill"@));
    assert(says_either(payload, "skillName"@, "skill_name"@, skill) <==> filled_text(
        payload,
        seq!["skillName"@, "skill_name"@],
    ) == Some(skill));
    assert(says_either(payload, "targetGroupFolder"@, "target_group_folder"@, folder)
        <==> filled_text(payload, seq!["targetGroupFolder"@, "target_group_folder"@]) == Some(
        folder,
    ));
}

/// The flag that a field holds.
pub open spec fn flag_said(payload: Json, key: Seq<char>) -> Option<bool> {
    match field(payload, key) {
        Some(Json::Bool(flag)) => Some(flag),
        _ => None,
    }
}

/// A group is registered as the main group says: under the name of its chat, with its
/// name, its folder and its trigger. No other group registers one, and nothing else
/// does.
pub proof fn register_request_says_what_was_asked(
    payload: Json,
    source: Seq<char>,
    is_main: bool,
    jid: Seq<char>,
    name: Seq<char>,
    folder: Seq<char>,
    trigger: Seq<char>,
)
    ensures
        (asked(payload, source, is_main) matches RequestView::Register(request) && request.jid
            == jid && request.name == name && request.folder == folder && request.trigger
            == trigger) <==> {
            &&& is_main
            &&& says(payload, "type"@, "register_group"@)
            &&& says(payload, "jid"@, jid)
            &&& says(payload, "name"@, name)
            &&& says(payload, "folder"@, folder)
            &&& says(payload, "trigger"@, trigger)
        },
        asked(payload, source, is_main) matches RequestView::Register(request) ==> {
            &&& request.requires_trigger == if flag_said(payload, "requiresTrigger"@) is Some {
                flag_said(payload, "requiresTrigger"@)
            } else {
                flag_said(payload, "requires_trigger"@)
            }
            &&& field(payload, "containerConfig"@) is Some ==> request.container_config == field(
                payload,
                "containerConfig"@,
            )
            &&& field(payload, "containerConfig"@) is None ==> request.container_config == field(
                payload,
                "container_config"@,
            )
        },
{
    lemma_one(payload, "type"@);
    lemma_one(payload, "jid"@);
    lemma_one(payload, "name"@);
    lemma_one(payload, "folder"@);
    lemma_one(payload, "trigger"@);
    lemma_kinds();
    let kind = filled_text(payload, seq!["type"@]);
    assert(says(payload, "type"@, "register_group"@) <==> kind == Some("register_group"@));
    assert(says(payload, "jid"@, jid) <==> filled_text(payload, seq!["jid"@]) == Some(jid));
    assert(says(payload, "name"@, name) <==> filled_text(payload, seq!["name"@]) == Some(name));
    assert(says(payload, "folder"@, folder) <==> filled_text(payload, seq!["folder"@]) == Some(
        folder,
    ));
    assert(says(payload, "trigger"@, trigger) <==> filled_text(payload, seq!["trigger"@]) == Some(
        trigger,
    ));
    reveal_with_fuel(first_flag, 3);
    let keys = seq!["requiresTrigger"@, "requires_trigger"@];
    assert(keys.drop_first() =~= seq!["requires_trigger"@]);
    assert(keys.drop_first().drop_first() =~= Seq::<Seq<char>>::empty());
}

/// Snapshots are written anew where a group asks for its skills, or the main group for
/// its groups, and never else.
pub proof fn snapshots_are_refreshed_when_asked(payload: Json, source: Seq<char>, is_main: bool)
    ensures
        asked(payload, source, is_main) is Refresh <==> says(payload, "type"@, "refresh_skills"@) || (
        is_main && says(payload, "type"@, "refresh_groups"@)),
{
    lemma_one(payload, "type"@);
    lemma_kinds();
    let kind = filled_text(payload, seq!["type"@]);
    assert(says(payload, "type"@, "refresh_skills"@) <==> kind == Some("refresh_skills"@));
    assert(says(payload, "type"@, "refresh_groups"@) <==> kind == Some("refresh_groups"@));
}

// ---------------------------------------------------------------------------
// Messages
// ---------------------------------------------------------------------------

/// A message is sent to the chat that it names, with the text that it holds, where the
/// group may reach that chat: the main group every chat, another group its own. Nothing
/// else is sent.
pub proof fn message_is_sent_as_written(
    payload: Json,
    groups: Map<Seq<char>, RegisteredGroup>,
    source: Seq<char>,
    is_main: bool,
    jid: Seq<char>,
    text: Seq<char>,
)
    ensures
        message_to_send(payload, groups, source, is_main) == Some((jid, text)) <==> {
            &&& says(payload, "type"@, "message"@)
            &&& says_either(payload, "chatJid"@, "chat_jid"@, jid)
            &&& says(payload, "text"@, text)
            &&& is_main || (groups.contains_key(jid) && groups[jid].folder@ == source)
        },
{
    lemma_one(payload, "type"@);
    lemma_two(payload, "chatJid"@, "chat_jid"@);
    lemma_one(payload, "text"@);
    assert(says(payload, "type"@, "message"@) <==> filled_text(payload, seq!["type"@]) == Some(
        "message"@,
    )) by {
        reveal_strlit("message");
    }
    assert(says_either(payload, "chatJid"@, "chat_jid"@, jid) <==> filled_text(
        payload,
        seq!["chatJid"@, "chat_jid"@],
    ) == Some(jid));
    assert(says(payload, "text"@, text) <==> filled_text(payload, seq!["text"@]) == Some(text));
}

proof fn lemma_extension(stem: Seq<char>, extension: Seq<char>)
    requires
        stem.len() > 0,
        !extension.contains('.'),
    ensures
        extension_of(stem + seq!['.'] + extension) == Some(extension),
    decreases extension.len(),
{
    let name = stem + seq!['.'] + extension;
    if extension.len() == 0 {
        assert(name.last() == '.');
        assert(extension =~= Seq::<char>::empty());
    } else {
        let shorter = extension.drop_last();
        if shorter.contains('.') {
            let i = choose|i: int| 0 <= i < shorter.len() && shorter[i] == '.';
            assert(extension[i] == '.');
        }
        lemma_extension(stem, shorter);
        assert(name.drop_last() =~= stem + seq!['.'] + shorter);
        assert(name.last() == extension.last());
        assert(extension[extension.len() - 1] != '.');
        assert(shorter.push(extension.last()) =~= extension);
    }
}

/// A file is read where its name ends in a dot and the word for JSON, in any case; a file
/// of any other ending is not.
pub proof fn only_json_files_are_read(stem: Seq<char>, extension: Seq<char>)
    requires
        stem.len() > 0,
        !extension.contains('.'),
    ensures
        names_json(stem + seq!['.'] + extension) <==> ascii_lower(extension) == "json"@,
{
    lemma_extension(stem, extension);
}

/// A file that is kept aside keeps its name, after that of the group that it came from.
pub proof fn kept_file_keeps_its_name(source: Seq<char>, file_name: Seq<char>, ms: i64)
    ensures
        source.is_prefix_of(aside_name(source, file_name, None)),
        source.is_prefix_of(aside_name(source, file_name, Some(ms))),
        file_name.is_suffix_of(aside_name(source, file_name, None)),
        file_name.is_suffix_of(aside_name(source, file_name, Some(ms))),
        contains_text(aside_name(source, file_name, Some(ms)), signed_decimal(ms as int)),
{
    let plain = aside_name(source, file_name, None);
    let dated = aside_name(source, file_name, Some(ms));
    assert(plain.subrange(0, source.len() as int) =~= source);
    assert(dated.subrange(0, source.len() as int) =~= source);
    assert(plain.subrange(plain.len() - file_name.len(), plain.len() as int) =~= file_name);
    assert(dated.subrange(dated.len() - file_name.len(), dated.len() as int) =~= file_name);
    let at: int = source.len() as int + "-"@.len();
    let time = signed_decimal(ms as int);
    assert(dated.subrange(at, at + time.len()) =~= time);
    assert(occurs_at(dated, time, at));
}

/// Tasks that are made at the same time have different ids.
pub proof fn tasks_have_their_own_ids(now_ms: int, a: nat, b: nat)
    requires
        task_id_of(now_ms, a) == task_id_of(now_ms, b),
    ensures
        a == b,
{
    let head = "task-"@ + signed_decimal(now_ms) + "-"@;
    let first = head + decimal(a);
    let second = head + decimal(b);
    assert(first == second);
    assert(first.skip(head.len() as int) =~= decimal(a));
    assert(second.skip(head.len() as int) =~= decimal(b));
    decimal_reads_back(a, a + b);
    decimal_reads_back(b, a + b);
}

/// A group is registered under the chat, the name, the folder and the trigger that the
/// request names.
pub proof fn group_is_registered_as_asked(
    request: RegisterRequest,
    config: Option<ContainerConfig>,
    added_at: String,
    group: (String, RegisteredGroup),
)
    requires
        call_ensures(group_to_register, (request, config, added_at), group),
    ensures
        group.0@ == request.jid@,
        group.1.name@ == request.name@,
        group.1.folder@ == request.folder@,
        group.1.trigger@ == request.trigger@,
        group.1.added_at@ == added_at@,
        group.1.container_config == config,
        group.1.requires_trigger == request.requires_trigger,
{
}

/// A request is removed only once it was read and done; every other is kept.
pub proof fn failed_requests_are_kept(read: bool, processed: bool, fate: FileFate)
    requires
        call_ensures(file_fate, (read, processed), fate),
    ensures
        fate is Delete <==> read && processed,
        fate is MoveToErrors <==> !read || !processed,
{
}

} // verus!
