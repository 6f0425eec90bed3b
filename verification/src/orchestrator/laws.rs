//! What can be relied on of a run: what the agent is given, and what becomes of what it
//! says.

use vstd::prelude::*;
use vstd::string::*;

use crate::container_runner::{ContainerOutput, ContainerOutputStatus};
use crate::orchestrator::agent::{
    last_of, run_conclusion, runner_session, stored_session_is_given_back, AgentRunInput,
    AgentStreamEvent, AgentStreamStatus, RunOutputView,
};
use crate::orchestrator::poll::does_task;
use crate::orchestrator::run::{
    group_conclusion, group_event_plan, task_conclusion, task_event_plan, GroupRun, TaskRunView,
};
use crate::orchestrator::snapshots::{
    available, is_group_chat, tasks_seen, AvailableView, TaskSnapshotView,
};
use crate::orchestrator::state::{answers, session_of, starts_run, RouterView};
use crate::router::{
    escaped, message_line, prompt_for, unmarked_text_is_only_trimmed, without_internal,
};
use crate::text::laws::{
    held_text_stays_held, joined_text_holds_its_parts, rest_completes_the_text,
};
use crate::text::{contains_text, joined, occurs_at, trimmed};
use crate::timestamp::rfc3339_text;
use crate::types::{
    schedule_type_reads_back, task_status_reads_back, ChatInfo, ContextMode, NewMessage,
    RegisteredGroup, ScheduleType, ScheduledTask, TaskStatus,
};

verus! {

// ---------------------------------------------------------------------------
// What the agent is given
// ---------------------------------------------------------------------------

/// The agent is asked to answer the very chat whose messages are pending: in that
/// chat's group and folder, in the session that the folder goes on with, and as the
/// main group only in its folder.
pub proof fn run_answers_its_chat(
    input: AgentRunInput,
    state: RouterView,
    jid: Seq<char>,
    pending: Seq<NewMessage>,
    name: Seq<char>,
    main_folder: Seq<char>,
    id: Seq<char>,
)
    requires
        answers(input, state, jid, pending, name, main_folder),
    ensures
        input.chat_jid@ == jid,
        input.group.deep_view() == state.registered_groups[jid].deep_view(),
        input.group_folder@ == state.registered_groups[jid].folder@,
        input.is_main <==> state.registered_groups[jid].folder@ == main_folder,
        !input.is_scheduled_task,
        state.sessions.contains_key(input.group_folder@) && state.sessions[input.group_folder@]
            == "codex:"@ + id ==> input.session_id.deep_view() == Some(id),
        !state.sessions.contains_key(input.group_folder@) ==> input.session_id is None,
{
    rest_completes_the_text(id, "codex:"@);
}

/// The agent that does a task is given the task: its prompt, its chat and its folder,
/// and the group's session only where the task shares the group's context.
pub proof fn task_run_does_its_task(
    input: AgentRunInput,
    state: RouterView,
    group: RegisteredGroup,
    task: ScheduledTask,
    main_folder: Seq<char>,
)
    requires
        does_task(input, state, group, task, main_folder),
    ensures
        input.prompt@ == task.prompt@,
        input.chat_jid@ == task.chat_jid@,
        input.group_folder@ == task.group_folder@,
        input.group.deep_view() == group.deep_view(),
        input.is_main <==> group.folder@ == main_folder,
        input.is_scheduled_task,
        task.context_mode == ContextMode::Isolated ==> input.session_id is None,
        task.context_mode == ContextMode::Group ==> input.session_id.deep_view()
            == runner_session(session_of(state, task.group_folder@)),
{
}

/// A run starts where there is something to answer that calls for an answer: the chat
/// is registered, messages are pending, and the group is the main one, or needs no
/// address, or is addressed.
pub proof fn run_starts_when_called_for(
    state: RouterView,
    jid: Seq<char>,
    pending: Seq<NewMessage>,
    main_folder: Seq<char>,
    addressed: bool,
)
    ensures
        starts_run(state, jid, pending, main_folder, addressed) <==> {
            &&& pending.len() > 0
            &&& state.registered_groups.contains_key(jid)
            &&& addressed || state.registered_groups[jid].folder@ == main_folder
                || state.registered_groups[jid].requires_trigger == Some(false)
        },
{
}

/// Whether a text holds what a message says, who says it and when.
pub open spec fn tells(prompt: Seq<char>, message: NewMessage) -> bool {
    &&& contains_text(prompt, "<message sender=\""@ + escaped(message.sender_name@))
    &&& contains_text(prompt, "\" time=\""@ + message.timestamp@)
    &&& contains_text(prompt, "\">"@ + escaped(message.content@) + "</message>"@)
}

proof fn lemma_line_tells(message: NewMessage)
    ensures
        tells(message_line(message), message),
{
    lemma_seven_parts(
        "<message sender=\""@,
        escaped(message.sender_name@),
        "\" time=\""@,
        message.timestamp@,
        "\">"@,
        escaped(message.content@),
        "</message>"@,
    );
}

proof fn lemma_seven_parts(
    a: Seq<char>,
    sender: Seq<char>,
    b: Seq<char>,
    time: Seq<char>,
    c: Seq<char>,
    content: Seq<char>,
    d: Seq<char>,
)
    ensures
        contains_text(a + sender + b + time + c + content + d, a + sender),
        contains_text(a + sender + b + time + c + content + d, b + time),
        contains_text(a + sender + b + time + c + content + d, c + content + d),
{
    let said_by = a + sender;
    let said_at = b + time;
    let said = c + content + d;
    lemma_holds_parts(said_by, said_at, said);
    lemma_regrouped(said_by, b, time);
    lemma_regrouped(said_by + said_at, c, content);
    lemma_regrouped(said_by + said_at, c + content, d);
}

proof fn lemma_regrouped(a: Seq<char>, b: Seq<char>, c: Seq<char>)
    ensures
        a + b + c == a + (b + c),
{
    assert(a + b + c =~= a + (b + c));
}

proof fn lemma_holds_parts(a: Seq<char>, b: Seq<char>, c: Seq<char>)
    ensures
        contains_text(a + b + c, a),
        contains_text(a + b + c, b),
        contains_text(a + b + c, c),
{
    let s = a + b + c;
    let i = a.len() as int;
    let k = i + b.len();
    assert(s.subrange(0, i) =~= a);
    assert(occurs_at(s, a, 0));
    assert(s.subrange(i, k) =~= b);
    assert(occurs_at(s, b, i));
    assert(s.subrange(k, k + c.len()) =~= c);
    assert(occurs_at(s, c, k));
}

proof fn lemma_holds_itself(s: Seq<char>)
    ensures
        contains_text(s, s),
{
    assert(s.subrange(0, s.len() as int) =~= s);
    assert(occurs_at(s, s, 0));
}

proof fn lemma_holds_within(s: Seq<char>, middle: Seq<char>, part: Seq<char>)
    requires
        contains_text(s, middle),
        contains_text(middle, part),
    ensures
        contains_text(s, part),
{
    let i = choose|i: int| occurs_at(s, middle, i);
    let k = choose|k: int| occurs_at(middle, part, k);
    assert(s.subrange(i + k, i + k + part.len()) =~= s.subrange(i, i + middle.len()).subrange(
        k,
        k + part.len(),
    ));
    assert(occurs_at(s, part, i + k));
}

/// The agent is told everything: its prompt holds every pending message with its sender
/// and its time, and names the assistant.
pub proof fn prompt_tells_every_message(messages: Seq<NewMessage>, name: Seq<char>)
    ensures
        forall|i: int|
            0 <= i < messages.len() ==> tells(prompt_for(messages, name), #[trigger] messages[i]),
        contains_text(prompt_for(messages, name), name),
{
    let prompt = prompt_for(messages, name);
    let lines = Seq::new(messages.len(), |i: int| message_line(messages[i]));
    let body = joined(lines, "\n"@);
    let end = "\n</messages>"@;
    let before = prompt.take(prompt.len() - end.len() - body.len());
    assert(before + body + end =~= prompt);
    assert forall|i: int| 0 <= i < messages.len() implies tells(prompt, #[trigger] messages[i]) by {
        let line = message_line(messages[i]);
        assert(lines[i] == line);
        lemma_line_tells(messages[i]);
        joined_text_holds_its_parts(lines, "\n"@, i);
        held_text_stays_held(before, body, end, line);
        let message = messages[i];
        lemma_holds_within(prompt, line, "<message sender=\""@ + escaped(message.sender_name@));
        lemma_holds_within(prompt, line, "\" time=\""@ + message.timestamp@);
        lemma_holds_within(
            prompt,
            line,
            "\">"@ + escaped(message.content@) + "</message>"@,
        );
    }
    let hello = "You are "@;
    let rest = prompt.skip((hello + name).len() as int);
    lemma_holds_itself(name);
    held_text_stays_held(hello, name, rest, name);
    assert(hello + name + rest =~= prompt);
}

// ---------------------------------------------------------------------------
// What becomes of what it says
// ---------------------------------------------------------------------------

/// What the agent says is sent to people as it says it, without what it keeps to itself;
/// an error and what is all internal are not sent.
pub proof fn said_text_is_sent(event: AgentStreamEvent)
    ensures
        ({
            let said = event.status == AgentStreamStatus::Success && event.result is Some;
            let text = event.result->Some_0@;
            let group = group_event_plan(event);
            let task = task_event_plan(event);
            &&& group.send is Some <==> said && without_internal(text).len() > 0
            &&& group.send is Some ==> group.send == Some(without_internal(text))
            &&& task.send == group.send
            &&& said && !contains_text(text, "<internal>"@) ==> (group.send is Some
                <==> trimmed(text).len() > 0)
            &&& said && !contains_text(text, "<internal>"@) && trimmed(text).len() > 0
                ==> group.send == Some(trimmed(text))
            &&& group.reset_idle_timer == said && task.reset_idle_timer == said
            &&& group.stop_typing == !said && !task.stop_typing
            &&& !group.close_input
            &&& task.close_input <==> event.status == AgentStreamStatus::Success && event.result
                is None
        }),
{
    if event.result is Some {
        let text = event.result->Some_0@;
        assert(event.result.deep_view() == Some(text));
        if !contains_text(text, "<internal>"@) {
            unmarked_text_is_only_trimmed(text);
        }
    }
}

/// A session goes on: the session that the agent names, in an event or in the end, is
/// the one that its folder's next run is given; where it names none, none is stored.
pub proof fn named_session_goes_on(
    state: RouterView,
    folder: Seq<char>,
    event: AgentStreamEvent,
    run: GroupRun,
    task: TaskRunView,
    out: RunOutputView,
    id: Seq<char>,
)
    requires
        !"codex:"@.is_prefix_of(id),
    ensures
        event.new_session_id.deep_view() == Some(id) ==> {
            &&& group_event_plan(event).session is Some
            &&& task_event_plan(event).session == group_event_plan(event).session
            &&& runner_session(
                session_of(
                    RouterView {
                        sessions: state.sessions.insert(
                            folder,
                            group_event_plan(event).session->Some_0,
                        ),
                        ..state
                    },
                    folder,
                ),
            ) == Some(id)
        },
        event.new_session_id is None ==> group_event_plan(event).session is None
            && task_event_plan(event).session is None,
        out.new_session_id == Some(id) ==> runner_session(group_conclusion(run, Ok(out)).session)
            == Some(id) && runner_session(task_conclusion(task, Ok(out)).session) == Some(id),
        out.new_session_id is None ==> group_conclusion(run, Ok(out)).session is None
            && task_conclusion(task, Ok(out)).session is None,
{
    stored_session_is_given_back(id);
    assert(event.new_session_id is None ==> event.new_session_id.deep_view() is None);
}

/// What was not said while the agent ran is said in the end: the last result is sent
/// where no event came before, of a group's messages and of a task alike, and a failed
/// run sends nothing and stores no session.
pub proof fn last_result_is_sent_unless_streamed(
    run: GroupRun,
    task: TaskRunView,
    out: RunOutputView,
    reason: Seq<char>,
)
    ensures
        !run.received_stream_event && out.result is Some && without_internal(
            out.result->Some_0,
        ).len() > 0 ==> group_conclusion(run, Ok(out)).send == Some(
            without_internal(out.result->Some_0),
        ),
        !task.received_stream_event && out.result is Some && without_internal(
            out.result->Some_0,
        ).len() > 0 ==> task_conclusion(task, Ok(out)).send == Some(
            without_internal(out.result->Some_0),
        ),
        run.received_stream_event ==> group_conclusion(run, Ok(out)).send is None,
        task.received_stream_event ==> task_conclusion(task, Ok(out)).send is None,
        group_conclusion(run, Ok(out)).success && group_conclusion(run, Ok(out)).rollback_to
            is None,
        group_conclusion(run, Err(reason)).send is None,
        group_conclusion(run, Err(reason)).session is None,
        task_conclusion(task, Err(reason)).send is None,
        task_conclusion(task, Err(reason)).session is None,
        task_conclusion(task, Ok(out)).close_input,
{
}

/// What is noted of a task's run is what it said: its last result, or the error where
/// nothing reached people.
pub proof fn task_end_is_noted(task: TaskRunView, out: RunOutputView, reason: Seq<char>)
    ensures
        task_conclusion(task, Ok(out)).execution.error is None,
        !task.received_stream_event && out.result is Some ==> task_conclusion(
            task,
            Ok(out),
        ).execution.result == out.result,
        task.received_stream_event ==> task_conclusion(task, Ok(out)).execution.result
            == task.last_stream_result,
        !task.output_sent_to_user ==> task_conclusion(task, Err(reason)).execution.error == Some(
            reason,
        ) && task_conclusion(task, Err(reason)).execution.result is None,
        task.output_sent_to_user ==> task_conclusion(task, Err(reason)).execution.error is None
            && task_conclusion(task, Err(reason)).execution.result == task.last_stream_result,
{
}

/// A run amounts to the last thing that the agent marked: its result and session where it
/// succeeded, its error where it failed. Without any mark it amounts to what cannot be
/// read, or else to what was printed. A session that is not named stays.
pub proof fn run_amounts_to_its_last_word(
    outputs: Seq<ContainerOutput>,
    errors: Seq<Seq<char>>,
    stdout: Seq<char>,
    session: Option<Seq<char>>,
    default_error: Seq<char>,
)
    ensures
        ({
            let end = run_conclusion(last_of(outputs), errors, stdout, session, default_error);
            let last = outputs[outputs.len() - 1];
            let worked = last.status == ContainerOutputStatus::Success;
            &&& outputs.len() > 0 ==> (end is Ok <==> worked)
            &&& outputs.len() > 0 && worked ==> end->Ok_0.result == last.result.deep_view()
            &&& outputs.len() > 0 && worked && last.new_session_id is Some
                ==> end->Ok_0.new_session_id == last.new_session_id.deep_view()
            &&& outputs.len() > 0 && worked && last.new_session_id is None
                ==> end->Ok_0.new_session_id == session
            &&& outputs.len() > 0 && !worked && last.error is Some ==> end->Err_0
                == last.error->Some_0@
            &&& outputs.len() > 0 && !worked && last.error is None ==> end->Err_0 == default_error
            &&& outputs.len() == 0 && errors.len() > 0 ==> end is Err && forall|i: int|
                0 <= i < errors.len() ==> contains_text(end->Err_0, #[trigger] errors[i])
            &&& outputs.len() == 0 && errors.len() == 0 ==> end is Ok && end->Ok_0.new_session_id
                == session && (end->Ok_0.result is Some <==> trimmed(stdout).len() > 0)
            &&& outputs.len() == 0 && errors.len() == 0 && end->Ok_0.result is Some
                ==> end->Ok_0.result == Some(trimmed(stdout))
        }),
{
    if outputs.len() == 0 && errors.len() > 0 {
        assert forall|i: int| 0 <= i < errors.len() implies contains_text(
            joined(errors, "; "@),
            #[trigger] errors[i],
        ) by {
            joined_text_holds_its_parts(errors, "; "@, i);
        }
    }
}

// ---------------------------------------------------------------------------
// Snapshots
// ---------------------------------------------------------------------------

/// A group sees its own tasks, all of them and as they are; the main group sees those of
/// every group.
pub proof fn every_own_task_is_seen(tasks: Seq<ScheduledTask>, folder: Seq<char>, is_main: bool)
    ensures
        forall|k: int|
            0 <= k < tasks.len() && (is_main || (#[trigger] tasks[k]).group_folder@ == folder)
                ==> sees(tasks_seen(tasks, folder, is_main), tasks[k]),
        tasks_seen(tasks, folder, is_main).len() <= tasks.len(),
    decreases tasks.len(),
{
    if tasks.len() > 0 {
        let rest = tasks.drop_last();
        let before = tasks_seen(rest, folder, is_main);
        let all = tasks_seen(tasks, folder, is_main);
        every_own_task_is_seen(rest, folder, is_main);
        assert forall|k: int|
            0 <= k < tasks.len() && (is_main || (#[trigger] tasks[k]).group_folder@
                == folder) implies sees(all, tasks[k]) by {
            if k < rest.len() {
                assert(rest[k] == tasks[k]);
                let i = choose|i: int| #[trigger] sees_at(before, i, rest[k]);
                assert(all[i] == before[i]);
                assert(sees_at(all, i, tasks[k]));
            } else {
                schedule_type_reads_back(tasks[k].schedule_type, Seq::empty());
                task_status_reads_back(tasks[k].status, Seq::empty());
                assert(sees_at(all, before.len() as int, tasks[k]));
            }
        }
    }
}

/// Whether one of the snapshots shows a task.
pub open spec fn sees(
    shown: Seq<TaskSnapshotView>,
    task: ScheduledTask,
) -> bool {
    exists|i: int| #[trigger] sees_at(shown, i, task)
}

pub open spec fn sees_at(
    shown: Seq<TaskSnapshotView>,
    i: int,
    task: ScheduledTask,
) -> bool {
    &&& 0 <= i < shown.len()
    &&& shown[i].id == task.id@
    &&& shown[i].group_folder == task.group_folder@
    &&& shown[i].prompt == task.prompt@
    &&& ScheduleType::named(shown[i].schedule_type) == Some(task.schedule_type)
    &&& shown[i].schedule_value == task.schedule_value@
    &&& TaskStatus::named(shown[i].status) == Some(task.status)
    &&& shown[i].next_run is Some <==> task.next_run is Some
    &&& task.next_run matches Some(t) ==> shown[i].next_run == Some(
        rfc3339_text(t),
    )
}

/// Whether one of the listed groups is a chat.
pub open spec fn lists_chat(
    shown: Seq<AvailableView>,
    chat: ChatInfo,
    state: RouterView,
) -> bool {
    exists|i: int| #[trigger] lists_chat_at(shown, i, chat, state)
}

pub open spec fn lists_chat_at(
    shown: Seq<AvailableView>,
    i: int,
    chat: ChatInfo,
    state: RouterView,
) -> bool {
    &&& 0 <= i < shown.len()
    &&& shown[i].jid == chat.jid@
    &&& shown[i].name == chat.name@
    &&& shown[i].last_activity == chat.last_message_time@
    &&& shown[i].is_registered == state.registered_groups.contains_key(chat.jid@)
}

/// Every group chat is offered, with its name, its last activity and whether it is
/// registered; and nothing else is offered.
pub proof fn every_group_chat_is_offered(chats: Seq<ChatInfo>, state: RouterView)
    ensures
        forall|k: int|
            0 <= k < chats.len() && is_group_chat((#[trigger] chats[k]).jid@) ==> lists_chat(
                available(chats, state),
                chats[k],
                state,
            ),
        forall|i: int|
            0 <= i < available(chats, state).len() ==> "@discord"@.is_suffix_of(
                (#[trigger] available(chats, state)[i]).jid,
            ) && available(chats, state)[i].jid != "__group_sync__"@,
    decreases chats.len(),
{
    if chats.len() > 0 {
        let rest = chats.drop_last();
        let before = available(rest, state);
        let all = available(chats, state);
        every_group_chat_is_offered(rest, state);
        assert forall|k: int|
            0 <= k < chats.len() && is_group_chat((#[trigger] chats[k]).jid@) implies lists_chat(
            all,
            chats[k],
            state,
        ) by {
            if k < rest.len() {
                assert(rest[k] == chats[k]);
                let i = choose|i: int| #[trigger] lists_chat_at(before, i, rest[k], state);
                assert(all[i] == before[i]);
                assert(lists_chat_at(all, i, chats[k], state));
            } else {
                assert(lists_chat_at(all, before.len() as int, chats[k], state));
            }
        }
        assert forall|i: int| 0 <= i < all.len() implies "@discord"@.is_suffix_of(
            (#[trigger] all[i]).jid,
        ) && all[i].jid != "__group_sync__"@ by {
            if i < before.len() {
                assert(all[i] == before[i]);
            }
        }
    }
}

} // verus!
