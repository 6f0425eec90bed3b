//! One run of the agent: what is sent while it goes on and when it ends.

use vstd::prelude::*;
use vstd::string::*;

use crate::orchestrator::agent::{
    normalize_session_id_for_storage, stored_session, AgentRunOutput, AgentStreamEvent,
    AgentStreamStatus, RunOutputView,
};
use crate::task_scheduler::{TaskExecution, TaskExecutionView};
use crate::router::{format_outbound, without_internal};
use crate::text::outcome;

verus! {

/// What a run of a group's messages has done so far.
#[derive(Debug)]
pub struct GroupRun {
    pub previous_cursor: String,
    pub received_stream_event: bool,
    pub output_sent_to_user: bool,
}

/// What to do on an event.
#[derive(Debug, PartialEq, Eq)]
pub struct EventPlan {
    /// The session to store for the group.
    pub session: Option<String>,
    /// Whether the idle timer starts anew.
    pub reset_idle_timer: bool,
    /// The text to send.
    pub send: Option<String>,
    /// Whether typing ends.
    pub stop_typing: bool,
    /// Whether the agent is asked to end.
    pub close_input: bool,
}

/// The content of an [`EventPlan`].
pub struct EventPlanView {
    pub session: Option<Seq<char>>,
    pub reset_idle_timer: bool,
    pub send: Option<Seq<char>>,
    pub stop_typing: bool,
    pub close_input: bool,
}

impl View for EventPlan {
    type V = EventPlanView;

    open spec fn view(&self) -> EventPlanView {
        EventPlanView {
            session: self.session.deep_view(),
            reset_idle_timer: self.reset_idle_timer,
            send: self.send.deep_view(),
            stop_typing: self.stop_typing,
            close_input: self.close_input,
        }
    }
}

/// The session to store for a reported id.
pub open spec fn session_to_store(id: Option<Seq<char>>) -> Option<Seq<char>> {
    match id {
        Some(id) => Some(stored_session(id)),
        None => None,
    }
}

/// What people get of a result; nothing where it is blank.
pub open spec fn text_to_send(result: Option<Seq<char>>) -> Option<Seq<char>> {
    match result {
        Some(text) => if without_internal(text).len() == 0 {
            None
        } else {
            Some(without_internal(text))
        },
        None => None,
    }
}

fn plan_session(id: &Option<String>) -> (session: Option<String>)
    ensures
        session.deep_view() == session_to_store(id.deep_view()),
{
    match id {
        Some(id) => Some(normalize_session_id_for_storage(id.as_str())),
        None => None,
    }
}

fn plan_send(result: &Option<String>) -> (send: Option<String>)
    ensures
        send.deep_view() == text_to_send(result.deep_view()),
{
    match result {
        Some(text) => {
            let out = format_outbound(text.as_str());
            if out.as_str().is_empty() {
                None
            } else {
                Some(out)
            }
        },
        None => None,
    }
}

/// What to do on an event of a run of messages: a result is sent and keeps the
/// agent waiting for more, anything else ends typing.
pub open spec fn group_event_plan(event: AgentStreamEvent) -> EventPlanView {
    let result = if event.status == AgentStreamStatus::Success {
        event.result.deep_view()
    } else {
        None
    };
    EventPlanView {
        session: session_to_store(event.new_session_id.deep_view()),
        reset_idle_timer: result is Some,
        send: text_to_send(result),
        stop_typing: result is None,
        close_input: false,
    }
}

/// What to do on an event of a scheduled task: a result is sent, and the end of
/// the turn ends the agent.
pub open spec fn task_event_plan(event: AgentStreamEvent) -> EventPlanView {
    let success = event.status == AgentStreamStatus::Success;
    let result = if success {
        event.result.deep_view()
    } else {
        None
    };
    EventPlanView {
        session: session_to_store(event.new_session_id.deep_view()),
        reset_idle_timer: result is Some,
        send: text_to_send(result),
        stop_typing: false,
        close_input: success && result is None,
    }
}

/// What to do when a run of messages is over.
#[derive(Debug, PartialEq, Eq)]
pub struct GroupConclusion {
    pub session: Option<String>,
    pub send: Option<String>,
    /// The cursor to go back to, so that the messages are read again.
    pub rollback_to: Option<String>,
    pub success: bool,
}

/// The content of a [`GroupConclusion`].
pub struct GroupConclusionView {
    pub session: Option<Seq<char>>,
    pub send: Option<Seq<char>>,
    pub rollback_to: Option<Seq<char>>,
    pub success: bool,
}

impl View for GroupConclusion {
    type V = GroupConclusionView;

    open spec fn view(&self) -> GroupConclusionView {
        GroupConclusionView {
            session: self.session.deep_view(),
            send: self.send.deep_view(),
            rollback_to: self.rollback_to.deep_view(),
            success: self.success,
        }
    }
}

/// What to do when a run of messages is over: its result is sent unless there
/// were events; after an error the cursor goes back unless people got something.
pub open spec fn group_conclusion(
    run: GroupRun,
    output: Result<RunOutputView, Seq<char>>,
) -> GroupConclusionView {
    match output {
        Ok(out) => GroupConclusionView {
            session: session_to_store(out.new_session_id),
            send: if run.received_stream_event {
                None
            } else {
                text_to_send(out.result)
            },
            rollback_to: None,
            success: true,
        },
        Err(_) => GroupConclusionView {
            session: None,
            send: None,
            rollback_to: if run.output_sent_to_user {
                None
            } else {
                Some(run.previous_cursor@)
            },
            success: run.output_sent_to_user,
        },
    }
}

impl GroupRun {
    /// A run that has done nothing yet.
    pub fn start(previous_cursor: String) -> (run: GroupRun)
        ensures
            run.previous_cursor == previous_cursor,
            !run.received_stream_event,
            !run.output_sent_to_user,
    {
        GroupRun { previous_cursor, received_stream_event: false, output_sent_to_user: false }
    }

    /// Notes an event and says what to do.
    pub fn on_event(&mut self, event: &AgentStreamEvent) -> (plan: EventPlan)
        ensures
            plan@ == group_event_plan(*event),
            *final(self) == (GroupRun { received_stream_event: true, ..*old(self) }),
    {
        self.received_stream_event = true;
        let session = plan_session(&event.new_session_id);
        if event.status == AgentStreamStatus::Success && event.result.is_some() {
            return EventPlan {
                session,
                reset_idle_timer: true,
                send: plan_send(&event.result),
                stop_typing: false,
                close_input: false,
            };
        }
        EventPlan {
            session,
            reset_idle_timer: false,
            send: None,
            stop_typing: true,
            close_input: false,
        }
    }

    /// Notes whether a text reached people.
    pub fn note_sent(&mut self, ok: bool)
        ensures
            *final(self) == (GroupRun {
                output_sent_to_user: old(self).output_sent_to_user || ok,
                ..*old(self)
            }),
    {
        if ok {
            self.output_sent_to_user = true;
        }
    }

    /// Says what to do when the run is over.
    pub fn conclude(&self, output: Result<AgentRunOutput, String>) -> (conclusion: GroupConclusion)
        ensures
            conclusion@ == group_conclusion(*self, outcome(output)),
    {
        match output {
            Ok(out) => {
                let send = if self.received_stream_event {
                    None
                } else {
                    plan_send(&out.result)
                };
                GroupConclusion {
                    session: plan_session(&out.new_session_id),
                    send,
                    rollback_to: None,
                    success: true,
                }
            },
            Err(_) => {
                if self.output_sent_to_user {
                    return GroupConclusion {
                        session: None,
                        send: None,
                        rollback_to: None,
                        success: true,
                    };
                }
                GroupConclusion {
                    session: None,
                    send: None,
                    rollback_to: Some(self.previous_cursor.clone()),
                    success: false,
                }
            },
        }
    }
}

/// Nothing that people got is answered twice: once something was sent, the
/// cursor never goes back; and it goes back exactly where the run counts as
/// failed.
pub proof fn sent_output_is_never_rolled_back(
    run: GroupRun,
    output: Result<RunOutputView, Seq<char>>,
)
    ensures
        run.output_sent_to_user ==> group_conclusion(run, output).rollback_to is None,
        group_conclusion(run, output).rollback_to is Some <==> !group_conclusion(
            run,
            output,
        ).success,
        group_conclusion(run, output).rollback_to matches Some(cursor) ==> cursor
            == run.previous_cursor@,
{
}

/// Nothing is sent twice: after events the final result is not sent again.
pub proof fn streamed_output_is_not_repeated(
    run: GroupRun,
    output: Result<RunOutputView, Seq<char>>,
)
    requires
        run.received_stream_event,
    ensures
        group_conclusion(run, output).send is None,
{
}

/// Whether people got something of an event: it had a text to send, and the text
/// reached them.
pub open spec fn was_heard(event: AgentStreamEvent, reached: bool) -> bool {
    group_event_plan(event).send is Some && reached
}

/// A run after events, each with whether its text reached people.
pub open spec fn run_after(run: GroupRun, events: Seq<(AgentStreamEvent, bool)>) -> GroupRun
    decreases events.len(),
{
    if events.len() == 0 {
        run
    } else {
        let before = run_after(run, events.drop_last());
        GroupRun {
            received_stream_event: true,
            output_sent_to_user: before.output_sent_to_user || was_heard(
                events.last().0,
                events.last().1,
            ),
            ..before
        }
    }
}

/// A run that fails is read again from where it began unless people got
/// something of one of its events, and a run that had events repeats nothing
/// when it ends.
pub proof fn failed_run_is_read_again_unless_heard(
    run: GroupRun,
    events: Seq<(AgentStreamEvent, bool)>,
    output: Result<RunOutputView, Seq<char>>,
)
    requires
        !run.received_stream_event,
        !run.output_sent_to_user,
    ensures
        ({
            let end = group_conclusion(run_after(run, events), output);
            let heard = exists|i: int|
                0 <= i < events.len() && was_heard((#[trigger] events[i]).0, events[i].1);
            &&& output is Err ==> end.rollback_to == if heard {
                None
            } else {
                Some(run.previous_cursor@)
            }
            &&& output is Err ==> (end.success <==> heard)
            &&& output is Ok ==> end.success && end.rollback_to is None
            &&& events.len() > 0 ==> end.send is None
        }),
{
    lemma_run_after(run, events);
}

proof fn lemma_run_after(run: GroupRun, events: Seq<(AgentStreamEvent, bool)>)
    requires
        !run.received_stream_event,
        !run.output_sent_to_user,
    ensures
        run_after(run, events).previous_cursor == run.previous_cursor,
        run_after(run, events).received_stream_event <==> events.len() > 0,
        run_after(run, events).output_sent_to_user <==> exists|i: int|
            0 <= i < events.len() && was_heard((#[trigger] events[i]).0, events[i].1),
    decreases events.len(),
{
    if events.len() > 0 {
        let rest = events.drop_last();
        lemma_run_after(run, rest);
        if exists|i: int| 0 <= i < rest.len() && was_heard((#[trigger] rest[i]).0, rest[i].1) {
            let i = choose|i: int|
                0 <= i < rest.len() && was_heard((#[trigger] rest[i]).0, rest[i].1);
            assert(events[i] == rest[i]);
        }
        if exists|i: int|
            0 <= i < events.len() && was_heard((#[trigger] events[i]).0, events[i].1) {
            let i = choose|i: int|
                0 <= i < events.len() && was_heard((#[trigger] events[i]).0, events[i].1);
            if i < rest.len() {
                assert(rest[i] == events[i]);
            }
        }
        if was_heard(events.last().0, events.last().1) {
            assert(events[events.len() - 1] == events.last());
        }
    }
}

// ---------------------------------------------------------------------------
// Scheduled tasks
// ---------------------------------------------------------------------------

/// What a run of a scheduled task has done so far.
#[derive(Debug)]
pub struct TaskRun {
    pub received_stream_event: bool,
    pub output_sent_to_user: bool,
    pub last_stream_result: Option<String>,
}

/// The content of a [`TaskRun`].
pub struct TaskRunView {
    pub received_stream_event: bool,
    pub output_sent_to_user: bool,
    pub last_stream_result: Option<Seq<char>>,
}

impl View for TaskRun {
    type V = TaskRunView;

    open spec fn view(&self) -> TaskRunView {
        TaskRunView {
            received_stream_event: self.received_stream_event,
            output_sent_to_user: self.output_sent_to_user,
            last_stream_result: self.last_stream_result.deep_view(),
        }
    }
}

/// What to do when a scheduled task is over.
#[derive(Debug)]
pub struct TaskConclusion {
    pub session: Option<String>,
    pub send: Option<String>,
    pub close_input: bool,
    pub execution: TaskExecution,
}

/// The content of a [`TaskConclusion`].
pub struct TaskConclusionView {
    pub session: Option<Seq<char>>,
    pub send: Option<Seq<char>>,
    pub close_input: bool,
    pub execution: TaskExecutionView,
}

impl View for TaskConclusion {
    type V = TaskConclusionView;

    open spec fn view(&self) -> TaskConclusionView {
        TaskConclusionView {
            session: self.session.deep_view(),
            send: self.send.deep_view(),
            close_input: self.close_input,
            execution: self.execution@,
        }
    }
}

/// What to do when a scheduled task is over: its result is the last one that was
/// streamed, or its own without events; an error counts only where people got
/// nothing.
pub open spec fn task_conclusion(
    run: TaskRunView,
    output: Result<RunOutputView, Seq<char>>,
) -> TaskConclusionView {
    match output {
        Ok(out) => TaskConclusionView {
            session: session_to_store(out.new_session_id),
            send: if run.received_stream_event {
                None
            } else {
                text_to_send(out.result)
            },
            close_input: true,
            execution: TaskExecutionView {
                result: if !run.received_stream_event && out.result is Some {
                    out.result
                } else {
                    run.last_stream_result
                },
                error: None,
            },
        },
        Err(message) => TaskConclusionView {
            session: None,
            send: None,
            close_input: false,
            execution: if run.output_sent_to_user {
                TaskExecutionView { result: run.last_stream_result, error: None }
            } else {
                TaskExecutionView { result: None, error: Some(message) }
            },
        },
    }
}

impl TaskRun {
    /// A run that has done nothing yet.
    pub fn start() -> (run: TaskRun)
        ensures
            run@ == (TaskRunView {
                received_stream_event: false,
                output_sent_to_user: false,
                last_stream_result: None,
            }),
    {
        TaskRun {
            received_stream_event: false,
            output_sent_to_user: false,
            last_stream_result: None,
        }
    }

    /// Notes an event and says what to do.
    pub fn on_event(&mut self, event: &AgentStreamEvent) -> (plan: EventPlan)
        ensures
            plan@ == task_event_plan(*event),
            final(self)@ == (TaskRunView {
                received_stream_event: true,
                last_stream_result: if event.status == AgentStreamStatus::Success
                    && event.result is Some {
                    event.result.deep_view()
                } else {
                    old(self)@.last_stream_result
                },
                ..old(self)@
            }),
    {
        self.received_stream_event = true;
        let session = plan_session(&event.new_session_id);
        let success = event.status == AgentStreamStatus::Success;
        if success && event.result.is_some() {
            self.last_stream_result = event.result.clone();
            return EventPlan {
                session,
                reset_idle_timer: true,
                send: plan_send(&event.result),
                stop_typing: false,
                close_input: false,
            };
        }
        EventPlan {
            session,
            reset_idle_timer: false,
            send: None,
            stop_typing: false,
            close_input: success,
        }
    }

    /// Notes whether a text reached people.
    pub fn note_sent(&mut self, ok: bool)
        ensures
            final(self)@ == (TaskRunView {
                output_sent_to_user: old(self)@.output_sent_to_user || ok,
                ..old(self)@
            }),
    {
        if ok {
            self.output_sent_to_user = true;
        }
    }

    /// Says what to do when the task is over.
    pub fn conclude(self, output: Result<AgentRunOutput, String>) -> (conclusion: TaskConclusion)
        ensures
            conclusion@ == task_conclusion(self@, outcome(output)),
    {
        match output {
            Ok(out) => {
                let session = plan_session(&out.new_session_id);
                let send = if self.received_stream_event {
                    None
                } else {
                    plan_send(&out.result)
                };
                let result = if !self.received_stream_event && out.result.is_some() {
                    out.result
                } else {
                    self.last_stream_result
                };
                TaskConclusion {
                    session,
                    send,
                    close_input: true,
                    execution: TaskExecution { result, error: None },
                }
            },
            Err(message) => {
                let execution = if self.output_sent_to_user {
                    TaskExecution { result: self.last_stream_result, error: None }
                } else {
                    TaskExecution { result: None, error: Some(message) }
                };
                TaskConclusion { session: None, send: None, close_input: false, execution }
            },
        }
    }
}

/// A task fails exactly where the agent failed and people got nothing of it.
pub proof fn task_fails_only_unheard(run: TaskRunView, output: Result<RunOutputView, Seq<char>>)
    ensures
        task_conclusion(run, output).execution.error is Some <==> output is Err
            && !run.output_sent_to_user,
        task_conclusion(run, output).execution.error matches Some(message) ==> output == Err::<
            RunOutputView,
            Seq<char>,
        >(message),
{
}

} // verus!
