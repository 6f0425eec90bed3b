//! What goes into a run of the agent and what comes out of it.

use vstd::prelude::*;
use vstd::string::*;

use crate::container_runner::{ContainerOutput, ContainerOutputStatus};
use crate::duration::Duration;
use crate::text::{begins_with, join, joined, strip_prefix, trim, trimmed, without_prefix};
use crate::types::RegisteredGroup;

verus! {

#[derive(Debug, PartialEq, Eq)]
pub struct AgentRunInput {
    pub group: RegisteredGroup,
    pub prompt: String,
    pub session_id: Option<String>,
    pub group_folder: String,
    pub chat_jid: String,
    pub is_main: bool,
    pub is_scheduled_task: bool,
}

#[derive(Debug, PartialEq, Eq)]
pub struct AgentRunOutput {
    pub result: Option<String>,
    pub new_session_id: Option<String>,
}

/// The content of an [`AgentRunOutput`].
pub struct RunOutputView {
    pub result: Option<Seq<char>>,
    pub new_session_id: Option<Seq<char>>,
}

impl DeepView for AgentRunOutput {
    type V = RunOutputView;

    open spec fn deep_view(&self) -> RunOutputView {
        RunOutputView {
            result: self.result.deep_view(),
            new_session_id: self.new_session_id.deep_view(),
        }
    }
}

#[derive(Debug, Clone, Copy, PartialEq, Eq, Structural)]
pub enum AgentStreamStatus {
    Success,
    Error,
}

/// What the agent reports while it runs.
#[derive(Debug, PartialEq, Eq)]
pub struct AgentStreamEvent {
    pub status: AgentStreamStatus,
    pub result: Option<String>,
    pub new_session_id: Option<String>,
    pub error: Option<String>,
}

/// The process that a run started.
#[derive(Debug, PartialEq, Eq)]
pub struct AgentProcessEvent {
    pub process_id: Option<u32>,
    pub container_name: Option<String>,
    pub group_folder: Option<String>,
}

/// The folder of the process, or the group's where it names none.
pub fn process_folder<'a>(event: &'a AgentProcessEvent, default_folder: &'a str) -> (folder: &'a str)
    ensures
        folder@ == match event.group_folder {
            Some(name) => name@,
            None => default_folder@,
        },
{
    match &event.group_folder {
        Some(name) => name.as_str(),
        None => default_folder,
    }
}

pub open spec fn status_of(status: ContainerOutputStatus) -> AgentStreamStatus {
    match status {
        ContainerOutputStatus::Success => AgentStreamStatus::Success,
        ContainerOutputStatus::Error => AgentStreamStatus::Error,
    }
}

/// The status of a marked result.
pub fn stream_status(status: ContainerOutputStatus) -> (out: AgentStreamStatus)
    ensures
        out == status_of(status),
{
    match status {
        ContainerOutputStatus::Success => AgentStreamStatus::Success,
        ContainerOutputStatus::Error => AgentStreamStatus::Error,
    }
}

/// A marked result as an event.
pub fn stream_event(output: &ContainerOutput) -> (event: AgentStreamEvent)
    ensures
        event.status == status_of(output.status),
        event.result.deep_view() == output.result.deep_view(),
        event.new_session_id.deep_view() == output.new_session_id.deep_view(),
        event.error.deep_view() == output.error.deep_view(),
{
    AgentStreamEvent {
        status: stream_status(output.status),
        result: output.result.clone(),
        new_session_id: output.new_session_id.clone(),
        error: output.error.clone(),
    }
}

/// What a run amounts to: its last marked result, else the messages on what
/// could not be read, else its plain output. A run that names no session goes
/// on in the one it was given.
pub open spec fn run_conclusion(
    last: Option<ContainerOutput>,
    parse_errors: Seq<Seq<char>>,
    stdout: Seq<char>,
    session_id: Option<Seq<char>>,
    default_error: Seq<char>,
) -> Result<RunOutputView, Seq<char>> {
    match last {
        Some(output) => match output.status {
            ContainerOutputStatus::Success => Ok(
                RunOutputView {
                    result: output.result.deep_view(),
                    new_session_id: match output.new_session_id.deep_view() {
                        Some(id) => Some(id),
                        None => session_id,
                    },
                },
            ),
            ContainerOutputStatus::Error => Err(
                match output.error.deep_view() {
                    Some(message) => message,
                    None => default_error,
                },
            ),
        },
        None => if parse_errors.len() > 0 {
            Err(joined(parse_errors, "; "@))
        } else {
            Ok(
                RunOutputView {
                    result: if trimmed(stdout).len() == 0 {
                        None
                    } else {
                        Some(trimmed(stdout))
                    },
                    new_session_id: session_id,
                },
            )
        },
    }
}

pub open spec fn last_of(outputs: Seq<ContainerOutput>) -> Option<ContainerOutput> {
    if outputs.len() == 0 {
        None
    } else {
        Some(outputs.last())
    }
}

/// What a run amounts to.
pub fn conclude_run(
    outputs: &Vec<ContainerOutput>,
    parse_errors: &Vec<String>,
    stdout: &str,
    session_id: &Option<String>,
    default_error: &str,
) -> (out: Result<AgentRunOutput, String>)
    ensures
        crate::text::outcome(out) == run_conclusion(
            last_of(outputs@),
            parse_errors.deep_view(),
            stdout@,
            session_id.deep_view(),
            default_error@,
        ),
{
    if outputs.len() > 0 {
        let last = &outputs[outputs.len() - 1];
        return match last.status {
            ContainerOutputStatus::Success => Ok(
                AgentRunOutput {
                    result: last.result.clone(),
                    new_session_id: match &last.new_session_id {
                        Some(id) => Some(id.clone()),
                        None => session_id.clone(),
                    },
                },
            ),
            ContainerOutputStatus::Error => Err(
                match &last.error {
                    Some(message) => message.clone(),
                    None => default_error.to_owned(),
                },
            ),
        };
    }
    proof {
        assert(parse_errors.deep_view().len() == parse_errors@.len());
    }
    if parse_errors.len() > 0 {
        return Err(join(parse_errors, "; "));
    }
    let text = trim(stdout);
    let result = if text.as_str().is_empty() {
        None
    } else {
        Some(text)
    };
    Ok(AgentRunOutput { result, new_session_id: session_id.clone() })
}

#[derive(Debug)]
pub struct OrchestratorConfig {
    pub assistant_name: String,
    pub main_group_folder: String,
    pub poll_interval: Duration,
    pub idle_timeout: Duration,
    pub ipc_base_dir: Option<String>,
    pub max_concurrent_containers: usize,
}

impl Default for OrchestratorConfig {
    fn default() -> (config: OrchestratorConfig)
        ensures
            config.assistant_name@ == "Andy"@,
            config.main_group_folder@ == "main"@,
            config.poll_interval.wf(),
            config.poll_interval.total() == 2_000_000_000,
            config.idle_timeout.wf(),
            config.idle_timeout.total() == 1_800_000_000_000,
            config.ipc_base_dir is None,
            config.max_concurrent_containers == 5,
    {
        OrchestratorConfig {
            assistant_name: "Andy".to_owned(),
            main_group_folder: "main".to_owned(),
            poll_interval: Duration::from_millis(2_000),
            idle_timeout: Duration::from_millis(1_800_000),
            ipc_base_dir: None,
            max_concurrent_containers: 5,
        }
    }
}

/// An agent that gives back what it is asked.
#[derive(Debug, Default)]
pub struct EchoAgentRunner;

impl EchoAgentRunner {
    /// Gives back the prompt, in the session it was given.
    pub fn run(&self, input: AgentRunInput) -> (output: AgentRunOutput)
        ensures
            output.result matches Some(r) && r@ == "Echo from "@ + input.group.name@ + ":\n"@
                + input.prompt@,
            output.new_session_id.deep_view() == Some(
                match input.session_id.deep_view() {
                    Some(id) => id,
                    None => "session-echo"@,
                },
            ),
    {
        let result = "Echo from ".to_owned().concat(input.group.name.as_str()).concat(
            ":\n",
        ).concat(input.prompt.as_str());
        let session = match input.session_id {
            Some(id) => id,
            None => "session-echo".to_owned(),
        };
        AgentRunOutput { result: Some(result), new_session_id: Some(session) }
    }
}

// ---------------------------------------------------------------------------
// Sessions
// ---------------------------------------------------------------------------

/// The session that the agent is given: only stored ids of its own kind count.
pub open spec fn runner_session(stored: Option<Seq<char>>) -> Option<Seq<char>> {
    match stored {
        Some(id) => without_prefix(id, "codex:"@),
        None => None,
    }
}

/// The session that the agent is given.
pub fn session_id_for_runner(stored: Option<String>) -> (session: Option<String>)
    ensures
        session.deep_view() == runner_session(stored.deep_view()),
{
    match stored {
        Some(id) => strip_prefix(id.as_str(), "codex:"),
        None => None,
    }
}

/// A session id as it is stored: with the mark of its kind.
pub open spec fn stored_session(id: Seq<char>) -> Seq<char> {
    if "codex:"@.is_prefix_of(id) {
        id
    } else {
        "codex:"@ + id
    }
}

/// A session id as it is stored.
pub fn normalize_session_id_for_storage(value: &str) -> (stored: String)
    ensures
        stored@ == stored_session(value@),
{
    if begins_with(value, "codex:") {
        value.to_owned()
    } else {
        "codex:".to_owned().concat(value)
    }
}

/// A session survives storage: the agent is given back the id that it reported,
/// without the mark where it had one. Storing a stored id changes nothing.
pub proof fn stored_session_is_given_back(id: Seq<char>)
    ensures
        !"codex:"@.is_prefix_of(id) ==> runner_session(Some(stored_session(id))) == Some(id),
        "codex:"@.is_prefix_of(id) ==> runner_session(Some(stored_session(id))) == Some(
            id.skip("codex:"@.len() as int),
        ),
        stored_session(stored_session(id)) == stored_session(id),
{
    let mark = "codex:"@;
    if !mark.is_prefix_of(id) {
        let stored = mark + id;
        assert(stored.subrange(0, mark.len() as int) =~= mark);
        assert(stored.skip(mark.len() as int) =~= id);
    }
}

} // verus!
