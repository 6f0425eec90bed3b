//! What the daemon runs with: its settings, and what they leave to defaults.

use vstd::prelude::*;
use vstd::string::*;

use crate::agent_runner_command::MarkerCommandAgentRunner;
use crate::agent_runner_container::{auth_dir, resolve_codex_auth_dir, ContainerAgentRunner};
use crate::command_executor::MarkerCommandExecutor;
use crate::container_runner::{code_shown, show_code};
use crate::discord_channel::DiscordChannelConfig;
use crate::duration::Duration;
use crate::inbound_bridge::CommandInboundBridge;
use crate::json::{
    field, parse_json, parse_texts, parsed_json, parsed_texts, text_field, Json, JsonValue,
};
use crate::mount_security::{file_name, file_name_of};
use crate::name_map::{text_under, texts, NameMap};
use crate::number::{parse_u64, parse_usize, unsigned_value};
use crate::outbound_command::CommandOutboundSender;
use crate::paths::{join_path, joined_path};
use crate::text::{
    ascii_lower, begins_with, contains_text, has_text, lines, lines_of, occurs_at, outcome,
    same_text, tail, tail_chars, to_ascii_lower, trim, trimmed,
};
use crate::timestamp::{parse_rfc3339, rfc3339_instant, Timestamp};
use crate::types::{RegisteredGroup, ScheduledTask, TaskStatus};

verus! {

pub type Settings = Map<Seq<char>, Seq<char>>;

/// A setting, where it is set.
pub open spec fn setting(settings: Settings, key: Seq<char>) -> Option<Seq<char>> {
    if settings.contains_key(key) {
        Some(settings[key])
    } else {
        None
    }
}

/// A setting, or a default.
pub open spec fn setting_or(settings: Settings, key: Seq<char>, default: Seq<char>) -> Seq<char> {
    if settings.contains_key(key) {
        settings[key]
    } else {
        default
    }
}

fn read_or(settings: &NameMap<String>, key: &str, default: &str) -> (value: String)
    requires
        settings.wf(),
    ensures
        value@ == setting_or(texts(settings@), key@, default@),
{
    match text_under(settings, key) {
        Some(value) => value,
        None => default.to_owned(),
    }
}

/// The number that a setting gives, or a default where it gives none.
pub open spec fn number_or(settings: Settings, key: Seq<char>, default: nat, max: nat) -> nat {
    match setting(settings, key) {
        Some(text) => match unsigned_value(text, max) {
            Some(n) => n,
            None => default,
        },
        None => default,
    }
}

/// The number that a setting gives, or a default.
pub fn read_u64(settings: &NameMap<String>, key: &str, default_value: u64) -> (value: u64)
    requires
        settings.wf(),
    ensures
        value == number_or(texts(settings@), key@, default_value as nat, u64::MAX as nat),
{
    match text_under(settings, key) {
        Some(text) => match parse_u64(text.as_str()) {
            Some(n) => n,
            None => default_value,
        },
        None => default_value,
    }
}

/// The number that a setting gives, or a default.
pub fn read_usize(settings: &NameMap<String>, key: &str, default_value: usize) -> (value: usize)
    requires
        settings.wf(),
    ensures
        value == number_or(texts(settings@), key@, default_value as nat, usize::MAX as nat),
{
    match text_under(settings, key) {
        Some(text) => match parse_usize(text.as_str()) {
            Some(n) => n,
            None => default_value,
        },
        None => default_value,
    }
}

/// The flag that a setting gives, or a default where it gives none.
pub open spec fn flag_or(settings: Settings, key: Seq<char>, default: bool) -> bool {
    match setting(settings, key) {
        Some(text) => {
            let word = ascii_lower(trimmed(text));
            if word == "1"@ || word == "true"@ || word == "yes"@ || word == "on"@ {
                true
            } else if word == "0"@ || word == "false"@ || word == "no"@ || word == "off"@ {
                false
            } else {
                default
            }
        },
        None => default,
    }
}

/// The flag that a setting gives, or a default.
pub fn read_bool(settings: &NameMap<String>, key: &str, default_value: bool) -> (value: bool)
    requires
        settings.wf(),
    ensures
        value == flag_or(texts(settings@), key@, default_value),
{
    match text_under(settings, key) {
        Some(text) => {
            let word = to_ascii_lower(trim(text.as_str()).as_str());
            let word = word.as_str();
            if same_text(word, "1") || same_text(word, "true") || same_text(word, "yes")
                || same_text(word, "on") {
                true
            } else if same_text(word, "0") || same_text(word, "false") || same_text(word, "no")
                || same_text(word, "off") {
                false
            } else {
                default_value
            }
        },
        None => default_value,
    }
}

fn read_millis(settings: &NameMap<String>, key: &str, default_ms: u64) -> (span: Duration)
    requires
        settings.wf(),
    ensures
        span.wf(),
        span.total() == number_or(
            texts(settings@),
            key@,
            default_ms as nat,
            u64::MAX as nat,
        ) * 1_000_000,
{
    Duration::from_millis(read_u64(settings, key, default_ms))
}

// ---------------------------------------------------------------------------
// The daemon
// ---------------------------------------------------------------------------

/// What the daemon runs with.
#[derive(Debug)]
pub struct DaemonSettings {
    pub assistant_name: String,
    pub main_group_folder: String,
    pub poll_interval: Duration,
    pub scheduler_interval: Duration,
    pub idle_timeout: Duration,
    pub ipc_poll_interval: Duration,
    pub max_concurrent: usize,
    pub agent_runner_mode: String,
    pub task_executor_mode: String,
    pub outbound_sender_mode: String,
}

/// Whether settings are those that the environment gives, with defaults for the
/// rest.
pub open spec fn follows(daemon: DaemonSettings, settings: Settings) -> bool {
    &&& daemon.assistant_name@ == setting_or(settings, "ASSISTANT_NAME"@, "Andy"@)
    &&& daemon.main_group_folder@ == setting_or(settings, "MAIN_GROUP_FOLDER"@, "main"@)
    &&& daemon.poll_interval.wf()
    &&& daemon.poll_interval.total() == number_or(
        settings,
        "POLL_INTERVAL_MS"@,
        2_000,
        u64::MAX as nat,
    ) * 1_000_000
    &&& daemon.scheduler_interval.wf()
    &&& daemon.scheduler_interval.total() == number_or(
        settings,
        "SCHEDULER_POLL_INTERVAL_MS"@,
        60_000,
        u64::MAX as nat,
    ) * 1_000_000
    &&& daemon.idle_timeout.wf()
    &&& daemon.idle_timeout.total() == number_or(
        settings,
        "IDLE_TIMEOUT_MS"@,
        1_800_000,
        u64::MAX as nat,
    ) * 1_000_000
    &&& daemon.ipc_poll_interval.wf()
    &&& daemon.ipc_poll_interval.total() == number_or(
        settings,
        "IPC_POLL_INTERVAL_MS"@,
        1_000,
        u64::MAX as nat,
    ) * 1_000_000
    &&& daemon.max_concurrent == number_or(
        settings,
        "MAX_CONCURRENT_CONTAINERS"@,
        5,
        usize::MAX as nat,
    )
    &&& daemon.agent_runner_mode@ == setting_or(settings, "AGENT_RUNNER_MODE"@, "container"@)
    &&& daemon.task_executor_mode@ == setting_or(settings, "TASK_EXECUTOR_MODE"@, "agent"@)
    &&& daemon.outbound_sender_mode@ == setting_or(settings, "OUTBOUND_SENDER_MODE"@, "discord"@)
}

/// What the daemon runs with.
pub fn daemon_settings(settings: &NameMap<String>) -> (daemon: DaemonSettings)
    requires
        settings.wf(),
    ensures
        follows(daemon, texts(settings@)),
{
    DaemonSettings {
        assistant_name: read_or(settings, "ASSISTANT_NAME", "Andy"),
        main_group_folder: read_or(settings, "MAIN_GROUP_FOLDER", "main"),
        poll_interval: read_millis(settings, "POLL_INTERVAL_MS", 2_000),
        scheduler_interval: read_millis(settings, "SCHEDULER_POLL_INTERVAL_MS", 60_000),
        idle_timeout: read_millis(settings, "IDLE_TIMEOUT_MS", 1_800_000),
        ipc_poll_interval: read_millis(settings, "IPC_POLL_INTERVAL_MS", 1_000),
        max_concurrent: read_usize(settings, "MAX_CONCURRENT_CONTAINERS", 5),
        agent_runner_mode: read_or(settings, "AGENT_RUNNER_MODE", "container"),
        task_executor_mode: read_or(settings, "TASK_EXECUTOR_MODE", "agent"),
        outbound_sender_mode: read_or(settings, "OUTBOUND_SENDER_MODE", "discord"),
    }
}

/// Where the database is.
pub fn db_path_from_env(settings: &NameMap<String>) -> (path: String)
    requires
        settings.wf(),
    ensures
        path@ == setting_or(texts(settings@), "RUST_CLAW_DB"@, "store/messages.db"@),
{
    read_or(settings, "RUST_CLAW_DB", "store/messages.db")
}

/// Where data is kept: the configured directory, or one in the current
/// directory.
pub fn data_dir_from_env(settings: &NameMap<String>, current_dir: &str) -> (path: String)
    requires
        settings.wf(),
    ensures
        path@ == setting_or(texts(settings@), "DATA_DIR"@, joined_path(current_dir@, "data"@)),
{
    match text_under(settings, "DATA_DIR") {
        Some(path) => path,
        None => join_path(current_dir, "data"),
    }
}

/// The trigger of a group that names none.
pub fn default_trigger(settings: &NameMap<String>) -> (trigger: String)
    requires
        settings.wf(),
    ensures
        trigger@ == "@"@ + setting_or(texts(settings@), "ASSISTANT_NAME"@, "Andy"@),
{
    "@".to_owned().concat(read_or(settings, "ASSISTANT_NAME", "Andy").as_str())
}

// ---------------------------------------------------------------------------
// Commands
// ---------------------------------------------------------------------------

/// The program and the arguments of a part that runs as a command.
pub open spec fn command_of(
    part: Seq<char>,
    program: Option<Seq<char>>,
    args_raw: Option<Seq<char>>,
    args: Result<Seq<Seq<char>>, Seq<char>>,
) -> Result<(Seq<char>, Seq<Seq<char>>), Seq<char>> {
    match (program, args_raw, args) {
        (None, _, _) => Err(
            part + "_PROGRAM is required when "@ + part + "_MODE=command"@,
        ),
        (_, None, _) => Err(
            part + "_ARGS_JSON is required when "@ + part + "_MODE=command"@,
        ),
        (_, _, Err(reason)) => Err("invalid "@ + part + "_ARGS_JSON: "@ + reason),
        (Some(program), Some(_), Ok(args)) => Ok((program, args)),
    }
}

/// The program and the arguments of a part that runs as a command, given what
/// was read from the list of arguments.
pub fn command_from(
    part: &str,
    program: Option<String>,
    args_raw: &Option<String>,
    args: Result<Vec<String>, String>,
) -> (command: Result<(String, Vec<String>), String>)
    ensures
        outcome(command) == command_of(
            part@,
            program.deep_view(),
            args_raw.deep_view(),
            outcome(args),
        ),
{
    let program = match program {
        Some(program) => program,
        None => {
            return Err(
                part.to_owned().concat("_PROGRAM is required when ").concat(part).concat(
                    "_MODE=command",
                ),
            );
        },
    };
    if args_raw.is_none() {
        return Err(
            part.to_owned().concat("_ARGS_JSON is required when ").concat(part).concat(
                "_MODE=command",
            ),
        );
    }
    match args {
        Ok(args) => Ok((program, args)),
        Err(reason) => Err(
            "invalid ".to_owned().concat(part).concat("_ARGS_JSON: ").concat(reason.as_str()),
        ),
    }
}

/// The program and the arguments that settings give for a part.
pub open spec fn command_setting(settings: Settings, part: Seq<char>) -> Result<
    (Seq<char>, Seq<Seq<char>>),
    Seq<char>,
> {
    let args_raw = setting(settings, part + "_ARGS_JSON"@);
    command_of(
        part,
        setting(settings, part + "_PROGRAM"@),
        args_raw,
        match args_raw {
            Some(raw) => parsed_texts(raw),
            None => Ok(Seq::empty()),
        },
    )
}

fn read_command(settings: &NameMap<String>, part: &str) -> (command: Result<
    (String, Vec<String>),
    String,
>)
    requires
        settings.wf(),
    ensures
        outcome(command) == command_setting(texts(settings@), part@),
{
    let program_key = part.to_owned().concat("_PROGRAM");
    let args_key = part.to_owned().concat("_ARGS_JSON");
    let program = text_under(settings, program_key.as_str());
    let args_raw = text_under(settings, args_key.as_str());
    let args = match &args_raw {
        Some(raw) => parse_texts(raw.as_str()),
        None => {
            let none: Vec<String> = Vec::new();
            proof {
                assert(none.deep_view() =~= Seq::<Seq<char>>::empty());
            }
            Ok(none)
        },
    };
    command_from(part, program, &args_raw, args)
}

// ---------------------------------------------------------------------------
// Parts
// ---------------------------------------------------------------------------

/// What runs the agent.
#[derive(Debug)]
pub enum AgentRunnerPlan {
    Echo,
    Command(MarkerCommandAgentRunner),
    Container(ContainerAgentRunner),
}

/// Whether a runner is the one that settings describe.
pub open spec fn describes_container(
    runner: ContainerAgentRunner,
    settings: Settings,
    current_dir: Seq<char>,
    home: Option<Seq<char>>,
) -> bool {
    let root = setting_or(settings, "PROJECT_ROOT"@, current_dir);
    &&& runner.container_binary@ == setting_or(settings, "CONTAINER_BINARY"@, "docker"@)
    &&& runner.container_image@ == setting_or(
        settings,
        "CONTAINER_IMAGE"@,
        "rust-claw-codex-agent:latest"@,
    )
    &&& runner.project_root@ == root
    &&& runner.groups_dir@ == setting_or(settings, "GROUPS_DIR"@, joined_path(root, "groups"@))
    &&& runner.data_dir@ == setting_or(settings, "DATA_DIR"@, joined_path(root, "data"@))
    &&& runner.timeout.wf()
    &&& runner.timeout.total() == number_or(
        settings,
        "CONTAINER_TIMEOUT_MS"@,
        1_800_000,
        u64::MAX as nat,
    ) * 1_000_000
    &&& runner.mount_allowlist_path.deep_view() == setting(settings, "MOUNT_ALLOWLIST_PATH"@)
    &&& runner.codex_auth_dir.deep_view() == auth_dir(setting(settings, "CODEX_AUTH_DIR"@), home)
}

fn read_container(settings: &NameMap<String>, current_dir: &str, home: Option<&str>) -> (runner:
    ContainerAgentRunner)
    requires
        settings.wf(),
    ensures
        describes_container(runner, texts(settings@), current_dir@, home.deep_view()),
{
    let project_root = read_or(settings, "PROJECT_ROOT", current_dir);
    let groups_dir = join_path(project_root.as_str(), "groups");
    let data_dir = join_path(project_root.as_str(), "data");
    let auth = text_under(settings, "CODEX_AUTH_DIR");
    let auth_setting = match &auth {
        Some(dir) => Some(dir.as_str()),
        None => None,
    };
    ContainerAgentRunner::new(
        read_or(settings, "CONTAINER_BINARY", "docker"),
        read_or(settings, "CONTAINER_IMAGE", "rust-claw-codex-agent:latest"),
        project_root,
        read_or(settings, "GROUPS_DIR", groups_dir.as_str()),
        read_or(settings, "DATA_DIR", data_dir.as_str()),
        read_millis(settings, "CONTAINER_TIMEOUT_MS", 1_800_000),
        text_under(settings, "MOUNT_ALLOWLIST_PATH"),
        resolve_codex_auth_dir(auth_setting, home),
    )
}

/// What runs the agent in a mode.
pub fn build_agent_runner(
    mode: &str,
    settings: &NameMap<String>,
    current_dir: &str,
    home: Option<&str>,
) -> (plan: Result<AgentRunnerPlan, String>)
    requires
        settings.wf(),
    ensures
        match plan {
            Ok(AgentRunnerPlan::Echo) => mode@ == "echo"@,
            Ok(AgentRunnerPlan::Command(runner)) => {
                &&& mode@ == "command"@
                &&& command_setting(texts(settings@), "AGENT_RUNNER"@) == Ok::<
                    (Seq<char>, Seq<Seq<char>>),
                    Seq<char>,
                >((runner.program@, runner.args_template.deep_view()))
                &&& runner.timeout.wf()
                &&& runner.timeout.total() == number_or(
                    texts(settings@),
                    "AGENT_RUNNER_TIMEOUT_MS"@,
                    300_000,
                    u64::MAX as nat,
                ) * 1_000_000
            },
            Ok(AgentRunnerPlan::Container(runner)) => mode@ == "container"@
                && describes_container(
                runner,
                texts(settings@),
                current_dir@,
                home.deep_view(),
            ),
            Err(message) => if mode@ == "command"@ {
                command_setting(texts(settings@), "AGENT_RUNNER"@) == Err::<
                    (Seq<char>, Seq<Seq<char>>),
                    Seq<char>,
                >(message@)
            } else {
                &&& mode@ != "echo"@ && mode@ != "container"@
                &&& message@ == "unsupported AGENT_RUNNER_MODE: "@ + mode@
                    + " (expected: echo | command | container)"@
            },
        },
{
    if same_text(mode, "echo") {
        return Ok(AgentRunnerPlan::Echo);
    }
    if same_text(mode, "command") {
        return match read_command(settings, "AGENT_RUNNER") {
            Ok((program, args_template)) => Ok(
                AgentRunnerPlan::Command(
                    MarkerCommandAgentRunner {
                        program,
                        args_template,
                        timeout: read_millis(settings, "AGENT_RUNNER_TIMEOUT_MS", 300_000),
                    },
                ),
            ),
            Err(message) => Err(message),
        };
    }
    if same_text(mode, "container") {
        return Ok(AgentRunnerPlan::Container(read_container(settings, current_dir, home)));
    }
    Err(
        "unsupported AGENT_RUNNER_MODE: ".to_owned().concat(mode).concat(
            " (expected: echo | command | container)",
        ),
    )
}

/// What runs scheduled tasks.
#[derive(Debug)]
pub enum TaskExecutorPlan {
    Agent,
    Echo,
    Command(MarkerCommandExecutor),
}

/// What runs scheduled tasks in a mode.
pub fn build_task_executor(mode: &str, settings: &NameMap<String>) -> (plan: Result<
    TaskExecutorPlan,
    String,
>)
    requires
        settings.wf(),
    ensures
        match plan {
            Ok(TaskExecutorPlan::Agent) => mode@ == "agent"@,
            Ok(TaskExecutorPlan::Echo) => mode@ == "echo"@,
            Ok(TaskExecutorPlan::Command(executor)) => {
                &&& mode@ == "command"@
                &&& command_setting(texts(settings@), "TASK_EXECUTOR"@) == Ok::<
                    (Seq<char>, Seq<Seq<char>>),
                    Seq<char>,
                >((executor.program@, executor.args_template.deep_view()))
                &&& executor.timeout.wf()
                &&& executor.timeout.total() == number_or(
                    texts(settings@),
                    "TASK_EXECUTOR_TIMEOUT_MS"@,
                    300_000,
                    u64::MAX as nat,
                ) * 1_000_000
            },
            Err(message) => if mode@ == "command"@ {
                command_setting(texts(settings@), "TASK_EXECUTOR"@) == Err::<
                    (Seq<char>, Seq<Seq<char>>),
                    Seq<char>,
                >(message@)
            } else {
                &&& mode@ != "agent"@ && mode@ != "echo"@
                &&& message@ == "unsupported TASK_EXECUTOR_MODE: "@ + mode@
                    + " (expected: agent | echo | command)"@
            },
        },
{
    if same_text(mode, "agent") {
        return Ok(TaskExecutorPlan::Agent);
    }
    if same_text(mode, "echo") {
        return Ok(TaskExecutorPlan::Echo);
    }
    if same_text(mode, "command") {
        return match read_command(settings, "TASK_EXECUTOR") {
            Ok((program, args_template)) => Ok(
                TaskExecutorPlan::Command(
                    MarkerCommandExecutor {
                        program,
                        args_template,
                        timeout: read_millis(settings, "TASK_EXECUTOR_TIMEOUT_MS", 300_000),
                    },
                ),
            ),
            Err(message) => Err(message),
        };
    }
    Err(
        "unsupported TASK_EXECUTOR_MODE: ".to_owned().concat(mode).concat(
            " (expected: agent | echo | command)",
        ),
    )
}

/// What a task that is only echoed results in.
pub fn echo_task(task: &ScheduledTask) -> (result: String)
    ensures
        result@ == "Task executed: "@ + task.prompt@,
{
    "Task executed: ".to_owned().concat(task.prompt.as_str())
}

/// What sends messages.
#[derive(Debug)]
pub enum OutboundPlan {
    Discord(DiscordChannelConfig),
    Stdout,
    Command(CommandOutboundSender),
}

/// The bot's token, without surrounding white space, where it is not blank.
pub open spec fn bot_token(settings: Settings) -> Option<Seq<char>> {
    match setting(settings, "DISCORD_BOT_TOKEN"@) {
        Some(text) => if trimmed(text).len() == 0 {
            None
        } else {
            Some(trimmed(text))
        },
        None => None,
    }
}

/// Whether a configuration is the one that settings describe.
pub open spec fn describes_discord(
    config: DiscordChannelConfig,
    settings: Settings,
    assistant_name: Seq<char>,
) -> bool {
    &&& bot_token(settings) == Some(config.bot_token@)
    &&& config.reconnect_delay.wf()
    &&& config.reconnect_delay.total() == number_or(
        settings,
        "DISCORD_RECONNECT_DELAY_MS"@,
        5_000,
        u64::MAX as nat,
    ) * 1_000_000
    &&& config.assistant_name@ == assistant_name
    &&& config.prefix_outbound == flag_or(settings, "DISCORD_PREFIX_OUTBOUND"@, true)
}

fn build_discord_config(settings: &NameMap<String>, assistant_name: &str) -> (config: Result<
    DiscordChannelConfig,
    String,
>)
    requires
        settings.wf(),
    ensures
        match config {
            Ok(c) => describes_discord(c, texts(settings@), assistant_name@),
            Err(message) => bot_token(texts(settings@)) is None && message@
                == "DISCORD_BOT_TOKEN is required when OUTBOUND_SENDER_MODE=discord"@,
        },
{
    if let Some(raw) = text_under(settings, "DISCORD_BOT_TOKEN") {
        let token = trim(raw.as_str());
        if !token.as_str().is_empty() {
            return Ok(
                DiscordChannelConfig {
                    bot_token: token,
                    reconnect_delay: read_millis(settings, "DISCORD_RECONNECT_DELAY_MS", 5_000),
                    assistant_name: assistant_name.to_owned(),
                    prefix_outbound: read_bool(settings, "DISCORD_PREFIX_OUTBOUND", true),
                },
            );
        }
    }
    Err("DISCORD_BOT_TOKEN is required when OUTBOUND_SENDER_MODE=discord".to_owned())
}

/// What sends messages in a mode.
pub fn build_outbound_sender(mode: &str, settings: &NameMap<String>, assistant_name: &str) -> (plan:
    Result<OutboundPlan, String>)
    requires
        settings.wf(),
    ensures
        match plan {
            Ok(OutboundPlan::Discord(config)) => mode@ == "discord"@ && describes_discord(
                config,
                texts(settings@),
                assistant_name@,
            ),
            Ok(OutboundPlan::Stdout) => mode@ == "stdout"@,
            Ok(OutboundPlan::Command(sender)) => {
                &&& mode@ == "command"@
                &&& command_setting(texts(settings@), "OUTBOUND_SENDER"@) == Ok::<
                    (Seq<char>, Seq<Seq<char>>),
                    Seq<char>,
                >((sender.program@, sender.args_template.deep_view()))
                &&& sender.timeout.wf()
                &&& sender.timeout.total() == number_or(
                    texts(settings@),
                    "OUTBOUND_SENDER_TIMEOUT_MS"@,
                    120_000,
                    u64::MAX as nat,
                ) * 1_000_000
            },
            Err(message) => if mode@ == "discord"@ {
                &&& bot_token(texts(settings@)) is None
                &&& message@ == "DISCORD_BOT_TOKEN is required when OUTBOUND_SENDER_MODE=discord"@
            } else if mode@ == "command"@ {
                command_setting(texts(settings@), "OUTBOUND_SENDER"@) == Err::<
                    (Seq<char>, Seq<Seq<char>>),
                    Seq<char>,
                >(message@)
            } else {
                &&& mode@ != "stdout"@
                &&& message@ == "unsupported OUTBOUND_SENDER_MODE: "@ + mode@
                    + " (expected: stdout | command | discord)"@
            },
        },
{
    if same_text(mode, "discord") {
        return match build_discord_config(settings, assistant_name) {
            Ok(config) => Ok(OutboundPlan::Discord(config)),
            Err(message) => Err(message),
        };
    }
    if same_text(mode, "stdout") {
        return Ok(OutboundPlan::Stdout);
    }
    if same_text(mode, "command") {
        return match read_command(settings, "OUTBOUND_SENDER") {
            Ok((program, args_template)) => Ok(
                OutboundPlan::Command(
                    CommandOutboundSender {
                        program,
                        args_template,
                        timeout: read_millis(settings, "OUTBOUND_SENDER_TIMEOUT_MS", 120_000),
                    },
                ),
            ),
            Err(message) => Err(message),
        };
    }
    Err(
        "unsupported OUTBOUND_SENDER_MODE: ".to_owned().concat(mode).concat(
            " (expected: stdout | command | discord)",
        ),
    )
}

/// The command that reports messages, where one is set.
pub fn build_inbound_bridge(settings: &NameMap<String>) -> (bridge: Result<
    Option<CommandInboundBridge>,
    String,
>)
    requires
        settings.wf(),
    ensures
        match setting(texts(settings@), "INBOUND_BRIDGE_PROGRAM"@) {
            None => bridge matches Ok(None),
            Some(program) => match parsed_texts(
                setting_or(texts(settings@), "INBOUND_BRIDGE_ARGS_JSON"@, "[]"@),
            ) {
                Ok(args) => bridge matches Ok(Some(b)) && b.program@ == program
                    && b.args.deep_view() == args,
                Err(reason) => bridge matches Err(message) && message@
                    == "invalid INBOUND_BRIDGE_ARGS_JSON: "@ + reason,
            },
        },
{
    let program = match text_under(settings, "INBOUND_BRIDGE_PROGRAM") {
        Some(program) => program,
        None => {
            return Ok(None);
        },
    };
    let raw = read_or(settings, "INBOUND_BRIDGE_ARGS_JSON", "[]");
    match parse_texts(raw.as_str()) {
        Ok(args) => Ok(Some(CommandInboundBridge { program, args })),
        Err(reason) => Err(
            "invalid INBOUND_BRIDGE_ARGS_JSON: ".to_owned().concat(reason.as_str()),
        ),
    }
}

// ---------------------------------------------------------------------------
// Groups and tasks from the command line
// ---------------------------------------------------------------------------

/// The main group, which answers without being addressed.
pub fn main_group(name: String, folder: String, trigger: String, added_at: String) -> (group:
    RegisteredGroup)
    ensures
        group == (RegisteredGroup {
            name,
            folder,
            trigger,
            added_at,
            container_config: None,
            requires_trigger: Some(false),
        }),
{
    RegisteredGroup {
        name,
        folder,
        trigger,
        added_at,
        container_config: None,
        requires_trigger: Some(false),
    }
}

/// The main group to register on start: where a chat is set for it that is not
/// registered yet.
pub fn auto_registered_main_group(
    settings: &NameMap<String>,
    already_registered: bool,
    daemon: &DaemonSettings,
    added_at: String,
) -> (group: Option<(String, RegisteredGroup)>)
    requires
        settings.wf(),
    ensures
        match group {
            Some((jid, g)) => {
                &&& !already_registered
                &&& setting(texts(settings@), "AUTO_REGISTER_MAIN_JID"@) == Some(jid@)
                &&& g.name@ == "Main"@
                &&& g.folder@ == daemon.main_group_folder@
                &&& g.trigger@ == "@"@ + daemon.assistant_name@
                &&& g.added_at == added_at
                &&& g.container_config is None
                &&& g.requires_trigger == Some(false)
            },
            None => already_registered || setting(
                texts(settings@),
                "AUTO_REGISTER_MAIN_JID"@,
            ) is None,
        },
{
    let jid = match text_under(settings, "AUTO_REGISTER_MAIN_JID") {
        Some(jid) => jid,
        None => {
            return None;
        },
    };
    if already_registered {
        return None;
    }
    let group = main_group(
        "Main".to_owned(),
        daemon.main_group_folder.clone(),
        "@".to_owned().concat(daemon.assistant_name.as_str()),
        added_at,
    );
    Some((jid, group))
}

/// The instant that a text gives.
pub open spec fn given_instant(raw: Seq<char>) -> Result<Timestamp, Seq<char>> {
    match rfc3339_instant(raw) {
        Ok(t) => Ok(t),
        Err(reason) => Err("invalid RFC3339 timestamp '"@ + raw + "': "@ + reason),
    }
}

/// The instant that a text gives.
pub fn parse_timestamp(raw: &str) -> (instant: Result<Timestamp, String>)
    ensures
        outcome(instant) == given_instant(raw@),
{
    match parse_rfc3339(raw) {
        Ok(t) => Ok(t),
        Err(reason) => Err(
            "invalid RFC3339 timestamp '".to_owned().concat(raw).concat("': ").concat(
                reason.as_str(),
            ),
        ),
    }
}

/// When a task that is created first runs: when it was said, else at once where
/// it is active, else never.
pub fn created_task_next_run(
    next_run: Option<Result<Timestamp, String>>,
    status: TaskStatus,
    now: Timestamp,
) -> (first: Result<Option<Timestamp>, String>)
    ensures
        match next_run {
            Some(Ok(t)) => first == Ok::<Option<Timestamp>, String>(Some(t)),
            Some(Err(message)) => first == Err::<Option<Timestamp>, String>(message),
            None => first == Ok::<Option<Timestamp>, String>(
                if status == TaskStatus::Active {
                    Some(now)
                } else {
                    None
                },
            ),
        },
{
    match next_run {
        Some(Ok(t)) => Ok(Some(t)),
        Some(Err(message)) => Err(message),
        None => if status == TaskStatus::Active {
            Ok(Some(now))
        } else {
            Ok(None)
        },
    }
}

// ---------------------------------------------------------------------------
// The container runtime
// ---------------------------------------------------------------------------

#[derive(Debug, Clone, Copy, PartialEq, Eq, Structural)]
pub enum ContainerRuntime {
    Docker,
    AppleContainer,
}

/// The runtime that a program belongs to.
pub open spec fn runtime_of(binary: Seq<char>) -> ContainerRuntime {
    let name = match file_name_of(binary) {
        Some(name) => name,
        None => binary,
    };
    if contains_text(ascii_lower(name), "docker"@) {
        ContainerRuntime::Docker
    } else {
        ContainerRuntime::AppleContainer
    }
}

/// The runtime that a program belongs to.
pub fn detect_container_runtime(container_binary: &str) -> (runtime: ContainerRuntime)
    ensures
        runtime == runtime_of(container_binary@),
{
    let name = match file_name(container_binary) {
        Some(name) => name,
        None => container_binary.to_owned(),
    };
    if has_text(to_ascii_lower(name.as_str()).as_str(), "docker") {
        ContainerRuntime::Docker
    } else {
        ContainerRuntime::AppleContainer
    }
}

/// What is run to see whether the runtime is up.
#[derive(Debug, Clone, Copy, PartialEq, Eq, Structural)]
pub enum RuntimeCheck {
    Info,
    Status,
    Start,
    StatusAfterStart,
}

/// What follows a check.
#[derive(Debug)]
pub enum RuntimeStep {
    Ready,
    Run(RuntimeCheck),
    Fail(String),
}

/// The first check of a runtime.
pub fn first_check(runtime: ContainerRuntime) -> (check: RuntimeCheck)
    ensures
        check == match runtime {
            ContainerRuntime::Docker => RuntimeCheck::Info,
            ContainerRuntime::AppleContainer => RuntimeCheck::Status,
        },
{
    match runtime {
        ContainerRuntime::Docker => RuntimeCheck::Info,
        ContainerRuntime::AppleContainer => RuntimeCheck::Status,
    }
}

/// What follows a check: a runtime that is not up is started once, where that
/// can be done.
pub fn after_check(check: RuntimeCheck, result: Result<(), String>) -> (step: RuntimeStep)
    ensures
        match (check, result) {
            (RuntimeCheck::Start, Ok(_)) => step == RuntimeStep::Run(
                RuntimeCheck::StatusAfterStart,
            ),
            (_, Ok(_)) => step is Ready,
            (RuntimeCheck::Status, Err(_)) => step == RuntimeStep::Run(RuntimeCheck::Start),
            (RuntimeCheck::Info, Err(reason)) => step matches RuntimeStep::Fail(message)
                && message@ == "docker runtime check failed: "@ + reason@
                + ". start Docker Desktop/daemon and retry"@,
            (RuntimeCheck::Start, Err(reason)) => step matches RuntimeStep::Fail(message)
                && message@ == "container runtime start failed: "@ + reason@,
            (RuntimeCheck::StatusAfterStart, Err(reason)) => step matches RuntimeStep::Fail(
                message,
            ) && message@ == "container runtime status check failed after start: "@ + reason@,
        },
{
    match (check, result) {
        (RuntimeCheck::Start, Ok(_)) => RuntimeStep::Run(RuntimeCheck::StatusAfterStart),
        (_, Ok(_)) => RuntimeStep::Ready,
        (RuntimeCheck::Status, Err(_)) => RuntimeStep::Run(RuntimeCheck::Start),
        (RuntimeCheck::Info, Err(reason)) => RuntimeStep::Fail(
            "docker runtime check failed: ".to_owned().concat(reason.as_str()).concat(
                ". start Docker Desktop/daemon and retry",
            ),
        ),
        (RuntimeCheck::Start, Err(reason)) => RuntimeStep::Fail(
            "container runtime start failed: ".to_owned().concat(reason.as_str()),
        ),
        (RuntimeCheck::StatusAfterStart, Err(reason)) => RuntimeStep::Fail(
            "container runtime status check failed after start: ".to_owned().concat(
                reason.as_str(),
            ),
        ),
    }
}

/// What a check's command amounts to: where it failed, its exit code and the
/// ends of what it wrote.
pub fn checked_command(
    command: &str,
    succeeded: bool,
    exit_code: Option<i32>,
    stderr: &str,
    stdout: &str,
) -> (result: Result<(), String>)
    ensures
        outcome(result) == if succeeded {
            Ok::<(), Seq<char>>(())
        } else {
            Err(
                "'"@ + command@ + "' exited with code "@ + code_shown(exit_code) + "; stderr: "@
                    + tail(stderr@, 200) + "; stdout: "@ + tail(stdout@, 200),
            )
        },
{
    if succeeded {
        return Ok(());
    }
    Err(
        "'".to_owned().concat(command).concat("' exited with code ").concat(
            show_code(exit_code).as_str(),
        ).concat("; stderr: ").concat(tail_chars(stderr, 200).as_str()).concat(
            "; stdout: ",
        ).concat(tail_chars(stdout, 200).as_str()),
    )
}

/// What a command that lists containers amounts to: its output, or its exit code
/// and the end of what it complained of.
pub fn listing_output(
    command: &str,
    succeeded: bool,
    exit_code: Option<i32>,
    stdout: String,
    stderr: &str,
) -> (listing: Result<String, String>)
    ensures
        outcome(listing) == if succeeded {
            Ok::<Seq<char>, Seq<char>>(stdout@)
        } else {
            Err(
                "'"@ + command@ + "' exited with code "@ + code_shown(exit_code) + "; stderr: "@
                    + tail(stderr@, 200),
            )
        },
{
    if succeeded {
        return Ok(stdout);
    }
    Err(
        "'".to_owned().concat(command).concat("' exited with code ").concat(
            show_code(exit_code).as_str(),
        ).concat("; stderr: ").concat(tail_chars(stderr, 200).as_str()),
    )
}

/// Whether a container is one of ours.
pub open spec fn is_ours(name: Seq<char>) -> bool {
    "nanoclaw-"@.is_prefix_of(name)
}

/// Our containers among the names in a list of lines.
pub open spec fn our_lines(lines: Seq<Seq<char>>) -> Seq<Seq<char>>
    decreases lines.len(),
{
    if lines.len() == 0 {
        Seq::empty()
    } else {
        let before = our_lines(lines.drop_last());
        let name = trimmed(lines.last());
        if is_ours(name) {
            before.push(name)
        } else {
            before
        }
    }
}

/// Our containers in what `docker ps` lists.
pub fn docker_orphans(stdout: &str) -> (names: Vec<String>)
    ensures
        names.deep_view() == our_lines(lines_of(stdout@)),
{
    let all = lines(stdout);
    let ghost content = all.deep_view();
    let mut names: Vec<String> = Vec::new();
    let mut i: usize = 0;
    proof {
        assert(names.deep_view() =~= our_lines(content.take(0)));
    }
    while i < all.len()
        invariant
            i <= all@.len(),
            content == all.deep_view(),
            names.deep_view() == our_lines(content.take(i as int)),
        decreases all@.len() - i,
    {
        let ghost before = names.deep_view();
        proof {
            assert(content.take(i as int + 1).drop_last() =~= content.take(i as int));
            assert(content[i as int] == all@[i as int]@);
        }
        let name = trim(all[i].as_str());
        if begins_with(name.as_str(), "nanoclaw-") {
            names.push(name);
            proof {
                assert(names.deep_view() =~= before.push(name@));
            }
        }
        i += 1;
    }
    proof {
        assert(content.take(content.len() as int) =~= content);
    }
    names
}

/// The name of a container in a JSON listing.
pub open spec fn listed_name(item: Json) -> Option<Seq<char>> {
    let configured = match field(item, "configuration"@) {
        Some(configuration) => text_field(configuration, "id"@),
        None => None,
    };
    match configured {
        Some(name) => Some(name),
        None => match text_field(item, "name"@) {
            Some(name) => Some(name),
            None => text_field(item, "id"@),
        },
    }
}

/// The name of a container in a JSON listing.
pub fn extract_container_name(value: &JsonValue) -> (name: Option<String>)
    ensures
        name.deep_view() == listed_name(value@),
{
    if let Some(configuration) = value.get("configuration") {
        if let Some(name) = configuration.get_text("id") {
            return Some(name.to_owned());
        }
    }
    match value.get_text("name") {
        Some(name) => Some(name.to_owned()),
        None => match value.get_text("id") {
            Some(name) => Some(name.to_owned()),
            None => None,
        },
    }
}

/// Our containers among the items of a JSON listing.
pub open spec fn our_items(items: Seq<Json>) -> Seq<Seq<char>>
    decreases items.len(),
{
    if items.len() == 0 {
        Seq::empty()
    } else {
        let before = our_items(items.drop_last());
        match listed_name(items.last()) {
            Some(name) if is_ours(name) => before.push(name),
            _ => before,
        }
    }
}

/// Our containers in a JSON listing; none where it is no list.
pub fn listed_orphans(listing: &JsonValue) -> (names: Vec<String>)
    ensures
        names.deep_view() == match listing@ {
            Json::Array(items) => our_items(items),
            _ => Seq::empty(),
        },
{
    let mut names: Vec<String> = Vec::new();
    proof {
        assert(names.deep_view() =~= Seq::<Seq<char>>::empty());
    }
    let items = match listing {
        JsonValue::Array(items) => items,
        _ => {
            return names;
        },
    };
    let ghost all = items.deep_view();
    proof {
        crate::json::lemma_array_content(*items);
    }
    let mut i: usize = 0;
    proof {
        assert(names.deep_view() =~= our_items(all.take(0)));
    }
    while i < items.len()
        invariant
            i <= items@.len(),
            all == items.deep_view(),
            names.deep_view() == our_items(all.take(i as int)),
        decreases items@.len() - i,
    {
        let ghost before = names.deep_view();
        proof {
            assert(all.take(i as int + 1).drop_last() =~= all.take(i as int));
            assert(all[i as int] == items@[i as int]@);
        }
        if let Some(name) = extract_container_name(&items[i]) {
            if begins_with(name.as_str(), "nanoclaw-") {
                names.push(name);
                proof {
                    assert(names.deep_view() =~= before.push(name@));
                }
            }
        }
        i += 1;
    }
    proof {
        assert(all.take(all.len() as int) =~= all);
    }
    names
}

/// Our containers in what `container ls` lists; none where it lists nothing.
pub open spec fn apple_listing(
    stdout: Seq<char>,
    parsed: Result<Json, Seq<char>>,
) -> Result<Seq<Seq<char>>, Seq<char>> {
    if trimmed(stdout).len() == 0 {
        Ok(Seq::empty())
    } else {
        match parsed {
            Ok(Json::Array(items)) => Ok(our_items(items)),
            Ok(_) => Ok(Seq::empty()),
            Err(reason) => Err("failed to parse container list JSON: "@ + reason),
        }
    }
}

/// Our containers in what `container ls` lists.
pub fn apple_orphans(stdout: &str) -> (names: Result<Vec<String>, String>)
    ensures
        outcome(names) == apple_listing(stdout@, parsed_json(trimmed(stdout@))),
{
    let text = trim(stdout);
    if text.as_str().is_empty() {
        let none: Vec<String> = Vec::new();
        proof {
            assert(none.deep_view() =~= Seq::<Seq<char>>::empty());
        }
        return Ok(none);
    }
    match parse_json(text.as_str()) {
        Ok(listing) => Ok(listed_orphans(&listing)),
        Err(reason) => Err(
            "failed to parse container list JSON: ".to_owned().concat(reason.as_str()),
        ),
    }
}

// ---------------------------------------------------------------------------
// Laws
// ---------------------------------------------------------------------------

/// What is set is used, each setting for the thing that it names: the assistant's name,
/// the main group's folder and the modes.
pub proof fn named_settings_are_used(daemon: DaemonSettings, settings: Settings)
    requires
        follows(daemon, settings),
    ensures
        settings.contains_key("ASSISTANT_NAME"@) ==> daemon.assistant_name@
            == settings["ASSISTANT_NAME"@],
        settings.contains_key("MAIN_GROUP_FOLDER"@) ==> daemon.main_group_folder@
            == settings["MAIN_GROUP_FOLDER"@],
        settings.contains_key("AGENT_RUNNER_MODE"@) ==> daemon.agent_runner_mode@
            == settings["AGENT_RUNNER_MODE"@],
        settings.contains_key("TASK_EXECUTOR_MODE"@) ==> daemon.task_executor_mode@
            == settings["TASK_EXECUTOR_MODE"@],
        settings.contains_key("OUTBOUND_SENDER_MODE"@) ==> daemon.outbound_sender_mode@
            == settings["OUTBOUND_SENDER_MODE"@],
        !settings.contains_key("ASSISTANT_NAME"@) ==> daemon.assistant_name@ == "Andy"@,
        !settings.contains_key("MAIN_GROUP_FOLDER"@) ==> daemon.main_group_folder@ == "main"@,
{
}

/// Times are set in milliseconds, each for the thing that it names, and the limit on
/// containers is the number that is set.
pub proof fn numbers_are_used_as_set(
    daemon: DaemonSettings,
    settings: Settings,
    key: Seq<char>,
    n: nat,
)
    requires
        follows(daemon, settings),
        settings.contains_key(key),
        unsigned_value(settings[key], u64::MAX as nat) == Some(n),
    ensures
        key == "POLL_INTERVAL_MS"@ ==> daemon.poll_interval.total() == n * 1_000_000,
        key == "SCHEDULER_POLL_INTERVAL_MS"@ ==> daemon.scheduler_interval.total() == n * 1_000_000,
        key == "IDLE_TIMEOUT_MS"@ ==> daemon.idle_timeout.total() == n * 1_000_000,
        key == "IPC_POLL_INTERVAL_MS"@ ==> daemon.ipc_poll_interval.total() == n * 1_000_000,
        key == "MAX_CONCURRENT_CONTAINERS"@ && unsigned_value(settings[key], usize::MAX as nat)
            == Some(n) ==> daemon.max_concurrent == n,
{
}

/// A container's settings are used, each for the thing that it names; the directories lie
/// under the project where they are not set.
pub proof fn container_settings_are_used(
    runner: ContainerAgentRunner,
    settings: Settings,
    current_dir: Seq<char>,
    home: Option<Seq<char>>,
)
    requires
        describes_container(runner, settings, current_dir, home),
    ensures
        settings.contains_key("CONTAINER_BINARY"@) ==> runner.container_binary@
            == settings["CONTAINER_BINARY"@],
        settings.contains_key("CONTAINER_IMAGE"@) ==> runner.container_image@
            == settings["CONTAINER_IMAGE"@],
        settings.contains_key("PROJECT_ROOT"@) ==> runner.project_root@
            == settings["PROJECT_ROOT"@],
        !settings.contains_key("PROJECT_ROOT"@) ==> runner.project_root@ == current_dir,
        settings.contains_key("GROUPS_DIR"@) ==> runner.groups_dir@ == settings["GROUPS_DIR"@],
        !settings.contains_key("GROUPS_DIR"@) ==> runner.groups_dir@ == joined_path(
            runner.project_root@,
            "groups"@,
        ),
        settings.contains_key("DATA_DIR"@) ==> runner.data_dir@ == settings["DATA_DIR"@],
        !settings.contains_key("DATA_DIR"@) ==> runner.data_dir@ == joined_path(
            runner.project_root@,
            "data"@,
        ),
        settings.contains_key("MOUNT_ALLOWLIST_PATH"@) ==> runner.mount_allowlist_path.deep_view()
            == Some(settings["MOUNT_ALLOWLIST_PATH"@]),
        !settings.contains_key("MOUNT_ALLOWLIST_PATH"@) ==> runner.mount_allowlist_path is None,
{
}

/// A part that runs as a command runs the program that is set for it, with the arguments
/// that are set for it, and does not run where one of them is missing.
pub proof fn command_is_the_one_set(
    settings: Settings,
    part: Seq<char>,
    program: Seq<char>,
    args: Seq<Seq<char>>,
)
    ensures
        command_setting(settings, part) == Ok::<(Seq<char>, Seq<Seq<char>>), Seq<char>>(
            (program, args),
        ) <==> {
            &&& settings.contains_key(part + "_PROGRAM"@)
            &&& settings[part + "_PROGRAM"@] == program
            &&& settings.contains_key(part + "_ARGS_JSON"@)
            &&& parsed_texts(settings[part + "_ARGS_JSON"@]) == Ok::<Seq<Seq<char>>, Seq<char>>(
                args,
            )
        },
{
}

/// A flag is on or off as its word says, in any case, and as usual where it says neither.
pub proof fn flags_follow_their_words(settings: Settings, key: Seq<char>, usual: bool)
    ensures
        !settings.contains_key(key) ==> flag_or(settings, key, usual) == usual,
        settings.contains_key(key) && ascii_lower(trimmed(settings[key])) == "true"@ ==> flag_or(
            settings,
            key,
            usual,
        ),
        settings.contains_key(key) && ascii_lower(trimmed(settings[key])) == "false"@ ==> !flag_or(
            settings,
            key,
            usual,
        ),
        flag_or(settings, key, true) != flag_or(settings, key, false) ==> flag_or(
            settings,
            key,
            usual,
        ) == usual,
{
    reveal_strlit("1");
    reveal_strlit("true");
    reveal_strlit("yes");
    reveal_strlit("on");
    reveal_strlit("false");
    assert("false"@.len() == 5);
    assert("true"@.len() == 4 && "yes"@.len() == 3 && "on"@.len() == 2 && "1"@.len() == 1);
}

/// Messages go out with the bot's own token, without white space around it; without one
/// they do not go out.
pub proof fn bot_needs_its_token(config: DiscordChannelConfig, settings: Settings, name: Seq<char>)
    requires
        describes_discord(config, settings, name),
    ensures
        settings.contains_key("DISCORD_BOT_TOKEN"@),
        config.bot_token@ == trimmed(settings["DISCORD_BOT_TOKEN"@]),
        config.bot_token@.len() > 0,
        config.assistant_name@ == name,
{
}

/// Just the containers that this program started are left-overs of it, and all of them.
pub proof fn only_own_containers_are_ours(lines: Seq<Seq<char>>)
    ensures
        forall|i: int|
            0 <= i < our_lines(lines).len() ==> "nanoclaw-"@.is_prefix_of(
                #[trigger] our_lines(lines)[i],
            ),
        forall|k: int|
            0 <= k < lines.len() && "nanoclaw-"@.is_prefix_of(trimmed(#[trigger] lines[k]))
                ==> our_lines(lines).contains(trimmed(lines[k])),
    decreases lines.len(),
{
    if lines.len() > 0 {
        let rest = lines.drop_last();
        let before = our_lines(rest);
        let all = our_lines(lines);
        only_own_containers_are_ours(rest);
        assert forall|i: int| 0 <= i < all.len() implies "nanoclaw-"@.is_prefix_of(
            #[trigger] all[i],
        ) by {
            if i < before.len() {
                assert(all[i] == before[i]);
            }
        }
        assert forall|k: int|
            0 <= k < lines.len() && "nanoclaw-"@.is_prefix_of(
                trimmed(#[trigger] lines[k]),
            ) implies all.contains(trimmed(lines[k])) by {
            if k < rest.len() {
                assert(rest[k] == lines[k]);
                let i = choose|i: int| 0 <= i < before.len() && before[i] == trimmed(rest[k]);
                assert(all[i] == before[i]);
            } else {
                assert(all[before.len() as int] == trimmed(lines[k]));
            }
        }
    }
}

/// The same of containers that are listed as values.
pub proof fn only_own_items_are_ours(items: Seq<Json>)
    ensures
        forall|i: int|
            0 <= i < our_items(items).len() ==> "nanoclaw-"@.is_prefix_of(
                #[trigger] our_items(items)[i],
            ),
        forall|k: int|
            0 <= k < items.len() && (listed_name(#[trigger] items[k]) matches Some(name)
                && "nanoclaw-"@.is_prefix_of(name)) ==> our_items(items).contains(
                listed_name(items[k])->Some_0,
            ),
    decreases items.len(),
{
    if items.len() > 0 {
        let rest = items.drop_last();
        let before = our_items(rest);
        let all = our_items(items);
        only_own_items_are_ours(rest);
        assert forall|i: int| 0 <= i < all.len() implies "nanoclaw-"@.is_prefix_of(
            #[trigger] all[i],
        ) by {
            if i < before.len() {
                assert(all[i] == before[i]);
            }
        }
        assert forall|k: int|
            0 <= k < items.len() && (listed_name(#[trigger] items[k]) matches Some(name)
                && "nanoclaw-"@.is_prefix_of(name)) implies all.contains(
            listed_name(items[k])->Some_0,
        ) by {
            let name = listed_name(items[k])->Some_0;
            if k < rest.len() {
                assert(rest[k] == items[k]);
                let i = choose|i: int| 0 <= i < before.len() && before[i] == name;
                assert(all[i] == before[i]);
            } else {
                assert(all[before.len() as int] == name);
            }
        }
    }
}

/// A program named after Docker is run as Docker, and any other as the container tool.
pub proof fn runtime_is_told_by_its_program(binary: Seq<char>, name: Seq<char>)
    requires
        file_name_of(binary) == Some(name),
    ensures
        contains_text(ascii_lower(name), "docker"@) ==> runtime_of(binary)
            == ContainerRuntime::Docker,
        !contains_text(ascii_lower(name), "docker"@) ==> runtime_of(binary)
            == ContainerRuntime::AppleContainer,
{
}

/// A runtime is ready just where a check of it succeeds, and starting it is no such check.
pub proof fn runtime_is_ready_when_checked(
    check: RuntimeCheck,
    result: Result<(), String>,
    step: RuntimeStep,
)
    requires
        call_ensures(after_check, (check, result), step),
    ensures
        step is Ready <==> result is Ok && check != RuntimeCheck::Start,
        step is Fail ==> result is Err && contains_text(step->Fail_0@, result->Err_0@),
        step == RuntimeStep::Run(RuntimeCheck::Start) ==> check == RuntimeCheck::Status,
{
    match (check, result) {
        (RuntimeCheck::Info, Err(reason)) => {
            let head = "docker runtime check failed: "@;
            let text = step->Fail_0@;
            let at = head.len() as int;
            assert(text.subrange(at, at + reason@.len()) =~= reason@);
            assert(occurs_at(text, reason@, at));
        },
        (RuntimeCheck::Start, Err(reason)) => {
            let text = step->Fail_0@;
            let at = text.len() - reason@.len();
            assert(text.subrange(at, at + reason@.len()) =~= reason@);
            assert(occurs_at(text, reason@, at));
        },
        (RuntimeCheck::StatusAfterStart, Err(reason)) => {
            let text = step->Fail_0@;
            let at = text.len() - reason@.len();
            assert(text.subrange(at, at + reason@.len()) =~= reason@);
            assert(occurs_at(text, reason@, at));
        },
        _ => {},
    }
}

/// A container in a listing is known by the id of its configuration, else by its name, else
/// by its id.
pub proof fn listed_container_is_named(item: Json, configuration: Json, name: Seq<char>)
    ensures
        field(item, "configuration"@) == Some(configuration) && text_field(configuration, "id"@)
            == Some(name) ==> listed_name(item) == Some(name),
        field(item, "configuration"@) is None && text_field(item, "name"@) == Some(name)
            ==> listed_name(item) == Some(name),
        field(item, "configuration"@) is None && text_field(item, "name"@) is None
            ==> listed_name(item) == text_field(item, "id"@),
{
}

/// Every container of ours that is listed is found, and nothing is found in a blank list.
pub proof fn listed_containers_are_found(
    stdout: Seq<char>,
    items: Seq<Json>,
    reason: Seq<char>,
    k: int,
)
    requires
        trimmed(stdout).len() > 0,
    ensures
        apple_listing(stdout, Ok(Json::Array(items))) is Ok,
        0 <= k < items.len() && (listed_name(items[k]) matches Some(name)
            && "nanoclaw-"@.is_prefix_of(name)) ==> apple_listing(
            stdout,
            Ok(Json::Array(items)),
        )->Ok_0.contains(listed_name(items[k])->Some_0),
        apple_listing(stdout, Err(reason)) is Err,
        apple_listing(Seq::empty(), Err(reason)) == Ok::<Seq<Seq<char>>, Seq<char>>(Seq::empty()),
{
    only_own_items_are_ours(items);
    assert(trimmed(Seq::<char>::empty()).len() == 0);
}

/// A time that is given is taken as it is read, and one that cannot be read is named.
pub proof fn given_times_are_taken(raw: Seq<char>, t: Timestamp)
    ensures
        rfc3339_instant(raw) == Ok::<Timestamp, Seq<char>>(t) ==> given_instant(raw) == Ok::<
            Timestamp,
            Seq<char>,
        >(t),
        rfc3339_instant(raw) is Err ==> given_instant(raw) is Err && contains_text(
            given_instant(raw)->Err_0,
            raw,
        ),
{
    if rfc3339_instant(raw) is Err {
        let text = given_instant(raw)->Err_0;
        let at = "invalid RFC3339 timestamp '"@.len() as int;
        assert(text.subrange(at, at + raw.len()) =~= raw);
        assert(occurs_at(text, raw, at));
    }
}

} // verus!
