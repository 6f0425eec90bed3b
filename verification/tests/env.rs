use rust_claw::agent_runner_command::MarkerCommandAgentRunner;
use rust_claw::duration::Duration;
use rust_claw::env_file::{parse_env_content, read_env_file, read_env_var};
use rust_claw::ipc_watcher::read_payload;
use rust_claw::name_map::NameMap;
use rust_claw::settings::{
    after_check, apple_orphans, auto_registered_main_group, build_agent_runner,
    build_inbound_bridge, build_outbound_sender, build_task_executor, checked_command,
    created_task_next_run,
    daemon_settings, data_dir_from_env, db_path_from_env, default_trigger,
    detect_container_runtime, docker_orphans, extract_container_name, first_check, listing_output,
    parse_timestamp,
    read_bool, read_u64, read_usize, AgentRunnerPlan, ContainerRuntime, OutboundPlan,
    RuntimeCheck, RuntimeStep, TaskExecutorPlan,
};
use rust_claw::timestamp::Timestamp;
use rust_claw::types::TaskStatus;

fn settings(pairs: &[(&str, &str)]) -> NameMap<String> {
    let mut map = NameMap::new();
    for (key, value) in pairs {
        map.insert(key, value.to_string());
    }
    map
}

#[test]
fn parse_env_content_reads_comments_quotes_and_equals() {
    let parsed = parse_env_content(
        r#"
              # comment
              ASSISTANT_NAME=Andy
              OPENAI_API_KEY="sk-openai-123"
              EXTRA='hello=world'
            "#,
    );

    assert_eq!(
        parsed.get("ASSISTANT_NAME").map(String::as_str),
        Some("Andy")
    );
    assert_eq!(
        parsed.get("OPENAI_API_KEY").map(String::as_str),
        Some("sk-openai-123")
    );
    assert_eq!(parsed.get("EXTRA").map(String::as_str), Some("hello=world"));
}

#[test]
fn parse_env_content_skips_invalid_or_empty_lines() {
    let parsed = parse_env_content(
        r#"
              INVALID_LINE
              EMPTY=
              =novalue
              VALID=yes
            "#,
    );

    assert_eq!(parsed.len(), 1);
    assert_eq!(parsed.get("VALID").map(String::as_str), Some("yes"));
}

#[test]
fn later_lines_replace_earlier_ones() {
    let parsed = parse_env_content("A=1\r\nA = \"2\"\nB='\"x\"'\n");
    assert_eq!(parsed.get("A").map(String::as_str), Some("2"));
    assert_eq!(parsed.get("B").map(String::as_str), Some("\"x\""));
    let found = read_env_file(&parsed, &vec!["A", "C"]);
    assert_eq!(found.len(), 1);
    assert_eq!(found.get("A").map(String::as_str), Some("2"));
    assert_eq!(
        read_env_var(Some("env".to_string()), &parsed, "A").as_deref(),
        Some("env")
    );
    assert_eq!(read_env_var(None, &parsed, "A").as_deref(), Some("2"));
    assert_eq!(read_env_var(None, &parsed, "C"), None);
}

#[test]
fn settings_have_defaults() {
    let none = settings(&[]);
    assert_eq!(read_u64(&none, "N", 7), 7);
    let some = settings(&[("N", "42"), ("BAD", "x"), ("YES", "On"), ("NO", "0")]);
    assert_eq!(read_u64(&some, "N", 7), 42);
    assert_eq!(read_u64(&some, "BAD", 7), 7);
    assert_eq!(read_usize(&some, "N", 7), 42);
    assert!(read_bool(&some, "YES", false));
    assert!(!read_bool(&some, "NO", true));
    assert!(read_bool(&some, "BAD", true));
    let daemon = daemon_settings(&none);
    assert_eq!(daemon.assistant_name, "Andy");
    assert_eq!(daemon.main_group_folder, "main");
    assert_eq!(daemon.poll_interval, Duration::from_millis(2_000));
    assert_eq!(daemon.scheduler_interval, Duration::from_millis(60_000));
    assert_eq!(daemon.agent_runner_mode, "container");
    assert_eq!(daemon.outbound_sender_mode, "discord");
    assert_eq!(db_path_from_env(&none), "store/messages.db");
    assert_eq!(data_dir_from_env(&none, "/cwd"), "/cwd/data");
    assert_eq!(default_trigger(&none), "@Andy");
    assert_eq!(
        default_trigger(&settings(&[("ASSISTANT_NAME", "Bot")])),
        "@Bot"
    );
}

/// Runs the checks of a container runtime whose commands all end alike.
fn check_runtime(binary: &str, result: Result<(), String>) -> Result<(), String> {
    let mut check = first_check(detect_container_runtime(binary));
    loop {
        match after_check(check, result.clone()) {
            RuntimeStep::Ready => return Ok(()),
            RuntimeStep::Run(next) => check = next,
            RuntimeStep::Fail(message) => return Err(message),
        }
    }
}

#[test]
fn run_default_mode_uses_container_runner() {
    let settings = settings(&[
        ("CONTAINER_BINARY", "false"),
        ("OUTBOUND_SENDER_MODE", "discord"),
        ("DISCORD_BOT_TOKEN", ""),
    ]);
    let mode = daemon_settings(&settings).agent_runner_mode;
    let binary = match build_agent_runner(&mode, &settings, "/cwd", None).expect("runner") {
        AgentRunnerPlan::Container(runner) => runner.container_binary,
        _ => panic!("container runner expected"),
    };
    assert_eq!(binary, "false");
    let stderr = check_runtime(&binary, Err("exit code Some(1)".to_string())).expect_err("fails");
    assert!(
        stderr.contains("docker runtime check failed")
            || stderr.contains("container runtime start failed"),
        "{stderr}"
    );
}

#[test]
fn run_default_mode_requires_discord_token() {
    let settings = settings(&[
        ("CONTAINER_BINARY", "true"),
        ("OUTBOUND_SENDER_MODE", "discord"),
        ("DISCORD_BOT_TOKEN", ""),
    ]);
    assert_eq!(check_runtime("true", Ok(())), Ok(()));
    let daemon = daemon_settings(&settings);
    let stderr =
        build_outbound_sender(&daemon.outbound_sender_mode, &settings, &daemon.assistant_name)
            .map(|_| ())
            .expect_err("no token");
    assert!(
        stderr.contains("DISCORD_BOT_TOKEN is required"),
        "{stderr}"
    );
}

#[test]
fn runtimes_are_checked_step_by_step() {
    assert!(matches!(
        detect_container_runtime("/usr/bin/docker"),
        ContainerRuntime::Docker
    ));
    assert!(matches!(
        detect_container_runtime("container"),
        ContainerRuntime::AppleContainer
    ));
    assert!(matches!(
        first_check(ContainerRuntime::Docker),
        RuntimeCheck::Info
    ));
    assert!(matches!(
        after_check(RuntimeCheck::Status, Err("down".to_string())),
        RuntimeStep::Run(RuntimeCheck::Start)
    ));
    assert!(matches!(
        after_check(RuntimeCheck::Start, Ok(())),
        RuntimeStep::Run(RuntimeCheck::StatusAfterStart)
    ));
    assert!(matches!(
        after_check(RuntimeCheck::StatusAfterStart, Ok(())),
        RuntimeStep::Ready
    ));
}

#[test]
fn orphans_are_found_in_listings() {
    assert_eq!(
        docker_orphans("nanoclaw-a\nother\n nanoclaw-b \n"),
        vec!["nanoclaw-a".to_string(), "nanoclaw-b".to_string()]
    );
    let listing = r#"[{"configuration":{"id":"nanoclaw-a"}},{"name":"nanoclaw-b"},{"id":"other"},{}]"#;
    assert_eq!(
        apple_orphans(listing),
        Ok(vec!["nanoclaw-a".to_string(), "nanoclaw-b".to_string()])
    );
    assert!(apple_orphans("no json").is_err());
    let value = read_payload(r#"{"configuration": {"id": "x"}}"#, "inline").expect("json");
    assert_eq!(extract_container_name(&value).as_deref(), Some("x"));
}

#[test]
fn modes_choose_their_parts() {
    let none = settings(&[]);
    assert!(matches!(
        build_agent_runner("echo", &none, "/cwd", None),
        Ok(AgentRunnerPlan::Echo)
    ));
    assert!(build_agent_runner("magic", &none, "/cwd", None).is_err());
    assert!(build_agent_runner("command", &none, "/cwd", None).is_err());
    let command = settings(&[
        ("AGENT_RUNNER_PROGRAM", "sh"),
        ("AGENT_RUNNER_ARGS_JSON", r#"["-c", "x"]"#),
    ]);
    match build_agent_runner("command", &command, "/cwd", None) {
        Ok(AgentRunnerPlan::Command(MarkerCommandAgentRunner {
            program,
            args_template,
            ..
        })) => {
            assert_eq!(program, "sh");
            assert_eq!(args_template, vec!["-c".to_string(), "x".to_string()]);
        }
        _ => panic!("command runner expected"),
    }
    assert!(matches!(
        build_task_executor("agent", &none),
        Ok(TaskExecutorPlan::Agent)
    ));
    assert!(matches!(
        build_task_executor("echo", &none),
        Ok(TaskExecutorPlan::Echo)
    ));
    assert!(build_task_executor("magic", &none).is_err());
    assert!(matches!(
        build_outbound_sender("stdout", &none, "Andy"),
        Ok(OutboundPlan::Stdout)
    ));
    assert!(matches!(
        build_outbound_sender("discord", &settings(&[("DISCORD_BOT_TOKEN", "t")]), "Andy"),
        Ok(OutboundPlan::Discord(_))
    ));
    assert!(matches!(build_inbound_bridge(&none), Ok(None)));
}

#[test]
fn main_group_is_registered_where_asked() {
    let none = settings(&[]);
    let daemon = daemon_settings(&none);
    assert!(auto_registered_main_group(&none, true, &daemon, "t".to_string()).is_none());
}

#[test]
fn timestamps_are_read_and_first_runs_chosen() {
    let instant = Timestamp {
        seconds: 1_771_459_200,
        nanos: 0,
    };
    assert_eq!(parse_timestamp("2026-02-19T00:00:00Z"), Ok(instant));
    assert_eq!(parse_timestamp("2026-02-19T09:00:00+09:00"), Ok(instant));
    assert!(parse_timestamp("soon").is_err());
    let later = Timestamp {
        seconds: 1_771_459_201,
        nanos: 0,
    };
    assert_eq!(
        created_task_next_run(Some(Ok(later)), TaskStatus::Active, instant),
        Ok(Some(later))
    );
    assert_eq!(
        created_task_next_run(None, TaskStatus::Active, instant),
        Ok(Some(instant))
    );
    assert_eq!(
        created_task_next_run(None, TaskStatus::Paused, instant),
        Ok(None)
    );
    assert_eq!(
        created_task_next_run(Some(Err("bad".to_string())), TaskStatus::Active, instant),
        Err("bad".to_string())
    );
}

#[test]
fn command_results_are_described() {
    assert_eq!(checked_command("docker info", true, Some(0), "", ""), Ok(()));
    assert_eq!(
        checked_command("docker info", false, Some(1), "bad", "out"),
        Err("'docker info' exited with code Some(1); stderr: bad; stdout: out".to_string())
    );
    assert_eq!(
        listing_output("docker ps", true, Some(0), "a".to_string(), ""),
        Ok("a".to_string())
    );
    assert_eq!(
        listing_output("docker ps", false, None, String::new(), &"e".repeat(300)),
        Err(format!(
            "'docker ps' exited with code None; stderr: {}",
            "e".repeat(200)
        ))
    );
}
