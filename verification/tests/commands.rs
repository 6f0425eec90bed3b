use rust_claw::agent_runner_command::MarkerCommandAgentRunner;
use rust_claw::command_executor::MarkerCommandExecutor;
use rust_claw::container_runner::{
    conclude_command, parse_all_outputs, parse_last_output, CommandRunError, CommandRunRequest,
    CommandRunResult, ContainerOutput, ContainerOutputStatus, OutputMarkerParser,
    OUTPUT_END_MARKER, OUTPUT_START_MARKER,
};
use rust_claw::duration::Duration;
use rust_claw::inbound_bridge::{CommandInboundBridge, InboundBridgeEvent};
use rust_claw::orchestrator::agent::{process_folder, AgentProcessEvent, AgentRunInput};
use rust_claw::outbound_command::CommandOutboundSender;
use rust_claw::timestamp::Timestamp;
use rust_claw::types::{
    ContextMode, NewMessage, RegisteredGroup, ScheduleType, ScheduledTask, TaskStatus,
};

fn text(value: &serde_json::Value, key: &str) -> Option<String> {
    value.get(key).and_then(|v| v.as_str()).map(str::to_string)
}

fn decode(payload: &str) -> Result<ContainerOutput, String> {
    let value: serde_json::Value = serde_json::from_str(payload).map_err(|e| e.to_string())?;
    let status = match text(&value, "status").as_deref() {
        Some("success") => ContainerOutputStatus::Success,
        Some("error") => ContainerOutputStatus::Error,
        _ => return Err("bad status".to_string()),
    };
    Ok(ContainerOutput {
        status,
        result: text(&value, "result"),
        new_session_id: text(&value, "newSessionId"),
        error: text(&value, "error"),
    })
}

/// What a command that printed the given lines and ended well comes to.
fn ran(lines: &[&str]) -> Result<CommandRunResult, CommandRunError> {
    let stdout = format!("{}\n", lines.join("\n"));
    let (outputs, parse_errors) = parse_all_outputs(&stdout, &decode);
    conclude_command(true, Some(0), stdout, String::new(), outputs, parse_errors)
}

fn failed(code: i32, stderr: &str) -> Result<CommandRunResult, CommandRunError> {
    conclude_command(false, Some(code), String::new(), stderr.to_string(), vec![], vec![])
}

fn input() -> AgentRunInput {
    AgentRunInput {
        group: RegisteredGroup {
            name: "Main".to_string(),
            folder: "main".to_string(),
            trigger: "@Andy".to_string(),
            added_at: "2026-02-19T00:00:00.000Z".to_string(),
            container_config: None,
            requires_trigger: Some(false),
        },
        prompt: "<messages><message>hello</message></messages>".to_string(),
        session_id: Some("s-1".to_string()),
        group_folder: "main".to_string(),
        chat_jid: "123456789012345678@discord".to_string(),
        is_main: true,
        is_scheduled_task: false,
    }
}

fn runner() -> MarkerCommandAgentRunner {
    MarkerCommandAgentRunner {
        program: "sh".to_string(),
        args_template: vec![],
        timeout: Duration::from_secs(2),
    }
}

fn executor() -> MarkerCommandExecutor {
    MarkerCommandExecutor {
        program: "sh".to_string(),
        args_template: vec![],
        timeout: Duration::from_secs(2),
    }
}

fn sample_task() -> ScheduledTask {
    let now = Timestamp {
        seconds: 1_771_459_200,
        nanos: 0,
    };
    ScheduledTask {
        id: "task-1".to_string(),
        group_folder: "main".to_string(),
        chat_jid: "group@g.us".to_string(),
        prompt: "hello world".to_string(),
        schedule_type: ScheduleType::Once,
        schedule_value: "once".to_string(),
        context_mode: ContextMode::Isolated,
        next_run: Some(now),
        last_run: None,
        last_result: None,
        status: TaskStatus::Active,
        created_at: now,
    }
}

#[test]
fn build_request_replaces_templates() {
    let runner = MarkerCommandAgentRunner {
        program: "echo".to_string(),
        args_template: vec![
            "{group_name}".to_string(),
            "{group_folder}".to_string(),
            "{chat_jid}".to_string(),
            "{session_id}".to_string(),
            "{is_main}".to_string(),
        ],
        timeout: Duration::from_secs(1),
    };

    let request = runner.build_request(&input());
    assert_eq!(
        request.args,
        vec!["Main", "main", "123456789012345678@discord", "s-1", "true"]
    );
}

#[test]
fn run_returns_output_from_success_marker() {
    let output = runner()
        .conclude(
            ran(&[
                "---NANOCLAW_OUTPUT_START---",
                "{\"status\":\"success\",\"result\":\"ok\",\"newSessionId\":\"s-2\",\"error\":null}",
                "---NANOCLAW_OUTPUT_END---",
            ]),
            &input().session_id,
        )
        .expect("run output");
    assert_eq!(output.result.as_deref(), Some("ok"));
    assert_eq!(output.new_session_id.as_deref(), Some("s-2"));
}

#[test]
fn run_returns_error_from_error_marker() {
    let error = runner()
        .conclude(
            ran(&[
                "---NANOCLAW_OUTPUT_START---",
                "{\"status\":\"error\",\"result\":null,\"newSessionId\":null,\"error\":\"boom\"}",
                "---NANOCLAW_OUTPUT_END---",
            ]),
            &input().session_id,
        )
        .map(|_| ())
        .expect_err("expected error");
    assert_eq!(error, "boom");
}

#[test]
fn build_request_replaces_supported_placeholders() {
    let executor = MarkerCommandExecutor {
        program: "echo".to_string(),
        args_template: vec![
            "{task_id}".to_string(),
            "{group_folder}".to_string(),
            "{chat_jid}".to_string(),
            "{prompt}".to_string(),
            "{schedule_value}".to_string(),
        ],
        timeout: Duration::from_secs(2),
    };

    let request = executor.build_request(&sample_task());
    assert_eq!(
        request.args,
        vec!["task-1", "main", "group@g.us", "hello world", "once"]
    );
}

#[test]
fn execute_task_returns_marker_success_result() {
    let execution = executor().conclude(ran(&[
        "---NANOCLAW_OUTPUT_START---",
        "{\"status\":\"success\",\"result\":\"done\",\"newSessionId\":null,\"error\":null}",
        "---NANOCLAW_OUTPUT_END---",
    ]));
    assert_eq!(execution.result.as_deref(), Some("done"));
    assert!(execution.error.is_none());
}

#[test]
fn execute_task_returns_marker_error() {
    let execution = executor().conclude(ran(&[
        "---NANOCLAW_OUTPUT_START---",
        "{\"status\":\"error\",\"result\":null,\"newSessionId\":null,\"error\":\"boom\"}",
        "---NANOCLAW_OUTPUT_END---",
    ]));
    assert!(execution.result.is_none());
    assert_eq!(execution.error.as_deref(), Some("boom"));
}

#[test]
fn execute_task_returns_non_zero_exit_error() {
    let execution = executor().conclude(failed(3, "bad\n"));
    assert!(execution.result.is_none());
    assert!(execution
        .error
        .as_deref()
        .unwrap_or_default()
        .contains("command exited with code"));
}

#[test]
fn marker_parser_parses_chunked_outputs() {
    let mut parser = OutputMarkerParser::default();
    let chunk1 = "---NANOCLAW_OUTPUT_";
    let chunk2 = "START---\n{\"status\":\"success\",\"result\":\"hello\",\"newSessionId\":\"s1\",\"error\":null}\n---NANOCLAW_OUTPUT_END---";

    let first = parser.push_chunk(chunk1, &decode);
    assert!(first.is_empty());

    let second = parser.push_chunk(chunk2, &decode);
    assert_eq!(second.len(), 1);
    assert_eq!(
        second[0],
        Ok(ContainerOutput {
            status: ContainerOutputStatus::Success,
            result: Some("hello".to_string()),
            new_session_id: Some("s1".to_string()),
            error: None,
        })
    );
}

#[test]
fn marker_parser_reports_json_errors_and_continues() {
    let mut parser = OutputMarkerParser::default();
    let payload = format!(
        "{start}\nnot-json\n{end}\n{start}\n{{\"status\":\"error\",\"result\":null,\"newSessionId\":null,\"error\":\"boom\"}}\n{end}",
        start = OUTPUT_START_MARKER,
        end = OUTPUT_END_MARKER
    );

    let parsed = parser.push_chunk(&payload, &decode);
    assert_eq!(parsed.len(), 2);
    assert!(parsed[0].is_err());
    assert_eq!(
        parsed[1],
        Ok(ContainerOutput {
            status: ContainerOutputStatus::Error,
            result: None,
            new_session_id: None,
            error: Some("boom".to_string()),
        })
    );
}

#[test]
fn parse_last_output_uses_fallback_line_when_no_markers() {
    let stdout = "debug line\n{\"status\":\"success\",\"result\":\"ok\",\"newSessionId\":null,\"error\":null}\n";
    let parsed = parse_last_output(stdout, &decode).expect("parse output");
    assert_eq!(parsed.status, ContainerOutputStatus::Success);
    assert_eq!(parsed.result.as_deref(), Some("ok"));
}

#[test]
fn run_command_collects_marker_outputs() {
    let result = ran(&[
        OUTPUT_START_MARKER,
        "{\"status\":\"success\",\"result\":\"hello\",\"newSessionId\":\"sess-1\",\"error\":null}",
        OUTPUT_END_MARKER,
    ])
    .expect("run command");

    assert_eq!(result.outputs.len(), 1);
    assert_eq!(result.outputs[0].result.as_deref(), Some("hello"));
    assert!(result.parse_errors.is_empty());
}

#[test]
fn last_output_prefers_the_last_marked_one() {
    let marked = |payload: &str| format!("{OUTPUT_START_MARKER}{payload}{OUTPUT_END_MARKER}");
    let one = marked("{\"status\":\"success\",\"result\":\"one\"}");
    let two = marked("{\"status\":\"success\",\"result\":\"two\"}");
    let stdout = format!("{one}noise{two}tail");
    let last = parse_last_output(&stdout, &decode).expect("output");
    assert_eq!(last.result.as_deref(), Some("two"));
    let none = parse_last_output("", &decode).expect_err("nothing");
    assert_eq!(none, "no output found");
    assert!(parse_last_output("no json", &decode)
        .expect_err("no json")
        .starts_with("failed to parse fallback output line as JSON: "));
}

#[test]
fn chunks_may_be_cut_anywhere() {
    let text = format!(
        "a{OUTPUT_START_MARKER} 한글 {OUTPUT_END_MARKER}b{OUTPUT_START_MARKER}2{OUTPUT_END_MARKER}{OUTPUT_START_MARKER}open"
    );
    let mut whole = OutputMarkerParser::default();
    let expected = whole.push_payloads(&text);
    assert_eq!(expected, vec!["한글".to_string(), "2".to_string()]);
    let mut parts = OutputMarkerParser::default();
    let mut found = Vec::new();
    for c in text.chars() {
        found.extend(parts.push_payloads(&c.to_string()));
    }
    assert_eq!(found, expected);
    assert_eq!(
        parts.push_payloads(OUTPUT_END_MARKER),
        vec!["open".to_string()]
    );
}

#[test]
fn failures_are_described() {
    let timeout = CommandRunError::Timeout {
        timeout: Duration::from_millis(1_500),
    };
    assert_eq!(timeout.message(), "process timed out after 1500ms");
    let spawn = CommandRunError::SpawnFailed("none".to_string());
    assert_eq!(spawn.message(), "failed to spawn process: none");
    let long = format!("{}{}", "x".repeat(50), "y".repeat(500));
    match failed(3, &long) {
        Err(CommandRunError::NonZeroExit {
            exit_code,
            stderr_tail,
            stdout_tail,
        }) => {
            assert_eq!(exit_code, Some(3));
            assert_eq!(stderr_tail, "y".repeat(200));
            assert_eq!(stdout_tail, "");
        }
        other => panic!("{other:?}"),
    }
    let execution = executor().conclude(Err(timeout));
    assert_eq!(
        execution.error.as_deref(),
        Some("command timed out after 1500ms")
    );
}

#[test]
fn build_request_replaces_placeholders() {
    let sender = CommandOutboundSender {
        program: "echo".to_string(),
        args_template: vec!["to={jid}".to_string(), "msg={text}".to_string()],
        timeout: Duration::from_secs(1),
    };

    let request = sender.build_request("group@g.us", "hello");
    assert_eq!(request.args, vec!["to=group@g.us", "msg=hello"]);
}

fn outbound() -> CommandOutboundSender {
    CommandOutboundSender {
        program: "sh".to_string(),
        args_template: vec![],
        timeout: Duration::from_secs(1),
    }
}

#[test]
fn send_succeeds_when_command_exits_zero() {
    let result = outbound().conclude(ran(&[]));
    assert!(result.is_ok());
}

#[test]
fn send_fails_when_command_exits_nonzero() {
    let result = outbound().conclude(failed(3, "bad\n"));
    assert!(result.is_err());
}

fn bridge() -> CommandInboundBridge {
    CommandInboundBridge {
        program: "sh".to_string(),
        args: vec![],
    }
}

fn decode_event(line: &str) -> Result<InboundBridgeEvent, String> {
    let value: serde_json::Value = serde_json::from_str(line).map_err(|e| e.to_string())?;
    match text(&value, "type").as_deref() {
        Some("chat_metadata") => Ok(InboundBridgeEvent::ChatMetadata {
            chat_jid: text(&value, "chat_jid").ok_or("chat_jid")?,
            timestamp: text(&value, "timestamp").ok_or("timestamp")?,
            name: text(&value, "name"),
        }),
        Some("message") => {
            let message = value.get("message").ok_or("message")?;
            Ok(InboundBridgeEvent::Message {
                message: NewMessage {
                    id: text(message, "id").ok_or("id")?,
                    chat_jid: text(message, "chat_jid").ok_or("chat_jid")?,
                    sender: text(message, "sender").ok_or("sender")?,
                    sender_name: text(message, "sender_name").ok_or("sender_name")?,
                    content: text(message, "content").ok_or("content")?,
                    timestamp: text(message, "timestamp").ok_or("timestamp")?,
                    is_from_me: false,
                    is_bot_message: false,
                },
            })
        }
        _ => Err("type".to_string()),
    }
}

fn bridge_events(stdout: &str) -> Result<Vec<InboundBridgeEvent>, String> {
    let bridge = bridge();
    let mut events = Vec::new();
    for line in stdout.lines() {
        if let Some(text) = bridge.event_text(line) {
            events.push(bridge.line_event(&text, decode_event(&text))?);
        }
    }
    bridge.conclude(false, true, Some(0), "")?;
    Ok(events)
}

#[test]
fn reads_message_and_metadata_events_from_stdout() {
    let snapshot = bridge_events(
        "{\"type\":\"chat_metadata\",\"chat_jid\":\"group@g.us\",\"timestamp\":\"2026-02-19T00:00:00.000Z\",\"name\":\"Group\"}\n\
         {\"type\":\"message\",\"message\":{\"id\":\"m1\",\"chat_jid\":\"group@g.us\",\"sender\":\"u1\",\"sender_name\":\"Alice\",\"content\":\"hello\",\"timestamp\":\"2026-02-19T00:00:01.000Z\",\"is_from_me\":false,\"is_bot_message\":false}}\n",
    )
    .expect("bridge run");
    assert_eq!(snapshot.len(), 2);
    assert!(matches!(
        snapshot[0],
        InboundBridgeEvent::ChatMetadata { .. }
    ));
    assert!(matches!(snapshot[1], InboundBridgeEvent::Message { .. }));
}

#[test]
fn returns_error_on_invalid_json_event() {
    let result = bridge_events("not-json\n");
    assert!(result.is_err());
}

#[test]
fn bridge_ends_as_its_command_ended() {
    let bridge = bridge();
    assert_eq!(bridge.event_text("  "), None);
    assert_eq!(bridge.event_text(" x "), Some("x".to_string()));
    assert_eq!(bridge.conclude(true, false, Some(1), "bad"), Ok(()));
    assert!(bridge
        .conclude(false, false, Some(1), "bad")
        .expect_err("failed")
        .contains("bad"));
}

#[test]
fn process_events_fall_back_to_the_group() {
    let named = AgentProcessEvent {
        process_id: Some(1),
        container_name: None,
        group_folder: Some("dev".to_string()),
    };
    let unnamed = AgentProcessEvent {
        process_id: None,
        container_name: None,
        group_folder: None,
    };
    assert_eq!(process_folder(&named, "main"), "dev");
    assert_eq!(process_folder(&unnamed, "main"), "main");
}

#[test]
fn requests_carry_program_and_timeout() {
    let request = outbound().build_request("j", "t");
    assert_eq!(
        request,
        CommandRunRequest {
            program: "sh".to_string(),
            args: vec![],
            timeout: Duration::from_secs(1),
        }
    );
}

fn block(payload: &str) -> String {
    format!("{OUTPUT_START_MARKER}\n{payload}\n{OUTPUT_END_MARKER}")
}

#[test]
fn outputs_of_two_texts_follow_one_another() {
    let good = |result: &str| block(&format!(r#"{{"status": "success", "result": "{result}"}}"#));
    let first = format!("noise{}{}", good("a"), block("no json"));
    let second = format!("{} more {}", good("b"), good("c"));
    let unfinished = format!("{}{OUTPUT_START_MARKER} open", good("d"));

    for (a, b) in [
        (first.clone(), second.clone()),
        (format!("{first} trailing - text"), second.clone()),
        (second.clone(), unfinished.clone()),
        (String::new(), first.clone()),
    ] {
        let (outputs, errors) = parse_all_outputs(&format!("{a}{b}"), &decode);
        let (mut all, mut bad) = parse_all_outputs(&a, &decode);
        let (mut rest, mut rest_bad) = parse_all_outputs(&b, &decode);
        all.append(&mut rest);
        bad.append(&mut rest_bad);
        assert_eq!(outputs, all);
        assert_eq!(errors, bad);
    }

    let (outputs, errors) = parse_all_outputs(&first, &decode);
    assert_eq!((outputs.len(), errors.len()), (1, 1));

    // A block that is left open takes in what follows.
    let (outputs, errors) = parse_all_outputs(&format!("{unfinished}{}", good("e")), &decode);
    assert_eq!((outputs.len(), errors.len()), (1, 1));
}
