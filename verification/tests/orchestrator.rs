use rust_claw::group_queue::GroupQueue;
use rust_claw::ipc_watcher::{
    bool_field, error_file_name, file_fate, group_to_register, is_group_dir, is_json_file,
    next_task_id, plan_message, plan_request, plan_schedule, read_payload, string_field,
    task_change_allowed, FileFate, IpcRequest,
};
use rust_claw::json::JsonValue;
use rust_claw::name_map::NameMap;
use rust_claw::orchestrator::agent::{
    normalize_session_id_for_storage, session_id_for_runner, AgentRunInput, AgentRunOutput,
    AgentStreamEvent, AgentStreamStatus, EchoAgentRunner, OrchestratorConfig,
};
use rust_claw::orchestrator::persist::load_cursors;
use rust_claw::orchestrator::poll::messages_to_send;
use rust_claw::orchestrator::run::{GroupRun, TaskRun};
use rust_claw::orchestrator::snapshots::{snapshot_paths, task_snapshots};
use rust_claw::orchestrator::state::{has_trigger, RouterState};
use rust_claw::db::skill_setting;
use rust_claw::timestamp::Timestamp;
use rust_claw::timezone::TaskTimezone;
use rust_claw::types::{
    AdditionalMount, ChatInfo, ContainerConfig, ContextMode, NewMessage, RegisteredGroup,
    ScheduleType, ScheduledTask, TaskStatus,
};

const NOW: Timestamp = Timestamp {
    seconds: 1_771_459_200,
    nanos: 0,
};

fn json(text: &str) -> JsonValue {
    read_payload(text, "inline").expect("json")
}

fn sample_group() -> RegisteredGroup {
    RegisteredGroup {
        name: "Dev Group".to_string(),
        folder: "dev".to_string(),
        trigger: "@Andy".to_string(),
        added_at: "2026-02-19T00:00:00.000Z".to_string(),
        container_config: Some(ContainerConfig {
            additional_mounts: vec![AdditionalMount {
                host_path: "/tmp/project".to_string(),
                container_path: Some("project".to_string()),
                readonly: Some(true),
            }],
            timeout_ms: None,
        }),
        requires_trigger: Some(true),
    }
}

fn named_group(name: &str, folder: &str, requires_trigger: bool) -> RegisteredGroup {
    RegisteredGroup {
        name: name.to_string(),
        folder: folder.to_string(),
        trigger: "@Andy".to_string(),
        added_at: "2026-02-19T00:00:00.000Z".to_string(),
        container_config: None,
        requires_trigger: Some(requires_trigger),
    }
}

fn message(id: &str, content: &str, timestamp: &str) -> NewMessage {
    NewMessage {
        id: id.to_string(),
        chat_jid: "group@g.us".to_string(),
        sender: "u".to_string(),
        sender_name: "User".to_string(),
        content: content.to_string(),
        timestamp: timestamp.to_string(),
        is_from_me: false,
        is_bot_message: false,
    }
}

fn state() -> RouterState {
    let mut state = RouterState {
        last_timestamp: String::new(),
        sessions: NameMap::new(),
        registered_groups: NameMap::new(),
        last_agent_timestamp: NameMap::new(),
    };
    state.register_group("group@g.us", sample_group());
    state
}

fn stream_event(result: &str) -> AgentStreamEvent {
    AgentStreamEvent {
        status: AgentStreamStatus::Success,
        result: Some(result.to_string()),
        new_session_id: None,
        error: None,
    }
}

#[test]
fn process_group_messages_sends_output_when_trigger_present() {
    let mut state = state();
    let start = state
        .begin_group_run(
            "group@g.us",
            &vec![message("1", "@Andy hello", "2026-02-19T00:00:01.000Z")],
            &OrchestratorConfig::default(),
        )
        .expect("run begins");
    assert!(start.input.prompt.contains("@Andy hello"));
    let conclusion = start.run.conclude(Ok(AgentRunOutput {
        result: Some("agent-response".to_string()),
        new_session_id: Some("session-1".to_string()),
    }));
    assert!(conclusion.success);
    assert_eq!(conclusion.send.as_deref(), Some("agent-response"));
    let session = conclusion.session.expect("session");
    assert_eq!(session, "codex:session-1");
    state.set_session("dev", session);
    assert_eq!(state.stored_session("dev").as_deref(), Some("codex:session-1"));
    assert_eq!(state.cursor("group@g.us"), "2026-02-19T00:00:01.000Z");
}

#[test]
fn poll_once_enqueues_only_triggered_messages_for_non_main_group() {
    let mut state = state();
    let candidates = state.poll_candidates(
        &vec![
            message("1", "hello", "2026-02-19T00:00:01.000Z"),
            message("2", "@Andy ping", "2026-02-19T00:00:02.000Z"),
        ],
        &OrchestratorConfig::default(),
    );
    assert_eq!(candidates.len(), 1);
    assert_eq!(candidates[0].chat_jid, "group@g.us");
    assert_eq!(candidates[0].messages.len(), 2);
    state.note_polled("2026-02-19T00:00:02.000Z".to_string());
    let untriggered = state.poll_candidates(
        &vec![message("3", "hello", "2026-02-19T00:00:03.000Z")],
        &OrchestratorConfig::default(),
    );
    assert!(untriggered.is_empty());
}

#[test]
fn recover_pending_messages_enqueues_groups_with_unprocessed_messages() {
    let state = state();
    let stored = vec![message("1", "@Andy pending", "2026-02-19T00:00:01.000Z")];
    let mut queue: GroupQueue<(), ()> = GroupQueue::new(5);
    let mut recovered = 0;
    for (chat_jid, since) in state.recovery_queries() {
        let pending = stored
            .iter()
            .filter(|m| m.chat_jid == chat_jid && m.timestamp > since)
            .count();
        if pending > 0 {
            assert!(queue.enqueue_message_check(&chat_jid).is_some());
            recovered += 1;
        }
    }
    assert_eq!(recovered, 1);
}

#[test]
fn skips_cursor_rollback_if_streamed_output_was_already_sent() {
    let mut state = state();
    let pending = vec![message("1", "@Andy hello", "2026-02-19T00:00:01.000Z")];
    let config = OrchestratorConfig::default();
    let start = state
        .begin_group_run("group@g.us", &pending, &config)
        .expect("run begins");
    let mut run = start.run;
    let plan = run.on_event(&stream_event("partial-response"));
    assert_eq!(plan.send.as_deref(), Some("partial-response"));
    run.note_sent(true);
    let conclusion = run.conclude(Err("simulated stream failure".to_string()));
    assert!(conclusion.success);
    assert_eq!(conclusion.rollback_to, None);
    assert_eq!(conclusion.send, None);
    assert_eq!(state.cursor("group@g.us"), "2026-02-19T00:00:01.000Z");
    assert!(state.begin_group_run("group@g.us", &vec![], &config).is_none());
}

#[test]
fn failed_run_restores_the_cursor() {
    let mut state = state();
    state.set_cursor("group@g.us", "before".to_string());
    let start = state
        .begin_group_run(
            "group@g.us",
            &vec![message("1", "@Andy hello", "t1")],
            &OrchestratorConfig::default(),
        )
        .expect("run begins");
    assert_eq!(state.cursor("group@g.us"), "t1");
    let conclusion = start.run.conclude(Err("down".to_string()));
    assert!(!conclusion.success);
    assert_eq!(conclusion.rollback_to.as_deref(), Some("before"));
    state.set_cursor("group@g.us", conclusion.rollback_to.expect("cursor"));
    assert_eq!(state.cursor("group@g.us"), "before");
}

#[test]
fn has_trigger_checks_case_insensitive_prefix() {
    assert!(has_trigger("@ANDY do thing", "Andy"));
    assert!(!has_trigger("@Andyyyy do thing", "Andy"));
    assert!(!has_trigger("hi @Andy", "Andy"));
}

#[test]
fn trigger_names_are_taken_literally() {
    assert!(has_trigger("@a.b hi", "a.b"));
    assert!(!has_trigger("@axb hi", "a.b"));
}

#[test]
fn session_id_for_runner_accepts_only_codex_prefixed_values() {
    assert_eq!(
        session_id_for_runner(Some("codex:thread-1".to_string())).as_deref(),
        Some("thread-1")
    );
    assert_eq!(
        session_id_for_runner(Some("legacy-session".to_string())),
        None
    );
}

#[test]
fn normalize_session_id_for_storage_adds_codex_prefix() {
    assert_eq!(
        normalize_session_id_for_storage("thread-1"),
        "codex:thread-1"
    );
    assert_eq!(
        normalize_session_id_for_storage("codex:thread-2"),
        "codex:thread-2"
    );
}

#[test]
fn untriggered_group_does_not_run() {
    let mut state = state();
    let config = OrchestratorConfig::default();
    let plain = vec![message("1", "hello", "t1")];
    assert!(state.begin_group_run("group@g.us", &plain, &config).is_none());
    assert!(state.begin_group_run("unknown", &plain, &config).is_none());
    assert_eq!(state.cursor("group@g.us"), "");
    state.register_group("main@g.us", named_group("Main", "main", true));
    assert!(state.begin_group_run("main@g.us", &plain, &config).is_some());
}

#[test]
fn streamed_output_is_not_sent_twice() {
    let mut run = GroupRun::start(String::new());
    let plan = run.on_event(&stream_event("<internal>x</internal>hi"));
    assert_eq!(plan.send.as_deref(), Some("hi"));
    assert!(plan.reset_idle_timer);
    run.note_sent(true);
    let conclusion = run.conclude(Ok(AgentRunOutput {
        result: Some("hi".to_string()),
        new_session_id: None,
    }));
    assert_eq!(conclusion.send, None);
    assert!(conclusion.success);
}

#[test]
fn task_results_are_reported() {
    let run = TaskRun::start();
    let conclusion = run.conclude(Ok(AgentRunOutput {
        result: Some("done".to_string()),
        new_session_id: Some("s".to_string()),
    }));
    assert_eq!(conclusion.execution.result.as_deref(), Some("done"));
    assert_eq!(conclusion.session.as_deref(), Some("codex:s"));
    let failed = TaskRun::start().conclude(Err("boom".to_string()));
    assert_eq!(failed.execution.error.as_deref(), Some("boom"));
    let mut heard = TaskRun::start();
    heard.on_event(&stream_event("part"));
    heard.note_sent(true);
    let conclusion = heard.conclude(Err("boom".to_string()));
    assert!(conclusion.execution.error.is_none());
    assert_eq!(conclusion.execution.result.as_deref(), Some("part"));
}

#[test]
fn pending_messages_come_before_new_ones() {
    let chosen = messages_to_send(vec![], vec![message("1", "a", "t")]);
    assert_eq!(chosen.len(), 1);
    let chosen = messages_to_send(
        vec![message("1", "a", "t"), message("2", "b", "t")],
        vec![message("2", "b", "t")],
    );
    assert_eq!(chosen.len(), 2);
}

#[test]
fn cursors_are_stored_and_read_back() {
    let mut state = state();
    state.set_cursor("a\"b", "t1".to_string());
    state.set_cursor("c", "t2".to_string());
    let text = state.cursors_text().expect("text");
    let cursors = load_cursors(Some(&text));
    assert_eq!(cursors.len(), 2);
    assert_eq!(cursors.get("a\"b").map(String::as_str), Some("t1"));
    assert_eq!(cursors.get("c").map(String::as_str), Some("t2"));
    assert_eq!(load_cursors(Some("junk")).len(), 0);
    assert_eq!(load_cursors(None).len(), 0);
}

#[test]
fn echo_runner_answers_with_the_prompt() {
    let input = AgentRunInput {
        group: sample_group(),
        prompt: "hello".to_string(),
        session_id: Some("s".to_string()),
        group_folder: "dev".to_string(),
        chat_jid: "group@g.us".to_string(),
        is_main: false,
        is_scheduled_task: false,
    };
    let output = EchoAgentRunner.run(input);
    assert_eq!(output.result.as_deref(), Some("Echo from Dev Group:\nhello"));
    assert_eq!(output.new_session_id.as_deref(), Some("s"));
}

fn task(id: &str, folder: &str, jid: &str) -> ScheduledTask {
    ScheduledTask {
        id: id.to_string(),
        group_folder: folder.to_string(),
        chat_jid: jid.to_string(),
        prompt: "main task".to_string(),
        schedule_type: ScheduleType::Once,
        schedule_value: "2026-02-20T00:00:00.000Z".to_string(),
        context_mode: ContextMode::Isolated,
        next_run: Some(NOW),
        last_run: None,
        last_result: None,
        status: TaskStatus::Active,
        created_at: NOW,
    }
}

fn two_groups() -> NameMap<RegisteredGroup> {
    let mut groups = NameMap::new();
    groups.insert("main@g.us", named_group("Main", "main", false));
    groups.insert("other@g.us", named_group("Other", "other", true));
    groups
}

#[test]
fn groups_see_their_own_tasks() {
    let tasks = vec![task("a", "main", "m"), task("b", "other", "o")];
    assert_eq!(task_snapshots(&tasks, "main", true).len(), 2);
    let seen = task_snapshots(&tasks, "other", false);
    assert_eq!(seen.len(), 1);
    assert_eq!(seen[0].id, "b");
    assert_eq!(seen[0].schedule_type, "once");
    assert_eq!(seen[0].status, "active");
    assert_eq!(seen[0].next_run.as_deref(), Some("2026-02-19T00:00:00+00:00"));
}

#[test]
fn only_the_main_group_sees_other_groups() {
    let mut state = state();
    state.register_group("1@discord", sample_group());
    let chats = vec![
        ChatInfo {
            jid: "1@discord".to_string(),
            name: "Dev".to_string(),
            last_message_time: "t".to_string(),
        },
        ChatInfo {
            jid: "2@discord".to_string(),
            name: "New".to_string(),
            last_message_time: "t".to_string(),
        },
        ChatInfo {
            jid: "elsewhere@g.us".to_string(),
            name: "Elsewhere".to_string(),
            last_message_time: "t".to_string(),
        },
    ];
    let groups = state.visible_groups(&chats, true);
    assert_eq!(groups.len(), 2);
    assert!(groups[0].is_registered && !groups[1].is_registered);
    assert!(state.visible_groups(&chats, false).is_empty());
}

#[test]
fn process_once_deletes_valid_files_and_moves_invalid_to_errors() {
    let mut groups = NameMap::new();
    groups.insert("other@g.us", named_group("Other", "other", true));
    assert!(is_group_dir("other") && !is_group_dir("errors"));
    assert!(is_json_file("001-valid.json") && !is_json_file("note.txt"));

    let valid = read_payload(
        r#"{"type": "message", "chatJid": "other@g.us", "text": "hello from ipc"}"#,
        "001-valid.json",
    )
    .expect("valid");
    let sent = plan_message(&valid, &groups, "other", false).expect("message");
    assert_eq!(sent, ("other@g.us".to_string(), "hello from ipc".to_string()));
    assert!(matches!(file_fate(true, true), FileFate::Delete));

    assert!(read_payload("{not-json", "002-invalid.json").is_err());
    assert!(matches!(file_fate(false, false), FileFate::MoveToErrors));
    assert!(matches!(file_fate(true, false), FileFate::MoveToErrors));
    assert!(error_file_name("other", "002-invalid.json", None).starts_with("other-002-invalid.json"));
    assert_eq!(
        error_file_name("other", "002-invalid.json", Some(5)),
        "other-5-002-invalid.json"
    );
}

#[test]
fn non_main_authorization_blocks_cross_group_actions() {
    let groups = two_groups();
    let main_task = Some(task("task-main", "main", "main@g.us"));

    let refused = json(r#"{"type":"message","chatJid":"main@g.us","text":"nope"}"#);
    assert!(plan_message(&refused, &groups, "other", false).is_none());
    let allowed = json(r#"{"type":"message","chatJid":"other@g.us","text":"ok"}"#);
    let sent = plan_message(&allowed, &groups, "other", false).expect("sent");
    assert_eq!(sent.0, "other@g.us");

    let pause = json(r#"{"type":"pause_task","taskId":"task-main"}"#);
    match plan_request(&pause, "other", false) {
        IpcRequest::SetStatus { task_id, status } => {
            assert_eq!(task_id, "task-main");
            assert_eq!(status, TaskStatus::Paused);
        }
        _ => panic!("pause"),
    }
    assert!(!task_change_allowed(&main_task, "other", false));
    assert!(task_change_allowed(&main_task, "main", true));

    let schedule = json(
        r#"{"type":"schedule_task","prompt":"cross","schedule_type":"once","schedule_value":"2026-02-20T00:00:00.000Z","targetJid":"main@g.us"}"#,
    );
    match plan_request(&schedule, "other", false) {
        IpcRequest::Schedule(request) => {
            let task = plan_schedule(
                request,
                &groups,
                "other",
                false,
                "id".to_string(),
                NOW,
                &TaskTimezone::Fixed(0),
            );
            assert_eq!(task, Ok(None));
        }
        _ => panic!("schedule"),
    }

    let cross = json(r#"{"type":"disable_skill","skillName":"research","targetGroupFolder":"main"}"#);
    assert!(matches!(
        plan_request(&cross, "other", false),
        IpcRequest::Ignore
    ));
    let own = json(r#"{"type":"disable_skill","skillName":"research"}"#);
    match plan_request(&own, "other", false) {
        IpcRequest::SetSkill {
            group_folder,
            skill_name,
            enabled,
        } => {
            assert_eq!(group_folder, "other");
            assert_eq!(skill_setting(&skill_name, enabled), Some(("research".to_string(), 0)));
        }
        _ => panic!("skill"),
    }
}

#[test]
fn main_group_can_register_group_and_refresh_snapshots() {
    let blocked = json(
        r#"{"type":"register_group","jid":"blocked@g.us","name":"Blocked","folder":"blocked","trigger":"@Andy"}"#,
    );
    assert!(matches!(
        plan_request(&blocked, "other", false),
        IpcRequest::Ignore
    ));

    let new = json(
        r#"{"type":"register_group","jid":"new@g.us","name":"New Group","folder":"new-group","trigger":"@Andy","requiresTrigger":true}"#,
    );
    match plan_request(&new, "main", true) {
        IpcRequest::Register(request) => {
            let (jid, group) = group_to_register(request, None, "t".to_string());
            assert_eq!(jid, "new@g.us");
            assert_eq!(group.folder, "new-group");
            assert_eq!(group.requires_trigger, Some(true));
            let mut state = state();
            state.register_group(&jid, group);
            assert!(state.registered_groups.get("new@g.us").is_some());
        }
        _ => panic!("register"),
    }

    let refresh = json(r#"{"type":"refresh_groups"}"#);
    assert!(matches!(
        plan_request(&refresh, "main", true),
        IpcRequest::Refresh
    ));
    assert!(matches!(
        plan_request(&refresh, "other", false),
        IpcRequest::Ignore
    ));

    let paths = snapshot_paths("ipc", "main");
    assert_eq!(paths.groups, "ipc/main/available_groups.json");
    assert_eq!(paths.skills, "ipc/main/current_skills.json");
    assert_eq!(paths.tasks, "ipc/main/current_tasks.json");
}

#[test]
fn schedules_become_tasks_of_the_target_group() {
    let groups = two_groups();
    let payload = json(
        r#"{"type":"schedule_task","prompt":"p","schedule_type":"interval","schedule_value":"60000","targetJid":"other@g.us"}"#,
    );
    match plan_request(&payload, "main", true) {
        IpcRequest::Schedule(request) => {
            let task = plan_schedule(
                request,
                &groups,
                "main",
                true,
                next_task_id(17, 3),
                NOW,
                &TaskTimezone::Fixed(0),
            )
            .expect("schedule")
            .expect("task");
            assert_eq!(task.group_folder, "other");
            assert_eq!(task.chat_jid, "other@g.us");
            assert_eq!(task.context_mode, ContextMode::Isolated);
            assert_eq!(
                task.next_run,
                Some(Timestamp {
                    seconds: NOW.seconds + 60,
                    nanos: 0,
                })
            );
            assert_eq!(task.id, "task-17-3");
        }
        _ => panic!("schedule"),
    }
}

#[test]
fn fields_are_read_under_any_of_their_names() {
    let payload = json(r#"{"a": 1, "b": "x", "f": true}"#);
    assert_eq!(string_field(&payload, &vec!["a", "b"]).as_deref(), Some("x"));
    assert_eq!(string_field(&payload, &vec!["c"]), None);
    assert_eq!(bool_field(&payload, &vec!["b", "f"]), Some(true));
}

#[test]
fn scheduled_tasks_run_in_their_group() {
    let mut state = state();
    let config = OrchestratorConfig::default();
    let input = state
        .begin_task_run(&task("t", "dev", "group@g.us"), &config)
        .expect("input");
    assert!(input.is_scheduled_task && !input.is_main);
    assert_eq!(input.prompt, "main task");
    assert!(state
        .begin_task_run(&task("t", "elsewhere", "x"), &config)
        .is_err());
    state.note_delivered("group@g.us", &vec![message("1", "a", "t9")]);
    assert_eq!(state.cursor("group@g.us"), "t9");
}

#[test]
fn stored_sessions_are_given_back() {
    for id in ["thread-1", "codex:thread-1", ""] {
        let stored = normalize_session_id_for_storage(id);
        let given = session_id_for_runner(Some(stored)).expect("session");
        assert_eq!(given, id.strip_prefix("codex:").unwrap_or(id));
    }
}

#[test]
fn schedules_without_a_first_run_are_noted() {
    let payload = json(
        r#"{"type":"schedule_task","prompt":"p","schedule_type":"interval","schedule_value":"0","targetJid":"other@g.us"}"#,
    );
    match plan_request(&payload, "other", false) {
        IpcRequest::Schedule(request) => {
            let task = plan_schedule(
                request,
                &two_groups(),
                "other",
                false,
                "id".to_string(),
                NOW,
                &TaskTimezone::Fixed(0),
            );
            assert_eq!(
                task,
                Err("ignored schedule_task due to invalid schedule (type=interval, value=0): interval must be > 0: 0".to_string())
            );
        }
        _ => panic!("schedule"),
    }
}

#[test]
fn assistant_names_may_hold_any_character() {
    for name in [".*+?", "(a)", "[b]", "{c}", "x|y", "^$", "a-b", "a#b", "a&b~", "a\\b"] {
        let named = format!("{name}z");
        assert!(has_trigger(&format!("@{named} hi"), &named), "{named}");
        assert!(!has_trigger("@other hi", &named), "{named}");
    }
}
