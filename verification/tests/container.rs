use rust_claw::agent_runner_container::{
    add_tz, allowed_credential_keys, collect_envs, compute_effective_timeout, conclude_container,
    container_log, container_name, idle_timeout_from_env, merge_allowed_credential_keys,
    parse_allowed_credential_keys, read_log_max_bytes, resolve_codex_auth_dir,
    sanitize_container_name, summarize_codex_logs, timeout_message, truncate_by_bytes,
    ContainerAgentRunner, ContainerInputPayload, ExistingDirectories, OutputCollector,
    ProcessOutput, VolumeMount,
};
use rust_claw::container_runner::{ContainerOutput, ContainerOutputStatus};
use rust_claw::duration::Duration;
use rust_claw::mount_security::{
    allowlist_path, expand_home, file_name, first_blocked_match, is_inside,
    is_valid_container_path, load_allowlist, merged_blocked_patterns, validate_additional_mount,
    validate_mount_against_allowlist, AllowedRoot, MountAllowlist, ValidatedMount,
};
use rust_claw::orchestrator::agent::{AgentRunInput, AgentStreamStatus};
use rust_claw::types::{AdditionalMount, ContainerConfig, RegisteredGroup};

fn sample_input() -> AgentRunInput {
    AgentRunInput {
        group: RegisteredGroup {
            name: "Dev Team".to_string(),
            folder: "dev_team".to_string(),
            trigger: "@Andy".to_string(),
            added_at: "2026-02-19T00:00:00.000Z".to_string(),
            container_config: None,
            requires_trigger: Some(true),
        },
        prompt: "hello".to_string(),
        session_id: Some("session-1".to_string()),
        group_folder: "dev_team".to_string(),
        chat_jid: "group@g.us".to_string(),
        is_main: false,
        is_scheduled_task: false,
    }
}

fn runner(root: &str, auth: Option<&str>) -> ContainerAgentRunner {
    ContainerAgentRunner::new(
        "container".to_string(),
        "image:latest".to_string(),
        root.to_string(),
        format!("{root}/groups"),
        format!("{root}/data"),
        Duration::from_secs(5),
        None,
        auth.map(str::to_string),
    )
}

fn targets(mounts: &[VolumeMount]) -> Vec<&str> {
    mounts
        .iter()
        .map(|mount| mount.container_path.as_str())
        .collect()
}

#[test]
fn build_container_args_uses_mount_flags() {
    let runner = ContainerAgentRunner::new(
        "container".to_string(),
        "image:latest".to_string(),
        "/project".to_string(),
        "/groups".to_string(),
        "/data".to_string(),
        Duration::from_secs(5),
        None,
        None,
    );
    let mounts = vec![
        VolumeMount {
            host_path: "/h/rw".to_string(),
            container_path: "/c/rw".to_string(),
            readonly: false,
        },
        VolumeMount {
            host_path: "/h/ro".to_string(),
            container_path: "/c/ro".to_string(),
            readonly: true,
        },
    ];

    let args = runner.build_container_args(
        &mounts,
        "ct-1",
        &vec![("MY_API_KEY".to_string(), "secret".to_string())],
    );
    assert_eq!(
        args,
        vec![
            "run",
            "-i",
            "--rm",
            "--name",
            "ct-1",
            "-e",
            "MY_API_KEY=secret",
            "-v",
            "/h/rw:/c/rw",
            "--mount",
            "type=bind,source=/h/ro,target=/c/ro,readonly",
            "image:latest",
        ]
    );
}

#[test]
fn parse_allowed_credential_keys_returns_empty_for_invalid_json() {
    assert!(parse_allowed_credential_keys("not-json").is_empty());
}

#[test]
fn parse_allowed_credential_keys_deduplicates_and_trims() {
    let keys = parse_allowed_credential_keys(r#"[" MY_KEY ","", "MY_KEY", "SECOND_KEY"]"#);
    assert_eq!(keys, vec!["MY_KEY".to_string(), "SECOND_KEY".to_string()]);
}

#[test]
fn merge_allowed_credential_keys_includes_defaults() {
    let keys = merge_allowed_credential_keys(Vec::new());
    assert_eq!(
        keys,
        vec![
            "UPBIT_ACCESS_KEY".to_string(),
            "UPBIT_SECRET_KEY".to_string(),
            "UPBIT_BASE_URL".to_string()
        ]
    );
}

#[test]
fn merge_allowed_credential_keys_appends_unique_extras() {
    let keys = merge_allowed_credential_keys(vec![
        "UPBIT_SECRET_KEY".to_string(),
        "MY_API_KEY".to_string(),
    ]);
    assert_eq!(
        keys,
        vec![
            "UPBIT_ACCESS_KEY".to_string(),
            "UPBIT_SECRET_KEY".to_string(),
            "UPBIT_BASE_URL".to_string(),
            "MY_API_KEY".to_string()
        ]
    );
}

#[test]
fn configured_credential_keys_are_added() {
    let keys = allowed_credential_keys(Some(r#"["X", "UPBIT_BASE_URL"]"#));
    assert_eq!(keys.len(), 4);
    assert_eq!(keys[3], "X");
    assert_eq!(allowed_credential_keys(None).len(), 3);
}

#[test]
fn container_input_payload_sets_scheduled_task_flag() {
    let mut input = sample_input();
    input.is_scheduled_task = true;
    let payload = ContainerInputPayload::from_input(&input);
    assert!(payload.is_scheduled_task);
}

#[test]
fn build_volume_mounts_adds_core_paths() {
    let mounts = runner("/tmp/project", Some("/tmp/codex-auth")).build_volume_mounts(
        &sample_input(),
        ExistingDirectories {
            global: true,
            codex_auth: true,
        },
        &vec![],
    );
    let target_paths = targets(&mounts);

    assert!(target_paths.contains(&"/workspace/group"));
    assert!(target_paths.contains(&"/workspace/global"));
    assert!(target_paths.contains(&"/home/node/.codex"));
    assert!(target_paths.contains(&"/workspace/codex-auth"));
    assert!(target_paths.contains(&"/workspace/ipc"));
}

#[test]
fn build_volume_mounts_skips_missing_codex_auth_seed_mount() {
    let mounts = runner("/tmp/project", Some("/tmp/missing-auth")).build_volume_mounts(
        &sample_input(),
        ExistingDirectories {
            global: false,
            codex_auth: false,
        },
        &vec![],
    );
    assert!(!mounts
        .iter()
        .any(|mount| mount.container_path == "/workspace/codex-auth"));
}

#[test]
fn main_group_sees_the_project() {
    let mut input = sample_input();
    input.is_main = true;
    let mounts = runner("/p", None).build_volume_mounts(
        &input,
        ExistingDirectories {
            global: true,
            codex_auth: false,
        },
        &vec![],
    );
    assert!(targets(&mounts).contains(&"/workspace/project"));
    assert!(!targets(&mounts).contains(&"/workspace/global"));
}

#[test]
fn non_main_additional_mount_is_forced_readonly() {
    let mut input = sample_input();
    input.group.container_config = Some(ContainerConfig {
        additional_mounts: vec![AdditionalMount {
            host_path: "/tmp/t/extra".to_string(),
            container_path: Some("work".to_string()),
            readonly: Some(false),
        }],
        timeout_ms: None,
    });
    let allowlist = sample_allowlist("/tmp/t", true);
    let mount = &input.group.container_config.as_ref().expect("config").additional_mounts[0];
    let extra = validate(mount, input.is_main, &allowlist).expect("validated");

    let mounts = runner("/tmp/t/project", None).build_volume_mounts(
        &input,
        ExistingDirectories {
            global: false,
            codex_auth: false,
        },
        &vec![extra],
    );
    let additional = mounts
        .iter()
        .find(|mount| mount.container_path == "/workspace/extra/work")
        .expect("additional mount exists");
    assert!(additional.readonly);
}

fn output(result: &str, session: Option<&str>) -> ContainerOutput {
    ContainerOutput {
        status: ContainerOutputStatus::Success,
        result: Some(result.to_string()),
        new_session_id: session.map(str::to_string),
        error: None,
    }
}

fn decode(payload: &str) -> Result<ContainerOutput, String> {
    let value: serde_json::Value = serde_json::from_str(payload).map_err(|e| e.to_string())?;
    let field = |key: &str| value.get(key).and_then(|v| v.as_str()).map(str::to_string);
    Ok(output(
        &field("result").ok_or("result")?,
        field("newSessionId").as_deref(),
    ))
}

#[test]
fn run_process_with_stdin_writes_payload_and_reads_output() {
    let stdout = "---NANOCLAW_OUTPUT_START---\n{\"status\":\"success\",\"result\":\"ok\",\"newSessionId\":null,\"error\":null}\n---NANOCLAW_OUTPUT_END---\n";
    let mut collector = OutputCollector::new();
    collector.take_chunk(stdout, &decode);
    let output = collector.finish(Some(0), stdout.to_string(), String::new());

    assert_eq!(output.exit_code, Some(0));
    assert!(output.parse_errors.is_empty());
    assert_eq!(output.outputs.len(), 1);
    assert_eq!(output.outputs[0].result.as_deref(), Some("ok"));
}

#[test]
fn run_process_with_stdin_streams_marker_events_to_callback() {
    let lines = [
        "---NANOCLAW_OUTPUT_START---\n",
        "{\"status\":\"success\",\"result\":\"chunk-1\",\"newSessionId\":\"s-1\",\"error\":null}\n",
        "---NANOCLAW_OUTPUT_END---\n",
        "---NANOCLAW_OUTPUT_START---\n",
        "{\"status\":\"success\",\"result\":\"chunk-2\",\"newSessionId\":null,\"error\":null}\n",
        "---NANOCLAW_OUTPUT_END---\n",
    ];
    let mut collector = OutputCollector::new();
    let mut streamed = Vec::new();
    for line in lines {
        streamed.extend(collector.take_chunk(line, &decode));
    }
    let output = collector.finish(Some(0), lines.concat(), String::new());

    assert_eq!(output.exit_code, Some(0));
    assert_eq!(output.outputs.len(), 2);
    assert_eq!(streamed.len(), 2);
    assert_eq!(streamed[0].status, AgentStreamStatus::Success);
    assert_eq!(streamed[0].result.as_deref(), Some("chunk-1"));
    assert_eq!(streamed[0].new_session_id.as_deref(), Some("s-1"));
    assert_eq!(streamed[1].result.as_deref(), Some("chunk-2"));
}

#[test]
fn compute_effective_timeout_uses_idle_timeout_grace_as_lower_bound() {
    let default_timeout = Duration::from_millis(1_200_000);
    let idle_timeout = Duration::from_millis(1_800_000);
    let timeout = compute_effective_timeout(None, default_timeout, idle_timeout);
    assert_eq!(timeout, Duration::from_millis(1_830_000));
}

#[test]
fn compute_effective_timeout_prefers_larger_configured_timeout() {
    let configured_timeout = Some(Duration::from_millis(2_400_000));
    let default_timeout = Duration::from_millis(1_800_000);
    let idle_timeout = Duration::from_millis(600_000);
    let timeout = compute_effective_timeout(configured_timeout, default_timeout, idle_timeout);
    assert_eq!(timeout, Duration::from_millis(2_400_000));
}

#[test]
fn writes_container_log_with_capped_output() {
    let output = ProcessOutput {
        exit_code: Some(0),
        stdout: "x".repeat(1000),
        stderr: "y".repeat(1000),
        outputs: Vec::new(),
        parse_errors: Vec::new(),
    };
    let log = container_log(
        "nanoclaw-dev-team-1",
        "container",
        &vec!["run".to_string(), "image:latest".to_string()],
        &output,
        10 * 1024 * 1024,
    );
    assert!(log.contains("container=nanoclaw-dev-team-1"));
    assert!(log.contains("codex_requests="));
    assert!(log.contains("[stdout]"));
}

#[test]
fn run_output_is_the_last_marked_one() {
    let mut process = ProcessOutput {
        exit_code: Some(0),
        stdout: String::new(),
        stderr: String::new(),
        outputs: vec![output("first", Some("s")), output("last", None)],
        parse_errors: vec![],
    };
    let run = conclude_container(&process, &Some("before".to_string())).expect("output");
    assert_eq!(run.result.as_deref(), Some("last"));
    process.outputs.clear();
    process.exit_code = Some(2);
    process.stderr = "bad".to_string();
    let error = conclude_container(&process, &None).map(|_| ()).expect_err("failed");
    assert!(error.contains("bad"));
}

#[test]
fn container_names_are_plain() {
    assert_eq!(sanitize_container_name("Dev Team/한"), "Dev-Team--");
    assert_eq!(container_name("dev_team", 5), "nanoclaw-dev-team-5");
}

#[test]
fn container_settings_are_read() {
    assert_eq!(idle_timeout_from_env(None), Duration::from_millis(1_800_000));
    assert_eq!(idle_timeout_from_env(Some("250")), Duration::from_millis(250));
    assert_eq!(idle_timeout_from_env(Some("x")), Duration::from_millis(1_800_000));
    assert_eq!(read_log_max_bytes(None), 200_000);
    assert_eq!(read_log_max_bytes(Some("x")), 200_000);
    assert_eq!(read_log_max_bytes(Some("77")), 77);
    assert!(timeout_message(Duration::from_millis(30)).contains("30ms"));
    assert_eq!(
        resolve_codex_auth_dir(Some("/a"), Some("/home/u")).as_deref(),
        Some("/a")
    );
    assert_eq!(
        resolve_codex_auth_dir(None, Some("/home/u")).as_deref(),
        Some("/home/u/.codex")
    );
    assert_eq!(resolve_codex_auth_dir(None, None), None);
}

#[test]
fn environment_is_collected_with_a_time_zone() {
    let keys = vec!["A".to_string(), "B".to_string(), "C".to_string()];
    let values = vec![Some("1".to_string()), None, Some(String::new())];
    let envs = collect_envs(&keys, &values);
    assert_eq!(envs[0], ("A".to_string(), "1".to_string()));
    let all = add_tz(vec![("TIMEZONE".to_string(), "Asia/Seoul".to_string())]);
    assert!(all.contains(&("TZ".to_string(), "Asia/Seoul".to_string())));
    let kept = add_tz(vec![
        ("TIMEZONE".to_string(), "Asia/Seoul".to_string()),
        ("TZ".to_string(), "UTC".to_string()),
    ]);
    assert_eq!(kept.len(), 2);
}

#[test]
fn logs_are_cut_at_a_character() {
    assert_eq!(truncate_by_bytes("abc", 3), "abc");
    assert!(truncate_by_bytes("a한글", 3).starts_with("a"));
    assert!(!truncate_by_bytes("a한글", 3).contains("한"));
}

#[test]
fn codex_log_lines_are_counted() {
    let summary = summarize_codex_logs(
        "plain\n  [codex-rpc:request] a\n[codex-rpc:event]\n[codex-rpc:event] b\n[codex-rpc:error]\nx [codex-rpc:error]\n",
    );
    assert_eq!((summary.requests, summary.events, summary.errors), (1, 2, 1));
}

fn sample_allowlist(root: &str, non_main_read_only: bool) -> MountAllowlist {
    MountAllowlist {
        allowed_roots: vec![AllowedRoot {
            path: root.to_string(),
            allow_read_write: true,
        }],
        blocked_patterns: vec![],
        non_main_read_only,
    }
}

/// Validates a mount where every path is already real.
fn validate(
    mount: &AdditionalMount,
    is_main: bool,
    allowlist: &MountAllowlist,
) -> Result<ValidatedMount, String> {
    let real_roots = allowlist
        .allowed_roots
        .iter()
        .map(|root| Some(root.path.clone()))
        .collect();
    validate_mount_against_allowlist(
        mount,
        is_main,
        allowlist,
        None,
        Ok(mount.host_path.clone()),
        &real_roots,
    )
}

fn mount(host: &str, container: Option<&str>, readonly: bool) -> AdditionalMount {
    AdditionalMount {
        host_path: host.to_string(),
        container_path: container.map(str::to_string),
        readonly: Some(readonly),
    }
}

#[test]
fn fails_when_host_path_outside_allowlist_root() {
    let allowlist = sample_allowlist("/tmp/t/allowed", true);
    let mount = mount("/tmp/t/outside", Some("outside"), false);
    let result = validate(&mount, true, &allowlist);
    assert!(result.is_err());
}

#[test]
fn blocks_sensitive_paths_by_default_pattern() {
    let allowlist = sample_allowlist("/tmp/t/allowed", true);
    let mount = mount("/tmp/t/allowed/.ssh", Some("ssh"), true);
    let result = validate(&mount, true, &allowlist);
    assert!(result.is_err());
}

#[test]
fn non_main_read_write_request_is_forced_read_only() {
    let allowlist = sample_allowlist("/tmp/t/allowed", true);
    let mount = mount("/tmp/t/allowed/work", Some("work"), false);
    let validated = validate(&mount, false, &allowlist).expect("validate mount");
    assert!(validated.readonly);
}

#[test]
fn main_group_can_keep_read_write_when_allowed() {
    let allowlist = sample_allowlist("/tmp/t/allowed", true);
    let mount = mount("/tmp/t/allowed/work", Some("work"), false);
    let validated = validate(&mount, true, &allowlist).expect("validate mount");
    assert!(!validated.readonly);
    assert_eq!(validated.container_path, "/workspace/extra/work");
}

#[test]
fn fails_closed_when_allowlist_is_missing() {
    let path = allowlist_path(Some("/tmp/t/missing-allowlist.json"), None, None);
    let missing = load_allowlist(&path, Err("No such file or directory".to_string()));
    let mount = mount("/tmp/t/allowed", Some("work"), true);
    let result = validate_additional_mount(
        &mount,
        true,
        &missing,
        None,
        Ok("/tmp/t/allowed".to_string()),
        &vec![],
    );
    assert!(result.is_err());
    let spoiled = load_allowlist("p", Ok(Err("bad".to_string()))).map(|_| ());
    assert_eq!(
        spoiled,
        Err("mount allowlist parse failed at p: bad".to_string())
    );
    assert_eq!(allowlist_path(None, Some("~/l"), Some("/h")), "/h/l");
    assert_eq!(
        allowlist_path(None, None, Some("/h")),
        "/h/.config/nanoclaw/mount-allowlist.json"
    );
}

#[test]
fn bad_container_paths_are_refused() {
    let allowlist = sample_allowlist("/tmp/t", true);
    for path in ["", "/abs", "../up", "a/../b"] {
        assert!(validate(&mount("/tmp/t/w", Some(path), true), true, &allowlist).is_err());
    }
    assert!(is_valid_container_path("a/b"));
    let named = validate(&mount("/tmp/t/w", None, true), true, &allowlist).expect("named");
    assert_eq!(named.container_path, "/workspace/extra/w");
}

#[test]
fn paths_are_compared_by_components() {
    assert!(is_inside("/a/b", "/a"));
    assert!(!is_inside("/ab", "/a"));
    assert!(is_inside("/a", "/a"));
    assert!(is_inside("/a//b/", "/a/"));
    assert!(is_inside("/a/./b", "/a/."));
    assert!(is_inside("/a/b", "/"));
    assert!(!is_inside("a/b", "/a"));
    assert_eq!(file_name("/a/b/"), Some("b".to_string()));
    assert_eq!(expand_home("~/x", Some("/home/u")), "/home/u/x");
    assert_eq!(expand_home("~/x", None), "~/x");
    let patterns = merged_blocked_patterns(&MountAllowlist {
        allowed_roots: vec![],
        blocked_patterns: vec![".ssh".to_string(), "private".to_string()],
        non_main_read_only: true,
    });
    assert_eq!(patterns.iter().filter(|p| *p == ".ssh").count(), 1);
    assert_eq!(
        first_blocked_match("/tmp/private/x", &patterns).as_deref(),
        Some("private")
    );
    assert_eq!(first_blocked_match("/tmp/open/x", &patterns), None);
}
