use rust_claw::db::{
    message_row, normalize_skill_name, requires_trigger_value, row_to_message,
    row_to_registered_group, row_to_task, row_to_task_log, select_new_messages, skill_setting,
    task_row, DbError, GroupRow, TaskLogRow,
};
use rust_claw::name_map::NameMap;
use rust_claw::orchestrator::persist::load_cursors;
use rust_claw::skill_loader::{
    load_group_skills, load_skills_from_root, render_skill_instructions, skill_name,
    truncate_utf8, LoadedSkill, SkillFile, SkillLoaderConfig, SkillSource,
};
use rust_claw::state_migration::{
    archive_name, migrate_json_state, read_sessions, LegacyState, RouterStateJson,
};
use rust_claw::timestamp::Timestamp;
use rust_claw::types::{
    AdditionalMount, ContainerConfig, ContextMode, NewMessage, RegisteredGroup, ScheduleType,
    ScheduledTask, TaskRunStatus, TaskStatus,
};

const NOW: Timestamp = Timestamp {
    seconds: 1_771_459_200,
    nanos: 0,
};

#[test]
fn log_task_run_persists_execution_result() {
    let log = row_to_task_log(TaskLogRow {
        task_id: "task-1".to_string(),
        run_at: "2026-02-19T00:00:00.000Z".to_string(),
        duration_ms: 321,
        status: TaskRunStatus::Success.as_str().to_string(),
        result: Some("ok".to_string()),
        error: None,
    })
    .expect("log");
    assert_eq!(log.duration_ms, 321);
    assert_eq!(log.status, TaskRunStatus::Success);
    assert_eq!(log.result.as_deref(), Some("ok"));
    assert_eq!(log.run_at, NOW);
}

#[test]
fn skill_settings_roundtrip_normalizes_name_and_updates_state() {
    let mut settings: NameMap<i64> = NameMap::new();
    for (name, enabled) in [("Research", false), ("  research  ", true)] {
        let (key, value) = skill_setting(name, enabled).expect("setting");
        settings.insert(&key, value);
    }
    assert_eq!(settings.len(), 1);
    assert_eq!(settings.get("research").map(|value| *value != 0), Some(true));
    assert_eq!(skill_setting("  ", true), None);
    assert_eq!(normalize_skill_name(" ÀB "), "Àb");
}

#[test]
fn registered_group_roundtrip() {
    let (jid, group) = row_to_registered_group(
        GroupRow {
            jid: "group@g.us".to_string(),
            name: "Dev Team".to_string(),
            folder: "dev-team".to_string(),
            trigger_pattern: "@Andy".to_string(),
            added_at: "2026-02-19T10:00:00.000Z".to_string(),
            requires_trigger: Some(requires_trigger_value(Some(true))),
        },
        Some(ContainerConfig {
            additional_mounts: vec![AdditionalMount {
                host_path: "/tmp/project".to_string(),
                container_path: Some("project".to_string()),
                readonly: Some(true),
            }],
            timeout_ms: Some(600000),
        }),
    );
    assert_eq!(jid, "group@g.us");
    assert_eq!(group.folder, "dev-team");
    assert_eq!(group.trigger, "@Andy");
    assert_eq!(group.requires_trigger, Some(true));
    assert_eq!(
        group
            .container_config
            .as_ref()
            .and_then(|cfg| cfg.timeout_ms),
        Some(600000)
    );
}

fn task() -> ScheduledTask {
    ScheduledTask {
        id: "t".to_string(),
        group_folder: "main".to_string(),
        chat_jid: "chat@g.us".to_string(),
        prompt: "run task".to_string(),
        schedule_type: ScheduleType::Cron,
        schedule_value: "0 9 * * *".to_string(),
        context_mode: ContextMode::Group,
        next_run: Some(NOW),
        last_run: None,
        last_result: Some("r".to_string()),
        status: TaskStatus::Paused,
        created_at: NOW,
    }
}

#[test]
fn task_rows_stand_for_tasks() {
    let row = task_row(&task());
    assert_eq!(row.schedule_type, "cron");
    assert_eq!(row.status, "paused");
    assert_eq!(row.context_mode, "group");
    assert_eq!(row.next_run.as_deref(), Some("2026-02-19T00:00:00.000Z"));
    assert_eq!(row_to_task(row), Ok(task()));

    let mut bad = task_row(&task());
    bad.schedule_type = "hourly".to_string();
    assert_eq!(
        row_to_task(bad),
        Err(DbError::InvalidEnum {
            field: "schedule_type",
            value: "hourly".to_string(),
        })
    );
    let mut bad = task_row(&task());
    bad.created_at = "soon".to_string();
    assert!(matches!(
        row_to_task(bad),
        Err(DbError::InvalidTimestamp {
            field: "created_at",
            ..
        })
    ));
}

fn message(id: &str, chat_jid: &str, timestamp: &str) -> NewMessage {
    NewMessage {
        id: id.to_string(),
        chat_jid: chat_jid.to_string(),
        sender: "user".to_string(),
        sender_name: "User".to_string(),
        content: "hello".to_string(),
        timestamp: timestamp.to_string(),
        is_from_me: true,
        is_bot_message: false,
    }
}

#[test]
fn new_messages_are_those_of_the_chats() {
    let jids = vec!["a".to_string()];
    let (messages, latest) = select_new_messages(
        vec![message("1", "a", "t1"), message("2", "b", "t9"), message("3", "a", "t3")],
        &jids,
        "t0",
    );
    assert_eq!(messages.len(), 2);
    assert_eq!(latest, "t3");
    let (none, latest) = select_new_messages(vec![message("2", "b", "t9")], &jids, "t0");
    assert!(none.is_empty());
    assert_eq!(latest, "t0");
    let row = message_row(message("1", "a", "t1"));
    assert_eq!((row.is_from_me, row.is_bot_message), (1, 0));
    assert_eq!(row_to_message(row), message("1", "a", "t1"));
}

fn skill_files(root: &str, skills: &[(&str, &str)]) -> Vec<SkillFile> {
    skills
        .iter()
        .map(|(name, content)| SkillFile {
            path: format!("{root}/{name}/SKILL.md"),
            content: content.to_string(),
        })
        .collect()
}

fn loaded(
    groups_dir: &str,
    global: &[(&str, &str)],
    group: &[(&str, &str)],
    config: &SkillLoaderConfig,
) -> Vec<LoadedSkill> {
    let global_root = format!("{groups_dir}/global/skills");
    let group_root = format!("{groups_dir}/dev/skills");
    let global = load_skills_from_root(
        &skill_files(&global_root, global),
        &global_root,
        SkillSource::Global,
        config.max_bytes_per_skill,
    );
    let group = load_skills_from_root(
        &skill_files(&group_root, group),
        &group_root,
        SkillSource::Group,
        config.max_bytes_per_skill,
    );
    load_group_skills(global, group, config)
}

#[test]
fn load_group_skills_merges_global_and_group_with_override() {
    let skills = loaded(
        "/tmp/groups",
        &[("research", "global research")],
        &[
            ("research", "group research override"),
            ("sql", "group sql skill"),
        ],
        &SkillLoaderConfig::default(),
    );

    assert_eq!(skills.len(), 2);
    assert_eq!(skills[0].name, "research");
    assert_eq!(skills[0].source, SkillSource::Group);
    assert_eq!(skills[0].instructions, "group research override");
    assert_eq!(skills[1].name, "sql");
}

#[test]
fn load_group_skills_truncates_and_limits() {
    let skills = loaded(
        "/tmp/groups",
        &[("alpha", "1234567890abcdef"), ("beta", "beta")],
        &[],
        &SkillLoaderConfig {
            max_skills: 1,
            max_bytes_per_skill: 10,
        },
    );

    assert_eq!(skills.len(), 1);
    assert_eq!(skills[0].name, "alpha");
    assert_eq!(skills[0].instructions, "1234567890");
}

#[test]
fn skills_are_named_and_rendered() {
    assert_eq!(skill_name("/s/a/SKILL.md", "/s"), "a");
    assert_eq!(truncate_utf8("한글", 4), "한");
    assert_eq!(render_skill_instructions(&[]), None);
    let skills = loaded(
        "/g",
        &[("a", " text ")],
        &[],
        &SkillLoaderConfig::default(),
    );
    let text = render_skill_instructions(&skills).expect("text");
    assert!(text.contains("a") && text.contains("text") && text.contains("global"));
}

fn group(name: &str, folder: &str, requires_trigger: bool) -> RegisteredGroup {
    RegisteredGroup {
        name: name.to_string(),
        folder: folder.to_string(),
        trigger: "@Andy".to_string(),
        added_at: "2026-02-19T10:00:00.000Z".to_string(),
        container_config: None,
        requires_trigger: Some(requires_trigger),
    }
}

fn pair(key: &str, value: &str) -> (String, String) {
    (key.to_string(), value.to_string())
}

#[test]
fn migrates_legacy_json_state_files_once() {
    let mut dev = group("Dev Team", "dev-team", true);
    dev.container_config = Some(ContainerConfig {
        additional_mounts: vec![AdditionalMount {
            host_path: "/tmp/project".to_string(),
            container_path: Some("project".to_string()),
            readonly: Some(true),
        }],
        timeout_ms: Some(600000),
    });
    let first = migrate_json_state(&LegacyState {
        router: Some(RouterStateJson {
            last_timestamp: Some("2026-02-19T10:00:00.000Z".to_string()),
            last_agent_timestamp: Some(vec![pair("main@local", "2026-02-19T10:00:01.000Z")]),
        }),
        sessions: Some(vec![pair("main", "session-main"), pair("dev-team", "session-dev")]),
        groups: Some(vec![
            ("main@local".to_string(), group("Main", "main", false)),
            ("12345@g.us".to_string(), dev),
        ]),
    });
    assert!(first.report.has_changes());
    assert_eq!(first.report.migrated_files.len(), 3);
    assert_eq!(first.report.router_state_keys, 2);
    assert_eq!(first.report.sessions, 2);
    assert_eq!(first.report.groups, 2);

    assert_eq!(
        first.router_state[0],
        pair("last_timestamp", "2026-02-19T10:00:00.000Z")
    );
    assert_eq!(first.router_state[1].0, "last_agent_timestamp");
    let cursors = load_cursors(Some(&first.router_state[1].1));
    assert_eq!(
        cursors.get("main@local").map(String::as_str),
        Some("2026-02-19T10:00:01.000Z")
    );
    assert!(first.sessions.contains(&pair("main", "session-main")));
    assert!(first.sessions.contains(&pair("dev-team", "session-dev")));
    assert!(first.groups.iter().any(|(jid, _)| jid == "main@local"));
    assert!(first.groups.iter().any(|(jid, _)| jid == "12345@g.us"));
    assert_eq!(archive_name("router_state.json", 0), "router_state.json.migrated");
    assert_eq!(archive_name("router_state.json", 2), "router_state.json.migrated.2");

    let second = migrate_json_state(&LegacyState {
        router: None,
        sessions: None,
        groups: None,
    });
    assert!(!second.report.has_changes());
    assert_eq!(second.report.migrated_files.len(), 0);
    assert_eq!(second.report.router_state_keys, 0);
    assert_eq!(second.report.sessions, 0);
    assert_eq!(second.report.groups, 0);
}

#[test]
fn enums_have_stored_names() {
    for value in [ScheduleType::Cron, ScheduleType::Interval, ScheduleType::Once] {
        assert_eq!(ScheduleType::from_str(value.as_str()), Some(value));
    }
    for value in [ContextMode::Group, ContextMode::Isolated] {
        assert_eq!(ContextMode::from_str(value.as_str()), Some(value));
    }
    for value in [TaskStatus::Active, TaskStatus::Paused, TaskStatus::Completed] {
        assert_eq!(TaskStatus::from_str(value.as_str()), Some(value));
    }
    assert_eq!(TaskStatus::from_str("gone"), None);
    assert_eq!(
        DbError::InvalidEnum {
            field: "status",
            value: "gone".to_string(),
        }
        .message(),
        "invalid enum value for status: gone"
    );
}

#[test]
fn skill_names_are_compared_without_case() {
    let skills = loaded(
        "/g",
        &[("Research", "shared"), ("zoo", "z")],
        &[("research", "own")],
        &SkillLoaderConfig::default(),
    );
    assert_eq!(skills.len(), 2);
    assert_eq!(skills[0].name, "research");
    assert_eq!(skills[0].instructions, "own");
    assert_eq!(skills[1].name, "zoo");
}

#[test]
fn sessions_are_read_from_an_object_of_texts() {
    let mut sessions =
        read_sessions(r#"{"main": "session-main", "dev-team": "session-dev", "main": "later"}"#)
            .expect("sessions");
    sessions.sort();
    assert_eq!(
        sessions,
        vec![pair("dev-team", "session-dev"), pair("main", "later")]
    );
    assert_eq!(read_sessions("{}"), Ok(vec![]));
    assert_eq!(
        read_sessions(r#"{"main": 1}"#),
        Err("invalid type: integer `1`, expected a string at line 1 column 10".to_string())
    );
    assert_eq!(
        read_sessions("[]"),
        Err("invalid type: sequence, expected a map at line 1 column 0".to_string())
    );
    // A member that is written twice has to be a text both times.
    for text in [
        r#"{"main": 1, "main": "s"}"#,
        "{ invalid json",
        "",
        "null",
        r#"{"main": "s"} {}"#,
    ] {
        assert_eq!(
            read_sessions(text),
            Err(
                serde_json::from_str::<std::collections::HashMap<String, String>>(text)
                    .expect_err("no sessions")
                    .to_string()
            )
        );
    }
}

#[test]
fn skill_names_go_by_path_components() {
    for root in ["/s", "/s/", "/s//", "/./s", "//s/."] {
        assert_eq!(skill_name("/s/a/SKILL.md", root), "a");
        assert_eq!(skill_name("/s//a/./SKILL.md", root), "a");
        assert_eq!(skill_name("/s/SKILL.md", root), "default");
        assert_eq!(skill_name("/sa/b/SKILL.md", root), "default");
    }
    assert_eq!(skill_name("s/a/b/SKILL.md", "s/"), "a");
    assert_eq!(skill_name("/s/../a/SKILL.md", "/s"), "..");
    assert_eq!(skill_name("/s/a/SKILL.md", "s"), "default");
}

#[test]
fn what_was_archived_is_not_migrated_again() {
    let legacy = LegacyState {
        router: None,
        sessions: Some(vec![pair(" ", "nowhere"), pair("main", "session-main")]),
        groups: None,
    };
    let first = migrate_json_state(&legacy);
    assert_eq!(first.report.migrated_files, vec!["sessions.json".to_string()]);
    assert_eq!(first.sessions, vec![pair("main", "session-main")]);

    let archived = |name: &str| first.report.migrated_files.iter().any(|file| file == name);
    let left = LegacyState {
        router: if archived("router_state.json") { None } else { legacy.router },
        sessions: if archived("sessions.json") { None } else { legacy.sessions },
        groups: if archived("registered_groups.json") { None } else { legacy.groups },
    };
    let second = migrate_json_state(&left);
    assert!(!second.report.has_changes());
    assert!(second.router_state.is_empty());
    assert!(second.sessions.is_empty());
    assert!(second.groups.is_empty());
}
