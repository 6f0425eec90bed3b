use rust_claw::duration::Duration;
use rust_claw::group_queue::{
    input_payload, unique_ipc_name, ActiveContainerContext, GroupQueue, QueueAction,
};

type Queue = GroupQueue<&'static str, ()>;

fn queue(max_concurrent: usize, max_retries: u32) -> Queue {
    GroupQueue::with_retry_config(max_concurrent, Duration::from_millis(5), max_retries)
}

fn runs_messages(action: &QueueAction<&'static str>, jid: &str) -> bool {
    matches!(action, QueueAction::RunMessages { group_jid } if group_jid == jid)
}

fn runs_task(action: &QueueAction<&'static str>, jid: &str, id: &str) -> bool {
    matches!(action, QueueAction::RunTask { group_jid, task } if group_jid == jid && task.id == id)
}

fn retry_millis(actions: &[QueueAction<&'static str>]) -> Option<u128> {
    match actions.last() {
        Some(QueueAction::ScheduleRetry { delay, .. }) => Some(delay.as_millis()),
        _ => None,
    }
}

#[test]
fn only_runs_one_container_per_group() {
    let mut queue = queue(2, 5);
    let first = queue.enqueue_message_check("group1@g.us").expect("starts");
    assert!(runs_messages(&first, "group1@g.us"));
    assert!(queue.enqueue_message_check("group1@g.us").is_none());

    let next = queue.finish_messages_run("group1@g.us", true);
    assert_eq!(next.len(), 1);
    assert!(runs_messages(&next[0], "group1@g.us"));
    assert!(queue.finish_messages_run("group1@g.us", true).is_empty());
}

#[test]
fn respects_global_concurrency_limit() {
    let mut queue = queue(2, 5);
    assert!(queue.enqueue_message_check("group1@g.us").is_some());
    assert!(queue.enqueue_message_check("group2@g.us").is_some());
    assert!(queue.enqueue_message_check("group3@g.us").is_none());

    let next = queue.finish_messages_run("group2@g.us", true);
    assert_eq!(next.len(), 1);
    assert!(runs_messages(&next[0], "group3@g.us"));
}

#[test]
fn drains_tasks_before_messages_for_same_group() {
    let mut queue = queue(1, 5);
    assert!(queue.enqueue_message_check("group1@g.us").is_some());
    let (action, close) = queue.enqueue_task("group1@g.us", "task-1", "task");
    assert!(action.is_none() && close);
    assert!(queue.enqueue_message_check("group1@g.us").is_none());

    let second = queue.finish_messages_run("group1@g.us", true);
    assert_eq!(second.len(), 1);
    assert!(runs_task(&second[0], "group1@g.us", "task-1"));
    let third = queue.finish_task_run("group1@g.us");
    assert_eq!(third.len(), 1);
    assert!(runs_messages(&third[0], "group1@g.us"));
}

#[test]
fn retries_with_exponential_backoff_on_failure() {
    let mut queue = queue(1, 5);
    let mut waits = Vec::new();
    for _ in 0..4 {
        assert!(queue.enqueue_message_check("group1@g.us").is_some());
        let actions = queue.finish_messages_run("group1@g.us", false);
        waits.push(retry_millis(&actions).expect("retry"));
    }
    assert_eq!(waits, vec![5, 10, 20, 40]);
    assert!(queue.enqueue_message_check("group1@g.us").is_some());
    assert!(queue.finish_messages_run("group1@g.us", true).is_empty());
    assert!(queue.enqueue_message_check("group1@g.us").is_some());
    let again = queue.finish_messages_run("group1@g.us", false);
    assert_eq!(retry_millis(&again), Some(5));
}

#[test]
fn prevents_new_enqueues_after_shutdown() {
    let mut queue = queue(1, 5);
    let (active, containers) = queue.shutdown();
    assert_eq!((active, containers.len()), (0, 0));
    assert!(queue.enqueue_message_check("group1@g.us").is_none());
    assert!(queue.enqueue_task("group1@g.us", "t", "run").0.is_none());
}

#[test]
fn stops_retrying_after_max_retries() {
    let mut queue = queue(1, 2);
    let mut calls = 0;
    loop {
        assert!(queue.enqueue_message_check("group1@g.us").is_some());
        calls += 1;
        let actions = queue.finish_messages_run("group1@g.us", false);
        if retry_millis(&actions).is_none() {
            break;
        }
    }
    assert_eq!(calls, 3);
}

#[test]
fn drains_waiting_groups_when_slots_free_up() {
    let mut queue = queue(2, 5);
    queue.enqueue_message_check("group1@g.us");
    queue.enqueue_message_check("group2@g.us");
    queue.enqueue_message_check("group3@g.us");
    let (action, _) = queue.enqueue_task("group4@g.us", "t", "run");
    assert!(action.is_none());
    let next = queue.finish_messages_run("group1@g.us", true);
    assert_eq!(next.len(), 1);
    assert!(runs_messages(&next[0], "group3@g.us"));
    let next = queue.finish_messages_run("group2@g.us", true);
    assert_eq!(next.len(), 1);
    assert!(runs_task(&next[0], "group4@g.us", "t"));
}

#[test]
fn send_message_writes_ipc_json_when_group_is_active() {
    let mut queue = queue(1, 1);
    queue.set_ipc_base_dir("/tmp/ipc".to_string());
    assert_eq!(queue.active_input_dir("group@g.us"), None);
    queue.enqueue_message_check("group@g.us");
    assert_eq!(queue.active_input_dir("group@g.us"), None);
    queue.register_active_group_folder("group@g.us", "dev-team");
    assert_eq!(
        queue.active_input_dir("group@g.us").as_deref(),
        Some("/tmp/ipc/dev-team/input")
    );
    let payload: serde_json::Value =
        serde_json::from_str(&input_payload("<messages>hello</messages>")).expect("json");
    assert_eq!(payload["type"], "message");
    assert_eq!(payload["text"], "<messages>hello</messages>");
    assert_eq!(input_payload("a\"b"), "{\"text\":\"a\\\"b\",\"type\":\"message\"}");
    assert_eq!(unique_ipc_name(1_700_000_000_000, 42), "1700000000000-42");
}

#[test]
fn close_stdin_writes_close_sentinel_for_active_group() {
    let mut queue = queue(1, 1);
    queue.enqueue_message_check("group@g.us");
    queue.register_active_group_folder("group@g.us", "dev-team");
    assert_eq!(queue.active_input_dir("group@g.us"), None);
    queue.set_ipc_base_dir("ipc/".to_string());
    assert_eq!(
        queue.active_input_dir("group@g.us").as_deref(),
        Some("ipc/dev-team/input")
    );
    queue.finish_messages_run("group@g.us", true);
    assert_eq!(queue.active_input_dir("group@g.us"), None);
}

#[test]
fn enqueue_task_closes_active_message_stdin_to_unblock_task() {
    let mut queue = queue(1, 1);
    queue.enqueue_message_check("group@g.us");
    queue.register_active_group_folder("group@g.us", "dev-team");
    let (action, close) = queue.enqueue_task("group@g.us", "task-1", "run");
    assert!(action.is_none());
    assert!(close);
    let next = queue.finish_messages_run("group@g.us", true);
    assert!(runs_task(&next[0], "group@g.us", "task-1"));
    let (action, close) = queue.enqueue_task("group@g.us", "task-2", "run");
    assert!(action.is_none());
    assert!(!close);
}

#[test]
fn enqueue_task_ignores_duplicate_when_same_task_is_already_active() {
    let mut queue = queue(1, 1);
    let (action, _) = queue.enqueue_task("group@g.us", "task-1", "first");
    assert!(action.is_some());
    let (action, _) = queue.enqueue_task("group@g.us", "task-1", "second");
    assert!(action.is_none());
    queue.enqueue_task("group@g.us", "task-2", "once");
    queue.enqueue_task("group@g.us", "task-2", "twice");
    let next = queue.finish_task_run("group@g.us");
    assert_eq!(next.len(), 1);
    assert!(matches!(&next[0], QueueAction::RunTask { task, .. } if task.run == "once"));
    assert!(queue.finish_task_run("group@g.us").is_empty());
}

#[test]
fn registers_and_clears_active_container_context() {
    let mut queue = queue(1, 1);
    queue.enqueue_message_check("group@g.us");
    assert!(queue
        .active_container_context("group@g.us")
        .map(|ctx| ctx.active)
        .unwrap_or(false));

    queue.register_active_container(
        "group@g.us",
        "dev-team",
        Some(4242),
        Some("rust-claw-dev-team-1".to_string()),
    );
    assert_eq!(
        queue.active_container_context("group@g.us"),
        Some(ActiveContainerContext {
            active: true,
            process_id: Some(4242),
            container_name: Some("rust-claw-dev-team-1".to_string()),
            group_folder: Some("dev-team".to_string()),
        })
    );

    queue.finish_messages_run("group@g.us", true);
    assert_eq!(
        queue.active_container_context("group@g.us"),
        Some(ActiveContainerContext {
            active: false,
            process_id: None,
            container_name: None,
            group_folder: None,
        })
    );
}

#[test]
fn does_not_register_container_context_for_inactive_group() {
    let mut queue: Queue = GroupQueue::with_retry_config(1, Duration::from_millis(5), 1);
    queue.register_active_container(
        "inactive@g.us",
        "inactive",
        Some(1),
        Some("container".to_string()),
    );
    assert_eq!(
        queue.active_container_context("inactive@g.us"),
        Some(ActiveContainerContext {
            active: false,
            process_id: None,
            container_name: None,
            group_folder: None,
        })
    );
    assert_eq!(queue.active_container_context("unknown@g.us"), None);
}

#[test]
fn shutdown_names_the_containers_that_run() {
    let mut queue = queue(3, 5);
    queue.enqueue_message_check("a");
    queue.enqueue_message_check("b");
    queue.register_active_container("a", "fa", Some(1), Some("ct-a".to_string()));
    queue.enqueue_message_check("a");
    let (active, containers) = queue.shutdown();
    assert_eq!(active, 2);
    assert_eq!(containers, vec!["ct-a".to_string()]);
    assert!(queue.finish_messages_run("a", true).is_empty());
    let failed = queue.finish_messages_run("b", false);
    assert_eq!(retry_millis(&failed), Some(5));
}

#[test]
fn a_waiting_group_that_runs_by_then_is_passed_over() {
    let mut queue = queue(1, 5);
    queue.enqueue_message_check("a");
    queue.enqueue_message_check("a");
    queue.enqueue_message_check("b");
    let next = queue.finish_messages_run("a", true);
    assert_eq!(next.len(), 1);
    assert!(runs_messages(&next[0], "a"));
    let next = queue.finish_messages_run("a", true);
    assert_eq!(next.len(), 1);
    assert!(runs_messages(&next[0], "b"));
    assert!(queue.finish_messages_run("b", true).is_empty());
}

#[test]
fn default_queue_runs_five_groups() {
    let mut queue: Queue = GroupQueue::default();
    for jid in ["a", "b", "c", "d", "e"] {
        assert!(queue.enqueue_message_check(jid).is_some());
    }
    assert!(queue.enqueue_message_check("f").is_none());
}

#[test]
fn defaults_and_callback_are_kept() {
    let mut queue: GroupQueue<(), u8> = GroupQueue::new(0);
    assert!(queue.process_messages_fn().is_none());
    queue.set_process_messages_fn(7);
    assert_eq!(queue.process_messages_fn(), Some(&7));
    assert!(queue.enqueue_message_check("a").is_some());
    assert!(queue.enqueue_message_check("b").is_none());
    let actions = queue.finish_messages_run("a", false);
    assert_eq!(actions.len(), 2);
    assert!(matches!(
        actions.last(),
        Some(QueueAction::ScheduleRetry { delay, .. }) if delay.as_millis() == 5_000
    ));
}

#[test]
fn waits_that_cannot_be_held_fall_back_to_the_first() {
    let longest = Duration {
        secs: u64::MAX,
        nanos: 999_999_999,
    };
    let mut queue: Queue = GroupQueue::with_retry_config(1, longest, 5);
    queue.enqueue_message_check("a");
    queue.finish_messages_run("a", false);
    queue.enqueue_message_check("a");
    let actions = queue.finish_messages_run("a", false);
    assert!(matches!(
        actions.last(),
        Some(QueueAction::ScheduleRetry { delay, .. }) if *delay == longest
    ));
}

#[test]
fn all_pending_work_is_started_once_when_runs_only_end() {
    let mut queue = queue(2, 5);
    queue.enqueue_message_check("a");
    queue.enqueue_message_check("b");
    queue.enqueue_message_check("a");
    queue.enqueue_task("c", "t1", "run");
    queue.enqueue_task("c", "t2", "run");
    queue.enqueue_message_check("c");
    queue.enqueue_message_check("d");

    let mut running = vec![("a".to_string(), false), ("b".to_string(), false)];
    let mut started = Vec::new();
    let mut ended = 0;
    while !running.is_empty() {
        let (jid, is_task) = running.remove(0);
        ended += 1;
        let actions = if is_task {
            queue.finish_task_run(&jid)
        } else {
            queue.finish_messages_run(&jid, true)
        };
        for action in actions {
            match action {
                QueueAction::RunMessages { group_jid } => {
                    started.push(format!("{group_jid}:messages"));
                    running.push((group_jid, false));
                }
                QueueAction::RunTask { group_jid, task } => {
                    started.push(format!("{group_jid}:{}", task.id));
                    running.push((group_jid, true));
                }
                QueueAction::ScheduleRetry { .. } => panic!("no retry"),
            }
        }
        assert!(running.len() <= 2);
    }
    assert_eq!(ended, 2 + 5);
    let of = |jid: &str| -> Vec<&str> {
        started
            .iter()
            .filter_map(|s| s.strip_prefix(jid))
            .collect()
    };
    assert_eq!(of("a:"), vec!["messages"]);
    assert!(of("b:").is_empty());
    assert_eq!(of("c:"), vec!["t1", "t2", "messages"]);
    assert_eq!(of("d:"), vec!["messages"]);
}

#[test]
fn waiting_groups_get_their_turn_as_slots_are_freed() {
    let mut queue = queue(1, 5);
    queue.enqueue_message_check("a");
    queue.enqueue_message_check("b");
    queue.enqueue_message_check("c");
    // A run that goes on at once frees no slot.
    queue.enqueue_message_check("a");
    assert!(runs_messages(&queue.finish_messages_run("a", true)[0], "a"));
    // The first freed slot goes to the group that waits first, whatever is asked
    // for meanwhile.
    queue.enqueue_message_check("d");
    assert!(runs_messages(&queue.finish_messages_run("a", true)[0], "b"));
    assert!(runs_messages(&queue.finish_messages_run("b", true)[0], "c"));
    assert!(runs_messages(&queue.finish_messages_run("c", true)[0], "d"));
}

#[test]
fn messages_are_started_after_the_tasks_of_their_group() {
    let mut queue = queue(2, 5);
    queue.enqueue_task("a", "t1", "one");
    queue.enqueue_task("a", "t2", "two");
    assert!(queue.enqueue_message_check("a").is_none());
    // What other groups ask for meanwhile makes no difference.
    queue.enqueue_message_check("b");
    queue.enqueue_message_check("c");
    assert!(runs_task(&queue.finish_task_run("a")[0], "a", "t2"));
    // A task that is given in between goes first.
    queue.enqueue_task("a", "t3", "three");
    queue.enqueue_message_check("b");
    assert!(runs_task(&queue.finish_task_run("a")[0], "a", "t3"));
    assert!(runs_messages(&queue.finish_task_run("a")[0], "a"));
}
