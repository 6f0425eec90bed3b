//! What can be relied on of a group's container: what it sees, what it is given and
//! what it amounts to.

use vstd::prelude::*;
use vstd::string::*;

use crate::agent_runner_container::{
    auth_dir, auth_mounts, collects, container_args, container_conclusion, effective_timeout,
    env_args, env_value, granted, idle_millis, listed_keys, log_content, log_limit, marked_lines, mount_args, reports, sanitized, set_values,
    volume_mounts, with_tz, work_mounts, CollectorView, ContainerAgentRunner,
    ContainerInputPayload, ExistingDirectories, ProcessOutput, VolumeView,
};
use crate::container_runner::{
    code_shown, good_results, ContainerOutput, ContainerOutputStatus,
};
use crate::duration::{max_nanos, Duration};
use crate::group_queue::input_dir;
use crate::mount_security::ValidatedMount;
use crate::number::{decimal, signed_decimal, unsigned_value};
use crate::orchestrator::agent::{AgentRunInput, AgentStreamEvent, AgentStreamStatus};
use crate::paths::joined_path;
use crate::text::{
    byte_head, byte_len, contains_text, is_alnum, joined, lines_of, occurs_at, tail, trimmed,
};

verus! {

// ---------------------------------------------------------------------------
// Mounts
// ---------------------------------------------------------------------------

/// Whether the container finds a directory of the host at a path, and nothing else
/// there.
pub open spec fn finds(
    mounts: Seq<VolumeView>,
    path: Seq<char>,
    host: Seq<char>,
    readonly: bool,
) -> bool {
    exists|i: int| #[trigger] finds_at(mounts, i, path, host, readonly)
}

pub open spec fn finds_at(
    mounts: Seq<VolumeView>,
    i: int,
    path: Seq<char>,
    host: Seq<char>,
    readonly: bool,
) -> bool {
    &&& 0 <= i < mounts.len()
    &&& mounts[i] == (VolumeView { host_path: host, container_path: path, readonly })
    &&& forall|j: int|
        0 <= j < mounts.len() && j != i ==> (#[trigger] mounts[j]).container_path != path
}

/// Whether the container finds nothing at a path.
pub open spec fn finds_nothing(mounts: Seq<VolumeView>, path: Seq<char>) -> bool {
    forall|j: int| 0 <= j < mounts.len() ==> (#[trigger] mounts[j]).container_path != path
}

/// Whether additional mounts lie where additional mounts belong.
pub open spec fn lie_apart(extra: Seq<ValidatedMount>) -> bool {
    forall|i: int|
        0 <= i < extra.len() ==> "/workspace/extra/"@.is_prefix_of(
            (#[trigger] extra[i]).container_path@,
        )
}

#[verifier::spinoff_prover]
proof fn lemma_mount_points()
    ensures
        "/workspace/group"@.len() == 16,
        "/workspace/ipc"@.len() == 14,
        "/home/node/.codex"@.len() == 17,
        "/workspace/global"@.len() == 17,
        "/workspace/project"@.len() == 18,
        "/workspace/codex-auth"@.len() == 21,
        "/workspace/extra/"@.len() == 17,
        "/home/node/.codex"@[11] == '.',
        "/workspace/global"@[11] == 'g',
        "/workspace/project"@[11] == 'p',
        "/workspace/codex-auth"@[11] == 'c',
        "/workspace/extra/"@[11] == 'e',
{
    reveal_strlit("/workspace/group");
    reveal_strlit("/workspace/ipc");
    reveal_strlit("/home/node/.codex");
    reveal_strlit("/workspace/global");
    reveal_strlit("/workspace/project");
    reveal_strlit("/workspace/codex-auth");
    reveal_strlit("/workspace/extra/");
}

proof fn lemma_lies_apart(path: Seq<char>)
    requires
        "/workspace/extra/"@.is_prefix_of(path),
    ensures
        path.len() >= 17,
        path[11] == 'e',
{
    lemma_mount_points();
    assert(path.subrange(0, 17)[11] == path[11]);
}

/// A group's container sees the group's own directories, each at its place and nothing
/// else there: its folder, its sessions, and the directory through which it is talked
/// to, which is the one that the queue writes its input to and that its requests are
/// read from. It may write to all three.
pub proof fn container_sees_its_own_directories(
    runner: ContainerAgentRunner,
    folder: Seq<char>,
    is_main: bool,
    existing: ExistingDirectories,
    extra: Seq<ValidatedMount>,
)
    requires
        lie_apart(extra),
    ensures
        ({
            let mounts = volume_mounts(runner, folder, is_main, existing, extra);
            let ipc = joined_path(joined_path(runner.data_dir@, "ipc"@), folder);
            let sessions = joined_path(joined_path(runner.data_dir@, "sessions"@), folder);
            &&& finds(mounts, "/workspace/group"@, joined_path(runner.groups_dir@, folder), false)
            &&& finds(mounts, "/home/node/.codex"@, joined_path(sessions, ".codex"@), false)
            &&& finds(mounts, "/workspace/ipc"@, ipc, false)
            &&& input_dir(Some(joined_path(runner.data_dir@, "ipc"@)), folder) == Some(
                joined_path(ipc, "input"@),
            )
        }),
{
    let mounts = volume_mounts(runner, folder, is_main, existing, extra);
    let work = work_mounts(runner, folder, is_main, existing);
    let auth = auth_mounts(runner, existing);
    let fixed = mounts.len() - extra.len();
    let ipc = joined_path(joined_path(runner.data_dir@, "ipc"@), folder);
    let sessions = joined_path(joined_path(runner.data_dir@, "sessions"@), folder);
    let group: int = if is_main {
        1
    } else {
        0
    };
    lemma_mount_points();
    assert forall|j: int| fixed <= j < mounts.len() implies (
    #[trigger] mounts[j]).container_path.len() >= 17 && mounts[j].container_path[11] == 'e' by {
        assert(mounts[j] == granted(extra)[j - fixed]);
        assert("/workspace/extra/"@.is_prefix_of(extra[j - fixed].container_path@));
        lemma_lies_apart(extra[j - fixed].container_path@);
    }
    assert(work.len() <= 2);
    assert(auth.len() <= 1);
    assert(fixed == work.len() + auth.len() + 2);
    assert(mounts[group] == work[group]);
    assert(finds_at(
        mounts,
        group,
        "/workspace/group"@,
        joined_path(runner.groups_dir@, folder),
        false,
    ));
    assert(finds_at(
        mounts,
        work.len() as int,
        "/home/node/.codex"@,
        joined_path(sessions, ".codex"@),
        false,
    ));
    assert(finds_at(mounts, fixed - 1, "/workspace/ipc"@, ipc, false));
}

/// What a container sees beyond the group's own directories: the project is for the
/// main group alone, what all groups share is for the others and not to be written to,
/// nor is the credentials' seed; the additional mounts are all there.
pub proof fn container_sees_little_else(
    runner: ContainerAgentRunner,
    folder: Seq<char>,
    is_main: bool,
    existing: ExistingDirectories,
    extra: Seq<ValidatedMount>,
)
    requires
        lie_apart(extra),
    ensures
        ({
            let mounts = volume_mounts(runner, folder, is_main, existing, extra);
            &&& if is_main {
                finds(mounts, "/workspace/project"@, runner.project_root@, false)
            } else {
                finds_nothing(mounts, "/workspace/project"@)
            }
            &&& if !is_main && existing.global {
                finds(
                    mounts,
                    "/workspace/global"@,
                    joined_path(runner.groups_dir@, "global"@),
                    true,
                )
            } else {
                finds_nothing(mounts, "/workspace/global"@)
            }
            &&& if existing.codex_auth && runner.codex_auth_dir is Some {
                finds(mounts, "/workspace/codex-auth"@, runner.codex_auth_dir->Some_0@, true)
            } else {
                finds_nothing(mounts, "/workspace/codex-auth"@)
            }
            &&& forall|i: int|
                0 <= i < extra.len() ==> mounts.contains(
                    VolumeView {
                        host_path: (#[trigger] extra[i]).host_path@,
                        container_path: extra[i].container_path@,
                        readonly: extra[i].readonly,
                    },
                )
        }),
{
    let mounts = volume_mounts(runner, folder, is_main, existing, extra);
    let work = work_mounts(runner, folder, is_main, existing);
    let auth = auth_mounts(runner, existing);
    let fixed = mounts.len() - extra.len();
    lemma_mount_points();
    assert forall|j: int| fixed <= j < mounts.len() implies (
    #[trigger] mounts[j]).container_path.len() >= 17 && mounts[j].container_path[11] == 'e' by {
        assert(mounts[j] == granted(extra)[j - fixed]);
        assert("/workspace/extra/"@.is_prefix_of(extra[j - fixed].container_path@));
        lemma_lies_apart(extra[j - fixed].container_path@);
    }
    assert(work.len() <= 2);
    assert(auth.len() <= 1);
    assert(fixed == work.len() + auth.len() + 2);
    if is_main {
        assert(finds_at(mounts, 0, "/workspace/project"@, runner.project_root@, false));
    }
    if !is_main && existing.global {
        assert(finds_at(
            mounts,
            1,
            "/workspace/global"@,
            joined_path(runner.groups_dir@, "global"@),
            true,
        ));
    }
    if existing.codex_auth && runner.codex_auth_dir is Some {
        assert(finds_at(
            mounts,
            work.len() as int + 1,
            "/workspace/codex-auth"@,
            runner.codex_auth_dir->Some_0@,
            true,
        ));
    }
    assert forall|i: int| 0 <= i < extra.len() implies mounts.contains(
        VolumeView {
            host_path: (#[trigger] extra[i]).host_path@,
            container_path: extra[i].container_path@,
            readonly: extra[i].readonly,
        },
    ) by {
        assert(mounts[fixed + i] == granted(extra)[i]);
    }
}

// ---------------------------------------------------------------------------
// Arguments
// ---------------------------------------------------------------------------

/// Whether two arguments stand next to each other.
pub open spec fn passes(args: Seq<Seq<char>>, flag: Seq<char>, value: Seq<char>) -> bool {
    exists|k: int| #[trigger] passed_at(args, k, flag, value)
}

pub open spec fn passed_at(args: Seq<Seq<char>>, k: int, flag: Seq<char>, value: Seq<char>) -> bool {
    0 <= k < args.len() - 1 && args[k] == flag && args[k + 1] == value
}

proof fn lemma_passes_within(
    before: Seq<Seq<char>>,
    args: Seq<Seq<char>>,
    after: Seq<Seq<char>>,
    flag: Seq<char>,
    value: Seq<char>,
)
    requires
        passes(args, flag, value),
    ensures
        passes(before + args + after, flag, value),
{
    let k = choose|k: int| #[trigger] passed_at(args, k, flag, value);
    assert(passed_at(before + args + after, before.len() + k, flag, value));
}

proof fn lemma_env_passed(envs: Seq<(Seq<char>, Seq<char>)>, i: int)
    requires
        0 <= i < envs.len(),
    ensures
        passes(env_args(envs), "-e"@, envs[i].0 + "="@ + envs[i].1),
    decreases envs.len(),
{
    let before = env_args(envs.drop_last());
    let text = envs.last().0 + "="@ + envs.last().1;
    let none = Seq::<Seq<char>>::empty();
    if i == envs.len() - 1 {
        assert(passed_at(env_args(envs), before.len() as int, "-e"@, text));
    } else {
        lemma_env_passed(envs.drop_last(), i);
        lemma_passes_within(none, before, seq!["-e"@, text], "-e"@, envs[i].0 + "="@ + envs[i].1);
        assert(none + before + seq!["-e"@, text] =~= env_args(envs));
    }
}

/// How a mount is passed: for reading only by its long form, else by its short one.
pub open spec fn mount_passed(args: Seq<Seq<char>>, mount: VolumeView) -> bool {
    if mount.readonly {
        passes(
            args,
            "--mount"@,
            "type=bind,source="@ + mount.host_path + ",target="@ + mount.container_path
                + ",readonly"@,
        )
    } else {
        passes(args, "-v"@, mount.host_path + ":"@ + mount.container_path)
    }
}

proof fn lemma_mount_passed(mounts: Seq<VolumeView>, i: int)
    requires
        0 <= i < mounts.len(),
    ensures
        mount_passed(mount_args(mounts), mounts[i]),
    decreases mounts.len(),
{
    let before = mount_args(mounts.drop_last());
    let all = mount_args(mounts);
    let none = Seq::<Seq<char>>::empty();
    let added = seq![all[before.len() as int], all[before.len() as int + 1]];
    assert(none + before + added =~= all);
    if i == mounts.len() - 1 {
        let mount = mounts.last();
        assert(passed_at(all, before.len() as int, added[0], added[1]));
        assert(mounts[i] == mount);
    } else {
        let mount = mounts[i];
        assert(mounts.drop_last()[i] == mount);
        lemma_mount_passed(mounts.drop_last(), i);
        if mount.readonly {
            lemma_passes_within(
                none,
                before,
                added,
                "--mount"@,
                "type=bind,source="@ + mount.host_path + ",target="@ + mount.container_path
                    + ",readonly"@,
            );
        } else {
            lemma_passes_within(
                none,
                before,
                added,
                "-v"@,
                mount.host_path + ":"@ + mount.container_path,
            );
        }
    }
}

proof fn lemma_arg_counts(envs: Seq<(Seq<char>, Seq<char>)>, mounts: Seq<VolumeView>)
    ensures
        env_args(envs).len() == 2 * envs.len(),
        mount_args(mounts).len() == 2 * mounts.len(),
    decreases envs.len() + mounts.len(),
{
    if envs.len() > 0 {
        lemma_arg_counts(envs.drop_last(), mounts);
    } else if mounts.len() > 0 {
        lemma_arg_counts(envs, mounts.drop_last());
    }
}

/// A container is run under its name and image, with every setting and every mount,
/// none of them writable that is for reading only, and with nothing else.
pub proof fn container_is_run_as_planned(
    image: Seq<char>,
    mounts: Seq<VolumeView>,
    name: Seq<char>,
    envs: Seq<(Seq<char>, Seq<char>)>,
)
    ensures
        ({
            let args = container_args(image, mounts, name, envs);
            &&& args[0] == "run"@
            &&& passes(args, "--name"@, name)
            &&& args.last() == image
            &&& args.len() == 6 + 2 * envs.len() + 2 * mounts.len()
            &&& forall|i: int|
                0 <= i < envs.len() ==> passes(
                    args,
                    "-e"@,
                    (#[trigger] envs[i]).0 + "="@ + envs[i].1,
                )
            &&& forall|i: int|
                0 <= i < mounts.len() ==> mount_passed(args, #[trigger] mounts[i])
        }),
{
    let args = container_args(image, mounts, name, envs);
    let head = seq!["run"@, "-i"@, "--rm"@, "--name"@, name];
    let none = Seq::<Seq<char>>::empty();
    lemma_arg_counts(envs, mounts);
    assert(passed_at(args, 3, "--name"@, name));
    assert forall|i: int| 0 <= i < envs.len() implies passes(
        args,
        "-e"@,
        (#[trigger] envs[i]).0 + "="@ + envs[i].1,
    ) by {
        lemma_env_passed(envs, i);
        lemma_passes_within(
            head,
            env_args(envs),
            mount_args(mounts) + seq![image],
            "-e"@,
            envs[i].0 + "="@ + envs[i].1,
        );
        assert(head + env_args(envs) + (mount_args(mounts) + seq![image]) =~= args);
    }
    assert forall|i: int| 0 <= i < mounts.len() implies mount_passed(args, #[trigger] mounts[i]) by {
        let mount = mounts[i];
        let before = head + env_args(envs);
        lemma_mount_passed(mounts, i);
        assert(before + mount_args(mounts) + seq![image] =~= args);
        if mount.readonly {
            lemma_passes_within(
                before,
                mount_args(mounts),
                seq![image],
                "--mount"@,
                "type=bind,source="@ + mount.host_path + ",target="@ + mount.container_path
                    + ",readonly"@,
            );
        } else {
            lemma_passes_within(
                before,
                mount_args(mounts),
                seq![image],
                "-v"@,
                mount.host_path + ":"@ + mount.container_path,
            );
        }
    }
}

// ---------------------------------------------------------------------------
// Settings
// ---------------------------------------------------------------------------

/// Whatever is set under one of the keys is passed on, as it is set.
pub proof fn every_set_value_is_passed_on(keys: Seq<Seq<char>>, values: Seq<Option<Seq<char>>>)
    requires
        keys.len() == values.len(),
    ensures
        forall|k: int|
            0 <= k < keys.len() && (#[trigger] values[k]) is Some ==> set_values(
                keys,
                values,
            ).contains((keys[k], values[k]->Some_0)),
    decreases keys.len(),
{
    if keys.len() > 0 {
        let before = set_values(keys.drop_last(), values.drop_last());
        let all = set_values(keys, values);
        every_set_value_is_passed_on(keys.drop_last(), values.drop_last());
        assert forall|k: int|
            0 <= k < keys.len() && (#[trigger] values[k]) is Some implies all.contains(
            (keys[k], values[k]->Some_0),
        ) by {
            if k < keys.len() - 1 {
                assert(values.drop_last()[k] == values[k]);
                let i = choose|i: int|
                    0 <= i < before.len() && before[i] == (keys[k], values[k]->Some_0);
                assert(all[i] == before[i]);
            } else {
                assert(all[before.len() as int] == (keys[k], values[k]->Some_0));
            }
        }
    }
}

proof fn lemma_env_value_pushed(
    envs: Seq<(Seq<char>, Seq<char>)>,
    key: Seq<char>,
    pair: (Seq<char>, Seq<char>),
)
    ensures
        env_value(envs.push(pair), key) == (if env_value(envs, key) is Some {
            env_value(envs, key)
        } else if pair.0 == key {
            Some(pair.1)
        } else {
            None
        }),
    decreases envs.len(),
{
    let all = envs.push(pair);
    if envs.len() == 0 {
        assert(all[0] == pair);
        assert(env_value(all.drop_first(), key) is None);
    } else {
        lemma_env_value_pushed(envs.drop_first(), key, pair);
        assert(all[0] == envs[0]);
        assert(all.drop_first() =~= envs.drop_first().push(pair));
    }
}

/// A container's clock is set by the time zone that is configured, unless it is set on
/// its own; every other setting stays as it is.
pub proof fn container_clock_follows_the_time_zone(envs: Seq<(Seq<char>, Seq<char>)>, key: Seq<char>)
    ensures
        env_value(envs, "TZ"@) is Some ==> env_value(with_tz(envs), "TZ"@) == env_value(
            envs,
            "TZ"@,
        ),
        env_value(envs, "TZ"@) is None ==> env_value(with_tz(envs), "TZ"@) == env_value(
            envs,
            "TIMEZONE"@,
        ),
        key != "TZ"@ ==> env_value(with_tz(envs), key) == env_value(envs, key),
        envs.is_prefix_of(with_tz(envs)),
{
    let all = with_tz(envs);
    assert(all.subrange(0, envs.len() as int) =~= envs);
    if env_value(envs, "TIMEZONE"@) is Some {
        let pair = ("TZ"@, env_value(envs, "TIMEZONE"@)->Some_0);
        lemma_env_value_pushed(envs, "TZ"@, pair);
        lemma_env_value_pushed(envs, key, pair);
    }
}

/// A container runs for as long as its group is given, or else for as long as all are,
/// unless the agent may be idle for longer.
pub proof fn container_runs_for_its_time(
    configured: Option<Duration>,
    default: Duration,
    idle: Duration,
)
    ensures
        ({
            let given = match configured {
                Some(span) => span.total(),
                None => default.total(),
            };
            let least = idle.total() + 30_000_000_000;
            let time = effective_timeout(configured, default, idle);
            &&& time >= given
            &&& least <= max_nanos() ==> time >= least && (time == given || time == least)
            &&& least <= given && least <= max_nanos() ==> time == given
        }),
{
}

/// A container that failed amounts to an error that shows its code and ends with the end
/// of what it wrote there, whatever else it said.
pub proof fn failed_container_is_an_error(output: ProcessOutput, session: Option<Seq<char>>)
    ensures
        output.exit_code != Some(0i32) ==> {
            let end = container_conclusion(output, session);
            &&& end is Err
            &&& tail(output.stderr@, 200).is_suffix_of(end->Err_0)
            &&& output.exit_code matches Some(code) ==> contains_text(
                end->Err_0,
                signed_decimal(code as int),
            )
        },
{
    if output.exit_code != Some(0i32) {
        let text = container_conclusion(output, session)->Err_0;
        let start = "container exited with code "@;
        let shown = code_shown(output.exit_code);
        let end = tail(output.stderr@, 200);
        assert(text.subrange(text.len() - end.len(), text.len() as int) =~= end);
        assert(text.subrange(start.len() as int, (start + shown).len() as int) =~= shown);
        if let Some(code) = output.exit_code {
            let digits = signed_decimal(code as int);
            let at = (start + "Some("@).len() as int;
            assert(text.subrange(at, at + digits.len()) =~= digits);
            assert(occurs_at(text, digits, at));
        }
    }
}

/// The credentials' seed is the directory that is configured, or else the one in the home
/// directory.
pub proof fn configured_seed_comes_first(
    configured: Seq<char>,
    home: Seq<char>,
    other: Option<Seq<char>>,
)
    ensures
        auth_dir(Some(configured), other) is Some,
        !"~"@.is_prefix_of(configured) ==> auth_dir(Some(configured), other) == Some(configured),
        auth_dir(None, Some(home)) == Some(joined_path(home, ".codex"@)),
        auth_dir(None, None) is None,
{
    reveal_strlit("~");
    reveal_strlit("~/");
    if !"~"@.is_prefix_of(configured) {
        if "~/"@.is_prefix_of(configured) {
            assert(configured.subrange(0, 2)[0] == '~');
            assert(configured.subrange(0, 1) =~= "~"@);
        }
        if configured == "~"@ {
            assert(configured.subrange(0, 1) =~= "~"@);
        }
    }
}

// ---------------------------------------------------------------------------
// Output
// ---------------------------------------------------------------------------

/// Whether an event says what a result says.
pub open spec fn tells(event: AgentStreamEvent, output: ContainerOutput) -> bool {
    &&& event.status == AgentStreamStatus::Success <==> output.status
        == ContainerOutputStatus::Success
    &&& event.status == AgentStreamStatus::Error <==> output.status
        == ContainerOutputStatus::Error
    &&& event.result.deep_view() == output.result.deep_view()
    &&& event.new_session_id.deep_view() == output.new_session_id.deep_view()
    &&& event.error.deep_view() == output.error.deep_view()
}

proof fn lemma_good_result(parsed: Seq<Result<ContainerOutput, String>>, k: int) -> (i: int)
    requires
        0 <= k < parsed.len(),
        parsed[k] is Ok,
    ensures
        0 <= i < good_results(parsed).len(),
        good_results(parsed)[i] == parsed[k]->Ok_0,
    decreases parsed.len(),
{
    if k == parsed.len() - 1 {
        good_results(parsed.drop_last()).len() as int
    } else {
        lemma_good_result(parsed.drop_last(), k)
    }
}

/// Every result that an agent writes is told, with its status, its text, its session and
/// its error, and is kept.
pub proof fn every_result_is_told(
    before: CollectorView,
    after: CollectorView,
    rest: Seq<char>,
    parsed: Seq<Result<ContainerOutput, String>>,
    events: Seq<AgentStreamEvent>,
    k: int,
)
    requires
        collects(before, after, rest, parsed, events),
        0 <= k < parsed.len(),
        parsed[k] is Ok,
    ensures
        exists|i: int|
            0 <= i < events.len() && tells(#[trigger] events[i], parsed[k]->Ok_0),
        after.outputs.contains(parsed[k]->Ok_0),
        before.outputs.is_prefix_of(after.outputs),
        events.len() <= parsed.len(),
{
    let i = lemma_good_result(parsed, k);
    assert(reports(events[i], good_results(parsed)[i]));
    assert(tells(events[i], parsed[k]->Ok_0));
    assert(after.outputs[before.outputs.len() + i] == parsed[k]->Ok_0);
    assert(after.outputs.subrange(0, before.outputs.len() as int) =~= before.outputs);
    lemma_good_count(parsed);
}

proof fn lemma_good_count(parsed: Seq<Result<ContainerOutput, String>>)
    ensures
        good_results(parsed).len() <= parsed.len(),
    decreases parsed.len(),
{
    if parsed.len() > 0 {
        lemma_good_count(parsed.drop_last());
    }
}

/// A container's name keeps the letters, digits and dashes of the group's name where they
/// are, has a dash for everything else, and is never empty.
pub proof fn container_is_named_after_its_group(value: Seq<char>, i: int)
    requires
        0 <= i < value.len(),
    ensures
        sanitized(value).len() == value.len(),
        is_alnum(value[i]) || value[i] == '-' ==> sanitized(value)[i] == value[i],
        !is_alnum(value[i]) ==> sanitized(value)[i] == '-',
        sanitized(sanitized(value)) == sanitized(value),
{
    assert(sanitized(sanitized(value)) =~= sanitized(value));
}

/// Each line that begins with a mark counts once, and no other line counts.
pub proof fn marked_lines_are_counted(lines: Seq<Seq<char>>, line: Seq<char>, mark: Seq<char>)
    ensures
        mark.is_prefix_of(trimmed(line)) ==> marked_lines(lines.push(line), mark) == marked_lines(
            lines,
            mark,
        ) + 1,
        !mark.is_prefix_of(trimmed(line)) ==> marked_lines(lines.push(line), mark)
            == marked_lines(lines, mark),
        marked_lines(Seq::empty(), mark) == 0,
{
    assert(lines.push(line).drop_last() =~= lines);
}

/// Values one after the other, each behind its label.
pub open spec fn labelled_values(parts: Seq<(Seq<char>, Seq<char>)>) -> Seq<char>
    decreases parts.len(),
{
    if parts.len() == 0 {
        Seq::empty()
    } else {
        labelled_values(parts.drop_last()) + parts.last().0 + parts.last().1
    }
}

proof fn lemma_labelled(parts: Seq<(Seq<char>, Seq<char>)>, label: Seq<char>, value: Seq<char>)
    ensures
        labelled_values(parts.push((label, value))) == labelled_values(parts) + label + value,
{
    assert(parts.push((label, value)).drop_last() =~= parts);
}

proof fn lemma_holds_labelled(parts: Seq<(Seq<char>, Seq<char>)>, i: int)
    requires
        0 <= i < parts.len(),
    ensures
        contains_text(labelled_values(parts), parts[i].0 + parts[i].1),
        contains_text(labelled_values(parts) + "\n"@, parts[i].0 + parts[i].1),
    decreases parts.len(),
{
    let wanted = parts[i].0 + parts[i].1;
    let before = labelled_values(parts.drop_last());
    let all = labelled_values(parts);
    let text = all + "\n"@;
    let at = if i == parts.len() - 1 {
        let at = before.len() as int;
        assert(all.subrange(at, at + wanted.len()) =~= wanted);
        at
    } else {
        lemma_holds_labelled(parts.drop_last(), i);
        let at = choose|at: int| occurs_at(before, wanted, at);
        assert(all.subrange(at, at + wanted.len()) =~= before.subrange(at, at + wanted.len()));
        at
    };
    assert(occurs_at(all, wanted, at));
    assert(text.subrange(at, at + wanted.len()) =~= all.subrange(at, at + wanted.len()));
    assert(occurs_at(text, wanted, at));
}

/// A container's log tells each thing behind its label: what was run, how it ended, and
/// what it wrote.
#[verifier::spinoff_prover]
pub proof fn log_tells_what_happened(
    name: Seq<char>,
    program: Seq<char>,
    args: Seq<Seq<char>>,
    output: ProcessOutput,
    max_bytes: nat,
)
    ensures
        ({
            let log = log_content(name, program, args, output, max_bytes);
            let marked = lines_of(output.stderr@);
            &&& contains_text(
                log,
                "container="@ + name,
            )
            &&& contains_text(
                log,
                "\nprogram="@ + program,
            )
            &&& contains_text(
                log,
                "\nargs="@ + joined(args, " "@),
            )
            &&& contains_text(
                log,
                "\nexit_code="@ + code_shown(output.exit_code),
            )
            &&& contains_text(
                log,
                "\nstdout_bytes="@ + decimal(byte_len(output.stdout@)),
            )
            &&& contains_text(
                log,
                "\nstderr_bytes="@ + decimal(byte_len(output.stderr@)),
            )
            &&& contains_text(
                log,
                "\nparse_errors="@ + joined(output.parse_errors.deep_view(), " | "@),
            )
            &&& contains_text(
                log,
                "\noutputs="@ + decimal(output.outputs@.len()),
            )
            &&& contains_text(
                log,
                "\ncodex_requests="@ + decimal(marked_lines(marked, "[codex-rpc:request]"@)),
            )
            &&& contains_text(
                log,
                "\ncodex_events="@ + decimal(marked_lines(marked, "[codex-rpc:event]"@)),
            )
            &&& contains_text(
                log,
                "\ncodex_errors="@ + decimal(marked_lines(marked, "[codex-rpc:error]"@)),
            )
            &&& contains_text(
                log,
                "\n\n[stdout]\n"@ + byte_head(output.stdout@, max_bytes),
            )
            &&& contains_text(
                log,
                "\n\n[stderr]\n"@ + byte_head(output.stderr@, max_bytes),
            )
        }),
{
    let marked = lines_of(output.stderr@);
    let p0 = Seq::<(Seq<char>, Seq<char>)>::empty();
    let p1 = p0.push(("container="@, name));
    lemma_labelled(p0, "container="@, name);
    let p2 = p1.push(("\nprogram="@, program));
    lemma_labelled(p1, "\nprogram="@, program);
    let p3 = p2.push(("\nargs="@, joined(args, " "@)));
    lemma_labelled(p2, "\nargs="@, joined(args, " "@));
    let p4 = p3.push(("\nexit_code="@, code_shown(output.exit_code)));
    lemma_labelled(p3, "\nexit_code="@, code_shown(output.exit_code));
    let p5 = p4.push(("\nstdout_bytes="@, decimal(byte_len(output.stdout@))));
    lemma_labelled(p4, "\nstdout_bytes="@, decimal(byte_len(output.stdout@)));
    let p6 = p5.push(("\nstderr_bytes="@, decimal(byte_len(output.stderr@))));
    lemma_labelled(p5, "\nstderr_bytes="@, decimal(byte_len(output.stderr@)));
    let p7 = p6.push(("\nparse_errors="@, joined(output.parse_errors.deep_view(), " | "@)));
    lemma_labelled(p6, "\nparse_errors="@, joined(output.parse_errors.deep_view(), " | "@));
    let p8 = p7.push(("\noutputs="@, decimal(output.outputs@.len())));
    lemma_labelled(p7, "\noutputs="@, decimal(output.outputs@.len()));
    let p9 = p8.push(("\ncodex_requests="@, decimal(marked_lines(marked, "[codex-rpc:request]"@))));
    lemma_labelled(p8, "\ncodex_requests="@, decimal(marked_lines(marked, "[codex-rpc:request]"@)));
    let p10 = p9.push(("\ncodex_events="@, decimal(marked_lines(marked, "[codex-rpc:event]"@))));
    lemma_labelled(p9, "\ncodex_events="@, decimal(marked_lines(marked, "[codex-rpc:event]"@)));
    let p11 = p10.push(("\ncodex_errors="@, decimal(marked_lines(marked, "[codex-rpc:error]"@))));
    lemma_labelled(p10, "\ncodex_errors="@, decimal(marked_lines(marked, "[codex-rpc:error]"@)));
    let p12 = p11.push(("\n\n[stdout]\n"@, byte_head(output.stdout@, max_bytes)));
    lemma_labelled(p11, "\n\n[stdout]\n"@, byte_head(output.stdout@, max_bytes));
    let p13 = p12.push(("\n\n[stderr]\n"@, byte_head(output.stderr@, max_bytes)));
    lemma_labelled(p12, "\n\n[stderr]\n"@, byte_head(output.stderr@, max_bytes));
    assert(labelled_values(p0) =~= Seq::<char>::empty());
    assert(labelled_values(p1) =~= "container="@ + name);
    assert(log_content(name, program, args, output, max_bytes) == labelled_values(p13) + "\n"@);
    assert(p13[0] == p1[0]);
    lemma_holds_labelled(p13, 0);
    assert(p13[1] == p2[1]);
    lemma_holds_labelled(p13, 1);
    assert(p13[2] == p3[2]);
    lemma_holds_labelled(p13, 2);
    assert(p13[3] == p4[3]);
    lemma_holds_labelled(p13, 3);
    assert(p13[4] == p5[4]);
    lemma_holds_labelled(p13, 4);
    assert(p13[5] == p6[5]);
    lemma_holds_labelled(p13, 5);
    assert(p13[6] == p7[6]);
    lemma_holds_labelled(p13, 6);
    assert(p13[7] == p8[7]);
    lemma_holds_labelled(p13, 7);
    assert(p13[8] == p9[8]);
    lemma_holds_labelled(p13, 8);
    assert(p13[9] == p10[9]);
    lemma_holds_labelled(p13, 9);
    assert(p13[10] == p11[10]);
    lemma_holds_labelled(p13, 10);
    assert(p13[11] == p12[11]);
    lemma_holds_labelled(p13, 11);
    assert(p13[12] == p13[12]);
    lemma_holds_labelled(p13, 12);
}

/// The agent in a container is given the run as it is.
pub proof fn container_is_given_its_run(input: AgentRunInput, payload: ContainerInputPayload)
    requires
        call_ensures(ContainerInputPayload::from_input, (&input,), payload),
    ensures
        payload.prompt@ == input.prompt@,
        payload.chat_jid@ == input.chat_jid@,
        payload.group_folder@ == input.group_folder@,
        payload.session_id.deep_view() == input.session_id.deep_view(),
        payload.is_main == input.is_main,
        payload.is_scheduled_task == input.is_scheduled_task,
{
}

/// A setting that is a number is used as it is.
pub proof fn container_numbers_are_used_as_set(text: Seq<char>, n: nat)
    ensures
        unsigned_value(text, u64::MAX as nat) == Some(n) ==> idle_millis(Some(text)) == n,
        unsigned_value(text, usize::MAX as nat) == Some(n) ==> log_limit(Some(text)) == n,
        idle_millis(None) == 30 * 60 * 1_000,
{
}

/// Every key that is listed is passed on, without white space around it; blank ones are
/// not, and none is passed twice.
pub proof fn every_listed_key_is_taken(texts: Seq<Seq<char>>)
    ensures
        forall|k: int|
            0 <= k < texts.len() && trimmed(#[trigger] texts[k]).len() > 0 ==> listed_keys(
                Ok(texts),
            ).contains(trimmed(texts[k])),
        forall|i: int|
            0 <= i < listed_keys(Ok(texts)).len() ==> (#[trigger] listed_keys(Ok(texts))[i]).len()
                > 0,
        listed_keys(Ok(texts)).no_duplicates(),
        listed_keys(Ok(texts)).len() <= texts.len(),
    decreases texts.len(),
{
    if texts.len() > 0 {
        let rest = texts.drop_last();
        let before = listed_keys(Ok(rest));
        let all = listed_keys(Ok(texts));
        every_listed_key_is_taken(rest);
        assert forall|k: int|
            0 <= k < texts.len() && trimmed(#[trigger] texts[k]).len() > 0 implies all.contains(
            trimmed(texts[k]),
        ) by {
            if k < rest.len() {
                assert(rest[k] == texts[k]);
                assert(before.contains(trimmed(rest[k])));
                let i = choose|i: int| 0 <= i < before.len() && before[i] == trimmed(texts[k]);
                assert(all[i] == trimmed(texts[k]));
            } else if !before.contains(trimmed(texts[k])) {
                assert(all[before.len() as int] == trimmed(texts[k]));
            }
        }
        assert forall|i: int| 0 <= i < all.len() implies (#[trigger] all[i]).len() > 0 by {
            if i < before.len() {
                assert(all[i] == before[i]);
            }
        }
    }
}

} // verus!
