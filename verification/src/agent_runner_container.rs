//! Running the agent in a container.

use vstd::prelude::*;
use vstd::string::*;

use crate::container_runner::{
    all_decoded, bad_results, code_shown, frames, good_results, part_results, show_code,
    ContainerOutput, OutputMarkerParser,
};
use crate::duration::{max_nanos, Duration};
use crate::json::{parse_texts, parsed_texts};
use crate::mount_security::{add_new, expand_home, expanded, with_new, ValidatedMount};
use crate::number::{decimal, i64_text, parse_u64, parse_usize, signed_decimal, u64_text, unsigned_value};
use crate::orchestrator::agent::{
    conclude_run, last_of, run_conclusion, status_of, stream_event, AgentRunInput, AgentRunOutput,
    AgentStreamEvent, RunOutputView,
};
use crate::paths::{join_path, joined_path};
use crate::text::{
    alnum, append_char, begins_with, byte_head, byte_len, holds_text, is_alnum, join, joined, lines,
    lines_of, outcome, owned_texts, same_text, tail, tail_chars, to_chars, trim, trimmed,
    truncate_bytes,
};

pub mod laws;

verus! {

#[derive(Debug)]
pub struct ContainerAgentRunner {
    pub container_binary: String,
    pub container_image: String,
    pub project_root: String,
    pub groups_dir: String,
    pub data_dir: String,
    pub timeout: Duration,
    pub mount_allowlist_path: Option<String>,
    pub codex_auth_dir: Option<String>,
}

/// A host directory in the container.
#[derive(Debug)]
pub struct VolumeMount {
    pub host_path: String,
    pub container_path: String,
    pub readonly: bool,
}

/// The content of a [`VolumeMount`].
pub struct VolumeView {
    pub host_path: Seq<char>,
    pub container_path: Seq<char>,
    pub readonly: bool,
}

impl DeepView for VolumeMount {
    type V = VolumeView;

    open spec fn deep_view(&self) -> VolumeView {
        VolumeView {
            host_path: self.host_path@,
            container_path: self.container_path@,
            readonly: self.readonly,
        }
    }
}

fn volume(host_path: String, container_path: &str, readonly: bool) -> (mount: VolumeMount)
    ensures
        mount.deep_view() == (VolumeView {
            host_path: host_path@,
            container_path: container_path@,
            readonly,
        }),
{
    VolumeMount { host_path, container_path: container_path.to_owned(), readonly }
}

// ---------------------------------------------------------------------------
// Mounts
// ---------------------------------------------------------------------------

/// The directories of a group on the host.
#[derive(Debug)]
pub struct GroupDirectories {
    pub group: String,
    pub global: String,
    pub sessions: String,
    pub ipc: String,
}

/// What of the optional directories exists.
#[derive(Debug, Clone, Copy, PartialEq, Eq, Structural)]
pub struct ExistingDirectories {
    pub global: bool,
    pub codex_auth: bool,
}

pub open spec fn volume_view(host: Seq<char>, container: Seq<char>, readonly: bool) -> VolumeView {
    VolumeView { host_path: host, container_path: container, readonly }
}

/// What a group works in: the main group sees the project, another group what
/// all groups share, for reading only and where it exists.
pub open spec fn work_mounts(
    runner: ContainerAgentRunner,
    folder: Seq<char>,
    is_main: bool,
    existing: ExistingDirectories,
) -> Seq<VolumeView> {
    let group = volume_view(joined_path(runner.groups_dir@, folder), "/workspace/group"@, false);
    if is_main {
        seq![volume_view(runner.project_root@, "/workspace/project"@, false), group]
    } else if existing.global {
        seq![
            group,
            volume_view(joined_path(runner.groups_dir@, "global"@), "/workspace/global"@, true),
        ]
    } else {
        seq![group]
    }
}

/// The directory that seeds the agent's credentials, for reading only and where
/// it exists.
pub open spec fn auth_mounts(
    runner: ContainerAgentRunner,
    existing: ExistingDirectories,
) -> Seq<VolumeView> {
    match runner.codex_auth_dir {
        Some(dir) if existing.codex_auth => seq![
            volume_view(dir@, "/workspace/codex-auth"@, true),
        ],
        _ => Seq::empty(),
    }
}

pub open spec fn sessions_dir(runner: ContainerAgentRunner, folder: Seq<char>) -> Seq<char> {
    joined_path(joined_path(joined_path(runner.data_dir@, "sessions"@), folder), ".codex"@)
}

pub open spec fn ipc_dir(runner: ContainerAgentRunner, folder: Seq<char>) -> Seq<char> {
    joined_path(joined_path(runner.data_dir@, "ipc"@), folder)
}

/// The mounts that were granted.
pub open spec fn granted(extra: Seq<ValidatedMount>) -> Seq<VolumeView> {
    Seq::new(extra.len(), |i: int| volume_view(extra[i].host_path@, extra[i].container_path@, extra[i].readonly))
}

/// What a group's container sees: what it works in, its sessions, the
/// credentials' seed, what it is talked to through, and what was granted.
pub open spec fn volume_mounts(
    runner: ContainerAgentRunner,
    folder: Seq<char>,
    is_main: bool,
    existing: ExistingDirectories,
    extra: Seq<ValidatedMount>,
) -> Seq<VolumeView> {
    work_mounts(runner, folder, is_main, existing) + seq![
        volume_view(sessions_dir(runner, folder), "/home/node/.codex"@, false),
    ] + auth_mounts(runner, existing) + seq![
        volume_view(ipc_dir(runner, folder), "/workspace/ipc"@, false),
    ] + granted(extra)
}

fn push_mount(mounts: &mut Vec<VolumeMount>, mount: VolumeMount)
    ensures
        final(mounts).deep_view() == old(mounts).deep_view() + seq![mount.deep_view()],
{
    let ghost before = mounts.deep_view();
    mounts.push(mount);
    proof {
        assert(mounts.deep_view() =~= before + seq![mount.deep_view()]);
    }
}

impl ContainerAgentRunner {
    pub fn new(
        container_binary: String,
        container_image: String,
        project_root: String,
        groups_dir: String,
        data_dir: String,
        timeout: Duration,
        mount_allowlist_path: Option<String>,
        codex_auth_dir: Option<String>,
    ) -> (runner: ContainerAgentRunner)
        ensures
            runner == (ContainerAgentRunner {
                container_binary,
                container_image,
                project_root,
                groups_dir,
                data_dir,
                timeout,
                mount_allowlist_path,
                codex_auth_dir,
            }),
    {
        ContainerAgentRunner {
            container_binary,
            container_image,
            project_root,
            groups_dir,
            data_dir,
            timeout,
            mount_allowlist_path,
            codex_auth_dir,
        }
    }

    /// The directories of a group on the host.
    pub fn directories(&self, group_folder: &str) -> (dirs: GroupDirectories)
        ensures
            dirs.group@ == joined_path(self.groups_dir@, group_folder@),
            dirs.global@ == joined_path(self.groups_dir@, "global"@),
            dirs.sessions@ == sessions_dir(*self, group_folder@),
            dirs.ipc@ == ipc_dir(*self, group_folder@),
    {
        let sessions = join_path(self.data_dir.as_str(), "sessions");
        let sessions = join_path(sessions.as_str(), group_folder);
        let ipc = join_path(self.data_dir.as_str(), "ipc");
        GroupDirectories {
            group: join_path(self.groups_dir.as_str(), group_folder),
            global: join_path(self.groups_dir.as_str(), "global"),
            sessions: join_path(sessions.as_str(), ".codex"),
            ipc: join_path(ipc.as_str(), group_folder),
        }
    }

    /// What a group's container sees. `extra` are the group's additional mounts
    /// that were granted.
    pub fn build_volume_mounts(
        &self,
        input: &AgentRunInput,
        existing: ExistingDirectories,
        extra: &Vec<ValidatedMount>,
    ) -> (mounts: Vec<VolumeMount>)
        ensures
            mounts.deep_view() == volume_mounts(
                *self,
                input.group.folder@,
                input.is_main,
                existing,
                extra@,
            ),
    {
        let dirs = self.directories(input.group.folder.as_str());
        let mut mounts: Vec<VolumeMount> = Vec::new();
        proof {
            assert(mounts.deep_view() =~= Seq::<VolumeView>::empty());
        }
        if input.is_main {
            push_mount(
                &mut mounts,
                volume(self.project_root.clone(), "/workspace/project", false),
            );
            push_mount(&mut mounts, volume(dirs.group, "/workspace/group", false));
        } else {
            push_mount(&mut mounts, volume(dirs.group, "/workspace/group", false));
            if existing.global {
                push_mount(&mut mounts, volume(dirs.global, "/workspace/global", true));
            }
        }
        proof {
            assert(mounts.deep_view() =~= work_mounts(
                *self,
                input.group.folder@,
                input.is_main,
                existing,
            ));
        }
        push_mount(&mut mounts, volume(dirs.sessions, "/home/node/.codex", false));
        let ghost before_auth = mounts.deep_view();
        if let Some(dir) = &self.codex_auth_dir {
            if existing.codex_auth {
                push_mount(&mut mounts, volume(dir.clone(), "/workspace/codex-auth", true));
            }
        }
        proof {
            assert(mounts.deep_view() =~= before_auth + auth_mounts(*self, existing));
        }
        push_mount(&mut mounts, volume(dirs.ipc, "/workspace/ipc", false));
        let ghost fixed = mounts.deep_view();
        let ghost wanted = granted(extra@);
        let mut i: usize = 0;
        proof {
            assert(fixed + wanted.take(0) =~= fixed);
        }
        while i < extra.len()
            invariant
                i <= extra@.len(),
                wanted == granted(extra@),
                mounts.deep_view() == fixed + wanted.take(i as int),
            decreases extra@.len() - i,
        {
            let mount = VolumeMount {
                host_path: extra[i].host_path.clone(),
                container_path: extra[i].container_path.clone(),
                readonly: extra[i].readonly,
            };
            push_mount(&mut mounts, mount);
            proof {
                assert((fixed + wanted.take(i as int)) + seq![wanted[i as int]] =~= fixed
                    + wanted.take(i as int + 1));
            }
            i += 1;
        }
        proof {
            assert(wanted.take(wanted.len() as int) =~= wanted);
        }
        mounts
    }
}

// ---------------------------------------------------------------------------
// Arguments
// ---------------------------------------------------------------------------

/// The arguments that set environment variables.
pub open spec fn env_args(envs: Seq<(Seq<char>, Seq<char>)>) -> Seq<Seq<char>>
    decreases envs.len(),
{
    if envs.len() == 0 {
        Seq::empty()
    } else {
        env_args(envs.drop_last()).push("-e"@).push(envs.last().0 + "="@ + envs.last().1)
    }
}

/// The arguments that mount directories.
pub open spec fn mount_args(mounts: Seq<VolumeView>) -> Seq<Seq<char>>
    decreases mounts.len(),
{
    if mounts.len() == 0 {
        Seq::empty()
    } else {
        let before = mount_args(mounts.drop_last());
        let mount = mounts.last();
        if mount.readonly {
            before.push("--mount"@).push(
                "type=bind,source="@ + mount.host_path + ",target="@ + mount.container_path
                    + ",readonly"@,
            )
        } else {
            before.push("-v"@).push(mount.host_path + ":"@ + mount.container_path)
        }
    }
}

/// The arguments that run a container.
pub open spec fn container_args(
    image: Seq<char>,
    mounts: Seq<VolumeView>,
    name: Seq<char>,
    envs: Seq<(Seq<char>, Seq<char>)>,
) -> Seq<Seq<char>> {
    seq!["run"@, "-i"@, "--rm"@, "--name"@, name] + env_args(envs) + mount_args(mounts) + seq![image]
}

fn push_text(texts: &mut Vec<String>, text: String)
    ensures
        final(texts).deep_view() == old(texts).deep_view().push(text@),
{
    let ghost before = texts.deep_view();
    texts.push(text);
    proof {
        assert(texts.deep_view() =~= before.push(text@));
    }
}

fn list_env_args(envs: &Vec<(String, String)>) -> (args: Vec<String>)
    ensures
        args.deep_view() == env_args(envs.deep_view()),
{
    let ghost all = envs.deep_view();
    let mut args: Vec<String> = Vec::new();
    let mut i: usize = 0;
    proof {
        assert(args.deep_view() =~= env_args(all.take(0)));
    }
    while i < envs.len()
        invariant
            i <= envs@.len(),
            all == envs.deep_view(),
            args.deep_view() == env_args(all.take(i as int)),
        decreases envs@.len() - i,
    {
        proof {
            assert(all.take(i as int + 1).drop_last() =~= all.take(i as int));
            assert(all[i as int] == (envs@[i as int].0@, envs@[i as int].1@));
        }
        push_text(&mut args, "-e".to_owned());
        push_text(&mut args, envs[i].0.clone().concat("=").concat(envs[i].1.as_str()));
        i += 1;
    }
    proof {
        assert(all.take(all.len() as int) =~= all);
    }
    args
}

fn list_mount_args(mounts: &Vec<VolumeMount>) -> (args: Vec<String>)
    ensures
        args.deep_view() == mount_args(mounts.deep_view()),
{
    let ghost all = mounts.deep_view();
    let mut args: Vec<String> = Vec::new();
    let mut i: usize = 0;
    proof {
        assert(args.deep_view() =~= mount_args(all.take(0)));
    }
    while i < mounts.len()
        invariant
            i <= mounts@.len(),
            all == mounts.deep_view(),
            args.deep_view() == mount_args(all.take(i as int)),
        decreases mounts@.len() - i,
    {
        proof {
            assert(all.take(i as int + 1).drop_last() =~= all.take(i as int));
            assert(all[i as int] == mounts@[i as int].deep_view());
        }
        let mount = &mounts[i];
        if mount.readonly {
            push_text(&mut args, "--mount".to_owned());
            push_text(
                &mut args,
                "type=bind,source=".to_owned().concat(mount.host_path.as_str()).concat(
                    ",target=",
                ).concat(mount.container_path.as_str()).concat(",readonly"),
            );
        } else {
            push_text(&mut args, "-v".to_owned());
            push_text(
                &mut args,
                mount.host_path.clone().concat(":").concat(mount.container_path.as_str()),
            );
        }
        i += 1;
    }
    proof {
        assert(all.take(all.len() as int) =~= all);
    }
    args
}

fn append_texts(texts: &mut Vec<String>, more: Vec<String>)
    ensures
        final(texts).deep_view() == old(texts).deep_view() + more.deep_view(),
{
    let ghost before = texts.deep_view();
    let ghost added = more.deep_view();
    let mut rest = more;
    texts.append(&mut rest);
    proof {
        assert(texts.deep_view() =~= before + added);
    }
}

impl ContainerAgentRunner {
    /// The arguments that run a container.
    pub fn build_container_args(
        &self,
        mounts: &Vec<VolumeMount>,
        container_name: &str,
        container_envs: &Vec<(String, String)>,
    ) -> (args: Vec<String>)
        ensures
            args.deep_view() == container_args(
                self.container_image@,
                mounts.deep_view(),
                container_name@,
                container_envs.deep_view(),
            ),
    {
        let fixed: Vec<&str> = vec!["run", "-i", "--rm", "--name", container_name];
        proof {
            assert(fixed.deep_view() =~= seq![
                "run"@,
                "-i"@,
                "--rm"@,
                "--name"@,
                container_name@,
            ]);
        }
        let mut args = owned_texts(&fixed);
        append_texts(&mut args, list_env_args(container_envs));
        append_texts(&mut args, list_mount_args(mounts));
        let ghost before = args.deep_view();
        push_text(&mut args, self.container_image.clone());
        proof {
            assert(before.push(self.container_image@) =~= before + seq![self.container_image@]);
        }
        args
    }
}

/// A name with a dash for every character that is no ASCII letter, digit or
/// dash.
pub open spec fn sanitized(value: Seq<char>) -> Seq<char> {
    if value.len() == 0 {
        "group"@
    } else {
        Seq::new(
            value.len(),
            |i: int|
                if is_alnum(value[i]) || value[i] == '-' {
                    value[i]
                } else {
                    '-'
                },
        )
    }
}

/// A name that a container can have.
pub fn sanitize_container_name(value: &str) -> (name: String)
    ensures
        name@ == sanitized(value@),
{
    let chars = to_chars(value);
    if chars.len() == 0 {
        return "group".to_owned();
    }
    let mut name = String::new();
    let mut i: usize = 0;
    while i < chars.len()
        invariant
            i <= chars@.len(),
            chars@ == value@,
            chars@.len() > 0,
            name@ =~= sanitized(value@).take(i as int),
        decreases chars@.len() - i,
    {
        let c = chars[i];
        if alnum(c) || c == '-' {
            append_char(&mut name, c);
        } else {
            append_char(&mut name, '-');
        }
        i += 1;
    }
    proof {
        assert(name@ =~= sanitized(value@));
    }
    name
}

/// The name of a container that is started at a time.
pub fn container_name(group_folder: &str, now_ms: i64) -> (name: String)
    ensures
        name@ == "nanoclaw-"@ + sanitized(group_folder@) + "-"@ + signed_decimal(now_ms as int),
{
    "nanoclaw-".to_owned().concat(sanitize_container_name(group_folder).as_str()).concat(
        "-",
    ).concat(i64_text(now_ms).as_str())
}

// ---------------------------------------------------------------------------
// Environment
// ---------------------------------------------------------------------------

/// The credentials that containers get by default.
pub open spec fn default_credentials() -> Seq<Seq<char>> {
    seq!["UPBIT_ACCESS_KEY"@, "UPBIT_SECRET_KEY"@, "UPBIT_BASE_URL"@]
}

/// The default credentials and the extra ones, none twice.
pub fn merge_allowed_credential_keys(extra: Vec<String>) -> (keys: Vec<String>)
    ensures
        keys.deep_view() == with_new(default_credentials(), extra.deep_view()),
{
    let defaults: Vec<&str> = vec!["UPBIT_ACCESS_KEY", "UPBIT_SECRET_KEY", "UPBIT_BASE_URL"];
    proof {
        assert(defaults.deep_view() =~= default_credentials());
    }
    add_new(owned_texts(&defaults), &extra)
}

/// The texts without surrounding white space, each where it first occurs; blank
/// ones are left out.
pub open spec fn tidy_texts(texts: Seq<Seq<char>>) -> Seq<Seq<char>>
    decreases texts.len(),
{
    if texts.len() == 0 {
        Seq::empty()
    } else {
        let before = tidy_texts(texts.drop_last());
        let text = trimmed(texts.last());
        if text.len() == 0 || before.contains(text) {
            before
        } else {
            before.push(text)
        }
    }
}

/// The keys that a setting lists: none where it is no list of texts.
pub open spec fn listed_keys(list: Result<Seq<Seq<char>>, Seq<char>>) -> Seq<Seq<char>> {
    match list {
        Ok(texts) => tidy_texts(texts),
        Err(_) => Seq::empty(),
    }
}

/// The keys that a setting lists, given what was read from it.
pub fn keys_from(list: Result<Vec<String>, String>) -> (keys: Vec<String>)
    ensures
        keys.deep_view() == listed_keys(outcome(list)),
{
    let mut keys: Vec<String> = Vec::new();
    proof {
        assert(keys.deep_view() =~= Seq::<Seq<char>>::empty());
    }
    let texts = match list {
        Ok(texts) => texts,
        Err(_) => {
            return keys;
        },
    };
    let ghost all = texts.deep_view();
    let mut i: usize = 0;
    proof {
        assert(keys.deep_view() =~= tidy_texts(all.take(0)));
    }
    while i < texts.len()
        invariant
            i <= texts@.len(),
            all == texts.deep_view(),
            keys.deep_view() == tidy_texts(all.take(i as int)),
        decreases texts@.len() - i,
    {
        let ghost before = keys.deep_view();
        proof {
            assert(all.take(i as int + 1).drop_last() =~= all.take(i as int));
            assert(all[i as int] == texts@[i as int]@);
        }
        let key = trim(texts[i].as_str());
        if !key.as_str().is_empty() && !holds_text(&keys, key.as_str()) {
            keys.push(key);
            proof {
                assert(keys.deep_view() =~= before.push(key@));
            }
        }
        i += 1;
    }
    proof {
        assert(all.take(all.len() as int) =~= all);
    }
    keys
}

/// The keys that a setting lists.
pub fn parse_allowed_credential_keys(raw: &str) -> (keys: Vec<String>)
    ensures
        keys.deep_view() == listed_keys(parsed_texts(raw@)),
{
    keys_from(parse_texts(raw))
}

/// The credentials that containers get: the default ones and those that a
/// setting lists.
pub fn allowed_credential_keys(raw: Option<&str>) -> (keys: Vec<String>)
    ensures
        keys.deep_view() == with_new(
            default_credentials(),
            match raw {
                Some(text) => listed_keys(parsed_texts(text@)),
                None => Seq::empty(),
            },
        ),
{
    let extra = match raw {
        Some(text) => parse_allowed_credential_keys(text),
        None => {
            let none: Vec<String> = Vec::new();
            proof {
                assert(none.deep_view() =~= Seq::<Seq<char>>::empty());
            }
            none
        },
    };
    merge_allowed_credential_keys(extra)
}

/// The settings that containers get where they are set.
pub fn runtime_option_keys() -> (keys: Vec<&'static str>)
    ensures
        keys.deep_view() == seq![
            "CODEX_MODEL"@,
            "CODEX_REASONING_EFFORT"@,
            "TIMEZONE"@,
            "CODEX_APPROVAL_POLICY"@,
            "CODEX_SANDBOX_MODE"@,
            "CODEX_ENABLE_SEARCH"@,
        ],
{
    let keys: Vec<&'static str> = vec![
        "CODEX_MODEL",
        "CODEX_REASONING_EFFORT",
        "TIMEZONE",
        "CODEX_APPROVAL_POLICY",
        "CODEX_SANDBOX_MODE",
        "CODEX_ENABLE_SEARCH",
    ];
    proof {
        assert(keys.deep_view() =~= seq![
            "CODEX_MODEL"@,
            "CODEX_REASONING_EFFORT"@,
            "TIMEZONE"@,
            "CODEX_APPROVAL_POLICY"@,
            "CODEX_SANDBOX_MODE"@,
            "CODEX_ENABLE_SEARCH"@,
        ]);
    }
    keys
}

/// The first value under a key.
pub open spec fn env_value(envs: Seq<(Seq<char>, Seq<char>)>, key: Seq<char>) -> Option<Seq<char>>
    decreases envs.len(),
{
    if envs.len() == 0 {
        None
    } else if envs[0].0 == key {
        Some(envs[0].1)
    } else {
        env_value(envs.drop_first(), key)
    }
}

fn find_env(envs: &Vec<(String, String)>, key: &str) -> (value: Option<String>)
    ensures
        value.deep_view() == env_value(envs.deep_view(), key@),
{
    let ghost all = envs.deep_view();
    let mut i: usize = 0;
    proof {
        assert(all.skip(0) =~= all);
    }
    while i < envs.len()
        invariant
            i <= envs@.len(),
            all == envs.deep_view(),
            env_value(all, key@) == env_value(all.skip(i as int), key@),
        decreases envs@.len() - i,
    {
        proof {
            assert(all.skip(i as int)[0] == (envs@[i as int].0@, envs@[i as int].1@));
            assert(all.skip(i as int).drop_first() =~= all.skip(i as int + 1));
        }
        if same_text(envs[i].0.as_str(), key) {
            return Some(envs[i].1.clone());
        }
        i += 1;
    }
    None
}

/// The settings with the time zone under its usual name too.
pub open spec fn with_tz(envs: Seq<(Seq<char>, Seq<char>)>) -> Seq<(Seq<char>, Seq<char>)> {
    match env_value(envs, "TIMEZONE"@) {
        Some(zone) if env_value(envs, "TZ"@) is None => envs.push(("TZ"@, zone)),
        _ => envs,
    }
}

/// The settings with the time zone under its usual name too.
pub fn add_tz(envs: Vec<(String, String)>) -> (all: Vec<(String, String)>)
    ensures
        all.deep_view() == with_tz(envs.deep_view()),
{
    let ghost before = envs.deep_view();
    let mut all = envs;
    if let Some(zone) = find_env(&all, "TIMEZONE") {
        if find_env(&all, "TZ").is_none() {
            all.push(("TZ".to_owned(), zone));
            proof {
                assert(all.deep_view() =~= before.push(("TZ"@, zone@)));
            }
        }
    }
    all
}

/// The settings among `keys` that are set, in the order of the keys.
pub open spec fn set_values(
    keys: Seq<Seq<char>>,
    values: Seq<Option<Seq<char>>>,
) -> Seq<(Seq<char>, Seq<char>)>
    decreases keys.len(),
{
    if keys.len() == 0 {
        Seq::empty()
    } else {
        let before = set_values(keys.drop_last(), values.drop_last());
        match values.last() {
            Some(value) => before.push((keys.last(), value)),
            None => before,
        }
    }
}

/// Only what is allowed is passed on: every setting that is handed to a container
/// is under one of the keys, as it is set.
pub proof fn only_allowed_settings_are_passed(
    keys: Seq<Seq<char>>,
    values: Seq<Option<Seq<char>>>,
)
    requires
        keys.len() == values.len(),
    ensures
        forall|i: int|
            0 <= i < set_values(keys, values).len() ==> exists|k: int|
                0 <= k < keys.len() && keys[k] == (#[trigger] set_values(keys, values)[i]).0
                    && values[k] == Some(set_values(keys, values)[i].1),
    decreases keys.len(),
{
    if keys.len() > 0 {
        let before = set_values(keys.drop_last(), values.drop_last());
        let all = set_values(keys, values);
        only_allowed_settings_are_passed(keys.drop_last(), values.drop_last());
        assert forall|i: int| 0 <= i < all.len() implies exists|k: int|
            0 <= k < keys.len() && keys[k] == (#[trigger] all[i]).0 && values[k] == Some(
                all[i].1,
            ) by {
            if i < before.len() {
                assert(all[i] == before[i]);
                let k = choose|k: int|
                    0 <= k < keys.drop_last().len() && keys.drop_last()[k] == before[i].0
                        && values.drop_last()[k] == Some(before[i].1);
                assert(keys[k] == all[i].0 && values[k] == Some(all[i].1));
            } else {
                let last = keys.len() - 1;
                assert(keys[last] == all[i].0 && values[last] == Some(all[i].1));
            }
        }
    }
}

/// The settings among `keys` that are set; `values` gives for each key what it
/// is set to.
pub fn collect_envs(keys: &Vec<String>, values: &Vec<Option<String>>) -> (envs: Vec<
    (String, String),
>)
    requires
        keys@.len() == values@.len(),
    ensures
        envs.deep_view() == set_values(keys.deep_view(), values.deep_view()),
{
    let ghost names = keys.deep_view();
    let ghost given = values.deep_view();
    let mut envs: Vec<(String, String)> = Vec::new();
    let mut i: usize = 0;
    proof {
        assert(envs.deep_view() =~= set_values(names.take(0), given.take(0)));
    }
    while i < keys.len()
        invariant
            i <= keys@.len(),
            keys@.len() == values@.len(),
            names == keys.deep_view(),
            given == values.deep_view(),
            envs.deep_view() == set_values(names.take(i as int), given.take(i as int)),
        decreases keys@.len() - i,
    {
        let ghost before = envs.deep_view();
        proof {
            assert(names.take(i as int + 1).drop_last() =~= names.take(i as int));
            assert(given.take(i as int + 1).drop_last() =~= given.take(i as int));
            assert(names[i as int] == keys@[i as int]@);
            assert(given[i as int] == values@[i as int].deep_view());
        }
        if let Some(value) = &values[i] {
            envs.push((keys[i].clone(), value.clone()));
            proof {
                assert(envs.deep_view() =~= before.push((keys@[i as int]@, value@)));
            }
        }
        i += 1;
    }
    proof {
        assert(names.take(names.len() as int) =~= names);
        assert(given.take(given.len() as int) =~= given);
    }
    envs
}

// ---------------------------------------------------------------------------
// Timeouts
// ---------------------------------------------------------------------------

pub open spec fn capped_sum(a: nat, b: nat) -> nat {
    if a + b > max_nanos() {
        max_nanos()
    } else {
        a + b
    }
}

/// How long a container may run, in nanoseconds: what is configured, but at
/// least half a minute longer than the agent may be idle.
pub open spec fn effective_timeout(
    configured: Option<Duration>,
    default: Duration,
    idle: Duration,
) -> nat {
    let base = match configured {
        Some(span) => span.total(),
        None => default.total(),
    };
    let floor = capped_sum(idle.total(), 30_000_000_000);
    if base < floor {
        floor
    } else {
        base
    }
}

/// How long a container may run.
pub fn compute_effective_timeout(
    configured_timeout: Option<Duration>,
    default_timeout: Duration,
    idle_timeout: Duration,
) -> (timeout: Duration)
    requires
        configured_timeout matches Some(span) ==> span.wf(),
        default_timeout.wf(),
        idle_timeout.wf(),
    ensures
        timeout.wf(),
        timeout.total() == effective_timeout(configured_timeout, default_timeout, idle_timeout),
{
    let base = match configured_timeout {
        Some(span) => span,
        None => default_timeout,
    };
    let floor = idle_timeout.saturating_add(Duration::from_secs(30));
    base.longer(floor)
}

/// An idle agent is never cut off: the timeout always outlasts the idle time.
pub proof fn timeout_outlasts_idle_time(
    configured: Option<Duration>,
    default: Duration,
    idle: Duration,
)
    ensures
        effective_timeout(configured, default, idle) >= capped_sum(idle.total(), 30_000_000_000),
        configured matches Some(span) ==> effective_timeout(configured, default, idle)
            >= span.total(),
{
}

/// A number of milliseconds that a setting gives, or half an hour.
pub open spec fn idle_millis(raw: Option<Seq<char>>) -> nat {
    match raw {
        Some(text) => match unsigned_value(text, u64::MAX as nat) {
            Some(ms) => ms,
            None => 1_800_000,
        },
        None => 1_800_000,
    }
}

/// How long the agent may be idle.
pub fn idle_timeout_from_env(raw: Option<&str>) -> (timeout: Duration)
    ensures
        timeout.wf(),
        timeout.total() == idle_millis(raw.deep_view()) * 1_000_000,
{
    let ms: u64 = match raw {
        Some(text) => match parse_u64(text) {
            Some(ms) => ms,
            None => 1_800_000,
        },
        None => 1_800_000,
    };
    Duration::from_millis(ms)
}

// ---------------------------------------------------------------------------
// Input and outcome
// ---------------------------------------------------------------------------

/// What the agent in a container is given.
#[derive(Debug, PartialEq, Eq)]
pub struct ContainerInputPayload {
    pub prompt: String,
    pub session_id: Option<String>,
    pub group_folder: String,
    pub chat_jid: String,
    pub is_main: bool,
    pub is_scheduled_task: bool,
}

impl ContainerInputPayload {
    /// What the agent in a container is given.
    pub fn from_input(input: &AgentRunInput) -> (payload: ContainerInputPayload)
        ensures
            payload.prompt@ == input.prompt@,
            payload.session_id.deep_view() == input.session_id.deep_view(),
            payload.group_folder@ == input.group_folder@,
            payload.chat_jid@ == input.chat_jid@,
            payload.is_main == input.is_main,
            payload.is_scheduled_task == input.is_scheduled_task,
    {
        ContainerInputPayload {
            prompt: input.prompt.clone(),
            session_id: input.session_id.clone(),
            group_folder: input.group_folder.clone(),
            chat_jid: input.chat_jid.clone(),
            is_main: input.is_main,
            is_scheduled_task: input.is_scheduled_task,
        }
    }
}

/// What a container left behind.
#[derive(Debug)]
pub struct ProcessOutput {
    pub exit_code: Option<i32>,
    pub stdout: String,
    pub stderr: String,
    pub outputs: Vec<ContainerOutput>,
    pub parse_errors: Vec<String>,
}

/// Takes a container's output as it comes.
#[derive(Debug)]
pub struct OutputCollector {
    parser: OutputMarkerParser,
    outputs: Vec<ContainerOutput>,
    parse_errors: Vec<String>,
}

/// The content of an [`OutputCollector`].
pub struct CollectorView {
    pub unfinished: Seq<char>,
    pub outputs: Seq<ContainerOutput>,
    pub parse_errors: Seq<Seq<char>>,
}

impl View for OutputCollector {
    type V = CollectorView;

    closed spec fn view(&self) -> CollectorView {
        CollectorView {
            unfinished: self.parser@,
            outputs: self.outputs@,
            parse_errors: self.parse_errors.deep_view(),
        }
    }
}

/// Whether an event reports a result.
pub open spec fn reports(event: AgentStreamEvent, output: ContainerOutput) -> bool {
    &&& event.status == status_of(output.status)
    &&& event.result.deep_view() == output.result.deep_view()
    &&& event.new_session_id.deep_view() == output.new_session_id.deep_view()
    &&& event.error.deep_view() == output.error.deep_view()
}

/// Whether a piece of output leads from one state to the next and gives these
/// events: what the piece completes is read by the decoder, and each result is
/// kept and reported, in order.
pub open spec fn collects(
    before: CollectorView,
    after: CollectorView,
    rest: Seq<char>,
    parsed: Seq<Result<ContainerOutput, String>>,
    events: Seq<AgentStreamEvent>,
) -> bool {
    &&& after.unfinished == rest
    &&& after.outputs == before.outputs + good_results(parsed)
    &&& after.parse_errors == before.parse_errors + bad_results(parsed)
    &&& events.len() == good_results(parsed).len()
    &&& forall|i: int|
        0 <= i < events.len() ==> reports(#[trigger] events[i], good_results(parsed)[i])
}

impl OutputCollector {
    /// A collector that was given nothing yet.
    pub fn new() -> (collector: OutputCollector)
        ensures
            collector@ == (CollectorView {
                unfinished: Seq::empty(),
                outputs: Seq::empty(),
                parse_errors: Seq::empty(),
            }),
    {
        let collector = OutputCollector {
            parser: OutputMarkerParser::default(),
            outputs: Vec::new(),
            parse_errors: Vec::new(),
        };
        proof {
            assert(collector@.parse_errors =~= Seq::<Seq<char>>::empty());
        }
        collector
    }

    /// Takes a piece of output and gives an event for each result that it
    /// completes.
    pub fn take_chunk<D: Fn(&str) -> Result<ContainerOutput, String>>(
        &mut self,
        chunk: &str,
        decode: &D,
    ) -> (events: Vec<AgentStreamEvent>)
        requires
            forall|text: &str| call_requires(*decode, (text,)),
        ensures
            exists|parsed: Seq<Result<ContainerOutput, String>>| #[trigger]
                all_decoded(*decode, frames(old(self)@.unfinished + chunk@).0, parsed) && collects(
                    old(self)@,
                    final(self)@,
                    frames(old(self)@.unfinished + chunk@).1,
                    parsed,
                    events@,
                ),
    {
        let ghost before = self@;
        let parsed = self.parser.push_chunk(chunk, decode);
        let ghost read = parsed@;
        let (mut outputs, mut errors) = part_results(parsed);
        let ghost good = outputs@;
        let ghost bad = errors.deep_view();
        let mut events: Vec<AgentStreamEvent> = Vec::new();
        let mut i: usize = 0;
        while i < outputs.len()
            invariant
                i <= outputs@.len(),
                outputs@ == good,
                events@.len() == i,
                forall|k: int| 0 <= k < i ==> reports(#[trigger] events@[k], good[k]),
            decreases outputs@.len() - i,
        {
            events.push(stream_event(&outputs[i]));
            i += 1;
        }
        self.outputs.append(&mut outputs);
        self.parse_errors.append(&mut errors);
        proof {
            assert(self@.parse_errors =~= before.parse_errors + bad);
            assert(all_decoded(*decode, frames(before.unfinished + chunk@).0, read));
        }
        events
    }

    /// What the container left behind.
    pub fn finish(self, exit_code: Option<i32>, stdout: String, stderr: String) -> (output:
        ProcessOutput)
        ensures
            output.exit_code == exit_code,
            output.stdout == stdout,
            output.stderr == stderr,
            output.outputs@ == self@.outputs,
            output.parse_errors.deep_view() == self@.parse_errors,
    {
        ProcessOutput {
            exit_code,
            stdout,
            stderr,
            outputs: self.outputs,
            parse_errors: self.parse_errors,
        }
    }
}

/// What a container amounts to: a failed one to the end of its errors, else its
/// results.
pub open spec fn container_conclusion(
    output: ProcessOutput,
    session_id: Option<Seq<char>>,
) -> Result<RunOutputView, Seq<char>> {
    if output.exit_code != Some(0i32) {
        Err(
            "container exited with code "@ + code_shown(output.exit_code) + ": "@ + tail(
                output.stderr@,
                200,
            ),
        )
    } else {
        run_conclusion(
            last_of(output.outputs@),
            output.parse_errors.deep_view(),
            output.stdout@,
            session_id,
            "container returned error marker"@,
        )
    }
}

/// What a container amounts to.
pub fn conclude_container(output: &ProcessOutput, session_id: &Option<String>) -> (out: Result<
    AgentRunOutput,
    String,
>)
    ensures
        outcome(out) == container_conclusion(*output, session_id.deep_view()),
{
    let succeeded = match output.exit_code {
        Some(code) => code == 0,
        None => false,
    };
    if !succeeded {
        return Err(
            "container exited with code ".to_owned().concat(
                show_code(output.exit_code).as_str(),
            ).concat(": ").concat(tail_chars(output.stderr.as_str(), 200).as_str()),
        );
    }
    conclude_run(
        &output.outputs,
        &output.parse_errors,
        output.stdout.as_str(),
        session_id,
        "container returned error marker",
    )
}

/// The message on a container that ran too long.
pub fn timeout_message(timeout: Duration) -> (message: String)
    requires
        timeout.wf(),
    ensures
        message@ == "process timed out after "@ + decimal(timeout.total() / 1_000_000) + "ms"@,
{
    "process timed out after ".to_owned().concat(
        crate::number::u128_text(timeout.as_millis()).as_str(),
    ).concat("ms")
}

// ---------------------------------------------------------------------------
// Logs
// ---------------------------------------------------------------------------

/// How many lines of each kind the agent logged.
#[derive(Debug, Clone, Copy, PartialEq, Eq, Structural)]
pub struct CodexLogSummary {
    pub requests: usize,
    pub events: usize,
    pub errors: usize,
}

/// The lines that begin with a mark.
pub open spec fn marked_lines(lines: Seq<Seq<char>>, mark: Seq<char>) -> nat
    decreases lines.len(),
{
    if lines.len() == 0 {
        0
    } else {
        marked_lines(lines.drop_last(), mark) + (if mark.is_prefix_of(trimmed(lines.last())) {
            1nat
        } else {
            0nat
        })
    }
}

proof fn lemma_marks_differ(line: Seq<char>)
    ensures
        !("[codex-rpc:request]"@.is_prefix_of(line) && "[codex-rpc:event]"@.is_prefix_of(line)),
        !("[codex-rpc:request]"@.is_prefix_of(line) && "[codex-rpc:error]"@.is_prefix_of(line)),
        !("[codex-rpc:event]"@.is_prefix_of(line) && "[codex-rpc:error]"@.is_prefix_of(line)),
{
    reveal_strlit("[codex-rpc:request]");
    reveal_strlit("[codex-rpc:event]");
    reveal_strlit("[codex-rpc:error]");
    let request = "[codex-rpc:request]"@;
    let event = "[codex-rpc:event]"@;
    let error = "[codex-rpc:error]"@;
    if request.is_prefix_of(line) {
        assert(line[11] == line.subrange(0, request.len() as int)[11]);
        assert(line[11] == 'r');
    }
    if event.is_prefix_of(line) {
        assert(line[11] == line.subrange(0, event.len() as int)[11]);
        assert(line[12] == line.subrange(0, event.len() as int)[12]);
        assert(line[11] == 'e' && line[12] == 'v');
    }
    if error.is_prefix_of(line) {
        assert(line[11] == line.subrange(0, error.len() as int)[11]);
        assert(line[12] == line.subrange(0, error.len() as int)[12]);
        assert(line[11] == 'e' && line[12] == 'r');
    }
}

/// Counts the lines of each kind that the agent logged.
pub fn summarize_codex_logs(stderr: &str) -> (summary: CodexLogSummary)
    ensures
        summary.requests == marked_lines(lines_of(stderr@), "[codex-rpc:request]"@),
        summary.events == marked_lines(lines_of(stderr@), "[codex-rpc:event]"@),
        summary.errors == marked_lines(lines_of(stderr@), "[codex-rpc:error]"@),
{
    let all = lines(stderr);
    let ghost content = all.deep_view();
    let mut requests: usize = 0;
    let mut events: usize = 0;
    let mut errors: usize = 0;
    let mut i: usize = 0;
    while i < all.len()
        invariant
            i <= all@.len(),
            content == all.deep_view(),
            requests + events + errors <= i,
            requests == marked_lines(content.take(i as int), "[codex-rpc:request]"@),
            events == marked_lines(content.take(i as int), "[codex-rpc:event]"@),
            errors == marked_lines(content.take(i as int), "[codex-rpc:error]"@),
        decreases all@.len() - i,
    {
        let line = trim(all[i].as_str());
        proof {
            assert(content.take(i as int + 1).drop_last() =~= content.take(i as int));
            assert(content[i as int] == all@[i as int]@);
            lemma_marks_differ(line@);
        }
        if begins_with(line.as_str(), "[codex-rpc:request]") {
            requests += 1;
        } else if begins_with(line.as_str(), "[codex-rpc:event]") {
            events += 1;
        } else if begins_with(line.as_str(), "[codex-rpc:error]") {
            errors += 1;
        }
        i += 1;
    }
    proof {
        assert(content.take(content.len() as int) =~= content);
    }
    CodexLogSummary { requests, events, errors }
}

/// The log of a container.
pub open spec fn log_content(
    container_name: Seq<char>,
    program: Seq<char>,
    args: Seq<Seq<char>>,
    output: ProcessOutput,
    max_bytes: nat,
) -> Seq<char> {
    let marked = lines_of(output.stderr@);
    "container="@ + container_name + "\nprogram="@ + program + "\nargs="@ + joined(args, " "@)
        + "\nexit_code="@ + code_shown(output.exit_code) + "\nstdout_bytes="@ + decimal(
        byte_len(output.stdout@),
    ) + "\nstderr_bytes="@ + decimal(byte_len(output.stderr@)) + "\nparse_errors="@ + joined(
        output.parse_errors.deep_view(),
        " | "@,
    ) + "\noutputs="@ + decimal(output.outputs@.len()) + "\ncodex_requests="@ + decimal(
        marked_lines(marked, "[codex-rpc:request]"@),
    ) + "\ncodex_events="@ + decimal(marked_lines(marked, "[codex-rpc:event]"@))
        + "\ncodex_errors="@ + decimal(marked_lines(marked, "[codex-rpc:error]"@))
        + "\n\n[stdout]\n"@ + byte_head(output.stdout@, max_bytes) + "\n\n[stderr]\n"@ + byte_head(
        output.stderr@,
        max_bytes,
    ) + "\n"@
}

/// The log of a container.
pub fn container_log(
    container_name: &str,
    program: &str,
    args: &Vec<String>,
    output: &ProcessOutput,
    max_bytes: usize,
) -> (content: String)
    ensures
        content@ == log_content(
            container_name@,
            program@,
            args.deep_view(),
            *output,
            max_bytes as nat,
        ),
{
    let summary = summarize_codex_logs(output.stderr.as_str());
    let stdout_bytes: usize = output.stdout.as_str().as_bytes().len();
    let stderr_bytes: usize = output.stderr.as_str().as_bytes().len();
    "container=".to_owned().concat(container_name).concat("\nprogram=").concat(program).concat(
        "\nargs=",
    ).concat(join(args, " ").as_str()).concat("\nexit_code=").concat(
        show_code(output.exit_code).as_str(),
    ).concat("\nstdout_bytes=").concat(u64_text(stdout_bytes as u64).as_str()).concat(
        "\nstderr_bytes=",
    ).concat(u64_text(stderr_bytes as u64).as_str()).concat("\nparse_errors=").concat(
        join(&output.parse_errors, " | ").as_str(),
    ).concat("\noutputs=").concat(u64_text(output.outputs.len() as u64).as_str()).concat(
        "\ncodex_requests=",
    ).concat(u64_text(summary.requests as u64).as_str()).concat("\ncodex_events=").concat(
        u64_text(summary.events as u64).as_str(),
    ).concat("\ncodex_errors=").concat(u64_text(summary.errors as u64).as_str()).concat(
        "\n\n[stdout]\n",
    ).concat(truncate_by_bytes(output.stdout.as_str(), max_bytes).as_str()).concat(
        "\n\n[stderr]\n",
    ).concat(truncate_by_bytes(output.stderr.as_str(), max_bytes).as_str()).concat("\n")
}

/// The first characters of a text that take at most `max_bytes` bytes.
pub fn truncate_by_bytes(value: &str, max_bytes: usize) -> (out: String)
    ensures
        out@ == byte_head(value@, max_bytes as nat),
{
    truncate_bytes(value, max_bytes)
}

/// The bytes of each output that a log keeps: what a setting gives, or the
/// default.
pub open spec fn log_limit(raw: Option<Seq<char>>) -> nat {
    match raw {
        Some(text) => match unsigned_value(text, usize::MAX as nat) {
            Some(n) => n,
            None => 200_000,
        },
        None => 200_000,
    }
}

/// The bytes of each output that a log keeps.
pub fn read_log_max_bytes(raw: Option<&str>) -> (limit: usize)
    ensures
        limit == log_limit(raw.deep_view()),
{
    match raw {
        Some(text) => match parse_usize(text) {
            Some(n) => n,
            None => 200_000,
        },
        None => 200_000,
    }
}

/// The directory that seeds the agent's credentials: the configured one, or the
/// one in the home directory.
pub open spec fn auth_dir(configured: Option<Seq<char>>, home: Option<Seq<char>>) -> Option<
    Seq<char>,
> {
    match configured {
        Some(raw) => Some(expanded(raw, home)),
        None => match home {
            Some(home) => Some(joined_path(home, ".codex"@)),
            None => None,
        },
    }
}

/// The directory that seeds the agent's credentials.
pub fn resolve_codex_auth_dir(configured: Option<&str>, home: Option<&str>) -> (dir: Option<String>)
    ensures
        dir.deep_view() == auth_dir(configured.deep_view(), home.deep_view()),
{
    match configured {
        Some(raw) => Some(expand_home(raw, home)),
        None => match home {
            Some(home) => Some(join_path(home, ".codex")),
            None => None,
        },
    }
}

} // verus!
