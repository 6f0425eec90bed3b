//! Which host directories a group's container may see.

use vstd::prelude::*;
use vstd::string::*;

use crate::paths::{components, join_path, joined_path, leads_through, lies_in};
use crate::text::laws::separator_parts_the_text;
use crate::text::{
    begins_with, contains_text, has_text, holds_text, outcome, owned_texts, same_text, split,
    split_at_char, strip_prefix, trim, trimmed, without_prefix,
};
use crate::types::AdditionalMount;

verus! {

#[derive(Debug, PartialEq, Eq)]
pub struct ValidatedMount {
    pub host_path: String,
    pub container_path: String,
    pub readonly: bool,
}

/// The content of a [`ValidatedMount`].
pub struct ValidatedView {
    pub host_path: Seq<char>,
    pub container_path: Seq<char>,
    pub readonly: bool,
}

impl DeepView for ValidatedMount {
    type V = ValidatedView;

    open spec fn deep_view(&self) -> ValidatedView {
        ValidatedView {
            host_path: self.host_path@,
            container_path: self.container_path@,
            readonly: self.readonly,
        }
    }
}

#[derive(Debug)]
pub struct MountAllowlist {
    pub allowed_roots: Vec<AllowedRoot>,
    pub blocked_patterns: Vec<String>,
    pub non_main_read_only: bool,
}

#[derive(Debug)]
pub struct AllowedRoot {
    pub path: String,
    pub allow_read_write: bool,
}

// ---------------------------------------------------------------------------
// Paths
// ---------------------------------------------------------------------------

/// A path with a leading tilde replaced by the home directory, where that is
/// known.
pub open spec fn expanded(path: Seq<char>, home: Option<Seq<char>>) -> Seq<char> {
    match home {
        None => path,
        Some(home) => if path == "~"@ {
            home
        } else {
            match without_prefix(path, "~/"@) {
                Some(rest) => joined_path(home, rest),
                None => path,
            }
        },
    }
}

/// A path with a leading tilde replaced by the home directory.
pub fn expand_home(path: &str, home: Option<&str>) -> (out: String)
    ensures
        out@ == expanded(path@, home.deep_view()),
{
    match home {
        None => path.to_owned(),
        Some(home) => {
            if same_text(path, "~") {
                return home.to_owned();
            }
            match strip_prefix(path, "~/") {
                Some(rest) => join_path(home, rest.as_str()),
                None => path.to_owned(),
            }
        },
    }
}

/// The last part of a path that names something.
pub open spec fn last_named(parts: Seq<Seq<char>>) -> Option<Seq<char>>
    decreases parts.len(),
{
    if parts.len() == 0 {
        None
    } else if parts.last().len() == 0 || parts.last() == "."@ {
        last_named(parts.drop_last())
    } else if parts.last() == ".."@ {
        None
    } else {
        Some(parts.last())
    }
}

/// The name of what a path leads to.
pub open spec fn file_name_of(path: Seq<char>) -> Option<Seq<char>> {
    last_named(split(path, '/'))
}

/// The name of what a path leads to.
pub fn file_name(path: &str) -> (name: Option<String>)
    ensures
        name.deep_view() == file_name_of(path@),
{
    let parts = split_at_char(path, '/');
    let ghost all = parts.deep_view();
    let mut i: usize = parts.len();
    proof {
        assert(all.take(i as int) =~= all);
    }
    while i > 0
        invariant
            i <= parts@.len(),
            all == parts.deep_view(),
            last_named(all) == last_named(all.take(i as int)),
            all == split(path@, '/'),
        decreases i,
    {
        proof {
            assert(all.take(i as int).last() == parts@[i - 1]@);
            assert(all.take(i as int).drop_last() =~= all.take(i - 1));
        }
        let part = parts[i - 1].as_str();
        if !part.is_empty() && !same_text(part, ".") {
            if same_text(part, "..") {
                return None;
            }
            return Some(part.to_owned());
        }
        i -= 1;
    }
    None
}

/// Whether a path stays within the directory it is taken in: it is not blank,
/// not absolute and never goes up.
pub open spec fn stays_inside(path: Seq<char>) -> bool {
    &&& trimmed(path).len() > 0
    &&& !"/"@.is_prefix_of(path)
    &&& !split(path, '/').contains(".."@)
}

/// Whether a path stays within the directory it is taken in.
pub fn is_valid_container_path(path: &str) -> (yes: bool)
    ensures
        yes == stays_inside(path@),
{
    if trim(path).as_str().is_empty() {
        return false;
    }
    if begins_with(path, "/") {
        return false;
    }
    let parts = split_at_char(path, '/');
    !holds_text(&parts, "..")
}

/// Whether a path is a directory or lies in it, component by component.
pub fn is_inside(path: &str, root: &str) -> (yes: bool)
    ensures
        yes == lies_in(path@, root@),
{
    leads_through(&components(path), &components(root))
}

// ---------------------------------------------------------------------------
// Rules
// ---------------------------------------------------------------------------

/// What is never mounted.
pub open spec fn default_blocked() -> Seq<Seq<char>> {
    seq![
        ".ssh"@,
        ".gnupg"@,
        ".gpg"@,
        ".aws"@,
        ".azure"@,
        ".gcloud"@,
        ".kube"@,
        ".docker"@,
        "credentials"@,
        ".env"@,
        ".netrc"@,
        ".npmrc"@,
        ".pypirc"@,
        "id_rsa"@,
        "id_ed25519"@,
        "private_key"@,
        ".secret"@,
    ]
}

/// The texts with those of `extra` that are not among them yet.
pub open spec fn with_new(base: Seq<Seq<char>>, extra: Seq<Seq<char>>) -> Seq<Seq<char>>
    decreases extra.len(),
{
    if extra.len() == 0 {
        base
    } else {
        let before = with_new(base, extra.drop_last());
        if before.contains(extra.last()) {
            before
        } else {
            before.push(extra.last())
        }
    }
}

/// The texts with those of `extra` that are not among them yet.
pub fn add_new(base: Vec<String>, extra: &Vec<String>) -> (all: Vec<String>)
    ensures
        all.deep_view() == with_new(base.deep_view(), extra.deep_view()),
{
    let ghost first = base.deep_view();
    let ghost more = extra.deep_view();
    let mut all = base;
    let mut i: usize = 0;
    proof {
        assert(all.deep_view() =~= with_new(first, more.take(0)));
    }
    while i < extra.len()
        invariant
            i <= extra@.len(),
            more == extra.deep_view(),
            all.deep_view() == with_new(first, more.take(i as int)),
        decreases extra@.len() - i,
    {
        let ghost before = all.deep_view();
        proof {
            assert(more.take(i as int + 1).drop_last() =~= more.take(i as int));
            assert(more[i as int] == extra@[i as int]@);
        }
        if !holds_text(&all, extra[i].as_str()) {
            all.push(extra[i].clone());
            proof {
                assert(all.deep_view() =~= before.push(extra@[i as int]@));
            }
        }
        i += 1;
    }
    proof {
        assert(more.take(more.len() as int) =~= more);
    }
    all
}

/// The patterns that are not mounted: the default ones and those of the list.
pub fn merged_blocked_patterns(allowlist: &MountAllowlist) -> (patterns: Vec<String>)
    ensures
        patterns.deep_view() == with_new(
            default_blocked(),
            allowlist.blocked_patterns.deep_view(),
        ),
{
    let defaults: Vec<&str> = vec![
        ".ssh",
        ".gnupg",
        ".gpg",
        ".aws",
        ".azure",
        ".gcloud",
        ".kube",
        ".docker",
        "credentials",
        ".env",
        ".netrc",
        ".npmrc",
        ".pypirc",
        "id_rsa",
        "id_ed25519",
        "private_key",
        ".secret",
    ];
    proof {
        assert(defaults.deep_view() =~= default_blocked());
    }
    add_new(owned_texts(&defaults), &allowlist.blocked_patterns)
}

/// The first pattern that stands in a path.
pub open spec fn blocked_by(path: Seq<char>, patterns: Seq<Seq<char>>) -> Option<Seq<char>>
    decreases patterns.len(),
{
    if patterns.len() == 0 {
        None
    } else if contains_text(path, patterns[0]) {
        Some(patterns[0])
    } else {
        blocked_by(path, patterns.drop_first())
    }
}

/// The first pattern that stands in a path.
pub fn first_blocked_match(path: &str, blocked_patterns: &Vec<String>) -> (pattern: Option<String>)
    ensures
        pattern.deep_view() == blocked_by(path@, blocked_patterns.deep_view()),
{
    let ghost all = blocked_patterns.deep_view();
    let mut i: usize = 0;
    proof {
        assert(all.skip(0) =~= all);
    }
    while i < blocked_patterns.len()
        invariant
            i <= blocked_patterns@.len(),
            all == blocked_patterns.deep_view(),
            blocked_by(path@, all) == blocked_by(path@, all.skip(i as int)),
        decreases blocked_patterns@.len() - i,
    {
        proof {
            assert(all.skip(i as int)[0] == blocked_patterns@[i as int]@);
            assert(all.skip(i as int).drop_first() =~= all.skip(i as int + 1));
        }
        if has_text(path, blocked_patterns[i].as_str()) {
            return Some(blocked_patterns[i].clone());
        }
        i += 1;
    }
    None
}

/// Whether the first root that holds a path may be written to; nothing where no
/// root holds it. A root that does not exist holds nothing.
pub open spec fn root_access(
    path: Seq<char>,
    roots: Seq<AllowedRoot>,
    real_roots: Seq<Option<Seq<char>>>,
) -> Option<bool>
    decreases roots.len(),
{
    if roots.len() == 0 {
        None
    } else {
        match real_roots[0] {
            Some(real_root) if lies_in(path, real_root) => Some(roots[0].allow_read_write),
            _ => root_access(path, roots.drop_first(), real_roots.drop_first()),
        }
    }
}

/// Whether the first root that holds a path may be written to. `real_roots`
/// gives for each root its path without links, where it exists.
pub fn matching_allowed_root(
    path: &str,
    allowed_roots: &Vec<AllowedRoot>,
    real_roots: &Vec<Option<String>>,
) -> (access: Option<bool>)
    requires
        real_roots@.len() == allowed_roots@.len(),
    ensures
        access == root_access(path@, allowed_roots@, real_roots.deep_view()),
{
    let ghost found = real_roots.deep_view();
    let mut i: usize = 0;
    proof {
        assert(allowed_roots@.skip(0) =~= allowed_roots@);
        assert(found.skip(0) =~= found);
    }
    while i < allowed_roots.len()
        invariant
            i <= allowed_roots@.len(),
            real_roots@.len() == allowed_roots@.len(),
            found == real_roots.deep_view(),
            root_access(path@, allowed_roots@, found) == root_access(
                path@,
                allowed_roots@.skip(i as int),
                found.skip(i as int),
            ),
        decreases allowed_roots@.len() - i,
    {
        proof {
            assert(found.skip(i as int)[0] == real_roots@[i as int].deep_view());
            assert(allowed_roots@.skip(i as int)[0] == allowed_roots@[i as int]);
            assert(allowed_roots@.skip(i as int).drop_first() =~= allowed_roots@.skip(
                i as int + 1,
            ));
            assert(found.skip(i as int).drop_first() =~= found.skip(i as int + 1));
        }
        if let Some(real_root) = &real_roots[i] {
            if is_inside(path, real_root.as_str()) {
                return Some(allowed_roots[i].allow_read_write);
            }
        }
        i += 1;
    }
    None
}

/// Whether a mount is for reading only: unless writing was asked for, the root
/// allows it, and the group is the main one or the list makes no difference.
pub open spec fn is_readonly(
    asked: Option<bool>,
    is_main: bool,
    non_main_read_only: bool,
    root_writable: bool,
) -> bool {
    !(asked == Some(false) && (is_main || !non_main_read_only) && root_writable)
}

/// The path in the container that a mount asks for.
pub open spec fn asked_container_path(
    container_path: Option<Seq<char>>,
    host_path: Seq<char>,
) -> Option<Seq<char>> {
    match container_path {
        Some(path) => Some(path),
        None => file_name_of(host_path),
    }
}

/// What becomes of a mount: `real_host` is the host path without links, or why
/// it cannot be found.
pub open spec fn validated(
    mount: AdditionalMount,
    is_main: bool,
    allowlist: MountAllowlist,
    home: Option<Seq<char>>,
    real_host: Result<Seq<char>, Seq<char>>,
    real_roots: Seq<Option<Seq<char>>>,
) -> Result<ValidatedView, Seq<char>> {
    match asked_container_path(mount.container_path.deep_view(), mount.host_path@) {
        None => Err("failed to derive container path for '"@ + mount.host_path@ + "'"@),
        Some(container_path) => if !stays_inside(container_path) {
            Err("invalid container path '"@ + container_path + "'"@)
        } else {
            match real_host {
                Err(reason) => Err(
                    "additional mount host path does not exist '"@ + expanded(
                        mount.host_path@,
                        home,
                    ) + "': "@ + reason,
                ),
                Ok(path) => match blocked_by(
                    path,
                    with_new(default_blocked(), allowlist.blocked_patterns.deep_view()),
                ) {
                    Some(pattern) => Err(
                        "path '"@ + path + "' matches blocked pattern '"@ + pattern + "'"@,
                    ),
                    None => match root_access(path, allowlist.allowed_roots@, real_roots) {
                        None => Err("path '"@ + path + "' is outside of allowed roots"@),
                        Some(writable) => Ok(
                            ValidatedView {
                                host_path: path,
                                container_path: "/workspace/extra/"@ + container_path,
                                readonly: is_readonly(
                                    mount.readonly,
                                    is_main,
                                    allowlist.non_main_read_only,
                                    writable,
                                ),
                            },
                        ),
                    },
                },
            }
        },
    }
}

/// What becomes of a mount. `home` is the home directory, `real_host` the host
/// path without links or why it cannot be found, and `real_roots` the same for
/// each allowed root.
pub fn validate_mount_against_allowlist(
    mount: &AdditionalMount,
    is_main: bool,
    allowlist: &MountAllowlist,
    home: Option<&str>,
    real_host: Result<String, String>,
    real_roots: &Vec<Option<String>>,
) -> (out: Result<ValidatedMount, String>)
    requires
        real_roots@.len() == allowlist.allowed_roots@.len(),
    ensures
        outcome(out) == validated(
            *mount,
            is_main,
            *allowlist,
            home.deep_view(),
            outcome(real_host),
            real_roots.deep_view(),
        ),
{
    let asked = match &mount.container_path {
        Some(path) => Some(path.clone()),
        None => file_name(mount.host_path.as_str()),
    };
    let container_path = match asked {
        None => {
            return Err(
                "failed to derive container path for '".to_owned().concat(
                    mount.host_path.as_str(),
                ).concat("'"),
            );
        },
        Some(path) => path,
    };
    if !is_valid_container_path(container_path.as_str()) {
        return Err(
            "invalid container path '".to_owned().concat(container_path.as_str()).concat("'"),
        );
    }
    let path = match real_host {
        Err(reason) => {
            return Err(
                "additional mount host path does not exist '".to_owned().concat(
                    expand_home(mount.host_path.as_str(), home).as_str(),
                ).concat("': ").concat(reason.as_str()),
            );
        },
        Ok(path) => path,
    };
    let patterns = merged_blocked_patterns(allowlist);
    if let Some(pattern) = first_blocked_match(path.as_str(), &patterns) {
        return Err(
            "path '".to_owned().concat(path.as_str()).concat("' matches blocked pattern '").concat(
                pattern.as_str(),
            ).concat("'"),
        );
    }
    match matching_allowed_root(path.as_str(), &allowlist.allowed_roots, real_roots) {
        None => Err(
            "path '".to_owned().concat(path.as_str()).concat("' is outside of allowed roots"),
        ),
        Some(writable) => {
            let asked_writable = match mount.readonly {
                Some(flag) => !flag,
                None => false,
            };
            let readonly = if asked_writable {
                if !is_main && allowlist.non_main_read_only {
                    true
                } else {
                    !writable
                }
            } else {
                true
            };
            Ok(
                ValidatedMount {
                    host_path: path,
                    container_path: "/workspace/extra/".to_owned().concat(container_path.as_str()),
                    readonly,
                },
            )
        },
    }
}

pub const DEFAULT_ALLOWLIST_PATH: &'static str = "~/.config/nanoclaw/mount-allowlist.json";

/// Where the list of allowed roots is kept: where the runner was told, else where
/// it is configured, else at its usual place.
pub fn allowlist_path(told: Option<&str>, configured: Option<&str>, home: Option<&str>) -> (path:
    String)
    ensures
        path@ == match told {
            Some(path) => path@,
            None => expanded(
                match configured {
                    Some(path) => path@,
                    None => DEFAULT_ALLOWLIST_PATH@,
                },
                home.deep_view(),
            ),
        },
{
    match told {
        Some(path) => path.to_owned(),
        None => match configured {
            Some(path) => expand_home(path, home),
            None => expand_home(DEFAULT_ALLOWLIST_PATH, home),
        },
    }
}

/// The list of allowed roots in a file: `content` is what was read and decoded,
/// or why it could not be read.
pub fn load_allowlist(path: &str, content: Result<Result<MountAllowlist, String>, String>) -> (list:
    Result<MountAllowlist, String>)
    ensures
        match content {
            Ok(Ok(allowlist)) => list == Ok::<MountAllowlist, String>(allowlist),
            Ok(Err(reason)) => list matches Err(message) && message@
                == "mount allowlist parse failed at "@ + path@ + ": "@ + reason@,
            Err(reason) => list matches Err(message) && message@
                == "mount allowlist read failed at "@ + path@ + ": "@ + reason@,
        },
{
    match content {
        Ok(Ok(allowlist)) => Ok(allowlist),
        Ok(Err(reason)) => Err(
            "mount allowlist parse failed at ".to_owned().concat(path).concat(": ").concat(
                reason.as_str(),
            ),
        ),
        Err(reason) => Err(
            "mount allowlist read failed at ".to_owned().concat(path).concat(": ").concat(
                reason.as_str(),
            ),
        ),
    }
}

/// What becomes of a mount, given the list of allowed roots or why there is
/// none: without a list nothing is mounted.
pub fn validate_additional_mount(
    mount: &AdditionalMount,
    is_main: bool,
    allowlist: &Result<MountAllowlist, String>,
    home: Option<&str>,
    real_host: Result<String, String>,
    real_roots: &Vec<Option<String>>,
) -> (out: Result<ValidatedMount, String>)
    requires
        allowlist matches Ok(list) ==> real_roots@.len() == list.allowed_roots@.len(),
    ensures
        outcome(out) == match *allowlist {
            Ok(list) => validated(
                *mount,
                is_main,
                list,
                home.deep_view(),
                outcome(real_host),
                real_roots.deep_view(),
            ),
            Err(reason) => Err(reason@),
        },
{
    match allowlist {
        Ok(list) => validate_mount_against_allowlist(
            mount,
            is_main,
            list,
            home,
            real_host,
            real_roots,
        ),
        Err(reason) => Err(reason.clone()),
    }
}

// ---------------------------------------------------------------------------
// Laws
// ---------------------------------------------------------------------------

proof fn lemma_access_is_inside(
    path: Seq<char>,
    roots: Seq<AllowedRoot>,
    real_roots: Seq<Option<Seq<char>>>,
)
    requires
        root_access(path, roots, real_roots) is Some,
        real_roots.len() == roots.len(),
    ensures
        exists|i: int|
            0 <= i < roots.len() && (#[trigger] real_roots[i] matches Some(root) && lies_in(
                path,
                root,
            )) && root_access(path, roots, real_roots) == Some(roots[i].allow_read_write),
    decreases roots.len(),
{
    if roots.len() > 0 {
        if real_roots[0] is Some && lies_in(path, real_roots[0]->Some_0) {
            assert(real_roots[0] matches Some(root) && lies_in(path, root));
        } else {
            lemma_access_is_inside(path, roots.drop_first(), real_roots.drop_first());
            let rest = real_roots.drop_first();
            let i = choose|i: int|
                0 <= i < roots.drop_first().len() && (#[trigger] rest[i] matches Some(root)
                    && lies_in(path, root)) && root_access(path, roots.drop_first(), rest) == Some(
                    roots.drop_first()[i].allow_read_write,
                );
            assert(real_roots[i + 1] == rest[i]);
            assert(roots[i + 1] == roots.drop_first()[i]);
        }
    }
}

proof fn lemma_not_blocked(path: Seq<char>, patterns: Seq<Seq<char>>)
    requires
        blocked_by(path, patterns) is None,
    ensures
        forall|i: int| 0 <= i < patterns.len() ==> !contains_text(path, #[trigger] patterns[i]),
    decreases patterns.len(),
{
    if patterns.len() > 0 {
        lemma_not_blocked(path, patterns.drop_first());
        assert forall|i: int| 0 <= i < patterns.len() implies !contains_text(
            path,
            #[trigger] patterns[i],
        ) by {
            if i > 0 {
                assert(patterns.drop_first()[i - 1] == patterns[i]);
            }
        }
    }
}

proof fn lemma_base_stays(base: Seq<Seq<char>>, extra: Seq<Seq<char>>)
    ensures
        with_new(base, extra).len() >= base.len(),
        forall|i: int| 0 <= i < base.len() ==> with_new(base, extra)[i] == #[trigger] base[i],
    decreases extra.len(),
{
    if extra.len() > 0 {
        lemma_base_stays(base, extra.drop_last());
    }
}

/// Mounts fail closed: what is mounted exists, lies in an allowed root, and
/// holds none of the blocked patterns, not even where the list names none.
pub proof fn only_allowed_paths_are_mounted(
    mount: AdditionalMount,
    is_main: bool,
    allowlist: MountAllowlist,
    home: Option<Seq<char>>,
    real_host: Result<Seq<char>, Seq<char>>,
    real_roots: Seq<Option<Seq<char>>>,
)
    requires
        real_roots.len() == allowlist.allowed_roots@.len(),
        validated(mount, is_main, allowlist, home, real_host, real_roots) is Ok,
    ensures
        ({
            let out = validated(mount, is_main, allowlist, home, real_host, real_roots)->Ok_0;
            &&& real_host == Ok::<Seq<char>, Seq<char>>(out.host_path)
            &&& exists|i: int|
                0 <= i < real_roots.len() && (#[trigger] real_roots[i] matches Some(root)
                    && lies_in(out.host_path, root))
            &&& forall|i: int|
                0 <= i < default_blocked().len() ==> !contains_text(
                    out.host_path,
                    #[trigger] default_blocked()[i],
                )
        }),
{
    let out = validated(mount, is_main, allowlist, home, real_host, real_roots)->Ok_0;
    let patterns = with_new(default_blocked(), allowlist.blocked_patterns.deep_view());
    lemma_access_is_inside(out.host_path, allowlist.allowed_roots@, real_roots);
    lemma_not_blocked(out.host_path, patterns);
    lemma_base_stays(default_blocked(), allowlist.blocked_patterns.deep_view());
    assert forall|i: int| 0 <= i < default_blocked().len() implies !contains_text(
        out.host_path,
        #[trigger] default_blocked()[i],
    ) by {
        assert(patterns[i] == default_blocked()[i]);
    }
}

/// A group other than the main one never gets to write where the list keeps
/// other groups to reading; and nobody does unless it was asked for and the
/// root allows it.
pub proof fn writing_is_never_granted_unasked(
    mount: AdditionalMount,
    is_main: bool,
    allowlist: MountAllowlist,
    home: Option<Seq<char>>,
    real_host: Result<Seq<char>, Seq<char>>,
    real_roots: Seq<Option<Seq<char>>>,
)
    requires
        validated(mount, is_main, allowlist, home, real_host, real_roots) is Ok,
    ensures
        ({
            let out = validated(mount, is_main, allowlist, home, real_host, real_roots)->Ok_0;
            &&& !is_main && allowlist.non_main_read_only ==> out.readonly
            &&& mount.readonly != Some(false) ==> out.readonly
            &&& root_access(out.host_path, allowlist.allowed_roots@, real_roots) == Some(false)
                ==> out.readonly
        }),
{
}

/// A mount that is granted lies under the directory for additional mounts, at the place
/// that was asked for, and cannot lead out of it; it may be written to exactly where that
/// was asked for, the group may write, and the root that it lies in is writable.
pub proof fn granted_mount_lies_where_asked(
    mount: AdditionalMount,
    is_main: bool,
    allowlist: MountAllowlist,
    home: Option<Seq<char>>,
    real_host: Result<Seq<char>, Seq<char>>,
    real_roots: Seq<Option<Seq<char>>>,
)
    requires
        validated(mount, is_main, allowlist, home, real_host, real_roots) is Ok,
    ensures
        ({
            let out = validated(mount, is_main, allowlist, home, real_host, real_roots)->Ok_0;
            let asked = out.container_path.skip("/workspace/extra/"@.len() as int);
            &&& "/workspace/extra/"@.is_prefix_of(out.container_path)
            &&& mount.container_path matches Some(path) ==> asked == path@
            &&& mount.container_path is None ==> Some(asked) == file_name_of(mount.host_path@)
            &&& !split(asked, '/').contains(".."@)
            &&& !"/"@.is_prefix_of(asked)
            &&& !out.readonly <==> {
                &&& mount.readonly == Some(false)
                &&& is_main || !allowlist.non_main_read_only
                &&& root_access(out.host_path, allowlist.allowed_roots@, real_roots) == Some(true)
            }
        }),
{
    let out = validated(mount, is_main, allowlist, home, real_host, real_roots)->Ok_0;
    let prefix = "/workspace/extra/"@;
    let asked = asked_container_path(mount.container_path.deep_view(), mount.host_path@)->Some_0;
    assert(out.container_path.subrange(0, prefix.len() as int) =~= prefix);
    assert(out.container_path.skip(prefix.len() as int) =~= asked);
}

/// The access to a path is that of the first root that it lies in.
pub proof fn first_root_decides(
    path: Seq<char>,
    roots: Seq<AllowedRoot>,
    real_roots: Seq<Option<Seq<char>>>,
    i: int,
)
    requires
        real_roots.len() == roots.len(),
        0 <= i < roots.len(),
        real_roots[i] matches Some(root) && lies_in(path, root),
        forall|k: int|
            0 <= k < i ==> ((#[trigger] real_roots[k]) matches Some(root) ==> !lies_in(path, root)),
    ensures
        root_access(path, roots, real_roots) == Some(roots[i].allow_read_write),
    decreases i,
{
    if i > 0 {
        let rest = real_roots.drop_first();
        assert(!(real_roots[0] matches Some(root) && lies_in(path, root)));
        assert forall|k: int| 0 <= k < i - 1 implies ((#[trigger] rest[k]) matches Some(root)
            ==> !lies_in(path, root)) by {
            assert(rest[k] == real_roots[k + 1]);
        }
        first_root_decides(path, roots.drop_first(), rest, i - 1);
    }
}

/// A list that takes new texts in holds what it held and what is new, each once where it
/// held each once.
pub proof fn list_takes_new_texts_in(base: Seq<Seq<char>>, extra: Seq<Seq<char>>, text: Seq<char>)
    ensures
        with_new(base, extra).contains(text) <==> base.contains(text) || extra.contains(text),
        base.no_duplicates() ==> with_new(base, extra).no_duplicates(),
    decreases extra.len(),
{
    if extra.len() > 0 {
        let before = with_new(base, extra.drop_last());
        let all = with_new(base, extra);
        list_takes_new_texts_in(base, extra.drop_last(), text);
        list_takes_new_texts_in(base, extra.drop_last(), extra.last());
        assert(extra.contains(text) <==> extra.drop_last().contains(text) || extra.last() == text) by {
            if extra.contains(text) && extra.last() != text {
                let i = choose|i: int| 0 <= i < extra.len() && extra[i] == text;
                assert(extra.drop_last()[i] == text);
            }
            if extra.drop_last().contains(text) {
                let i = choose|i: int|
                    0 <= i < extra.drop_last().len() && extra.drop_last()[i] == text;
                assert(extra[i] == text);
            }
            if extra.last() == text {
                assert(extra[extra.len() - 1] == text);
            }
        }
        assert(all.contains(text) <==> before.contains(text) || extra.last() == text) by {
            if !before.contains(extra.last()) {
                assert(all[before.len() as int] == extra.last());
                if before.contains(text) {
                    let i = choose|i: int| 0 <= i < before.len() && before[i] == text;
                    assert(all[i] == text);
                }
                if all.contains(text) && extra.last() != text {
                    let i = choose|i: int| 0 <= i < all.len() && all[i] == text;
                    assert(before[i] == text);
                }
            }
        }
    }
}

/// A path is blocked exactly where it holds one of the patterns, and then by the first
/// that it holds.
pub proof fn first_pattern_blocks(path: Seq<char>, patterns: Seq<Seq<char>>)
    ensures
        blocked_by(path, patterns) matches Some(pattern) ==> patterns.contains(pattern)
            && contains_text(path, pattern),
        blocked_by(path, patterns) is None ==> forall|i: int|
            0 <= i < patterns.len() ==> !contains_text(path, #[trigger] patterns[i]),
    decreases patterns.len(),
{
    if patterns.len() > 0 && !contains_text(path, patterns[0]) {
        let rest = patterns.drop_first();
        first_pattern_blocks(path, rest);
        if let Some(pattern) = blocked_by(path, patterns) {
            let i = choose|i: int| 0 <= i < rest.len() && rest[i] == pattern;
            assert(patterns[i + 1] == pattern);
        } else {
            lemma_not_blocked(path, patterns);
        }
    } else if patterns.len() > 0 {
        assert(patterns.contains(patterns[0]));
    }
}

/// A home directory stands for the tilde, and nothing else is changed.
pub proof fn tilde_is_the_home_directory(path: Seq<char>, home: Seq<char>)
    ensures
        expanded("~"@, Some(home)) == home,
        expanded("~/"@ + path, Some(home)) == joined_path(home, path),
        expanded(path, None) == path,
        !"~"@.is_prefix_of(path) ==> expanded(path, Some(home)) == path,
{
    reveal_strlit("~");
    reveal_strlit("~/");
    let long = "~/"@ + path;
    assert(long.subrange(0, 2) =~= "~/"@);
    assert(long.skip(2) =~= path);
    assert(long.len() >= 2);
    if "~/"@.is_prefix_of(path) {
        assert(path.subrange(0, 2)[0] == '~');
        assert(path.subrange(0, 1) =~= "~"@);
    }
    if path == "~"@ {
        assert(path.subrange(0, 1) =~= "~"@);
    }
}

/// A path is named after its last part; the way up has no name.
pub proof fn path_is_named_after_its_last_part(directory: Seq<char>, name: Seq<char>)
    requires
        !name.contains('/'),
        name.len() > 0,
        name != "."@,
    ensures
        name != ".."@ ==> file_name_of(directory + seq!['/'] + name) == Some(name),
        name == ".."@ ==> file_name_of(directory + seq!['/'] + name) is None,
        name != ".."@ ==> file_name_of(directory + seq!['/'] + name + seq!['/']) == Some(name),
{
    separator_parts_the_text(directory, '/', name);
    separator_parts_the_text(name, '/', name);
    let none = Seq::<char>::empty();
    let path = directory + seq!['/'] + name;
    let parts = split(directory, '/');
    assert(split(path, '/') =~= parts.push(name));
    separator_parts_the_text(path, '/', none);
    assert(path + seq!['/'] + none =~= path + seq!['/']);
    assert(split(none, '/') =~= seq![none]);
    assert(split(path + seq!['/'], '/') =~= split(path, '/').push(none));
    assert(split(path, '/').push(none).drop_last() =~= split(path, '/'));
    assert(last_named(split(path, '/').push(none)) == last_named(split(path, '/')));
}

} // verus!
