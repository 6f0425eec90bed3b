//! Skills: instructions that groups share or have of their own.

use vstd::prelude::*;
use vstd::string::*;

use crate::paths::{components, leads_through, lies_in, path_components};
use crate::text::{
    ascii_lower, byte_head, byte_len, comes_before, contains_text, join, joined,
    lemma_before_total, lemma_before_transitive, occurs_at, same_text, text_before,
    to_ascii_lower, trim, trimmed, truncate_bytes, truncated_text_fits,
};

verus! {

#[derive(Debug, Clone, Copy, PartialEq, Eq, Structural)]
pub enum SkillSource {
    Global,
    Group,
}

impl SkillSource {
    /// The word for the source.
    pub open spec fn text(self) -> Seq<char> {
        match self {
            SkillSource::Global => "global"@,
            SkillSource::Group => "group"@,
        }
    }

    /// The word for the source.
    pub fn as_str(self) -> (text: &'static str)
        ensures
            text@ == self.text(),
    {
        match self {
            SkillSource::Global => "global",
            SkillSource::Group => "group",
        }
    }
}

#[derive(Debug, PartialEq, Eq)]
pub struct LoadedSkill {
    pub name: String,
    pub source: SkillSource,
    pub instructions: String,
    pub path: String,
}

/// The content of a [`LoadedSkill`].
pub struct SkillView {
    pub name: Seq<char>,
    pub source: SkillSource,
    pub instructions: Seq<char>,
    pub path: Seq<char>,
}

impl DeepView for LoadedSkill {
    type V = SkillView;

    open spec fn deep_view(&self) -> SkillView {
        SkillView {
            name: self.name@,
            source: self.source,
            instructions: self.instructions@,
            path: self.path@,
        }
    }
}

#[derive(Debug, PartialEq, Eq)]
pub struct SkillLoaderConfig {
    pub max_skills: usize,
    pub max_bytes_per_skill: usize,
}

impl Default for SkillLoaderConfig {
    fn default() -> (config: SkillLoaderConfig)
        ensures
            config.max_skills == 8,
            config.max_bytes_per_skill == 12_000,
    {
        SkillLoaderConfig { max_skills: 8, max_bytes_per_skill: 12_000 }
    }
}

// ---------------------------------------------------------------------------
// Reading skills
// ---------------------------------------------------------------------------

/// A file with a skill.
#[derive(Debug)]
pub struct SkillFile {
    pub path: String,
    pub content: String,
}

/// The name of a skill: the directory under the root that its file lies in, by
/// the components of their paths.
pub open spec fn skill_name_of(path: Seq<char>, root: Seq<char>) -> Seq<char> {
    let under = path_components(path).skip(path_components(root).len() as int);
    if lies_in(path, root) && under.len() > 1 && trimmed(under[0]).len() > 0 {
        trimmed(under[0])
    } else {
        "default"@
    }
}

/// The name of a skill.
pub fn skill_name(path: &str, skills_root: &str) -> (name: String)
    ensures
        name@ == skill_name_of(path@, skills_root@),
{
    let parts = components(path);
    let root = components(skills_root);
    if leads_through(&parts, &root) && parts.len() - root.len() > 1 {
        proof {
            assert(parts.deep_view()[root@.len() as int] == parts@[root@.len() as int]@);
        }
        let name = trim(parts[root.len()].as_str());
        if !name.as_str().is_empty() {
            return name;
        }
    }
    "default".to_owned()
}

/// The first characters of a text that take at most `max_bytes` bytes.
pub fn truncate_utf8(input: &str, max_bytes: usize) -> (out: String)
    ensures
        out@ == byte_head(input@, max_bytes as nat),
{
    truncate_bytes(input, max_bytes)
}

/// The skills in files; a blank file holds none.
pub open spec fn skills_in(
    files: Seq<SkillFile>,
    root: Seq<char>,
    source: SkillSource,
    max_bytes: nat,
) -> Seq<SkillView>
    decreases files.len(),
{
    if files.len() == 0 {
        Seq::empty()
    } else {
        let before = skills_in(files.drop_last(), root, source, max_bytes);
        let file = files.last();
        let text = trimmed(file.content@);
        if text.len() == 0 {
            before
        } else {
            before.push(
                SkillView {
                    name: skill_name_of(file.path@, root),
                    source,
                    instructions: byte_head(text, max_bytes),
                    path: file.path@,
                },
            )
        }
    }
}

/// The skills in files.
pub fn load_skills_from_root(
    files: &Vec<SkillFile>,
    skills_root: &str,
    source: SkillSource,
    max_bytes_per_skill: usize,
) -> (skills: Vec<LoadedSkill>)
    ensures
        skills.deep_view() == skills_in(
            files@,
            skills_root@,
            source,
            max_bytes_per_skill as nat,
        ),
{
    let mut skills: Vec<LoadedSkill> = Vec::new();
    let mut i: usize = 0;
    while i < files.len()
        invariant
            i <= files@.len(),
            skills.deep_view() =~= skills_in(
                files@.take(i as int),
                skills_root@,
                source,
                max_bytes_per_skill as nat,
            ),
        decreases files@.len() - i,
    {
        let ghost before = skills.deep_view();
        proof {
            assert(files@.take(i as int + 1).drop_last() =~= files@.take(i as int));
        }
        let text = trim(files[i].content.as_str());
        if !text.as_str().is_empty() {
            let skill = LoadedSkill {
                name: skill_name(files[i].path.as_str(), skills_root),
                source,
                instructions: truncate_utf8(text.as_str(), max_bytes_per_skill),
                path: files[i].path.clone(),
            };
            skills.push(skill);
            proof {
                assert(skills.deep_view() =~= before.push(skill.deep_view()));
            }
        }
        i += 1;
    }
    proof {
        assert(files@.take(files@.len() as int) =~= files@);
    }
    skills
}

// ---------------------------------------------------------------------------
// Merging skills
// ---------------------------------------------------------------------------

/// What two skills are told apart by: the name, in any ASCII case.
pub open spec fn skill_key(skill: LoadedSkill) -> Seq<char> {
    ascii_lower(skill.name@)
}

/// The skills by their names; of two with one name the later counts.
pub open spec fn by_name(skills: Seq<LoadedSkill>) -> Map<Seq<char>, LoadedSkill>
    decreases skills.len(),
{
    if skills.len() == 0 {
        Map::empty()
    } else {
        by_name(skills.drop_last()).insert(skill_key(skills.last()), skills.last())
    }
}

/// Whether a list has the skills of a map, in the order of their names.
pub open spec fn lists_sorted(list: Seq<LoadedSkill>, map: Map<Seq<char>, LoadedSkill>) -> bool {
    &&& forall|i: int, j: int|
        0 <= i < j < list.len() ==> comes_before(
            (#[trigger] list[i]).name@,
            (#[trigger] list[j]).name@,
        )
    &&& forall|i: int|
        0 <= i < list.len() ==> map.contains_key(skill_key(#[trigger] list[i])) && map[skill_key(
            list[i],
        )] == list[i]
    &&& forall|key: Seq<char>| #[trigger]
        map.contains_key(key) ==> exists|i: int|
            0 <= i < list.len() && skill_key(#[trigger] list[i]) == key
}

fn same_key(a: &LoadedSkill, b: &LoadedSkill) -> (yes: bool)
    ensures
        yes == (skill_key(*a) == skill_key(*b)),
{
    same_text(to_ascii_lower(a.name.as_str()).as_str(), to_ascii_lower(b.name.as_str()).as_str())
}

/// Takes the skill of the same name out of a sorted list.
fn drop_same(list: &mut Vec<LoadedSkill>, skill: &LoadedSkill, map: Ghost<Map<Seq<char>, LoadedSkill>>)
    requires
        lists_sorted(old(list)@, map@),
    ensures
        lists_sorted(final(list)@, map@.remove(skill_key(*skill))),
{
    let ghost key = skill_key(*skill);
    let ghost before = list@;
    let mut i: usize = 0;
    while i < list.len()
        invariant
            i <= list@.len(),
            list@ == before,
            key == skill_key(*skill),
            lists_sorted(before, map@),
            forall|k: int| 0 <= k < i ==> skill_key(#[trigger] list@[k]) != key,
        decreases list@.len() - i,
    {
        if same_key(&list[i], skill) {
            let _ = list.remove(i);
            proof {
                let after = list@;
                let rest = map@.remove(key);
                assert forall|a: int, b: int| 0 <= a < b < after.len() implies comes_before(
                    (#[trigger] after[a]).name@,
                    (#[trigger] after[b]).name@,
                ) by {
                    let a0 = if a < i {
                        a
                    } else {
                        a + 1
                    };
                    let b0 = if b < i {
                        b
                    } else {
                        b + 1
                    };
                    assert(after[a] == before[a0] && after[b] == before[b0]);
                }
                assert forall|a: int| 0 <= a < after.len() implies rest.contains_key(
                    skill_key(#[trigger] after[a]),
                ) && rest[skill_key(after[a])] == after[a] by {
                    let a0 = if a < i {
                        a
                    } else {
                        a + 1
                    };
                    assert(after[a] == before[a0]);
                    if skill_key(before[a0]) == key {
                        assert(before[a0] == before[i as int]);
                        lemma_before_total(before[a0].name@, before[i as int].name@);
                        if a0 < i {
                            assert(comes_before(before[a0].name@, before[i as int].name@));
                        } else {
                            assert(comes_before(before[i as int].name@, before[a0].name@));
                        }
                    }
                }
                assert forall|k: Seq<char>| #[trigger] rest.contains_key(k) implies exists|a: int|
                    0 <= a < after.len() && skill_key(#[trigger] after[a]) == k by {
                    assert(map@.contains_key(k));
                    let a0 = choose|a0: int|
                        0 <= a0 < before.len() && skill_key(#[trigger] before[a0]) == k;
                    let a = if a0 < i {
                        a0
                    } else {
                        a0 - 1
                    };
                    assert(after[a] == before[a0]);
                }
            }
            return;
        }
        i += 1;
    }
    proof {
        let rest = map@.remove(key);
        assert forall|a: int| 0 <= a < before.len() implies rest.contains_key(
            skill_key(#[trigger] before[a]),
        ) && rest[skill_key(before[a])] == before[a] by {
            assert(skill_key(before[a]) != key);
        }
        assert forall|k: Seq<char>| #[trigger] rest.contains_key(k) implies exists|a: int|
            0 <= a < before.len() && skill_key(#[trigger] before[a]) == k by {
            assert(map@.contains_key(k));
        }
    }
}

/// Puts a skill into a sorted list, in place of the one of the same name.
fn put_skill(list: &mut Vec<LoadedSkill>, skill: LoadedSkill, map: Ghost<Map<Seq<char>, LoadedSkill>>)
    requires
        lists_sorted(old(list)@, map@),
    ensures
        lists_sorted(final(list)@, map@.insert(skill_key(skill), skill)),
{
    let ghost key = skill_key(skill);
    drop_same(list, &skill, map);
    let ghost before = list@;
    let ghost rest = map@.remove(key);
    let mut i: usize = 0;
    while i < list.len() && !text_before(skill.name.as_str(), list[i].name.as_str())
        invariant
            i <= list@.len(),
            list@ == before,
            lists_sorted(before, rest),
            !rest.contains_key(key),
            key == skill_key(skill),
            forall|k: int| 0 <= k < i ==> comes_before((#[trigger] list@[k]).name@, skill.name@),
        decreases list@.len() - i,
    {
        proof {
            lemma_before_total(skill.name@, list@[i as int].name@);
            assert(rest.contains_key(skill_key(list@[i as int])));
            assert(list@[i as int].name@ != skill.name@);
        }
        i += 1;
    }
    proof {
        assert forall|k: int| i <= k < before.len() implies comes_before(
            skill.name@,
            (#[trigger] before[k]).name@,
        ) by {
            if k > i {
                lemma_before_transitive(skill.name@, before[i as int].name@, before[k].name@);
            }
        }
    }
    list.insert(i, skill);
    proof {
        let after = list@;
        let whole = map@.insert(key, skill);
        assert(after =~= before.insert(i as int, skill));
        assert forall|a: int, b: int| 0 <= a < b < after.len() implies comes_before(
            (#[trigger] after[a]).name@,
            (#[trigger] after[b]).name@,
        ) by {
            let a0 = if a < i {
                a
            } else {
                a - 1
            };
            let b0 = if b < i {
                b
            } else {
                b - 1
            };
            if a != i && b != i {
                assert(after[a] == before[a0] && after[b] == before[b0]);
            } else if a == i {
                assert(after[b] == before[b0]);
            } else {
                assert(after[a] == before[a0]);
            }
        }
        assert forall|a: int| 0 <= a < after.len() implies whole.contains_key(
            skill_key(#[trigger] after[a]),
        ) && whole[skill_key(after[a])] == after[a] by {
            if a != i {
                let a0 = if a < i {
                    a
                } else {
                    a - 1
                };
                assert(after[a] == before[a0]);
                assert(rest.contains_key(skill_key(before[a0])));
            }
        }
        assert forall|k: Seq<char>| #[trigger] whole.contains_key(k) implies exists|a: int|
            0 <= a < after.len() && skill_key(#[trigger] after[a]) == k by {
            if k == key {
                assert(skill_key(after[i as int]) == k);
            } else {
                assert(rest.contains_key(k));
                let a0 = choose|a0: int|
                    0 <= a0 < before.len() && skill_key(#[trigger] before[a0]) == k;
                let a = if a0 < i {
                    a0
                } else {
                    a0 + 1
                };
                assert(after[a] == before[a0]);
            }
        }
    }
}

/// Whether `chosen` are the first skills, by name, of what is left when later
/// skills of a name take the place of earlier ones.
pub open spec fn are_first_by_name(
    chosen: Seq<LoadedSkill>,
    skills: Seq<LoadedSkill>,
    max: nat,
) -> bool {
    exists|all: Seq<LoadedSkill>| #[trigger]
        lists_sorted(all, by_name(skills)) && chosen == if all.len() <= max {
            all
        } else {
            all.take(max as int)
        }
}

/// The skills of a group: the shared ones and its own, which take the place of
/// shared ones of the same name, sorted by name and up to the limit.
pub fn load_group_skills(
    global: Vec<LoadedSkill>,
    group: Vec<LoadedSkill>,
    config: &SkillLoaderConfig,
) -> (skills: Vec<LoadedSkill>)
    ensures
        are_first_by_name(skills@, global@ + group@, config.max_skills as nat),
{
    let ghost all = global@ + group@;
    let mut incoming = global;
    let mut own = group;
    incoming.append(&mut own);
    proof {
        assert(incoming@ =~= all);
    }
    let mut list: Vec<LoadedSkill> = Vec::new();
    let ghost mut done: Seq<LoadedSkill> = Seq::empty();
    while incoming.len() > 0
        invariant
            done + incoming@ =~= all,
            lists_sorted(list@, by_name(done)),
        decreases incoming@.len(),
    {
        let ghost before = incoming@;
        let skill = incoming.remove(0);
        proof {
            assert(before =~= seq![skill] + incoming@);
            assert(done.push(skill).drop_last() =~= done);
        }
        put_skill(&mut list, skill, Ghost(by_name(done)));
        proof {
            done = done.push(skill);
        }
    }
    proof {
        assert(done =~= all);
    }
    let ghost sorted = list@;
    if list.len() > config.max_skills {
        list.truncate(config.max_skills);
    }
    proof {
        assert(lists_sorted(sorted, by_name(all)));
        assert(list@ =~= if sorted.len() <= config.max_skills {
            sorted
        } else {
            sorted.take(config.max_skills as int)
        });
    }
    list
}

/// A group's skill takes the place of a shared one: under a name for which the
/// group has a skill, the skill is one of the group's.
pub proof fn group_skill_replaces_shared_one(
    global: Seq<LoadedSkill>,
    group: Seq<LoadedSkill>,
    key: Seq<char>,
)
    requires
        exists|i: int| 0 <= i < group.len() && skill_key(#[trigger] group[i]) == key,
    ensures
        by_name(global + group).contains_key(key),
        exists|i: int|
            0 <= i < group.len() && #[trigger] group[i] == by_name(global + group)[key],
    decreases group.len(),
{
    let all = global + group;
    let last = group.last();
    assert(all.last() == last);
    assert(all.drop_last() =~= global + group.drop_last());
    if skill_key(last) == key {
        assert(group[group.len() - 1] == last);
    } else {
        let i = choose|i: int| 0 <= i < group.len() && skill_key(#[trigger] group[i]) == key;
        assert(group.drop_last()[i] == group[i]);
        group_skill_replaces_shared_one(global, group.drop_last(), key);
        let k = choose|k: int|
            0 <= k < group.drop_last().len() && #[trigger] group.drop_last()[k] == by_name(
                global + group.drop_last(),
            )[key];
        assert(group[k] == group.drop_last()[k]);
    }
}

proof fn lemma_first_listed(
    a: Seq<LoadedSkill>,
    b: Seq<LoadedSkill>,
    map: Map<Seq<char>, LoadedSkill>,
)
    requires
        lists_sorted(a, map),
        lists_sorted(b, map),
        a.len() > 0,
        b.len() > 0,
    ensures
        a[0] == b[0],
{
    let j = choose|j: int| 0 <= j < b.len() && skill_key(#[trigger] b[j]) == skill_key(a[0]);
    let i = choose|i: int| 0 <= i < a.len() && skill_key(#[trigger] a[i]) == skill_key(b[0]);
    assert(b[j] == a[0]);
    assert(a[i] == b[0]);
    lemma_before_total(a[0].name@, b[0].name@);
    if i > 0 && j > 0 {
        assert(comes_before(a[0].name@, a[i].name@));
        assert(comes_before(b[0].name@, b[j].name@));
    }
}

proof fn lemma_rest_listed(list: Seq<LoadedSkill>, map: Map<Seq<char>, LoadedSkill>)
    requires
        lists_sorted(list, map),
        list.len() > 0,
    ensures
        lists_sorted(list.drop_first(), map.remove(skill_key(list[0]))),
{
    let rest = list.drop_first();
    let left = map.remove(skill_key(list[0]));
    assert forall|i: int, j: int| 0 <= i < j < rest.len() implies comes_before(
        (#[trigger] rest[i]).name@,
        (#[trigger] rest[j]).name@,
    ) by {
        assert(rest[i] == list[i + 1] && rest[j] == list[j + 1]);
    }
    assert forall|i: int| 0 <= i < rest.len() implies left.contains_key(
        skill_key(#[trigger] rest[i]),
    ) && left[skill_key(rest[i])] == rest[i] by {
        assert(rest[i] == list[i + 1]);
        assert(comes_before(list[0].name@, list[i + 1].name@));
        lemma_before_total(list[0].name@, list[0].name@);
        if skill_key(list[0]) == skill_key(list[i + 1]) {
            assert(list[0] == list[i + 1]);
        }
    }
    assert forall|key: Seq<char>| #[trigger] left.contains_key(key) implies exists|i: int|
        0 <= i < rest.len() && skill_key(#[trigger] rest[i]) == key by {
        assert(map.contains_key(key));
        let i = choose|i: int| 0 <= i < list.len() && skill_key(#[trigger] list[i]) == key;
        assert(rest[i - 1] == list[i]);
    }
}

proof fn lemma_listing_is_determined(
    a: Seq<LoadedSkill>,
    b: Seq<LoadedSkill>,
    map: Map<Seq<char>, LoadedSkill>,
)
    requires
        lists_sorted(a, map),
        lists_sorted(b, map),
    ensures
        a == b,
    decreases a.len(),
{
    if a.len() == 0 {
        if b.len() > 0 {
            assert(map.contains_key(skill_key(b[0])));
        }
        assert(a =~= b);
    } else {
        if b.len() == 0 {
            assert(map.contains_key(skill_key(a[0])));
        }
        lemma_first_listed(a, b, map);
        lemma_rest_listed(a, map);
        lemma_rest_listed(b, map);
        lemma_listing_is_determined(
            a.drop_first(),
            b.drop_first(),
            map.remove(skill_key(a[0])),
        );
        assert(a =~= seq![a[0]] + a.drop_first());
        assert(b =~= seq![b[0]] + b.drop_first());
    }
}

/// The skills that are chosen are determined by those that were loaded.
pub proof fn chosen_skills_are_determined(
    a: Seq<LoadedSkill>,
    b: Seq<LoadedSkill>,
    skills: Seq<LoadedSkill>,
    max: nat,
)
    requires
        are_first_by_name(a, skills, max),
        are_first_by_name(b, skills, max),
    ensures
        a == b,
{
    let map = by_name(skills);
    let all_a = choose|all: Seq<LoadedSkill>| #[trigger]
        lists_sorted(all, map) && a == if all.len() <= max {
            all
        } else {
            all.take(max as int)
        };
    let all_b = choose|all: Seq<LoadedSkill>| #[trigger]
        lists_sorted(all, map) && b == if all.len() <= max {
            all
        } else {
            all.take(max as int)
        };
    lemma_listing_is_determined(all_a, all_b, map);
}

// ---------------------------------------------------------------------------
// Showing skills
// ---------------------------------------------------------------------------

/// A skill as the agent reads it.
pub open spec fn skill_block(skill: LoadedSkill) -> Seq<char> {
    "### Skill: "@ + skill.name@ + " ("@ + skill.source.text() + ")\n"@ + skill.instructions@
        + "\n"@
}

/// Skills as the agent reads them, an empty line between them.
pub fn render_skill_instructions(skills: &[LoadedSkill]) -> (text: Option<String>)
    ensures
        text.deep_view() == if skills@.len() == 0 {
            None
        } else {
            Some(
                trimmed(
                    joined(Seq::new(skills@.len(), |i: int| skill_block(skills@[i])), "\n"@),
                ),
            )
        },
{
    if skills.len() == 0 {
        return None;
    }
    let ghost wanted = Seq::new(skills@.len(), |i: int| skill_block(skills@[i]));
    let mut blocks: Vec<String> = Vec::new();
    let mut i: usize = 0;
    while i < skills.len()
        invariant
            i <= skills@.len(),
            wanted == Seq::new(skills@.len(), |i: int| skill_block(skills@[i])),
            blocks.deep_view() =~= wanted.take(i as int),
        decreases skills@.len() - i,
    {
        let ghost before = blocks.deep_view();
        let skill = &skills[i];
        let block = "### Skill: ".to_owned().concat(skill.name.as_str()).concat(" (").concat(
            skill.source.as_str(),
        ).concat(")\n").concat(skill.instructions.as_str()).concat("\n");
        blocks.push(block);
        proof {
            assert(blocks.deep_view() =~= before.push(wanted[i as int]));
        }
        i += 1;
    }
    proof {
        assert(blocks.deep_view() =~= wanted);
    }
    Some(trim(join(&blocks, "\n").as_str()))
}

/// Whether one of the skills is a file's.
pub open spec fn comes_from_file(
    skills: Seq<SkillView>,
    file: SkillFile,
    source: SkillSource,
    max_bytes: nat,
) -> bool {
    exists|i: int| #[trigger] is_of_file(skills, i, file, source, max_bytes)
}

pub open spec fn is_of_file(
    skills: Seq<SkillView>,
    i: int,
    file: SkillFile,
    source: SkillSource,
    max_bytes: nat,
) -> bool {
    &&& 0 <= i < skills.len()
    &&& skills[i].path == file.path@
    &&& skills[i].source == source
    &&& skills[i].instructions.is_prefix_of(trimmed(file.content@))
    &&& byte_len(trimmed(file.content@)) <= max_bytes ==> skills[i].instructions == trimmed(
        file.content@,
    )
    &&& byte_len(skills[i].instructions) <= max_bytes
}

/// Every file that says something is a skill, with what it says as far as there is room;
/// and there are no other skills.
pub proof fn every_written_file_is_a_skill(
    files: Seq<SkillFile>,
    root: Seq<char>,
    source: SkillSource,
    max_bytes: nat,
)
    ensures
        forall|k: int|
            0 <= k < files.len() && trimmed((#[trigger] files[k]).content@).len() > 0
                ==> comes_from_file(
                skills_in(files, root, source, max_bytes),
                files[k],
                source,
                max_bytes,
            ),
        skills_in(files, root, source, max_bytes).len() == files.filter(
            |file: SkillFile| trimmed(file.content@).len() > 0,
        ).len(),
    decreases files.len(),
{
    reveal(Seq::filter);
    if files.len() > 0 {
        let rest = files.drop_last();
        let before = skills_in(rest, root, source, max_bytes);
        let all = skills_in(files, root, source, max_bytes);
        every_written_file_is_a_skill(rest, root, source, max_bytes);
        assert forall|k: int|
            0 <= k < files.len() && trimmed(
                (#[trigger] files[k]).content@,
            ).len() > 0 implies comes_from_file(all, files[k], source, max_bytes) by {
            if k < rest.len() {
                assert(rest[k] == files[k]);
                let i = choose|i: int| #[trigger] is_of_file(before, i, rest[k], source, max_bytes);
                assert(all[i] == before[i]);
                assert(is_of_file(all, i, files[k], source, max_bytes));
            } else {
                let text = trimmed(files[k].content@);
                truncated_text_fits(text, max_bytes);
                assert(text.subrange(0, text.len() as int) =~= text);
                assert(is_of_file(all, before.len() as int, files[k], source, max_bytes));
            }
        }
    }
}

/// A skill has the name of its directory under the root.
pub proof fn skill_is_named_after_its_directory(path: Seq<char>, root: Seq<char>)
    requires
        lies_in(path, root),
        path_components(path).len() > path_components(root).len() + 1,
        trimmed(path_components(path)[path_components(root).len() as int]).len() > 0,
    ensures
        skill_name_of(path, root) == trimmed(
            path_components(path)[path_components(root).len() as int],
        ),
{
}

/// What the agent is told of skills holds what each of them says, under its name.
pub proof fn every_skill_is_told(skill: LoadedSkill)
    ensures
        contains_text(skill_block(skill), skill.instructions@),
        contains_text(skill_block(skill), skill.name@),
{
    let block = skill_block(skill);
    let start = "### Skill: "@;
    let name = skill.name@;
    let said = skill.instructions@;
    let at = block.len() - said.len() - "\n"@.len();
    assert(block.subrange(start.len() as int, (start + name).len() as int) =~= name);
    assert(occurs_at(block, name, start.len() as int));
    assert(block.subrange(at, at + said.len()) =~= said);
    assert(occurs_at(block, said, at));
}

} // verus!
