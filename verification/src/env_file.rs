//! Settings from the environment and from a file of `KEY=value` lines.

use vstd::prelude::*;
use vstd::string::*;

use crate::name_map::{put_text, texts, NameMap};
use crate::text::laws::halves_make_up_the_text;
use crate::text::{
    lines, lines_of, piece, split_once, split_once_at, to_chars, trim, trimmed,
};

verus! {

/// A value without the quotes around it, where it begins and ends with one kind
/// of quote.
pub open spec fn unquoted(value: Seq<char>) -> Seq<char> {
    if value.len() > 0 && value[0] == value.last() && (value[0] == '"' || value[0] == '\'') {
        if value.len() == 1 {
            Seq::empty()
        } else {
            value.subrange(1, value.len() - 1)
        }
    } else {
        value
    }
}

/// The key and the value that a line sets. Blank lines, comments, lines without
/// an equals sign, and lines whose key or value is empty set nothing.
pub open spec fn setting_of(line: Seq<char>) -> Option<(Seq<char>, Seq<char>)> {
    let text = trimmed(line);
    if text.len() == 0 || text[0] == '#' {
        None
    } else {
        match split_once_at(text, '=') {
            None => None,
            Some((key, value)) => {
                let key = trimmed(key);
                let value = unquoted(trimmed(value));
                if key.len() == 0 || value.len() == 0 {
                    None
                } else {
                    Some((key, value))
                }
            },
        }
    }
}

/// The settings of lines; of two lines for one key the later counts.
pub open spec fn settings_of(lines: Seq<Seq<char>>) -> Map<Seq<char>, Seq<char>>
    decreases lines.len(),
{
    if lines.len() == 0 {
        Map::empty()
    } else {
        let before = settings_of(lines.drop_last());
        match setting_of(lines.last()) {
            Some((key, value)) => before.insert(key, value),
            None => before,
        }
    }
}

fn unquote(value: &str) -> (out: String)
    ensures
        out@ == unquoted(value@),
{
    let chars = to_chars(value);
    let total: usize = chars.len();
    if total > 0 && chars[0] == chars[total - 1] && (chars[0] == '"' || chars[0] == '\'') {
        if total == 1 {
            return String::new();
        }
        return piece(&chars, 1, total - 1);
    }
    value.to_owned()
}

fn parse_setting(line: &str) -> (setting: Option<(String, String)>)
    ensures
        setting.deep_view() == setting_of(line@),
{
    let text = trim(line);
    let chars = to_chars(text.as_str());
    if chars.len() == 0 || chars[0] == '#' {
        return None;
    }
    match split_once(text.as_str(), '=') {
        None => None,
        Some((key, value)) => {
            let key = trim(key.as_str());
            let value = unquote(trim(value.as_str()).as_str());
            if key.as_str().is_empty() || value.as_str().is_empty() {
                return None;
            }
            Some((key, value))
        },
    }
}

/// The settings of a file.
pub fn parse_env_content(content: &str) -> (settings: NameMap<String>)
    ensures
        settings.wf(),
        texts(settings@) == settings_of(lines_of(content@)),
{
    let all = lines(content);
    let ghost wanted = all.deep_view();
    let mut settings: NameMap<String> = NameMap::new();
    let mut i: usize = 0;
    proof {
        assert(texts(settings@) =~= settings_of(wanted.take(0)));
    }
    while i < all.len()
        invariant
            i <= all@.len(),
            wanted == all.deep_view(),
            settings.wf(),
            texts(settings@) == settings_of(wanted.take(i as int)),
        decreases all@.len() - i,
    {
        proof {
            assert(wanted.take(i as int + 1).drop_last() =~= wanted.take(i as int));
            assert(wanted[i as int] == all@[i as int]@);
        }
        if let Some((key, value)) = parse_setting(all[i].as_str()) {
            put_text(&mut settings, key.as_str(), value);
        }
        i += 1;
    }
    proof {
        assert(wanted.take(wanted.len() as int) =~= wanted);
    }
    settings
}

/// The settings under the given keys.
pub fn read_env_file(settings: &NameMap<String>, keys: &Vec<&str>) -> (found: NameMap<String>)
    requires
        settings.wf(),
    ensures
        found.wf(),
        texts(found@) == texts(settings@).restrict(
            Set::new(|key: Seq<char>| keys.deep_view().contains(key)),
        ),
{
    let ghost wanted = texts(settings@);
    let mut found: NameMap<String> = NameMap::new();
    let mut i: usize = 0;
    let ghost names = keys.deep_view();
    proof {
        assert(texts(found@) =~= wanted.restrict(
            Set::new(|key: Seq<char>| names.take(0).contains(key)),
        ));
    }
    while i < keys.len()
        invariant
            i <= keys@.len(),
            names == keys.deep_view(),
            settings.wf(),
            wanted == texts(settings@),
            found.wf(),
            texts(found@) == wanted.restrict(
                Set::new(|key: Seq<char>| names.take(i as int).contains(key)),
            ),
        decreases keys@.len() - i,
    {
        let ghost before = texts(found@);
        let name = keys[i];
        proof {
            assert(names[i as int] == name@);
            assert(names.take(i as int + 1) =~= names.take(i as int).push(name@));
            assert forall|key: Seq<char>| #[trigger]
                names.take(i as int + 1).contains(key) == (names.take(i as int).contains(key)
                    || key == name@) by {
                if names.take(i as int).contains(key) {
                    let k = choose|k: int|
                        0 <= k < names.take(i as int).len() && names.take(i as int)[k] == key;
                    assert(names.take(i as int + 1)[k] == key);
                }
                if key == name@ {
                    assert(names.take(i as int + 1)[i as int] == key);
                }
            }
        }
        if let Some(value) = settings.get(name) {
            put_text(&mut found, name, value.clone());
        }
        proof {
            assert(texts(found@) =~= wanted.restrict(
                Set::new(|key: Seq<char>| names.take(i as int + 1).contains(key)),
            ));
        }
        i += 1;
    }
    proof {
        assert(names.take(names.len() as int) =~= names);
    }
    found
}

/// A setting: the environment comes before the file.
pub fn read_env_var(environment: Option<String>, settings: &NameMap<String>, key: &str) -> (value:
    Option<String>)
    requires
        settings.wf(),
    ensures
        value.deep_view() == match environment {
            Some(text) => Some(text@),
            None => if texts(settings@).contains_key(key@) {
                Some(texts(settings@)[key@])
            } else {
                None
            },
        },
{
    match environment {
        Some(text) => Some(text),
        None => match settings.get(key) {
            Some(text) => Some(text.clone()),
            None => None,
        },
    }
}

/// A line that sets a key to a value sets just that, where neither has white space around
/// it and the value stands in no quotes; what follows the first equals sign is the value.
pub proof fn line_sets_its_key(key: Seq<char>, value: Seq<char>)
    requires
        key.len() > 0,
        value.len() > 0,
        !key.contains('='),
        key[0] != '#',
        trimmed(key) == key,
        trimmed(value) == value,
        trimmed(key + seq!['='] + value) == key + seq!['='] + value,
        value[0] != '"' && value[0] != '\'',
    ensures
        setting_of(key + seq!['='] + value) == Some((key, value)),
{
    let line = key + seq!['='] + value;
    halves_make_up_the_text(line, '=');
    assert(line[key.len() as int] == '=');
    assert(line.contains('='));
    let (left, right) = split_once_at(line, '=')->Some_0;
    assert(left + seq!['='] + right == line);
    assert(left.len() == key.len()) by {
        if left.len() < key.len() {
            assert((left + seq!['='] + right)[left.len() as int] == '=');
            assert(line[left.len() as int] == key[left.len() as int]);
            assert(key.contains('='));
        }
        if left.len() > key.len() {
            assert((left + seq!['='] + right)[key.len() as int] == left[key.len() as int]);
            assert(left.contains('='));
        }
    }
    assert(left =~= line.take(key.len() as int));
    assert(key =~= line.take(key.len() as int));
    assert(right =~= line.skip(key.len() as int + 1));
    assert(value =~= line.skip(key.len() as int + 1));
    assert(line[0] == key[0]);
}

/// Quotes around a value are not part of it, and what has none stays as it is.
pub proof fn quotes_are_taken_off(value: Seq<char>)
    ensures
        unquoted(seq!['"'] + value + seq!['"']) == value,
        unquoted(seq!['\''] + value + seq!['\'']) == value,
        value.len() > 0 && value[0] != '"' && value[0] != '\'' ==> unquoted(value) == value,
{
    let double = seq!['"'] + value + seq!['"'];
    let single = seq!['\''] + value + seq!['\''];
    assert(double.subrange(1, double.len() - 1) =~= value);
    assert(single.subrange(1, single.len() - 1) =~= value);
}

/// The last line that sets a key decides, and every other key stays as it was.
pub proof fn last_line_decides(lines: Seq<Seq<char>>, line: Seq<char>, other: Seq<char>)
    ensures
        setting_of(line) matches Some((key, value)) ==> settings_of(lines.push(line)).contains_key(
            key,
        ) && settings_of(lines.push(line))[key] == value,
        setting_of(line) is None || setting_of(line)->Some_0.0 != other ==> (settings_of(
            lines.push(line),
        ).contains_key(other) == settings_of(lines).contains_key(other) && settings_of(
            lines.push(line),
        )[other] == settings_of(lines)[other]),
{
    assert(lines.push(line).drop_last() =~= lines);
}

/// A line that begins with a number sign, or that is blank, sets nothing.
pub proof fn comments_set_nothing(line: Seq<char>)
    ensures
        trimmed(line).len() == 0 ==> setting_of(line) is None,
        trimmed(line).len() > 0 && trimmed(line)[0] == '#' ==> setting_of(line) is None,
{
}

} // verus!
