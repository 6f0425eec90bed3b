//! Keeping the cursors over a restart.

use vstd::prelude::*;
use vstd::string::*;

use crate::json::{
    all_texts, distinct_keys, holds_pairs, lemma_object_content, lists_map, member_map,
    member_value, pair_value, parse_json, parsed_json, write_json_texts, Json, JsonValue,
};
use crate::name_map::{put_text, texts, NameMap};
use crate::orchestrator::state::RouterState;
use crate::text::outcome;

verus! {

/// The cursors that a stored value holds: none unless it is an object whose
/// members are all texts.
pub open spec fn stored_cursors(value: Result<Json, Seq<char>>) -> Map<Seq<char>, Seq<char>> {
    match value {
        Ok(Json::Object(members)) if all_texts(members) => member_map(members),
        _ => Map::empty(),
    }
}

fn only_texts(members: &Vec<(String, JsonValue)>) -> (yes: bool)
    ensures
        yes == all_texts(members.deep_view()),
{
    let mut i: usize = 0;
    while i < members.len()
        invariant
            i <= members@.len(),
            forall|k: int|
                0 <= k < i ==> (#[trigger] members.deep_view()[k]).1 is Text,
        decreases members@.len() - i,
    {
        match &members[i].1 {
            JsonValue::Text(_) => {},
            _ => {
                proof {
                    assert(!(members.deep_view()[i as int].1 is Text));
                }
                return false;
            },
        }
        i += 1;
    }
    true
}

/// The cursors that a stored value holds.
pub fn cursors_from(value: Result<JsonValue, String>) -> (cursors: NameMap<String>)
    ensures
        cursors.wf(),
        texts(cursors@) == stored_cursors(outcome(value)),
{
    let mut cursors: NameMap<String> = NameMap::new();
    proof {
        assert(texts(cursors@) =~= Map::<Seq<char>, Seq<char>>::empty());
    }
    let members = match value {
        Ok(JsonValue::Object(members)) => members,
        _ => {
            return cursors;
        },
    };
    proof {
        lemma_object_content(members);
    }
    if !only_texts(&members) {
        return cursors;
    }
    let ghost all = members.deep_view();
    let mut i: usize = members.len();
    proof {
        assert(all.skip(i as int) =~= Seq::<(Seq<char>, Json)>::empty());
        assert(texts(cursors@) =~= member_map(all.skip(i as int)));
    }
    while i > 0
        invariant
            i <= members@.len(),
            all == members.deep_view(),
            all_texts(all),
            cursors.wf(),
            texts(cursors@) == member_map(all.skip(i as int)),
        decreases i,
    {
        i -= 1;
        let ghost before = texts(cursors@);
        proof {
            assert(all.skip(i as int)[0] == all[i as int]);
            assert(all.skip(i as int).drop_first() =~= all.skip(i as int + 1));
            assert(all[i as int].1 is Text);
        }
        if let JsonValue::Text(text) = &members[i].1 {
            put_text(&mut cursors, members[i].0.as_str(), text.clone());
            proof {
                assert(all[i as int] == (members@[i as int].0@, Json::Text(text@)));
                assert(texts(cursors@) =~= member_map(all.skip(i as int)));
            }
        }
    }
    proof {
        assert(all.skip(0) =~= all);
    }
    cursors
}

/// The cursors in a stored text; none where there is no text or it holds none.
pub fn load_cursors(raw: Option<&str>) -> (cursors: NameMap<String>)
    ensures
        cursors.wf(),
        texts(cursors@) == match raw {
            Some(text) => stored_cursors(parsed_json(text@)),
            None => Map::empty(),
        },
{
    match raw {
        Some(text) => cursors_from(parse_json(text)),
        None => {
            let cursors: NameMap<String> = NameMap::new();
            proof {
                assert(texts(cursors@) =~= Map::<Seq<char>, Seq<char>>::empty());
            }
            cursors
        },
    }
}

proof fn lemma_pair_value(pairs: Seq<(Seq<char>, Seq<char>)>, key: Seq<char>)
    requires
        distinct_keys(pairs),
    ensures
        pair_value(pairs, key) is Some <==> exists|i: int|
            0 <= i < pairs.len() && (#[trigger] pairs[i]).0 == key,
        forall|i: int|
            0 <= i < pairs.len() && (#[trigger] pairs[i]).0 == key ==> pair_value(pairs, key)
                == Some(pairs[i].1),
    decreases pairs.len(),
{
    if pairs.len() > 0 && pairs[0].0 != key {
        let rest = pairs.drop_first();
        assert(distinct_keys(rest)) by {
            assert forall|i: int, j: int| 0 <= i < j < rest.len() implies (#[trigger] rest[i]).0
                != (#[trigger] rest[j]).0 by {
                assert(rest[i] == pairs[i + 1]);
                assert(rest[j] == pairs[j + 1]);
            }
        }
        lemma_pair_value(rest, key);
        assert forall|i: int| 0 <= i < pairs.len() && (#[trigger] pairs[i]).0 == key implies
            pair_value(pairs, key) == Some(pairs[i].1) by {
            assert(rest[i - 1] == pairs[i]);
        }
        if exists|i: int| 0 <= i < rest.len() && (#[trigger] rest[i]).0 == key {
            let i = choose|i: int| 0 <= i < rest.len() && (#[trigger] rest[i]).0 == key;
            assert(pairs[i + 1] == rest[i]);
        }
        if exists|i: int| 0 <= i < pairs.len() && (#[trigger] pairs[i]).0 == key {
            let i = choose|i: int| 0 <= i < pairs.len() && (#[trigger] pairs[i]).0 == key;
            assert(rest[i - 1] == pairs[i]);
        }
    } else if pairs.len() > 0 {
        assert forall|i: int| 0 <= i < pairs.len() && (#[trigger] pairs[i]).0 == key implies
            pair_value(pairs, key) == Some(pairs[i].1) by {
            if i > 0 {
                assert(pairs[0].0 != pairs[i].0);
            }
        }
    }
}

/// Cursors survive a restart: an object that holds the cursors' pairs, in any
/// order, gives the same cursors back.
pub proof fn stored_pairs_give_cursors_back(
    value: Json,
    pairs: Seq<(Seq<char>, Seq<char>)>,
    cursors: Map<Seq<char>, Seq<char>>,
)
    requires
        lists_map(pairs, cursors),
        holds_pairs(value, pairs),
    ensures
        stored_cursors(Ok(value)) == cursors,
{
    let members = value->Object_0;
    assert(all_texts(members));
    let read = member_map(members);
    assert forall|key: Seq<char>| #[trigger]
        read.contains_key(key) == cursors.contains_key(key) && (cursors.contains_key(key)
            ==> read[key] == cursors[key]) by {
        lemma_pair_value(pairs, key);
        assert(member_value(members, key) == (match pair_value(pairs, key) {
            Some(text) => Some(Json::Text(text)),
            None => None,
        }));
        if cursors.contains_key(key) {
            let i = choose|i: int| 0 <= i < pairs.len() && pairs[i].0 == key;
            assert(pairs[i].0 == key);
            assert(cursors[pairs[i].0] == pairs[i].1);
        }
        if pair_value(pairs, key) is Some {
            let i = choose|i: int| 0 <= i < pairs.len() && (#[trigger] pairs[i]).0 == key;
            assert(cursors.contains_key(pairs[i].0));
        }
    }
    assert(read =~= cursors);
}

/// A map to texts as pairs, in no stated order.
pub fn list_texts(map: &NameMap<String>) -> (pairs: Vec<(String, String)>)
    requires
        map.wf(),
    ensures
        lists_map(pairs.deep_view(), texts(map@)),
{
    let mut pairs: Vec<(String, String)> = Vec::new();
    let mut i: usize = 0;
    proof {
        map.lemma_listed();
    }
    while i < map.len()
        invariant
            map.wf(),
            i <= map.entry_count(),
            pairs@.len() == i,
            forall|k: int|
                0 <= k < i ==> (#[trigger] pairs@[k]).0@ == map.name_at(k) && pairs@[k].1@
                    == map.value_at(k)@,
        decreases map.entry_count() - i,
    {
        let (name, text) = map.entry(i);
        pairs.push((name.to_owned(), text.clone()));
        i += 1;
    }
    proof {
        let listed = pairs.deep_view();
        map.lemma_listed();
        assert forall|a: int, b: int| 0 <= a < b < listed.len() implies (#[trigger] listed[a]).0 != (
        #[trigger] listed[b]).0 by {
            assert(listed[a].0 == pairs@[a].0@ && listed[b].0 == pairs@[b].0@);
            assert(map.name_at(a) != map.name_at(b));
        }
        assert forall|a: int| 0 <= a < listed.len() implies texts(map@).contains_key(
            (#[trigger] listed[a]).0,
        ) && texts(map@)[listed[a].0] == listed[a].1 by {
            assert(listed[a].0 == pairs@[a].0@ && listed[a].1 == pairs@[a].1@);
            assert(map@.contains_key(map.name_at(a)));
        }
        assert forall|key: Seq<char>| #[trigger] texts(map@).contains_key(key) implies exists|a: int|
            0 <= a < listed.len() && listed[a].0 == key by {
            let k = choose|k: int| 0 <= k < map.entry_count() && map.name_at(k) == key;
            assert(pairs@[k].0@ == key);
            assert(listed[k].0 == key);
        }
    }
    pairs
}

impl RouterState {
    /// The cursors as a text to store: reading it gives them back.
    pub fn cursors_text(&self) -> (text: Result<String, String>)
        requires
            self.wf(),
        ensures
            text matches Ok(t) && stored_cursors(parsed_json(t@)) == self@.cursors,
    {
        let pairs = list_texts(&self.last_agent_timestamp);
        let ghost listed = pairs.deep_view();
        match write_json_texts(&pairs) {
            Ok(text) => {
                proof {
                    stored_pairs_give_cursors_back(
                        parsed_json(text@)->Ok_0,
                        listed,
                        self@.cursors,
                    );
                }
                Ok(text)
            },
            Err(_) => Err("failed to serialize cursors".to_owned()),
        }
    }
}

} // verus!
