//! A map from names to values.

use vstd::prelude::*;
use vstd::string::*;

use crate::text::same_text;

verus! {

/// A map from names to values, kept as a list of entries with distinct names.
#[derive(Debug)]
pub struct NameMap<V> {
    entries: Vec<(String, V)>,
}

impl<V> View for NameMap<V> {
    type V = Map<Seq<char>, V>;

    closed spec fn view(&self) -> Map<Seq<char>, V> {
        let entries = self.entries@;
        Map::new(
            |name: Seq<char>| exists|i: int| 0 <= i < entries.len() && entries[i].0@ == name,
            |name: Seq<char>| entries[index_of(entries, name)].1,
        )
    }
}

/// An index at which a name stands.
pub closed spec fn index_of<V>(entries: Seq<(String, V)>, name: Seq<char>) -> int {
    choose|i: int| 0 <= i < entries.len() && entries[i].0@ == name
}

impl<V> NameMap<V> {
    /// No name stands twice.
    pub closed spec fn wf(&self) -> bool {
        forall|i: int, j: int|
            0 <= i < j < self.entries@.len() ==> (#[trigger] self.entries@[i]).0@ != (
            #[trigger] self.entries@[j]).0@
    }

    proof fn lemma_entry(&self, i: int)
        requires
            self.wf(),
            0 <= i < self.entries@.len(),
        ensures
            self@.contains_key(self.entries@[i].0@),
            self@[self.entries@[i].0@] == self.entries@[i].1,
    {
        let name = self.entries@[i].0@;
        let k = index_of(self.entries@, name);
        assert(0 <= k < self.entries@.len() && self.entries@[k].0@ == name);
        assert(k == i);
    }

    /// The empty map.
    pub fn new() -> (map: NameMap<V>)
        ensures
            map.wf(),
            map@ == Map::<Seq<char>, V>::empty(),
    {
        let map = NameMap { entries: Vec::new() };
        proof {
            assert(map@ =~= Map::<Seq<char>, V>::empty());
        }
        map
    }

    fn position(&self, name: &str) -> (at: Option<usize>)
        requires
            self.wf(),
        ensures
            match at {
                Some(i) => {
                    &&& i < self.entries@.len()
                    &&& self.entries@[i as int].0@ == name@
                    &&& self@.contains_key(name@)
                    &&& self@[name@] == self.entries@[i as int].1
                },
                None => {
                    &&& !self@.contains_key(name@)
                    &&& forall|i: int|
                        0 <= i < self.entries@.len() ==> (#[trigger] self.entries@[i]).0@ != name@
                },
            },
    {
        let mut i: usize = 0;
        while i < self.entries.len()
            invariant
                self.wf(),
                i <= self.entries@.len(),
                forall|k: int| 0 <= k < i ==> (#[trigger] self.entries@[k]).0@ != name@,
            decreases self.entries@.len() - i,
        {
            if same_text(self.entries[i].0.as_str(), name) {
                proof {
                    self.lemma_entry(i as int);
                }
                return Some(i);
            }
            i += 1;
        }
        None
    }

    /// The value under a name.
    pub fn get(&self, name: &str) -> (value: Option<&V>)
        requires
            self.wf(),
        ensures
            match value {
                Some(v) => self@.contains_key(name@) && *v == self@[name@],
                None => !self@.contains_key(name@),
            },
    {
        match self.position(name) {
            Some(i) => Some(&self.entries[i].1),
            None => None,
        }
    }

    /// Takes the value under a name out of the map.
    pub fn remove(&mut self, name: &str) -> (value: Option<V>)
        requires
            old(self).wf(),
        ensures
            final(self).wf(),
            final(self)@ == old(self)@.remove(name@),
            match value {
                Some(v) => old(self)@.contains_key(name@) && v == old(self)@[name@],
                None => !old(self)@.contains_key(name@),
            },
    {
        match self.position(name) {
            Some(i) => {
                let ghost before = *self;
                let entry = self.entries.remove(i);
                proof {
                    let after = *self;
                    assert(after.wf()) by {
                        assert forall|a: int, b: int| 0 <= a < b < after.entries@.len() implies (
                        #[trigger] after.entries@[a]).0@ != (#[trigger] after.entries@[b]).0@ by {
                            let a0 = if a < i {
                                a
                            } else {
                                a + 1
                            };
                            let b0 = if b < i {
                                b
                            } else {
                                b + 1
                            };
                            assert(after.entries@[a] == before.entries@[a0]);
                            assert(after.entries@[b] == before.entries@[b0]);
                        }
                    }
                    assert forall|other: Seq<char>| #[trigger]
                        after@.contains_key(other) == before@.remove(name@).contains_key(other) && (
                        after@.contains_key(other) ==> after@[other] == before@[other]) by {
                        if after@.contains_key(other) {
                            let k = index_of(after.entries@, other);
                            assert(0 <= k < after.entries@.len() && after.entries@[k].0@ == other);
                            let k0 = if k < i {
                                k
                            } else {
                                k + 1
                            };
                            assert(after.entries@[k] == before.entries@[k0]);
                            before.lemma_entry(k0);
                            after.lemma_entry(k);
                            assert(k0 != i);
                        }
                        if before@.contains_key(other) && other != name@ {
                            let k = index_of(before.entries@, other);
                            assert(0 <= k < before.entries@.len() && before.entries@[k].0@ == other);
                            assert(k != i);
                            let k1 = if k < i {
                                k
                            } else {
                                k - 1
                            };
                            assert(after.entries@[k1] == before.entries@[k]);
                            after.lemma_entry(k1);
                        }
                    }
                    assert(after@ =~= before@.remove(name@));
                }
                Some(entry.1)
            },
            None => {
                proof {
                    assert(self@ =~= old(self)@.remove(name@));
                }
                None
            },
        }
    }

    /// Puts a value under a name.
    pub fn insert(&mut self, name: &str, value: V)
        requires
            old(self).wf(),
        ensures
            final(self).wf(),
            final(self)@ == old(self)@.insert(name@, value),
    {
        let _ = self.remove(name);
        let ghost before = *self;
        self.entries.push((name.to_owned(), value));
        proof {
            let after = *self;
            let last = before.entries@.len() as int;
            assert forall|k: int| 0 <= k < last implies (#[trigger] after.entries@[k]).0@
                != name@ by {
                assert(after.entries@[k] == before.entries@[k]);
                before.lemma_entry(k);
            }
            assert(after.wf()) by {
                assert forall|a: int, b: int| 0 <= a < b < after.entries@.len() implies (
                #[trigger] after.entries@[a]).0@ != (#[trigger] after.entries@[b]).0@ by {
                    assert(after.entries@[a] == before.entries@[a]);
                    if b < last {
                        assert(after.entries@[b] == before.entries@[b]);
                    }
                }
            }
            assert forall|other: Seq<char>| #[trigger]
                after@.contains_key(other) == before@.insert(name@, value).contains_key(other) && (
                after@.contains_key(other) ==> after@[other] == before@.insert(
                    name@,
                    value,
                )[other]) by {
                if other == name@ {
                    after.lemma_entry(last);
                } else {
                    if after@.contains_key(other) {
                        let k = index_of(after.entries@, other);
                        assert(0 <= k < after.entries@.len() && after.entries@[k].0@ == other);
                        assert(k != last);
                        assert(after.entries@[k] == before.entries@[k]);
                        before.lemma_entry(k);
                        after.lemma_entry(k);
                    }
                    if before@.contains_key(other) {
                        let k = index_of(before.entries@, other);
                        assert(0 <= k < before.entries@.len() && before.entries@[k].0@ == other);
                        assert(after.entries@[k] == before.entries@[k]);
                        after.lemma_entry(k);
                    }
                }
            }
            assert(after@ =~= old(self)@.insert(name@, value));
        }
    }

    /// How many names there are.
    pub fn len(&self) -> (count: usize)
        ensures
            count == self.entry_count(),
    {
        self.entries.len()
    }

    pub closed spec fn entry_count(&self) -> nat {
        self.entries@.len()
    }

    /// The name at an index; the order is not stated.
    pub closed spec fn name_at(&self, i: int) -> Seq<char> {
        self.entries@[i].0@
    }

    pub closed spec fn value_at(&self, i: int) -> V {
        self.entries@[i].1
    }

    /// The entry at an index.
    pub fn entry(&self, i: usize) -> (entry: (&str, &V))
        requires
            self.wf(),
            i < self.entry_count(),
        ensures
            entry.0@ == self.name_at(i as int),
            *entry.1 == self.value_at(i as int),
            self@.contains_key(entry.0@),
            self@[entry.0@] == *entry.1,
    {
        proof {
            self.lemma_entry(i as int);
        }
        (self.entries[i].0.as_str(), &self.entries[i].1)
    }

    /// Every name stands at exactly one index.
    pub proof fn lemma_listed(&self)
        requires
            self.wf(),
        ensures
            forall|i: int|
                0 <= i < self.entry_count() ==> self@.contains_key(#[trigger] self.name_at(i))
                    && self@[self.name_at(i)] == self.value_at(i),
            forall|name: Seq<char>| #[trigger]
                self@.contains_key(name) ==> exists|i: int|
                    0 <= i < self.entry_count() && self.name_at(i) == name,
            forall|i: int, j: int|
                0 <= i < j < self.entry_count() ==> #[trigger] self.name_at(i)
                    != #[trigger] self.name_at(j),
    {
        assert forall|i: int| 0 <= i < self.entry_count() implies self@.contains_key(
            #[trigger] self.name_at(i),
        ) && self@[self.name_at(i)] == self.value_at(i) by {
            self.lemma_entry(i);
        }
        assert forall|name: Seq<char>| #[trigger] self@.contains_key(name) implies exists|i: int|
            0 <= i < self.entry_count() && self.name_at(i) == name by {
            let i = index_of(self.entries@, name);
            assert(self.name_at(i) == name);
        }
        assert forall|i: int, j: int| 0 <= i < j < self.entry_count() implies #[trigger] self.name_at(
            i,
        ) != #[trigger] self.name_at(j) by {
            assert(self.entries@[i].0@ != self.entries@[j].0@);
        }
    }
}

/// A map to texts by their content.
pub open spec fn texts(map: Map<Seq<char>, String>) -> Map<Seq<char>, Seq<char>> {
    Map::new(|name: Seq<char>| map.contains_key(name), |name: Seq<char>| map[name]@)
}

/// The text under a name.
pub fn text_under(map: &NameMap<String>, name: &str) -> (text: Option<String>)
    requires
        map.wf(),
    ensures
        text.deep_view() == if texts(map@).contains_key(name@) {
            Some(texts(map@)[name@])
        } else {
            None
        },
{
    match map.get(name) {
        Some(text) => Some(text.clone()),
        None => None,
    }
}

/// Puts a text under a name.
pub fn put_text(map: &mut NameMap<String>, name: &str, text: String)
    requires
        old(map).wf(),
    ensures
        final(map).wf(),
        texts(final(map)@) == texts(old(map)@).insert(name@, text@),
{
    let ghost before = map@;
    map.insert(name, text);
    proof {
        assert(texts(map@) =~= texts(before).insert(name@, text@));
    }
}

} // verus!
