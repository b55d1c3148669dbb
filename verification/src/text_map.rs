//! Maps keyed by text, in the order of their keys.

use vstd::prelude::*;

use crate::text::{comes_before, same_text};

verus! {

/// What a list of entries maps its keys to; of two entries with one key the
/// later counts.
pub open spec fn entry_map<V>(entries: Seq<(String, V)>) -> Map<Seq<char>, V>
    decreases entries.len(),
{
    if entries.len() == 0 {
        Map::empty()
    } else {
        entry_map(entries.drop_last()).insert(entries.last().0@, entries.last().1)
    }
}

/// Whether the keys of a list ascend.
pub open spec fn ascending<V>(entries: Seq<(String, V)>) -> bool {
    forall|i: int, j: int|
        0 <= i < j < entries.len() ==> crate::text::precedes(
            (#[trigger] entries[i]).0@,
            (#[trigger] entries[j]).0@,
        )
}

/// A map from texts to values. It has no two entries with the same key, and
/// its entries stand in the order of their keys.
#[derive(Debug)]
pub struct TextMap<V> {
    entries: Vec<(String, V)>,
}

impl<V> View for TextMap<V> {
    type V = Map<Seq<char>, V>;

    closed spec fn view(&self) -> Map<Seq<char>, V> {
        entry_map(self.entries@)
    }
}

proof fn lemma_entry_listed<V>(entries: Seq<(String, V)>, i: int)
    requires
        ascending(entries),
        0 <= i < entries.len(),
    ensures
        entry_map(entries).contains_key(entries[i].0@),
        entry_map(entries)[entries[i].0@] == entries[i].1,
    decreases entries.len(),
{
    if i < entries.len() - 1 {
        assert(ascending(entries.drop_last()));
        lemma_entry_listed(entries.drop_last(), i);
        assert(entries.drop_last()[i] == entries[i]);
        crate::text::law_precedence_is_total(entries[i].0@, entries.last().0@);
        assert(crate::text::precedes(entries[i].0@, entries[entries.len() - 1].0@));
    }
}

proof fn lemma_listed_entry<V>(entries: Seq<(String, V)>, key: Seq<char>) -> (i: int)
    requires
        entry_map(entries).contains_key(key),
    ensures
        0 <= i < entries.len(),
        entries[i].0@ == key,
    decreases entries.len(),
{
    if entries.last().0@ == key {
        entries.len() - 1
    } else {
        let i = lemma_listed_entry(entries.drop_last(), key);
        assert(entries.drop_last()[i] == entries[i]);
        i
    }
}

/// Two ascending lists with the same entries up to one place, where they differ
/// by one inserted or replaced entry, give maps that differ by that key.
proof fn lemma_map_by_entries<V>(
    before: Seq<(String, V)>,
    after: Seq<(String, V)>,
    key: Seq<char>,
    value: V,
)
    requires
        ascending(before),
        ascending(after),
        exists|i: int| 0 <= i < after.len() && (#[trigger] after[i]).0@ == key && after[i].1 == value,
        forall|i: int|
            0 <= i < after.len() && (#[trigger] after[i]).0@ != key ==> before.contains(after[i]),
        forall|i: int|
            0 <= i < before.len() && (#[trigger] before[i]).0@ != key ==> after.contains(before[i]),
    ensures
        entry_map(after) == entry_map(before).insert(key, value),
{
    let at = choose|i: int|
        0 <= i < after.len() && (#[trigger] after[i]).0@ == key && after[i].1 == value;
    lemma_entry_listed(after, at);
    let expected = entry_map(before).insert(key, value);
    assert forall|other: Seq<char>| #[trigger]
        entry_map(after).contains_key(other) implies expected.contains_key(other)
        && expected[other] == entry_map(after)[other] by {
        if other != key {
            let i = lemma_listed_entry(after, other);
            lemma_entry_listed(after, i);
            assert(before.contains(after[i]));
            let j = choose|j: int| 0 <= j < before.len() && before[j] == after[i];
            lemma_entry_listed(before, j);
        }
    }
    assert forall|other: Seq<char>| #[trigger]
        expected.contains_key(other) implies entry_map(after).contains_key(other) by {
        if other != key {
            let i = lemma_listed_entry(before, other);
            assert(after.contains(before[i]));
            let j = choose|j: int| 0 <= j < after.len() && after[j] == before[i];
            lemma_entry_listed(after, j);
        }
    }
    assert(entry_map(after) =~= expected);
}

impl<V> TextMap<V> {
    #[verifier::type_invariant]
    closed spec fn sorted(self) -> bool {
        ascending(self.entries@)
    }

    /// The keys, in order.
    pub closed spec fn keys(self) -> Seq<Seq<char>> {
        self.entries@.map_values(|entry: (String, V)| entry.0@)
    }

    /// The map without entries.
    pub fn new() -> (map: TextMap<V>)
        ensures
            map@ == Map::<Seq<char>, V>::empty(),
    {
        TextMap { entries: Vec::new() }
    }

    /// How many entries the map has.
    pub fn len(&self) -> (count: usize)
        ensures
            count == self.keys().len(),
            forall|i: int, j: int|
                0 <= i < j < self.keys().len() ==> crate::text::precedes(
                    #[trigger] self.keys()[i],
                    #[trigger] self.keys()[j],
                ),
            forall|i: int|
                0 <= i < self.keys().len() ==> self@.contains_key(#[trigger] self.keys()[i]),
            forall|key: Seq<char>| #[trigger] self@.contains_key(key) ==> self.keys().contains(key),
    {
        proof {
            use_type_invariant(self);
            assert forall|i: int| 0 <= i < self.keys().len() implies self@.contains_key(
                #[trigger] self.keys()[i],
            ) by {
                lemma_entry_listed(self.entries@, i);
            }
            assert forall|key: Seq<char>| #[trigger]
                self@.contains_key(key) implies self.keys().contains(key) by {
                let i = lemma_listed_entry(self.entries@, key);
                assert(self.keys()[i] == key);
            }
        }
        self.entries.len()
    }

    /// The entry at a place in the order of the keys.
    pub fn entry(&self, index: usize) -> (entry: (&String, &V))
        requires
            index < self.keys().len(),
        ensures
            entry.0@ == self.keys()[index as int],
            self@.contains_key(entry.0@),
            *entry.1 == self@[entry.0@],
    {
        proof {
            use_type_invariant(self);
            lemma_entry_listed(self.entries@, index as int);
        }
        let entry = &self.entries[index];
        (&entry.0, &entry.1)
    }

    fn place(&self, key: &str) -> (place: Option<usize>)
        ensures
            place matches Some(index) ==> index < self.entries@.len() && self.entries@[index as int].0@
                == key@,
            place is None ==> forall|i: int|
                0 <= i < self.entries@.len() ==> (#[trigger] self.entries@[i]).0@ != key@,
    {
        let mut index: usize = 0;
        while index < self.entries.len()
            invariant
                index <= self.entries@.len(),
                forall|i: int| 0 <= i < index ==> (#[trigger] self.entries@[i]).0@ != key@,
            decreases self.entries@.len() - index,
        {
            if same_text(self.entries[index].0.as_str(), key) {
                return Some(index);
            }
            index = index + 1;
        }
        None
    }

    /// The value of a key, where the map has it.
    pub fn get(&self, key: &str) -> (value: Option<&V>)
        ensures
            value is Some <==> self@.contains_key(key@),
            value matches Some(value) ==> *value == self@[key@],
    {
        match self.place(key) {
            Some(index) => {
                proof {
                    use_type_invariant(self);
                    lemma_entry_listed(self.entries@, index as int);
                }
                Some(&self.entries[index].1)
            },
            None => {
                proof {
                    if self@.contains_key(key@) {
                        let i = lemma_listed_entry(self.entries@, key@);
                    }
                }
                None
            },
        }
    }

    /// Gives a key a value, in place of the one that it may have.
    pub fn insert(&mut self, key: String, value: V)
        ensures
            final(self)@ == old(self)@.insert(key@, value),
    {
        proof {
            use_type_invariant(&*self);
        }
        let found = self.place(key.as_str());
        let ghost before = self.entries@;
        let ghost name = key@;
        let mut entries: Vec<(String, V)> = Vec::new();
        std::mem::swap(&mut entries, &mut self.entries);
        if let Some(index) = found {
            entries.set(index, (key, value));
            proof {
                assert forall|i: int|
                    0 <= i < before.len() && (#[trigger] before[i]).0@
                        != name implies entries@.contains(before[i]) by {
                    assert(entries@[i] == before[i]);
                }
                assert(entries@[index as int].0@ == name);
                lemma_map_by_entries(before, entries@, name, value);
            }
        } else {
            let mut index: usize = 0;
            while index < entries.len() && comes_before(entries[index].0.as_str(), key.as_str())
                invariant
                    index <= entries@.len(),
                    entries@ == before,
                    forall|i: int|
                        0 <= i < index ==> crate::text::precedes(
                            (#[trigger] entries@[i]).0@,
                            key@,
                        ),
                decreases entries@.len() - index,
            {
                index = index + 1;
            }
            proof {
                assert forall|i: int| index <= i < before.len() implies crate::text::precedes(
                    name,
                    (#[trigger] before[i]).0@,
                ) by {
                    crate::text::law_precedence_is_total(name, before[index as int].0@);
                    if i > index {
                        crate::text::law_precedence_is_transitive(
                            name,
                            before[index as int].0@,
                            before[i].0@,
                        );
                    }
                }
            }
            entries.insert(index, (key, value));
            proof {
                let after = entries@;
                assert forall|i: int, j: int|
                    0 <= i < j < after.len() implies crate::text::precedes(
                    (#[trigger] after[i]).0@,
                    (#[trigger] after[j]).0@,
                ) by {
                    let from = if i < index {
                        before[i]
                    } else {
                        before[i - 1]
                    };
                    let to = if j < index {
                        before[j]
                    } else {
                        before[j - 1]
                    };
                }
                assert forall|i: int|
                    0 <= i < before.len() && (#[trigger] before[i]).0@
                        != name implies after.contains(before[i]) by {
                    if i < index {
                        assert(after[i] == before[i]);
                    } else {
                        assert(after[i + 1] == before[i]);
                    }
                }
                assert forall|i: int|
                    0 <= i < after.len() && (#[trigger] after[i]).0@
                        != name implies before.contains(after[i]) by {
                    if i < index {
                        assert(after[i] == before[i]);
                    } else {
                        assert(after[i] == before[i - 1]);
                    }
                }
                assert(after[index as int].0@ == name);
                lemma_map_by_entries(before, after, name, value);
            }
        }
        self.entries = entries;
    }
}

/// Whether two lists have the same keys, and each value of the second is a
/// clone of the one in its place.
spec fn cloned_entries<V: Clone>(from: Seq<(String, V)>, to: Seq<(String, V)>) -> bool {
    &&& from.len() == to.len()
    &&& forall|i: int|
        0 <= i < from.len() ==> (#[trigger] to[i]).0@ == from[i].0@ && cloned(from[i].1, to[i].1)
}

impl<V: Clone> Clone for TextMap<V> {
    fn clone(&self) -> (map: TextMap<V>)
        ensures
            map@.dom() == self@.dom(),
            forall|key: Seq<char>| #[trigger]
                map@.contains_key(key) ==> cloned(self@[key], map@[key]),
    {
        proof {
            use_type_invariant(self);
        }
        let mut entries: Vec<(String, V)> = Vec::new();
        let mut index: usize = 0;
        while index < self.entries.len()
            invariant
                index <= self.entries@.len(),
                cloned_entries(self.entries@.take(index as int), entries@),
            decreases self.entries@.len() - index,
        {
            let entry = &self.entries[index];
            entries.push((entry.0.clone(), entry.1.clone()));
            index = index + 1;
        }
        proof {
            let from = self.entries@;
            let to = entries@;
            assert(from.take(index as int) =~= from);
            assert forall|i: int, j: int| 0 <= i < j < to.len() implies crate::text::precedes(
                (#[trigger] to[i]).0@,
                (#[trigger] to[j]).0@,
            ) by {
                assert(crate::text::precedes(from[i].0@, from[j].0@));
            }
            assert forall|key: Seq<char>| #[trigger]
                entry_map(to).contains_key(key) implies entry_map(from).contains_key(key) && cloned(
                entry_map(from)[key],
                entry_map(to)[key],
            ) by {
                let i = lemma_listed_entry(to, key);
                lemma_entry_listed(to, i);
                lemma_entry_listed(from, i);
            }
            assert forall|key: Seq<char>| #[trigger]
                entry_map(from).contains_key(key) implies entry_map(to).contains_key(key) by {
                let i = lemma_listed_entry(from, key);
                lemma_entry_listed(to, i);
            }
            assert(entry_map(to).dom() =~= entry_map(from).dom());
        }
        TextMap { entries }
    }
}

} // verus!
