//! A map from texts to values.
use vstd::prelude::*;
use vstd::string::*;

use crate::text::same_text;

verus! {

/// Entries with pairwise different keys.
pub struct TextMap<V> {
    entries: Vec<(String, V)>,
}

/// The map that a list of entries makes; a later entry comes before an
/// earlier one with the same key.
pub open spec fn map_of<T>(entries: Seq<(Seq<char>, T)>) -> Map<Seq<char>, T>
    decreases entries.len(),
{
    if entries.len() == 0 {
        Map::empty()
    } else {
        map_of(entries.drop_last()).insert(entries.last().0, entries.last().1)
    }
}

pub open spec fn distinct_keys<T>(entries: Seq<(Seq<char>, T)>) -> bool {
    forall|i: int, j: int|
        0 <= i < j < entries.len() ==> (#[trigger] entries[i]).0 != (#[trigger] entries[j]).0
}

/// With different keys, the map holds exactly the entries.
proof fn map_facts<T>(entries: Seq<(Seq<char>, T)>)
    requires
        distinct_keys(entries),
    ensures
        forall|i: int|
            0 <= i < entries.len() ==> map_of(entries).dom().contains((#[trigger] entries[i]).0)
                && map_of(entries)[entries[i].0] == entries[i].1,
        forall|key: Seq<char>| #[trigger]
            map_of(entries).dom().contains(key) ==> exists|i: int|
                0 <= i < entries.len() && (#[trigger] entries[i]).0 == key,
        map_of(entries).dom().finite(),
        map_of(entries).dom().len() == entries.len(),
    decreases entries.len(),
{
    if entries.len() > 0 {
        let rest = entries.drop_last();
        assert forall|i: int, j: int| 0 <= i < j < rest.len() implies (#[trigger] rest[i]).0 != (
        #[trigger] rest[j]).0 by {
            assert(rest[i] == entries[i]);
            assert(rest[j] == entries[j]);
        }
        map_facts(rest);
        let last = entries.last();
        assert(!map_of(rest).dom().contains(last.0)) by {
            if map_of(rest).dom().contains(last.0) {
                let i = choose|i: int| 0 <= i < rest.len() && (#[trigger] rest[i]).0 == last.0;
                assert(entries[i] == rest[i]);
                assert(entries[entries.len() - 1] == last);
            }
        }
        assert forall|i: int| 0 <= i < entries.len() implies map_of(entries).dom().contains(
            (#[trigger] entries[i]).0,
        ) && map_of(entries)[entries[i].0] == entries[i].1 by {
            if i < rest.len() {
                assert(rest[i] == entries[i]);
            }
        }
        assert forall|key: Seq<char>| #[trigger] map_of(entries).dom().contains(key) implies exists|
            i: int,
        |
            0 <= i < entries.len() && (#[trigger] entries[i]).0 == key by {
            if key == last.0 {
                assert(entries[entries.len() - 1].0 == key);
            } else {
                let i = choose|i: int| 0 <= i < rest.len() && (#[trigger] rest[i]).0 == key;
                assert(entries[i] == rest[i]);
            }
        }
        assert(map_of(entries).dom() =~= map_of(rest).dom().insert(last.0));
    }
}

proof fn map_without<T>(entries: Seq<(Seq<char>, T)>, i: int)
    requires
        distinct_keys(entries),
        0 <= i < entries.len(),
    ensures
        distinct_keys(entries.remove(i)),
        map_of(entries.remove(i)) == map_of(entries).remove(entries[i].0),
{
    let rest = entries.remove(i);
    assert forall|a: int, b: int| 0 <= a < b < rest.len() implies (#[trigger] rest[a]).0 != (
    #[trigger] rest[b]).0 by {
        let x = if a < i {
            a
        } else {
            a + 1
        };
        let y = if b < i {
            b
        } else {
            b + 1
        };
        assert(rest[a] == entries[x]);
        assert(rest[b] == entries[y]);
    }
    map_facts(entries);
    map_facts(rest);
    let expected = map_of(entries).remove(entries[i].0);
    assert forall|key: Seq<char>| map_of(rest).dom().contains(key) == expected.dom().contains(
        key,
    ) by {
        if map_of(rest).dom().contains(key) {
            let a = choose|a: int| 0 <= a < rest.len() && (#[trigger] rest[a]).0 == key;
            let x = if a < i {
                a
            } else {
                a + 1
            };
            assert(rest[a] == entries[x]);
            if x < i {
                assert(entries[x].0 != entries[i].0);
            } else {
                assert(entries[i].0 != entries[x].0);
            }
        }
        if expected.dom().contains(key) {
            let x = choose|x: int| 0 <= x < entries.len() && (#[trigger] entries[x]).0 == key;
            let a = if x < i {
                x
            } else {
                x - 1
            };
            assert(rest[a] == entries[x]);
        }
    }
    assert forall|key: Seq<char>| map_of(rest).dom().contains(key) implies map_of(rest)[key]
        == expected[key] by {
        let a = choose|a: int| 0 <= a < rest.len() && (#[trigger] rest[a]).0 == key;
        let x = if a < i {
            a
        } else {
            a + 1
        };
        assert(rest[a] == entries[x]);
    }
    assert(map_of(rest) =~= expected);
}

proof fn map_with<T>(entries: Seq<(Seq<char>, T)>, key: Seq<char>, value: T)
    requires
        distinct_keys(entries),
        !map_of(entries).dom().contains(key),
    ensures
        distinct_keys(entries.push((key, value))),
        map_of(entries.push((key, value))) == map_of(entries).insert(key, value),
{
    let more = entries.push((key, value));
    assert(more.drop_last() =~= entries);
    map_facts(entries);
    assert forall|a: int, b: int| 0 <= a < b < more.len() implies (#[trigger] more[a]).0 != (
    #[trigger] more[b]).0 by {
        assert(more[a] == entries[a]);
        if b < entries.len() {
            assert(more[b] == entries[b]);
        }
    }
}

impl<V: View> TextMap<V> {
    /// The entries in the order in which they are kept.
    pub closed spec fn listed(&self) -> Seq<(Seq<char>, V::V)> {
        self.entries@.map_values(|entry: (String, V)| (entry.0@, entry.1@))
    }

    pub open spec fn wf(&self) -> bool {
        distinct_keys(self.listed())
    }

    /// Every listed entry is in the map, and every entry of the map is listed.
    pub proof fn listing_is_complete(&self)
        requires
            self.wf(),
        ensures
            forall|i: int|
                0 <= i < self.listed().len() ==> self@.dom().contains(
                    (#[trigger] self.listed()[i]).0,
                ) && self@[self.listed()[i].0] == self.listed()[i].1,
            forall|key: Seq<char>| #[trigger]
                self@.dom().contains(key) ==> exists|i: int|
                    0 <= i < self.listed().len() && (#[trigger] self.listed()[i]).0 == key,
            self@.dom().finite(),
            self@.dom().len() == self.listed().len(),
    {
        map_facts(self.listed());
    }

    pub fn new() -> (map: Self)
        ensures
            map.wf(),
            map@ == Map::<Seq<char>, V::V>::empty(),
            map.listed().len() == 0,
    {
        let map = TextMap { entries: Vec::new() };
        assert(map.listed() =~= Seq::empty());
        map
    }

    pub fn len(&self) -> (count: usize)
        ensures
            count == self.listed().len(),
    {
        self.entries.len()
    }

    /// The entry at a position of the list.
    pub fn entry(&self, index: usize) -> (entry: (&String, &V))
        requires
            index < self.listed().len(),
        ensures
            entry.0@ == self.listed()[index as int].0,
            entry.1@ == self.listed()[index as int].1,
    {
        let entry = &self.entries[index];
        (&entry.0, &entry.1)
    }

    fn find(&self, key: &str) -> (index: Option<usize>)
        requires
            self.wf(),
        ensures
            match index {
                Some(i) => i < self.entries@.len() && self.listed()[i as int].0 == key@
                    && self@.dom().contains(key@) && self@[key@] == self.entries@[i as int].1@,
                None => !self@.dom().contains(key@),
            },
    {
        let mut index: usize = 0;
        proof {
            map_facts(self.listed());
        }
        while index < self.entries.len()
            invariant
                index <= self.entries@.len(),
                self.wf(),
                forall|i: int| 0 <= i < index ==> (#[trigger] self.listed()[i]).0 != key@,
                forall|i: int|
                    0 <= i < self.listed().len() ==> self@.dom().contains(
                        (#[trigger] self.listed()[i]).0,
                    ) && self@[self.listed()[i].0] == self.listed()[i].1,
            decreases self.entries@.len() - index,
        {
            assert(self.listed()[index as int].0 == self.entries@[index as int].0@);
            if same_text(self.entries[index].0.as_str(), key) {
                return Some(index);
            }
            index += 1;
        }
        None
    }

    pub fn get(&self, key: &str) -> (value: Option<&V>)
        requires
            self.wf(),
        ensures
            match value {
                Some(value) => self@.dom().contains(key@) && self@[key@] == value@,
                None => !self@.dom().contains(key@),
            },
    {
        match self.find(key) {
            Some(index) => Some(&self.entries[index].1),
            None => None,
        }
    }

    pub fn contains(&self, key: &str) -> (found: bool)
        requires
            self.wf(),
        ensures
            found == self@.dom().contains(key@),
    {
        self.find(key).is_some()
    }

    /// Takes an entry out.
    pub fn take(&mut self, key: &str) -> (value: Option<V>)
        requires
            old(self).wf(),
        ensures
            final(self).wf(),
            match value {
                Some(value) => {
                    &&& old(self)@.dom().contains(key@)
                    &&& old(self)@[key@] == value@
                    &&& final(self)@ == old(self)@.remove(key@)
                },
                None => !old(self)@.dom().contains(key@) && final(self)@ == old(self)@,
            },
    {
        match self.find(key) {
            Some(index) => {
                let ghost before = self.listed();
                proof {
                    map_without(before, index as int);
                }
                let entry = self.entries.remove(index);
                assert(self.listed() =~= before.remove(index as int));
                Some(entry.1)
            },
            None => None,
        }
    }

    /// Puts an entry in, in place of one with the same key.
    pub fn put(&mut self, key: &str, value: V)
        requires
            old(self).wf(),
        ensures
            final(self).wf(),
            final(self)@ == old(self)@.insert(key@, value@),
    {
        let ghost start = self@;
        let _replaced = self.take(key);
        let ghost before = self.listed();
        proof {
            map_facts(before);
            assert(!self@.dom().contains(key@));
            map_with(before, key@, value@);
        }
        self.entries.push((key.to_owned(), value));
        proof {
            assert(self.listed() =~= before.push((key@, value@)));
            assert(self@ =~= start.insert(key@, value@));
        }
    }
}

impl<V: View> View for TextMap<V> {
    type V = Map<Seq<char>, V::V>;

    open spec fn view(&self) -> Map<Seq<char>, V::V> {
        map_of(self.listed())
    }
}

} // verus!
