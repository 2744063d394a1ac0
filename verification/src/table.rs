//! A small table from names to values: at most one value under each name.

use crate::text::text_equal;
use vstd::prelude::*;

verus! {

/// A table from names to values, kept in the order of first insertion.
pub struct Table<V> {
    entries: Vec<(String, V)>,
}

/// No name stands twice in a list of entries.
pub open spec fn names_distinct<V>(entries: Seq<(String, V)>) -> bool {
    forall|i: int, j: int|
        0 <= i < j < entries.len() ==> (#[trigger] entries[i]).0@ != (#[trigger] entries[j]).0@
}

/// The map that a list of entries spells.
pub open spec fn entries_map<V>(entries: Seq<(String, V)>) -> Map<Seq<char>, V>
    decreases entries.len(),
{
    if entries.len() == 0 {
        Map::empty()
    } else {
        entries_map(entries.drop_last()).insert(entries.last().0@, entries.last().1)
    }
}

/// Entries with distinct names and their map hold the same pairs.
proof fn lemma_entries_map<V>(entries: Seq<(String, V)>)
    requires
        names_distinct(entries),
    ensures
        forall|i: int|
            0 <= i < entries.len() ==> {
                &&& entries_map(entries).contains_key((#[trigger] entries[i]).0@)
                &&& entries_map(entries)[entries[i].0@] == entries[i].1
            },
        forall|name: Seq<char>| #[trigger]
            entries_map(entries).contains_key(name) ==> exists|i: int|
                0 <= i < entries.len() && (#[trigger] entries[i]).0@ == name,
        entries_map(entries).dom().finite(),
        entries_map(entries).dom().len() == entries.len(),
    decreases entries.len(),
{
    if entries.len() > 0 {
        let before = entries.drop_last();
        lemma_entries_map(before);
        let last = entries.len() - 1;
        assert(!entries_map(before).contains_key(entries[last].0@)) by {
            if entries_map(before).contains_key(entries[last].0@) {
                let i = choose|i: int|
                    0 <= i < before.len() && (#[trigger] before[i]).0@ == entries[last].0@;
                assert(entries[i].0@ == entries[last].0@);
            }
        }
        assert forall|i: int| 0 <= i < entries.len() implies {
            &&& entries_map(entries).contains_key((#[trigger] entries[i]).0@)
            &&& entries_map(entries)[entries[i].0@] == entries[i].1
        } by {
            if i < last {
                assert(before[i] == entries[i]);
                assert(entries[i].0@ != entries[last].0@);
            }
        }
        assert forall|name: Seq<char>| #[trigger]
            entries_map(entries).contains_key(name) implies exists|i: int|
            0 <= i < entries.len() && (#[trigger] entries[i]).0@ == name by {
            if name == entries[last].0@ {
            } else {
                let i = choose|i: int|
                    0 <= i < before.len() && (#[trigger] before[i]).0@ == name;
                assert(entries[i].0@ == name);
            }
        }
    }
}

impl<V> View for Table<V> {
    type V = Map<Seq<char>, V>;

    closed spec fn view(&self) -> Map<Seq<char>, V> {
        entries_map(self.entries@)
    }
}

/// A map with each value by its view.
pub open spec fn deep_map<V: DeepView>(map: Map<Seq<char>, V>) -> Map<Seq<char>, V::V> {
    Map::new(|name: Seq<char>| map.contains_key(name), |name: Seq<char>| map[name].deep_view())
}

/// Putting a value in and taking views can be done in either order.
pub proof fn lemma_deep_insert<V: DeepView>(map: Map<Seq<char>, V>, name: Seq<char>, value: V)
    ensures
        deep_map(map.insert(name, value)) == deep_map(map).insert(name, value.deep_view()),
{
    assert(deep_map(map.insert(name, value)) =~= deep_map(map).insert(name, value.deep_view()));
}

/// Taking a value out and taking views can be done in either order.
pub proof fn lemma_deep_remove<V: DeepView>(map: Map<Seq<char>, V>, name: Seq<char>)
    ensures
        deep_map(map.remove(name)) == deep_map(map).remove(name),
{
    assert(deep_map(map.remove(name)) =~= deep_map(map).remove(name));
}

/// Taking views keeps the names.
pub proof fn lemma_deep_names<V: DeepView>(map: Map<Seq<char>, V>)
    ensures
        deep_map(map).dom() == map.dom(),
{
    assert(deep_map(map).dom() =~= map.dom());
}

impl<V: DeepView> DeepView for Table<V> {
    type V = Map<Seq<char>, V::V>;

    open spec fn deep_view(&self) -> Map<Seq<char>, V::V> {
        deep_map(self@)
    }
}

impl<V> Table<V> {
    /// No name stands twice.
    pub closed spec fn wf(&self) -> bool {
        names_distinct(self.entries@)
    }

    /// The entries in their order.
    pub closed spec fn list(&self) -> Seq<(String, V)> {
        self.entries@
    }

    /// What the order of the entries has to do with the map.
    pub proof fn lemma_list(&self)
        requires
            self.wf(),
        ensures
            names_distinct(self.list()),
            self@ == entries_map(self.list()),
            forall|i: int|
                0 <= i < self.list().len() ==> {
                    &&& self@.contains_key((#[trigger] self.list()[i]).0@)
                    &&& self@[self.list()[i].0@] == self.list()[i].1
                },
            forall|name: Seq<char>| #[trigger]
                self@.contains_key(name) ==> exists|i: int|
                    0 <= i < self.list().len() && (#[trigger] self.list()[i]).0@ == name,
            self@.dom().finite(),
            self@.dom().len() == self.list().len(),
    {
        lemma_entries_map(self.entries@);
    }

    /// A table without entries.
    pub fn new() -> (table: Self)
        ensures
            table.wf(),
            table@ == Map::<Seq<char>, V>::empty(),
            table.list().len() == 0,
    {
        Table { entries: Vec::new() }
    }

    /// Number of entries.
    pub fn len(&self) -> (n: usize)
        requires
            self.wf(),
        ensures
            n == self@.dom().len(),
            n == self.list().len(),
    {
        proof {
            self.lemma_list();
        }
        self.entries.len()
    }

    /// Name and value at a position in the order.
    pub fn at(&self, i: usize) -> (entry: (&String, &V))
        requires
            i < self.list().len(),
        ensures
            *entry.0 == self.list()[i as int].0,
            *entry.1 == self.list()[i as int].1,
    {
        (&self.entries[i].0, &self.entries[i].1)
    }

    /// Position of a name.
    fn position(&self, name: &str) -> (found: Option<usize>)
        requires
            self.wf(),
        ensures
            match found {
                Some(i) => i < self.entries@.len() && self.entries@[i as int].0@ == name@,
                None => forall|i: int|
                    0 <= i < self.entries@.len() ==> (#[trigger] self.entries@[i]).0@ != name@,
            },
            found is Some <==> self@.contains_key(name@),
    {
        proof {
            self.lemma_list();
        }
        for i in 0..self.entries.len()
            invariant
                forall|k: int| 0 <= k < i ==> (#[trigger] self.entries@[k]).0@ != name@,
                forall|k: int|
                    0 <= k < self.entries@.len() ==> self@.contains_key(
                        (#[trigger] self.entries@[k]).0@,
                    ),
        {
            if text_equal(self.entries[i].0.as_str(), name) {
                return Some(i);
            }
        }
        None
    }

    /// Whether a value stands under `name`.
    pub fn contains(&self, name: &str) -> (found: bool)
        requires
            self.wf(),
        ensures
            found == self@.contains_key(name@),
    {
        self.position(name).is_some()
    }

    /// The value under `name`.
    pub fn get(&self, name: &str) -> (found: Option<&V>)
        requires
            self.wf(),
        ensures
            match found {
                Some(value) => self@.contains_key(name@) && *value == self@[name@],
                None => !self@.contains_key(name@),
            },
    {
        match self.position(name) {
            Some(i) => {
                proof {
                    self.lemma_list();
                    assert(self.list()[i as int].0@ == name@);
                }
                Some(&self.entries[i].1)
            },
            None => None,
        }
    }

    /// Takes the value under `name` out of the table.
    pub fn remove(&mut self, name: &str) -> (found: Option<V>)
        requires
            old(self).wf(),
        ensures
            final(self).wf(),
            final(self)@ == old(self)@.remove(name@),
            match found {
                Some(value) => old(self)@.contains_key(name@) && value == old(self)@[name@],
                None => !old(self)@.contains_key(name@),
            },
    {
        let ghost before = *self;
        proof {
            before.lemma_list();
        }
        match self.position(name) {
            Some(i) => {
                assert(before.list()[i as int].0@ == name@);
                let (_, value) = self.entries.remove(i);
                proof {
                    lemma_removed(before.entries@, i as int);
                }
                Some(value)
            },
            None => {
                assert(self@ =~= before@.remove(name@));
                None
            },
        }
    }

    /// Puts `value` under `name`, in place of the value that stood there.
    pub fn insert(&mut self, name: String, value: V)
        requires
            old(self).wf(),
        ensures
            final(self).wf(),
            final(self)@ == old(self)@.insert(name@, value),
    {
        let ghost before = *self;
        proof {
            before.lemma_list();
        }
        match self.position(name.as_str()) {
            Some(i) => {
                assert(before.list()[i as int].0@ == name@);
                self.entries[i] = (name, value);
                proof {
                    lemma_replaced(before.entries@, i as int, self.entries@[i as int]);
                }
            },
            None => {
                self.entries.push((name, value));
                proof {
                    assert(self.entries@.drop_last() =~= before.entries@);
                    assert forall|i: int, j: int| 0 <= i < j < self.entries@.len() implies (
                    #[trigger] self.entries@[i]).0@ != (#[trigger] self.entries@[j]).0@ by {
                        assert(before.entries@[i].0@ == self.entries@[i].0@);
                        if j < before.entries@.len() {
                            assert(before.entries@[j].0@ == self.entries@[j].0@);
                        }
                    }
                }
            },
        }
    }
}

/// Taking an entry out of a list takes its name out of the map.
proof fn lemma_removed<V>(entries: Seq<(String, V)>, at: int)
    requires
        names_distinct(entries),
        0 <= at < entries.len(),
    ensures
        names_distinct(entries.remove(at)),
        entries_map(entries.remove(at)) == entries_map(entries).remove(entries[at].0@),
{
    let rest = entries.remove(at);
    let name = entries[at].0@;
    assert(names_distinct(rest)) by {
        assert forall|i: int, j: int| 0 <= i < j < rest.len() implies (#[trigger] rest[i]).0@ != (
        #[trigger] rest[j]).0@ by {
            let i2 = if i < at { i } else { i + 1 };
            let j2 = if j < at { j } else { j + 1 };
            assert(entries[i2].0@ != entries[j2].0@);
        }
    }
    lemma_entries_map(entries);
    lemma_entries_map(rest);
    let whole = entries_map(entries).remove(name);
    assert forall|k: Seq<char>| #![trigger entries_map(rest).dom().contains(k)]
        #![trigger whole.dom().contains(k)]
        entries_map(rest).dom().contains(k) == whole.dom().contains(k) && (entries_map(
        rest,
    ).dom().contains(k) ==> entries_map(rest)[k] == whole[k]) by {
        if entries_map(rest).contains_key(k) {
            let i = choose|i: int| 0 <= i < rest.len() && (#[trigger] rest[i]).0@ == k;
            let i2 = if i < at { i } else { i + 1 };
            assert(rest[i] == entries[i2]);
            if i2 < at {
                assert(entries[i2].0@ != entries[at].0@);
            } else {
                assert(entries[at].0@ != entries[i2].0@);
            }
        }
        if whole.contains_key(k) {
            let i = choose|i: int| 0 <= i < entries.len() && (#[trigger] entries[i]).0@ == k;
            let i2 = if i < at { i } else { i - 1 };
            assert(rest[i2] == entries[i]);
            assert(entries_map(rest).contains_key(rest[i2].0@));
        }
    }
    assert(entries_map(rest) =~= whole);
}

/// Putting another value under a name of the list does so in the map.
proof fn lemma_replaced<V>(entries: Seq<(String, V)>, at: int, entry: (String, V))
    requires
        names_distinct(entries),
        0 <= at < entries.len(),
        entries[at].0@ == entry.0@,
    ensures
        names_distinct(entries.update(at, entry)),
        entries_map(entries.update(at, entry)) == entries_map(entries).insert(entry.0@, entry.1),
{
    let changed = entries.update(at, entry);
    assert forall|i: int| 0 <= i < changed.len() implies (#[trigger] changed[i]).0@
        == entries[i].0@ by {}
    assert(names_distinct(changed)) by {
        assert forall|i: int, j: int| 0 <= i < j < changed.len() implies (#[trigger] changed[i]).0@
            != (#[trigger] changed[j]).0@ by {
            assert(entries[i].0@ != entries[j].0@);
        }
    }
    lemma_entries_map(entries);
    lemma_entries_map(changed);
    let whole = entries_map(entries).insert(entry.0@, entry.1);
    assert forall|k: Seq<char>| #![trigger entries_map(changed).dom().contains(k)]
        #![trigger whole.dom().contains(k)]
        entries_map(changed).dom().contains(k) == whole.dom().contains(k) && (entries_map(
        changed,
    ).dom().contains(k) ==> entries_map(changed)[k] == whole[k]) by {
        if entries_map(changed).contains_key(k) {
            let i = choose|i: int| 0 <= i < changed.len() && (#[trigger] changed[i]).0@ == k;
            assert(entries[i].0@ == k);
            if i != at {
                if i < at {
                    assert(entries[i].0@ != entries[at].0@);
                } else {
                    assert(entries[at].0@ != entries[i].0@);
                }
                assert(changed[i] == entries[i]);
            }
        }
        if whole.contains_key(k) {
            if k != entry.0@ {
                let i = choose|i: int| 0 <= i < entries.len() && (#[trigger] entries[i]).0@ == k;
                assert(changed[i].0@ == k);
                assert(entries_map(changed).contains_key(changed[i].0@));
            } else {
                assert(changed[at] == entry);
            }
        }
    }
    assert(entries_map(changed) =~= whole);
}

} // verus!
