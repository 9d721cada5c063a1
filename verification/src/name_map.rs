//! Maps from names to values, as lists of named entries

use vstd::prelude::*;

verus! {

/// A map from names to values `V`
#[derive(Debug)]
pub struct NameMap<V> {
    entries: Vec<(String, V)>,
}

/// No two entries have the same name
pub open spec fn names_distinct<V>(entries: Seq<(String, V)>) -> bool {
    forall|i: int, j: int| 0 <= i < j < entries.len() ==> (#[trigger] entries[i]).0@ != (#[trigger] entries[j]).0@
}

/// The map that the entries describe, later entries overriding earlier ones
pub open spec fn entries_map<V>(entries: Seq<(String, V)>) -> Map<Seq<char>, V>
    decreases entries.len(),
{
    if entries.len() == 0 {
        Map::empty()
    } else {
        entries_map(entries.drop_last()).insert(entries.last().0@, entries.last().1)
    }
}

/// With distinct names, the map holds exactly the names of the entries, each with its value
pub proof fn lemma_entries_map<V>(entries: Seq<(String, V)>)
    requires
        names_distinct(entries),
    ensures
        forall|k: Seq<char>|
            #[trigger] entries_map(entries).contains_key(k) <==> exists|i: int|
                0 <= i < entries.len() && (#[trigger] entries[i]).0@ == k,
        forall|i: int|
            0 <= i < entries.len() ==> #[trigger] entries_map(entries)[entries[i].0@] == entries[i].1,
    decreases entries.len(),
{
    if entries.len() > 0 {
        let rest = entries.drop_last();
        let last = entries.len() - 1;
        assert(names_distinct(rest)) by {
            assert forall|i: int, j: int| 0 <= i < j < rest.len() implies (#[trigger] rest[i]).0@
                != (#[trigger] rest[j]).0@ by {
                assert(rest[i] == entries[i] && rest[j] == entries[j]);
            }
        }
        lemma_entries_map(rest);
        assert(entries_map(entries) == entries_map(rest).insert(entries[last].0@, entries[last].1));
        assert forall|k: Seq<char>|
            #[trigger] entries_map(entries).contains_key(k) <==> exists|i: int|
                0 <= i < entries.len() && (#[trigger] entries[i]).0@ == k by {
            if entries_map(entries).contains_key(k) {
                if k == entries[last].0@ {
                    assert(0 <= last < entries.len() && entries[last].0@ == k);
                } else {
                    assert(entries_map(rest).contains_key(k));
                    let i = choose|i: int| 0 <= i < rest.len() && (#[trigger] rest[i]).0@ == k;
                    assert(entries[i] == rest[i]);
                    assert(0 <= i < entries.len() && entries[i].0@ == k);
                }
            }
            if exists|i: int| 0 <= i < entries.len() && (#[trigger] entries[i]).0@ == k {
                let i = choose|i: int| 0 <= i < entries.len() && (#[trigger] entries[i]).0@ == k;
                if i < last {
                    assert(rest[i] == entries[i]);
                    assert(entries_map(rest).contains_key(rest[i].0@));
                }
            }
        }
        assert forall|i: int| 0 <= i < entries.len() implies #[trigger] entries_map(entries)[entries[i].0@]
            == entries[i].1 by {
            if i < last {
                assert(rest[i] == entries[i]);
                assert(entries[i].0@ != entries[last].0@);
                assert(entries_map(rest)[rest[i].0@] == rest[i].1);
            }
        }
    }
}

impl<V> NameMap<V> {
    /// The names are distinct
    #[verifier::type_invariant]
    spec fn inv(self) -> bool {
        names_distinct(self.entries@)
    }

    /// The values, by name
    pub closed spec fn view(&self) -> Map<Seq<char>, V> {
        entries_map(self.entries@)
    }

    /// An empty map
    pub fn new() -> (map: Self)
        ensures
            map@ == Map::<Seq<char>, V>::empty(),
    {
        NameMap { entries: Vec::new() }
    }

    /// The values, each with its name, in the order they were first inserted. No two have the
    /// same name.
    pub fn entries(&self) -> (entries: &Vec<(String, V)>)
        ensures
            names_distinct(entries@),
            entries_map(entries@) == self@,
    {
        proof {
            use_type_invariant(self);
        }
        &self.entries
    }

    /// Inserts a value into this map, overwriting any previous value for the same name
    pub fn insert(&mut self, name: String, value: V)
        ensures
            final(self)@ == old(self)@.insert(name@, value),
    {
        proof {
            use_type_invariant(&*self);
            lemma_entries_map(self.entries@);
        }
        let mut entries: Vec<(String, V)> = Vec::new();
        std::mem::swap(&mut entries, &mut self.entries);
        let ghost before = entries@;
        let mut i: usize = 0;
        while i < entries.len()
            invariant
                before == entries@,
                old(self)@ == entries_map(before),
                names_distinct(before),
                i <= before.len(),
                forall|k: int| 0 <= k < i ==> (#[trigger] before[k]).0@ != name@,
            decreases before.len() - i,
        {
            if entries[i].0 == name {
                let ghost n = name@;
                let ghost after = before.update(i as int, (name, value));
                assert(names_distinct(after)) by {
                    assert forall|a: int, b: int| 0 <= a < b < after.len() implies (#[trigger] after[a]).0@
                        != (#[trigger] after[b]).0@ by {
                        assert(before[a].0@ != before[b].0@);
                    }
                }
                entries.set(i, (name, value));
                self.entries = entries;
                proof {
                    lemma_entries_map(self.entries@);
                    lemma_entries_map(before);
                    assert(self@ =~= entries_map(before).insert(n, value)) by {
                        assert forall|k: Seq<char>| #[trigger] self@.contains_key(k) <==> entries_map(
                            before,
                        ).insert(n, value).contains_key(k) by {
                            if self@.contains_key(k) {
                                let j = choose|j: int| 0 <= j < after.len() && (#[trigger] after[j]).0@ == k;
                                if j != i {
                                    assert(before[j].0@ == k);
                                }
                            }
                            if entries_map(before).contains_key(k) {
                                let j = choose|j: int| 0 <= j < before.len() && (#[trigger] before[j]).0@ == k;
                                if j != i {
                                    assert(after[j].0@ == k);
                                } else {
                                    assert(after[i as int].0@ == k);
                                }
                            }
                            if k == n {
                                assert(after[i as int].0@ == k);
                            }
                        }
                        assert forall|k: Seq<char>| #[trigger] self@.contains_key(k) implies self@[k]
                            == entries_map(before).insert(n, value)[k] by {
                            let j = choose|j: int| 0 <= j < after.len() && (#[trigger] after[j]).0@ == k;
                            assert(self@[after[j].0@] == after[j].1);
                            if j != i {
                                assert(entries_map(before)[before[j].0@] == before[j].1);
                            }
                        }
                    }
                }
                return;
            }
            i += 1;
        }
        let ghost n = name@;
        let ghost after = before.push((name, value));
        assert(names_distinct(after)) by {
            assert forall|a: int, b: int| 0 <= a < b < after.len() implies (#[trigger] after[a]).0@
                != (#[trigger] after[b]).0@ by {
                if b < before.len() {
                    assert(before[a].0@ != before[b].0@);
                } else {
                    assert(before[a].0@ != n);
                }
            }
        }
        entries.push((name, value));
        self.entries = entries;
        assert(after.drop_last() =~= before);
    }

    /// The value with the given name, if any
    pub fn get(&self, name: &String) -> (value: Option<&V>)
        ensures
            value == if self@.contains_key(name@) {
                Some(&self@[name@])
            } else {
                None::<&V>
            },
    {
        proof {
            use_type_invariant(self);
            lemma_entries_map(self.entries@);
        }
        let mut i: usize = 0;
        while i < self.entries.len()
            invariant
                i <= self.entries@.len(),
                names_distinct(self.entries@),
                self@ == entries_map(self.entries@),
                forall|k: int| 0 <= k < i ==> (#[trigger] self.entries@[k]).0@ != name@,
            decreases self.entries@.len() - i,
        {
            if self.entries[i].0 == *name {
                proof {
                    lemma_entries_map(self.entries@);
                }
                return Some(&self.entries[i].1);
            }
            i += 1;
        }
        proof {
            lemma_entries_map(self.entries@);
            if self@.contains_key(name@) {
                let k = choose|k: int| 0 <= k < self.entries@.len() && (#[trigger] self.entries@[k]).0@
                    == name@;
            }
        }
        None
    }

    /// The values, each with its name, in the order they were first inserted. No two have the
    /// same name.
    pub fn into_entries(self) -> (entries: Vec<(String, V)>)
        ensures
            names_distinct(entries@),
            entries_map(entries@) == self@,
    {
        proof {
            use_type_invariant(&self);
        }
        let NameMap { entries } = self;
        entries
    }
}

} // verus!
