//! A map from uniform names to uniform values, which supports nesting one map under a prefix
//! of another.
//!
//! Names are computed at run time, and maps can be merged and nested: `light.color` or
//! `lights[1].color` name a member of a nested map.

use vstd::prelude::*;
use vstd::string::*;

use crate::name_map::{entries_map, names_distinct, NameMap};

verus! {

/// A map from names to uniform values `V`
pub struct UniformMap<V> {
    uniforms: NameMap<V>,
}

/// The name of `name` nested under `prefix`: the prefix, a dot, and the name
pub open spec fn nested_name(prefix: Seq<char>, name: Seq<char>) -> Seq<char> {
    prefix + seq!['.'] + name
}

/// The map with every name nested under `prefix`
pub open spec fn nested_map<V>(prefix: Seq<char>, map: Map<Seq<char>, V>) -> Map<Seq<char>, V> {
    Map::new(
        |k: Seq<char>| exists|name: Seq<char>| map.contains_key(name) && k == nested_name(prefix, name),
        |k: Seq<char>| map[k.skip(prefix.len() as int + 1)],
    )
}

/// A name nested under a prefix gives back the name once the prefix and the dot are skipped
proof fn lemma_nested_name(prefix: Seq<char>, name: Seq<char>)
    ensures
        nested_name(prefix, name).skip(prefix.len() as int + 1) == name,
{
    assert(nested_name(prefix, name).skip(prefix.len() as int + 1) =~= name);
}

impl<V> UniformMap<V> {
    /// The uniforms, by name
    pub closed spec fn view(&self) -> Map<Seq<char>, V> {
        self.uniforms@
    }

    /// An empty map
    pub fn new() -> (map: Self)
        ensures
            map@ == Map::<Seq<char>, V>::empty(),
    {
        UniformMap { uniforms: NameMap::new() }
    }

    /// The uniforms, each with its name, in the order they were first inserted. No two have
    /// the same name.
    pub fn entries(&self) -> (entries: &Vec<(String, V)>)
        ensures
            names_distinct(entries@),
            entries_map(entries@) == self@,
    {
        self.uniforms.entries()
    }

    /// Inserts a new uniform value into this map, overwriting any previous value for the same
    /// name
    pub fn insert(&mut self, name: String, value: V)
        ensures
            final(self)@ == old(self)@.insert(name@, value),
    {
        self.uniforms.insert(name, value);
    }

    /// Inserts another uniform map into this map, nesting all of the names under the given
    /// prefix: if `prefix` is `foo` and `other` has a uniform `bar`, `foo.bar` is inserted into
    /// this map (overwriting any previous value for that name).
    pub fn insert_nested(&mut self, prefix: &str, other: UniformMap<V>)
        ensures
            final(self)@ == old(self)@.union_prefer_right(nested_map(prefix@, other@)),
    {
        proof {
            reveal_strlit(".");
        }
        let ghost start = self@;
        let uniforms = other.uniforms.into_entries();
        let ghost others = uniforms@;
        let ghost p = prefix@;
        let mut j: usize = 0;
        assert(others.take(0) =~= Seq::<(String, V)>::empty());
        assert(nested_map(p, entries_map(others.take(0))) =~= Map::<Seq<char>, V>::empty());
        assert(start.union_prefer_right(Map::<Seq<char>, V>::empty()) =~= start);
        for entry in entry_iter: uniforms.into_iter()
            invariant
                entry_iter.seq() == others,
                p == prefix@,
                "."@ == seq!['.'],
                self@ == start.union_prefer_right(nested_map(p, entries_map(others.take(entry_iter.index() as int)))),
        {
            let ghost k = entry_iter.index();
            let (name, value) = entry;
            let ghost m = entries_map(others.take(k as int));
            let mut full = String::from_str(prefix);
            full.append(".");
            full.append(name.as_str());
            let ghost key = full@;
            assert(key == nested_name(p, name@));
            self.insert(full, value);
            proof {
                assert(others.take(k + 1).drop_last() =~= others.take(k as int));
                assert(others.take(k + 1).last() == (name, value));
                let m2 = entries_map(others.take(k + 1));
                assert(m2 == m.insert(name@, value));
                lemma_nested_name(p, name@);
                assert(nested_map(p, m2) =~= nested_map(p, m).insert(key, value)) by {
                    assert forall|q: Seq<char>| #[trigger] nested_map(p, m2).contains_key(q) <==> nested_map(
                        p,
                        m,
                    ).insert(key, value).contains_key(q) by {
                        if nested_map(p, m2).contains_key(q) {
                            let nm = choose|nm: Seq<char>| m2.contains_key(nm) && q == nested_name(p, nm);
                            if nm != name@ {
                                assert(m.contains_key(nm));
                            }
                        }
                        if nested_map(p, m).contains_key(q) {
                            let nm = choose|nm: Seq<char>| m.contains_key(nm) && q == nested_name(p, nm);
                            assert(m2.contains_key(nm));
                        }
                        if q == key {
                            assert(m2.contains_key(name@));
                        }
                    }
                    assert forall|q: Seq<char>| #[trigger] nested_map(p, m2).contains_key(q) implies nested_map(
                        p,
                        m2,
                    )[q] == nested_map(p, m).insert(key, value)[q] by {
                        let nm = choose|nm: Seq<char>| m2.contains_key(nm) && q == nested_name(p, nm);
                        lemma_nested_name(p, nm);
                        if nm != name@ {
                            assert(q != key) by {
                                if q == key {
                                    assert(q.skip(p.len() as int + 1) == nm);
                                }
                            }
                        }
                    }
                }
                assert(start.union_prefer_right(nested_map(p, m2)) =~= start.union_prefer_right(
                    nested_map(p, m),
                ).insert(key, value));
            }
        }
        assert(others.take(others.len() as int) =~= others);
    }
}

impl<V: Clone> Clone for UniformMap<V> {
    /// A map with the same names, each with a clone of its value
    fn clone(&self) -> (map: Self)
        ensures
            map@.dom() == self@.dom(),
            forall|k: Seq<char>| #[trigger] map@.contains_key(k) ==> cloned::<V>(self@[k], map@[k]),
    {
        let entries = self.uniforms.entries();
        let mut map: UniformMap<V> = UniformMap::new();
        let mut i: usize = 0;
        while i < entries.len()
            invariant
                i <= entries@.len(),
                entries_map(entries@) == self@,
                map@.dom() == entries_map(entries@.take(i as int)).dom(),
                forall|k: Seq<char>|
                    #[trigger] map@.contains_key(k) ==> cloned::<V>(
                        entries_map(entries@.take(i as int))[k],
                        map@[k],
                    ),
            decreases entries.len() - i,
        {
            let name = entries[i].0.clone();
            let value = entries[i].1.clone();
            map.insert(name, value);
            proof {
                assert(entries@.take(i + 1).drop_last() =~= entries@.take(i as int));
                assert(entries@.take(i + 1).last() == entries@[i as int]);
            }
            i += 1;
        }
        assert(entries@.take(i as int) =~= entries@);
        map
    }
}

impl<V> Default for UniformMap<V> {
    fn default() -> (map: Self)
        ensures
            map@ == Map::<Seq<char>, V>::empty(),
    {
        UniformMap::new()
    }
}

} // verus!
