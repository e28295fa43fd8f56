//! A map from names to values.

use vstd::prelude::*;

use crate::text::same_text;

verus! {

/// A map keyed by text. Each name stands in it at most once.
#[derive(Debug)]
pub struct NameMap<V> {
    entries: Vec<(String, V)>,
}

/// Whether one of the entries has the name `name`.
spec fn has_name<V>(entries: Seq<(String, V)>, name: Seq<char>) -> bool {
    exists|i: int| 0 <= i < entries.len() && #[trigger] entries[i].0@ == name
}

/// The value of the entry with the name `name`.
spec fn value_of<V>(entries: Seq<(String, V)>, name: Seq<char>) -> V {
    entries[choose|i: int| 0 <= i < entries.len() && #[trigger] entries[i].0@ == name].1
}

/// No two entries have the same name.
spec fn names_differ<V>(entries: Seq<(String, V)>) -> bool {
    forall|i: int, j: int|
        0 <= i < j < entries.len() ==> #[trigger] entries[i].0@ != #[trigger] entries[j].0@
}

impl<V> View for NameMap<V> {
    type V = Map<Seq<char>, V>;

    closed spec fn view(&self) -> Map<Seq<char>, V> {
        Map::new(
            |name: Seq<char>| has_name(self.entries@, name),
            |name: Seq<char>| value_of(self.entries@, name),
        )
    }
}

impl<V> NameMap<V> {
    #[verifier::type_invariant]
    spec fn well_formed(self) -> bool {
        names_differ(self.entries@)
    }

    /// The names of the map, in some order.
    pub closed spec fn order(self) -> Seq<Seq<char>> {
        self.entries@.map_values(|entry: (String, V)| entry.0@)
    }

    /// The empty map.
    pub fn new() -> (r: NameMap<V>)
        ensures
            r@ == Map::<Seq<char>, V>::empty(),
    {
        let r = NameMap { entries: Vec::new() };
        assert(r@ =~= Map::<Seq<char>, V>::empty());
        r
    }

    /// The position of the entry with the given name.
    fn find(&self, name: &str) -> (r: Option<usize>)
        ensures
            match r {
                Some(i) => i < self.entries@.len() && self.entries@[i as int].0@ == name@
                    && self@.contains_key(name@) && self@[name@] == self.entries@[i as int].1,
                None => !self@.contains_key(name@) && forall|j: int|
                    0 <= j < self.entries@.len() ==> #[trigger] self.entries@[j].0@ != name@,
            },
    {
        proof {
            use_type_invariant(self);
        }
        for i in 0..self.entries.len()
            invariant
                names_differ(self.entries@),
                forall|j: int| 0 <= j < i ==> #[trigger] self.entries@[j].0@ != name@,
        {
            if same_text(self.entries[i].0.as_str(), name) {
                return Some(i);
            }
        }
        None
    }

    /// The value under a name.
    pub fn get(&self, name: &str) -> (r: Option<&V>)
        ensures
            match r {
                Some(v) => self@.contains_key(name@) && *v == self@[name@],
                None => !self@.contains_key(name@),
            },
    {
        match self.find(name) {
            Some(i) => Some(&self.entries[i].1),
            None => None,
        }
    }

    /// Whether there is a value under a name.
    pub fn contains_key(&self, name: &str) -> (r: bool)
        ensures
            r == self@.contains_key(name@),
    {
        self.find(name).is_some()
    }

    /// Puts a value under a name, in place of the one that was there.
    pub fn insert(&mut self, name: String, value: V)
        ensures
            final(self)@ == old(self)@.insert(name@, value),
    {
        let found = self.find(name.as_str());
        let ghost before = self.entries@;
        proof {
            use_type_invariant(&*self);
        }
        let mut entries: Vec<(String, V)> = Vec::new();
        std::mem::swap(&mut self.entries, &mut entries);
        let ghost key = name@;
        match found {
            Some(i) => {
                entries.set(i, (name, value));
                proof {
                    assert forall|a: int, b: int| 0 <= a < b < entries@.len() implies
                        #[trigger] entries@[a].0@ != #[trigger] entries@[b].0@ by {
                        assert(before[a].0@ != before[b].0@);
                    }
                }
            },
            None => {
                entries.push((name, value));
            },
        }
        proof {
            match found {
                Some(i) => lemma_entry(entries@, i as int),
                None => lemma_entry(entries@, before.len() as int),
            }
            assert forall|other: Seq<char>| other != key implies #[trigger] has_name(before, other)
                == has_name(entries@, other) && (has_name(before, other) ==> value_of(
                before,
                other,
            ) == value_of(entries@, other)) by {
                lemma_same_value(before, entries@, other, |i: int| i, |j: int| j);
            }
        }
        self.entries = entries;
        assert(self@ =~= old(self)@.insert(key, value));
    }

    /// Takes the value under a name out of the map.
    pub fn remove(&mut self, name: &str) -> (r: Option<V>)
        ensures
            final(self)@ == old(self)@.remove(name@),
            r == (if old(self)@.contains_key(name@) {
                Some(old(self)@[name@])
            } else {
                None
            }),
    {
        let found = self.find(name);
        let ghost before = self.entries@;
        proof {
            use_type_invariant(&*self);
        }
        let mut taken: Option<V> = None;
        if let Some(i) = found {
            let mut entries: Vec<(String, V)> = Vec::new();
            std::mem::swap(&mut self.entries, &mut entries);
            taken = Some(entries.remove(i).1);
            proof {
                assert forall|a: int, b: int| 0 <= a < b < entries@.len() implies
                    #[trigger] entries@[a].0@ != #[trigger] entries@[b].0@ by {
                    let x = if a < i { a } else { a + 1 };
                    let y = if b < i { b } else { b + 1 };
                    assert(before[x].0@ != before[y].0@);
                }
                assert forall|a: int| 0 <= a < entries@.len() implies
                    #[trigger] entries@[a].0@ != name@ by {
                    let x = if a < i { a } else { a + 1 };
                    assert(entries@[a] == before[x]);
                    assert(before[i as int].0@ == name@);
                }
                assert forall|other: Seq<char>| other != name@ implies #[trigger] has_name(
                    before,
                    other,
                ) == has_name(entries@, other) && (has_name(before, other) ==> value_of(
                    before,
                    other,
                ) == value_of(entries@, other)) by {
                    lemma_same_value(
                        before,
                        entries@,
                        other,
                        |x: int| if x < i { x } else { x - 1 },
                        |y: int| if y < i { y } else { y + 1 },
                    );
                }
            }
            self.entries = entries;
        }
        assert(self@ =~= old(self)@.remove(name@));
        taken
    }

    /// Whether the map holds nothing.
    pub fn is_empty(&self) -> (r: bool)
        ensures
            r == (forall|name: Seq<char>| !#[trigger] self@.contains_key(name)),
    {
        if self.entries.len() > 0 {
            assert(self@.contains_key(self.entries@[0].0@));
        }
        self.entries.len() == 0
    }

    /// The number of names; `order` lists each of them once.
    pub fn len(&self) -> (r: usize)
        ensures
            r == self.order().len(),
            self.order().no_duplicates(),
            forall|name: Seq<char>|
                #[trigger] self@.contains_key(name) <==> self.order().contains(name),
    {
        proof {
            use_type_invariant(self);
            assert forall|name: Seq<char>| #[trigger] self@.contains_key(name) implies
                self.order().contains(name) by {
                let i = choose|i: int|
                    0 <= i < self.entries@.len() && #[trigger] self.entries@[i].0@ == name;
                assert(self.order()[i] == name);
            }
            assert forall|name: Seq<char>| self.order().contains(name) implies
                #[trigger] self@.contains_key(name) by {
                let i = choose|i: int| 0 <= i < self.order().len() && self.order()[i] == name;
                assert(self.entries@[i].0@ == name);
            }
        }
        self.entries.len()
    }

    /// One name with its value, by its position in `order`.
    pub fn entry(&self, i: usize) -> (r: (&String, &V))
        requires
            i < self.order().len(),
        ensures
            r.0@ == self.order()[i as int],
            self@.contains_key(r.0@),
            *r.1 == self@[r.0@],
    {
        proof {
            use_type_invariant(self);
            assert(self.entries@[i as int].0@ == self.order()[i as int]);
        }
        (&self.entries[i].0, &self.entries[i].1)
    }
}

impl<V: Clone> Clone for NameMap<V> {
    fn clone(&self) -> (r: NameMap<V>)
        ensures
            r@.dom() == self@.dom(),
            forall|name: Seq<char>|
                self@.contains_key(name) ==> cloned(self@[name], #[trigger] r@[name]),
    {
        proof {
            use_type_invariant(self);
        }
        let mut entries: Vec<(String, V)> = Vec::new();
        for i in 0..self.entries.len()
            invariant
                names_differ(self.entries@),
                entries@.len() == i,
                forall|j: int|
                    0 <= j < i ==> (#[trigger] entries@[j]).0@ == self.entries@[j].0@ && cloned(
                        self.entries@[j].1,
                        entries@[j].1,
                    ),
        {
            entries.push((self.entries[i].0.clone(), self.entries[i].1.clone()));
        }
        proof {
            assert(names_differ(entries@)) by {
                assert forall|a: int, b: int| 0 <= a < b < entries@.len() implies
                    #[trigger] entries@[a].0@ != #[trigger] entries@[b].0@ by {
                    assert(self.entries@[a].0@ != self.entries@[b].0@);
                }
            }
            assert forall|name: Seq<char>|
                has_name(self.entries@, name) implies #[trigger] has_name(
                entries@,
                name,
            ) && cloned(value_of(self.entries@, name), value_of(entries@, name)) by {
                let i = choose|i: int|
                    0 <= i < self.entries@.len() && #[trigger] self.entries@[i].0@ == name;
                lemma_entry(self.entries@, i);
                lemma_entry(entries@, i);
            }
            assert forall|name: Seq<char>| has_name(entries@, name) implies has_name(
                self.entries@,
                name,
            ) by {
                let i = choose|i: int| 0 <= i < entries@.len() && #[trigger] entries@[i].0@ == name;
                lemma_entry(self.entries@, i);
            }
        }
        let r = NameMap { entries };
        assert(r@.dom() =~= self@.dom());
        r
    }
}

/// The value under the name of an entry is the value of that entry.
proof fn lemma_entry<V>(entries: Seq<(String, V)>, i: int)
    requires
        names_differ(entries),
        0 <= i < entries.len(),
    ensures
        has_name(entries, entries[i].0@),
        value_of(entries, entries[i].0@) == entries[i].1,
{
    let name = entries[i].0@;
    let j = choose|j: int| 0 <= j < entries.len() && #[trigger] entries[j].0@ == name;
    assert(0 <= j < entries.len() && entries[j].0@ == name);
    if i < j {
        assert(entries[i].0@ != entries[j].0@);
    } else if j < i {
        assert(entries[j].0@ != entries[i].0@);
    }
}

/// Where each entry of `a` under the name `name` is one of `b`, and the
/// other way round, `a` and `b` hold the same under that name.
proof fn lemma_same_value<V>(
    a: Seq<(String, V)>,
    b: Seq<(String, V)>,
    name: Seq<char>,
    at: spec_fn(int) -> int,
    back: spec_fn(int) -> int,
)
    requires
        names_differ(a),
        names_differ(b),
        forall|i: int|
            0 <= i < a.len() && #[trigger] a[i].0@ == name ==> 0 <= at(i) < b.len() && b[at(i)]
                == a[i],
        forall|j: int|
            0 <= j < b.len() && #[trigger] b[j].0@ == name ==> 0 <= back(j) < a.len() && a[back(j)]
                == b[j],
    ensures
        has_name(a, name) == has_name(b, name),
        has_name(a, name) ==> value_of(a, name) == value_of(b, name),
{
    if has_name(a, name) {
        let i = choose|i: int| 0 <= i < a.len() && #[trigger] a[i].0@ == name;
        lemma_entry(a, i);
        lemma_entry(b, at(i));
    }
    if has_name(b, name) {
        let j = choose|j: int| 0 <= j < b.len() && #[trigger] b[j].0@ == name;
        lemma_entry(a, back(j));
    }
}

} // verus!
