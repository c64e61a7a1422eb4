use vstd::prelude::*;
use crate::sums::{among, lemma_among_fresh, lemma_among_step};
use crate::util::same_text;

verus! {

/// A table of values keyed by name, in the order in which the names were first put.
///
/// No name occurs twice. Its view is the map from each name to its value.
#[derive(Debug)]
pub struct Table<T> {
    entries: Vec<(String, T)>,
}

spec fn distinct<T>(entries: Seq<(String, T)>) -> bool {
    forall|i: int, j: int|
        0 <= i < j < entries.len() ==> (#[trigger] entries[i]).0@ != (#[trigger] entries[j]).0@
}

spec fn at<T>(entries: Seq<(String, T)>, name: Seq<char>, i: int) -> bool {
    0 <= i < entries.len() && entries[i].0@ == name
}

spec fn as_map<T>(entries: Seq<(String, T)>) -> Map<Seq<char>, T> {
    Map::new(
        |name: Seq<char>| exists|i: int| at(entries, name, i),
        |name: Seq<char>| entries[choose|i: int| at(entries, name, i)].1,
    )
}

spec fn as_names<T>(entries: Seq<(String, T)>) -> Seq<Seq<char>> {
    Seq::new(entries.len(), |i: int| entries[i].0@)
}

/// Where the names are distinct, the entry at `i` is what the map holds for its name.
proof fn lemma_entry<T>(entries: Seq<(String, T)>, i: int)
    requires
        distinct(entries),
        0 <= i < entries.len(),
    ensures
        as_map(entries).contains_key(entries[i].0@),
        as_map(entries)[entries[i].0@] == entries[i].1,
{
    let name = entries[i].0@;
    assert(at(entries, name, i));
    let j = choose|j: int| at(entries, name, j);
    assert(j == i);
}

/// Replacing the value at `i` changes the map at that name only.
proof fn lemma_replace<T>(before: Seq<(String, T)>, after: Seq<(String, T)>, i: int)
    requires
        distinct(before),
        0 <= i < before.len(),
        after.len() == before.len(),
        forall|j: int| 0 <= j < before.len() ==> (#[trigger] after[j]).0 == before[j].0,
        forall|j: int| 0 <= j < before.len() && j != i ==> (#[trigger] after[j]).1 == before[j].1,
    ensures
        distinct(after),
        as_map(after) == as_map(before).insert(before[i].0@, after[i].1),
        as_names(after) == as_names(before),
{
    assert forall|n: Seq<char>, j: int| at(after, n, j) == at(before, n, j) by {}
    assert(distinct(after));
    let name = before[i].0@;
    assert forall|n: Seq<char>| #[trigger]
        as_map(after).contains_key(n) == as_map(before).insert(name, after[i].1).contains_key(
            n,
        ) by {
        if as_map(after).contains_key(n) {
            let j = choose|j: int| at(after, n, j);
            assert(at(before, n, j));
        }
        if as_map(before).contains_key(n) {
            let j = choose|j: int| at(before, n, j);
            assert(at(after, n, j));
        }
        if n == name {
            assert(at(after, n, i));
        }
    }
    assert forall|n: Seq<char>| #[trigger] as_map(after).contains_key(n) implies as_map(after)[n]
        == as_map(before).insert(name, after[i].1)[n] by {
        let j = choose|j: int| at(after, n, j);
        lemma_entry(after, j);
        if n != name {
            lemma_entry(before, j);
        } else {
            assert(at(after, n, i));
        }
    }
    assert(as_map(after) =~= as_map(before).insert(name, after[i].1));
    assert(as_names(after) =~= as_names(before));
}

/// Appending a name that is not yet there adds it to the map.
proof fn lemma_append<T>(before: Seq<(String, T)>, entry: (String, T))
    requires
        distinct(before),
        !as_map(before).contains_key(entry.0@),
    ensures
        distinct(before.push(entry)),
        as_map(before.push(entry)) == as_map(before).insert(entry.0@, entry.1),
        as_names(before.push(entry)) == as_names(before).push(entry.0@),
{
    let after = before.push(entry);
    let name = entry.0@;
    assert forall|j: int| 0 <= j < before.len() implies before[j].0@ != name by {
        if before[j].0@ == name {
            assert(at(before, name, j));
        }
    }
    assert(distinct(after));
    assert(at(after, name, before.len() as int));
    assert forall|n: Seq<char>, j: int| 0 <= j < before.len() implies at(after, n, j) == at(
        before,
        n,
        j,
    ) by {}
    assert forall|n: Seq<char>| #[trigger]
        as_map(after).contains_key(n) == as_map(before).insert(name, entry.1).contains_key(n) by {
        if as_map(after).contains_key(n) {
            let j = choose|j: int| at(after, n, j);
            if n != name {
                assert(at(before, n, j));
            }
        }
        if as_map(before).contains_key(n) {
            let j = choose|j: int| at(before, n, j);
            assert(at(after, n, j));
        }
    }
    assert forall|n: Seq<char>| #[trigger] as_map(after).contains_key(n) implies as_map(after)[n]
        == as_map(before).insert(name, entry.1)[n] by {
        let j = choose|j: int| at(after, n, j);
        lemma_entry(after, j);
        if n != name {
            assert(at(before, n, j));
            lemma_entry(before, j);
        }
    }
    assert(as_map(after) =~= as_map(before).insert(name, entry.1));
    assert(as_names(after) =~= as_names(before).push(name));
}

/// The first layer filled up from the second: what the first holds stays, and the
/// second gives only the names that the first lacks.
pub open spec fn filled<T>(first: Map<Seq<char>, T>, second: Map<Seq<char>, T>) -> Map<
    Seq<char>,
    T,
> {
    second.union_prefer_right(first)
}

/// Those of `names` that `taken` does not hold, in their order.
pub open spec fn fresh(names: Seq<Seq<char>>, taken: Set<Seq<char>>) -> Seq<Seq<char>>
    decreases names.len(),
{
    if names.len() == 0 {
        names
    } else if taken.contains(names.last()) {
        fresh(names.drop_last(), taken)
    } else {
        fresh(names.drop_last(), taken).push(names.last())
    }
}

/// Filling up never changes what the first layer holds.
pub proof fn lemma_filled_keeps<T>(
    first: Map<Seq<char>, T>,
    second: Map<Seq<char>, T>,
    name: Seq<char>,
)
    requires
        first.contains_key(name),
    ensures
        filled(first, second).contains_key(name),
        filled(first, second)[name] == first[name],
{
}

/// Filling up a second time from the same layer changes nothing.
pub proof fn lemma_filled_twice<T>(first: Map<Seq<char>, T>, second: Map<Seq<char>, T>)
    ensures
        filled(filled(first, second), second) == filled(first, second),
{
    assert(filled(filled(first, second), second) =~= filled(first, second));
}

/// A layer filled up from itself is the layer.
pub proof fn lemma_filled_self<T>(layer: Map<Seq<char>, T>)
    ensures
        filled(layer, layer) == layer,
{
    assert(filled(layer, layer) =~= layer);
}

/// The part of `m` whose names are among the first `n` of `names`.
spec fn upto<T>(m: Map<Seq<char>, T>, names: Seq<Seq<char>>, n: int) -> Map<Seq<char>, T> {
    Map::new(
        |name: Seq<char>| m.contains_key(name) && among(names, n, name),
        |name: Seq<char>| m[name],
    )
}

impl<T> View for Table<T> {
    type V = Map<Seq<char>, T>;

    closed spec fn view(&self) -> Map<Seq<char>, T> {
        as_map(self.entries@)
    }
}

impl<T> Table<T> {
    #[verifier::type_invariant]
    spec fn inv(self) -> bool {
        distinct(self.entries@)
    }

    /// The names of the table, in the order in which they were first put.
    pub closed spec fn names(&self) -> Seq<Seq<char>> {
        as_names(self.entries@)
    }

    /// The names list each key of the view exactly once.
    pub open spec fn listed(&self) -> bool {
        &&& self.names().no_duplicates()
        &&& forall|i: int| 0 <= i < self.names().len() ==> self@.contains_key(#[trigger] self.names()[i])
        &&& forall|name: Seq<char>| #[trigger] self@.contains_key(name) ==> self.names().contains(name)
    }

    /// The empty table.
    pub fn new() -> (table: Self)
        ensures
            table@ == Map::<Seq<char>, T>::empty(),
            table.names() == Seq::<Seq<char>>::empty(),
    {
        let table = Table { entries: Vec::new() };
        assert(table@ =~= Map::<Seq<char>, T>::empty());
        assert(table.names() =~= Seq::<Seq<char>>::empty());
        table
    }

    /// The number of names.
    pub fn len(&self) -> (n: usize)
        ensures
            n == self.names().len(),
            self.listed(),
    {
        proof {
            use_type_invariant(self);
            let entries = self.entries@;
            assert forall|i: int| 0 <= i < self.names().len() implies self@.contains_key(
                #[trigger] self.names()[i],
            ) by {
                lemma_entry(entries, i);
            }
            assert forall|name: Seq<char>| #[trigger] self@.contains_key(name) implies self.names().contains(
                name,
            ) by {
                let i = choose|i: int| at(entries, name, i);
                assert(self.names()[i] == name);
            }
        }
        self.entries.len()
    }

    /// The place of `key` among the names, if it is there.
    pub fn position(&self, key: &str) -> (place: Option<usize>)
        ensures
            match place {
                Some(i) => i < self.names().len() && self.names()[i as int] == key@
                    && self@.contains_key(key@),
                None => !self@.contains_key(key@),
            },
    {
        let mut i: usize = 0;
        while i < self.entries.len()
            invariant
                i <= self.entries.len(),
                forall|j: int| 0 <= j < i ==> !at(self.entries@, key@, j),
            decreases self.entries.len() - i,
        {
            if same_text(self.entries[i].0.as_str(), key) {
                assert(at(self.entries@, key@, i as int));
                return Some(i);
            }
            i += 1;
        }
        None
    }

    /// Whether `key` is a name of the table.
    pub fn contains_key(&self, key: &str) -> (present: bool)
        ensures
            present == self@.contains_key(key@),
    {
        self.position(key).is_some()
    }

    /// The name at place `i`.
    pub fn name_at(&self, i: usize) -> (name: &str)
        requires
            i < self.names().len(),
        ensures
            name@ == self.names()[i as int],
    {
        self.entries[i].0.as_str()
    }

    /// The value of the name at place `i`.
    pub fn value_at(&self, i: usize) -> (value: &T)
        requires
            i < self.names().len(),
        ensures
            self@.contains_key(self.names()[i as int]),
            *value == self@[self.names()[i as int]],
    {
        proof {
            use_type_invariant(self);
            lemma_entry(self.entries@, i as int);
        }
        &self.entries[i].1
    }

    /// The value of `key`, if it is a name of the table.
    pub fn get(&self, key: &str) -> (found: Option<&T>)
        ensures
            match found {
                Some(value) => self@.contains_key(key@) && *value == self@[key@],
                None => !self@.contains_key(key@),
            },
    {
        match self.position(key) {
            Some(i) => Some(self.value_at(i)),
            None => None,
        }
    }

    /// Gives `key` the value `value`: in place where the name is there, at the end where it is new.
    pub fn put(&mut self, key: &str, value: T)
        ensures
            final(self)@ == old(self)@.insert(key@, value),
            final(self).names() == if old(self)@.contains_key(key@) {
                old(self).names()
            } else {
                old(self).names().push(key@)
            },
    {
        proof {
            use_type_invariant(&*self);
        }
        let ghost before = self.entries@;
        let place = self.position(key);
        let mut entries: Vec<(String, T)> = Vec::new();
        core::mem::swap(&mut entries, &mut self.entries);
        match place {
            Some(i) => {
                entries[i].1 = value;
                proof {
                    lemma_replace(before, entries@, i as int);
                }
            },
            None => {
                let entry = (key.to_owned(), value);
                proof {
                    lemma_append(before, entry);
                }
                entries.push(entry);
            },
        }
        self.entries = entries;
    }

    /// Fills the table up from `other`: each name that the table lacks is put, with
    /// its value, in the order of `other`; a name that the table has keeps its value.
    pub fn fill_from(&mut self, other: Table<T>)
        ensures
            final(self)@ == filled(old(self)@, other@),
            final(self).names() == old(self).names() + fresh(other.names(), old(self)@.dom()),
    {
        proof {
            use_type_invariant(&other);
        }
        let ghost theirs = other.entries@;
        let ghost names = as_names(theirs);
        let ghost mut done: int = 0;
        assert(self@ =~= filled(old(self)@, upto(other@, names, 0)));
        assert(names.take(0) =~= Seq::<Seq<char>>::empty());
        assert(self.names() =~= old(self).names() + fresh(names.take(0), old(self)@.dom()));
        for entry in it: other.entries
            invariant
                it.seq() == theirs,
                names == as_names(theirs),
                distinct(theirs),
                done == it.index(),
                self@ == filled(old(self)@, upto(as_map(theirs), names, done)),
                self.names() == old(self).names() + fresh(names.take(done), old(self)@.dom()),
        {
            let (key, value) = entry;
            proof {
                lemma_entry(theirs, done);
                lemma_among_fresh(names, done);
                assert(names[done] == key@);
                assert(names.take(done + 1).drop_last() =~= names.take(done));
                assert forall|name: Seq<char>|
                    among(names, done + 1, name) == (among(names, done, name) || name
                        == key@) by {
                    lemma_among_step(names, done, name);
                }
            }
            let ghost before = self@;
            let ghost listed = self.names();
            if !self.contains_key(key.as_str()) {
                self.put(key.as_str(), value);
                proof {
                    assert(self@ =~= filled(old(self)@, upto(as_map(theirs), names, done + 1)));
                    assert(self.names() =~= old(self).names() + fresh(
                        names.take(done + 1),
                        old(self)@.dom(),
                    ));
                }
            } else {
                proof {
                    assert(old(self)@.contains_key(key@));
                    assert(self@ =~= filled(old(self)@, upto(as_map(theirs), names, done + 1)));
                }
            }
            proof {
                done = done + 1;
            }
        }
        proof {
            assert(names.take(names.len() as int) =~= names);
            assert(upto(as_map(theirs), names, names.len() as int) =~= as_map(theirs)) by {
                assert forall|name: Seq<char>| #[trigger]
                    as_map(theirs).contains_key(name) implies among(
                    names,
                    names.len() as int,
                    name,
                ) by {
                    let i = choose|i: int| at(theirs, name, i);
                    assert(names[i] == name);
                }
            }
        }
    }
}

} // verus!
