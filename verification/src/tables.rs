//! Tables and lists: helpers on lists and on hash tables keyed by integers, and a
//! table keyed by names.

use crate::text::str_eq;
use std::collections::HashMap;
use vstd::prelude::*;
use vstd::string::*;

verus! {

/// A list from its end to its start.
pub(crate) fn reversed<T>(v: Vec<T>) -> (r: Vec<T>)
    ensures
        r@ == v@.reverse(),
{
    let mut v = v;
    let ghost all = v@;
    let mut r: Vec<T> = Vec::new();
    while v.len() > 0
        invariant
            v@.len() + r@.len() == all.len(),
            v@ == all.take(v@.len() as int),
            r@ == all.reverse().take(r@.len() as int),
        decreases v.len(),
    {
        let ghost k = r@.len() as int;
        match v.pop() {
            Some(x) => {
                r.push(x);
            },
            None => {},
        }
        assert(v@ =~= all.take(v@.len() as int));
        assert(r@ =~= all.reverse().take(k + 1));
    }
    assert(r@ =~= all.reverse());
    r
}

/// The keys of `m` at or above `limit`, each once, in no particular order.
pub fn keys_from<V>(m: &HashMap<u32, V>, limit: u32) -> (r: Vec<u32>)
    ensures
        r@.no_duplicates(),
        forall|k: u32| #[trigger] r@.contains(k) <==> m@.contains_key(k) && k >= limit,
{
    broadcast use vstd::std_specs::hash::group_hash_axioms;

    let mut r: Vec<u32> = Vec::new();
    for k in it: m.keys()
        invariant
            r@.no_duplicates(),
            it.seq().no_duplicates(),
            it.seq().unref().to_set() == m@.dom(),
            forall|i: int|
                0 <= i < r@.len() ==> (#[trigger] r@[i]) >= limit && m@.contains_key(r@[i])
                    && exists|j: int| 0 <= j < it.index() && *it.seq()[j] == r@[i],
            forall|j: int|
                0 <= j < it.index() && *#[trigger] it.seq()[j] >= limit ==> r@.contains(
                    *it.seq()[j],
                ),
    {
        let ghost before = r@;
        if *k >= limit {
            proof {
                assert(it.seq().unref()[it.index() as int] == *k);
                assert(it.seq().unref().to_set().contains(*k));
                assert(!before.contains(*k)) by {
                    if before.contains(*k) {
                        let i = choose|i: int| 0 <= i < before.len() && before[i] == *k;
                        let j = choose|j: int| 0 <= j < it.index() && *it.seq()[j] == before[i];
                        assert(it.seq()[j] == it.seq()[it.index() as int]);
                    }
                }
            }
            r.push(*k);
            proof {
                assert(r@.last() == *k);
                assert forall|i: int| 0 <= i < before.len() implies #[trigger] r@[i]
                    == before[i] by {}
                assert forall|x: u32| before.contains(x) implies r@.contains(x) by {
                    let i = choose|i: int| 0 <= i < before.len() && before[i] == x;
                    assert(r@[i] == x);
                }
                assert(*it.seq()[it.index() as int] == *k);
            }
        }
    }
    r
}

/// What the first `i + 1` keys of a list hold.
pub proof fn lemma_keys_gone(keys: Seq<u32>, i: int)
    requires
        0 <= i < keys.len(),
    ensures
        forall|k: u32| #[trigger]
            keys.take(i + 1).contains(k) <==> keys.take(i).contains(k) || k == keys[i],
{
    let a = keys.take(i);
    let b = keys.take(i + 1);
    assert forall|k: u32| #[trigger] b.contains(k) <==> a.contains(k) || k == keys[i] by {
        if b.contains(k) {
            let j = choose|j: int| 0 <= j < b.len() && b[j] == k;
            assert(j < i ==> a[j] == k);
        }
        if a.contains(k) {
            let j = choose|j: int| 0 <= j < a.len() && a[j] == k;
            assert(b[j] == k);
        }
        assert(b[i] == keys[i]);
    }
}

/// A row of a table keyed by names.
pub struct NameEntry<V> {
    name: String,
    value: V,
}

/// A table keyed by names: no name occurs twice.
pub struct NameTable<V> {
    entries: Vec<NameEntry<V>>,
}

/// Row `i` is the one named `name`.
spec fn row<V>(s: Seq<NameEntry<V>>, i: int, name: Seq<char>) -> bool {
    0 <= i < s.len() && s[i].name@ == name
}

/// The rows, as a map.
spec fn rows_map<V>(s: Seq<NameEntry<V>>) -> Map<Seq<char>, V> {
    Map::new(
        |name: Seq<char>| exists|i: int| row(s, i, name),
        |name: Seq<char>| s[choose|i: int| row(s, i, name)].value,
    )
}

/// No two rows have the same name.
spec fn rows_unique<V>(s: Seq<NameEntry<V>>) -> bool {
    forall|i: int, j: int| 0 <= i < s.len() && 0 <= j < s.len() && i != j ==> s[i].name@ != s[j].name@
}

proof fn lemma_row<V>(s: Seq<NameEntry<V>>, i: int)
    requires
        rows_unique(s),
        0 <= i < s.len(),
    ensures
        rows_map(s).contains_key(s[i].name@),
        rows_map(s)[s[i].name@] == s[i].value,
{
    assert(row(s, i, s[i].name@));
}

/// The names of the rows.
spec fn row_names<V>(s: Seq<NameEntry<V>>) -> Seq<Seq<char>> {
    Seq::new(s.len(), |i: int| s[i].name@)
}

proof fn lemma_row_names<V>(s: Seq<NameEntry<V>>)
    requires
        rows_unique(s),
    ensures
        row_names(s).no_duplicates(),
        row_names(s).to_set() == rows_map(s).dom(),
        rows_map(s).dom().finite(),
        rows_map(s).dom().len() == s.len(),
{
    let n = row_names(s);
    assert(n.no_duplicates());
    assert(n.to_set() =~= rows_map(s).dom()) by {
        assert forall|x: Seq<char>| n.to_set().contains(x) <==> rows_map(s).dom().contains(x) by {
            if n.to_set().contains(x) {
                let i = choose|i: int| 0 <= i < n.len() && n[i] == x;
                assert(row(s, i, x));
            }
            if rows_map(s).dom().contains(x) {
                let i = choose|i: int| row(s, i, x);
                assert(n[i] == x);
            }
        }
    }
    n.unique_seq_to_set();
}

impl<V> View for NameTable<V> {
    type V = Map<Seq<char>, V>;

    closed spec fn view(&self) -> Map<Seq<char>, V> {
        rows_map(self.entries@)
    }
}

impl<V> NameTable<V> {
    /// No name occurs twice.
    pub closed spec fn wf(&self) -> bool {
        rows_unique(self.entries@)
    }

    /// The names, in the order of the rows.
    pub closed spec fn names(&self) -> Seq<Seq<char>> {
        row_names(self.entries@)
    }

    /// The rows list each name of the table once.
    pub proof fn lemma_names(&self)
        requires
            self.wf(),
        ensures
            self.names().no_duplicates(),
            self.names().to_set() == self@.dom(),
            self@.dom().finite(),
            self@.dom().len() == self.names().len(),
            forall|i: int|
                0 <= i < self.names().len() ==> self@.contains_key(#[trigger] self.names()[i]),
    {
        lemma_row_names(self.entries@);
        assert forall|i: int| 0 <= i < self.names().len() implies self@.contains_key(
            #[trigger] self.names()[i],
        ) by {
            lemma_row(self.entries@, i);
        }
    }

    /// An empty table.
    pub fn new() -> (r: Self)
        ensures
            r.wf(),
            r@ == Map::<Seq<char>, V>::empty(),
    {
        let r = NameTable { entries: Vec::new() };
        assert(r@ =~= Map::<Seq<char>, V>::empty());
        r
    }

    /// How many rows the table has.
    pub fn len(&self) -> (r: usize)
        requires
            self.wf(),
        ensures
            r == self@.dom().len(),
            r == self.names().len(),
            self@.dom().finite(),
    {
        proof {
            self.lemma_names();
        }
        self.entries.len()
    }

    fn find(&self, name: &str) -> (r: Option<usize>)
        requires
            self.wf(),
        ensures
            match r {
                Some(i) => {
                    &&& i < self.entries@.len()
                    &&& self.entries@[i as int].name@ == name@
                    &&& self@.contains_key(name@)
                    &&& self@[name@] == self.entries@[i as int].value
                },
                None => !self@.contains_key(name@) && forall|j: int|
                    0 <= j < self.entries@.len() ==> (#[trigger] self.entries@[j]).name@ != name@,
            },
    {
        let mut i: usize = 0;
        while i < self.entries.len()
            invariant
                self.wf(),
                i <= self.entries.len(),
                forall|j: int| 0 <= j < i ==> (#[trigger] self.entries@[j]).name@ != name@,
            decreases self.entries.len() - i,
        {
            if str_eq(self.entries[i].name.as_str(), name) {
                proof {
                    lemma_row(self.entries@, i as int);
                }
                return Some(i);
            }
            i = i + 1;
        }
        proof {
            if self@.contains_key(name@) {
                let j = choose|j: int| row(self.entries@, j, name@);
                assert(self.entries@[j].name@ == name@);
            }
        }
        None
    }

    /// Whether the table has a row named `name`.
    pub fn contains(&self, name: &str) -> (r: bool)
        requires
            self.wf(),
        ensures
            r == self@.contains_key(name@),
    {
        self.find(name).is_some()
    }

    /// The value in the row named `name`.
    pub fn get(&self, name: &str) -> (r: Option<&V>)
        requires
            self.wf(),
        ensures
            match r {
                Some(v) => self@.contains_key(name@) && *v == self@[name@],
                None => !self@.contains_key(name@),
            },
    {
        match self.find(name) {
            Some(i) => Some(&self.entries[i].value),
            None => None,
        }
    }

    /// The value in row `i`.
    pub fn value_at(&self, i: usize) -> (r: &V)
        requires
            self.wf(),
            i < self.names().len(),
        ensures
            self@.contains_key(self.names()[i as int]),
            *r == self@[self.names()[i as int]],
    {
        proof {
            lemma_row(self.entries@, i as int);
        }
        &self.entries[i].value
    }

    /// The name of row `i`.
    pub fn name_at(&self, i: usize) -> (r: &str)
        requires
            self.wf(),
            i < self.names().len(),
        ensures
            r@ == self.names()[i as int],
    {
        self.entries[i].name.as_str()
    }

    /// Puts `value` into the row named `name`, in place of what was there.
    pub fn insert(&mut self, name: String, value: V)
        requires
            old(self).wf(),
        ensures
            final(self).wf(),
            final(self)@ == old(self)@.insert(name@, value),
    {
        self.remove(name.as_str());
        let ghost before = self.entries@;
        let ghost key = name@;
        proof {
            assert forall|j: int| 0 <= j < before.len() implies (#[trigger] before[j]).name@
                != key by {
                lemma_row(before, j);
            }
        }
        self.entries.push(NameEntry { name, value });
        proof {
            let after = self.entries@;
            assert(rows_unique(after));
            assert(self@ =~= old(self)@.insert(key, value)) by {
                assert forall|x: Seq<char>| self@.contains_key(x) <==> old(self)@.insert(
                    key,
                    value,
                ).contains_key(x) by {
                    if self@.contains_key(x) {
                        let i = choose|i: int| row(after, i, x);
                        if i < before.len() {
                            lemma_row(before, i);
                        }
                    }
                    if rows_map(before).contains_key(x) {
                        let i = choose|i: int| row(before, i, x);
                        assert(row(after, i, x));
                    }
                    assert(row(after, before.len() as int, key));
                }
                assert forall|x: Seq<char>| #[trigger] self@.contains_key(x) implies self@[x]
                    == old(self)@.insert(key, value)[x] by {
                    let i = choose|i: int| row(after, i, x);
                    lemma_row(after, i);
                    if i < before.len() {
                        lemma_row(before, i);
                    }
                }
            }
        }
    }

    /// Takes the row named `name` out.
    pub fn remove(&mut self, name: &str) -> (r: Option<V>)
        requires
            old(self).wf(),
        ensures
            final(self).wf(),
            final(self)@ == old(self)@.remove(name@),
            match r {
                Some(v) => old(self)@.contains_key(name@) && v == old(self)@[name@],
                None => !old(self)@.contains_key(name@),
            },
    {
        let found: Option<usize> = self.find(name);
        match found {
            Some(i) => {
                let ghost before = self.entries@;
                let e = self.entries.remove(i);
                proof {
                    let after = self.entries@;
                    assert forall|j: int| 0 <= j < after.len() implies #[trigger] after[j]
                        == before[if j < i {
                        j
                    } else {
                        j + 1
                    }] by {}
                    assert(rows_unique(after));
                    assert(self@ =~= old(self)@.remove(name@)) by {
                        assert forall|x: Seq<char>| self@.contains_key(x) <==> old(self)@.remove(
                            name@,
                        ).contains_key(x) by {
                            if self@.contains_key(x) {
                                let j = choose|j: int| row(after, j, x);
                                lemma_row(
                                    before,
                                    if j < i {
                                        j
                                    } else {
                                        j + 1
                                    },
                                );
                            }
                            if rows_map(before).contains_key(x) && x != name@ {
                                let j = choose|j: int| row(before, j, x);
                                assert(row(
                                    after,
                                    if j < i {
                                        j
                                    } else {
                                        j - 1
                                    },
                                    x,
                                ));
                            }
                        }
                        assert forall|x: Seq<char>| #[trigger] self@.contains_key(x) implies self@[x]
                            == old(self)@[x] by {
                            let j = choose|j: int| row(after, j, x);
                            lemma_row(after, j);
                            lemma_row(
                                before,
                                if j < i {
                                    j
                                } else {
                                    j + 1
                                },
                            );
                        }
                    }
                }
                Some(e.value)
            },
            None => {
                assert(self@ =~= old(self)@.remove(name@));
                None
            },
        }
    }

    /// Takes every row out.
    pub fn clear(&mut self)
        ensures
            final(self).wf(),
            final(self)@ == Map::<Seq<char>, V>::empty(),
    {
        self.entries.clear();
        assert(self@ =~= Map::<Seq<char>, V>::empty());
    }
}

} // verus!
