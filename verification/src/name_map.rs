//! A map from names to values, kept as a list of entries with distinct names.

use vstd::prelude::*;

verus! {

/// The map that a list of entries denotes: later entries win over earlier
/// ones with the same name.
pub open spec fn map_of<V>(e: Seq<(String, V)>) -> Map<Seq<char>, V>
    decreases e.len(),
{
    if e.len() == 0 {
        Map::empty()
    } else {
        map_of(e.drop_last()).insert(e.last().0@, e.last().1)
    }
}

/// No two entries carry the same name.
pub open spec fn names_distinct<V>(e: Seq<(String, V)>) -> bool {
    forall|i: int, j: int|
        0 <= i < e.len() && 0 <= j < e.len() && i != j ==> #[trigger] e[i].0@ != #[trigger] e[j].0@
}

/// A map from names to values. Each name occurs at most once.
pub struct NameMap<V> {
    entries: Vec<(String, V)>,
}

impl<V> View for NameMap<V> {
    type V = Map<Seq<char>, V>;

    closed spec fn view(&self) -> Map<Seq<char>, V> {
        map_of(self.entries@)
    }
}

proof fn lemma_map_of_dom<V>(e: Seq<(String, V)>, k: Seq<char>)
    ensures
        map_of(e).contains_key(k) <==> exists|i: int| 0 <= i < e.len() && #[trigger] e[i].0@ == k,
    decreases e.len(),
{
    if e.len() > 0 {
        lemma_map_of_dom(e.drop_last(), k);
        if map_of(e).contains_key(k) && e.last().0@ != k {
            let i = choose|i: int| 0 <= i < e.drop_last().len() && #[trigger] e.drop_last()[i].0@ == k;
            assert(e[i].0@ == k);
        }
        if exists|i: int| 0 <= i < e.len() && #[trigger] e[i].0@ == k {
            let i = choose|i: int| 0 <= i < e.len() && #[trigger] e[i].0@ == k;
            if i < e.len() - 1 {
                assert(e.drop_last()[i].0@ == k);
            }
        }
    }
}

proof fn lemma_map_of_value<V>(e: Seq<(String, V)>, i: int)
    requires
        names_distinct(e),
        0 <= i < e.len(),
    ensures
        map_of(e).contains_key(e[i].0@),
        map_of(e)[e[i].0@] == e[i].1,
    decreases e.len(),
{
    if i < e.len() - 1 {
        let d = e.drop_last();
        assert(d[i] == e[i]);
        assert(names_distinct(d)) by {
            assert forall|a: int, b: int|
                0 <= a < d.len() && 0 <= b < d.len() && a != b implies #[trigger] d[a].0@
                != #[trigger] d[b].0@ by {
                assert(d[a] == e[a] && d[b] == e[b]);
            }
        }
        lemma_map_of_value(d, i);
        assert(e.last().0@ != e[i].0@);
    }
}

proof fn lemma_drop_last_distinct<V>(e: Seq<(String, V)>)
    requires
        names_distinct(e),
        e.len() > 0,
    ensures
        names_distinct(e.drop_last()),
        !map_of(e.drop_last()).contains_key(e.last().0@),
{
    let d = e.drop_last();
    assert forall|a: int, b: int|
        0 <= a < d.len() && 0 <= b < d.len() && a != b implies #[trigger] d[a].0@
        != #[trigger] d[b].0@ by {
        assert(d[a] == e[a] && d[b] == e[b]);
    }
    lemma_map_of_dom(d, e.last().0@);
    if map_of(d).contains_key(e.last().0@) {
        let i = choose|i: int| 0 <= i < d.len() && #[trigger] d[i].0@ == e.last().0@;
        assert(e[i].0@ == e[e.len() - 1].0@);
    }
}

proof fn lemma_map_of_update<V>(e: Seq<(String, V)>, i: int, key: String, v: V)
    requires
        names_distinct(e),
        0 <= i < e.len(),
        e[i].0@ == key@,
    ensures
        map_of(e.update(i, (key, v))) =~= map_of(e).insert(key@, v),
    decreases e.len(),
{
    let u = e.update(i, (key, v));
    let d = e.drop_last();
    lemma_drop_last_distinct(e);
    if i == e.len() - 1 {
        assert(u.drop_last() =~= d);
    } else {
        assert(u.drop_last() =~= d.update(i, (key, v)));
        assert(d[i] == e[i]);
        lemma_map_of_update(d, i, key, v);
        assert(e.last().0@ != e[i].0@);
    }
}

proof fn lemma_map_of_remove<V>(e: Seq<(String, V)>, i: int)
    requires
        names_distinct(e),
        0 <= i < e.len(),
    ensures
        map_of(e.remove(i)) =~= map_of(e).remove(e[i].0@),
        names_distinct(e.remove(i)),
    decreases e.len(),
{
    let r = e.remove(i);
    let d = e.drop_last();
    lemma_drop_last_distinct(e);
    assert forall|a: int, b: int|
        0 <= a < r.len() && 0 <= b < r.len() && a != b implies #[trigger] r[a].0@
        != #[trigger] r[b].0@ by {
        let ea = if a < i { a } else { a + 1 };
        let eb = if b < i { b } else { b + 1 };
        assert(r[a] == e[ea] && r[b] == e[eb]);
    }
    if i == e.len() - 1 {
        assert(r =~= d);
    } else {
        assert(r.drop_last() =~= d.remove(i));
        assert(r.last() == e.last());
        assert(d[i] == e[i]);
        lemma_map_of_remove(d, i);
        assert(e.last().0@ != e[i].0@);
    }
}

impl<V> NameMap<V> {
    #[verifier::type_invariant]
    spec fn inv(&self) -> bool {
        names_distinct(self.entries@)
    }

    /// An empty map.
    pub fn new() -> (m: Self)
        ensures
            m@ == Map::<Seq<char>, V>::empty(),
    {
        let m = NameMap { entries: Vec::new() };
        assert(m.entries@.len() == 0);
        m
    }

    /// The position of the entry for `key`, if there is one.
    fn position(&self, key: &String) -> (r: Option<usize>)
        ensures
            r matches Some(i) ==> i < self.entries@.len() && self.entries@[i as int].0@ == key@,
            r is None ==> forall|i: int|
                0 <= i < self.entries@.len() ==> #[trigger] self.entries@[i].0@ != key@,
    {
        let mut i: usize = 0;
        while i < self.entries.len()
            invariant
                i <= self.entries@.len(),
                forall|j: int| 0 <= j < i ==> #[trigger] self.entries@[j].0@ != key@,
            decreases self.entries.len() - i,
        {
            if self.entries[i].0 == *key {
                return Some(i);
            }
            i = i + 1;
        }
        None
    }

    /// The value stored under `key`, if any.
    pub fn get(&self, key: &String) -> (r: Option<&V>)
        ensures
            r matches Some(v) ==> self@.contains_key(key@) && self@[key@] == *v,
            r is None ==> !self@.contains_key(key@),
    {
        proof {
            use_type_invariant(self);
            lemma_map_of_dom(self.entries@, key@);
        }
        match self.position(key) {
            Some(i) => {
                proof {
                    lemma_map_of_value(self.entries@, i as int);
                }
                Some(&self.entries[i].1)
            },
            None => None,
        }
    }

    /// Whether a value is stored under `key`.
    pub fn contains_key(&self, key: &String) -> (r: bool)
        ensures
            r == self@.contains_key(key@),
    {
        self.get(key).is_some()
    }

    /// Stores `value` under `key`, replacing the value stored there before.
    pub fn insert(&mut self, key: String, value: V)
        ensures
            final(self)@ == old(self)@.insert(key@, value),
    {
        proof {
            use_type_invariant(&*self);
        }
        match self.position(&key) {
            Some(i) => {
                proof {
                    lemma_map_of_update(self.entries@, i as int, key, value);
                }
                let ghost e = self.entries@;
                let mut entries: Vec<(String, V)> = Vec::new();
                std::mem::swap(&mut entries, &mut self.entries);
                entries.set(i, (key, value));
                assert(entries@ == e.update(i as int, (key, value)));
                assert(names_distinct(entries@)) by {
                    assert forall|a: int, b: int|
                        0 <= a < entries@.len() && 0 <= b < entries@.len() && a != b implies
                        #[trigger] entries@[a].0@ != #[trigger] entries@[b].0@ by {
                        assert(entries@[a].0@ == e[a].0@);
                        assert(entries@[b].0@ == e[b].0@);
                    }
                }
                self.entries = entries;
            },
            None => {
                let ghost e = self.entries@;
                let mut entries: Vec<(String, V)> = Vec::new();
                std::mem::swap(&mut entries, &mut self.entries);
                entries.push((key, value));
                assert(entries@.drop_last() =~= e);
                assert(names_distinct(entries@)) by {
                    assert forall|a: int, b: int|
                        0 <= a < entries@.len() && 0 <= b < entries@.len() && a != b implies
                        #[trigger] entries@[a].0@ != #[trigger] entries@[b].0@ by {
                        if a < e.len() && b < e.len() {
                            assert(entries@[a] == e[a] && entries@[b] == e[b]);
                        } else if a < e.len() {
                            assert(entries@[a] == e[a]);
                        } else {
                            assert(entries@[b] == e[b]);
                        }
                    }
                }
                self.entries = entries;
            },
        }
    }

    /// Removes the entry for `key` and hands back its value, if there was one.
    pub fn remove(&mut self, key: &String) -> (r: Option<V>)
        ensures
            final(self)@ == old(self)@.remove(key@),
            r matches Some(v) ==> old(self)@.contains_key(key@) && old(self)@[key@] == v,
            r is None ==> !old(self)@.contains_key(key@),
    {
        proof {
            use_type_invariant(&*self);
            lemma_map_of_dom(self.entries@, key@);
        }
        match self.position(key) {
            Some(i) => {
                proof {
                    lemma_map_of_value(self.entries@, i as int);
                    lemma_map_of_remove(self.entries@, i as int);
                }
                let mut entries: Vec<(String, V)> = Vec::new();
                std::mem::swap(&mut entries, &mut self.entries);
                let (_, v) = entries.remove(i);
                self.entries = entries;
                Some(v)
            },
            None => {
                assert(old(self)@.remove(key@) =~= old(self)@);
                None
            },
        }
    }

    /// The entries of the map, each name once, in an unspecified order.
    pub fn entries(&self) -> (r: &Vec<(String, V)>)
        ensures
            names_distinct(r@),
            map_of(r@) == self@,
    {
        proof {
            use_type_invariant(self);
        }
        &self.entries
    }
}

} // verus!
