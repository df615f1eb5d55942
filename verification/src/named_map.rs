//! A map from names to values, kept as a list of entries with distinct names.

use vstd::prelude::*;

verus! {

/// The map that a list of entries denotes: a later entry for a name
/// replaces an earlier one.
pub open spec fn map_of<V>(s: Seq<(String, V)>) -> Map<Seq<char>, V>
    decreases s.len(),
{
    if s.len() == 0 {
        Map::empty()
    } else {
        map_of(s.drop_last()).insert(s.last().0@, s.last().1)
    }
}

/// No name occurs twice in the list.
pub open spec fn unique_keys<V>(s: Seq<(String, V)>) -> bool {
    forall|i: int, j: int|
        0 <= i < s.len() && 0 <= j < s.len() && i != j ==> #[trigger] s[i].0@ != #[trigger] s[j].0@
}

/// A name is mapped exactly when some entry carries it.
pub proof fn lemma_map_of_dom<V>(s: Seq<(String, V)>, k: Seq<char>)
    ensures
        map_of(s).dom().contains(k) <==> exists|i: int| 0 <= i < s.len() && #[trigger] s[i].0@ == k,
    decreases s.len(),
{
    if s.len() > 0 {
        let d = s.drop_last();
        lemma_map_of_dom(d, k);
        if map_of(s).dom().contains(k) {
            if k == s.last().0@ {
                assert(s[s.len() - 1].0@ == k);
            } else {
                let i = choose|i: int| 0 <= i < d.len() && #[trigger] d[i].0@ == k;
                assert(s[i].0@ == k);
            }
        }
        if exists|i: int| 0 <= i < s.len() && #[trigger] s[i].0@ == k {
            let i = choose|i: int| 0 <= i < s.len() && #[trigger] s[i].0@ == k;
            if i < s.len() - 1 {
                assert(d[i].0@ == k);
            }
        }
    }
}

/// With distinct names, each entry's value is what the map gives for its name.
pub proof fn lemma_map_of_value<V>(s: Seq<(String, V)>, i: int)
    requires
        unique_keys(s),
        0 <= i < s.len(),
    ensures
        map_of(s).dom().contains(s[i].0@),
        map_of(s)[s[i].0@] == s[i].1,
    decreases s.len(),
{
    let d = s.drop_last();
    if i < s.len() - 1 {
        assert(unique_keys(d)) by {
            assert forall|a: int, b: int|
                0 <= a < d.len() && 0 <= b < d.len() && a != b implies #[trigger] d[a].0@
                != #[trigger] d[b].0@ by {
                assert(d[a] == s[a] && d[b] == s[b]);
            }
        }
        lemma_map_of_value(d, i);
        assert(s[i] == d[i]);
        assert(s[i].0@ != s[s.len() - 1].0@);
    }
}

/// With distinct names, the map has as many names as the list has entries.
pub proof fn lemma_map_of_len<V>(s: Seq<(String, V)>)
    requires
        unique_keys(s),
    ensures
        map_of(s).dom().finite(),
        map_of(s).dom().len() == s.len(),
    decreases s.len(),
{
    if s.len() > 0 {
        let d = s.drop_last();
        assert(unique_keys(d)) by {
            assert forall|a: int, b: int|
                0 <= a < d.len() && 0 <= b < d.len() && a != b implies #[trigger] d[a].0@
                != #[trigger] d[b].0@ by {
                assert(d[a] == s[a] && d[b] == s[b]);
            }
        }
        lemma_map_of_len(d);
        lemma_map_of_dom(d, s.last().0@);
        if map_of(d).dom().contains(s.last().0@) {
            let i = choose|i: int| 0 <= i < d.len() && #[trigger] d[i].0@ == s.last().0@;
            assert(s[i] == d[i]);
            assert(s[i].0@ == s[s.len() - 1].0@);
        }
    }
}

/// Appending an entry inserts its name and value.
pub proof fn lemma_map_of_push<V>(s: Seq<(String, V)>, e: (String, V))
    ensures
        map_of(s.push(e)) == map_of(s).insert(e.0@, e.1),
{
    assert(s.push(e).drop_last() =~= s);
}


/// Replacing the entry at `i` by one with the same name rebinds that name.
pub proof fn lemma_map_of_update<V>(s: Seq<(String, V)>, i: int, e: (String, V))
    requires
        unique_keys(s),
        0 <= i < s.len(),
        s[i].0@ == e.0@,
    ensures
        unique_keys(s.update(i, e)),
        map_of(s.update(i, e)) == map_of(s).insert(e.0@, e.1),
{
    let t = s.update(i, e);
    assert(unique_keys(t)) by {
        assert forall|a: int, b: int|
            0 <= a < t.len() && 0 <= b < t.len() && a != b implies #[trigger] t[a].0@
            != #[trigger] t[b].0@ by {
            assert(t[a].0@ == s[a].0@ && t[b].0@ == s[b].0@);
        }
    }
    let m = map_of(s).insert(e.0@, e.1);
    assert forall|k: Seq<char>| #[trigger] map_of(t).dom().contains(k) <==> m.dom().contains(k) by {
        lemma_map_of_dom(t, k);
        lemma_map_of_dom(s, k);
        if exists|j: int| 0 <= j < t.len() && #[trigger] t[j].0@ == k {
            let j = choose|j: int| 0 <= j < t.len() && #[trigger] t[j].0@ == k;
            assert(s[j].0@ == k);
        }
        if exists|j: int| 0 <= j < s.len() && #[trigger] s[j].0@ == k {
            let j = choose|j: int| 0 <= j < s.len() && #[trigger] s[j].0@ == k;
            assert(t[j].0@ == k);
        }
    }
    assert forall|k: Seq<char>| #[trigger] map_of(t).dom().contains(k) implies map_of(t)[k] == m[k] by {
        lemma_map_of_dom(t, k);
        let j = choose|j: int| 0 <= j < t.len() && #[trigger] t[j].0@ == k;
        lemma_map_of_value(t, j);
        if j != i {
            assert(t[j] == s[j]);
            lemma_map_of_value(s, j);
        }
    }
    assert(map_of(t) =~= m);
}

/// Removing the entry at `i` removes its name.
pub proof fn lemma_map_of_remove<V>(s: Seq<(String, V)>, i: int)
    requires
        unique_keys(s),
        0 <= i < s.len(),
    ensures
        unique_keys(s.remove(i)),
        map_of(s.remove(i)) == map_of(s).remove(s[i].0@),
{
    let t = s.remove(i);
    assert(forall|j: int| 0 <= j < i ==> #[trigger] t[j] == s[j]);
    assert(forall|j: int| i <= j < t.len() ==> #[trigger] t[j] == s[j + 1]);
    assert(unique_keys(t)) by {
        assert forall|a: int, b: int|
            0 <= a < t.len() && 0 <= b < t.len() && a != b implies #[trigger] t[a].0@
            != #[trigger] t[b].0@ by {
            let sa = if a < i { a } else { a + 1 };
            let sb = if b < i { b } else { b + 1 };
            assert(t[a] == s[sa] && t[b] == s[sb]);
        }
    }
    let m = map_of(s).remove(s[i].0@);
    assert forall|k: Seq<char>| #[trigger] map_of(t).dom().contains(k) <==> m.dom().contains(k) by {
        lemma_map_of_dom(t, k);
        lemma_map_of_dom(s, k);
        if exists|j: int| 0 <= j < t.len() && #[trigger] t[j].0@ == k {
            let j = choose|j: int| 0 <= j < t.len() && #[trigger] t[j].0@ == k;
            let sj = if j < i { j } else { j + 1 };
            assert(s[sj].0@ == k);
            assert(sj != i);
        }
        if m.dom().contains(k) {
            let j = choose|j: int| 0 <= j < s.len() && #[trigger] s[j].0@ == k;
            assert(j != i);
            let tj = if j < i { j } else { j - 1 };
            assert(t[tj].0@ == k);
        }
    }
    assert forall|k: Seq<char>| #[trigger] map_of(t).dom().contains(k) implies map_of(t)[k] == m[k] by {
        lemma_map_of_dom(t, k);
        let j = choose|j: int| 0 <= j < t.len() && #[trigger] t[j].0@ == k;
        lemma_map_of_value(t, j);
        let sj = if j < i { j } else { j + 1 };
        assert(t[j] == s[sj]);
        lemma_map_of_value(s, sj);
    }
    assert(map_of(t) =~= m);
}


/// No two names of the list are equal.
pub open spec fn distinct_names(s: Seq<String>) -> bool {
    forall|i: int, j: int| 0 <= i < s.len() && 0 <= j < s.len() && i != j ==> #[trigger] s[i]@ != #[trigger] s[j]@
}

/// A map from names to values. Entries keep the order in which their names
/// were first inserted; no name occurs twice.
pub struct NamedMap<V> {
    names: Vec<String>,
    values: Vec<V>,
}

impl<V> NamedMap<V> {
    /// The entries in order: each name with its value.
    pub closed spec fn entries(self) -> Seq<(String, V)> {
        Seq::new(self.names@.len(), |i: int| (self.names@[i], self.values@[i]))
    }
}

impl<V> View for NamedMap<V> {
    type V = Map<Seq<char>, V>;

    closed spec fn view(&self) -> Map<Seq<char>, V> {
        map_of(self.entries())
    }
}

impl<V> NamedMap<V> {
    #[verifier::type_invariant]
    spec fn well_formed(self) -> bool {
        &&& self.names@.len() == self.values@.len()
        &&& distinct_names(self.names@)
    }

    /// The entries of a well-formed map carry distinct names.
    proof fn lemma_entries(self)
        requires
            self.well_formed(),
        ensures
            self.entries().len() == self.names@.len(),
            forall|i: int| 0 <= i < self.names@.len() ==> #[trigger] self.entries()[i] == (self.names@[i], self.values@[i]),
            unique_keys(self.entries()),
    {
        let e = self.entries();
        assert forall|i: int, j: int| 0 <= i < e.len() && 0 <= j < e.len() && i != j implies #[trigger] e[i].0@ != #[trigger] e[j].0@ by {
            assert(self.names@[i]@ != self.names@[j]@);
        }
    }

    /// An empty map.
    pub fn new() -> (m: Self)
        ensures
            m@ == Map::<Seq<char>, V>::empty(),
            m.entries() == Seq::<(String, V)>::empty(),
    {
        let m = NamedMap { names: Vec::new(), values: Vec::new() };
        proof {
            assert(m.entries() =~= Seq::<(String, V)>::empty());
        }
        m
    }

    /// Position of the entry named `name`, if there is one.
    fn position(&self, name: &str) -> (r: Option<usize>)
        ensures
            match r {
                Some(i) => i < self.names@.len() && self.names@[i as int]@ == name@,
                None => forall|j: int| 0 <= j < self.names@.len() ==> #[trigger] self.names@[j]@ != name@,
            },
    {
        let key: String = name.to_owned();
        let mut i: usize = 0;
        while i < self.names.len()
            invariant
                i <= self.names@.len(),
                key@ == name@,
                forall|j: int| 0 <= j < i ==> #[trigger] self.names@[j]@ != name@,
            decreases self.names@.len() - i,
        {
            if self.names[i] == key {
                return Some(i);
            }
            i = i + 1;
        }
        None
    }

    /// Number of names in the map; the entries carry distinct names and
    /// denote the map.
    pub fn len(&self) -> (n: usize)
        ensures
            self@.dom().finite(),
            n == self@.dom().len(),
            n == self.entries().len(),
            unique_keys(self.entries()),
            map_of(self.entries()) == self@,
    {
        proof {
            use_type_invariant(self);
            self.lemma_entries();
            lemma_map_of_len(self.entries());
        }
        self.names.len()
    }

    /// Whether the map holds no name.
    pub fn is_empty(&self) -> (b: bool)
        ensures
            b <==> self@.dom().len() == 0,
    {
        self.len() == 0
    }

    /// Whether `name` is mapped.
    pub fn contains_key(&self, name: &str) -> (b: bool)
        ensures
            b == self@.contains_key(name@),
    {
        proof {
            use_type_invariant(self);
            self.lemma_entries();
            lemma_map_of_dom(self.entries(), name@);
        }
        match self.position(name) {
            Some(i) => {
                proof {
                    lemma_map_of_value(self.entries(), i as int);
                }
                true
            },
            None => {
                proof {
                    if self@.contains_key(name@) {
                        let j = choose|j: int| 0 <= j < self.entries().len() && #[trigger] self.entries()[j].0@ == name@;
                        assert(self.names@[j]@ == name@);
                    }
                }
                false
            },
        }
    }

    /// The name of the entry at `i`.
    pub fn name_at(&self, i: usize) -> (r: &String)
        requires
            i < self.entries().len(),
        ensures
            *r == self.entries()[i as int].0,
    {
        proof {
            use_type_invariant(self);
            self.lemma_entries();
        }
        &self.names[i]
    }

    /// The value of the entry at `i`.
    pub fn value_at(&self, i: usize) -> (r: &V)
        requires
            i < self.entries().len(),
        ensures
            *r == self.entries()[i as int].1,
    {
        proof {
            use_type_invariant(self);
            self.lemma_entries();
        }
        &self.values[i]
    }

    /// The value mapped to `name`, if any.
    pub fn get(&self, name: &str) -> (r: Option<&V>)
        ensures
            r == (if self@.contains_key(name@) { Some(&self@[name@]) } else { None }),
    {
        proof {
            use_type_invariant(self);
            self.lemma_entries();
            lemma_map_of_dom(self.entries(), name@);
        }
        match self.position(name) {
            Some(i) => {
                proof {
                    lemma_map_of_value(self.entries(), i as int);
                }
                Some(&self.values[i])
            },
            None => {
                proof {
                    if self@.contains_key(name@) {
                        let j = choose|j: int| 0 <= j < self.entries().len() && #[trigger] self.entries()[j].0@ == name@;
                        assert(self.names@[j]@ == name@);
                    }
                }
                None
            },
        }
    }

    /// The value of the entry at `i`, to change in place.
    fn value_mut(&mut self, i: usize) -> (v: &mut V)
        requires
            i < old(self).entries().len(),
        ensures
            *v == old(self).entries()[i as int].1,
            final(self).entries() == old(self).entries().update(i as int, (old(self).entries()[i as int].0, *final(v))),
    {
        proof {
            use_type_invariant(&*self);
            self.lemma_entries();
        }
        &mut self.values[i]
    }

    /// The value mapped to `name`, if any, to change in place.
    pub fn get_mut(&mut self, name: &str) -> (r: Option<&mut V>)
        ensures
            match r {
                Some(v) => {
                    &&& old(self)@.contains_key(name@)
                    &&& *v == old(self)@[name@]
                    &&& final(self)@ == old(self)@.insert(name@, *final(v))
                },
                None => !old(self)@.contains_key(name@) && final(self)@ == old(self)@,
            },
    {
        proof {
            use_type_invariant(&*self);
            self.lemma_entries();
            lemma_map_of_dom(self.entries(), name@);
        }
        match self.position(name) {
            Some(i) => {
                proof {
                    lemma_map_of_value(self.entries(), i as int);
                }
                let v = self.value_mut(i);
                proof {
                    let e = (old(self).entries()[i as int].0, *final(v));
                    lemma_map_of_update(old(self).entries(), i as int, e);
                }
                Some(v)
            },
            None => {
                proof {
                    if self@.contains_key(name@) {
                        let j = choose|j: int| 0 <= j < self.entries().len() && #[trigger] self.entries()[j].0@ == name@;
                        assert(self.names@[j]@ == name@);
                    }
                }
                None
            },
        }
    }

    /// Binds `name` to `value`, replacing any earlier value of that name.
    pub fn insert(&mut self, name: String, value: V)
        ensures
            final(self)@ == old(self)@.insert(name@, value),
    {
        proof {
            use_type_invariant(&*self);
            self.lemma_entries();
        }
        match self.position(name.as_str()) {
            Some(i) => {
                let ghost e = (self.names@[i as int], value);
                proof {
                    lemma_map_of_update(self.entries(), i as int, e);
                }
                let mut m: NamedMap<V> = NamedMap::new();
                std::mem::swap(self, &mut m);
                let ghost e0 = m.entries();
                let NamedMap { names, mut values } = m;
                values.set(i, value);
                let updated = NamedMap { names, values };
                proof {
                    assert(updated.entries() =~= e0.update(i as int, e));
                }
                *self = updated;
            },
            None => {
                let mut m: NamedMap<V> = NamedMap::new();
                std::mem::swap(self, &mut m);
                proof {
                    use_type_invariant(&m);
                    lemma_map_of_push(m.entries(), (name, value));
                }
                let NamedMap { mut names, mut values } = m;
                let ghost e0 = Seq::new(names@.len(), |i: int| (names@[i], values@[i]));
                names.push(name);
                values.push(value);
                let filled = NamedMap { names, values };
                proof {
                    assert(filled.entries() =~= e0.push((name, value)));
                }
                *self = filled;
            },
        }
    }

    /// Removes the binding of `name` and hands back its value, if any.
    pub fn remove(&mut self, name: &str) -> (r: Option<V>)
        ensures
            r == (if old(self)@.contains_key(name@) { Some(old(self)@[name@]) } else { None }),
            final(self)@ == old(self)@.remove(name@),
    {
        proof {
            use_type_invariant(&*self);
            self.lemma_entries();
            lemma_map_of_dom(self.entries(), name@);
        }
        match self.position(name) {
            Some(i) => {
                proof {
                    lemma_map_of_value(self.entries(), i as int);
                    lemma_map_of_remove(self.entries(), i as int);
                }
                let mut m: NamedMap<V> = NamedMap::new();
                std::mem::swap(self, &mut m);
                let ghost e0 = m.entries();
                let NamedMap { mut names, mut values } = m;
                names.remove(i);
                let v = values.remove(i);
                let rest = NamedMap { names, values };
                proof {
                    assert(rest.entries() =~= e0.remove(i as int));
                }
                *self = rest;
                Some(v)
            },
            None => {
                proof {
                    if self@.contains_key(name@) {
                        let j = choose|j: int| 0 <= j < self.entries().len() && #[trigger] self.entries()[j].0@ == name@;
                        assert(self.names@[j]@ == name@);
                    }
                    assert(old(self)@.remove(name@) =~= old(self)@);
                }
                None
            },
        }
    }

    /// All names, each once, in the order they were first inserted.
    pub fn keys(&self) -> (r: Vec<String>)
        ensures
            r@.len() == self@.dom().len(),
            forall|i: int, j: int| 0 <= i < r@.len() && 0 <= j < r@.len() && i != j ==> #[trigger] r@[i]@ != #[trigger] r@[j]@,
            forall|i: int| 0 <= i < r@.len() ==> self@.contains_key(#[trigger] r@[i]@),
            forall|k: Seq<char>| #[trigger] self@.contains_key(k) ==> exists|i: int| 0 <= i < r@.len() && r@[i]@ == k,
    {
        proof {
            use_type_invariant(self);
            self.lemma_entries();
            lemma_map_of_len(self.entries());
        }
        let mut r: Vec<String> = Vec::new();
        let mut i: usize = 0;
        while i < self.names.len()
            invariant
                i <= self.names@.len(),
                r@.len() == i,
                forall|j: int| 0 <= j < i ==> (#[trigger] r@[j])@ == self.names@[j]@,
            decreases self.names@.len() - i,
        {
            r.push(self.names[i].clone());
            i = i + 1;
        }
        proof {
            assert forall|j: int| 0 <= j < r@.len() implies self@.contains_key(#[trigger] r@[j]@) by {
                lemma_map_of_value(self.entries(), j);
            }
            assert forall|k: Seq<char>| #[trigger] self@.contains_key(k) implies exists|i: int| 0 <= i < r@.len() && r@[i]@ == k by {
                lemma_map_of_dom(self.entries(), k);
                let j = choose|j: int| 0 <= j < self.entries().len() && #[trigger] self.entries()[j].0@ == k;
                assert(r@[j]@ == k);
            }
        }
        r
    }

    /// All entries in order, each name once, as pairs of borrowed name and
    /// value.
    pub fn iter(&self) -> (r: Vec<(&String, &V)>)
        ensures
            r@.len() == self.entries().len(),
            forall|i: int| 0 <= i < r@.len() ==> *(#[trigger] r@[i]).0 == self.entries()[i].0 && *r@[i].1 == self.entries()[i].1,
    {
        proof {
            use_type_invariant(self);
            self.lemma_entries();
        }
        let mut r: Vec<(&String, &V)> = Vec::new();
        let mut i: usize = 0;
        while i < self.names.len()
            invariant
                i <= self.names@.len(),
                self.names@.len() == self.values@.len(),
                self.entries().len() == self.names@.len(),
                forall|j: int| 0 <= j < self.names@.len() ==> #[trigger] self.entries()[j] == (self.names@[j], self.values@[j]),
                r@.len() == i,
                forall|j: int| 0 <= j < i ==> *(#[trigger] r@[j]).0 == self.entries()[j].0 && *r@[j].1 == self.entries()[j].1,
            decreases self.names@.len() - i,
        {
            r.push((&self.names[i], &self.values[i]));
            i = i + 1;
        }
        r
    }
}

} // verus!
