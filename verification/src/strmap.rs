use vstd::prelude::*;

verus! {

/// A map from text keys to values, kept as a list of entries in which no key
/// occurs twice. Entries keep the order in which their keys first arrived.
#[derive(Debug)]
pub struct StrMap<V> {
    entries: Vec<(String, V)>,
}

/// No two entries share a key.
spec fn distinct_keys<V>(entries: Seq<(String, V)>) -> bool {
    forall|i: int, j: int| 0 <= i < j < entries.len() ==> entries[i].0@ != entries[j].0@
}

/// Whether one of the entries has the key `k`.
spec fn has_key<V>(entries: Seq<(String, V)>, k: Seq<char>) -> bool {
    exists|i: int| 0 <= i < entries.len() && #[trigger] entries[i].0@ == k
}

/// The place of an entry with the key `k`, where there is one.
spec fn position<V>(entries: Seq<(String, V)>, k: Seq<char>) -> int {
    choose|i: int| 0 <= i < entries.len() && #[trigger] entries[i].0@ == k
}

/// The map that the entries stand for.
spec fn map_of<V>(entries: Seq<(String, V)>) -> Map<Seq<char>, V> {
    Map::new(|k: Seq<char>| has_key(entries, k), |k: Seq<char>| entries[position(entries, k)].1)
}

/// An entry with a new key, put at the end, binds the key in the map.
proof fn lemma_map_of_push<V>(entries: Seq<(String, V)>, key: String, value: V)
    requires
        distinct_keys(entries),
        !has_key(entries, key@),
    ensures
        distinct_keys(entries.push((key, value))),
        map_of(entries.push((key, value))) == map_of(entries).insert(key@, value),
{
    let grown = entries.push((key, value));
    assert forall|k: Seq<char>| map_of(grown).contains_key(k) <==> map_of(entries).insert(
        key@,
        value,
    ).contains_key(k) by {
        if has_key(entries, k) {
            let p = position(entries, k);
            assert(grown[p].0@ == k);
        }
        if k == key@ {
            assert(grown[entries.len() as int].0@ == k);
        }
    }
    assert forall|k: Seq<char>| map_of(grown).contains_key(k) implies map_of(grown)[k]
        == map_of(entries).insert(key@, value)[k] by {
    }
}

/// An entry put in place of one with the same key binds the key anew.
proof fn lemma_map_of_update<V>(entries: Seq<(String, V)>, at: int, key: String, value: V)
    requires
        distinct_keys(entries),
        0 <= at < entries.len(),
        entries[at].0@ == key@,
    ensures
        distinct_keys(entries.update(at, (key, value))),
        map_of(entries.update(at, (key, value))) == map_of(entries).insert(key@, value),
{
    let changed = entries.update(at, (key, value));
    assert forall|k: Seq<char>| map_of(changed).contains_key(k) <==> map_of(entries).insert(
        key@,
        value,
    ).contains_key(k) by {
        if has_key(entries, k) {
            let p = position(entries, k);
            assert(changed[p].0@ == k);
        }
    }
    assert forall|k: Seq<char>| map_of(changed).contains_key(k) implies map_of(changed)[k]
        == map_of(entries).insert(key@, value)[k] by {
        let p = position(changed, k);
        assert(entries[p].0@ == k);
    }
}

/// Without its last entry, the map lacks the key of that entry.
proof fn lemma_map_of_drop_last<V>(entries: Seq<(String, V)>)
    requires
        distinct_keys(entries),
        entries.len() > 0,
    ensures
        distinct_keys(entries.drop_last()),
        map_of(entries.drop_last()) == map_of(entries).remove(entries.last().0@),
{
    let rest = entries.drop_last();
    let last = entries.last();
    assert(rest.push(last) =~= entries);
}

impl<V> View for StrMap<V> {
    type V = Map<Seq<char>, V>;

    closed spec fn view(&self) -> Map<Seq<char>, V> {
        map_of(self.entries@)
    }
}

impl<V> StrMap<V> {
    /// What holds of every map: no key occurs twice among its entries.
    #[verifier::type_invariant]
    closed spec fn distinct(self) -> bool {
        distinct_keys(self.entries@)
    }

    /// The number of entries.
    pub closed spec fn spec_len(self) -> nat {
        self.entries@.len()
    }

    /// The key of the entry at `i`.
    pub closed spec fn spec_key(self, i: int) -> Seq<char> {
        self.entries@[i].0@
    }

    /// The value of the entry at `i`.
    pub closed spec fn spec_value(self, i: int) -> V {
        self.entries@[i].1
    }

    /// How the entries and the map relate: each entry is a pair of the map,
    /// and each key of the map is the key of exactly one entry.
    pub open spec fn wf(self) -> bool {
        &&& forall|i: int|
            0 <= i < self.spec_len() ==> {
                &&& self@.contains_key(#[trigger] self.spec_key(i))
                &&& self@[self.spec_key(i)] == self.spec_value(i)
            }
        &&& forall|k: Seq<char>| #[trigger]
            self@.contains_key(k) ==> exists|i: int|
                0 <= i < self.spec_len() && self.spec_key(i) == k
        &&& forall|i: int, j: int|
            0 <= i < j < self.spec_len() ==> self.spec_key(i) != self.spec_key(j)
    }

    /// The keys of the entries, in their order.
    pub open spec fn keys(self) -> Seq<Seq<char>> {
        Seq::new(self.spec_len(), |i: int| self.spec_key(i))
    }

    /// The keys of the first `upto` entries.
    pub open spec fn keys_upto(self, upto: int) -> Set<Seq<char>> {
        Set::new(|k: Seq<char>| exists|i: int| 0 <= i < upto && #[trigger] self.spec_key(i) == k)
    }

    /// A map without a key twice among its entries is well formed.
    proof fn lemma_wf(self)
        requires
            self.distinct(),
        ensures
            self.wf(),
    {
        assert forall|k: Seq<char>| #[trigger] self@.contains_key(k) implies exists|i: int|
            0 <= i < self.spec_len() && self.spec_key(i) == k by {
            let p = position(self.entries@, k);
            assert(0 <= p < self.spec_len() && self.spec_key(p) == k);
        }
    }

    /// An empty map.
    pub fn new() -> (m: Self)
        ensures
            m@ == Map::<Seq<char>, V>::empty(),
            m.spec_len() == 0,
            m.wf(),
    {
        StrMap { entries: Vec::new() }
    }

    /// The number of entries.
    pub fn len(&self) -> (n: usize)
        ensures
            n == self.spec_len(),
            self.wf(),
    {
        proof {
            use_type_invariant(self);
            self.lemma_wf();
        }
        self.entries.len()
    }

    /// The key of the entry at `i`.
    pub fn key(&self, i: usize) -> (k: &String)
        requires
            i < self.spec_len(),
        ensures
            k@ == self.spec_key(i as int),
            self@.contains_key(k@),
            self.wf(),
    {
        proof {
            use_type_invariant(self);
            self.lemma_wf();
        }
        &self.entries[i].0
    }

    /// The value of the entry at `i`.
    pub fn value(&self, i: usize) -> (v: &V)
        requires
            i < self.spec_len(),
        ensures
            *v == self.spec_value(i as int),
            *v == self@[self.spec_key(i as int)],
            self.wf(),
    {
        proof {
            use_type_invariant(self);
            self.lemma_wf();
        }
        &self.entries[i].1
    }

    /// Where `key` is among the entries, if anywhere.
    pub fn find(&self, key: &String) -> (at: Option<usize>)
        ensures
            self.wf(),
            match at {
                Some(i) => i < self.spec_len() && self.spec_key(i as int) == key@,
                None => !self@.contains_key(key@),
            },
    {
        proof {
            use_type_invariant(self);
            self.lemma_wf();
        }
        let mut i: usize = 0;
        while i < self.entries.len()
            invariant
                self.wf(),
                i <= self.entries@.len(),
                forall|j: int| 0 <= j < i ==> self.entries@[j].0@ != key@,
            decreases self.entries@.len() - i,
        {
            if self.entries[i].0 == *key {
                return Some(i);
            }
            i += 1;
        }
        None
    }

    /// The value bound to `key`, if any.
    pub fn lookup(&self, key: &String) -> (value: Option<&V>)
        ensures
            self.wf(),
            value == (if self@.contains_key(key@) {
                Some(&self@[key@])
            } else {
                None
            }),
    {
        match self.find(key) {
            Some(i) => Some(self.value(i)),
            None => None,
        }
    }

    /// Whether `key` is bound.
    pub fn contains_key(&self, key: &str) -> (found: bool)
        ensures
            found == self@.contains_key(key@),
    {
        let owned = key.to_owned();
        self.find(&owned).is_some()
    }

    /// The value bound to `key`, if any.
    pub fn get(&self, key: &str) -> (value: Option<&V>)
        ensures
            value == (if self@.contains_key(key@) {
                Some(&self@[key@])
            } else {
                None
            }),
    {
        let owned = key.to_owned();
        match self.find(&owned) {
            Some(i) => Some(self.value(i)),
            None => None,
        }
    }

    /// Binds `key` to `value`. A key already bound keeps its place among the
    /// entries; a new key goes to the end.
    pub fn insert(&mut self, key: String, value: V)
        ensures
            final(self)@ == old(self)@.insert(key@, value),
            final(self).keys() == (if old(self)@.contains_key(key@) {
                old(self).keys()
            } else {
                old(self).keys().push(key@)
            }),
            final(self).wf(),
    {
        let at = self.find(&key);
        proof {
            use_type_invariant(&*self);
        }
        let mut entries: Vec<(String, V)> = Vec::new();
        core::mem::swap(&mut self.entries, &mut entries);
        match at {
            Some(i) => {
                proof {
                    lemma_map_of_update(entries@, i as int, key, value);
                }
                entries[i] = (key, value);
            },
            None => {
                proof {
                    lemma_map_of_push(entries@, key, value);
                }
                entries.push((key, value));
            },
        }
        core::mem::swap(&mut self.entries, &mut entries);
        proof {
            self.lemma_wf();
        }
    }

    /// Takes the last entry out, if there is one.
    pub fn pop(&mut self) -> (entry: Option<(String, V)>)
        ensures
            final(self).wf(),
            match entry {
                Some((key, value)) => {
                    &&& old(self)@.contains_key(key@)
                    &&& old(self)@[key@] == value
                    &&& old(self).keys().last() == key@
                    &&& final(self).keys() == old(self).keys().drop_last()
                    &&& final(self)@ == old(self)@.remove(key@)
                    &&& final(self).spec_len() + 1 == old(self).spec_len()
                },
                None => {
                    &&& old(self).spec_len() == 0
                    &&& final(self).spec_len() == 0
                    &&& final(self)@ == old(self)@
                },
            },
    {
        proof {
            use_type_invariant(&*self);
        }
        let mut entries: Vec<(String, V)> = Vec::new();
        core::mem::swap(&mut self.entries, &mut entries);
        proof {
            if entries@.len() > 0 {
                lemma_map_of_drop_last(entries@);
            }
        }
        let entry = entries.pop();
        core::mem::swap(&mut self.entries, &mut entries);
        proof {
            self.lemma_wf();
        }
        entry
    }
}

impl<V: View> StrMap<V> {
    /// The map with each value replaced by its own view.
    pub open spec fn deep(self) -> Map<Seq<char>, V::V> {
        self@.map_values(|v: V| v@)
    }
}

/// Binding a key in a map binds it, to the value's view, in the map of views.
pub proof fn lemma_deep_insert<V: View>(m: Map<Seq<char>, V>, key: Seq<char>, value: V)
    ensures
        m.insert(key, value).map_values(|v: V| v@) == m.map_values(|v: V| v@).insert(
            key,
            value@,
        ),
{
}

/// A set of texts, kept as a list in which none occurs twice, in the order
/// in which they first arrived.
#[derive(Debug)]
pub struct StrSet {
    names: StrMap<()>,
}

impl View for StrSet {
    type V = Set<Seq<char>>;

    closed spec fn view(&self) -> Set<Seq<char>> {
        self.names@.dom()
    }
}

impl StrSet {
    /// The number of texts in the set.
    pub closed spec fn spec_len(self) -> nat {
        self.names.spec_len()
    }

    /// The text at `i`.
    pub closed spec fn spec_name(self, i: int) -> Seq<char> {
        self.names.spec_key(i)
    }

    /// The texts of the set, in the order of the list.
    pub open spec fn names(self) -> Seq<Seq<char>> {
        Seq::new(self.spec_len(), |i: int| self.spec_name(i))
    }

    /// How the list and the set relate: the set holds the listed texts and
    /// no others, and the list holds none twice.
    pub open spec fn wf(self) -> bool {
        &&& forall|i: int| 0 <= i < self.spec_len() ==> self@.contains(#[trigger] self.spec_name(i))
        &&& forall|k: Seq<char>| #[trigger]
            self@.contains(k) ==> exists|i: int| 0 <= i < self.spec_len() && self.spec_name(i) == k
        &&& forall|i: int, j: int|
            0 <= i < j < self.spec_len() ==> self.spec_name(i) != self.spec_name(j)
    }

    /// A set over a well-formed list is well formed.
    proof fn lemma_wf(self)
        requires
            self.names.wf(),
        ensures
            self.wf(),
    {
        assert forall|k: Seq<char>| #[trigger] self@.contains(k) implies exists|i: int|
            0 <= i < self.spec_len() && self.spec_name(i) == k by {
            let i = choose|i: int| 0 <= i < self.names.spec_len() && self.names.spec_key(i) == k;
            assert(0 <= i < self.spec_len() && self.spec_name(i) == k);
        }
    }

    /// An empty set.
    pub fn new() -> (set: Self)
        ensures
            set@ == Set::<Seq<char>>::empty(),
            set.wf(),
    {
        let set = StrSet { names: StrMap::new() };
        set
    }

    /// The number of texts in the set.
    pub fn len(&self) -> (n: usize)
        ensures
            n == self.spec_len(),
            self.wf(),
    {
        let n = self.names.len();
        proof {
            self.lemma_wf();
        }
        n
    }

    /// The text at `i`.
    pub fn name(&self, i: usize) -> (name: &String)
        requires
            i < self.spec_len(),
        ensures
            name@ == self.spec_name(i as int),
            self@.contains(name@),
            self.wf(),
    {
        let name = self.names.key(i);
        proof {
            self.lemma_wf();
        }
        name
    }

    /// Whether `name` is in the set.
    pub fn contains(&self, name: &str) -> (found: bool)
        ensures
            found == self@.contains(name@),
    {
        self.names.contains_key(name)
    }

    /// Puts `name` into the set: at the end of the list, unless it is there.
    pub fn insert(&mut self, name: String)
        ensures
            final(self)@ == old(self)@.insert(name@),
            final(self).names() == (if old(self)@.contains(name@) {
                old(self).names()
            } else {
                old(self).names().push(name@)
            }),
            final(self).wf(),
    {
        let ghost listed = self.names();
        if self.names.find(&name).is_none() {
            self.names.insert(name, ());
            proof {
                assert(listed =~= old(self).names.keys());
            }
        }
        proof {
            self.lemma_wf();
        }
    }
}

} // verus!
