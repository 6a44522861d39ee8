//! A map from text keys to values, kept as a list of entries with distinct
//! keys.
use vstd::prelude::*;

verus! {

broadcast use vstd::string::group_string_axioms;

/// The map that a list of entries describes: a later entry for a key
/// replaces an earlier one.
pub open spec fn entries_map<V>(entries: Seq<(String, V)>) -> Map<Seq<char>, V>
    decreases entries.len(),
{
    if entries.len() == 0 {
        Map::empty()
    } else {
        entries_map(entries.drop_last()).insert(entries.last().0@, entries.last().1)
    }
}

/// No key occurs twice.
pub open spec fn keys_distinct<V>(entries: Seq<(String, V)>) -> bool {
    forall|i: int, j: int|
        0 <= i < j < entries.len() ==> #[trigger] entries[i].0@ != #[trigger] entries[j].0@
}

proof fn lemma_entries_map_lookup<V>(entries: Seq<(String, V)>, k: Seq<char>)
    requires
        keys_distinct(entries),
    ensures
        entries_map(entries).contains_key(k) <==> exists|i: int|
            0 <= i < entries.len() && #[trigger] entries[i].0@ == k,
        forall|i: int|
            0 <= i < entries.len() && #[trigger] entries[i].0@ == k ==> entries_map(entries)[k]
                == entries[i].1,
    decreases entries.len(),
{
    if entries.len() > 0 {
        let prev = entries.drop_last();
        assert(keys_distinct(prev));
        lemma_entries_map_lookup(prev, k);
        if entries_map(entries).contains_key(k) && entries.last().0@ != k {
            let i = choose|i: int| 0 <= i < prev.len() && #[trigger] prev[i].0@ == k;
            assert(entries[i].0@ == k);
        }
        if entries.last().0@ == k {
            assert(entries[entries.len() - 1].0@ == k);
        } else {
            assert forall|i: int| 0 <= i < entries.len() && #[trigger] entries[i].0@ == k implies prev[i].0@
                == k by {
                assert(i != entries.len() - 1);
            }
        }
    }
}

proof fn lemma_entries_map_len<V>(entries: Seq<(String, V)>)
    requires
        keys_distinct(entries),
    ensures
        entries_map(entries).dom().finite(),
        entries_map(entries).dom().len() == entries.len(),
    decreases entries.len(),
{
    if entries.len() > 0 {
        let prev = entries.drop_last();
        assert(keys_distinct(prev));
        lemma_entries_map_len(prev);
        lemma_entries_map_lookup(prev, entries.last().0@);
        if entries_map(prev).contains_key(entries.last().0@) {
            let i = choose|i: int| 0 <= i < prev.len() && #[trigger] prev[i].0@ == entries.last().0@;
            assert(entries[i].0@ == entries[entries.len() - 1].0@);
        }
    }
}

proof fn lemma_entries_map_update<V>(entries: Seq<(String, V)>, i: int, key: String, value: V)
    requires
        keys_distinct(entries),
        0 <= i < entries.len(),
        entries[i].0@ == key@,
    ensures
        entries_map(entries.update(i, (key, value))) == entries_map(entries).insert(key@, value),
    decreases entries.len(),
{
    let upd = entries.update(i, (key, value));
    if i == entries.len() - 1 {
        assert(upd.drop_last() == entries.drop_last());
        let prev = entries.drop_last();
        assert(keys_distinct(prev));
        lemma_entries_map_lookup(prev, key@);
        assert(!entries_map(prev).contains_key(key@)) by {
            if entries_map(prev).contains_key(key@) {
                let j = choose|j: int| 0 <= j < prev.len() && #[trigger] prev[j].0@ == key@;
                assert(entries[j].0@ == entries[i].0@);
            }
        }
        assert(entries_map(upd) =~= entries_map(entries).insert(key@, value));
    } else {
        let prev = entries.drop_last();
        assert(keys_distinct(prev));
        lemma_entries_map_update(prev, i, key, value);
        assert(upd.drop_last() == prev.update(i, (key, value)));
        assert(entries[entries.len() - 1].0@ != key@);
        assert(entries_map(upd) =~= entries_map(entries).insert(key@, value));
    }
}

/// The map after `entry(key).or_insert(value)`: unchanged when it already
/// holds `key`.
pub open spec fn or_insert_spec<V>(m: Map<Seq<char>, V>, key: Seq<char>, value: V) -> Map<
    Seq<char>,
    V,
> {
    if m.contains_key(key) {
        m
    } else {
        m.insert(key, value)
    }
}

/// A map from text keys to values, where `std::collections::HashMap<String, _>`
/// would otherwise stand. vstd's `HashMap` contracts hold only for key types
/// known to obey `obeys_key_model`, which vstd grants to primitive types and
/// their boxes but not to `String`; claiming it for `String` would take an
/// `assume`. A list of entries with distinct keys states and proves the same
/// map, and `insert` replaces the value of a key already present, as
/// `HashMap::insert` does.
#[derive(Debug)]
pub struct KeyedMap<V> {
    entries: Vec<(String, V)>,
}

impl<V> View for KeyedMap<V> {
    type V = Map<Seq<char>, V>;

    closed spec fn view(&self) -> Map<Seq<char>, V> {
        entries_map(self.entries@)
    }
}

impl<V> KeyedMap<V> {
    #[verifier::type_invariant]
    spec fn well_formed(self) -> bool {
        keys_distinct(self.entries@)
    }

    /// An empty map.
    pub fn new() -> (m: Self)
        ensures
            m@ == Map::<Seq<char>, V>::empty(),
    {
        KeyedMap { entries: Vec::new() }
    }

    /// The number of keys.
    pub fn len(&self) -> (n: usize)
        ensures
            self@.dom().finite(),
            n == self@.dom().len(),
    {
        proof {
            use_type_invariant(self);
            lemma_entries_map_len(self.entries@);
        }
        self.entries.len()
    }

    /// Whether the map holds no key.
    pub fn is_empty(&self) -> (r: bool)
        ensures
            r == (self@.dom().len() == 0),
    {
        self.len() == 0
    }

    /// The position of `key` among the entries.
    fn position(&self, key: &String) -> (r: Option<usize>)
        ensures
            match r {
                Some(i) => i < self.entries@.len() && self.entries@[i as int].0@ == key@,
                None => forall|i: int|
                    0 <= i < self.entries@.len() ==> #[trigger] self.entries@[i].0@ != key@,
            },
    {
        let n = self.entries.len();
        for i in 0..n
            invariant
                n == self.entries@.len(),
                forall|k: int| 0 <= k < i ==> #[trigger] self.entries@[k].0@ != key@,
        {
            if self.entries[i].0 == *key {
                return Some(i);
            }
        }
        None
    }

    /// The value stored for `key`, if any.
    pub fn get(&self, key: &str) -> (r: Option<&V>)
        ensures
            match r {
                Some(v) => self@.contains_key(key@) && *v == self@[key@],
                None => !self@.contains_key(key@),
            },
    {
        proof {
            use_type_invariant(self);
            lemma_entries_map_lookup(self.entries@, key@);
        }
        let k = key.to_string();
        match self.position(&k) {
            Some(i) => Some(&self.entries[i].1),
            None => None,
        }
    }

    /// Whether `key` is in the map.
    pub fn contains_key(&self, key: &str) -> (r: bool)
        ensures
            r == self@.contains_key(key@),
    {
        self.get(key).is_some()
    }

    /// Stores `value` under `key`, replacing what was stored there.
    pub fn insert(&mut self, key: String, value: V)
        ensures
            final(self)@ == old(self)@.insert(key@, value),
    {
        proof {
            use_type_invariant(&*self);
        }
        let found = self.position(&key);
        let mut entries: Vec<(String, V)> = Vec::new();
        std::mem::swap(&mut entries, &mut self.entries);
        let ghost old_entries = entries@;
        match found {
            Some(i) => {
                proof {
                    lemma_entries_map_update(old_entries, i as int, key, value);
                }
                entries.set(i, (key, value));
            },
            None => {
                entries.push((key, value));
                assert(entries@.drop_last() == old_entries);
            },
        }
        self.entries = entries;
    }

    /// Stores `value` under `key` only when the map holds nothing there yet,
    /// as `entry(key).or_insert(value)` does.
    pub fn or_insert(&mut self, key: String, value: V)
        ensures
            final(self)@ == or_insert_spec(old(self)@, key@, value),
    {
        if !self.contains_key(key.as_str()) {
            self.insert(key, value);
        }
    }

    /// The entries, one for each key.
    pub fn into_entries(self) -> (r: Vec<(String, V)>)
        ensures
            keys_distinct(r@),
            entries_map(r@) == self@,
    {
        proof {
            use_type_invariant(&self);
        }
        self.entries
    }
}

} // verus!
