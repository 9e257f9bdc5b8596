//! A map from strings to values that can list its keys.

use vstd::hash_map::StringHashMap;
use vstd::prelude::*;

verus! {

/// The strings of `keys`, each as its sequence of characters.
pub open spec fn key_views(keys: Seq<String>) -> Seq<Seq<char>> {
    keys.map_values(|key: String| key@)
}

/// The string slices of `names`, each as its sequence of characters.
pub open spec fn name_views(names: Seq<&str>) -> Seq<Seq<char>> {
    names.map_values(|name: &str| name@)
}

/// Whether `names` lists every element of `keys` once and nothing else.
pub open spec fn lists(names: Seq<Seq<char>>, keys: Set<Seq<char>>) -> bool {
    &&& names.no_duplicates()
    &&& forall|key: Seq<char>| names.contains(key) <==> keys.contains(key)
}

/// A hash map keyed by strings, with the keys kept a second time in the
/// order in which they came, so that they can be listed.
///
/// The view is the map from the keys, as sequences of characters, to the
/// values.
#[verifier::reject_recursive_types(V)]
pub struct KeyedTable<V> {
    map: StringHashMap<V>,
    keys: Vec<String>,
}

impl<V> View for KeyedTable<V> {
    type V = Map<Seq<char>, V>;

    closed spec fn view(&self) -> Map<Seq<char>, V> {
        self.map@
    }
}

impl<V> KeyedTable<V> {
    /// The list of keys holds exactly the keys of the map, each once.
    pub closed spec fn wf(&self) -> bool {
        lists(key_views(self.keys@), self.map@.dom())
    }

    /// A well-formed table has as many keys as its list of keys is long.
    proof fn lemma_count(&self)
        requires
            self.wf(),
        ensures
            self@.dom().finite(),
            self@.dom().len() == self.keys@.len(),
    {
        let names = key_views(self.keys@);
        names.unique_seq_to_set();
        assert(names.to_set() =~= self.map@.dom());
    }

    /// A well-formed table has finitely many keys.
    pub proof fn lemma_finite(&self)
        requires
            self.wf(),
        ensures
            self@.dom().finite(),
    {
        self.lemma_count();
    }

    /// An empty table.
    pub fn new() -> (table: Self)
        ensures
            table.wf(),
            table@ == Map::<Seq<char>, V>::empty(),
    {
        KeyedTable { map: StringHashMap::new(), keys: Vec::new() }
    }

    /// Whether the table holds `key`.
    pub fn contains_key(&self, key: &str) -> (present: bool)
        ensures
            present == self@.contains_key(key@),
    {
        self.map.contains_key(key)
    }

    /// The value of `key`, if the table holds it.
    pub fn get(&self, key: &str) -> (value: Option<&V>)
        ensures
            match value {
                Some(v) => self@.contains_key(key@) && *v == self@[key@],
                None => !self@.contains_key(key@),
            },
    {
        self.map.get(key)
    }

    /// The number of keys.
    pub fn len(&self) -> (len: usize)
        requires
            self.wf(),
        ensures
            len == self@.dom().len(),
    {
        proof {
            self.lemma_count();
        }
        self.keys.len()
    }

    /// Sets the value of `key` to `value`, whether or not the table held
    /// `key` before.
    pub fn insert(&mut self, key: String, value: V)
        requires
            old(self).wf(),
        ensures
            final(self).wf(),
            final(self)@ == old(self)@.insert(key@, value),
    {
        if !self.map.contains_key(key.as_str()) {
            let ghost before = key_views(self.keys@);
            self.keys.push(key.clone());
            proof {
                let after = key_views(self.keys@);
                assert(after =~= before.push(key@));
                assert forall|name: Seq<char>| after.contains(name) <==> old(self).map@.dom().insert(
                    key@,
                ).contains(name) by {
                    if before.contains(name) {
                        let i = choose|i: int| 0 <= i < before.len() && before[i] == name;
                        assert(after[i] == name);
                    }
                    if name == key@ {
                        assert(after[before.len() as int] == name);
                    }
                }
            }
        }
        self.map.insert(key, value);
    }

    /// The keys of the table, each once, in the order in which they were
    /// first set.
    pub fn keys(&self) -> (names: Vec<&str>)
        requires
            self.wf(),
        ensures
            lists(name_views(names@), self@.dom()),
    {
        let mut names: Vec<&str> = Vec::with_capacity(self.keys.len());
        let mut i: usize = 0;
        while i < self.keys.len()
            invariant
                i <= self.keys.len(),
                name_views(names@) == key_views(self.keys@).take(i as int),
            decreases self.keys.len() - i,
        {
            let ghost before = name_views(names@);
            names.push(self.keys[i].as_str());
            assert(name_views(names@) =~= before.push(self.keys@[i as int]@));
            assert(key_views(self.keys@).take(i + 1) =~= key_views(self.keys@).take(i as int).push(
                self.keys@[i as int]@,
            ));
            i += 1;
        }
        assert(key_views(self.keys@).take(i as int) =~= key_views(self.keys@));
        names
    }
}

} // verus!
