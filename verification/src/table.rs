//! A map from (block name, graphic properties) to an optional handle.

use vstd::hash_map::StringHashMap;
use vstd::prelude::*;

verus! {

/// A lookup key: a block name and its graphic properties.
pub type Key = (Seq<char>, Seq<char>);

/// The mathematical value of a key table.
pub type TableValue = Map<Key, Option<usize>>;

/// A hash table keyed by two strings: the first selects a bucket, the second
/// an entry of that bucket.
pub struct KeyTable {
    names: StringHashMap<usize>,
    buckets: Vec<StringHashMap<Option<usize>>>,
}

impl View for KeyTable {
    type V = TableValue;

    closed spec fn view(&self) -> TableValue {
        Map::new(
            |k: Key|
                self.names@.contains_key(k.0) && self.names@[k.0] < self.buckets@.len()
                    && self.buckets@[self.names@[k.0] as int]@.contains_key(k.1),
            |k: Key| self.buckets@[self.names@[k.0] as int]@[k.1],
        )
    }
}

impl KeyTable {
    /// Every name has a bucket of its own.
    pub closed spec fn wf(&self) -> bool {
        &&& forall|n: Seq<char>| #[trigger]
            self.names@.contains_key(n) ==> self.names@[n] < self.buckets@.len()
        &&& forall|n: Seq<char>, m: Seq<char>|
            self.names@.contains_key(n) && self.names@.contains_key(m) && n != m
                ==> #[trigger] self.names@[n] != #[trigger] self.names@[m]
    }

    /// An empty table.
    pub fn new() -> (table: KeyTable)
        ensures
            table.wf(),
            table@ == TableValue::empty(),
    {
        let table = KeyTable { names: StringHashMap::new(), buckets: Vec::new() };
        assert(table@ =~= TableValue::empty());
        table
    }

    /// The value stored under (name, properties), if any.
    pub fn get(&self, name: &str, properties: &str) -> (r: Option<Option<usize>>)
        requires
            self.wf(),
        ensures
            r == if self@.contains_key((name@, properties@)) {
                Some(self@[(name@, properties@)])
            } else {
                None
            },
    {
        match self.names.get(name) {
            None => None,
            Some(bucket) => match self.buckets[*bucket].get(properties) {
                None => None,
                Some(value) => Some(*value),
            },
        }
    }

    /// Stores `value` under (name, properties).
    pub fn insert(&mut self, name: &str, properties: &str, value: Option<usize>)
        requires
            old(self).wf(),
        ensures
            final(self).wf(),
            final(self)@ == old(self)@.insert((name@, properties@), value),
    {
        let ghost before = self@;
        let bucket: usize = match self.names.get(name) {
            Some(bucket) => *bucket,
            None => {
                let fresh: usize = self.buckets.len();
                self.buckets.push(StringHashMap::new());
                self.names.insert(String::from_str(name), fresh);
                assert(self@ =~= before);
                fresh
            },
        };
        self.buckets[bucket].insert(String::from_str(properties), value);
        assert(self@ =~= before.insert((name@, properties@), value));
    }
}

} // verus!
