//! A table from numbers to numbers, kept in the hash map of `hashbrown`.

use vstd::prelude::*;

verus! {

/// A table from numbers to numbers.
#[verifier::external_body]
#[derive(Debug)]
pub struct HandleTable {
    map: hashbrown::HashMap<u64, u64>,
}

/// What a table holds.
pub uninterp spec fn handles(table: HandleTable) -> Map<u64, u64>;

/// A table that holds nothing.
pub open spec fn no_handles() -> Map<u64, u64> {
    Map::empty()
}

impl HandleTable {
    /// Calls `hashbrown::HashMap::new`.
    ///
    /// Claimed of the call: the map that it returns is empty.
    #[verifier::external_body]
    pub(crate) fn new() -> (r: Self)
        ensures
            handles(r) == no_handles(),
    {
        HandleTable { map: hashbrown::HashMap::new() }
    }

    /// Calls `hashbrown::HashMap::get`.
    ///
    /// Claimed of the call: it returns the value of the key, or nothing if the key is absent.
    #[verifier::external_body]
    pub(crate) fn get(&self, key: u64) -> (r: Option<u64>)
        ensures
            r == (if handles(*self).contains_key(key) {
                Some(handles(*self)[key])
            } else {
                None
            }),
    {
        self.map.get(&key).copied()
    }

    /// Calls `hashbrown::HashMap::insert`.
    ///
    /// Claimed of the call: the key has the value afterwards, whatever it had before, and every
    /// other key keeps its value.
    #[verifier::external_body]
    pub(crate) fn insert(&mut self, key: u64, value: u64)
        ensures
            handles(*final(self)) == handles(*old(self)).insert(key, value),
    {
        self.map.insert(key, value);
    }

    /// Calls `hashbrown::HashMap::keys`.
    ///
    /// Claimed of the call: it walks over every key once. In which order is left open.
    #[verifier::external_body]
    pub(crate) fn keys(&self) -> (r: Vec<u64>)
        ensures
            r@.no_duplicates(),
            r@.to_set() == handles(*self).dom(),
    {
        self.map.keys().copied().collect()
    }
}

} // verus!
