//! The key-addressed byte store that the cache layer synchronizes with.
//!
//! Each key names one cell; a cell either holds bytes or is absent.  The
//! store is the only "expensive" collaborator in the system — the whole
//! point of the cache layer is to bound how often these three operations
//! run.  Abstractly a store is a partial map from keys to byte strings.

use std::collections::HashMap;
use vstd::prelude::*;

use crate::key::Key;

verus! {

broadcast use vstd::std_specs::hash::group_hash_axioms;

/// A key-addressed byte store: a partial map from keys to byte strings.
#[derive(Debug)]
pub struct Store {
    cells: HashMap<Key, Vec<u8>>,
}

impl View for Store {
    type V = Map<Key, Seq<u8>>;

    closed spec fn view(&self) -> Map<Key, Seq<u8>> {
        Map::new(
            |k: Key| self.cells@.contains_key(k),
            |k: Key| self.cells@[k]@,
        )
    }
}

impl Store {
    /// An empty store: every cell reads back as absent.
    pub fn new() -> (r: Store)
        ensures
            r@ == Map::<Key, Seq<u8>>::empty(),
    {
        let r = Store { cells: HashMap::new() };
        proof {
            assert(r@ =~= Map::<Key, Seq<u8>>::empty());
        }
        r
    }

    /// Reads the cell at `key`; absent cells yield `None`.
    pub fn get(&self, key: Key) -> (r: Option<&Vec<u8>>)
        ensures
            match r {
                Some(v) => self@.contains_key(key) && v@ == self@[key],
                None => !self@.contains_key(key),
            },
    {
        self.cells.get(&key)
    }

    /// Writes `value` to the cell at `key`, overwriting or creating it.
    pub fn set(&mut self, key: Key, value: Vec<u8>)
        ensures
            final(self)@ == old(self)@.insert(key, value@),
    {
        let ghost v = value@;
        self.cells.insert(key, value);
        proof {
            assert(self@ =~= old(self)@.insert(key, v));
        }
    }

    /// Removes the cell at `key`; a subsequent `get` yields absent.
    pub fn clear(&mut self, key: Key)
        ensures
            final(self)@ == old(self)@.remove(key),
    {
        self.cells.remove(&key);
        proof {
            assert(self@ =~= old(self)@.remove(key));
        }
    }
}

} // verus!
