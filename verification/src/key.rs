//! Keys and the key cursor.
//!
//! A key is an address in the backing store's key space; one key names one
//! cell.  The cursor hands out the next unused key and advances by a
//! caller-given number of cells, so that sibling values of a composite can
//! be laid out one after another without overlap.

use vstd::prelude::*;

verus! {

/// One addressable unit of the backing store is named by a `Key`.
pub type Key = u64;

/// The largest key a lazy chunk may take as its base key.  Keeping base
/// keys at or below this limit guarantees that every derived element key
/// (base + 1 + index, index a `u32`) fits in the key space, with room for
/// a cursor standing on such a key to advance past it.
pub const KEY_LIMIT: u64 = 0xFFFF_FFFE_FFFF_FFFE;

/// A cursor over the key space.  `advance(n)` returns the current key and
/// reserves the `n` cells starting there; the cursor never moves backward.
pub struct KeyPtr {
    key: Key,
}

impl KeyPtr {
    /// The key the cursor currently stands on.
    pub closed spec fn cur(self) -> Key {
        self.key
    }

    /// Makes a cursor standing on `key`.
    pub fn from_key(key: Key) -> (r: KeyPtr)
        ensures
            r.cur() == key,
    {
        KeyPtr { key }
    }

    /// Returns the current key and moves the cursor forward by
    /// `footprint` cells, reserving them for whatever occupies them.
    pub fn advance(&mut self, footprint: u64) -> (k: Key)
        requires
            old(self).cur() + footprint <= u64::MAX,
        ensures
            k == old(self).cur(),
            final(self).cur() == old(self).cur() + footprint,
    {
        let k = self.key;
        self.key = self.key + footprint;
        k
    }
}

} // verus!
