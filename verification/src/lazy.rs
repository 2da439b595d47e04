//! The lazy indexed cache: a mapping from logical index to write-back
//! entry.
//!
//! A chunk translates a logical index into a physical key and caches the
//! resulting entry in memory, so repeated access within one call avoids
//! repeated store round-trips.  A chunk with no base key has never been
//! assigned storage and resolves to "empty everywhere".  Once a chunk has
//! a base key, every index maps to the stable derived key
//! `base + 1 + index` (the cells after the chunk's own header cell) for
//! the chunk's lifetime; the derivation is injective over indices, so
//! live elements never collide.  Callers lay out siblings so that no other
//! value occupies that range.

use vstd::prelude::*;

use crate::codec::{dec, Packed};
use crate::entry::{Entry, EntryState};
use crate::key::{Key, KeyPtr, KEY_LIMIT};
use crate::store::Store;
use crate::traits::Footprint;

verus! {

/// The derived key of element `index` of a chunk whose header sits at
/// `base`: the cells directly after the header, one per index.
pub open spec fn spec_key_at(base: Key, index: u32) -> Key
    recommends
        base <= KEY_LIMIT,
{
    (base + 1 + index) as Key
}

/// Two stores agree on the cell at `k`.
pub open spec fn same_cell(a: Map<Key, Seq<u8>>, b: Map<Key, Seq<u8>>, k: Key) -> bool {
    a.contains_key(k) == b.contains_key(k) && (a.contains_key(k) ==> a[k] == b[k])
}

/// A lazy mapping from logical index to cached entry, plus the chunk's
/// base key — `None` while the chunk has never been assigned storage.
#[derive(Debug)]
pub struct LazyIndexMap<T> {
    key: Option<Key>,
    cache: Vec<Option<Entry<T>>>,
}

impl<T> LazyIndexMap<T> {
    /// The chunk's base key, if it has ever been assigned storage.
    pub closed spec fn base_key(self) -> Option<Key> {
        self.key
    }

    /// The in-memory cache: position `i` holds the materialized entry for
    /// index `i`, or nothing if index `i` was never touched.
    pub closed spec fn cache_seq(self) -> Seq<Option<Entry<T>>> {
        self.cache@
    }

    /// The cached entry for `index`, if one was materialized.
    pub open spec fn mem_entry(self, index: u32) -> Option<Entry<T>> {
        if index < self.cache_seq().len() {
            self.cache_seq()[index as int]
        } else {
            None
        }
    }

    /// The cached value for `index`: flattened, `None` both for an absent
    /// value and for an index that was never materialized.
    pub open spec fn mem_value(self, index: u32) -> Option<T> {
        match self.mem_entry(index) {
            Some(e) => e.spec_value(),
            None => None,
        }
    }

    /// Well-formedness: a base key leaves room for every derived element
    /// key, and the cache is indexed by `u32`.
    pub open spec fn wf(self) -> bool {
        &&& match self.base_key() {
            Some(k) => k <= KEY_LIMIT,
            None => true,
        }
        &&& self.cache_seq().len() <= 0x1_0000_0000
    }

    /// The cached entry for `index` is `Mutated` and will be written on
    /// the next synchronization.
    pub open spec fn pushes_at(self, index: u32) -> bool {
        match self.mem_entry(index) {
            Some(e) => e.spec_mutated(),
            None => false,
        }
    }

    /// The logical entry at `index` with respect to store contents `st`:
    /// the cached value if one is materialized, otherwise the decoding of
    /// the store cell at the derived key (absent cell or no base key mean
    /// "no value").  The outer `Option` is `None` exactly when the store
    /// holds bytes at the derived key that no value of `T` encodes to —
    /// the fatal-deserialization case.
    pub open spec fn entry_model(self, st: Map<Key, Seq<u8>>, index: u32) -> Option<Option<T>>
        where T: Packed
    {
        match self.mem_entry(index) {
            Some(e) => Some(e.spec_value()),
            None => match self.base_key() {
                None => Some(None),
                Some(k) => {
                    let key = spec_key_at(k, index);
                    if st.contains_key(key) {
                        match dec::<T>(st[key]) {
                            Some(v) => Some(Some(v)),
                            None => None,
                        }
                    } else {
                        Some(None)
                    }
                },
            },
        }
    }

    /// Creates a chunk that has never been assigned storage: it resolves
    /// to "empty everywhere" without touching the store.
    pub fn new() -> (r: LazyIndexMap<T>)
        ensures
            r.wf(),
            r.base_key() is None,
            forall|i: u32| r.mem_entry(i) is None,
    {
        LazyIndexMap { key: None, cache: Vec::new() }
    }

    /// Creates a chunk whose storage starts at the header cell `key`.
    pub fn with_key(key: Key) -> (r: LazyIndexMap<T>)
        requires
            key <= KEY_LIMIT,
        ensures
            r.wf(),
            r.base_key() == Some(key),
            forall|i: u32| r.mem_entry(i) is None,
    {
        LazyIndexMap { key: Some(key), cache: Vec::new() }
    }

    /// Stores `entry` in the cache at `index`, padding the cache with
    /// untouched positions as needed.
    fn set_entry(&mut self, index: u32, entry: Entry<T>)
        requires
            old(self).wf(),
        ensures
            final(self).wf(),
            final(self).base_key() == old(self).base_key(),
            forall|j: u32| j != index ==> final(self).mem_entry(j) == old(self).mem_entry(j),
            final(self).mem_entry(index) == Some(entry),
    {
        while self.cache.len() <= index as usize
            invariant
                old(self).wf(),
                self.key == old(self).key,
                self.cache@.len() <= old(self).cache@.len() || self.cache@.len() <= index as usize
                    + 1,
                old(self).cache@.len() <= self.cache@.len(),
                forall|j: int| 0 <= j < old(self).cache@.len() ==> self.cache@[j] == old(self).cache@[j],
                forall|j: int| old(self).cache@.len() <= j < self.cache@.len() ==> self.cache@[j] is None,
            decreases index as int + 1 - self.cache@.len(),
        {
            self.cache.push(None);
        }
        self.cache[index as usize] = Some(entry);
        proof {
            assert forall|j: u32| j != index implies final(self).mem_entry(j) == old(self).mem_entry(j) by {
                if j < old(self).cache_seq().len() {
                    assert(final(self).cache_seq()[j as int] == old(self).cache_seq()[j as int]);
                }
            }
        }
    }

    /// The cached value for `index`, without touching the store: `None`
    /// both for an absent value and for a never-materialized index.
    pub fn cached_value(&self, index: u32) -> (r: Option<&T>)
        ensures
            match r {
                Some(v) => self.mem_value(index) == Some(*v),
                None => self.mem_value(index) is None,
            },
    {
        if (index as usize) < self.cache.len() {
            match &self.cache[index as usize] {
                Some(e) => e.value(),
                None => None,
            }
        } else {
            None
        }
    }
}

impl<T: Packed> LazyIndexMap<T> {
    /// Materializes the entry for `index`: if it is already cached this
    /// does nothing; otherwise the entry is loaded from the store at the
    /// derived key (or synthesized empty if the chunk has no base key)
    /// and cached in `Preserved` state.
    fn ensure_cached(&mut self, index: u32, store: &Store)
        requires
            old(self).wf(),
            old(self).entry_model(store@, index) is Some,
        ensures
            final(self).wf(),
            final(self).base_key() == old(self).base_key(),
            forall|j: u32| j != index ==> final(self).mem_entry(j) == old(self).mem_entry(j),
            final(self).mem_entry(index) is Some,
            final(self).mem_entry(index).unwrap().spec_value()
                == old(self).entry_model(store@, index).unwrap(),
            old(self).mem_entry(index) is Some ==> *final(self) == *old(self),
            old(self).mem_entry(index) is None
                ==> final(self).mem_entry(index).unwrap().spec_state() == EntryState::Preserved,
    {
        if (index as usize) < self.cache.len() {
            if self.cache[index as usize].is_some() {
                return ;
            }
        }
        let entry = match &self.key {
            None => Entry::new(None, EntryState::Preserved),
            Some(k) => {
                let key = *k + 1 + index as u64;
                proof {
                    assert(key == spec_key_at(old(self).base_key().unwrap(), index));
                }
                match store.get(key) {
                    None => Entry::new(None, EntryState::Preserved),
                    Some(bytes) => {
                        let decoded = T::decode(bytes.as_slice());
                        proof {
                            crate::codec::lemma_decode_is_dec::<T>(decoded, store@[key]);
                        }
                        match decoded {
                            Some(v) => Entry::new(Some(v), EntryState::Preserved),
                            None => vstd::pervasive::unreached(),
                        }
                    },
                }
            },
        };
        self.set_entry(index, entry);
    }

    /// Resolves `index` to a shared reference to its value, pulling from
    /// the store on a cache miss; `None` if no value exists there.
    pub fn get(&mut self, index: u32, store: &Store) -> (r: Option<&T>)
        requires
            old(self).wf(),
            old(self).entry_model(store@, index) is Some,
        ensures
            final(self).wf(),
            final(self).base_key() == old(self).base_key(),
            forall|j: u32| j != index ==> final(self).mem_entry(j) == old(self).mem_entry(j),
            final(self).mem_entry(index) is Some,
            old(self).mem_entry(index) is Some ==> *final(self) == *old(self),
            forall|j: u32| final(self).entry_model(store@, j) == old(self).entry_model(store@, j),
            match r {
                Some(v) => old(self).entry_model(store@, index) == Some(Some(*v)),
                None => old(self).entry_model(store@, index) == Some(None::<T>),
            },
    {
        self.ensure_cached(index, store);
        match &self.cache[index as usize] {
            Some(e) => e.value(),
            None => vstd::pervasive::unreached(),
        }
    }

    /// Resolves `index` to an exclusive reference to its value, pulling
    /// from the store on a cache miss.  If a value exists there, the
    /// cached entry is marked `Mutated`.
    pub fn get_mut(&mut self, index: u32, store: &Store) -> (r: Option<&mut T>)
        requires
            old(self).wf(),
            old(self).entry_model(store@, index) is Some,
        ensures
            final(self).wf(),
            final(self).base_key() == old(self).base_key(),
            forall|j: u32| j != index ==> final(self).mem_entry(j) == old(self).mem_entry(j),
            final(self).mem_entry(index) is Some,
            match old(self).entry_model(store@, index).unwrap() {
                None => {
                    &&& r is None
                    &&& final(self).mem_value(index) is None
                    &&& final(self).entry_model(store@, index) == Some(None::<T>)
                },
                Some(x) => {
                    &&& r is Some
                    &&& *r.unwrap() == x
                    &&& final(self).mem_entry(index).unwrap().spec_value()
                        == Some(*final(r.unwrap()))
                    &&& final(self).mem_entry(index).unwrap().spec_state() == EntryState::Mutated
                },
            },
    {
        self.ensure_cached(index, store);
        let slot = &mut self.cache[index as usize];
        match slot.as_mut() {
            Some(e) => e.value_mut(),
            None => vstd::pervasive::unreached(),
        }
    }

    /// Overwrites the entry at `index` with `value`, marking it
    /// `Mutated`; the previous value is neither loaded nor returned.
    pub fn put(&mut self, index: u32, value: Option<T>)
        requires
            old(self).wf(),
        ensures
            final(self).wf(),
            final(self).base_key() == old(self).base_key(),
            forall|j: u32| j != index ==> final(self).mem_entry(j) == old(self).mem_entry(j),
            final(self).mem_entry(index) is Some,
            final(self).mem_entry(index).unwrap().spec_value() == value,
            final(self).mem_entry(index).unwrap().spec_state() == EntryState::Mutated,
    {
        self.set_entry(index, Entry::new(value, EntryState::Mutated));
    }

    /// Replaces the value at `index` with `value` and returns the
    /// previous value, pulling it from the store on a cache miss.  The
    /// entry is marked `Mutated` unless both old and new value are
    /// absent.
    pub fn put_get(&mut self, index: u32, value: Option<T>, store: &Store) -> (r: Option<T>)
        requires
            old(self).wf(),
            old(self).entry_model(store@, index) is Some,
        ensures
            final(self).wf(),
            final(self).base_key() == old(self).base_key(),
            forall|j: u32| j != index ==> final(self).mem_entry(j) == old(self).mem_entry(j),
            r == old(self).entry_model(store@, index).unwrap(),
            final(self).mem_entry(index) is Some,
            final(self).mem_entry(index).unwrap().spec_value() == value,
            r is Some || value is Some
                ==> final(self).mem_entry(index).unwrap().spec_state() == EntryState::Mutated,
    {
        self.ensure_cached(index, store);
        let slot = &mut self.cache[index as usize];
        match slot.as_mut() {
            Some(e) => e.put(value),
            None => vstd::pervasive::unreached(),
        }
    }

    /// Takes the value at `index` out of the chunk, pulling it from the
    /// store on a cache miss; the entry stays cached, empty.
    pub fn take(&mut self, index: u32, store: &Store) -> (r: Option<T>)
        requires
            old(self).wf(),
            old(self).entry_model(store@, index) is Some,
        ensures
            final(self).wf(),
            final(self).base_key() == old(self).base_key(),
            forall|j: u32| j != index ==> final(self).mem_entry(j) == old(self).mem_entry(j),
            r == old(self).entry_model(store@, index).unwrap(),
            final(self).mem_entry(index) is Some,
            final(self).mem_entry(index).unwrap().spec_value() is None,
            r is Some ==> final(self).mem_entry(index).unwrap().spec_state() == EntryState::Mutated,
    {
        self.put_get(index, None, store)
    }

    /// Synchronizes the chunk with the store at the cursor's position:
    /// the chunk takes the header cell the cursor hands out as its base
    /// key (on first synchronization; afterwards the base key is
    /// immutable and the cursor must stand on it again), then every
    /// cached `Mutated` entry is written back at its derived key — an
    /// occupied value is encoded, an absent one clears its cell.  Entries
    /// never touched since the last synchronization are not re-written.
    pub fn push_forward(&mut self, ptr: &mut KeyPtr, store: &mut Store)
        requires
            old(self).wf(),
            old(ptr).cur() <= KEY_LIMIT,
            match old(self).base_key() {
                Some(k) => k == old(ptr).cur(),
                None => true,
            },
        ensures
            final(self).wf(),
            final(ptr).cur() == old(ptr).cur() + 1,
            final(self).base_key() == Some(old(ptr).cur()),
            forall|i: u32| final(self).mem_entry(i) is Some <==> old(self).mem_entry(i) is Some,
            forall|i: u32| old(self).mem_entry(i) is Some ==> {
                &&& final(self).mem_entry(i).unwrap().spec_value()
                    == old(self).mem_entry(i).unwrap().spec_value()
                &&& final(self).mem_entry(i).unwrap().spec_state() == EntryState::Preserved
            },
            forall|i: u32| old(self).pushes_at(i) ==> {
                match old(self).mem_entry(i).unwrap().spec_value() {
                    Some(v) => final(store)@.contains_key(spec_key_at(old(ptr).cur(), i))
                        && final(store)@[spec_key_at(old(ptr).cur(), i)] == v.enc(),
                    None => !final(store)@.contains_key(spec_key_at(old(ptr).cur(), i)),
                }
            },
            forall|k: Key|
                !(exists|i: u32| old(self).pushes_at(i) && k == spec_key_at(old(ptr).cur(), i))
                    ==> same_cell(old(store)@, final(store)@, k),
    {
        let base = ptr.advance(1);
        self.key = Some(base);
        let n = self.cache.len();
        let mut idx: usize = 0;
        while idx < n
            invariant
                old(self).wf(),
                base == old(ptr).cur(),
                base <= KEY_LIMIT,
                ptr.cur() == old(ptr).cur() + 1,
                self.key == Some(base),
                n == self.cache@.len(),
                n == old(self).cache@.len(),
                idx <= n,
                forall|j: int| idx <= j < n ==> self.cache@[j] == old(self).cache@[j],
                forall|j: int| 0 <= j < idx ==> (self.cache@[j] is Some <==> old(self).cache@[j] is Some),
                forall|j: int| 0 <= j < idx && old(self).cache@[j] is Some ==> {
                    &&& self.cache@[j].unwrap().spec_value() == old(self).cache@[j].unwrap().spec_value()
                    &&& self.cache@[j].unwrap().spec_state() == EntryState::Preserved
                },
                forall|j: u32| j < idx && old(self).pushes_at(j) ==> {
                    match old(self).mem_entry(j).unwrap().spec_value() {
                        Some(v) => store@.contains_key(spec_key_at(base, j))
                            && store@[spec_key_at(base, j)] == v.enc(),
                        None => !store@.contains_key(spec_key_at(base, j)),
                    }
                },
                forall|k: Key|
                    !(exists|i: u32| i < idx && old(self).pushes_at(i) && k == spec_key_at(base, i))
                        ==> same_cell(old(store)@, store@, k),
            decreases n - idx,
        {
            let ghost st_pre = store@;
            let key = base + 1 + idx as u64;
            proof {
                assert(key == spec_key_at(base, idx as u32));
            }
            let slot = &mut self.cache[idx];
            match slot.as_mut() {
                Some(e) => {
                    let mut p = KeyPtr::from_key(key);
                    e.push_forward(&mut p, store);
                },
                None => {},
            }
            proof {
                assert forall|k: Key|
                    !(exists|i: u32|
                        i < idx + 1 && old(self).pushes_at(i) && k == spec_key_at(base, i))
                        implies same_cell(old(store)@, store@, k) by {
                    assert(!(exists|i: u32|
                        i < idx && old(self).pushes_at(i) && k == spec_key_at(base, i)));
                    assert(same_cell(old(store)@, st_pre, k));
                    if old(self).pushes_at(idx as u32) {
                        assert(k != spec_key_at(base, idx as u32));
                    }
                    assert(same_cell(st_pre, store@, k));
                }
            }
            idx += 1;
        }
        proof {
            assert forall|i: u32| final(self).mem_entry(i) is Some
                <==> old(self).mem_entry(i) is Some by {}
        }
    }

    /// Clears the store cells of indices `0 .. len`: used when the owning
    /// value is logically deleted.  A chunk that was never assigned
    /// storage has nothing downstream to free, so this is a no-op.
    pub fn clear_cells(&self, len: u32, store: &mut Store)
        requires
            self.wf(),
        ensures
            match self.base_key() {
                None => final(store)@ == old(store)@,
                Some(k) => {
                    &&& forall|i: u32| i < len ==> !final(store)@.contains_key(spec_key_at(k, i))
                    &&& forall|key: Key|
                        !(exists|i: u32| i < len && key == spec_key_at(k, i))
                            ==> same_cell(old(store)@, final(store)@, key)
                },
            },
    {
        match &self.key {
            None => {},
            Some(k) => {
                let base = *k;
                let mut i: u32 = 0;
                while i < len
                    invariant
                        base <= KEY_LIMIT,
                        self.base_key() == Some(base),
                        i <= len,
                        forall|j: u32| j < i ==> !store@.contains_key(spec_key_at(base, j)),
                        forall|key: Key|
                            !(exists|j: u32| j < i && key == spec_key_at(base, j))
                                ==> same_cell(old(store)@, store@, key),
                    decreases len - i,
                {
                    let ghost st_pre = store@;
                    let key = base + 1 + i as u64;
                    proof {
                        assert(key == spec_key_at(base, i));
                    }
                    store.clear(key);
                    proof {
                        assert forall|kx: Key|
                            !(exists|j: u32| j < i + 1 && kx == spec_key_at(base, j))
                                implies same_cell(old(store)@, store@, kx) by {
                            assert(!(exists|j: u32| j < i && kx == spec_key_at(base, j)));
                            assert(same_cell(old(store)@, st_pre, kx));
                            assert(kx != spec_key_at(base, i));
                        }
                    }
                    i += 1;
                }
            },
        }
    }
}

impl<T> Footprint for LazyIndexMap<T> {
    /// A chunk's static footprint is its header cell alone: its elements
    /// are unbounded in number and addressed separately through derived
    /// keys, so they cannot be part of a static cell count.
    open spec fn spec_footprint() -> nat {
        1
    }

    fn footprint() -> (n: u64) {
        1
    }
}

} // verus!
