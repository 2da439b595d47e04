//! The growable array: a length field plus one lazy chunk of elements.
//!
//! The length is authoritative: index `i` belongs to the collection iff
//! `i < len`.  Cells beyond the length may still hold stale data in the
//! backing store — they are not part of the collection, are never read by
//! accessors, and are overwritten if a later `push` reuses the index or
//! removed by an explicit clear.  Removal by `swap_remove` is O(1) and
//! does not preserve order: that is the collection's removal-ordering
//! policy, not an accident.

use vstd::prelude::*;
use vstd::std_specs::cmp::PartialEqSpec;

use crate::codec::{dec, Packed};
use crate::entry::EntryState;
use crate::key::{Key, KeyPtr, KEY_LIMIT};
use crate::lazy::{same_cell, spec_key_at, LazyIndexMap};
use crate::store::Store;
use crate::traits::{pull_single_cell, Footprint};

verus! {

/// The recoverable error of operations that cannot grow a collection.
#[derive(Debug, Clone, Copy, PartialEq, Eq, Structural)]
pub enum StorageError {
    /// The collection already holds as many elements as it may.
    CapacityExceeded,
}

/// A growable array over the backing store: an authoritative element
/// count plus a lazy chunk holding the elements.
#[derive(Debug)]
pub struct StorageVec<T> {
    len: u32,
    elems: LazyIndexMap<T>,
}

impl<T> StorageVec<T> {
    /// The number of elements.
    pub closed spec fn spec_len(self) -> u32 {
        self.len
    }

    /// The element chunk.
    pub closed spec fn chunk(self) -> LazyIndexMap<T> {
        self.elems
    }

    /// Well-formedness of the element chunk.
    pub open spec fn wf(self) -> bool {
        self.chunk().wf()
    }

    /// The cached value at `index`, flattened.
    pub open spec fn mem_value(self, index: u32) -> Option<T> {
        self.chunk().mem_value(index)
    }

    /// No cached entry awaits a write-back.
    pub open spec fn all_preserved(self) -> bool {
        forall|i: u32| !self.chunk().pushes_at(i)
    }

    /// Creates an empty array that has never been assigned storage.
    pub fn new() -> (r: StorageVec<T>)
        ensures
            r.wf(),
            r.spec_len() == 0,
            r.chunk().base_key() is None,
            forall|i: u32| r.chunk().mem_entry(i) is None,
            r.all_preserved(),
    {
        StorageVec { len: 0, elems: LazyIndexMap::new() }
    }

    /// The number of elements.
    pub fn len(&self) -> (r: u32)
        ensures
            r == self.spec_len(),
    {
        self.len
    }

    /// Whether the array holds no element.
    pub fn is_empty(&self) -> (r: bool)
        ensures
            r == (self.spec_len() == 0),
    {
        self.len == 0
    }
}

impl<T: Packed> StorageVec<T> {
    /// The logical element at `index` with respect to store contents
    /// `st`; see `LazyIndexMap::entry_model`.
    pub open spec fn model_at(self, st: Map<Key, Seq<u8>>, index: u32) -> Option<Option<T>> {
        self.chunk().entry_model(st, index)
    }

    /// Every index of the collection resolves against `st` (no cell of it
    /// holds undecodable bytes).
    pub open spec fn resolvable(self, st: Map<Key, Seq<u8>>) -> bool {
        forall|i: u32| i < self.spec_len() ==> #[trigger] self.model_at(st, i) is Some
    }

    /// The logical contents with respect to `st`: one optional value per
    /// index below the length.
    pub open spec fn abs(self, st: Map<Key, Seq<u8>>) -> Seq<Option<T>> {
        Seq::new(self.spec_len() as nat, |i: int| self.model_at(st, i as u32).unwrap())
    }

    /// Every index of the collection resolves to a present value: the
    /// steady-state invariant of an array built by `push`.
    pub open spec fn complete(self, st: Map<Key, Seq<u8>>) -> bool {
        &&& self.resolvable(st)
        &&& forall|i: int| 0 <= i < self.spec_len() ==> #[trigger] self.abs(st)[i] is Some
    }

    /// The logical contents as plain values, defined under `complete`.
    pub open spec fn contents(self, st: Map<Key, Seq<u8>>) -> Seq<T> {
        Seq::new(self.spec_len() as nat, |i: int| self.abs(st)[i].unwrap())
    }

    /// The write-back discipline's meaning of `Preserved`: every cached
    /// entry not marked `Mutated` agrees with the store cell at its
    /// derived key (for a chunk never assigned storage, such an entry is
    /// empty).
    pub open spec fn consistent_at(self, st: Map<Key, Seq<u8>>, i: u32) -> bool {
        match self.chunk().mem_entry(i) {
            Some(e) => e.spec_mutated() || (match self.chunk().base_key() {
                Some(k) => match e.spec_value() {
                    Some(v) => st.contains_key(spec_key_at(k, i)) && st[spec_key_at(k, i)]
                        == v.enc(),
                    None => !st.contains_key(spec_key_at(k, i)),
                },
                None => e.spec_value() is None,
            }),
            None => true,
        }
    }

    /// Every `Preserved` entry agrees with the store.
    pub open spec fn consistent(self, st: Map<Key, Seq<u8>>) -> bool {
        forall|i: u32| #[trigger] self.consistent_at(st, i)
    }

    /// Resolves `index` to a shared reference to the element, pulling
    /// from the store on a cache miss.  Yields absent for `index` at or
    /// beyond the length without touching the chunk — cells there may
    /// hold stale leftover data that is not part of the collection.
    pub fn get(&mut self, index: u32, store: &Store) -> (r: Option<&T>)
        requires
            old(self).wf(),
            index < old(self).spec_len() ==> old(self).model_at(store@, index) is Some,
        ensures
            final(self).wf(),
            final(self).spec_len() == old(self).spec_len(),
            final(self).chunk().base_key() == old(self).chunk().base_key(),
            forall|j: u32|
                j != index ==> final(self).chunk().mem_entry(j) == old(self).chunk().mem_entry(j),
            forall|j: u32| final(self).model_at(store@, j) == old(self).model_at(store@, j),
            index >= old(self).spec_len() ==> *final(self) == *old(self),
            match r {
                Some(v) => index < old(self).spec_len() && old(self).model_at(store@, index)
                    == Some(Some(*v)),
                None => index >= old(self).spec_len() || old(self).model_at(store@, index)
                    == Some(None::<T>),
            },
    {
        if index < self.len {
            self.elems.get(index, store)
        } else {
            None
        }
    }

    /// Resolves `index` to an exclusive reference to the element, pulling
    /// from the store on a cache miss and marking the entry `Mutated` if
    /// a value exists there.  Yields absent at or beyond the length
    /// without touching the chunk.
    pub fn get_mut(&mut self, index: u32, store: &Store) -> (r: Option<&mut T>)
        requires
            old(self).wf(),
            index < old(self).spec_len() ==> old(self).model_at(store@, index) is Some,
        ensures
            final(self).wf(),
            final(self).spec_len() == old(self).spec_len(),
            final(self).chunk().base_key() == old(self).chunk().base_key(),
            forall|j: u32|
                j != index ==> final(self).chunk().mem_entry(j) == old(self).chunk().mem_entry(j),
            index >= old(self).spec_len() ==> *final(self) == *old(self) && r is None,
            index < old(self).spec_len() ==> match old(self).model_at(store@, index).unwrap() {
                None => {
                    &&& r is None
                    &&& final(self).mem_value(index) is None
                    &&& final(self).model_at(store@, index) == Some(None::<T>)
                },
                Some(x) => {
                    &&& r is Some
                    &&& *r.unwrap() == x
                    &&& final(self).chunk().mem_entry(index).unwrap().spec_value() == Some(
                        *final(r.unwrap()),
                    )
                    &&& final(self).chunk().mem_entry(index).unwrap().spec_state()
                        == EntryState::Mutated
                },
            },
    {
        if index < self.len {
            self.elems.get_mut(index, store)
        } else {
            None
        }
    }

    /// Appends `value` at the end of the array, failing with a capacity
    /// error if the length is already at the representable maximum.  The
    /// new entry is cached `Mutated`; no store access happens.
    pub fn push(&mut self, value: T) -> (r: Result<(), StorageError>)
        requires
            old(self).wf(),
        ensures
            final(self).wf(),
            final(self).chunk().base_key() == old(self).chunk().base_key(),
            forall|j: u32|
                final(self).chunk().mem_entry(j) is Some || final(self).chunk().mem_entry(j)
                    == old(self).chunk().mem_entry(j),
            old(self).spec_len() < u32::MAX ==> {
                &&& r is Ok
                &&& final(self).spec_len() == old(self).spec_len() + 1
                &&& final(self).mem_value(old(self).spec_len()) == Some(value)
                &&& final(self).chunk().mem_entry(old(self).spec_len()).unwrap().spec_state()
                    == EntryState::Mutated
                &&& forall|j: u32|
                    j != old(self).spec_len() ==> final(self).chunk().mem_entry(j) == old(self).chunk().mem_entry(j)
                &&& forall|st: Map<Key, Seq<u8>>| #[trigger] final(self).abs(st) == old(self).abs(
                    st,
                ).push(Some(value))
                &&& forall|st: Map<Key, Seq<u8>>|
                    old(self).complete(st) ==> #[trigger] final(self).complete(st)
            },
            old(self).spec_len() == u32::MAX ==> {
                &&& r == Err::<(), StorageError>(StorageError::CapacityExceeded)
                &&& *final(self) == *old(self)
            },
    {
        if self.len == u32::MAX {
            return Err(StorageError::CapacityExceeded);
        }
        let idx = self.len;
        self.elems.put(idx, Some(value));
        self.len = idx + 1;
        proof {
            let pre = *old(self);
            assert forall|st: Map<Key, Seq<u8>>| #[trigger] self.abs(st) == pre.abs(st).push(
                Some(value),
            ) by {
                assert forall|j: int| 0 <= j < self.spec_len() implies self.abs(st)[j] == pre.abs(
                    st,
                ).push(Some(value))[j] by {
                    if j < pre.spec_len() {
                        assert(self.chunk().mem_entry(j as u32) == pre.chunk().mem_entry(j as u32));
                    }
                }
                assert(self.abs(st) =~= pre.abs(st).push(Some(value)));
            }
            assert forall|st: Map<Key, Seq<u8>>| pre.complete(st) implies #[trigger] self.complete(
                st,
            ) by {
                assert forall|j: u32| j < self.spec_len() implies #[trigger] self.model_at(
                    st,
                    j,
                ) is Some by {
                    if j < pre.spec_len() {
                        assert(self.chunk().mem_entry(j) == pre.chunk().mem_entry(j));
                        assert(pre.model_at(st, j) is Some);
                    }
                }
                assert forall|j: int| 0 <= j < self.spec_len() implies #[trigger] self.abs(
                    st,
                )[j] is Some by {
                    if j < pre.spec_len() {
                        assert(pre.abs(st)[j] is Some);
                        assert(self.abs(st)[j] == pre.abs(st).push(Some(value))[j]);
                    }
                }
            }
        }
        Ok(())
    }

    /// Removes and returns the last element; absent on an empty array.
    /// The removed cell stays physically populated in the store but is
    /// logically excluded; it becomes live again if a later `push` reuses
    /// the index, and is only freed by an explicit clear.
    pub fn pop(&mut self, store: &Store) -> (r: Option<T>)
        requires
            old(self).wf(),
            old(self).spec_len() > 0 ==> old(self).model_at(
                store@,
                (old(self).spec_len() - 1) as u32,
            ) is Some,
        ensures
            final(self).wf(),
            final(self).chunk().base_key() == old(self).chunk().base_key(),
            forall|j: u32|
                final(self).chunk().mem_entry(j) is Some || final(self).chunk().mem_entry(j)
                    == old(self).chunk().mem_entry(j),
            old(self).spec_len() == 0 ==> r is None && *final(self) == *old(self),
            old(self).spec_len() > 0 ==> {
                &&& final(self).spec_len() == old(self).spec_len() - 1
                &&& Some(r) == old(self).model_at(store@, (old(self).spec_len() - 1) as u32)
                &&& forall|j: u32|
                    j != old(self).spec_len() - 1 ==> final(self).chunk().mem_entry(j) == old(self).chunk().mem_entry(j)
                &&& forall|st: Map<Key, Seq<u8>>| #[trigger] final(self).abs(st) == old(self).abs(
                    st,
                ).drop_last()
                &&& (old(self).complete(store@) ==> final(self).complete(store@))
            },
    {
        if self.len == 0 {
            return None;
        }
        let idx = self.len - 1;
        let r = self.elems.take(idx, store);
        self.len = idx;
        proof {
            let pre = *old(self);
            assert forall|st: Map<Key, Seq<u8>>| #[trigger] self.abs(st) == pre.abs(
                st,
            ).drop_last() by {
                assert forall|j: int| 0 <= j < self.spec_len() implies self.abs(st)[j] == pre.abs(
                    st,
                ).drop_last()[j] by {
                    assert(self.chunk().mem_entry(j as u32) == pre.chunk().mem_entry(j as u32));
                }
                assert(self.abs(st) =~= pre.abs(st).drop_last());
            }
            if pre.complete(store@) {
                assert forall|j: u32| j < self.spec_len() implies #[trigger] self.model_at(
                    store@,
                    j,
                ) is Some by {
                    assert(self.chunk().mem_entry(j) == pre.chunk().mem_entry(j));
                    assert(pre.model_at(store@, j) is Some);
                }
                assert forall|j: int| 0 <= j < self.spec_len() implies #[trigger] self.abs(
                    store@,
                )[j] is Some by {
                    assert(pre.abs(store@)[j] is Some);
                    assert(self.abs(store@)[j] == pre.abs(store@).drop_last()[j]);
                }
            }
        }
        r
    }

    /// Removes the last element without ever loading it: the now-excluded
    /// slot is overwritten with an empty `Mutated` entry, so the next
    /// synchronization clears its cell.  Reports only whether an element
    /// was there.
    pub fn pop_drop(&mut self) -> (r: Option<()>)
        requires
            old(self).wf(),
        ensures
            final(self).wf(),
            final(self).chunk().base_key() == old(self).chunk().base_key(),
            forall|j: u32|
                final(self).chunk().mem_entry(j) is Some || final(self).chunk().mem_entry(j)
                    == old(self).chunk().mem_entry(j),
            old(self).spec_len() == 0 ==> r is None && *final(self) == *old(self),
            old(self).spec_len() > 0 ==> {
                &&& r is Some
                &&& final(self).spec_len() == old(self).spec_len() - 1
                &&& forall|j: u32|
                    j != old(self).spec_len() - 1 ==> final(self).chunk().mem_entry(j) == old(self).chunk().mem_entry(j)
                &&& forall|st: Map<Key, Seq<u8>>| #[trigger] final(self).abs(st) == old(self).abs(
                    st,
                ).drop_last()
                &&& forall|st: Map<Key, Seq<u8>>|
                    old(self).complete(st) ==> #[trigger] final(self).complete(st)
            },
    {
        if self.len == 0 {
            return None;
        }
        let idx = self.len - 1;
        self.elems.put(idx, None);
        self.len = idx;
        proof {
            let pre = *old(self);
            assert forall|st: Map<Key, Seq<u8>>| #[trigger] self.abs(st) == pre.abs(
                st,
            ).drop_last() by {
                assert forall|j: int| 0 <= j < self.spec_len() implies self.abs(st)[j] == pre.abs(
                    st,
                ).drop_last()[j] by {
                    assert(self.chunk().mem_entry(j as u32) == pre.chunk().mem_entry(j as u32));
                }
                assert(self.abs(st) =~= pre.abs(st).drop_last());
            }
            assert forall|st: Map<Key, Seq<u8>>| pre.complete(st) implies #[trigger] self.complete(
                st,
            ) by {
                assert forall|j: u32| j < self.spec_len() implies #[trigger] self.model_at(
                    st,
                    j,
                ) is Some by {
                    assert(self.chunk().mem_entry(j) == pre.chunk().mem_entry(j));
                    assert(pre.model_at(st, j) is Some);
                }
                assert forall|j: int| 0 <= j < self.spec_len() implies #[trigger] self.abs(
                    st,
                )[j] is Some by {
                    assert(pre.abs(st)[j] is Some);
                    assert(self.abs(st)[j] == pre.abs(st).drop_last()[j]);
                }
            }
        }
        Some(())
    }

    /// Exchanges the elements at `a` and `b`, loading them on a cache
    /// miss; both entries are marked `Mutated`.  Indices at or beyond the
    /// length are programmer error and are excluded ahead of the call.
    pub fn swap(&mut self, a: u32, b: u32, store: &Store)
        requires
            old(self).wf(),
            a < old(self).spec_len(),
            b < old(self).spec_len(),
            old(self).model_at(store@, a) is Some,
            old(self).model_at(store@, b) is Some,
        ensures
            final(self).wf(),
            final(self).spec_len() == old(self).spec_len(),
            final(self).chunk().base_key() == old(self).chunk().base_key(),
            forall|j: u32|
                final(self).chunk().mem_entry(j) is Some || final(self).chunk().mem_entry(j)
                    == old(self).chunk().mem_entry(j),
            forall|j: u32|
                j != a && j != b ==> final(self).chunk().mem_entry(j) == old(self).chunk().mem_entry(
                    j,
                ),
            final(self).model_at(store@, a) is Some,
            final(self).model_at(store@, b) is Some,
            final(self).abs(store@) == old(self).abs(store@).update(
                a as int,
                old(self).abs(store@)[b as int],
            ).update(b as int, old(self).abs(store@)[a as int]),
            old(self).complete(store@) ==> final(self).complete(store@),
    {
        if a == b {
            proof {
                assert(final(self).abs(store@) =~= old(self).abs(store@).update(
                    a as int,
                    old(self).abs(store@)[b as int],
                ).update(b as int, old(self).abs(store@)[a as int]));
            }
            return ;
        }
        let va = self.elems.take(a, store);
        let vb = self.elems.put_get(b, va, store);
        self.elems.put(a, vb);
        proof {
            let pre = *old(self);
            let target = pre.abs(store@).update(a as int, pre.abs(store@)[b as int]).update(
                b as int,
                pre.abs(store@)[a as int],
            );
            assert forall|j: int| 0 <= j < self.spec_len() implies self.abs(store@)[j]
                == target[j] by {
                if j != a && j != b {
                    assert(self.chunk().mem_entry(j as u32) == pre.chunk().mem_entry(j as u32));
                }
            }
            assert(self.abs(store@) =~= target);
            if pre.complete(store@) {
                assert forall|j: u32| j < self.spec_len() implies #[trigger] self.model_at(
                    store@,
                    j,
                ) is Some by {
                    assert(self.chunk().mem_entry(j) is Some || self.chunk().mem_entry(j)
                        == pre.chunk().mem_entry(j));
                    assert(pre.model_at(store@, j) is Some);
                }
                assert forall|j: int| 0 <= j < self.spec_len() implies #[trigger] self.abs(
                    store@,
                )[j] is Some by {
                    assert(pre.abs(store@)[j] is Some);
                    assert(pre.abs(store@)[a as int] is Some);
                    assert(pre.abs(store@)[b as int] is Some);
                    assert(self.abs(store@)[j] == target[j]);
                }
            }
        }
    }

    /// Removes the element at `index` in O(1) by moving the last element
    /// into the vacated slot, then shrinking by one: removal does not
    /// preserve order.  Absent on an empty array; a non-empty array with
    /// `index` at or beyond the length is programmer error, excluded
    /// ahead of the call.
    pub fn swap_remove(&mut self, index: u32, store: &Store) -> (r: Option<T>)
        requires
            old(self).wf(),
            old(self).spec_len() > 0 ==> {
                &&& index < old(self).spec_len()
                &&& old(self).model_at(store@, index) is Some
                &&& old(self).model_at(store@, (old(self).spec_len() - 1) as u32) is Some
            },
        ensures
            final(self).wf(),
            final(self).chunk().base_key() == old(self).chunk().base_key(),
            forall|j: u32|
                final(self).chunk().mem_entry(j) is Some || final(self).chunk().mem_entry(j)
                    == old(self).chunk().mem_entry(j),
            old(self).spec_len() == 0 ==> r is None && *final(self) == *old(self),
            old(self).spec_len() > 0 ==> {
                &&& final(self).spec_len() == old(self).spec_len() - 1
                &&& r == old(self).abs(store@)[index as int]
                &&& final(self).abs(store@) == old(self).abs(store@).update(
                    index as int,
                    old(self).abs(store@).last(),
                ).drop_last()
                &&& (old(self).complete(store@) ==> final(self).complete(store@))
            },
    {
        if self.len == 0 {
            return None;
        }
        let last = self.len - 1;
        self.swap(index, last, store);
        let r = self.pop(store);
        proof {
            let pre = *old(self);
            let mid_abs = pre.abs(store@).update(index as int, pre.abs(store@)[last as int]).update(
                last as int,
                pre.abs(store@)[index as int],
            );
            let target = pre.abs(store@).update(index as int, pre.abs(store@).last()).drop_last();
            assert(self.abs(store@) =~= target);
            assert(r == mid_abs[last as int]);
            if pre.complete(store@) {
                assert forall|j: u32| j < self.spec_len() implies #[trigger] self.model_at(
                    store@,
                    j,
                ) is Some by {
                    assert(self.chunk().mem_entry(j) is Some || self.chunk().mem_entry(j)
                        == pre.chunk().mem_entry(j));
                    assert(pre.model_at(store@, j) is Some);
                }
                assert forall|j: int| 0 <= j < self.spec_len() implies #[trigger] self.abs(
                    store@,
                )[j] is Some by {
                    assert(pre.abs(store@)[j] is Some);
                    assert(pre.abs(store@)[pre.spec_len() - 1] is Some);
                    assert(self.abs(store@)[j] == target[j]);
                }
            }
        }
        r
    }

    /// Like `swap_remove`, but without ever loading the removed element:
    /// the last element is moved into the vacated slot and the array
    /// shrinks by one.  Reports only whether an element was there.
    pub fn swap_remove_drop(&mut self, index: u32, store: &Store) -> (r: Option<()>)
        requires
            old(self).wf(),
            old(self).spec_len() > 0 ==> {
                &&& index < old(self).spec_len()
                &&& old(self).model_at(store@, (old(self).spec_len() - 1) as u32) is Some
            },
        ensures
            final(self).wf(),
            final(self).chunk().base_key() == old(self).chunk().base_key(),
            forall|j: u32|
                final(self).chunk().mem_entry(j) is Some || final(self).chunk().mem_entry(j)
                    == old(self).chunk().mem_entry(j),
            old(self).spec_len() == 0 ==> r is None && *final(self) == *old(self),
            old(self).spec_len() > 0 ==> {
                &&& r is Some
                &&& final(self).spec_len() == old(self).spec_len() - 1
                &&& forall|j: u32|
                    j != index && j != old(self).spec_len() - 1 ==> final(self).chunk().mem_entry(j)
                        == old(self).chunk().mem_entry(j)
                &&& final(self).abs(store@) == old(self).abs(store@).update(
                    index as int,
                    old(self).abs(store@).last(),
                ).drop_last()
                &&& (old(self).complete(store@) ==> final(self).complete(store@))
            },
    {
        if self.len == 0 {
            return None;
        }
        let last = self.len - 1;
        let moved = self.elems.take(last, store);
        self.elems.put(index, moved);
        self.len = last;
        proof {
            let pre = *old(self);
            let target = pre.abs(store@).update(index as int, pre.abs(store@).last()).drop_last();
            assert forall|j: int| 0 <= j < self.spec_len() implies self.abs(store@)[j]
                == target[j] by {
                if j != index {
                    assert(self.chunk().mem_entry(j as u32) == pre.chunk().mem_entry(j as u32));
                }
            }
            assert(self.abs(store@) =~= target);
            if pre.complete(store@) {
                assert forall|j: u32| j < self.spec_len() implies #[trigger] self.model_at(
                    store@,
                    j,
                ) is Some by {
                    assert(self.chunk().mem_entry(j) is Some || self.chunk().mem_entry(j)
                        == pre.chunk().mem_entry(j));
                    assert(pre.model_at(store@, j) is Some);
                }
                assert forall|j: int| 0 <= j < self.spec_len() implies #[trigger] self.abs(
                    store@,
                )[j] is Some by {
                    assert(pre.abs(store@)[j] is Some);
                    assert(pre.abs(store@)[pre.spec_len() - 1] is Some);
                    assert(self.abs(store@)[j] == target[j]);
                }
            }
        }
        Some(())
    }

    /// The first element, if any.
    pub fn first(&mut self, store: &Store) -> (r: Option<&T>)
        requires
            old(self).wf(),
            old(self).spec_len() > 0 ==> old(self).model_at(store@, 0) is Some,
        ensures
            final(self).wf(),
            final(self).spec_len() == old(self).spec_len(),
            final(self).chunk().base_key() == old(self).chunk().base_key(),
            match r {
                Some(v) => old(self).spec_len() > 0 && old(self).model_at(store@, 0) == Some(
                    Some(*v),
                ),
                None => old(self).spec_len() == 0 || old(self).model_at(store@, 0) == Some(
                    None::<T>,
                ),
            },
    {
        self.get(0, store)
    }

    /// The last element, if any.
    pub fn last(&mut self, store: &Store) -> (r: Option<&T>)
        requires
            old(self).wf(),
            old(self).spec_len() > 0 ==> old(self).model_at(
                store@,
                (old(self).spec_len() - 1) as u32,
            ) is Some,
        ensures
            final(self).wf(),
            final(self).spec_len() == old(self).spec_len(),
            final(self).chunk().base_key() == old(self).chunk().base_key(),
            match r {
                Some(v) => old(self).spec_len() > 0 && old(self).model_at(
                    store@,
                    (old(self).spec_len() - 1) as u32,
                ) == Some(Some(*v)),
                None => old(self).spec_len() == 0 || old(self).model_at(
                    store@,
                    (old(self).spec_len() - 1) as u32,
                ) == Some(None::<T>),
            },
    {
        if self.len == 0 {
            return None;
        }
        let idx = self.len - 1;
        self.get(idx, store)
    }
}

impl<T: Packed> StorageVec<T> {
    /// Pulls every element of the collection into the cache, so that the
    /// purely in-memory observers — the iterator and `PartialEq` — see
    /// the logical contents.  Entries already cached are left exactly as
    /// they are; newly loaded ones are cached `Preserved`, so no
    /// write-back is owed afterwards that was not owed before.
    pub fn materialize(&mut self, store: &Store)
        requires
            old(self).wf(),
            old(self).resolvable(store@),
        ensures
            final(self).wf(),
            final(self).spec_len() == old(self).spec_len(),
            final(self).chunk().base_key() == old(self).chunk().base_key(),
            forall|j: u32| final(self).model_at(store@, j) == old(self).model_at(store@, j),
            forall|j: u32|
                old(self).chunk().mem_entry(j) is Some ==> final(self).chunk().mem_entry(j) == old(
                    self,
                ).chunk().mem_entry(j),
            forall|j: u32|
                j >= old(self).spec_len() ==> final(self).chunk().mem_entry(j) == old(
                    self,
                ).chunk().mem_entry(j),
            forall|j: u32| j < old(self).spec_len() ==> final(self).chunk().mem_entry(j) is Some,
            forall|j: u32|
                j < old(self).spec_len() ==> #[trigger] final(self).mem_value(j) == old(self).abs(
                    store@,
                )[j as int],
    {
        let n = self.len;
        let mut i: u32 = 0;
        while i < n
            invariant
                self.wf(),
                n == self.spec_len(),
                n == old(self).spec_len(),
                i <= n,
                old(self).resolvable(store@),
                self.chunk().base_key() == old(self).chunk().base_key(),
                forall|j: u32| self.model_at(store@, j) == old(self).model_at(store@, j),
                forall|j: u32|
                    old(self).chunk().mem_entry(j) is Some ==> self.chunk().mem_entry(j) == old(
                        self,
                    ).chunk().mem_entry(j),
                forall|j: u32| j >= i ==> self.chunk().mem_entry(j) == old(self).chunk().mem_entry(j),
                forall|j: u32| j < i ==> self.chunk().mem_entry(j) is Some,
            decreases n - i,
        {
            let ghost pre = *self;
            proof {
                assert(old(self).model_at(store@, i) is Some);
            }
            let _ = self.elems.get(i, store);
            proof {
                assert forall|j: u32|
                    old(self).chunk().mem_entry(j) is Some implies self.chunk().mem_entry(j) == old(
                    self,
                ).chunk().mem_entry(j) by {
                    if j != i {
                        assert(self.chunk().mem_entry(j) == pre.chunk().mem_entry(j));
                    }
                }
            }
            i = i + 1;
        }
        proof {
            assert forall|j: u32|
                j < old(self).spec_len() implies #[trigger] self.mem_value(j) == old(self).abs(
                store@,
            )[j as int] by {
                assert(self.model_at(store@, j) == old(self).model_at(store@, j));
                assert(old(self).model_at(store@, j) is Some);
            }
        }
    }

    /// Appends the given values at the end of the array, in order.
    pub fn extend_from_vec(&mut self, values: Vec<T>)
        requires
            old(self).wf(),
            old(self).spec_len() + values@.len() <= u32::MAX,
        ensures
            final(self).wf(),
            final(self).chunk().base_key() == old(self).chunk().base_key(),
            final(self).spec_len() == old(self).spec_len() + values@.len(),
            forall|j: u32|
                j < old(self).spec_len() ==> final(self).chunk().mem_entry(j) == old(
                    self,
                ).chunk().mem_entry(j),
            forall|j: u32|
                j < values@.len() ==> #[trigger] final(self).mem_value(
                    (old(self).spec_len() + j) as u32,
                ) == Some(values@[j as int]),
    {
        let mut values = values;
        let ghost vals = values@;
        let ghost len0 = self.spec_len();
        let n = values.len();
        let mut i: usize = 0;
        while i < n
            invariant
                self.wf(),
                n == vals.len(),
                len0 + n <= u32::MAX,
                values@ == vals.skip(i as int),
                self.chunk().base_key() == old(self).chunk().base_key(),
                self.spec_len() == len0 + i,
                i <= n,
                forall|j: u32|
                    j < len0 ==> self.chunk().mem_entry(j) == old(self).chunk().mem_entry(j),
                forall|j: u32|
                    j < i ==> #[trigger] self.mem_value((len0 + j) as u32) == Some(vals[j as int]),
            decreases n - i,
        {
            let v = values.remove(0);
            proof {
                assert(vals.skip(i as int)[0] == vals[i as int]);
                assert(vals.skip(i as int).remove(0) =~= vals.skip(i as int + 1));
            }
            let ghost pre = *self;
            let res = self.push(v);
            proof {
                assert(res is Ok);
                assert forall|j: u32| j < i + 1 implies #[trigger] self.mem_value((len0 + j) as u32)
                    == Some(vals[j as int]) by {
                    if (j as usize) < i {
                        assert(pre.mem_value((len0 + j) as u32) == Some(vals[j as int]));
                        assert(self.chunk().mem_entry((len0 + j) as u32) == pre.chunk().mem_entry(
                            (len0 + j) as u32,
                        ));
                        assert(self.mem_value((len0 + j) as u32) == Some(vals[j as int]));
                    } else {
                        assert(j == i as u32);
                        assert(self.mem_value(pre.spec_len()) == Some(v));
                        assert(pre.spec_len() == (len0 + j) as u32);
                        assert(vals[j as int] == vals[i as int]);
                        assert(v == vals[i as int]);
                        assert(self.mem_value((len0 + j) as u32) == Some(vals[j as int]));
                    }
                }
                assert forall|j: u32|
                    j < len0 implies self.chunk().mem_entry(j) == old(self).chunk().mem_entry(
                    j,
                ) by {
                    assert(self.chunk().mem_entry(j) == pre.chunk().mem_entry(j));
                }
            }
            i = i + 1;
        }
    }

    /// Builds an array holding the given values, in order.
    pub fn from_vec(values: Vec<T>) -> (r: StorageVec<T>)
        requires
            values@.len() <= u32::MAX,
        ensures
            r.wf(),
            r.spec_len() == values@.len(),
            r.chunk().base_key() is None,
            forall|j: u32| j < values@.len() ==> #[trigger] r.mem_value(j) == Some(values@[j as int]),
    {
        let ghost vals = values@;
        let mut r = StorageVec::new();
        r.extend_from_vec(values);
        proof {
            assert forall|j: u32| j < vals.len() implies #[trigger] r.mem_value(j) == Some(
                vals[j as int],
            ) by {
                assert(r.mem_value((0 + j) as u32) == Some(vals[j as int]));
            }
        }
        r
    }

    /// Reconstructs an array from the store by reading exactly its
    /// footprint starting at the cursor: the length cell, then the
    /// chunk's header cell, whose key becomes the chunk's base key.
    /// Element values are not eagerly pulled — they stay lazy.  A missing
    /// or undecodable length cell is a fatal deserialization error, which
    /// the preconditions rule out.
    pub fn pull_forward(ptr: &mut KeyPtr, store: &Store) -> (r: StorageVec<T>)
        requires
            old(ptr).cur() + 1 <= KEY_LIMIT,
            store@.contains_key(old(ptr).cur()),
            dec::<u32>(store@[old(ptr).cur()]) is Some,
        ensures
            r.wf(),
            final(ptr).cur() == old(ptr).cur() + 2,
            Some(r.spec_len()) == dec::<u32>(store@[old(ptr).cur()]),
            r.chunk().base_key() == Some((old(ptr).cur() + 1) as Key),
            forall|i: u32| r.chunk().mem_entry(i) is None,
            r.all_preserved(),
            r.consistent(store@),
    {
        let len: u32 = pull_single_cell::<u32>(ptr, store);
        let base = ptr.advance(1);
        StorageVec { len, elems: LazyIndexMap::with_key(base) }
    }

    /// Synchronizes the array with the store at the cursor's position:
    /// the length cell is written, the chunk takes the following cell as
    /// its base key (on first synchronization; afterwards the cursor must
    /// stand so that the base key is unchanged), and every cached
    /// `Mutated` element is written back at its derived key.  Elements
    /// never touched since the last synchronization are not re-written —
    /// they are assumed unchanged, consistent with the write-back
    /// discipline.  On first synchronization the element key range must
    /// be unoccupied: the footprint calculus lays siblings out so that no
    /// other live value derives keys there.
    pub fn push_forward(&mut self, ptr: &mut KeyPtr, store: &mut Store)
        requires
            old(self).wf(),
            old(ptr).cur() + 1 <= KEY_LIMIT,
            match old(self).chunk().base_key() {
                Some(k) => k == old(ptr).cur() + 1,
                None => forall|i: u32|
                    !old(store)@.contains_key(#[trigger] spec_key_at((old(ptr).cur() + 1) as Key, i)),
            },
        ensures
            final(self).wf(),
            final(ptr).cur() == old(ptr).cur() + 2,
            final(self).spec_len() == old(self).spec_len(),
            final(self).chunk().base_key() == Some((old(ptr).cur() + 1) as Key),
            final(self).all_preserved(),
            forall|i: u32|
                final(self).chunk().mem_entry(i) is Some <==> old(self).chunk().mem_entry(
                    i,
                ) is Some,
            forall|i: u32|
                old(self).chunk().mem_entry(i) is Some ==> final(self).chunk().mem_entry(
                    i,
                ).unwrap().spec_value() == old(self).chunk().mem_entry(i).unwrap().spec_value(),
            final(store)@.contains_key(old(ptr).cur()),
            final(store)@[old(ptr).cur()] == old(self).spec_len().enc(),
            forall|k: Key|
                k != old(ptr).cur() && !(exists|i: u32|
                    old(self).chunk().pushes_at(i) && k == spec_key_at(
                        (old(ptr).cur() + 1) as Key,
                        i,
                    )) ==> same_cell(old(store)@, final(store)@, k),
            final(self).abs(final(store)@) == old(self).abs(old(store)@),
            old(self).consistent(old(store)@) ==> final(self).consistent(final(store)@),
    {
        let k0 = ptr.advance(1);
        store.set(k0, self.len.encode());
        let ghost st1 = store@;
        self.elems.push_forward(ptr, store);
        proof {
            let pre = *old(self);
            let st0 = old(store)@;
            let stf = store@;
            let b = (old(ptr).cur() + 1) as Key;
            assert forall|k: Key|
                k != k0 && !(exists|i: u32| pre.chunk().pushes_at(i) && k == spec_key_at(b, i))
                    implies same_cell(st0, stf, k) by {
                assert(same_cell(st0, st1, k));
                assert(same_cell(st1, stf, k));
            }
            assert forall|x: u32| !(pre.chunk().pushes_at(x) && k0 == spec_key_at(b, x)) by {}
            assert(same_cell(st1, stf, k0));
            assert(stf.contains_key(k0) && stf[k0] == pre.spec_len().enc());
            assert forall|j: int| 0 <= j < self.spec_len() implies self.abs(stf)[j] == pre.abs(
                st0,
            )[j] by {
                let i = j as u32;
                if pre.chunk().mem_entry(i) is Some {
                    assert(self.chunk().mem_entry(i).unwrap().spec_value() == pre.chunk().mem_entry(
                        i,
                    ).unwrap().spec_value());
                } else {
                    let key = spec_key_at(b, i);
                    assert(!pre.chunk().pushes_at(i));
                    assert forall|x: u32|
                        !(pre.chunk().pushes_at(x) && key == spec_key_at(b, x)) by {
                        if key == spec_key_at(b, x) {
                            assert(x == i);
                        }
                    }
                    assert(key != k0);
                    assert(same_cell(st0, stf, key));
                    assert(self.chunk().mem_entry(i) is None);
                    match pre.chunk().base_key() {
                        Some(_) => {},
                        None => {
                            assert(!st0.contains_key(key));
                        },
                    }
                }
            }
            assert(self.abs(stf) =~= pre.abs(st0));
            if pre.consistent(st0) {
                assert forall|i: u32| #[trigger] self.consistent_at(stf, i) by {
                    if self.chunk().mem_entry(i) is Some {
                        let e_new = self.chunk().mem_entry(i).unwrap();
                        let e_old = pre.chunk().mem_entry(i).unwrap();
                        let key = spec_key_at(b, i);
                        if e_old.spec_mutated() {
                            assert(pre.chunk().pushes_at(i));
                        } else {
                            assert(pre.consistent_at(st0, i));
                            assert(!pre.chunk().pushes_at(i));
                            assert forall|x: u32|
                                !(pre.chunk().pushes_at(x) && key == spec_key_at(b, x)) by {
                                if key == spec_key_at(b, x) {
                                    assert(x == i);
                                }
                            }
                            assert(key != k0);
                            assert(same_cell(st0, stf, key));
                        }
                    }
                }
            }
        }
    }

    /// Recursively frees every cell the footprint calculus attributes to
    /// the array: the length cell, the chunk's header cell, and — only if
    /// the chunk was ever assigned storage — the cell of every index
    /// below the in-memory length.  A chunk never assigned storage has
    /// nothing downstream to free.
    pub fn clear_forward(&self, ptr: &mut KeyPtr, store: &mut Store)
        requires
            self.wf(),
            old(ptr).cur() + 2 <= u64::MAX,
        ensures
            final(ptr).cur() == old(ptr).cur() + 2,
            !final(store)@.contains_key(old(ptr).cur()),
            !final(store)@.contains_key((old(ptr).cur() + 1) as Key),
            match self.chunk().base_key() {
                Some(k) => forall|i: u32|
                    i < self.spec_len() ==> !final(store)@.contains_key(spec_key_at(k, i)),
                None => true,
            },
            forall|key: Key|
                key != old(ptr).cur() && key != (old(ptr).cur() + 1) as Key && !(match self.chunk().base_key() {
                    Some(k) => exists|i: u32| i < self.spec_len() && key == spec_key_at(k, i),
                    None => false,
                }) ==> same_cell(old(store)@, final(store)@, key),
    {
        let k0 = ptr.advance(1);
        let k1 = ptr.advance(1);
        store.clear(k0);
        store.clear(k1);
        let ghost st_mid = store@;
        self.elems.clear_cells(self.len, store);
        proof {
            match self.chunk().base_key() {
                None => {},
                Some(k) => {
                    if exists|i: u32| i < self.spec_len() && k0 == spec_key_at(k, i) {
                        let i = choose|i: u32| i < self.spec_len() && k0 == spec_key_at(k, i);
                        assert(!store@.contains_key(spec_key_at(k, i)));
                    } else {
                        assert(same_cell(st_mid, store@, k0));
                    }
                    if exists|i: u32| i < self.spec_len() && k1 == spec_key_at(k, i) {
                        let i = choose|i: u32| i < self.spec_len() && k1 == spec_key_at(k, i);
                        assert(!store@.contains_key(spec_key_at(k, i)));
                    } else {
                        assert(same_cell(st_mid, store@, k1));
                    }
                },
            }
            assert forall|key: Key|
                key != k0 && key != k1 && !(match self.chunk().base_key() {
                    Some(k) => exists|i: u32| i < self.spec_len() && key == spec_key_at(k, i),
                    None => false,
                }) implies same_cell(old(store)@, store@, key) by {
                assert(same_cell(old(store)@, st_mid, key));
                match self.chunk().base_key() {
                    None => {},
                    Some(_) => {
                        assert(same_cell(st_mid, store@, key));
                    },
                }
            }
        }
    }
}

/// Round trip: an array that has just been synchronized at a cursor
/// position — every cached entry `Preserved` and consistent with the
/// store, the length cell holding the encoded length — and a fresh array
/// pulled from the same position have the same logical contents.  The
/// hypotheses are exactly what `push_forward` leaves behind and what
/// `pull_forward` builds, so pushing and then pulling at one cursor
/// reconstructs the value.
pub proof fn lemma_round_trip<T: Packed>(
    pushed: StorageVec<T>,
    pulled: StorageVec<T>,
    st: Map<Key, Seq<u8>>,
    k0: Key,
)
    requires
        pushed.wf(),
        pushed.all_preserved(),
        pushed.consistent(st),
        pushed.chunk().base_key() == Some((k0 + 1) as Key),
        k0 + 1 <= KEY_LIMIT,
        st.contains_key(k0),
        st[k0] == pushed.spec_len().enc(),
        Some(pulled.spec_len()) == dec::<u32>(st[k0]),
        pulled.chunk().base_key() == Some((k0 + 1) as Key),
        forall|i: u32| pulled.chunk().mem_entry(i) is None,
    ensures
        pulled.spec_len() == pushed.spec_len(),
        pulled.abs(st) == pushed.abs(st),
{
    crate::codec::lemma_dec_enc::<u32>(pushed.spec_len());
    let b = (k0 + 1) as Key;
    assert forall|j: int| 0 <= j < pushed.spec_len() implies pulled.abs(st)[j] == pushed.abs(
        st,
    )[j] by {
        let i = j as u32;
        match pushed.chunk().mem_entry(i) {
            Some(e) => {
                assert(!pushed.chunk().pushes_at(i));
                assert(pushed.consistent_at(st, i));
                match e.spec_value() {
                    Some(v) => {
                        crate::codec::lemma_dec_enc::<T>(v);
                    },
                    None => {},
                }
            },
            None => {},
        }
    }
    assert(pulled.abs(st) =~= pushed.abs(st));
}

/// Length invariant: under `complete`, the logical contents hold exactly
/// `len` values, and every index below the length resolves to the present
/// element there — combined with the accessors' contracts (absent at or
/// beyond the length), an index is defined iff it lies below the length.
pub proof fn lemma_complete_len<T: Packed>(v: StorageVec<T>, st: Map<Key, Seq<u8>>)
    requires
        v.complete(st),
    ensures
        v.abs(st).len() == v.spec_len(),
        v.contents(st).len() == v.spec_len(),
        forall|i: u32|
            i < v.spec_len() ==> #[trigger] v.model_at(st, i) == Some(
                Some(v.contents(st)[i as int]),
            ),
{
    assert forall|i: u32| i < v.spec_len() implies #[trigger] v.model_at(st, i) == Some(
        Some(v.contents(st)[i as int]),
    ) by {
        assert(v.model_at(st, i) is Some);
        assert(v.abs(st)[i as int] is Some);
    }
}

/// An index-based iterator over the materialized contents of an array: it
/// holds a reference to the array and advances plain integer bounds,
/// resolving each element through the cache on demand.  On an array whose
/// elements are all cached it yields exactly the elements in order; every
/// array built in memory is in that state, and `materialize` brings a
/// freshly pulled array into it.
#[derive(Clone, Copy)]
pub struct Iter<'a, T> {
    vec: &'a StorageVec<T>,
    begin: u32,
    end: u32,
}

impl<'a, T> Iter<'a, T> {
    /// The array being iterated.
    pub closed spec fn vec_of(self) -> StorageVec<T> {
        *self.vec
    }

    /// The next index the iterator will yield.
    pub closed spec fn spec_begin(self) -> u32 {
        self.begin
    }

    /// One past the last index the iterator will yield.
    pub closed spec fn spec_end(self) -> u32 {
        self.end
    }

    /// The bounds stay ordered and within the array.
    pub open spec fn wf(self) -> bool {
        self.spec_begin() <= self.spec_end() <= self.vec_of().spec_len()
    }

    /// Yields the cached element at the front of the remaining range.
    pub fn next(&mut self) -> (r: Option<&'a T>)
        requires
            old(self).wf(),
        ensures
            final(self).wf(),
            final(self).vec_of() == old(self).vec_of(),
            final(self).spec_end() == old(self).spec_end(),
            old(self).spec_begin() == old(self).spec_end() ==> r is None && final(self).spec_begin() == old(self).spec_begin(),
            old(self).spec_begin() < old(self).spec_end() ==> {
                &&& final(self).spec_begin() == old(self).spec_begin() + 1
                &&& match r {
                    Some(v) => old(self).vec_of().mem_value(old(self).spec_begin()) == Some(*v),
                    None => old(self).vec_of().mem_value(old(self).spec_begin()) is None,
                }
            },
    {
        if self.begin < self.end {
            let r = self.vec.elems.cached_value(self.begin);
            self.begin = self.begin + 1;
            r
        } else {
            None
        }
    }

    /// Yields the cached element at the back of the remaining range.
    pub fn next_back(&mut self) -> (r: Option<&'a T>)
        requires
            old(self).wf(),
        ensures
            final(self).wf(),
            final(self).vec_of() == old(self).vec_of(),
            final(self).spec_begin() == old(self).spec_begin(),
            old(self).spec_begin() == old(self).spec_end() ==> r is None && final(self).spec_end()
                == old(self).spec_end(),
            old(self).spec_begin() < old(self).spec_end() ==> {
                &&& final(self).spec_end() == old(self).spec_end() - 1
                &&& match r {
                    Some(v) => old(self).vec_of().mem_value((old(self).spec_end() - 1) as u32)
                        == Some(*v),
                    None => old(self).vec_of().mem_value(
                        (old(self).spec_end() - 1) as u32,
                    ) is None,
                }
            },
    {
        if self.begin < self.end {
            let idx = self.end - 1;
            self.end = idx;
            self.vec.elems.cached_value(idx)
        } else {
            None
        }
    }

    /// Skips `n` elements and yields the one after them, as a combined
    /// step; past the end, the iterator is exhausted.
    pub fn nth(&mut self, n: u32) -> (r: Option<&'a T>)
        requires
            old(self).wf(),
        ensures
            final(self).wf(),
            final(self).vec_of() == old(self).vec_of(),
            final(self).spec_end() == old(self).spec_end(),
            n < old(self).spec_end() - old(self).spec_begin() ==> {
                &&& final(self).spec_begin() == old(self).spec_begin() + n + 1
                &&& match r {
                    Some(v) => old(self).vec_of().mem_value(
                        (old(self).spec_begin() + n) as u32,
                    ) == Some(*v),
                    None => old(self).vec_of().mem_value(
                        (old(self).spec_begin() + n) as u32,
                    ) is None,
                }
            },
            n >= old(self).spec_end() - old(self).spec_begin() ==> r is None && final(self).spec_begin() == old(self).spec_end(),
    {
        let remaining = self.end - self.begin;
        if n < remaining {
            let idx = self.begin + n;
            self.begin = idx + 1;
            self.vec.elems.cached_value(idx)
        } else {
            self.begin = self.end;
            None
        }
    }

    /// Skips `n` elements from the back and yields the one before them.
    pub fn nth_back(&mut self, n: u32) -> (r: Option<&'a T>)
        requires
            old(self).wf(),
        ensures
            final(self).wf(),
            final(self).vec_of() == old(self).vec_of(),
            final(self).spec_begin() == old(self).spec_begin(),
            n < old(self).spec_end() - old(self).spec_begin() ==> {
                &&& final(self).spec_end() == old(self).spec_end() - n - 1
                &&& match r {
                    Some(v) => old(self).vec_of().mem_value(
                        (old(self).spec_end() - n - 1) as u32,
                    ) == Some(*v),
                    None => old(self).vec_of().mem_value(
                        (old(self).spec_end() - n - 1) as u32,
                    ) is None,
                }
            },
            n >= old(self).spec_end() - old(self).spec_begin() ==> r is None && final(self).spec_end() == old(self).spec_begin(),
    {
        let remaining = self.end - self.begin;
        if n < remaining {
            let idx = self.end - n - 1;
            self.end = idx;
            self.vec.elems.cached_value(idx)
        } else {
            self.end = self.begin;
            None
        }
    }

    /// How many elements remain.
    pub fn count(self) -> (r: u32)
        requires
            self.wf(),
        ensures
            r == self.spec_end() - self.spec_begin(),
    {
        self.end - self.begin
    }

    /// The same range, iterated back to front.
    pub fn rev(self) -> (r: RevIter<'a, T>)
        requires
            self.wf(),
        ensures
            r.inner() == self,
    {
        RevIter { iter: self }
    }
}

/// The reversed view of an `Iter`: front operations act on the back of
/// the underlying range.
#[derive(Clone, Copy)]
pub struct RevIter<'a, T> {
    iter: Iter<'a, T>,
}

impl<'a, T> RevIter<'a, T> {
    /// The underlying forward iterator.
    pub closed spec fn inner(self) -> Iter<'a, T> {
        self.iter
    }

    /// The bounds stay ordered and within the array.
    pub open spec fn wf(self) -> bool {
        self.inner().wf()
    }

    /// Yields the element at the back of the remaining range.
    pub fn next(&mut self) -> (r: Option<&'a T>)
        requires
            old(self).wf(),
        ensures
            final(self).wf(),
            final(self).inner().vec_of() == old(self).inner().vec_of(),
            final(self).inner().spec_begin() == old(self).inner().spec_begin(),
            old(self).inner().spec_begin() == old(self).inner().spec_end() ==> r is None,
            old(self).inner().spec_begin() < old(self).inner().spec_end() ==> {
                &&& final(self).inner().spec_end() == old(self).inner().spec_end() - 1
                &&& match r {
                    Some(v) => old(self).inner().vec_of().mem_value(
                        (old(self).inner().spec_end() - 1) as u32,
                    ) == Some(*v),
                    None => old(self).inner().vec_of().mem_value(
                        (old(self).inner().spec_end() - 1) as u32,
                    ) is None,
                }
            },
    {
        self.iter.next_back()
    }

    /// Skips `n` elements and yields the one after them.
    pub fn nth(&mut self, n: u32) -> (r: Option<&'a T>)
        requires
            old(self).wf(),
        ensures
            final(self).wf(),
            final(self).inner().vec_of() == old(self).inner().vec_of(),
            final(self).inner().spec_begin() == old(self).inner().spec_begin(),
            n < old(self).inner().spec_end() - old(self).inner().spec_begin() ==> {
                &&& final(self).inner().spec_end() == old(self).inner().spec_end() - n - 1
                &&& match r {
                    Some(v) => old(self).inner().vec_of().mem_value(
                        (old(self).inner().spec_end() - n - 1) as u32,
                    ) == Some(*v),
                    None => old(self).inner().vec_of().mem_value(
                        (old(self).inner().spec_end() - n - 1) as u32,
                    ) is None,
                }
            },
            n >= old(self).inner().spec_end() - old(self).inner().spec_begin() ==> r is None,
    {
        self.iter.nth_back(n)
    }

    /// How many elements remain.
    pub fn count(self) -> (r: u32)
        requires
            self.wf(),
        ensures
            r == self.inner().spec_end() - self.inner().spec_begin(),
    {
        self.iter.count()
    }
}

impl<T> StorageVec<T> {
    /// An iterator over the materialized contents, front to back.  On a
    /// freshly pulled array, call `materialize` first so that the
    /// iterator sees the logical contents.
    pub fn iter(&self) -> (r: Iter<T>)
        ensures
            r.wf(),
            r.vec_of() == *self,
            r.spec_begin() == 0,
            r.spec_end() == self.spec_len(),
    {
        Iter { vec: self, begin: 0, end: self.len }
    }
}

/// Index-by-index agreement of the materialized contents of two arrays
/// of equal length, under the element type's own equality.
pub open spec fn vec_contents_eq<T: vstd::std_specs::cmp::PartialEqSpec>(
    a: StorageVec<T>,
    b: StorageVec<T>,
) -> bool {
    &&& a.spec_len() == b.spec_len()
    &&& forall|i: u32|
        i < a.spec_len() ==> (match (#[trigger] a.mem_value(i), b.mem_value(i)) {
            (Some(x), Some(y)) => x.eq_spec(&y),
            (None, None) => true,
            _ => false,
        })
}

impl<T: PartialEq + vstd::std_specs::cmp::PartialEqSpec> StorageVec<T> {
    /// Compares the materialized contents of two arrays index by index.
    fn contents_eq(&self, other: &StorageVec<T>) -> (r: bool)
        ensures
            T::obeys_eq_spec() ==> r == vec_contents_eq(*self, *other),
    {
        if self.len != other.len {
            return false;
        }
        let n = self.len;
        let mut i: u32 = 0;
        while i < n
            invariant
                n == self.spec_len(),
                self.spec_len() == other.spec_len(),
                i <= n,
                T::obeys_eq_spec() ==> forall|j: u32|
                    j < i ==> (match (#[trigger] self.mem_value(j), other.mem_value(j)) {
                        (Some(a), Some(b)) => a.eq_spec(&b),
                        (None, None) => true,
                        _ => false,
                    }),
            decreases n - i,
        {
            let a = self.elems.cached_value(i);
            let b = other.elems.cached_value(i);
            match (a, b) {
                (Some(x), Some(y)) => {
                    if !(x == y) {
                        proof {
                            if T::obeys_eq_spec() {
                                assert(self.mem_value(i) == Some(*x));
                                assert(other.mem_value(i) == Some(*y));
                                assert(!vec_contents_eq(*self, *other));
                            }
                        }
                        return false;
                    }
                },
                (None, None) => {},
                _ => {
                    proof {
                        if T::obeys_eq_spec() {
                            assert(!vec_contents_eq(*self, *other));
                        }
                    }
                    return false;
                },
            }
            i = i + 1;
        }
        true
    }
}

/// Index-by-index agreement of the logical contents of two arrays with
/// respect to store contents `st`, under the element type's own equality.
pub open spec fn abs_eq<T: Packed + vstd::std_specs::cmp::PartialEqSpec>(
    a: StorageVec<T>,
    b: StorageVec<T>,
    st: Map<Key, Seq<u8>>,
) -> bool {
    &&& a.spec_len() == b.spec_len()
    &&& forall|i: int|
        0 <= i < a.spec_len() ==> (match (#[trigger] a.abs(st)[i], b.abs(st)[i]) {
            (Some(x), Some(y)) => x.eq_spec(&y),
            (None, None) => true,
            _ => false,
        })
}

impl<T: Packed + PartialEq + vstd::std_specs::cmp::PartialEqSpec> StorageVec<T> {
    /// Logical equality with respect to the store: whether the two arrays
    /// resolve to the same contents, elements pulled on demand.  This is
    /// the store-aware counterpart of `==`, which can only see what is
    /// already in memory.  Both arrays come back fully materialized.
    pub fn logical_eq(&mut self, other: &mut StorageVec<T>, store: &Store) -> (r: bool)
        requires
            old(self).wf(),
            old(other).wf(),
            old(self).resolvable(store@),
            old(other).resolvable(store@),
        ensures
            final(self).wf(),
            final(other).wf(),
            final(self).spec_len() == old(self).spec_len(),
            final(other).spec_len() == old(other).spec_len(),
            forall|j: u32| final(self).model_at(store@, j) == old(self).model_at(store@, j),
            forall|j: u32| final(other).model_at(store@, j) == old(other).model_at(store@, j),
            T::obeys_eq_spec() ==> r == abs_eq(*old(self), *old(other), store@),
            vstd::laws_eq::obeys_concrete_eq::<T>() ==> r == (old(self).abs(store@) =~= old(
                other,
            ).abs(store@)),
    {
        self.materialize(store);
        other.materialize(store);
        let r = self.contents_eq(other);
        proof {
            let a = *old(self);
            let b = *old(other);
            if T::obeys_eq_spec() {
                assert(r == vec_contents_eq(*self, *other));
                if a.spec_len() == b.spec_len() {
                    assert forall|i: int| 0 <= i < a.spec_len() implies (match (
                        #[trigger] a.abs(store@)[i],
                        b.abs(store@)[i],
                    ) {
                        (Some(x), Some(y)) => x.eq_spec(&y),
                        (None, None) => true,
                        _ => false,
                    }) == (match (self.mem_value(i as u32), other.mem_value(i as u32)) {
                        (Some(x), Some(y)) => x.eq_spec(&y),
                        (None, None) => true,
                        _ => false,
                    }) by {
                        assert(self.mem_value(i as u32) == a.abs(store@)[i]);
                        assert(other.mem_value(i as u32) == b.abs(store@)[i]);
                    }
                    assert(r == abs_eq(a, b, store@));
                } else {
                    assert(!r);
                }
            }
            if vstd::laws_eq::obeys_concrete_eq::<T>() {
                reveal(vstd::laws_eq::obeys_concrete_eq);
                if abs_eq(a, b, store@) {
                    assert forall|i: int| 0 <= i < a.spec_len() implies a.abs(store@)[i] == b.abs(
                        store@,
                    )[i] by {}
                    assert(a.abs(store@) =~= b.abs(store@));
                } else {
                    if a.spec_len() == b.spec_len() && a.abs(store@) =~= b.abs(store@) {
                        assert forall|i: int| 0 <= i < a.spec_len() implies (match (
                            #[trigger] a.abs(store@)[i],
                            b.abs(store@)[i],
                        ) {
                            (Some(x), Some(y)) => x.eq_spec(&y),
                            (None, None) => true,
                            _ => false,
                        }) by {}
                        assert(false);
                    }
                }
            }
        }
        r
    }
}

impl<T: PartialEq + vstd::std_specs::cmp::PartialEqSpec> PartialEq for StorageVec<T> {
    /// Two arrays are equal when they have the same length and their
    /// materialized contents agree index by index.
    #[verifier::rlimit(50)]
    fn eq(&self, other: &StorageVec<T>) -> (r: bool) {
        self.contents_eq(other)
    }
}

impl<T: PartialEq + vstd::std_specs::cmp::PartialEqSpec> vstd::std_specs::cmp::PartialEqSpecImpl for StorageVec<T> {
    open spec fn obeys_eq_spec() -> bool {
        T::obeys_eq_spec()
    }

    open spec fn eq_spec(&self, other: &StorageVec<T>) -> bool {
        vec_contents_eq(*self, *other)
    }
}

impl<T> Footprint for StorageVec<T> {
    /// The array's static footprint: the length cell plus the element
    /// chunk's header cell.  The elements themselves are unbounded in
    /// number and addressed separately, so they are not counted.
    open spec fn spec_footprint() -> nat {
        <u32 as Footprint>::spec_footprint() + <LazyIndexMap<T> as Footprint>::spec_footprint()
    }

    fn footprint() -> (n: u64) {
        <u32 as Footprint>::footprint() + <LazyIndexMap<T> as Footprint>::footprint()
    }
}


} // verus!
