//! The bounded array: the growable array's state machine under a fixed
//! capacity policy.
//!
//! A bounded array behaves exactly like `StorageVec`, except that `push`
//! reports a capacity error once the length reaches the bound, instead of
//! growing further.  The bound is part of the value, set at construction,
//! and never changes.

use vstd::prelude::*;
use vstd::std_specs::cmp::PartialEqSpec;

use crate::codec::Packed;
use crate::entry::EntryState;
use crate::key::Key;
use crate::storage_vec::{vec_contents_eq, Iter, StorageError, StorageVec};
use crate::store::Store;

verus! {

/// A lazily cached array bounded to a fixed number of elements.
#[derive(Debug)]
pub struct SmallVec<T> {
    cap: u32,
    vec: StorageVec<T>,
}

impl<T> SmallVec<T> {
    /// The capacity bound.
    pub closed spec fn spec_cap(self) -> u32 {
        self.cap
    }

    /// The underlying growable array.
    pub closed spec fn inner(self) -> StorageVec<T> {
        self.vec
    }

    /// The number of elements.
    pub open spec fn spec_len(self) -> u32 {
        self.inner().spec_len()
    }

    /// Well-formedness: the inner array is well-formed and within the
    /// bound.
    pub open spec fn wf(self) -> bool {
        &&& self.inner().wf()
        &&& self.spec_len() <= self.spec_cap()
    }

    /// Creates an empty bounded array with capacity `cap`.
    pub fn new(cap: u32) -> (r: SmallVec<T>)
        ensures
            r.wf(),
            r.spec_cap() == cap,
            r.spec_len() == 0,
            r.inner().chunk().base_key() is None,
            forall|i: u32| r.inner().chunk().mem_entry(i) is None,
    {
        SmallVec { cap, vec: StorageVec::new() }
    }

    /// The number of elements.
    pub fn len(&self) -> (r: u32)
        ensures
            r == self.spec_len(),
    {
        self.vec.len()
    }

    /// Whether the array holds no element.
    pub fn is_empty(&self) -> (r: bool)
        ensures
            r == (self.spec_len() == 0),
    {
        self.vec.is_empty()
    }

    /// An iterator over the materialized contents, front to back.
    pub fn iter(&self) -> (r: Iter<T>)
        ensures
            r.wf(),
            r.vec_of() == self.inner(),
            r.spec_begin() == 0,
            r.spec_end() == self.spec_len(),
    {
        self.vec.iter()
    }
}

impl<T> Default for SmallVec<T> {
    /// The default bounded array holds nothing and admits nothing: its
    /// capacity is zero.
    fn default() -> (r: SmallVec<T>)
        ensures
            r.wf(),
            r.spec_cap() == 0,
            r.spec_len() == 0,
            forall|i: u32| r.inner().chunk().mem_entry(i) is None,
    {
        SmallVec::new(0)
    }
}

impl<T: Packed> SmallVec<T> {
    /// The logical element at `index`; see `StorageVec::model_at`.
    pub open spec fn model_at(self, st: Map<Key, Seq<u8>>, index: u32) -> Option<Option<T>> {
        self.inner().model_at(st, index)
    }

    /// The logical contents with respect to `st`.
    pub open spec fn abs(self, st: Map<Key, Seq<u8>>) -> Seq<Option<T>> {
        self.inner().abs(st)
    }

    /// Every index of the collection resolves to a present value.
    pub open spec fn complete(self, st: Map<Key, Seq<u8>>) -> bool {
        self.inner().complete(st)
    }

    /// Resolves `index` to a shared reference to the element; absent at
    /// or beyond the length.
    pub fn get(&mut self, index: u32, store: &Store) -> (r: Option<&T>)
        requires
            old(self).wf(),
            index < old(self).spec_len() ==> old(self).model_at(store@, index) is Some,
        ensures
            final(self).wf(),
            final(self).spec_cap() == old(self).spec_cap(),
            final(self).spec_len() == old(self).spec_len(),
            forall|j: u32| final(self).model_at(store@, j) == old(self).model_at(store@, j),
            match r {
                Some(v) => index < old(self).spec_len() && old(self).model_at(store@, index)
                    == Some(Some(*v)),
                None => index >= old(self).spec_len() || old(self).model_at(store@, index)
                    == Some(None::<T>),
            },
    {
        self.vec.get(index, store)
    }

    /// Resolves `index` to an exclusive reference to the element,
    /// marking its entry `Mutated`; absent at or beyond the length.
    pub fn get_mut(&mut self, index: u32, store: &Store) -> (r: Option<&mut T>)
        requires
            old(self).wf(),
            index < old(self).spec_len() ==> old(self).model_at(store@, index) is Some,
        ensures
            final(self).wf(),
            final(self).spec_cap() == old(self).spec_cap(),
            final(self).spec_len() == old(self).spec_len(),
            forall|j: u32|
                j != index ==> final(self).inner().chunk().mem_entry(j) == old(self).inner().chunk().mem_entry(j),
            index >= old(self).spec_len() ==> r is None && *final(self) == *old(self),
            index < old(self).spec_len() ==> match old(self).model_at(store@, index).unwrap() {
                None => {
                    &&& r is None
                    &&& final(self).inner().mem_value(index) is None
                    &&& final(self).model_at(store@, index) == Some(None::<T>)
                },
                Some(x) => {
                    &&& r is Some
                    &&& *r.unwrap() == x
                    &&& final(self).inner().chunk().mem_entry(index).unwrap().spec_value() == Some(
                        *final(r.unwrap()),
                    )
                    &&& final(self).inner().chunk().mem_entry(index).unwrap().spec_state()
                        == EntryState::Mutated
                },
            },
    {
        self.vec.get_mut(index, store)
    }

    /// Appends `value` at the end, failing with a capacity error once
    /// the length has reached the bound — never a silent overwrite.
    pub fn push(&mut self, value: T) -> (r: Result<(), StorageError>)
        requires
            old(self).wf(),
        ensures
            final(self).wf(),
            final(self).spec_cap() == old(self).spec_cap(),
            old(self).spec_len() < old(self).spec_cap() ==> {
                &&& r is Ok
                &&& final(self).spec_len() == old(self).spec_len() + 1
                &&& final(self).inner().mem_value(old(self).spec_len()) == Some(value)
                &&& forall|j: u32|
                    j != old(self).spec_len() ==> final(self).inner().chunk().mem_entry(j) == old(self).inner().chunk().mem_entry(j)
                &&& forall|st: Map<Key, Seq<u8>>| #[trigger] final(self).abs(st) == old(self).abs(
                    st,
                ).push(Some(value))
                &&& forall|st: Map<Key, Seq<u8>>|
                    old(self).complete(st) ==> #[trigger] final(self).complete(st)
            },
            old(self).spec_len() >= old(self).spec_cap() ==> {
                &&& r == Err::<(), StorageError>(StorageError::CapacityExceeded)
                &&& *final(self) == *old(self)
            },
    {
        if self.vec.len() >= self.cap {
            return Err(StorageError::CapacityExceeded);
        }
        self.vec.push(value)
    }

    /// Removes and returns the last element; absent on an empty array.
    pub fn pop(&mut self, store: &Store) -> (r: Option<T>)
        requires
            old(self).wf(),
            old(self).spec_len() > 0 ==> old(self).model_at(
                store@,
                (old(self).spec_len() - 1) as u32,
            ) is Some,
        ensures
            final(self).wf(),
            final(self).spec_cap() == old(self).spec_cap(),
            old(self).spec_len() == 0 ==> r is None && *final(self) == *old(self),
            old(self).spec_len() > 0 ==> {
                &&& final(self).spec_len() == old(self).spec_len() - 1
                &&& Some(r) == old(self).model_at(store@, (old(self).spec_len() - 1) as u32)
                &&& forall|st: Map<Key, Seq<u8>>| #[trigger] final(self).abs(st) == old(self).abs(
                    st,
                ).drop_last()
                &&& (old(self).complete(store@) ==> final(self).complete(store@))
            },
    {
        self.vec.pop(store)
    }

    /// Removes the last element without loading it; reports only whether
    /// one was there.
    pub fn pop_drop(&mut self) -> (r: Option<()>)
        requires
            old(self).wf(),
        ensures
            final(self).wf(),
            final(self).spec_cap() == old(self).spec_cap(),
            old(self).spec_len() == 0 ==> r is None && *final(self) == *old(self),
            old(self).spec_len() > 0 ==> {
                &&& r is Some
                &&& final(self).spec_len() == old(self).spec_len() - 1
                &&& forall|j: u32|
                    j != old(self).spec_len() - 1 ==> final(self).inner().chunk().mem_entry(j)
                        == old(self).inner().chunk().mem_entry(j)
                &&& forall|st: Map<Key, Seq<u8>>| #[trigger] final(self).abs(st) == old(self).abs(
                    st,
                ).drop_last()
                &&& forall|st: Map<Key, Seq<u8>>|
                    old(self).complete(st) ==> #[trigger] final(self).complete(st)
            },
    {
        self.vec.pop_drop()
    }

    /// Exchanges the elements at `a` and `b`; indices at or beyond the
    /// length are programmer error, excluded ahead of the call.
    pub fn swap(&mut self, a: u32, b: u32, store: &Store)
        requires
            old(self).wf(),
            a < old(self).spec_len(),
            b < old(self).spec_len(),
            old(self).model_at(store@, a) is Some,
            old(self).model_at(store@, b) is Some,
        ensures
            final(self).wf(),
            final(self).spec_cap() == old(self).spec_cap(),
            final(self).spec_len() == old(self).spec_len(),
            forall|j: u32|
                j != a && j != b ==> final(self).inner().chunk().mem_entry(j) == old(self).inner().chunk().mem_entry(j),
            final(self).model_at(store@, a) is Some,
            final(self).model_at(store@, b) is Some,
            final(self).abs(store@) == old(self).abs(store@).update(
                a as int,
                old(self).abs(store@)[b as int],
            ).update(b as int, old(self).abs(store@)[a as int]),
            old(self).complete(store@) ==> final(self).complete(store@),
    {
        self.vec.swap(a, b, store)
    }

    /// Removes the element at `index` by moving the last element into
    /// its slot; order is not preserved.  Absent on an empty array.
    pub fn swap_remove(&mut self, index: u32, store: &Store) -> (r: Option<T>)
        requires
            old(self).wf(),
            old(self).spec_len() > 0 ==> {
                &&& index < old(self).spec_len()
                &&& old(self).model_at(store@, index) is Some
                &&& old(self).model_at(store@, (old(self).spec_len() - 1) as u32) is Some
            },
        ensures
            final(self).wf(),
            final(self).spec_cap() == old(self).spec_cap(),
            old(self).spec_len() == 0 ==> r is None && *final(self) == *old(self),
            old(self).spec_len() > 0 ==> {
                &&& final(self).spec_len() == old(self).spec_len() - 1
                &&& r == old(self).abs(store@)[index as int]
                &&& final(self).abs(store@) == old(self).abs(store@).update(
                    index as int,
                    old(self).abs(store@).last(),
                ).drop_last()
                &&& (old(self).complete(store@) ==> final(self).complete(store@))
            },
    {
        self.vec.swap_remove(index, store)
    }

    /// Like `swap_remove`, without loading the removed element.
    pub fn swap_remove_drop(&mut self, index: u32, store: &Store) -> (r: Option<()>)
        requires
            old(self).wf(),
            old(self).spec_len() > 0 ==> {
                &&& index < old(self).spec_len()
                &&& old(self).model_at(store@, (old(self).spec_len() - 1) as u32) is Some
            },
        ensures
            final(self).wf(),
            final(self).spec_cap() == old(self).spec_cap(),
            old(self).spec_len() == 0 ==> r is None && *final(self) == *old(self),
            old(self).spec_len() > 0 ==> {
                &&& r is Some
                &&& final(self).spec_len() == old(self).spec_len() - 1
                &&& forall|j: u32|
                    j != index && j != old(self).spec_len() - 1 ==> final(self).inner().chunk().mem_entry(j) == old(self).inner().chunk().mem_entry(j)
                &&& final(self).abs(store@) == old(self).abs(store@).update(
                    index as int,
                    old(self).abs(store@).last(),
                ).drop_last()
                &&& (old(self).complete(store@) ==> final(self).complete(store@))
            },
    {
        self.vec.swap_remove_drop(index, store)
    }

    /// The first element, if any.
    pub fn first(&mut self, store: &Store) -> (r: Option<&T>)
        requires
            old(self).wf(),
            old(self).spec_len() > 0 ==> old(self).model_at(store@, 0) is Some,
        ensures
            final(self).wf(),
            final(self).spec_cap() == old(self).spec_cap(),
            final(self).spec_len() == old(self).spec_len(),
            match r {
                Some(v) => old(self).spec_len() > 0 && old(self).model_at(store@, 0) == Some(
                    Some(*v),
                ),
                None => old(self).spec_len() == 0 || old(self).model_at(store@, 0) == Some(
                    None::<T>,
                ),
            },
    {
        self.vec.first(store)
    }

    /// An exclusive reference to the first element, if any; obtaining one
    /// marks its entry `Mutated`.
    pub fn first_mut(&mut self, store: &Store) -> (r: Option<&mut T>)
        requires
            old(self).wf(),
            old(self).spec_len() > 0 ==> old(self).model_at(store@, 0) is Some,
        ensures
            final(self).wf(),
            final(self).spec_cap() == old(self).spec_cap(),
            final(self).spec_len() == old(self).spec_len(),
            forall|j: u32|
                j != 0 ==> final(self).inner().chunk().mem_entry(j) == old(self).inner().chunk().mem_entry(j),
            old(self).spec_len() == 0 ==> r is None && *final(self) == *old(self),
            old(self).spec_len() > 0 ==> match old(self).model_at(store@, 0).unwrap() {
                None => {
                    &&& r is None
                    &&& final(self).inner().mem_value(0) is None
                },
                Some(x) => {
                    &&& r is Some
                    &&& *r.unwrap() == x
                    &&& final(self).inner().chunk().mem_entry(0).unwrap().spec_value() == Some(
                        *final(r.unwrap()),
                    )
                    &&& final(self).inner().chunk().mem_entry(0).unwrap().spec_state()
                        == EntryState::Mutated
                },
            },
    {
        self.vec.get_mut(0, store)
    }

    /// The last element, if any.
    pub fn last(&mut self, store: &Store) -> (r: Option<&T>)
        requires
            old(self).wf(),
            old(self).spec_len() > 0 ==> old(self).model_at(
                store@,
                (old(self).spec_len() - 1) as u32,
            ) is Some,
        ensures
            final(self).wf(),
            final(self).spec_cap() == old(self).spec_cap(),
            final(self).spec_len() == old(self).spec_len(),
            match r {
                Some(v) => old(self).spec_len() > 0 && old(self).model_at(
                    store@,
                    (old(self).spec_len() - 1) as u32,
                ) == Some(Some(*v)),
                None => old(self).spec_len() == 0 || old(self).model_at(
                    store@,
                    (old(self).spec_len() - 1) as u32,
                ) == Some(None::<T>),
            },
    {
        self.vec.last(store)
    }

    /// An exclusive reference to the last element, if any; obtaining one
    /// marks its entry `Mutated`.
    pub fn last_mut(&mut self, store: &Store) -> (r: Option<&mut T>)
        requires
            old(self).wf(),
            old(self).spec_len() > 0 ==> old(self).model_at(
                store@,
                (old(self).spec_len() - 1) as u32,
            ) is Some,
        ensures
            final(self).wf(),
            final(self).spec_cap() == old(self).spec_cap(),
            final(self).spec_len() == old(self).spec_len(),
            forall|j: u32|
                j != old(self).spec_len() - 1 ==> final(self).inner().chunk().mem_entry(j) == old(self).inner().chunk().mem_entry(j),
            old(self).spec_len() == 0 ==> r is None && *final(self) == *old(self),
            old(self).spec_len() > 0 ==> match old(self).model_at(
                store@,
                (old(self).spec_len() - 1) as u32,
            ).unwrap() {
                None => {
                    &&& r is None
                    &&& final(self).inner().mem_value((old(self).spec_len() - 1) as u32) is None
                },
                Some(x) => {
                    &&& r is Some
                    &&& *r.unwrap() == x
                    &&& final(self).inner().chunk().mem_entry(
                        (old(self).spec_len() - 1) as u32,
                    ).unwrap().spec_value() == Some(*final(r.unwrap()))
                    &&& final(self).inner().chunk().mem_entry(
                        (old(self).spec_len() - 1) as u32,
                    ).unwrap().spec_state() == EntryState::Mutated
                },
            },
    {
        if self.vec.is_empty() {
            return None;
        }
        let idx = self.vec.len() - 1;
        self.vec.get_mut(idx, store)
    }

    /// Builds a bounded array of capacity `cap` from the given values,
    /// failing with a capacity error if there are more than `cap`.
    pub fn from_vec(values: Vec<T>, cap: u32) -> (r: Result<SmallVec<T>, StorageError>)
        ensures
            values@.len() <= cap ==> {
                &&& r is Ok
                &&& r.unwrap().wf()
                &&& r.unwrap().spec_cap() == cap
                &&& r.unwrap().spec_len() == values@.len()
                &&& forall|i: u32|
                    i < values@.len() ==> #[trigger] r.unwrap().inner().mem_value(i) == Some(
                        values@[i as int],
                    )
            },
            values@.len() > cap ==> r == Err::<SmallVec<T>, StorageError>(
                StorageError::CapacityExceeded,
            ),
    {
        let mut out: SmallVec<T> = SmallVec::new(cap);
        let mut values = values;
        let ghost vals = values@;
        let n = values.len();
        if n > cap as usize {
            return Err(StorageError::CapacityExceeded);
        }
        let mut i: usize = 0;
        while i < n
            invariant
                out.wf(),
                n == vals.len(),
                n <= cap as usize,
                values@ == vals.skip(i as int),
                out.spec_cap() == cap,
                out.spec_len() == i,
                i <= n,
                forall|j: u32| j < i ==> #[trigger] out.inner().mem_value(j) == Some(vals[j as int]),
            decreases n - i,
        {
            let v = values.remove(0);
            proof {
                assert(vals.skip(i as int)[0] == vals[i as int]);
                assert(vals.skip(i as int).remove(0) =~= vals.skip(i as int + 1));
            }
            let ghost out_pre = out;
            let res = out.push(v);
            proof {
                assert(res is Ok);
                assert forall|j: u32| j < i + 1 implies #[trigger] out.inner().mem_value(j)
                    == Some(vals[j as int]) by {
                    if (j as usize) < i {
                        assert(out.inner().chunk().mem_entry(j) == out_pre.inner().chunk().mem_entry(
                            j,
                        ));
                        assert(out_pre.inner().mem_value(j) == Some(vals[j as int]));
                    } else {
                        assert(out.inner().mem_value(j) == Some(v));
                    }
                }
            }
            i = i + 1;
        }
        Ok(out)
    }
}

impl<T: PartialEq + vstd::std_specs::cmp::PartialEqSpec> PartialEq for SmallVec<T> {
    /// Two bounded arrays are equal when their contents are: the bound
    /// is a policy, not part of the contents.
    fn eq(&self, other: &SmallVec<T>) -> (r: bool) {
        self.vec == other.vec
    }
}

impl<T: PartialEq + vstd::std_specs::cmp::PartialEqSpec> vstd::std_specs::cmp::PartialEqSpecImpl for SmallVec<T> {
    open spec fn obeys_eq_spec() -> bool {
        T::obeys_eq_spec()
    }

    open spec fn eq_spec(&self, other: &SmallVec<T>) -> bool {
        vec_contents_eq(self.inner(), other.inner())
    }
}

} // verus!
