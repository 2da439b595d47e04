//! The write-back entry: the unit of lazy loading and dirty tracking.
//!
//! An entry holds an optional cached value together with a state that says
//! whether the value must still be synchronized with the backing store.
//! The state turns to `Mutated` on any operation that hands out (or could
//! hand out) a mutable view of an occupied value, or that inserts or
//! removes a value — the cache cannot observe what a caller does through a
//! mutable handle, so it assumes the worst.  Writing back resets the state
//! to `Preserved`; a `Preserved` entry is assumed consistent with the
//! store and is never re-written.

use vstd::prelude::*;

use crate::codec::Packed;
use crate::key::KeyPtr;
use crate::store::Store;

verus! {

/// Whether a cached value must still be synchronized with the store.
#[derive(Debug, Copy, Clone, PartialEq, Eq, Structural)]
pub enum EntryState {
    /// The value may have changed and must be written back.
    Mutated,
    /// The value is consistent with the backing store.
    Preserved,
}

/// A single cached cell value: an optional value plus its dirty state.
/// An entry whose value is `None` is semantically absent; writing back an
/// absent mutated entry clears the backing cell rather than skipping it.
#[derive(Debug, Clone)]
pub struct Entry<T> {
    value: Option<T>,
    state: EntryState,
}

impl<T> Entry<T> {
    /// The cached value.
    pub closed spec fn spec_value(self) -> Option<T> {
        self.value
    }

    /// The dirty state.
    pub closed spec fn spec_state(self) -> EntryState {
        self.state
    }

    /// Whether the entry must be written back.
    pub open spec fn spec_mutated(self) -> bool {
        self.spec_state() == EntryState::Mutated
    }

    /// Creates a new entry with the given value and state.
    pub fn new(value: Option<T>, state: EntryState) -> (r: Entry<T>)
        ensures
            r.spec_value() == value,
            r.spec_state() == state,
    {
        Entry { value, state }
    }

    /// Returns `true` if the cached value of the entry has potentially
    /// been mutated.
    pub fn mutated(&self) -> (r: bool)
        ensures
            r == self.spec_mutated(),
    {
        self.state == EntryState::Mutated
    }

    /// Returns `true` if the cached value of the entry has potentially
    /// been mutated.
    pub fn is_mutated(&self) -> (r: bool)
        ensures
            r == self.spec_mutated(),
    {
        self.state == EntryState::Mutated
    }

    /// Returns a shared reference to the value of the entry; no side
    /// effect.
    pub fn value(&self) -> (r: Option<&T>)
        ensures
            match r {
                Some(v) => self.spec_value() == Some(*v),
                None => self.spec_value() is None,
            },
    {
        self.value.as_ref()
    }

    /// Returns an exclusive reference to the value of the entry.
    ///
    /// If the entry is occupied this marks it `Mutated`, since the caller
    /// may change the value through the returned reference.  If the entry
    /// is empty the state is left unchanged: a mutable reference to
    /// "nothing" creates no need to write back.
    pub fn value_mut(&mut self) -> (r: Option<&mut T>)
        ensures
            match old(self).spec_value() {
                None => {
                    &&& r is None
                    &&& *final(self) == *old(self)
                },
                Some(x) => {
                    &&& r is Some
                    &&& *r.unwrap() == x
                    &&& final(self).spec_value() == Some(*final(r.unwrap()))
                    &&& final(self).spec_state() == EntryState::Mutated
                },
            },
    {
        if self.value.is_some() {
            self.state = EntryState::Mutated;
        }
        self.value.as_mut()
    }

    /// Takes the value out of the entry and returns it, marking the entry
    /// `Mutated` iff a value was present — removal is only a real change
    /// if something was there.
    pub fn take_value(&mut self) -> (r: Option<T>)
        ensures
            r == old(self).spec_value(),
            final(self).spec_value() is None,
            final(self).spec_state() == if old(self).spec_value() is Some {
                EntryState::Mutated
            } else {
                old(self).spec_state()
            },
    {
        let r = self.value.take();
        if r.is_some() {
            self.state = EntryState::Mutated;
        }
        r
    }

    /// Converts the entry into its value.
    pub fn into_value(self) -> (r: Option<T>)
        ensures
            r == self.spec_value(),
    {
        self.value
    }

    /// Puts the new value into the entry and returns the old value,
    /// marking the entry `Mutated` unless both old and new value are
    /// absent.
    pub fn put(&mut self, new_value: Option<T>) -> (r: Option<T>)
        ensures
            r == old(self).spec_value(),
            final(self).spec_value() == new_value,
            final(self).spec_state() == if old(self).spec_value() is Some || new_value is Some {
                EntryState::Mutated
            } else {
                old(self).spec_state()
            },
    {
        let had_value = self.value.is_some();
        let r = self.value.take();
        self.value = new_value;
        if had_value || self.value.is_some() {
            self.state = EntryState::Mutated;
        }
        r
    }
}

impl<T: Packed> Entry<T> {
    /// Writes the entry back to the store at the cursor's key if it is
    /// `Mutated`, and resets it to `Preserved`: an occupied value is
    /// encoded into the cell, an absent value clears the cell.  A
    /// `Preserved` entry performs no store operation at all — it is
    /// assumed already consistent with the store, even if it was never
    /// pulled, because "preserved and never pulled" means "untouched, so
    /// unchanged".
    pub fn push_forward(&mut self, ptr: &mut KeyPtr, store: &mut Store)
        requires
            old(ptr).cur() + 1 <= u64::MAX,
        ensures
            final(self).spec_value() == old(self).spec_value(),
            final(self).spec_state() == EntryState::Preserved,
            final(ptr).cur() == old(ptr).cur() + 1,
            final(store)@ == if !old(self).spec_mutated() {
                old(store)@
            } else {
                match old(self).spec_value() {
                    Some(v) => old(store)@.insert(old(ptr).cur(), v.enc()),
                    None => old(store)@.remove(old(ptr).cur()),
                }
            },
    {
        let key = ptr.advance(1);
        if self.is_mutated() {
            match self.value.as_ref() {
                Some(v) => store.set(key, v.encode()),
                None => store.clear(key),
            }
            self.state = EntryState::Preserved;
        }
    }
}

} // verus!
