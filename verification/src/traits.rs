//! The footprint calculus and single-cell synchronization helpers.
//!
//! The footprint of a type is the number of store cells a value of it
//! occupies.  It is a function of the type alone — never of a runtime
//! value — so a cursor can skip past a sibling value without loading it.
//! A scalar occupies one cell by convention (key granularity is per value,
//! not per byte); a composite occupies the sum of its fields' footprints
//! plus its own overhead; an unbounded collection counts only its header
//! cell, since its elements are addressed separately.

use vstd::prelude::*;

use crate::codec::{dec, lemma_decode_is_dec, Packed};
use crate::key::KeyPtr;
use crate::store::Store;

verus! {

/// A type whose values occupy a statically known number of store cells.
pub trait Footprint {
    /// The number of cells a value occupies, independent of the value.
    spec fn spec_footprint() -> nat;

    /// The executable side of `spec_footprint`.
    fn footprint() -> (n: u64)
        ensures
            n as nat == Self::spec_footprint(),
    ;
}

impl Footprint for u8 {
    open spec fn spec_footprint() -> nat {
        1
    }

    fn footprint() -> (n: u64) {
        1
    }
}

impl Footprint for u32 {
    open spec fn spec_footprint() -> nat {
        1
    }

    fn footprint() -> (n: u64) {
        1
    }
}

impl Footprint for i32 {
    open spec fn spec_footprint() -> nat {
        1
    }

    fn footprint() -> (n: u64) {
        1
    }
}

/// Reads one scalar from the cell the cursor stands on and advances the
/// cursor past it.  The cell must hold a valid encoding: a missing or
/// undecodable cell is a fatal deserialization error, which these
/// preconditions rule out.
pub fn pull_single_cell<T: Packed>(ptr: &mut KeyPtr, store: &Store) -> (r: T)
    requires
        old(ptr).cur() + 1 <= u64::MAX,
        store@.contains_key(old(ptr).cur()),
        dec::<T>(store@[old(ptr).cur()]) is Some,
    ensures
        Some(r) == dec::<T>(store@[old(ptr).cur()]),
        final(ptr).cur() == old(ptr).cur() + 1,
{
    let key = ptr.advance(1);
    match store.get(key) {
        Some(bytes) => {
            let decoded = T::decode(bytes.as_slice());
            proof {
                lemma_decode_is_dec::<T>(decoded, store@[key]);
            }
            match decoded {
                Some(v) => v,
                None => vstd::pervasive::unreached(),
            }
        },
        None => vstd::pervasive::unreached(),
    }
}

/// Writes one scalar to the cell the cursor stands on and advances the
/// cursor past it.
pub fn push_single_cell<T: Packed>(value: &T, ptr: &mut KeyPtr, store: &mut Store)
    requires
        old(ptr).cur() + 1 <= u64::MAX,
    ensures
        final(store)@ == old(store)@.insert(old(ptr).cur(), value.enc()),
        final(ptr).cur() == old(ptr).cur() + 1,
{
    let key = ptr.advance(1);
    store.set(key, value.encode());
}

} // verus!
