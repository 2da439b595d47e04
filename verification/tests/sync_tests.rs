use lazy_storage::codec::Packed;
use lazy_storage::key::KeyPtr;
use lazy_storage::lazy::LazyIndexMap;
use lazy_storage::smallvec::SmallVec;
use lazy_storage::storage_vec::{StorageError, StorageVec};
use lazy_storage::store::Store;
use lazy_storage::traits::{pull_single_cell, push_single_cell, Footprint};

#[test]
fn key_cursor_advances() {
    let mut ptr = KeyPtr::from_key(10);
    assert_eq!(ptr.advance(2), 10);
    assert_eq!(ptr.advance(1), 12);
    assert_eq!(ptr.advance(5), 13);
}

#[test]
fn footprints_are_static() {
    assert_eq!(u8::footprint(), 1);
    assert_eq!(u32::footprint(), 1);
    assert_eq!(i32::footprint(), 1);
    assert_eq!(LazyIndexMap::<u8>::footprint(), 1);
    // A growable array: one length cell plus the chunk's header cell.
    assert_eq!(StorageVec::<u8>::footprint(), 2);
}

#[test]
fn codec_round_trips_exactly() {
    assert_eq!(7u8.encode(), vec![7u8]);
    assert_eq!(u8::decode(&[7u8]), Some(7u8));
    assert_eq!(u8::decode(&[]), None);
    assert_eq!(u8::decode(&[1, 2]), None);

    assert_eq!(0x0403_0201u32.encode(), vec![1u8, 2, 3, 4]);
    assert_eq!(u32::decode(&[1, 2, 3, 4]), Some(0x0403_0201u32));
    assert_eq!(u32::decode(&[1, 2, 3]), None);

    assert_eq!((-2i32).encode(), vec![0xFE, 0xFF, 0xFF, 0xFF]);
    assert_eq!(i32::decode(&[0xFE, 0xFF, 0xFF, 0xFF]), Some(-2i32));
    assert_eq!(i32::decode(&[0xFE]), None);
}

#[test]
fn store_get_set_clear_work() {
    let mut store = Store::new();
    assert_eq!(store.get(1), None);
    store.set(1, vec![9]);
    assert_eq!(store.get(1), Some(&vec![9u8]));
    store.set(1, vec![8]);
    assert_eq!(store.get(1), Some(&vec![8u8]));
    store.clear(1);
    assert_eq!(store.get(1), None);
}

#[test]
fn single_cell_round_trip() {
    let mut store = Store::new();
    let mut ptr = KeyPtr::from_key(3);
    push_single_cell(&0xABCD_1234u32, &mut ptr, &mut store);
    let mut ptr = KeyPtr::from_key(3);
    let v: u32 = pull_single_cell(&mut ptr, &store);
    assert_eq!(v, 0xABCD_1234u32);
}

#[test]
fn round_trip_reconstructs_contents() {
    let mut store = Store::new();
    let mut vec = StorageVec::new();
    for b in [b'A', b'B', b'C', b'D'] {
        vec.push(b).unwrap();
    }
    let mut ptr = KeyPtr::from_key(0);
    vec.push_forward(&mut ptr, &mut store);

    let mut ptr = KeyPtr::from_key(0);
    let mut pulled = StorageVec::<u8>::pull_forward(&mut ptr, &store);
    assert_eq!(pulled.len(), 4);
    assert_eq!(pulled.get(0, &store), Some(&b'A'));
    assert_eq!(pulled.get(1, &store), Some(&b'B'));
    assert_eq!(pulled.get(2, &store), Some(&b'C'));
    assert_eq!(pulled.get(3, &store), Some(&b'D'));
    assert_eq!(pulled.get(4, &store), None);
    assert_eq!(pulled, vec);
}

#[test]
fn push_forward_writes_only_dirty_elements() {
    let mut store = Store::new();
    let mut vec = StorageVec::new();
    for b in [b'A', b'B'] {
        vec.push(b).unwrap();
    }
    let mut ptr = KeyPtr::from_key(0);
    vec.push_forward(&mut ptr, &mut store);
    // Elements sit at keys 2 and 3 (length cell 0, chunk header 1).
    assert_eq!(store.get(2), Some(&vec![b'A']));
    assert_eq!(store.get(3), Some(&vec![b'B']));

    // Corrupt one cell behind the cache's back, then synchronize again
    // without touching any element: nothing is re-written, so the cell
    // keeps the out-of-band value — entries never touched are assumed
    // unchanged.
    store.set(2, vec![b'Z']);
    let mut ptr = KeyPtr::from_key(0);
    vec.push_forward(&mut ptr, &mut store);
    assert_eq!(store.get(2), Some(&vec![b'Z']));

    // A mutable access marks the element dirty; the next synchronization
    // re-writes exactly that cell.
    if let Some(v) = vec.get_mut(0, &store) {
        *v = b'Q';
    }
    let mut ptr = KeyPtr::from_key(0);
    vec.push_forward(&mut ptr, &mut store);
    assert_eq!(store.get(2), Some(&vec![b'Q']));
    assert_eq!(store.get(3), Some(&vec![b'B']));
}

#[test]
fn clear_forward_empties_every_attributed_cell() {
    let mut store = Store::new();
    let mut vec = StorageVec::new();
    for b in [b'A', b'B', b'C', b'D'] {
        vec.push(b).unwrap();
    }
    let mut ptr = KeyPtr::from_key(10);
    vec.push_forward(&mut ptr, &mut store);
    assert_eq!(store.get(10), Some(&4u32.encode()));
    assert_eq!(store.get(12), Some(&vec![b'A']));

    let mut ptr = KeyPtr::from_key(10);
    vec.clear_forward(&mut ptr, &mut store);
    // The length cell, the chunk header cell, and every element cell the
    // footprint calculus attributes to the array read back as absent.
    for key in 10..16u64 {
        assert_eq!(store.get(key), None);
    }
}

#[test]
fn clear_forward_without_storage_only_clears_header() {
    let mut store = Store::new();
    store.set(0, vec![1]);
    store.set(5, vec![2]);
    let vec = StorageVec::<u8>::new();
    let mut ptr = KeyPtr::from_key(0);
    vec.clear_forward(&mut ptr, &mut store);
    assert_eq!(store.get(0), None);
    assert_eq!(store.get(1), None);
    // A chunk never assigned storage has nothing downstream to free.
    assert_eq!(store.get(5), Some(&vec![2u8]));
}

#[test]
fn bounded_capacity_rejects_fifth_push() {
    let store = Store::new();
    let mut vec = SmallVec::new(4);
    assert_eq!(vec.push(b'A'), Ok(()));
    assert_eq!(vec.push(b'B'), Ok(()));
    assert_eq!(vec.push(b'C'), Ok(()));
    assert_eq!(vec.push(b'D'), Ok(()));
    assert_eq!(vec.push(b'E'), Err(StorageError::CapacityExceeded));
    // The error is reported, not a silent overwrite: nothing changed.
    assert_eq!(vec.len(), 4);
    assert_eq!(vec.get(3, &store), Some(&b'D'));
    assert_eq!(vec.get(4, &store), None);
}

#[test]
fn lifo_push_pop_order() {
    let store = Store::new();
    let mut vec = StorageVec::new();
    for b in [b'A', b'B', b'C', b'D'] {
        vec.push(b).unwrap();
    }
    assert_eq!(vec.pop(&store), Some(b'D'));
    assert_eq!(vec.pop(&store), Some(b'C'));
    assert_eq!(vec.pop(&store), Some(b'B'));
    assert_eq!(vec.pop(&store), Some(b'A'));
    assert_eq!(vec.pop(&store), None);
}

#[test]
fn swap_remove_moves_last_into_slot() {
    let store = Store::new();
    let mut vec = StorageVec::new();
    for b in [b'A', b'B', b'C', b'D'] {
        vec.push(b).unwrap();
    }
    assert_eq!(vec.swap_remove(0, &store), Some(b'A'));
    assert_eq!(vec.len(), 3);
    assert_eq!(vec.get(0, &store), Some(&b'D'));
    assert_eq!(vec.get(1, &store), Some(&b'B'));
    assert_eq!(vec.get(2, &store), Some(&b'C'));
}

#[test]
fn length_tracks_present_elements() {
    let store = Store::new();
    let mut vec = StorageVec::new();
    vec.push(1u8).unwrap();
    vec.push(2u8).unwrap();
    vec.push(3u8).unwrap();
    assert_eq!(vec.pop(&store), Some(3u8));
    vec.push(4u8).unwrap();
    assert_eq!(vec.swap_remove(0, &store), Some(1u8));
    // After any sequence of push/pop/swap_remove, every index below the
    // length is defined and every index at or beyond it is absent.
    let len = vec.len();
    assert_eq!(len, 2);
    for i in 0..len {
        assert!(vec.get(i, &store).is_some());
    }
    assert_eq!(vec.get(len, &store), None);
    assert_eq!(vec.get(len + 1, &store), None);
}

#[test]
fn lazy_chunk_defers_loads_and_caches() {
    let mut store = Store::new();
    store.set(12, vec![b'X']);
    // A chunk based at the header cell 11 resolves index 0 to key 12.
    let mut chunk = LazyIndexMap::<u8>::with_key(11);
    assert_eq!(chunk.get(0, &store), Some(&b'X'));
    // An index whose cell is absent resolves to "no value".
    assert_eq!(chunk.get(1, &store), None);
    // A chunk never assigned storage resolves to empty without a load.
    let mut fresh = LazyIndexMap::<u8>::new();
    assert_eq!(fresh.get(0, &store), None);
    // Replacement hands back the previous value and caches the new one.
    assert_eq!(chunk.put_get(0, Some(b'Y'), &store), Some(b'X'));
    assert_eq!(chunk.take(0, &store), Some(b'Y'));
    assert_eq!(chunk.get(0, &store), None);
}

#[test]
fn extend_appends_in_order() {
    let store = Store::new();
    let mut vec = StorageVec::from_vec(vec![b'A', b'B']);
    vec.extend_from_vec(vec![b'C', b'D']);
    assert_eq!(vec.len(), 4);
    assert_eq!(vec.get(0, &store), Some(&b'A'));
    assert_eq!(vec.get(2, &store), Some(&b'C'));
    assert_eq!(vec.get(3, &store), Some(&b'D'));
    assert_eq!(vec, StorageVec::from_vec(vec![b'A', b'B', b'C', b'D']));
}

#[test]
fn materialize_brings_pulled_contents_into_memory() {
    let mut store = Store::new();
    let mut vec = StorageVec::new();
    for b in [b'A', b'B', b'C'] {
        vec.push(b).unwrap();
    }
    let mut ptr = KeyPtr::from_key(0);
    vec.push_forward(&mut ptr, &mut store);

    let mut ptr = KeyPtr::from_key(0);
    let mut pulled = StorageVec::<u8>::pull_forward(&mut ptr, &store);
    // Nothing is materialized yet: the in-memory observers see nothing.
    assert!(pulled.iter().next().is_none());
    assert_ne!(pulled, vec);
    // After materializing, the iterator and `==` see the logical contents.
    pulled.materialize(&store);
    let mut it = pulled.iter();
    assert_eq!(it.next(), Some(&b'A'));
    assert_eq!(it.next(), Some(&b'B'));
    assert_eq!(it.next(), Some(&b'C'));
    assert_eq!(it.next(), None);
    assert_eq!(pulled, vec);
}

#[test]
fn logical_eq_sees_through_the_cache() {
    let mut store = Store::new();
    let mut vec = StorageVec::new();
    for b in [b'A', b'B', b'C'] {
        vec.push(b).unwrap();
    }
    let mut ptr = KeyPtr::from_key(0);
    vec.push_forward(&mut ptr, &mut store);

    let mut ptr = KeyPtr::from_key(0);
    let mut pulled = StorageVec::<u8>::pull_forward(&mut ptr, &store);
    // The pulled array holds the same logical contents, even though its
    // cache is empty.
    assert!(pulled.logical_eq(&mut vec, &store));
    // A genuine difference is still seen.
    assert_eq!(vec.pop(&store), Some(b'C'));
    let mut ptr = KeyPtr::from_key(0);
    let mut pulled2 = StorageVec::<u8>::pull_forward(&mut ptr, &store);
    assert!(!pulled2.logical_eq(&mut vec, &store));
}
