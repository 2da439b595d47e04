use lazy_storage::entry::{Entry, EntryState};
use lazy_storage::key::KeyPtr;
use lazy_storage::store::Store;

#[test]
fn new_and_state_accessors_work() {
    let e = Entry::new(Some(7u8), EntryState::Mutated);
    assert!(e.mutated());
    assert!(e.is_mutated());
    assert_eq!(e.value(), Some(&7u8));

    let e = Entry::new(None::<u8>, EntryState::Preserved);
    assert!(!e.mutated());
    assert!(!e.is_mutated());
    assert_eq!(e.value(), None);
}

#[test]
fn value_is_side_effect_free() {
    let e = Entry::new(Some(1u8), EntryState::Preserved);
    assert_eq!(e.value(), Some(&1u8));
    assert!(!e.mutated());
}

#[test]
fn value_mut_marks_occupied_entry() {
    let mut e = Entry::new(Some(1u8), EntryState::Preserved);
    if let Some(v) = e.value_mut() {
        *v = 2;
    }
    assert!(e.mutated());
    assert_eq!(e.value(), Some(&2u8));
}

#[test]
fn value_mut_on_empty_leaves_state() {
    let mut e = Entry::new(None::<u8>, EntryState::Preserved);
    assert_eq!(e.value_mut(), None);
    assert!(!e.mutated());

    // An empty entry that still owes a clear keeps owing it.
    let mut e = Entry::new(None::<u8>, EntryState::Mutated);
    assert_eq!(e.value_mut(), None);
    assert!(e.mutated());
}

#[test]
fn take_value_marks_iff_present() {
    let mut e = Entry::new(Some(3u8), EntryState::Preserved);
    assert_eq!(e.take_value(), Some(3u8));
    assert!(e.mutated());
    assert_eq!(e.value(), None);

    let mut e = Entry::new(None::<u8>, EntryState::Preserved);
    assert_eq!(e.take_value(), None);
    assert!(!e.mutated());
}

#[test]
fn into_value_works() {
    assert_eq!(Entry::new(Some(9u8), EntryState::Mutated).into_value(), Some(9u8));
    assert_eq!(Entry::new(None::<u8>, EntryState::Preserved).into_value(), None);
}

#[test]
fn put_marks_unless_both_absent() {
    let mut e = Entry::new(Some(1u8), EntryState::Preserved);
    assert_eq!(e.put(Some(2u8)), Some(1u8));
    assert!(e.mutated());
    assert_eq!(e.value(), Some(&2u8));

    let mut e = Entry::new(None::<u8>, EntryState::Preserved);
    assert_eq!(e.put(Some(2u8)), None);
    assert!(e.mutated());

    let mut e = Entry::new(Some(1u8), EntryState::Preserved);
    assert_eq!(e.put(None), Some(1u8));
    assert!(e.mutated());

    // Replacing nothing with nothing is no change at all.
    let mut e = Entry::new(None::<u8>, EntryState::Preserved);
    assert_eq!(e.put(None), None);
    assert!(!e.mutated());
}

#[test]
fn push_forward_writes_mutated_value() {
    let mut store = Store::new();
    let mut ptr = KeyPtr::from_key(5);
    let mut e = Entry::new(Some(7u8), EntryState::Mutated);
    e.push_forward(&mut ptr, &mut store);
    assert!(!e.mutated());
    assert_eq!(store.get(5), Some(&vec![7u8]));
}

#[test]
fn push_forward_clears_cell_for_absent_value() {
    let mut store = Store::new();
    let mut ptr = KeyPtr::from_key(5);
    store.set(5, vec![7u8]);
    let mut e = Entry::new(None::<u8>, EntryState::Mutated);
    e.push_forward(&mut ptr, &mut store);
    assert!(!e.mutated());
    assert_eq!(store.get(5), None);
}

#[test]
fn push_forward_preserved_writes_nothing() {
    let mut store = Store::new();
    let mut ptr = KeyPtr::from_key(5);
    // A preserved entry is assumed consistent with the store: even though
    // it carries a value and the cell is empty, synchronizing it performs
    // zero store operations.
    let mut e = Entry::new(Some(7u8), EntryState::Preserved);
    e.push_forward(&mut ptr, &mut store);
    assert_eq!(store.get(5), None);
}
