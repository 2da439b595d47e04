use lazy_storage::smallvec::SmallVec;
use lazy_storage::store::Store;

/// Builds a bounded array of capacity 4 from the given slice.
fn vec_from_slice(slice: &[u8]) -> SmallVec<u8> {
    SmallVec::from_vec(slice.to_vec(), 4).unwrap()
}

/// Asserts that the ordered elements of the bounded array equal the
/// ordered elements of the given slice.
fn assert_eq_slice(vec: &SmallVec<u8>, slice: &[u8]) {
    assert_eq!(vec.len() as usize, slice.len());
    let mut copied: Vec<u8> = Vec::new();
    let mut it = vec.iter();
    while let Some(v) = it.next() {
        copied.push(*v);
    }
    assert_eq!(copied.as_slice(), slice);
}

/// Asserts the basic shape of the given bounded array.
fn assert_vec(vec: &mut SmallVec<u8>, store: &Store, len: u32, first: Option<u8>, last: Option<u8>) {
    assert_eq!(vec.is_empty(), len == 0);
    assert_eq!(vec.len(), len);
    assert_eq!(vec.first(store).copied(), first);
    assert_eq!(vec.last(store).copied(), last);
}

#[test]
fn new_vec_works() {
    let store = Store::new();
    let mut vec = SmallVec::<i32>::new(4);
    assert!(vec.is_empty());
    assert_eq!(vec.len(), 0);
    assert_eq!(vec.get(0, &store), None);
    assert!(vec.iter().next().is_none());
    let default = <SmallVec<i32> as Default>::default();
    assert!(default.is_empty());
    assert_eq!(default.len(), 0);
    assert_eq!(vec.get(0, &store), None);
    assert!(default.iter().next().is_none());
}

#[test]
fn from_iterator_works() {
    let some_primes = [b'A', b'B', b'C', b'D'];
    assert_eq!(SmallVec::from_vec(some_primes.to_vec(), 4).unwrap(), {
        let mut vec = SmallVec::new(4);
        for prime in &some_primes {
            vec.push(*prime).unwrap()
        }
        vec
    });
}

#[test]
#[should_panic]
fn from_iterator_too_many() {
    let some_primes = [b'A', b'B', b'C', b'D', b'E'];
    let _ = SmallVec::from_vec(some_primes.to_vec(), 4).unwrap();
}

#[test]
fn from_empty_iterator_works() {
    assert_eq!(
        SmallVec::<u8>::from_vec(Vec::new(), 4).unwrap(),
        SmallVec::new(4),
    );
}

#[test]
fn first_last_of_empty() {
    let store = Store::new();
    let mut vec = SmallVec::<u8>::new(4);
    assert_eq!(vec.first(&store), None);
    assert_eq!(vec.first_mut(&store), None);
    assert_eq!(vec.last(&store), None);
    assert_eq!(vec.last_mut(&store), None);
}

#[test]
fn pop_on_empty_works() {
    let store = Store::new();
    let mut vec = SmallVec::<u8>::new(4);
    assert_eq!(vec.pop(&store), None);
}

#[test]
fn push_pop_first_last_works() {
    let store = Store::new();
    let mut vec = SmallVec::new(4);
    assert_vec(&mut vec, &store, 0, None, None);

    // Sequence of `push`
    vec.push(b'A').unwrap();
    assert_vec(&mut vec, &store, 1, Some(b'A'), Some(b'A'));
    vec.push(b'B').unwrap();
    assert_vec(&mut vec, &store, 2, Some(b'A'), Some(b'B'));
    vec.push(b'C').unwrap();
    assert_vec(&mut vec, &store, 3, Some(b'A'), Some(b'C'));
    vec.push(b'D').unwrap();
    assert_vec(&mut vec, &store, 4, Some(b'A'), Some(b'D'));

    // Sequence of `pop`
    assert_eq!(vec.pop(&store), Some(b'D'));
    assert_vec(&mut vec, &store, 3, Some(b'A'), Some(b'C'));
    assert_eq!(vec.pop(&store), Some(b'C'));
    assert_vec(&mut vec, &store, 2, Some(b'A'), Some(b'B'));
    assert_eq!(vec.pop(&store), Some(b'B'));
    assert_vec(&mut vec, &store, 1, Some(b'A'), Some(b'A'));
    assert_eq!(vec.pop(&store), Some(b'A'));
    assert_vec(&mut vec, &store, 0, None, None);

    // Pop from empty vector.
    assert_eq!(vec.pop(&store), None);
    assert_vec(&mut vec, &store, 0, None, None);
}

#[test]
#[should_panic]
fn push_beyond_limits_fails() {
    let mut vec = vec_from_slice(&[b'A', b'B', b'C', b'D']);
    vec.push(b'E').unwrap();
}

#[test]
fn pop_drop_works() {
    let elems = [b'A', b'B', b'C', b'D'];
    let mut vec = vec_from_slice(&elems);
    assert_eq!(vec.pop_drop(), Some(()));
    assert_eq_slice(&vec, &elems[0..3]);
    assert_eq!(vec.pop_drop(), Some(()));
    assert_eq_slice(&vec, &elems[0..2]);
    assert_eq!(vec.pop_drop(), Some(()));
    assert_eq_slice(&vec, &elems[0..1]);
    assert_eq!(vec.pop_drop(), Some(()));
    assert_eq_slice(&vec, &[]);
    assert_eq!(vec.pop_drop(), None);
    assert_eq_slice(&vec, &[]);
}

#[test]
fn get_works() {
    let elems = [b'A', b'B', b'C', b'D'];
    let mut vec = vec_from_slice(&elems);
    let store = Store::new();
    for (n, mut expected) in elems.iter().copied().enumerate() {
        let n = n as u32;
        assert_eq!(vec.get(n, &store), Some(&expected));
        assert_eq!(vec.get_mut(n, &store), Some(&mut expected));
    }
    let len = vec.len();
    assert_eq!(vec.get(len, &store), None);
    assert_eq!(vec.get_mut(len, &store), None);
}

#[test]
fn iter_next_works() {
    let elems = [b'A', b'B', b'C', b'D'];
    let vec = vec_from_slice(&elems);
    let mut iter = vec.iter();
    assert_eq!(iter.count(), 4);
    assert_eq!(iter.next(), Some(&b'A'));
    assert_eq!(iter.next(), Some(&b'B'));
    assert_eq!(iter.count(), 2);
    assert_eq!(iter.next(), Some(&b'C'));
    assert_eq!(iter.next(), Some(&b'D'));
    assert_eq!(iter.count(), 0);
    assert_eq!(iter.next(), None);
}

#[test]
fn iter_nth_works() {
    let elems = [b'A', b'B', b'C', b'D'];
    let vec = vec_from_slice(&elems);
    let mut iter = vec.iter();
    assert_eq!(iter.count(), 4);
    assert_eq!(iter.nth(1), Some(&b'B'));
    assert_eq!(iter.count(), 2);
    assert_eq!(iter.nth(1), Some(&b'D'));
    assert_eq!(iter.count(), 0);
    assert_eq!(iter.nth(1), None);
}

#[test]
fn iter_next_back_works() {
    let elems = [b'A', b'B', b'C', b'D'];
    let vec = vec_from_slice(&elems);
    let mut iter = vec.iter().rev();
    assert_eq!(iter.clone().count(), 4);
    assert_eq!(iter.next(), Some(&b'D'));
    assert_eq!(iter.next(), Some(&b'C'));
    assert_eq!(iter.clone().count(), 2);
    assert_eq!(iter.next(), Some(&b'B'));
    assert_eq!(iter.next(), Some(&b'A'));
    assert_eq!(iter.clone().count(), 0);
    assert_eq!(iter.next(), None);
}

#[test]
fn iter_nth_back_works() {
    let elems = [b'A', b'B', b'C', b'D'];
    let vec = vec_from_slice(&elems);
    let mut iter = vec.iter().rev();
    assert_eq!(iter.clone().count(), 4);
    assert_eq!(iter.nth(1), Some(&b'C'));
    assert_eq!(iter.clone().count(), 2);
    assert_eq!(iter.nth(1), Some(&b'A'));
    assert_eq!(iter.clone().count(), 0);
    assert_eq!(iter.nth(1), None);
}

#[test]
fn swap_works() {
    let elems = [b'A', b'B', b'C', b'D'];
    let store = Store::new();
    let mut vec = vec_from_slice(&elems);

    // Swap at same position is a no-op.
    for index in 0..elems.len() as u32 {
        vec.swap(index, index, &store);
        assert_eq_slice(&vec, &elems);
    }

    // Swap first and second
    vec.swap(0, 1, &store);
    assert_eq_slice(&vec, &[b'B', b'A', b'C', b'D']);
    // Swap third and last
    vec.swap(2, 3, &store);
    assert_eq_slice(&vec, &[b'B', b'A', b'D', b'C']);
    // Swap first and last
    vec.swap(0, 3, &store);
    assert_eq_slice(&vec, &[b'C', b'A', b'D', b'B']);
}

#[test]
fn swap_remove_works() {
    let store = Store::new();
    let mut vec = vec_from_slice(&[b'A', b'B', b'C', b'D']);

    // Swap remove first element.
    assert_eq!(vec.swap_remove(0, &store), Some(b'A'));
    assert_eq_slice(&vec, &[b'D', b'B', b'C']);
    // Swap remove middle element.
    assert_eq!(vec.swap_remove(1, &store), Some(b'B'));
    assert_eq_slice(&vec, &[b'D', b'C']);
    // Swap remove last element.
    assert_eq!(vec.swap_remove(1, &store), Some(b'C'));
    assert_eq_slice(&vec, &[b'D']);
    // Swap remove only element.
    assert_eq!(vec.swap_remove(0, &store), Some(b'D'));
    assert_eq_slice(&vec, &[]);
    // Swap remove from empty vector.
    assert_eq!(vec.swap_remove(0, &store), None);
    assert_eq_slice(&vec, &[]);
}

#[test]
fn swap_remove_drop_works() {
    let store = Store::new();
    let mut vec = vec_from_slice(&[b'A', b'B', b'C', b'D']);

    // Swap remove first element.
    assert_eq!(vec.swap_remove_drop(0, &store), Some(()));
    assert_eq_slice(&vec, &[b'D', b'B', b'C']);
    // Swap remove middle element.
    assert_eq!(vec.swap_remove_drop(1, &store), Some(()));
    assert_eq_slice(&vec, &[b'D', b'C']);
    // Swap remove last element.
    assert_eq!(vec.swap_remove_drop(1, &store), Some(()));
    assert_eq_slice(&vec, &[b'D']);
    // Swap remove only element.
    assert_eq!(vec.swap_remove_drop(0, &store), Some(()));
    assert_eq_slice(&vec, &[]);
    // Swap remove from empty vector.
    assert_eq!(vec.swap_remove_drop(0, &store), None);
    assert_eq_slice(&vec, &[]);
}
