use near_store::key::key_for;
use near_store::store::{Store, Write};
use near_store::vector::Vector;

fn prefix() -> Vec<u8> {
    b"v".to_vec()
}

fn filled(values: &[u64]) -> Vector<u64> {
    let mut vector = Vector::new(prefix());
    for value in values {
        vector.push(*value);
    }
    vector
}

fn collect(vector: &mut Vector<u64>, store: &Store) -> Vec<u64> {
    let mut seen = Vec::new();
    let mut iter = vector.iter(store);
    while let Some(value) = iter.next() {
        seen.push(*value);
    }
    seen
}

#[test]
fn a_new_vector_is_empty() {
    let store = Store::new();
    let mut vector: Vector<u64> = Vector::new(prefix());
    assert_eq!(vector.len(), 0);
    assert!(vector.is_empty());
    assert_eq!(vector.get(&store, 0), None);
    assert!(vector.is_intact(&store));
}

#[test]
fn push_then_get_gives_the_value_back() {
    let store = Store::new();
    let mut vector: Vector<u64> = Vector::new(prefix());
    for value in [0u64, 1, 255, 256, u64::MAX, 0x0102_0304_0506_0708] {
        vector.push(value);
        let last = vector.len() - 1;
        assert_eq!(vector.get(&store, last), Some(&value));
    }
    assert_eq!(vector.len(), 6);
    assert!(!vector.is_empty());
}

#[test]
fn get_past_the_end_is_none() {
    let store = Store::new();
    let mut vector = filled(&[5, 6]);
    assert_eq!(vector.get(&store, 1), Some(&6));
    assert_eq!(vector.get(&store, 2), None);
    assert_eq!(vector.get(&store, u32::MAX), None);
    assert!(vector.get_mut(&store, 2).is_none());
    assert_eq!(vector.len(), 2);
}

#[test]
fn len_is_pushes_minus_removals() {
    let store = Store::new();
    let mut vector: Vector<u64> = Vector::new(prefix());
    assert_eq!(vector.pop(&store), None);
    for value in 0..7u64 {
        vector.push(value);
    }
    assert_eq!(vector.pop(&store), Some(6));
    assert_eq!(vector.swap_remove(&store, 2), 2);
    assert_eq!(vector.swap_remove(&store, 0), 0);
    vector.push(70);
    assert_eq!(vector.pop(&store), Some(70));
    // seven and one pushes, four removals; the pop on the empty vector removed nothing
    assert_eq!(vector.len(), 4);
    assert_eq!(vector.iter(&store).count(), 4);
    assert_eq!(collect(&mut vector, &store).len(), 4);
    while vector.pop(&store).is_some() {}
    assert_eq!(vector.len(), 0);
    assert_eq!(vector.pop(&store), None);
    assert_eq!(vector.len(), 0);
    assert_eq!(collect(&mut vector, &store), Vec::<u64>::new());
}

#[test]
fn swap_remove_moves_the_last_element_into_the_gap() {
    let store = Store::new();
    let mut vector: Vector<u8> = Vector::new(prefix());
    for letter in [b'a', b'b', b'c', b'd'] {
        vector.push(letter);
    }
    assert_eq!(vector.swap_remove(&store, 1), b'b');
    assert_eq!(vector.len(), 3);
    assert_eq!(vector.get(&store, 0), Some(&b'a'));
    assert_eq!(vector.get(&store, 1), Some(&b'd'));
    assert_eq!(vector.get(&store, 2), Some(&b'c'));
    assert_eq!(vector.get(&store, 3), None);
}

#[test]
fn swap_remove_of_the_last_element_is_a_pop() {
    let store = Store::new();
    let mut vector = filled(&[1, 2, 3]);
    assert_eq!(vector.swap_remove(&store, 2), 3);
    assert_eq!(collect(&mut vector, &store), vec![1, 2]);
    assert_eq!(vector.swap_remove(&store, 1), 2);
    assert_eq!(vector.swap_remove(&store, 0), 1);
    assert!(vector.is_empty());
}

#[test]
fn pop_on_an_empty_vector_touches_nothing() {
    let mut store = Store::new();
    let mut vector: Vector<u64> = Vector::new(prefix());
    assert_eq!(vector.pop(&store), None);
    assert_eq!(vector.len(), 0);
    assert_eq!(store.write_count(), 0);
    vector.flush(&mut store);
    assert_eq!(store.write_count(), 0);
    assert!(!store.contains_key(&key_for(&prefix(), 0)));
}

#[test]
fn nothing_reaches_the_store_before_a_flush() {
    let mut store = Store::new();
    let mut vector = filled(&[1, 2, 3]);
    assert_eq!(store.write_count(), 0);
    assert!(!store.contains_key(&key_for(&prefix(), 0)));
    vector.flush(&mut store);
    assert_eq!(store.write_count(), 3);
    assert!(store.contains_key(&key_for(&prefix(), 0)));
}

#[test]
fn a_second_flush_writes_nothing() {
    let mut store = Store::new();
    let mut vector = filled(&[10, 20, 30]);
    vector.flush(&mut store);
    let writes = store.write_count();
    assert_eq!(writes, 3);
    vector.flush(&mut store);
    assert_eq!(store.write_count(), writes);
    vector.flush(&mut store);
    assert_eq!(store.write_count(), writes);
    assert_eq!(collect(&mut vector, &store), vec![10, 20, 30]);
}

#[test]
fn a_flush_writes_one_operation_for_each_changed_slot() {
    let mut store = Store::new();
    let mut vector = filled(&[1, 2, 3, 4]);
    vector.flush(&mut store);
    assert_eq!(store.write_count(), 4);
    // reading changes nothing
    assert_eq!(vector.get(&store, 2), Some(&3));
    vector.flush(&mut store);
    assert_eq!(store.write_count(), 4);
    // one write through a mutable reference
    *vector.get_mut(&store, 1).unwrap() = 22;
    vector.flush(&mut store);
    assert_eq!(store.write_count(), 5);
    // a slot written twice is flushed once
    *vector.get_mut(&store, 0).unwrap() = 5;
    *vector.get_mut(&store, 0).unwrap() = 6;
    vector.flush(&mut store);
    assert_eq!(store.write_count(), 6);
    // a pop is one removal
    assert_eq!(vector.pop(&store), Some(4));
    vector.flush(&mut store);
    assert_eq!(store.write_count(), 7);
    // swap_remove writes the gap and removes the end
    assert_eq!(vector.swap_remove(&store, 0), 6);
    vector.flush(&mut store);
    assert_eq!(store.write_count(), 9);
    assert_eq!(collect(&mut vector, &store), vec![3, 22]);
}

#[test]
fn a_flush_lays_the_elements_out_one_key_each() {
    let mut store = Store::new();
    let mut vector = filled(&[0x0102_0304_0506_0708, 1]);
    vector.flush(&mut store);
    assert_eq!(
        store.get(&[b'v', 0, 0, 0, 0]),
        Some(&[8u8, 7, 6, 5, 4, 3, 2, 1][..])
    );
    assert_eq!(store.get(&[b'v', 1, 0, 0, 0]), Some(&[1u8, 0, 0, 0, 0, 0, 0, 0][..]));
    assert_eq!(store.get(&[b'v', 2, 0, 0, 0]), None);
    assert_eq!(store.get(b"v"), None);
}

#[test]
fn a_popped_element_leaves_the_store_on_flush() {
    let mut store = Store::new();
    let mut vector = filled(&[1, 2]);
    vector.flush(&mut store);
    assert!(store.contains_key(&key_for(&prefix(), 1)));
    assert_eq!(vector.pop(&store), Some(2));
    assert!(store.contains_key(&key_for(&prefix(), 1)));
    vector.flush(&mut store);
    assert!(!store.contains_key(&key_for(&prefix(), 1)));
    assert!(store.contains_key(&key_for(&prefix(), 0)));
}

#[test]
fn a_restored_vector_reproduces_the_elements() {
    let mut store = Store::new();
    let values: Vec<u64> = (0..20u64).map(|i| i * i + 3).collect();
    let mut vector = filled(&values);
    vector.flush(&mut store);
    let len = vector.len();
    drop(vector);

    let mut restored: Vector<u64> = Vector::restore(prefix(), len);
    assert!(restored.is_intact(&store));
    assert_eq!(restored.len(), 20);
    assert_eq!(collect(&mut restored, &store), values);
    // nothing was written by reading
    restored.flush(&mut store);
    assert_eq!(store.write_count(), 20);
}

#[test]
fn a_restored_vector_pops_what_the_store_holds() {
    let mut store = Store::new();
    let mut vector = filled(&[7, 8, 9]);
    vector.flush(&mut store);
    let mut restored: Vector<u64> = Vector::restore(prefix(), 3);
    assert_eq!(restored.pop(&store), Some(9));
    assert_eq!(restored.swap_remove(&store, 0), 7);
    assert_eq!(collect(&mut restored, &store), vec![8]);
    restored.flush(&mut store);
    let mut again: Vector<u64> = Vector::restore(prefix(), 1);
    assert!(again.is_intact(&store));
    assert_eq!(again.get(&store, 0), Some(&8));
    assert!(!store.contains_key(&key_for(&prefix(), 1)));
    assert!(!store.contains_key(&key_for(&prefix(), 2)));
}

#[test]
fn an_unflushed_vector_is_not_in_the_store() {
    let store = Store::new();
    let vector = filled(&[1, 2, 3]);
    let restored: Vector<u64> = Vector::restore(prefix(), vector.len());
    assert!(vector.is_intact(&store));
    assert!(!restored.is_intact(&store));
}

#[test]
fn a_missing_or_broken_element_is_noticed() {
    let mut store = Store::new();
    let mut vector = filled(&[1, 2, 3]);
    vector.flush(&mut store);
    let whole: Vector<u64> = Vector::restore(prefix(), 3);
    assert!(whole.is_intact(&store));
    let longer: Vector<u64> = Vector::restore(prefix(), 4);
    assert!(!longer.is_intact(&store));
    // seven bytes do not make a u64
    store.set(&key_for(&prefix(), 1), vec![0; 7]);
    assert!(!whole.is_intact(&store));
    store.set(&key_for(&prefix(), 1), vec![0; 9]);
    assert!(!whole.is_intact(&store));
    store.set(&key_for(&prefix(), 1), vec![0; 8]);
    assert!(whole.is_intact(&store));
    store.remove(&key_for(&prefix(), 2));
    assert!(!whole.is_intact(&store));
    let shorter: Vector<u64> = Vector::restore(prefix(), 2);
    assert!(shorter.is_intact(&store));
}

#[test]
fn stray_bytes_past_the_end_are_not_elements() {
    let mut store = Store::new();
    store.set(&key_for(&prefix(), 0), vec![9; 8]);
    store.set(&key_for(&prefix(), 5), vec![1, 2, 3]);
    let mut vector: Vector<u64> = Vector::new(prefix());
    assert_eq!(vector.len(), 0);
    assert_eq!(vector.get(&store, 0), None);
    assert_eq!(vector.pop(&store), None);
    vector.push(4);
    assert_eq!(vector.get(&store, 0), Some(&4));
    assert_eq!(vector.len(), 1);
}

#[test]
fn vectors_with_different_prefixes_keep_apart() {
    let mut store = Store::new();
    let mut first: Vector<u64> = Vector::new(b"a".to_vec());
    let mut second: Vector<u64> = Vector::new(b"b".to_vec());
    let mut nested: Vector<u64> = Vector::new(b"a\0".to_vec());
    first.push(1);
    second.push(2);
    nested.push(3);
    first.flush(&mut store);
    second.flush(&mut store);
    nested.flush(&mut store);
    assert_eq!(store.write_count(), 3);
    let mut first: Vector<u64> = Vector::restore(b"a".to_vec(), 1);
    let mut second: Vector<u64> = Vector::restore(b"b".to_vec(), 1);
    let mut nested: Vector<u64> = Vector::restore(b"a\0".to_vec(), 1);
    assert_eq!(first.get(&store, 0), Some(&1));
    assert_eq!(second.get(&store, 0), Some(&2));
    assert_eq!(nested.get(&store, 0), Some(&3));
}

#[test]
fn elements_of_four_bytes_and_of_one() {
    let mut store = Store::new();
    let mut words: Vector<u32> = Vector::new(b"w".to_vec());
    let mut bytes: Vector<u8> = Vector::new(b"b".to_vec());
    words.push(0x0a0b_0c0d);
    bytes.push(0xfe);
    words.flush(&mut store);
    bytes.flush(&mut store);
    assert_eq!(store.get(&[b'w', 0, 0, 0, 0]), Some(&[0x0du8, 0x0c, 0x0b, 0x0a][..]));
    assert_eq!(store.get(&[b'b', 0, 0, 0, 0]), Some(&[0xfeu8][..]));
    let mut words: Vector<u32> = Vector::restore(b"w".to_vec(), 1);
    let mut bytes: Vector<u8> = Vector::restore(b"b".to_vec(), 1);
    assert_eq!(words.get(&store, 0), Some(&0x0a0b_0c0d));
    assert_eq!(bytes.get(&store, 0), Some(&0xfe));
    // a four-byte value does not read as one of eight bytes
    let misread: Vector<u64> = Vector::restore(b"w".to_vec(), 1);
    assert!(!misread.is_intact(&store));
}

#[test]
fn writes_through_get_mut_are_seen_and_stored() {
    let mut store = Store::new();
    let mut vector = filled(&[1, 2, 3]);
    vector.flush(&mut store);
    if let Some(slot) = vector.get_mut(&store, 1) {
        assert_eq!(*slot, 2);
        *slot = 200;
    }
    assert_eq!(collect(&mut vector, &store), vec![1, 200, 3]);
    assert_eq!(store.get(&key_for(&prefix(), 1)), Some(&[2u8, 0, 0, 0, 0, 0, 0, 0][..]));
    vector.flush(&mut store);
    assert_eq!(store.get(&key_for(&prefix(), 1)), Some(&[200u8, 0, 0, 0, 0, 0, 0, 0][..]));
}

#[test]
fn a_vector_knows_whether_it_is_flushed() {
    let mut store = Store::new();
    let mut vector: Vector<u64> = Vector::new(prefix());
    assert!(vector.is_flushed());
    vector.push(1);
    assert!(!vector.is_flushed());
    vector.flush(&mut store);
    assert!(vector.is_flushed());
    assert_eq!(vector.get(&store, 0), Some(&1));
    assert!(vector.is_flushed());
    let _ = vector.get_mut(&store, 0);
    assert!(!vector.is_flushed());
    vector.flush(&mut store);
    assert_eq!(vector.pop(&store), Some(1));
    assert!(!vector.is_flushed());
    vector.flush(&mut store);
    assert!(vector.is_flushed());
    assert_eq!(vector.pop(&store), None);
    assert!(vector.is_flushed());
}

#[test]
fn a_vector_keeps_its_prefix() {
    let mut store = Store::new();
    let mut vector: Vector<u64> = Vector::new(vec![7, 0, 9]);
    assert_eq!(vector.prefix(), &[7u8, 0, 9][..]);
    vector.push(1);
    vector.flush(&mut store);
    assert_eq!(vector.pop(&store), Some(1));
    assert_eq!(vector.prefix(), &[7u8, 0, 9][..]);
    let restored: Vector<u64> = Vector::restore(Vec::new(), 0);
    assert!(restored.prefix().is_empty());
}

#[test]
fn the_journal_of_a_flush_rebuilds_the_store() {
    let mut store = Store::new();
    let mut vector = filled(&[1, 2, 3, 4]);
    vector.flush(&mut store);
    assert_eq!(vector.swap_remove(&store, 0), 1);
    *vector.get_mut(&store, 1).unwrap() = 20;
    vector.push(5);
    assert_eq!(vector.pop(&store), Some(5));
    vector.flush(&mut store);

    let mut copy = Store::new();
    for write in store.journal() {
        match write {
            Write::Put(key, value) => copy.set(key, value.clone()),
            Write::Remove(key) => copy.remove(key),
        }
    }
    for index in 0..6u32 {
        let key = key_for(&prefix(), index);
        assert_eq!(copy.get(&key), store.get(&key));
    }
    let mut restored: Vector<u64> = Vector::restore(prefix(), vector.len());
    assert!(restored.is_intact(&copy));
    assert_eq!(collect(&mut restored, &copy), vec![4, 20, 3]);
}

#[test]
fn a_flush_after_a_pop_and_a_push_writes_the_slot_once() {
    let mut store = Store::new();
    let mut vector = filled(&[1, 2]);
    vector.flush(&mut store);
    store.take_journal();
    assert_eq!(vector.pop(&store), Some(2));
    vector.push(9);
    vector.flush(&mut store);
    assert_eq!(
        store.journal(),
        &[Write::Put(key_for(&prefix(), 1), vec![9, 0, 0, 0, 0, 0, 0, 0])][..]
    );
}

#[test]
fn indexing_reads_and_writes_within_bounds() {
    let mut store = Store::new();
    let mut vector = filled(&[4, 5, 6]);
    assert_eq!(*vector.index(&store, 0), 4);
    assert_eq!(*vector.index(&store, 2), 6);
    *vector.index_mut(&store, 1) += 50;
    assert_eq!(*vector.index(&store, 1), 55);
    vector.flush(&mut store);
    let mut restored: Vector<u64> = Vector::restore(prefix(), 3);
    assert_eq!(*restored.index(&store, 1), 55);
    *restored.index_mut(&store, 2) = 0;
    assert!(!restored.is_flushed());
    assert_eq!(collect(&mut restored, &store), vec![4, 55, 0]);
}
