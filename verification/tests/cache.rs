use near_store::entry::{CacheEntry, EntryState};
use near_store::key::key_for;
use near_store::stable_map::StableMap;
use near_store::store::{Store, Write};

#[test]
fn a_clean_entry_costs_nothing_to_flush() {
    let mut store = Store::new();
    let mut entry: CacheEntry<u64> = CacheEntry::new_clean(Some(5));
    assert!(!entry.is_dirty());
    assert_eq!(entry.value(), Some(&5));
    entry.flush(b"k", &mut store);
    assert_eq!(store.write_count(), 0);
    assert_eq!(store.get(b"k"), None);
    assert_eq!(entry.value(), Some(&5));
}

#[test]
fn a_dirty_value_is_written_once() {
    let mut store = Store::new();
    let mut entry: CacheEntry<u64> = CacheEntry::new_dirty(Some(0x0102));
    assert!(entry.is_dirty());
    entry.flush(b"k", &mut store);
    assert!(!entry.is_dirty());
    assert_eq!(store.get(b"k"), Some(&[2u8, 1, 0, 0, 0, 0, 0, 0][..]));
    assert_eq!(store.write_count(), 1);
    entry.flush(b"k", &mut store);
    assert_eq!(store.write_count(), 1);
    assert_eq!(entry.value(), Some(&0x0102));
}

#[test]
fn a_dirty_absence_deletes_the_key() {
    let mut store = Store::new();
    store.set(b"k", vec![1; 8]);
    let mut entry: CacheEntry<u64> = CacheEntry::new_dirty(None);
    entry.flush(b"k", &mut store);
    assert_eq!(store.get(b"k"), None);
    assert!(!entry.is_dirty());
    assert_eq!(entry.value(), None);
    assert_eq!(store.journal()[1], Write::Remove(b"k".to_vec()));
}

#[test]
fn a_dirty_absence_is_flushed_even_where_nothing_is_stored() {
    let mut store = Store::new();
    let mut entry: CacheEntry<u64> = CacheEntry::new_dirty(None);
    entry.flush(b"k", &mut store);
    assert_eq!(store.journal(), &[Write::Remove(b"k".to_vec())][..]);
    assert_eq!(store.get(b"k"), None);
}

#[test]
fn set_replace_and_remove_mark_an_entry_dirty() {
    let mut entry: CacheEntry<u32> = CacheEntry::new_clean(None);
    assert_eq!(entry.value(), None);
    entry.set(7);
    assert!(entry.is_dirty());
    assert_eq!(entry.value(), Some(&7));

    let mut entry: CacheEntry<u32> = CacheEntry::new_clean(Some(1));
    assert_eq!(entry.replace(2), Some(1));
    assert!(entry.is_dirty());
    assert_eq!(entry.value(), Some(&2));

    let mut entry: CacheEntry<u32> = CacheEntry::new_clean(Some(1));
    assert_eq!(entry.remove(), Some(1));
    assert!(entry.is_dirty());
    assert_eq!(entry.value(), None);
    assert_eq!(entry.remove(), None);
}

#[test]
fn mutable_access_marks_an_entry_dirty() {
    let mut entry: CacheEntry<u32> = CacheEntry::new_clean(Some(1));
    if let Some(value) = entry.value_mut() {
        *value += 10;
    }
    assert!(entry.is_dirty());
    assert_eq!(entry.value(), Some(&11));
    let mut entry: CacheEntry<u32> = CacheEntry::new_clean(None);
    assert!(entry.value_mut().is_none());
    assert!(entry.is_dirty());
}

#[test]
fn entry_states_compare() {
    assert_eq!(EntryState::Clean, EntryState::Clean);
    assert_ne!(EntryState::Clean, EntryState::Dirty);
}

#[test]
fn a_map_reads_a_slot_from_the_store_once() {
    let mut store = Store::new();
    store.set(&key_for(b"m", 3), vec![9, 0, 0, 0]);
    let mut map: StableMap<u32> = StableMap::new(b"m".to_vec());
    assert_eq!(map.get(&store, 3), Some(&9));
    assert!(!map.entry(&store, 3).is_dirty());
    // the cached value stays, whatever happens to the store
    store.set(&key_for(b"m", 3), vec![1, 0, 0, 0]);
    assert_eq!(map.get(&store, 3), Some(&9));
    assert!(map.is_flushed());
}

#[test]
fn a_map_caches_an_absent_slot_as_absent() {
    let store = Store::new();
    let mut map: StableMap<u32> = StableMap::new(b"m".to_vec());
    assert_eq!(map.get(&store, 0), None);
    let entry = map.entry(&store, 0);
    assert_eq!(entry.value(), None);
    assert!(!entry.is_dirty());
    assert!(!map.holds_value(&store, 0));
}

#[test]
fn a_map_keeps_one_entry_for_every_index() {
    let mut store = Store::new();
    let mut map: StableMap<u32> = StableMap::new(b"m".to_vec());
    map.set(1, 10);
    map.set(2, 20);
    map.set(1, 11);
    assert_eq!(map.get(&store, 1), Some(&11));
    assert_eq!(map.get(&store, 2), Some(&20));
    assert!(!map.is_flushed());
    map.flush_all(&mut store);
    assert_eq!(store.write_count(), 2);
    assert!(map.is_flushed());
    assert_eq!(store.get(&key_for(b"m", 1)), Some(&[11u8, 0, 0, 0][..]));
    assert_eq!(store.get(&key_for(b"m", 2)), Some(&[20u8, 0, 0, 0][..]));
}

#[test]
fn a_map_flushes_only_what_changed() {
    let mut store = Store::new();
    store.set(&key_for(b"m", 0), vec![1, 0, 0, 0]);
    store.set(&key_for(b"m", 1), vec![2, 0, 0, 0]);
    store.set(&key_for(b"m", 2), vec![3, 0, 0, 0]);
    store.take_journal();
    let mut map: StableMap<u32> = StableMap::new(b"m".to_vec());
    assert_eq!(map.get(&store, 0), Some(&1));
    assert_eq!(map.remove_entry(&store, 1), Some(2));
    assert_eq!(map.replace(&store, 2, 30), Some(3));
    assert_eq!(map.replace(&store, 7, 70), None);
    assert_eq!(map.get(&store, 1), None);
    assert!(map.holds_value(&store, 0));
    assert!(!map.holds_value(&store, 1));
    assert!(map.holds_value(&store, 7));
    assert!(!map.holds_value(&store, 8));
    map.flush_all(&mut store);
    assert_eq!(store.write_count(), 3);
    assert_eq!(store.get(&key_for(b"m", 0)), Some(&[1u8, 0, 0, 0][..]));
    assert_eq!(store.get(&key_for(b"m", 1)), None);
    assert_eq!(store.get(&key_for(b"m", 2)), Some(&[30u8, 0, 0, 0][..]));
    assert_eq!(store.get(&key_for(b"m", 7)), Some(&[70u8, 0, 0, 0][..]));
    map.flush_all(&mut store);
    assert_eq!(store.write_count(), 3);
}

#[test]
fn a_map_hands_out_entries_for_writing() {
    let mut store = Store::new();
    let mut map: StableMap<u32> = StableMap::new(b"m".to_vec());
    map.entry_mut(&store, 4).set(44);
    if let Some(value) = map.get_mut(&store, 4) {
        *value += 1;
    }
    assert!(map.get_mut(&store, 5).is_none());
    assert_eq!(map.get(&store, 4), Some(&45));
    map.flush_all(&mut store);
    // slot 4 is written, slot 5 is a removal of nothing
    assert_eq!(store.write_count(), 2);
    assert_eq!(store.get(&key_for(b"m", 4)), Some(&[45u8, 0, 0, 0][..]));
    assert_eq!(store.get(&key_for(b"m", 5)), None);
}
