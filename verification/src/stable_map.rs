//! The cache of a container: at most one entry for every index, filled
//! from the store when an index is first read.

use crate::codec::Storable;
use crate::entry::{CacheEntry, Cached};
use crate::key::{index_of, key_for, key_of, lemma_index_of_key};
use crate::store::{changed_by, Contents, Store};
use vstd::prelude::*;

verus! {

/// The entries of a cache, by index.
pub type Entries<T> = Map<u32, Cached<T>>;

/// An index with its entry.
#[derive(Debug)]
struct Slot<T> {
    index: u32,
    entry: CacheEntry<T>,
}

/// A write-back cache over the slots of one container. An entry, once
/// made, stays until the map is dropped, so no pending write is lost.
/// Entries are kept in the order in which their slots were first
/// touched, and a lookup walks them.
#[derive(Debug)]
pub struct StableMap<T> {
    prefix: Vec<u8>,
    slots: Vec<Slot<T>>,
}

/// The number of dirty entries among `slots`.
spec fn dirty_count<T>(slots: Seq<Slot<T>>) -> nat
    decreases slots.len(),
{
    if slots.len() == 0 {
        0
    } else {
        dirty_count(slots.drop_last()) + slots.last().entry@.pending()
    }
}

proof fn lemma_dirty_count_update<T>(slots: Seq<Slot<T>>, p: int, slot: Slot<T>)
    requires
        0 <= p < slots.len(),
    ensures
        dirty_count(slots.update(p, slot)) == dirty_count(slots) - slots[p].entry@.pending()
            + slot.entry@.pending(),
    decreases slots.len(),
{
    let updated = slots.update(p, slot);
    if p == slots.len() - 1 {
        assert(updated.drop_last() =~= slots.drop_last());
    } else {
        assert(updated.drop_last() =~= slots.drop_last().update(p, slot));
        lemma_dirty_count_update(slots.drop_last(), p, slot);
    }
}

proof fn lemma_dirty_count_clean<T>(slots: Seq<Slot<T>>)
    ensures
        dirty_count(slots) == 0 <==> forall|q: int| 0 <= q < slots.len() ==> !slots[q].entry@.dirty,
    decreases slots.len(),
{
    if slots.len() > 0 {
        lemma_dirty_count_clean(slots.drop_last());
        if dirty_count(slots) == 0 {
            assert forall|q: int| 0 <= q < slots.len() implies !slots[q].entry@.dirty by {
                if q < slots.len() - 1 {
                    assert(slots.drop_last()[q] == slots[q]);
                }
            }
        } else if forall|q: int| 0 <= q < slots.len() ==> !slots[q].entry@.dirty {
            let front = slots.drop_last();
            assert forall|q: int| 0 <= q < front.len() implies !front[q].entry@.dirty by {
                assert(front[q] == slots[q]);
            }
        }
    }
}

/// What the store holds under the key of `index`, decoded.
pub open spec fn stored<T: Storable>(prefix: Seq<u8>, contents: Contents, index: u32) -> Option<T> {
    if contents.contains_key(key_of(prefix, index)) {
        T::decoding(contents[key_of(prefix, index)])
    } else {
        None
    }
}

impl<T> View for StableMap<T> {
    type V = Entries<T>;

    closed spec fn view(&self) -> Entries<T> {
        Map::new(
            |index: u32| exists|p: int| self.sits(index, p),
            |index: u32| self.slots[choose|p: int| self.sits(index, p)].entry@,
        )
    }
}

impl<T> StableMap<T> {
    /// Slot `p` exists and belongs to `index`.
    spec fn sits(&self, index: u32, p: int) -> bool {
        0 <= p < self.slots.len() && self.slots[p].index == index
    }

    /// No index has two entries.
    pub closed spec fn inv(&self) -> bool {
        forall|p: int, q: int|
            0 <= p < q < self.slots.len() ==> self.slots[p].index != self.slots[q].index
    }

    /// The prefix of the container that this cache belongs to.
    pub closed spec fn prefix(&self) -> Seq<u8> {
        self.prefix@
    }

    /// The number of entries that a flush has to write back.
    pub closed spec fn pending(&self) -> nat {
        dirty_count(self.slots@)
    }

    /// What `index` adds to `pending`.
    pub open spec fn pending_at(&self, index: u32) -> nat {
        if self@.contains_key(index) && self@[index].dirty {
            1
        } else {
            0
        }
    }

    proof fn lemma_present(&self, p: int)
        requires
            self.inv(),
            0 <= p < self.slots.len(),
        ensures
            self@.contains_key(self.slots[p].index),
            self@[self.slots[p].index] == self.slots[p].entry@,
    {
        let index = self.slots[p].index;
        assert(self.sits(index, p));
        let q = choose|q: int| self.sits(index, q);
        assert(q == p);
    }

    proof fn lemma_absent(&self, index: u32)
        requires
            forall|p: int| 0 <= p < self.slots.len() ==> self.slots[p].index != index,
        ensures
            !self@.contains_key(index),
    {
    }

    /// Nothing is pending exactly when no entry is dirty.
    pub proof fn lemma_pending_none(&self)
        requires
            self.inv(),
        ensures
            self.pending() == 0 <==> forall|index: u32|
                self@.contains_key(index) ==> !(#[trigger] self@[index]).dirty,
    {
        lemma_dirty_count_clean(self.slots@);
        if self.pending() == 0 {
            assert forall|index: u32| self@.contains_key(index) implies !(
            #[trigger] self@[index]).dirty by {
                let q = choose|q: int| self.sits(index, q);
                self.lemma_present(q);
            }
        }
        if forall|index: u32| self@.contains_key(index) ==> !(#[trigger] self@[index]).dirty {
            assert forall|q: int| 0 <= q < self.slots.len() implies !self.slots[q].entry@.dirty by {
                self.lemma_present(q);
            }
        }
    }

    /// An empty cache for the container with the given prefix.
    pub fn new(prefix: Vec<u8>) -> (map: StableMap<T>)
        ensures
            map.inv(),
            map@ == Entries::<T>::empty(),
            map.prefix() == prefix@,
            map.pending() == 0,
    {
        let map = StableMap { prefix, slots: Vec::new() };
        assert(map@ =~= Entries::<T>::empty());
        map
    }

    /// The prefix of the container that this cache belongs to.
    pub fn key_prefix(&self) -> (prefix: &[u8])
        ensures
            prefix@ == self.prefix(),
    {
        self.prefix.as_slice()
    }

    fn position(&self, index: u32) -> (found: Option<usize>)
        requires
            self.inv(),
        ensures
            found is Some ==> self.sits(index, found.unwrap() as int),
            found is Some <==> self@.contains_key(index),
            found is None ==> forall|p: int|
                0 <= p < self.slots.len() ==> self.slots[p].index != index,
    {
        let mut p: usize = 0;
        while p < self.slots.len()
            invariant
                p <= self.slots.len(),
                self.inv(),
                forall|q: int| 0 <= q < p ==> self.slots[q].index != index,
            decreases self.slots.len() - p,
        {
            if self.slots[p].index == index {
                proof {
                    self.lemma_present(p as int);
                }
                return Some(p);
            }
            p += 1;
        }
        proof {
            self.lemma_absent(index);
        }
        None
    }

    /// `after` is this map with the entry of slot `p` replaced.
    spec fn replaced_at(&self, after: &Self, p: int) -> bool {
        &&& after.prefix == self.prefix
        &&& 0 <= p < self.slots.len()
        &&& after.slots.len() == self.slots.len()
        &&& after.slots[p].index == self.slots[p].index
        &&& forall|q: int| 0 <= q < self.slots.len() && q != p ==> after.slots[q] == self.slots[q]
    }

    proof fn lemma_replaced(&self, after: &Self, p: int)
        requires
            self.inv(),
            self.replaced_at(after, p),
        ensures
            after.inv(),
            after.prefix() == self.prefix(),
            after@ == self@.insert(self.slots[p].index, after.slots[p].entry@),
            after.pending() == self.pending() - self.slots[p].entry@.pending()
                + after.slots[p].entry@.pending(),
            self@.contains_key(self.slots[p].index),
            self@[self.slots[p].index] == self.slots[p].entry@,
    {
        let index = self.slots[p].index;
        let target = self@.insert(index, after.slots[p].entry@);
        self.lemma_present(p);
        assert forall|j: u32| #[trigger] after@.contains_key(j) == target.contains_key(j) by {
            if exists|q: int| after.sits(j, q) {
                let q = choose|q: int| after.sits(j, q);
                assert(self.sits(j, q));
            }
            if exists|q: int| self.sits(j, q) {
                let q = choose|q: int| self.sits(j, q);
                assert(after.sits(j, q));
            }
        }
        assert forall|j: u32| #[trigger] after@.contains_key(j) implies after@[j] == target[j] by {
            let q = choose|q: int| after.sits(j, q);
            after.lemma_present(q);
            if j != index {
                self.lemma_present(q);
            }
        }
        assert(after@ =~= target);
        assert(after.slots@ =~= self.slots@.update(p, after.slots[p]));
        lemma_dirty_count_update(self.slots@, p, after.slots[p]);
    }

    proof fn lemma_grown(&self, after: &Self)
        requires
            self.inv(),
            after.prefix == self.prefix,
            after.slots.len() == self.slots.len() + 1,
            after.slots@.drop_last() == self.slots@,
            !self@.contains_key(after.slots@.last().index),
        ensures
            after.inv(),
            after.prefix() == self.prefix(),
            after@ == self@.insert(after.slots@.last().index, after.slots@.last().entry@),
            after.pending() == self.pending() + after.slots@.last().entry@.pending(),
    {
        let last = self.slots.len() as int;
        let index = after.slots[last].index;
        let target = self@.insert(index, after.slots[last].entry@);
        assert forall|q: int| 0 <= q < last implies after.slots[q] == self.slots[q] by {
            assert(after.slots@.drop_last()[q] == after.slots@[q]);
        }
        assert forall|q: int| 0 <= q < last implies after.slots[q].index != index by {
            self.lemma_present(q);
        }
        assert(after.sits(index, last));
        assert forall|j: u32| #[trigger] after@.contains_key(j) == target.contains_key(j) by {
            if exists|q: int| after.sits(j, q) {
                let q = choose|q: int| after.sits(j, q);
                if q < last {
                    assert(self.sits(j, q));
                }
            }
            if exists|q: int| self.sits(j, q) {
                let q = choose|q: int| self.sits(j, q);
                assert(after.sits(j, q));
            }
        }
        assert forall|j: u32| #[trigger] after@.contains_key(j) implies after@[j] == target[j] by {
            let q = choose|q: int| after.sits(j, q);
            after.lemma_present(q);
            if j != index {
                self.lemma_present(q);
            }
        }
        assert(after@ =~= target);
    }
}

impl<T: Storable> StableMap<T> {
    /// Reading `index` cannot fail: it is cached, or the store has nothing
    /// under its key, or what the store has there decodes.
    pub open spec fn loadable(&self, contents: Contents, index: u32) -> bool {
        ||| self@.contains_key(index)
        ||| !contents.contains_key(key_of(self.prefix(), index))
        ||| T::decoding(contents[key_of(self.prefix(), index)]) is Some
    }

    /// The value of slot `index` as the container sees it: the cached one
    /// where an entry exists, else the one in the store.
    pub open spec fn value_at(&self, contents: Contents, index: u32) -> Option<T> {
        if self@.contains_key(index) {
            self@[index].value
        } else {
            stored(self.prefix(), contents, index)
        }
    }

    /// Every clean entry holds what the store holds.
    pub open spec fn coherent(&self, contents: Contents) -> bool {
        forall|index: u32| #[trigger]
            self@.contains_key(index) && !self@[index].dirty ==> self@[index].value == stored::<T>(
                self.prefix(),
                contents,
                index,
            )
    }

    /// Every index below `len` has a value.
    pub open spec fn filled(&self, contents: Contents, len: u32) -> bool {
        forall|index: u32| index < len ==> (#[trigger] self.value_at(contents, index)) is Some
    }

    /// The entries once `index` has been read.
    pub open spec fn loaded(&self, contents: Contents, index: u32) -> Entries<T> {
        if self@.contains_key(index) {
            self@
        } else {
            self@.insert(
                index,
                Cached { value: stored(self.prefix(), contents, index), dirty: false },
            )
        }
    }

    fn load(&mut self, store: &Store, index: u32) -> (p: usize)
        requires
            old(self).inv(),
            store.wf(),
        ensures
            final(self).inv(),
            final(self).prefix() == old(self).prefix(),
            final(self).pending() == old(self).pending(),
            final(self).sits(index, p as int),
            final(self)@ == old(self).loaded(store@, index),
            forall|other: u32| #[trigger]
                final(self).value_at(store@, other) == old(self).value_at(store@, other),
            old(self).coherent(store@) ==> final(self).coherent(store@),
    {
        match self.position(index) {
            Some(p) => p,
            None => {
                let key = key_for(self.prefix.as_slice(), index);
                let value = match store.get(key.as_slice()) {
                    Some(bytes) => T::deserialize(bytes),
                    None => None,
                };
                let ghost before = *self;
                self.slots.push(Slot { index, entry: CacheEntry::new_clean(value) });
                proof {
                    assert(self.slots@.drop_last() =~= before.slots@);
                    before.lemma_grown(self);
                }
                self.slots.len() - 1
            },
        }
    }

    /// The entry of `index`, read from the store if this is the first
    /// access.
    pub fn entry(&mut self, store: &Store, index: u32) -> (entry: &CacheEntry<T>)
        requires
            old(self).inv(),
            store.wf(),
            old(self).loadable(store@, index),
        ensures
            final(self).inv(),
            final(self).prefix() == old(self).prefix(),
            final(self).pending() == old(self).pending(),
            final(self)@ == old(self).loaded(store@, index),
            forall|other: u32| #[trigger]
                final(self).value_at(store@, other) == old(self).value_at(store@, other),
            old(self).coherent(store@) ==> final(self).coherent(store@),
            entry@ == final(self)@[index],
    {
        let p = self.load(store, index);
        proof {
            self.lemma_present(p as int);
        }
        &self.slots[p].entry
    }

    /// The value of `index`, read from the store if this is the first
    /// access.
    pub fn get(&mut self, store: &Store, index: u32) -> (value: Option<&T>)
        requires
            old(self).inv(),
            store.wf(),
            old(self).loadable(store@, index),
        ensures
            final(self).inv(),
            final(self).prefix() == old(self).prefix(),
            final(self).pending() == old(self).pending(),
            final(self)@ == old(self).loaded(store@, index),
            forall|other: u32| #[trigger]
                final(self).value_at(store@, other) == old(self).value_at(store@, other),
            old(self).coherent(store@) ==> final(self).coherent(store@),
            value is Some <==> old(self).value_at(store@, index) is Some,
            value is Some ==> *value.unwrap() == old(self).value_at(store@, index).unwrap(),
    {
        self.entry(store, index).value()
    }

    /// Writes `value` to `index` without reading the store.
    pub fn set(&mut self, index: u32, value: T)
        requires
            old(self).inv(),
        ensures
            final(self).inv(),
            final(self).prefix() == old(self).prefix(),
            final(self).pending() == old(self).pending() - old(self).pending_at(index) + 1,
            final(self)@ == old(self)@.insert(index, Cached { value: Some(value), dirty: true }),
    {
        let ghost before = *self;
        match self.position(index) {
            Some(p) => {
                let slot = &mut self.slots[p];
                slot.entry.set(value);
                proof {
                    before.lemma_replaced(self, p as int);
                }
            },
            None => {
                self.slots.push(Slot { index, entry: CacheEntry::new_dirty(Some(value)) });
                proof {
                    assert(self.slots@.drop_last() =~= before.slots@);
                    before.lemma_grown(self);
                }
            },
        }
    }

    /// Mutable access to the entry of `index`, read from the store if this
    /// is the first access.
    pub fn entry_mut(&mut self, store: &Store, index: u32) -> (entry: &mut CacheEntry<T>)
        requires
            old(self).inv(),
            store.wf(),
            old(self).loadable(store@, index),
        ensures
            final(self).inv(),
            final(self).prefix() == old(self).prefix(),
            final(self).pending() == old(self).pending() - old(self).pending_at(index)
                + final(entry)@.pending(),
            entry@ == old(self).loaded(store@, index)[index],
            final(self)@ == old(self)@.insert(index, final(entry)@),
            forall|other: u32|
                other != index ==> #[trigger] final(self).value_at(store@, other)
                    == old(self).value_at(store@, other),
            old(self).coherent(store@) && final(entry)@.dirty ==> final(self).coherent(store@),
    {
        let p = self.load(store, index);
        proof {
            let loaded = *self;
            assert forall|after: StableMap<T>| loaded.replaced_at(&after, p as int) implies {
                &&& #[trigger] after.inv()
                &&& after.prefix() == old(self).prefix()
                &&& after.pending() == old(self).pending() - old(self).pending_at(index)
                    + after.slots[p as int].entry@.pending()
                &&& after@ == old(self)@.insert(index, after.slots[p as int].entry@)
            } by {
                loaded.lemma_replaced(&after, p as int);
                assert(loaded@.insert(index, after.slots[p as int].entry@) =~= old(self)@.insert(
                    index,
                    after.slots[p as int].entry@,
                ));
            }
            assert forall|after: StableMap<T>, other: u32|
                loaded.replaced_at(&after, p as int) && other != index implies #[trigger]
                after.value_at(store@, other) == old(self).value_at(store@, other) by {
                loaded.lemma_replaced(&after, p as int);
            }
            assert forall|after: StableMap<T>|
                loaded.replaced_at(&after, p as int) && old(self).coherent(store@)
                    && after.slots[p as int].entry@.dirty implies #[trigger] after.coherent(
                store@) by {
                loaded.lemma_replaced(&after, p as int);
            }
            loaded.lemma_present(p as int);
        }
        let slot = &mut self.slots[p];
        &mut slot.entry
    }

    /// Mutable access to the value of `index`. The slot counts as dirty
    /// from here on.
    pub fn get_mut(&mut self, store: &Store, index: u32) -> (value: Option<&mut T>)
        requires
            old(self).inv(),
            store.wf(),
            old(self).loadable(store@, index),
        ensures
            final(self).inv(),
            final(self).prefix() == old(self).prefix(),
            final(self).pending() == old(self).pending() - old(self).pending_at(index) + 1,
            value is Some <==> old(self).value_at(store@, index) is Some,
            value is Some ==> *value.unwrap() == old(self).value_at(store@, index).unwrap(),
            value is Some ==> final(self)@ == old(self)@.insert(
                index,
                Cached { value: Some(*final(value.unwrap())), dirty: true },
            ),
            value is None ==> final(self)@ == old(self)@.insert(
                index,
                Cached { value: None, dirty: true },
            ),
            forall|other: u32|
                other != index ==> #[trigger] final(self).value_at(store@, other)
                    == old(self).value_at(store@, other),
            old(self).coherent(store@) ==> final(self).coherent(store@),
    {
        self.entry_mut(store, index).value_mut()
    }

    /// Puts `value` at `index` and hands back what the slot held, reading
    /// that from the store first if it is not cached.
    pub fn replace(&mut self, store: &Store, index: u32, value: T) -> (previous: Option<T>)
        requires
            old(self).inv(),
            store.wf(),
            old(self).loadable(store@, index),
        ensures
            final(self).inv(),
            final(self).prefix() == old(self).prefix(),
            final(self).pending() == old(self).pending() - old(self).pending_at(index) + 1,
            previous == old(self).value_at(store@, index),
            final(self)@ == old(self)@.insert(index, Cached { value: Some(value), dirty: true }),
    {
        self.entry_mut(store, index).replace(value)
    }

    /// Whether nothing is pending: a flush would issue no write operation.
    pub fn is_flushed(&self) -> (flushed: bool)
        ensures
            flushed == (self.pending() == 0),
    {
        let mut p: usize = 0;
        while p < self.slots.len()
            invariant
                p <= self.slots.len(),
                dirty_count(self.slots@.subrange(0, p as int)) == 0,
            decreases self.slots.len() - p,
        {
            proof {
                assert(self.slots@.subrange(0, p + 1).drop_last() =~= self.slots@.subrange(
                    0,
                    p as int,
                ));
            }
            if self.slots[p].entry.is_dirty() {
                proof {
                    lemma_dirty_count_clean(self.slots@);
                }
                return false;
            }
            p += 1;
        }
        assert(self.slots@.subrange(0, p as int) =~= self.slots@);
        true
    }

    /// Whether slot `index` has a value, cached or stored. Nothing is
    /// cached by this call.
    pub fn holds_value(&self, store: &Store, index: u32) -> (present: bool)
        requires
            self.inv(),
            store.wf(),
        ensures
            present == self.value_at(store@, index) is Some,
    {
        match self.position(index) {
            Some(p) => {
                proof {
                    self.lemma_present(p as int);
                }
                self.slots[p].entry.value().is_some()
            },
            None => {
                let key = key_for(self.prefix.as_slice(), index);
                match store.get(key.as_slice()) {
                    Some(bytes) => T::deserialize(bytes).is_some(),
                    None => false,
                }
            },
        }
    }

    /// Takes the value of `index` out of the container, reading it from
    /// the store first if it is not cached. The slot is left as a pending
    /// removal.
    pub fn remove_entry(&mut self, store: &Store, index: u32) -> (value: Option<T>)
        requires
            old(self).inv(),
            store.wf(),
            old(self).loadable(store@, index),
        ensures
            final(self).inv(),
            final(self).prefix() == old(self).prefix(),
            final(self).pending() == old(self).pending() - old(self).pending_at(index) + 1,
            value == old(self).value_at(store@, index),
            final(self)@ == old(self)@.insert(index, Cached { value: None, dirty: true }),
    {
        self.entry_mut(store, index).remove()
    }

    /// Whether a flush touches `key`: it is the key of an index with a
    /// dirty entry.
    pub open spec fn writes_key(&self, key: Seq<u8>) -> bool {
        &&& index_of(self.prefix(), key) is Some
        &&& self@.contains_key(index_of(self.prefix(), key).unwrap())
        &&& self@[index_of(self.prefix(), key).unwrap()].dirty
    }

    /// What the store holds after a flush: under the key of every dirty
    /// entry the encoding of its value, or nothing where the entry is a
    /// removal; every other key as before.
    pub open spec fn flushed(&self, contents: Contents) -> Contents {
        Map::new(
            |key: Seq<u8>|
                if self.writes_key(key) {
                    self@[index_of(self.prefix(), key).unwrap()].value is Some
                } else {
                    contents.contains_key(key)
                },
            |key: Seq<u8>|
                if self.writes_key(key) {
                    self@[index_of(self.prefix(), key).unwrap()].value.unwrap().encoding()
                } else {
                    contents[key]
                },
        )
    }

    /// The entries after a flush: the same values, all clean.
    pub open spec fn cleaned(&self) -> Entries<T> {
        Map::new(
            |index: u32| self@.contains_key(index),
            |index: u32| Cached { value: self@[index].value, dirty: false },
        )
    }

    /// The key `key` belongs to a dirty entry among the first `n` slots.
    spec fn written_before(&self, key: Seq<u8>, n: int) -> bool {
        &&& index_of(self.prefix(), key) is Some
        &&& exists|q: int|
            0 <= q < n && self.sits(index_of(self.prefix(), key).unwrap(), q)
                && self.slots[q].entry@.dirty
    }

    /// The store after the first `n` slots have been flushed.
    spec fn flushed_upto(&self, n: int, contents: Contents) -> Contents {
        Map::new(
            |key: Seq<u8>|
                if self.written_before(key, n) {
                    self@[index_of(self.prefix(), key).unwrap()].value is Some
                } else {
                    contents.contains_key(key)
                },
            |key: Seq<u8>|
                if self.written_before(key, n) {
                    self@[index_of(self.prefix(), key).unwrap()].value.unwrap().encoding()
                } else {
                    contents[key]
                },
        )
    }

    proof fn lemma_flush_step(&self, n: int, contents: Contents)
        requires
            self.inv(),
            0 <= n < self.slots.len(),
        ensures
            self.flushed_upto(n + 1, contents) == self.slots[n].entry@.written_back(
                key_of(self.prefix(), self.slots[n].index),
                self.flushed_upto(n, contents),
            ),
    {
        let index = self.slots[n].index;
        let here = key_of(self.prefix(), index);
        let before = self.flushed_upto(n, contents);
        let after = self.flushed_upto(n + 1, contents);
        let target = self.slots[n].entry@.written_back(here, before);
        self.lemma_present(n);
        assert forall|key: Seq<u8>|
            self.written_before(key, n + 1) == (self.written_before(key, n) || (key == here
                && self.slots[n].entry@.dirty)) by {
            lemma_index_of_key(self.prefix(), index, key);
            if self.written_before(key, n + 1) {
                let q = choose|q: int|
                    0 <= q < n + 1 && self.sits(index_of(self.prefix(), key).unwrap(), q)
                        && self.slots[q].entry@.dirty;
                if q < n {
                    assert(self.written_before(key, n));
                }
            }
            if self.written_before(key, n) {
                let q = choose|q: int|
                    0 <= q < n && self.sits(index_of(self.prefix(), key).unwrap(), q)
                        && self.slots[q].entry@.dirty;
                assert(q < n + 1);
            }
            if key == here && self.slots[n].entry@.dirty {
                assert(self.sits(index, n));
            }
        }
        assert(!self.written_before(here, n)) by {
            lemma_index_of_key(self.prefix(), index, here);
        }
        lemma_index_of_key(self.prefix(), index, here);
        assert(after =~= target);
    }

    proof fn lemma_flush_bounds(&self, contents: Contents)
        requires
            self.inv(),
        ensures
            self.flushed_upto(0, contents) == contents,
            self.flushed_upto(self.slots.len() as int, contents) == self.flushed(contents),
    {
        let n = self.slots.len() as int;
        assert forall|key: Seq<u8>| self.written_before(key, n) == self.writes_key(key) by {
            if self.written_before(key, n) {
                let q = choose|q: int|
                    0 <= q < n && self.sits(index_of(self.prefix(), key).unwrap(), q)
                        && self.slots[q].entry@.dirty;
                self.lemma_present(q);
            }
            if self.writes_key(key) {
                let index = index_of(self.prefix(), key).unwrap();
                let q = choose|q: int| self.sits(index, q);
                self.lemma_present(q);
            }
        }
        assert(self.flushed_upto(n, contents) =~= self.flushed(contents));
    }

    /// After a flush every slot has the value it had, and every entry
    /// agrees with the store.
    pub proof fn lemma_flush_keeps(&self, after: &Self, contents: Contents)
        requires
            after@ == self.cleaned(),
            after.prefix() == self.prefix(),
        ensures
            forall|index: u32|
                after.value_at(self.flushed(contents), index) == self.value_at(contents, index),
            self.coherent(contents) ==> after.coherent(self.flushed(contents)),
    {
        let prefix = self.prefix();
        let later = self.flushed(contents);
        assert forall|index: u32| {
            &&& after.value_at(later, index) == self.value_at(contents, index)
            &&& self.coherent(contents) && #[trigger] after@.contains_key(index)
                ==> after@[index].value == stored::<T>(prefix, later, index)
        } by {
            let key = key_of(prefix, index);
            lemma_index_of_key(prefix, index, key);
            if self@.contains_key(index) && self@[index].dirty {
                if self@[index].value is Some {
                    self@[index].value.unwrap().lemma_round_trip();
                }
            }
        }
    }

    /// Flushing a cache with nothing pending changes neither the store
    /// nor the cache.
    pub proof fn lemma_flush_idle(&self, contents: Contents)
        requires
            self.inv(),
            self.pending() == 0,
        ensures
            self.flushed(contents) == contents,
            self.cleaned() == self@,
    {
        self.lemma_pending_none();
    }

    /// Writes every pending change to the store and marks every entry
    /// clean. One write operation is issued for each dirty entry, and none
    /// for a clean one; the order in which they are issued is left open.
    pub fn flush_all(&mut self, store: &mut Store)
        requires
            old(self).inv(),
            old(store).wf(),
        ensures
            final(self).inv(),
            final(self).prefix() == old(self).prefix(),
            final(self).pending() == 0,
            final(self)@ == old(self).cleaned(),
            final(store).wf(),
            final(store)@ == old(self).flushed(old(store)@),
            final(store).log().len() == old(store).log().len() + old(self).pending(),
            final(store).log().take(old(store).log().len() as int) == old(store).log(),
            final(store)@ == changed_by(
                old(store)@,
                final(store).log().skip(old(store).log().len() as int),
            ),
    {
        let ghost before = *self;
        let ghost start = store@;
        let ghost start_log = store.log();
        proof {
            before.lemma_flush_bounds(start);
        }
        let mut p: usize = 0;
        while p < self.slots.len()
            invariant
                p <= self.slots.len(),
                before.inv(),
                store.wf(),
                self.prefix == before.prefix,
                self.slots.len() == before.slots.len(),
                forall|q: int|
                    0 <= q < self.slots.len() ==> self.slots[q].index == before.slots[q].index
                        && self.slots[q].entry@.value == before.slots[q].entry@.value,
                forall|q: int| 0 <= q < p ==> !self.slots[q].entry@.dirty,
                forall|q: int|
                    p <= q < self.slots.len() ==> self.slots[q].entry@.dirty
                        == before.slots[q].entry@.dirty,
                store@ == before.flushed_upto(p as int, start),
                store.log().len() == start_log.len() + dirty_count(
                    before.slots@.subrange(0, p as int),
                ),
                store.log().take(start_log.len() as int) == start_log,
                store@ == changed_by(start, store.log().skip(start_log.len() as int)),
            decreases self.slots.len() - p,
        {
            let key = key_for(self.prefix.as_slice(), self.slots[p].index);
            let ghost log_before = store.log();
            let slot = &mut self.slots[p];
            slot.entry.flush(key.as_slice(), store);
            proof {
                // the journal grew by what the entry had to write
                let n = start_log.len() as int;
                if before.slots[p as int].entry@.dirty {
                    assert(store.log().skip(n).drop_last() =~= log_before.skip(n));
                } else {
                    assert(store.log().skip(n) =~= log_before.skip(n));
                }
                before.lemma_flush_step(p as int, start);
                assert(before.slots@.subrange(0, p + 1).drop_last() =~= before.slots@.subrange(
                    0,
                    p as int,
                ));
            }
            p += 1;
        }
        proof {
            assert(before.slots@.subrange(0, p as int) =~= before.slots@);
            lemma_dirty_count_clean(self.slots@);
            assert forall|a: int, b: int| 0 <= a < b < self.slots.len() implies self.slots[a].index
                != self.slots[b].index by {
                assert(before.slots[a].index != before.slots[b].index);
            }
            assert forall|index: u32| #[trigger]
                self@.contains_key(index) == before@.contains_key(index) by {
                if exists|q: int| self.sits(index, q) {
                    let q = choose|q: int| self.sits(index, q);
                    assert(before.sits(index, q));
                }
                if exists|q: int| before.sits(index, q) {
                    let q = choose|q: int| before.sits(index, q);
                    assert(self.sits(index, q));
                }
            }
            assert forall|index: u32| #[trigger] self@.contains_key(index) implies self@[index]
                == before.cleaned()[index] by {
                let q = choose|q: int| self.sits(index, q);
                self.lemma_present(q);
                before.lemma_present(q);
            }
            assert(self@ =~= before.cleaned());
        }
    }
}

} // verus!
