//! One cached slot: the value held in memory and whether the store
//! already reflects it.

use crate::codec::Storable;
use crate::store::{Change, Contents, Store};
use vstd::prelude::*;

verus! {

/// Whether the store already reflects the value of an entry.
#[derive(Clone, Copy, Debug, PartialEq, Eq, Structural)]
pub enum EntryState {
    /// The store holds what the entry holds.
    Clean,
    /// The entry was written or removed since it was last flushed.
    Dirty,
}

/// The in-memory view of one slot. An absent value stands for "nothing is
/// stored here"; a dirty absent value is a removal that the store has not
/// seen yet.
#[derive(Debug)]
pub struct CacheEntry<T> {
    value: Option<T>,
    state: EntryState,
}

/// What an entry is, as a mathematical value.
pub struct Cached<T> {
    /// The value that the entry holds, if any.
    pub value: Option<T>,
    /// Whether the entry differs from what the store holds.
    pub dirty: bool,
}

impl<T> Cached<T> {
    /// The number of write operations that flushing the entry takes.
    pub open spec fn pending(self) -> nat {
        if self.dirty {
            1
        } else {
            0
        }
    }
}

impl<T: Storable> Cached<T> {
    /// The write operations that flushing the entry under `key` issues.
    pub open spec fn changes(self, key: Seq<u8>) -> Seq<Change> {
        if !self.dirty {
            seq![]
        } else {
            match self.value {
                Some(value) => seq![Change::Put(key, value.encoding())],
                None => seq![Change::Remove(key)],
            }
        }
    }

    /// What the store holds once the entry has been flushed under `key`.
    pub open spec fn written_back(self, key: Seq<u8>, contents: Contents) -> Contents {
        if !self.dirty {
            contents
        } else {
            match self.value {
                Some(value) => contents.insert(key, value.encoding()),
                None => contents.remove(key),
            }
        }
    }
}

impl<T> View for CacheEntry<T> {
    type V = Cached<T>;

    closed spec fn view(&self) -> Cached<T> {
        Cached { value: self.value, dirty: self.state == EntryState::Dirty }
    }
}

impl<T> CacheEntry<T> {
    /// An entry for a value that was just read from the store.
    pub fn new_clean(value: Option<T>) -> (entry: CacheEntry<T>)
        ensures
            entry@ == (Cached { value, dirty: false }),
    {
        CacheEntry { value, state: EntryState::Clean }
    }

    /// An entry for a value that the store has not seen.
    pub fn new_dirty(value: Option<T>) -> (entry: CacheEntry<T>)
        ensures
            entry@ == (Cached { value, dirty: true }),
    {
        CacheEntry { value, state: EntryState::Dirty }
    }

    /// The value, if one is present.
    pub fn value(&self) -> (value: Option<&T>)
        ensures
            value is Some <==> self@.value is Some,
            value is Some ==> *value.unwrap() == self@.value.unwrap(),
    {
        self.value.as_ref()
    }

    /// Mutable access to the value. The entry counts as dirty from here
    /// on, whether or not the caller writes through the reference.
    pub fn value_mut(&mut self) -> (value: Option<&mut T>)
        ensures
            value is Some <==> old(self)@.value is Some,
            value is Some ==> *value.unwrap() == old(self)@.value.unwrap(),
            value is Some ==> final(self)@ == (Cached {
                value: Some(*final(value.unwrap())),
                dirty: true,
            }),
            value is None ==> final(self)@ == (Cached::<T> { value: None, dirty: true }),
    {
        self.state = EntryState::Dirty;
        self.value.as_mut()
    }

    /// Whether the entry has a change that the store has not seen.
    pub fn is_dirty(&self) -> (dirty: bool)
        ensures
            dirty == self@.dirty,
    {
        match self.state {
            EntryState::Dirty => true,
            EntryState::Clean => false,
        }
    }

    /// Overwrites the value and marks the entry dirty.
    pub fn set(&mut self, value: T)
        ensures
            final(self)@ == (Cached { value: Some(value), dirty: true }),
    {
        self.value = Some(value);
        self.state = EntryState::Dirty;
    }

    /// Puts `value` in place of what the entry held, and hands that back.
    /// The entry is dirty afterwards.
    pub fn replace(&mut self, value: T) -> (previous: Option<T>)
        ensures
            previous == old(self)@.value,
            final(self)@ == (Cached { value: Some(value), dirty: true }),
    {
        let previous = self.value.take();
        self.value = Some(value);
        self.state = EntryState::Dirty;
        previous
    }

    /// Takes the value out and marks the entry dirty: the removal still
    /// has to reach the store, which may hold a stale value.
    pub fn remove(&mut self) -> (value: Option<T>)
        ensures
            value == old(self)@.value,
            final(self)@ == (Cached::<T> { value: None, dirty: true }),
    {
        self.state = EntryState::Dirty;
        self.value.take()
    }
}

impl<T: Storable> CacheEntry<T> {
    /// Brings the store in line with the entry: a dirty value is written
    /// under `key`, a dirty absence deletes `key`, a clean entry costs
    /// nothing. The entry is clean afterwards.
    pub fn flush(&mut self, key: &[u8], store: &mut Store)
        requires
            old(store).wf(),
        ensures
            final(store).wf(),
            final(store)@ == old(self)@.written_back(key@, old(store)@),
            final(store).log() == old(store).log() + old(self)@.changes(key@),
            final(self)@ == (Cached { value: old(self)@.value, dirty: false }),
    {
        match self.state {
            EntryState::Clean => {},
            EntryState::Dirty => {
                match &self.value {
                    Some(value) => {
                        let bytes = value.serialize();
                        store.set(key, bytes);
                    },
                    None => {
                        store.remove(key);
                    },
                }
                self.state = EntryState::Clean;
            },
        }
    }
}

} // verus!
