//! A growable sequence whose elements live in the store, one key each.

use crate::codec::Storable;
use crate::entry::Cached;
use crate::iter::{Iter, IterMut};
use crate::stable_map::{Entries, StableMap};
use crate::store::{changed_by, Contents, Store};
use std::ops::Range;
use vstd::prelude::*;

verus! {

/// One change to a sequence: what `push`, `pop` and `swap_remove` do.
pub enum Edit<T> {
    /// Append a value.
    Push(T),
    /// Remove the last element, if there is one.
    Pop,
    /// Remove the element at an index; the last element takes its place.
    SwapRemove(u32),
}

/// Whether `edit` can be made on `elements`: a push always, a pop always
/// (on nothing it does nothing), a swap-remove only within bounds.
pub open spec fn feasible<T>(elements: Seq<T>, edit: Edit<T>) -> bool {
    match edit {
        Edit::Push(_) => true,
        Edit::Pop => true,
        Edit::SwapRemove(index) => index < elements.len(),
    }
}

/// The sequence after `edit`.
pub open spec fn applied<T>(elements: Seq<T>, edit: Edit<T>) -> Seq<T> {
    match edit {
        Edit::Push(value) => elements.push(value),
        Edit::Pop => if elements.len() > 0 {
            elements.drop_last()
        } else {
            elements
        },
        Edit::SwapRemove(index) => elements.update(index as int, elements.last()).drop_last(),
    }
}

/// Whether every edit of `edits`, made in order from `elements` on, can
/// be made.
pub open spec fn all_feasible<T>(elements: Seq<T>, edits: Seq<Edit<T>>) -> bool
    decreases edits.len(),
{
    if edits.len() == 0 {
        true
    } else {
        all_feasible(elements, edits.drop_last()) && feasible(
            replayed(elements, edits.drop_last()),
            edits.last(),
        )
    }
}

/// The sequence after all of `edits`, made in order.
pub open spec fn replayed<T>(elements: Seq<T>, edits: Seq<Edit<T>>) -> Seq<T>
    decreases edits.len(),
{
    if edits.len() == 0 {
        elements
    } else {
        applied(replayed(elements, edits.drop_last()), edits.last())
    }
}

/// The number of pushes among `edits`.
pub open spec fn pushes<T>(edits: Seq<Edit<T>>) -> nat
    decreases edits.len(),
{
    if edits.len() == 0 {
        0
    } else {
        pushes(edits.drop_last()) + (if edits.last() is Push {
            1nat
        } else {
            0nat
        })
    }
}

/// The number of edits among `edits` that took an element away: every
/// swap-remove, and every pop that found the sequence non-empty.
pub open spec fn removals<T>(elements: Seq<T>, edits: Seq<Edit<T>>) -> nat
    decreases edits.len(),
{
    if edits.len() == 0 {
        0
    } else {
        removals(elements, edits.drop_last()) + (if edits.last() is Push || replayed(
            elements,
            edits.drop_last(),
        ).len() == 0 {
            0nat
        } else {
            1nat
        })
    }
}

/// After any run of pushes, pops and swap-removes the length is the
/// length at the start, plus the pushes, minus the removals that took
/// an element away.
pub proof fn lemma_len_counts_edits<T>(elements: Seq<T>, edits: Seq<Edit<T>>)
    requires
        all_feasible(elements, edits),
    ensures
        replayed(elements, edits).len() == elements.len() + pushes(edits) - removals(
            elements,
            edits,
        ),
    decreases edits.len(),
{
    if edits.len() > 0 {
        lemma_len_counts_edits(elements, edits.drop_last());
    }
}

/// A sequence of `len` elements kept under the keys of a prefix, with a
/// write-back cache in front of the store.
///
/// Elements are read from the store when they are first touched and are
/// written back by `flush`. Until then the store lags behind: what the
/// sequence holds is given by `elements`, which looks at the cache first.
#[derive(Debug)]
pub struct Vector<T> {
    len: u32,
    values: StableMap<T>,
}

impl<T: Storable> Vector<T> {
    /// The cache in front of the store.
    pub closed spec fn cache(&self) -> StableMap<T> {
        self.values
    }

    /// The number of elements.
    pub closed spec fn spec_len(&self) -> u32 {
        self.len
    }

    /// The cached entries, by index.
    pub open spec fn entries(&self) -> Entries<T> {
        self.cache()@
    }

    /// The number of write operations that a flush would issue.
    pub open spec fn pending(&self) -> nat {
        self.cache().pending()
    }

    /// What slot `index` adds to `pending`.
    pub open spec fn pending_at(&self, index: u32) -> nat {
        self.cache().pending_at(index)
    }

    /// The element at `index` as the sequence sees it, if the slot has one.
    pub open spec fn value_at(&self, contents: Contents, index: u32) -> Option<T> {
        self.cache().value_at(contents, index)
    }

    /// The sequence is sound over a store with the given contents: the
    /// cache is in order, every clean entry holds what the store holds, and
    /// every index below `len` has a value.
    pub open spec fn wf(&self, contents: Contents) -> bool {
        &&& self.cache().inv()
        &&& self.cache().coherent(contents)
        &&& self.cache().filled(contents, self.len())
    }

    /// The elements, in order.
    pub open spec fn elements(&self, contents: Contents) -> Seq<T> {
        Seq::new(self.len() as nat, |i: int| self.value_at(contents, i as u32).unwrap())
    }

    /// An empty sequence under `prefix`.
    pub fn new(prefix: Vec<u8>) -> (vector: Vector<T>)
        ensures
            vector.len() == 0,
            vector.cache().inv(),
            vector.cache().prefix() == prefix@,
            vector.entries() == Entries::<T>::empty(),
            vector.pending() == 0,
    {
        Vector { len: 0, values: StableMap::new(prefix) }
    }

    /// The sequence of `len` elements that the store holds under `prefix`,
    /// with nothing cached. Whether the store does hold them is for
    /// `is_intact` to tell.
    pub fn restore(prefix: Vec<u8>, len: u32) -> (vector: Vector<T>)
        ensures
            vector.len() == len,
            vector.cache().inv(),
            vector.cache().prefix() == prefix@,
            vector.entries() == Entries::<T>::empty(),
            vector.pending() == 0,
    {
        Vector { len, values: StableMap::new(prefix) }
    }

    /// The number of elements.
    #[verifier::when_used_as_spec(spec_len)]
    pub fn len(&self) -> (len: u32)
        ensures
            len == self.spec_len(),
    {
        self.len
    }

    /// The prefix under which the elements are kept.
    pub fn prefix(&self) -> (prefix: &[u8])
        ensures
            prefix@ == self.cache().prefix(),
    {
        self.values.key_prefix()
    }

    /// Whether the sequence has no elements.
    pub fn is_empty(&self) -> (empty: bool)
        ensures
            empty == (self.len() == 0),
    {
        self.len == 0
    }

    /// Whether nothing is pending: the store holds every change made so
    /// far, and a flush would issue no write operation.
    pub fn is_flushed(&self) -> (flushed: bool)
        ensures
            flushed == (self.pending() == 0),
    {
        self.values.is_flushed()
    }

    /// Whether every index below `len` has a value, cached or stored.
    pub fn is_intact(&self, store: &Store) -> (intact: bool)
        requires
            self.cache().inv(),
            store.wf(),
        ensures
            intact == self.cache().filled(store@, self.len()),
    {
        let mut index: u32 = 0;
        while index < self.len
            invariant
                index <= self.len,
                self.cache().inv(),
                store.wf(),
                self.cache().filled(store@, index),
            decreases self.len - index,
        {
            if !self.values.holds_value(store, index) {
                return false;
            }
            index += 1;
        }
        true
    }

    /// The element at `index`, or `None` if `index` is out of bounds. The
    /// element is read from the store if this is the first access.
    pub fn get(&mut self, store: &Store, index: u32) -> (value: Option<&T>)
        requires
            old(self).wf(store@),
            store.wf(),
        ensures
            final(self).wf(store@),
            final(self).len() == old(self).len(),
            final(self).cache().prefix() == old(self).cache().prefix(),
            final(self).pending() == old(self).pending(),
            final(self).entries() == (if index < old(self).len() {
                old(self).cache().loaded(store@, index)
            } else {
                old(self).entries()
            }),
            final(self).elements(store@) == old(self).elements(store@),
            value is Some <==> index < old(self).len(),
            value is Some ==> *value.unwrap() == old(self).elements(store@)[index as int],
    {
        if index >= self.len {
            return None;
        }
        assert(self.cache().value_at(store@, index) is Some);
        self.values.get(store, index)
    }

    /// Mutable access to the element at `index`, or `None` if `index` is
    /// out of bounds. The slot counts as written from the moment the
    /// reference is handed out.
    pub fn get_mut(&mut self, store: &Store, index: u32) -> (value: Option<&mut T>)
        requires
            old(self).wf(store@),
            store.wf(),
        ensures
            final(self).wf(store@),
            final(self).len() == old(self).len(),
            final(self).cache().prefix() == old(self).cache().prefix(),
            value is Some <==> index < old(self).len(),
            value is None ==> final(self).entries() == old(self).entries(),
            value is None ==> final(self).pending() == old(self).pending(),
            value is None ==> final(self).elements(store@) == old(self).elements(store@),
            value is Some ==> *value.unwrap() == old(self).elements(store@)[index as int],
            value is Some ==> final(self).elements(store@) == old(self).elements(store@).update(
                index as int,
                *final(value.unwrap()),
            ),
            value is Some ==> final(self).entries() == old(self).entries().insert(
                index,
                Cached { value: Some(*final(value.unwrap())), dirty: true },
            ),
            value is Some ==> final(self).pending() == old(self).pending() - old(self).pending_at(
                index,
            ) + 1,
    {
        if index >= self.len {
            return None;
        }
        assert(self.cache().value_at(store@, index) is Some);
        self.values.get_mut(store, index)
    }

    /// The element at `index`, which has to be within bounds.
    pub fn index(&mut self, store: &Store, index: u32) -> (value: &T)
        requires
            old(self).wf(store@),
            store.wf(),
            index < old(self).len(),
        ensures
            final(self).wf(store@),
            final(self).len() == old(self).len(),
            final(self).cache().prefix() == old(self).cache().prefix(),
            final(self).pending() == old(self).pending(),
            final(self).entries() == old(self).cache().loaded(store@, index),
            final(self).elements(store@) == old(self).elements(store@),
            *value == old(self).elements(store@)[index as int],
    {
        self.get(store, index).unwrap()
    }

    /// Mutable access to the element at `index`, which has to be within
    /// bounds. The slot counts as written from the moment the reference
    /// is handed out.
    pub fn index_mut(&mut self, store: &Store, index: u32) -> (value: &mut T)
        requires
            old(self).wf(store@),
            store.wf(),
            index < old(self).len(),
        ensures
            final(self).wf(store@),
            final(self).len() == old(self).len(),
            final(self).cache().prefix() == old(self).cache().prefix(),
            final(self).pending() == old(self).pending() - old(self).pending_at(index) + 1,
            final(self).entries() == old(self).entries().insert(
                index,
                Cached { value: Some(*final(value)), dirty: true },
            ),
            final(self).elements(store@) == old(self).elements(store@).update(
                index as int,
                *final(value),
            ),
            *value == old(self).elements(store@)[index as int],
    {
        self.get_mut(store, index).unwrap()
    }

    /// This vector is `before` with `value` pushed: one element longer,
    /// with a dirty entry for the new last index that holds `value`.
    pub open spec fn pushed(&self, before: &Vector<T>, value: T) -> bool {
        &&& self.cache().inv()
        &&& self.cache().prefix() == before.cache().prefix()
        &&& self.len() == before.len() + 1
        &&& self.entries() == before.entries().insert(
            before.len(),
            Cached { value: Some(value), dirty: true },
        )
    }

    /// What was pushed is what reading the last index gives: after
    /// `push(value)` the element at `len() - 1` is `value`, whatever the
    /// store holds, and the elements before it are as they were.
    pub proof fn lemma_push_then_get(&self, before: &Vector<T>, contents: Contents, value: T)
        requires
            before.wf(contents),
            self.pushed(before, value),
        ensures
            self.wf(contents),
            self.value_at(contents, (self.len() - 1) as u32) == Some(value),
            self.elements(contents) == applied(before.elements(contents), Edit::Push(value)),
    {
        assert forall|index: u32| index < self.len() implies (
        #[trigger] self.cache().value_at(contents, index)) is Some by {
            if index < before.len() {
                assert(before.cache().value_at(contents, index) is Some);
            }
        }
    }

    /// Appends `value`. The store is not touched until the next flush.
    pub fn push(&mut self, value: T)
        requires
            old(self).cache().inv(),
            old(self).len() < u32::MAX,
        ensures
            final(self).pushed(old(self), value),
            final(self).pending() == old(self).pending() - old(self).pending_at(old(self).len())
                + 1,
            forall|contents: Contents| #[trigger]
                old(self).wf(contents) ==> final(self).wf(contents) && final(self).elements(
                    contents,
                ) == applied(old(self).elements(contents), Edit::Push(value)),
    {
        let last = self.len;
        self.values.set(last, value);
        self.len = last + 1;
        proof {
            assert forall|contents: Contents| #[trigger] old(self).wf(contents) implies self.wf(
                contents,
            ) && self.elements(contents) == applied(
                old(self).elements(contents),
                Edit::Push(value),
            ) by {
                self.lemma_push_then_get(old(self), contents, value);
            }
        }
    }

    /// Removes the last element and hands it back; `None` on an empty
    /// sequence, which is left as it is. The element is read from the
    /// store first if it is not cached.
    pub fn pop(&mut self, store: &Store) -> (value: Option<T>)
        requires
            old(self).wf(store@),
            store.wf(),
        ensures
            final(self).wf(store@),
            final(self).cache().prefix() == old(self).cache().prefix(),
            value is Some <==> old(self).len() > 0,
            value is None ==> final(self).len() == 0,
            value is None ==> final(self).entries() == old(self).entries(),
            value is None ==> final(self).pending() == old(self).pending(),
            value is Some ==> value.unwrap() == old(self).elements(store@).last(),
            value is Some ==> final(self).len() == old(self).len() - 1,
            value is Some ==> final(self).entries() == old(self).entries().insert(
                (old(self).len() - 1) as u32,
                Cached { value: None, dirty: true },
            ),
            value is Some ==> final(self).pending() == old(self).pending() - old(self).pending_at(
                (old(self).len() - 1) as u32,
            ) + 1,
            final(self).elements(store@) == applied(old(self).elements(store@), Edit::Pop),
    {
        if self.len == 0 {
            return None;
        }
        let last = self.len - 1;
        assert(self.cache().value_at(store@, last) is Some);
        let value = self.values.remove_entry(store, last);
        self.len = last;
        proof {
            assert forall|index: u32| index < self.len() implies (
            #[trigger] self.cache().value_at(store@, index)) is Some by {
                assert(old(self).cache().value_at(store@, index) is Some);
            }
        }
        value
    }

    /// Removes the element at `index` and hands it back. The last element
    /// takes its place, so the order of the elements is not kept.
    pub fn swap_remove(&mut self, store: &Store, index: u32) -> (value: T)
        requires
            old(self).wf(store@),
            store.wf(),
            index < old(self).len(),
        ensures
            final(self).wf(store@),
            final(self).cache().prefix() == old(self).cache().prefix(),
            final(self).len() == old(self).len() - 1,
            value == old(self).elements(store@)[index as int],
            final(self).elements(store@) == applied(
                old(self).elements(store@),
                Edit::SwapRemove(index),
            ),
            final(self).entries() == (if index == old(self).len() - 1 {
                old(self).entries().insert(index, Cached { value: None, dirty: true })
            } else {
                old(self).entries().insert(
                    (old(self).len() - 1) as u32,
                    Cached { value: None, dirty: true },
                ).insert(
                    index,
                    Cached { value: Some(old(self).elements(store@).last()), dirty: true },
                )
            }),
            final(self).pending() == (if index == old(self).len() - 1 {
                old(self).pending() - old(self).pending_at(index) + 1
            } else {
                old(self).pending() - old(self).pending_at(index) - old(self).pending_at(
                    (old(self).len() - 1) as u32,
                ) + 2
            }),
    {
        let last = self.len - 1;
        assert(self.cache().value_at(store@, index) is Some);
        let moved = self.values.remove_entry(store, last).unwrap();
        self.len = last;
        let value = if index == last {
            moved
        } else {
            self.values.replace(store, index, moved).unwrap()
        };
        proof {
            assert forall|other: u32| other < self.len() implies (
            #[trigger] self.cache().value_at(store@, other)) is Some by {
                assert(old(self).cache().value_at(store@, other) is Some);
            }
            assert(self.elements(store@) =~= old(self).elements(store@).update(
                index as int,
                old(self).elements(store@).last(),
            ).drop_last());
        }
        value
    }

    /// Writes every pending change to the store: one write operation for
    /// each slot written or removed since the last flush, none for the
    /// others. The elements are what they were; the store now holds them.
    pub fn flush(&mut self, store: &mut Store)
        requires
            old(self).cache().inv(),
            old(store).wf(),
        ensures
            final(self).cache().inv(),
            final(self).len() == old(self).len(),
            final(self).cache().prefix() == old(self).cache().prefix(),
            final(self).pending() == 0,
            final(self).entries() == old(self).cache().cleaned(),
            final(store).wf(),
            final(store)@ == old(self).cache().flushed(old(store)@),
            final(store).log().len() == old(store).log().len() + old(self).pending(),
            final(store).log().take(old(store).log().len() as int) == old(store).log(),
            final(store)@ == changed_by(
                old(store)@,
                final(store).log().skip(old(store).log().len() as int),
            ),
            old(self).wf(old(store)@) ==> final(self).wf(final(store)@) && final(self).elements(
                final(store)@,
            ) == old(self).elements(old(store)@),
    {
        self.values.flush_all(store);
        proof {
            old(self).cache().lemma_flush_keeps(&self.cache(), old(store)@);
            if old(self).wf(old(store)@) {
                assert forall|index: u32| index < self.len() implies (
                #[trigger] self.cache().value_at(store@, index)) is Some by {
                    assert(old(self).cache().value_at(old(store)@, index) is Some);
                }
            }
        }
    }

    /// An iterator over the elements as they are now. The vector stays
    /// borrowed until the iterator is dropped.
    pub fn iter<'a>(&'a mut self, store: &'a Store) -> (iter: Iter<'a, T>)
        requires
            old(self).wf(store@),
            store.wf(),
        ensures
            iter.wf(),
            iter.range == (Range { start: 0u32, end: old(self).len() }),
            *iter.vec == *old(self),
            iter.store == store,
            *final(self) == *final(iter.vec),
    {
        Iter::new(self, store)
    }

    /// An iterator that hands out the elements as they are now for
    /// writing. The vector stays borrowed until the iterator is dropped.
    pub fn iter_mut<'a>(&'a mut self, store: &'a Store) -> (iter: IterMut<'a, T>)
        requires
            old(self).wf(store@),
            store.wf(),
        ensures
            iter.wf(),
            iter.range == (Range { start: 0u32, end: old(self).len() }),
            *iter.vec == *old(self),
            iter.store == store,
            *final(self) == *final(iter.vec),
    {
        IterMut::new(self, store)
    }

    /// A flush that follows a flush does nothing: with nothing pending
    /// the store keeps its contents, no write operation is issued, and the
    /// cache stays as it is.
    pub proof fn lemma_flush_again(&self, contents: Contents)
        requires
            self.cache().inv(),
            self.pending() == 0,
        ensures
            self.cache().flushed(contents) == contents,
            self.cache().cleaned() == self.entries(),
    {
        self.cache().lemma_flush_idle(contents);
    }

    /// A flushed vector can be rebuilt from the store alone: a vector
    /// with the same prefix and length and an empty cache is sound over
    /// the same store and has the same elements in the same order.
    pub proof fn lemma_restore_reproduces(&self, restored: &Vector<T>, contents: Contents)
        requires
            self.wf(contents),
            self.pending() == 0,
            restored.cache().inv(),
            restored.entries() == Entries::<T>::empty(),
            restored.cache().prefix() == self.cache().prefix(),
            restored.len() == self.len(),
        ensures
            restored.wf(contents),
            restored.elements(contents) == self.elements(contents),
    {
        self.cache().lemma_pending_none();
        assert forall|index: u32|
            restored.cache().value_at(contents, index) == #[trigger] self.cache().value_at(
                contents,
                index,
            ) by {}
        assert forall|index: u32| index < restored.len() implies (
        #[trigger] restored.cache().value_at(contents, index)) is Some by {
            assert(self.cache().value_at(contents, index) is Some);
        }
    }
}

} // verus!
