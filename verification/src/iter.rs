//! Iteration over a stored vector, from either end.
//!
//! An iterator borrows its vector exclusively from the moment it is made
//! until it is dropped, and walks a range of indices fixed at that
//! moment. Every step takes the resolved index out of the range, so no
//! index is resolved twice; that is what makes it sound for `IterMut` to
//! hand out one mutable reference per element.

use crate::codec::Storable;
use crate::entry::Cached;
use crate::store::Store;
use crate::vector::Vector;
use std::ops::Range;
use vstd::prelude::*;

verus! {

/// The number of indices left in `range`.
pub open spec fn width(range: Range<u32>) -> nat {
    if range.start < range.end {
        (range.end - range.start) as nat
    } else {
        0
    }
}

/// The index that skipping `n` indices from the front arrives at, if
/// the range reaches that far.
pub open spec fn nth_index(range: Range<u32>, n: usize) -> Option<u32> {
    if n < width(range) {
        Some((range.start + n) as u32)
    } else {
        None
    }
}

/// The range that is left after `nth_index`: what lies behind the
/// resolved index, or nothing if the range did not reach that far.
pub open spec fn after_nth(range: Range<u32>, n: usize) -> Range<u32> {
    if n < width(range) {
        Range { start: (range.start + n + 1) as u32, end: range.end }
    } else {
        Range { start: range.end, end: range.end }
    }
}

/// The index that skipping `n` indices from the back arrives at, if the
/// range reaches that far.
pub open spec fn nth_back_index(range: Range<u32>, n: usize) -> Option<u32> {
    if n < width(range) {
        Some((range.end - 1 - n) as u32)
    } else {
        None
    }
}

/// The range that is left after `nth_back_index`: what lies before the
/// resolved index, or nothing if the range did not reach that far.
pub open spec fn after_nth_back(range: Range<u32>, n: usize) -> Range<u32> {
    if n < width(range) {
        Range { start: range.start, end: (range.end - 1 - n) as u32 }
    } else {
        Range { start: range.start, end: range.start }
    }
}

/// Takes the `n`-th index from the front of `range`, and everything
/// before it.
pub fn take_nth(range: &mut Range<u32>, n: usize) -> (index: Option<u32>)
    ensures
        index == nth_index(*old(range), n),
        *final(range) == after_nth(*old(range), n),
{
    if range.start < range.end && n < (range.end - range.start) as usize {
        let index: u32 = range.start + n as u32;
        range.start = index + 1;
        Some(index)
    } else {
        range.start = range.end;
        None
    }
}

/// Takes the `n`-th index from the back of `range`, and everything
/// behind it.
pub fn take_nth_back(range: &mut Range<u32>, n: usize) -> (index: Option<u32>)
    ensures
        index == nth_back_index(*old(range), n),
        *final(range) == after_nth_back(*old(range), n),
{
    if range.start < range.end && n < (range.end - range.start) as usize {
        let index: u32 = range.end - 1 - n as u32;
        range.end = index;
        Some(index)
    } else {
        range.end = range.start;
        None
    }
}

/// The number of indices left in `range`.
pub fn range_len(range: &Range<u32>) -> (len: usize)
    ensures
        len == width(*range),
{
    if range.start < range.end {
        (range.end - range.start) as usize
    } else {
        0
    }
}

/// One step of an iterator: `nth(n)` from the front or from the back.
/// `next` is `Front(0)`, `next_back` is `Back(0)`.
pub enum Step {
    /// Skip `n` indices from the front and resolve the next one.
    Front(usize),
    /// Skip `n` indices from the back and resolve the next one.
    Back(usize),
}

/// Whether `index` is still to come in `range`.
pub open spec fn awaits(range: Range<u32>, index: u32) -> bool {
    range.start <= index < range.end
}

/// The index that `step` resolves in `range`, if it resolves one.
pub open spec fn resolved(range: Range<u32>, step: Step) -> Option<u32> {
    match step {
        Step::Front(n) => nth_index(range, n),
        Step::Back(n) => nth_back_index(range, n),
    }
}

/// The range that `step` leaves of `range`.
pub open spec fn stepped(range: Range<u32>, step: Step) -> Range<u32> {
    match step {
        Step::Front(n) => after_nth(range, n),
        Step::Back(n) => after_nth_back(range, n),
    }
}

/// The range that is left after all of `steps`, taken in order.
pub open spec fn walked(range: Range<u32>, steps: Seq<Step>) -> Range<u32>
    decreases steps.len(),
{
    if steps.len() == 0 {
        range
    } else {
        stepped(walked(range, steps.drop_last()), steps.last())
    }
}

/// A step resolves an index of the range and takes it out; the range
/// only shrinks, and by one more than was skipped.
pub proof fn lemma_step_takes_out(range: Range<u32>, step: Step)
    requires
        range.start <= range.end,
    ensures
        range.start <= stepped(range, step).start <= stepped(range, step).end <= range.end,
        resolved(range, step) is Some ==> awaits(range, resolved(range, step).unwrap())
            && !awaits(stepped(range, step), resolved(range, step).unwrap()),
        resolved(range, step) is None ==> width(stepped(range, step)) == 0,
        forall|n: usize|
            step == Step::Front(n) || step == Step::Back(n) ==> (resolved(range, step) is Some
                <==> n < width(range)) && (resolved(range, step) is Some ==> width(
                stepped(range, step),
            ) == width(range) - n - 1),
{
}

/// The range left after more steps lies within the range left after
/// fewer.
pub proof fn lemma_walk_shrinks(range: Range<u32>, steps: Seq<Step>, j: int, k: int)
    requires
        range.start <= range.end,
        0 <= j <= k <= steps.len(),
    ensures
        walked(range, steps.take(j)).start <= walked(range, steps.take(k)).start,
        walked(range, steps.take(k)).start <= walked(range, steps.take(k)).end,
        walked(range, steps.take(k)).end <= walked(range, steps.take(j)).end,
    decreases k,
{
    if k > 0 {
        assert(steps.take(k).drop_last() =~= steps.take(k - 1));
        lemma_walk_shrinks(range, steps, 0, k - 1);
        lemma_step_takes_out(walked(range, steps.take(k - 1)), steps[k - 1]);
        if j < k {
            lemma_walk_shrinks(range, steps, j, k - 1);
        }
    }
}

/// No index is resolved twice: whatever steps an iterator takes, two of
/// them never resolve the same index.
pub proof fn lemma_never_twice(range: Range<u32>, steps: Seq<Step>, j: int, k: int)
    requires
        range.start <= range.end,
        0 <= j < k < steps.len(),
        resolved(walked(range, steps.take(j)), steps[j]) is Some,
        resolved(walked(range, steps.take(k)), steps[k]) is Some,
    ensures
        resolved(walked(range, steps.take(j)), steps[j]) != resolved(
            walked(range, steps.take(k)),
            steps[k],
        ),
{
    let first = walked(range, steps.take(j));
    let later = walked(range, steps.take(k));
    lemma_walk_shrinks(range, steps, 0, j);
    lemma_walk_shrinks(range, steps, j + 1, k);
    assert(steps.take(j + 1).drop_last() =~= steps.take(j));
    lemma_step_takes_out(first, steps[j]);
    lemma_step_takes_out(later, steps[k]);
}

/// The elements after an iterator has taken `steps` and `markers[k]` was
/// written through the reference that step `k` handed out.
pub open spec fn written<T>(
    elements: Seq<T>,
    range: Range<u32>,
    steps: Seq<Step>,
    markers: Seq<T>,
) -> Seq<T>
    decreases steps.len(),
{
    if steps.len() == 0 {
        elements
    } else {
        let before = written(elements, range, steps.drop_last(), markers.drop_last());
        match resolved(walked(range, steps.drop_last()), steps.last()) {
            Some(index) => before.update(index as int, markers.last()),
            None => before,
        }
    }
}

/// Writing through the references leaves the length as it is.
pub proof fn lemma_written_len<T>(
    elements: Seq<T>,
    range: Range<u32>,
    steps: Seq<Step>,
    markers: Seq<T>,
)
    requires
        range.start <= range.end <= elements.len(),
        markers.len() == steps.len(),
    ensures
        written(elements, range, steps, markers).len() == elements.len(),
    decreases steps.len(),
{
    if steps.len() > 0 {
        let n = steps.len() as int;
        lemma_written_len(elements, range, steps.drop_last(), markers.drop_last());
        lemma_walk_shrinks(range, steps, 0, n - 1);
        lemma_step_takes_out(walked(range, steps.drop_last()), steps.last());
    }
}

/// Every slot keeps its own marker: what was written through the
/// reference that a step handed out is what the slot holds when the
/// iteration is over, whatever was written through the others.
pub proof fn lemma_markers_stay<T>(
    elements: Seq<T>,
    range: Range<u32>,
    steps: Seq<Step>,
    markers: Seq<T>,
    k: int,
)
    requires
        range.start <= range.end <= elements.len(),
        markers.len() == steps.len(),
        0 <= k < steps.len(),
        resolved(walked(range, steps.take(k)), steps[k]) is Some,
    ensures
        written(elements, range, steps, markers)[resolved(
            walked(range, steps.take(k)),
            steps[k],
        ).unwrap() as int] == markers[k],
    decreases steps.len(),
{
    let n = steps.len() as int;
    let last = resolved(walked(range, steps.drop_last()), steps.last());
    // both the index in question and the last one resolved lie within the elements
    lemma_written_len(elements, range, steps.drop_last(), markers.drop_last());
    lemma_walk_shrinks(range, steps, 0, k);
    lemma_step_takes_out(walked(range, steps.take(k)), steps[k]);
    lemma_walk_shrinks(range, steps, 0, n - 1);
    lemma_step_takes_out(walked(range, steps.drop_last()), steps.last());
    if k < n - 1 {
        // the marker was in place before the last step, which resolves another index
        assert(steps.drop_last().take(k) =~= steps.take(k));
        lemma_markers_stay(elements, range, steps.drop_last(), markers.drop_last(), k);
        if last is Some {
            lemma_never_twice(range, steps, k, n - 1);
        }
    }
}

/// `count` calls of `next`.
pub open spec fn nexts(count: nat) -> Seq<Step> {
    Seq::new(count, |i: int| Step::Front(0))
}

/// `count` calls of `next_back`.
pub open spec fn next_backs(count: nat) -> Seq<Step> {
    Seq::new(count, |i: int| Step::Back(0))
}

/// Walking from the front resolves the indices in rising order, one
/// for each index of the range, and nothing after the last.
pub proof fn lemma_forward_order(range: Range<u32>, count: nat)
    requires
        range.start <= range.end,
    ensures
        count <= width(range) ==> walked(range, nexts(count)) == (Range {
            start: (range.start + count) as u32,
            end: range.end,
        }),
        count < width(range) ==> resolved(walked(range, nexts(count)), Step::Front(0)) == Some(
            (range.start + count) as u32,
        ),
        count >= width(range) ==> resolved(walked(range, nexts(count)), Step::Front(0)) is None,
    decreases count,
{
    if count > 0 {
        assert(nexts(count).drop_last() =~= nexts((count - 1) as nat));
        lemma_forward_order(range, (count - 1) as nat);
        if count > width(range) {
            lemma_step_takes_out(walked(range, nexts((count - 1) as nat)), Step::Front(0));
        }
    }
}

/// Walking from the back resolves the indices in falling order, one
/// for each index of the range, and nothing after the first.
pub proof fn lemma_backward_order(range: Range<u32>, count: nat)
    requires
        range.start <= range.end,
    ensures
        count <= width(range) ==> walked(range, next_backs(count)) == (Range {
            start: range.start,
            end: (range.end - count) as u32,
        }),
        count < width(range) ==> resolved(walked(range, next_backs(count)), Step::Back(0))
            == Some((range.end - 1 - count) as u32),
        count >= width(range) ==> resolved(walked(range, next_backs(count)), Step::Back(0))
            is None,
    decreases count,
{
    if count > 0 {
        assert(next_backs(count).drop_last() =~= next_backs((count - 1) as nat));
        lemma_backward_order(range, (count - 1) as nat);
        if count > width(range) {
            lemma_step_takes_out(walked(range, next_backs((count - 1) as nat)), Step::Back(0));
        }
    }
}

/// An iterator over the elements of a stored vector.
///
/// The fields are public so that contracts can speak of the vector that
/// the caller has back once the iterator is dropped. The methods ask for
/// `wf`, which a value made by `Vector::iter` has and every method keeps.
#[derive(Debug)]
pub struct Iter<'a, T> {
    /// The vector that is walked.
    pub vec: &'a mut Vector<T>,
    /// The store that the vector lives in.
    pub store: &'a Store,
    /// The indices that are still to come.
    pub range: Range<u32>,
}

impl<'a, T: Storable> Iter<'a, T> {
    /// The vector is sound over the store, and the range lies within it.
    pub open spec fn wf(&self) -> bool {
        &&& self.store.wf()
        &&& self.vec.wf(self.store@)
        &&& self.range.start <= self.range.end <= self.vec.len()
    }

    /// The vector that is walked, as it is now.
    pub open spec fn vector(&self) -> Vector<T> {
        *self.vec
    }

    /// The elements of the vector that is walked.
    pub open spec fn elements(&self) -> Seq<T> {
        self.vec.elements(self.store@)
    }

    /// An iterator over all of `vec`, as it is now.
    pub fn new(vec: &'a mut Vector<T>, store: &'a Store) -> (iter: Iter<'a, T>)
        requires
            old(vec).wf(store@),
            store.wf(),
        ensures
            iter.wf(),
            iter.range == (Range { start: 0u32, end: old(vec).len() }),
            *iter.vec == *old(vec),
            iter.store == store,
            *final(vec) == *final(iter.vec),
    {
        let end = vec.len();
        Iter { vec, store, range: Range { start: 0, end } }
    }

    /// The number of elements left to iterate.
    pub fn remaining(&self) -> (left: usize)
        ensures
            left == width(self.range),
    {
        range_len(&self.range)
    }

    /// The bounds on the number of elements left: both are exact.
    pub fn size_hint(&self) -> (hint: (usize, Option<usize>))
        ensures
            hint.0 == width(self.range),
            hint.1 == Some(hint.0),
    {
        let left = self.remaining();
        (left, Some(left))
    }

    /// The number of elements left. The iterator is used up, and the
    /// vector is left as it is.
    pub fn count(self) -> (left: usize)
        ensures
            left == width(self.range),
            *final(self.vec) == *old(self.vec),
    {
        self.remaining()
    }

    /// The next element from the front.
    pub fn next(&mut self) -> (value: Option<&T>)
        requires
            old(self).wf(),
        ensures
            final(self).wf(),
            final(self).store == old(self).store,
            *final(final(self).vec) == *final(old(self).vec),
            final(self).range == after_nth(old(self).range, 0),
            final(self).elements() == old(self).elements(),
            final(self).vector().len() == old(self).vector().len(),
            final(self).vector().cache().prefix() == old(self).vector().cache().prefix(),
            final(self).vector().pending() == old(self).vector().pending(),
            value is None ==> final(self).vector().entries() == old(self).vector().entries(),
            value is Some ==> final(self).vector().entries() == old(self).vector().cache().loaded(
                old(self).store@,
                old(self).range.start,
            ),
            value is Some <==> nth_index(old(self).range, 0) is Some,
            value is Some ==> *value.unwrap() == old(self).elements()[old(self).range.start as int],
    {
        self.nth(0)
    }

    /// The element `n` places from the front; it and those before it
    /// leave the range. If fewer than `n + 1` elements are left, the
    /// range is emptied and `None` is returned.
    pub fn nth(&mut self, n: usize) -> (value: Option<&T>)
        requires
            old(self).wf(),
        ensures
            final(self).wf(),
            final(self).store == old(self).store,
            *final(final(self).vec) == *final(old(self).vec),
            final(self).range == after_nth(old(self).range, n),
            final(self).elements() == old(self).elements(),
            final(self).vector().len() == old(self).vector().len(),
            final(self).vector().cache().prefix() == old(self).vector().cache().prefix(),
            final(self).vector().pending() == old(self).vector().pending(),
            value is None ==> final(self).vector().entries() == old(self).vector().entries(),
            value is Some ==> final(self).vector().entries() == old(self).vector().cache().loaded(
                old(self).store@,
                (old(self).range.start + n) as u32,
            ),
            value is Some <==> nth_index(old(self).range, n) is Some,
            value is Some ==> *value.unwrap() == old(self).elements()[old(self).range.start + n],
    {
        match take_nth(&mut self.range, n) {
            Some(index) => self.vec.get(self.store, index),
            None => None,
        }
    }

    /// The next element from the back.
    pub fn next_back(&mut self) -> (value: Option<&T>)
        requires
            old(self).wf(),
        ensures
            final(self).wf(),
            final(self).store == old(self).store,
            *final(final(self).vec) == *final(old(self).vec),
            final(self).range == after_nth_back(old(self).range, 0),
            final(self).elements() == old(self).elements(),
            final(self).vector().len() == old(self).vector().len(),
            final(self).vector().cache().prefix() == old(self).vector().cache().prefix(),
            final(self).vector().pending() == old(self).vector().pending(),
            value is None ==> final(self).vector().entries() == old(self).vector().entries(),
            value is Some ==> final(self).vector().entries() == old(self).vector().cache().loaded(
                old(self).store@,
                (old(self).range.end - 1) as u32,
            ),
            value is Some <==> nth_back_index(old(self).range, 0) is Some,
            value is Some ==> *value.unwrap() == old(self).elements()[old(self).range.end - 1],
    {
        self.nth_back(0)
    }

    /// The element `n` places from the back; it and those behind it
    /// leave the range. If fewer than `n + 1` elements are left, the
    /// range is emptied and `None` is returned.
    pub fn nth_back(&mut self, n: usize) -> (value: Option<&T>)
        requires
            old(self).wf(),
        ensures
            final(self).wf(),
            final(self).store == old(self).store,
            *final(final(self).vec) == *final(old(self).vec),
            final(self).range == after_nth_back(old(self).range, n),
            final(self).elements() == old(self).elements(),
            final(self).vector().len() == old(self).vector().len(),
            final(self).vector().cache().prefix() == old(self).vector().cache().prefix(),
            final(self).vector().pending() == old(self).vector().pending(),
            value is None ==> final(self).vector().entries() == old(self).vector().entries(),
            value is Some ==> final(self).vector().entries() == old(self).vector().cache().loaded(
                old(self).store@,
                (old(self).range.end - 1 - n) as u32,
            ),
            value is Some <==> nth_back_index(old(self).range, n) is Some,
            value is Some ==> *value.unwrap() == old(self).elements()[old(self).range.end - 1 - n],
    {
        match take_nth_back(&mut self.range, n) {
            Some(index) => self.vec.get(self.store, index),
            None => None,
        }
    }
}


/// An iterator over exclusive references to the elements of a stored
/// vector. Every element that it hands out counts as written.
///
/// The fields are public so that contracts can speak of the vector that
/// the caller has back once the iterator is dropped. The methods ask for
/// `wf`, which a value made by `Vector::iter_mut` has and every method
/// keeps.
#[derive(Debug)]
pub struct IterMut<'a, T> {
    /// The vector that is walked.
    pub vec: &'a mut Vector<T>,
    /// The store that the vector lives in.
    pub store: &'a Store,
    /// The indices that are still to come.
    pub range: Range<u32>,
}

impl<'a, T: Storable> IterMut<'a, T> {
    /// The vector is sound over the store, and the range lies within it.
    pub open spec fn wf(&self) -> bool {
        &&& self.store.wf()
        &&& self.vec.wf(self.store@)
        &&& self.range.start <= self.range.end <= self.vec.len()
    }

    /// The vector that is walked, as it is now.
    pub open spec fn vector(&self) -> Vector<T> {
        *self.vec
    }

    /// The elements of the vector that is walked.
    pub open spec fn elements(&self) -> Seq<T> {
        self.vec.elements(self.store@)
    }

    /// An iterator over all of `vec`, as it is now.
    pub fn new(vec: &'a mut Vector<T>, store: &'a Store) -> (iter: IterMut<'a, T>)
        requires
            old(vec).wf(store@),
            store.wf(),
        ensures
            iter.wf(),
            iter.range == (Range { start: 0u32, end: old(vec).len() }),
            *iter.vec == *old(vec),
            iter.store == store,
            *final(vec) == *final(iter.vec),
    {
        let end = vec.len();
        IterMut { vec, store, range: Range { start: 0, end } }
    }

    /// The number of elements left to iterate.
    pub fn remaining(&self) -> (left: usize)
        ensures
            left == width(self.range),
    {
        range_len(&self.range)
    }

    /// The bounds on the number of elements left: both are exact.
    pub fn size_hint(&self) -> (hint: (usize, Option<usize>))
        ensures
            hint.0 == width(self.range),
            hint.1 == Some(hint.0),
    {
        let left = self.remaining();
        (left, Some(left))
    }

    /// The number of elements left. The iterator is used up, and the
    /// vector is left as it is.
    pub fn count(self) -> (left: usize)
        ensures
            left == width(self.range),
            *final(self.vec) == *old(self.vec),
    {
        self.remaining()
    }

    /// The next element from the front.
    pub fn next(&mut self) -> (value: Option<&mut T>)
        requires
            old(self).wf(),
        ensures
            final(self).wf(),
            final(self).store == old(self).store,
            *final(final(self).vec) == *final(old(self).vec),
            final(self).range == after_nth(old(self).range, 0),
            final(self).vector().len() == old(self).vector().len(),
            final(self).vector().cache().prefix() == old(self).vector().cache().prefix(),
            value is None ==> final(self).vector().entries() == old(self).vector().entries(),
            value is None ==> final(self).vector().pending() == old(self).vector().pending(),
            value is Some ==> final(self).vector().entries() == old(self).vector().entries().insert(
                old(self).range.start,
                Cached { value: Some(*final(value.unwrap())), dirty: true },
            ),
            value is Some ==> final(self).vector().pending() == old(self).vector().pending()
                - old(self).vector().pending_at(old(self).range.start) + 1,
            value is Some <==> nth_index(old(self).range, 0) is Some,
            value is None ==> final(self).elements() == old(self).elements(),
            value is Some ==> *value.unwrap() == old(self).elements()[old(self).range.start as int],
            value is Some ==> final(self).elements() == old(self).elements().update(
                old(self).range.start as int,
                *final(value.unwrap()),
            ),
    {
        self.nth(0)
    }

    /// The element `n` places from the front; it and those before it
    /// leave the range. If fewer than `n + 1` elements are left, the
    /// range is emptied and `None` is returned.
    pub fn nth(&mut self, n: usize) -> (value: Option<&mut T>)
        requires
            old(self).wf(),
        ensures
            final(self).wf(),
            final(self).store == old(self).store,
            *final(final(self).vec) == *final(old(self).vec),
            final(self).range == after_nth(old(self).range, n),
            final(self).vector().len() == old(self).vector().len(),
            final(self).vector().cache().prefix() == old(self).vector().cache().prefix(),
            value is None ==> final(self).vector().entries() == old(self).vector().entries(),
            value is None ==> final(self).vector().pending() == old(self).vector().pending(),
            value is Some ==> final(self).vector().entries() == old(self).vector().entries().insert(
                (old(self).range.start + n) as u32,
                Cached { value: Some(*final(value.unwrap())), dirty: true },
            ),
            value is Some ==> final(self).vector().pending() == old(self).vector().pending()
                - old(self).vector().pending_at((old(self).range.start + n) as u32) + 1,
            value is Some <==> nth_index(old(self).range, n) is Some,
            value is None ==> final(self).elements() == old(self).elements(),
            value is Some ==> *value.unwrap() == old(self).elements()[old(self).range.start + n],
            value is Some ==> final(self).elements() == old(self).elements().update(
                old(self).range.start + n,
                *final(value.unwrap()),
            ),
    {
        match take_nth(&mut self.range, n) {
            Some(index) => self.vec.get_mut(self.store, index),
            None => None,
        }
    }

    /// The next element from the back.
    pub fn next_back(&mut self) -> (value: Option<&mut T>)
        requires
            old(self).wf(),
        ensures
            final(self).wf(),
            final(self).store == old(self).store,
            *final(final(self).vec) == *final(old(self).vec),
            final(self).range == after_nth_back(old(self).range, 0),
            final(self).vector().len() == old(self).vector().len(),
            final(self).vector().cache().prefix() == old(self).vector().cache().prefix(),
            value is None ==> final(self).vector().entries() == old(self).vector().entries(),
            value is None ==> final(self).vector().pending() == old(self).vector().pending(),
            value is Some ==> final(self).vector().entries() == old(self).vector().entries().insert(
                (old(self).range.end - 1) as u32,
                Cached { value: Some(*final(value.unwrap())), dirty: true },
            ),
            value is Some ==> final(self).vector().pending() == old(self).vector().pending()
                - old(self).vector().pending_at((old(self).range.end - 1) as u32) + 1,
            value is Some <==> nth_back_index(old(self).range, 0) is Some,
            value is None ==> final(self).elements() == old(self).elements(),
            value is Some ==> *value.unwrap() == old(self).elements()[old(self).range.end - 1],
            value is Some ==> final(self).elements() == old(self).elements().update(
                old(self).range.end - 1,
                *final(value.unwrap()),
            ),
    {
        self.nth_back(0)
    }

    /// The element `n` places from the back; it and those behind it
    /// leave the range. If fewer than `n + 1` elements are left, the
    /// range is emptied and `None` is returned.
    pub fn nth_back(&mut self, n: usize) -> (value: Option<&mut T>)
        requires
            old(self).wf(),
        ensures
            final(self).wf(),
            final(self).store == old(self).store,
            *final(final(self).vec) == *final(old(self).vec),
            final(self).range == after_nth_back(old(self).range, n),
            final(self).vector().len() == old(self).vector().len(),
            final(self).vector().cache().prefix() == old(self).vector().cache().prefix(),
            value is None ==> final(self).vector().entries() == old(self).vector().entries(),
            value is None ==> final(self).vector().pending() == old(self).vector().pending(),
            value is Some ==> final(self).vector().entries() == old(self).vector().entries().insert(
                (old(self).range.end - 1 - n) as u32,
                Cached { value: Some(*final(value.unwrap())), dirty: true },
            ),
            value is Some ==> final(self).vector().pending() == old(self).vector().pending()
                - old(self).vector().pending_at((old(self).range.end - 1 - n) as u32) + 1,
            value is Some <==> nth_back_index(old(self).range, n) is Some,
            value is None ==> final(self).elements() == old(self).elements(),
            value is Some ==> *value.unwrap() == old(self).elements()[old(self).range.end - 1 - n],
            value is Some ==> final(self).elements() == old(self).elements().update(
                old(self).range.end - 1 - n,
                *final(value.unwrap()),
            ),
    {
        match take_nth_back(&mut self.range, n) {
            Some(index) => self.vec.get_mut(self.store, index),
            None => None,
        }
    }
}

} // verus!
