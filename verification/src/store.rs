//! The underlying key-value store: byte keys, byte values, and a journal
//! of every write.

use vstd::prelude::*;
use vstd::slice::slice_to_vec;

verus! {

/// What a store holds: a finite map from keys to values.
pub type Contents = Map<Seq<u8>, Seq<u8>>;

/// One write operation, as a mathematical value.
pub enum Change {
    /// A value was stored under a key.
    Put(Seq<u8>, Seq<u8>),
    /// A key was deleted.
    Remove(Seq<u8>),
}

/// What `contents` become when `change` is made.
pub open spec fn changed(contents: Contents, change: Change) -> Contents {
    match change {
        Change::Put(key, value) => contents.insert(key, value),
        Change::Remove(key) => contents.remove(key),
    }
}

/// What `contents` become when all of `changes` are made, in order.
pub open spec fn changed_by(contents: Contents, changes: Seq<Change>) -> Contents
    decreases changes.len(),
{
    if changes.len() == 0 {
        contents
    } else {
        changed(changed_by(contents, changes.drop_last()), changes.last())
    }
}

/// One write operation.
#[derive(Debug, PartialEq, Eq)]
pub enum Write {
    /// Store the value (second) under the key (first).
    Put(Vec<u8>, Vec<u8>),
    /// Delete the key.
    Remove(Vec<u8>),
}

impl View for Write {
    type V = Change;

    open spec fn view(&self) -> Change {
        match *self {
            Write::Put(key, value) => Change::Put(key@, value@),
            Write::Remove(key) => Change::Remove(key@),
        }
    }
}

/// Whether two byte strings are equal.
pub fn same_bytes(a: &[u8], b: &[u8]) -> (same: bool)
    ensures
        same == (a@ == b@),
{
    if a.len() != b.len() {
        return false;
    }
    let mut i: usize = 0;
    while i < a.len()
        invariant
            i <= a.len(),
            a.len() == b.len(),
            a@.subrange(0, i as int) == b@.subrange(0, i as int),
        decreases a.len() - i,
    {
        if a[i] != b[i] {
            return false;
        }
        i += 1;
    }
    assert(a@ =~= a@.subrange(0, i as int));
    assert(b@ =~= b@.subrange(0, i as int));
    true
}

/// One key with its value.
#[derive(Debug)]
struct Record {
    key: Vec<u8>,
    value: Vec<u8>,
}

/// A key-value store kept in memory. Every `set` and `remove` is entered
/// in a journal, so that a caller can tell which write operations a piece
/// of code has issued, and can carry them over to the store that the
/// contents came from.
#[derive(Debug)]
pub struct Store {
    records: Vec<Record>,
    journal: Vec<Write>,
}

impl View for Store {
    type V = Contents;

    closed spec fn view(&self) -> Contents {
        Map::new(
            |key: Seq<u8>| exists|p: int| self.holds(key, p),
            |key: Seq<u8>| self.records[choose|p: int| self.holds(key, p)].value@,
        )
    }
}

impl Store {
    /// Record `p` exists and carries `key`.
    spec fn holds(&self, key: Seq<u8>, p: int) -> bool {
        0 <= p < self.records.len() && self.records[p].key@ == key
    }

    /// No key is recorded twice.
    pub closed spec fn wf(&self) -> bool {
        forall|p: int, q: int|
            0 <= p < q < self.records.len() ==> self.records[p].key@ != self.records[q].key@
    }

    /// The write operations (`set` and `remove`) issued since the journal
    /// was last taken, oldest first.
    pub closed spec fn log(&self) -> Seq<Change> {
        Seq::new(self.journal@.len(), |i: int| self.journal@[i]@)
    }

    proof fn lemma_present(&self, p: int)
        requires
            self.wf(),
            0 <= p < self.records.len(),
        ensures
            self@.contains_key(self.records[p].key@),
            self@[self.records[p].key@] == self.records[p].value@,
    {
        let key = self.records[p].key@;
        assert(self.holds(key, p));
        let q = choose|q: int| self.holds(key, q);
        assert(q == p);
    }

    proof fn lemma_absent(&self, key: Seq<u8>)
        requires
            forall|p: int| 0 <= p < self.records.len() ==> self.records[p].key@ != key,
        ensures
            !self@.contains_key(key),
    {
    }

    /// An empty store on which nothing has been written.
    pub fn new() -> (store: Store)
        ensures
            store.wf(),
            store@ == Contents::empty(),
            store.log() == Seq::<Change>::empty(),
    {
        let store = Store { records: Vec::new(), journal: Vec::new() };
        assert(store@ =~= Contents::empty());
        store
    }

    fn position(&self, key: &[u8]) -> (found: Option<usize>)
        requires
            self.wf(),
        ensures
            found is Some ==> self.holds(key@, found.unwrap() as int),
            found is None ==> forall|p: int|
                0 <= p < self.records.len() ==> self.records[p].key@ != key@,
            found is Some <==> self@.contains_key(key@),
    {
        let mut p: usize = 0;
        while p < self.records.len()
            invariant
                p <= self.records.len(),
                self.wf(),
                forall|q: int| 0 <= q < p ==> self.records[q].key@ != key@,
            decreases self.records.len() - p,
        {
            if same_bytes(self.records[p].key.as_slice(), key) {
                proof {
                    self.lemma_present(p as int);
                }
                return Some(p);
            }
            p += 1;
        }
        proof {
            self.lemma_absent(key@);
        }
        None
    }

    /// The number of write operations in the journal.
    pub fn write_count(&self) -> (count: usize)
        ensures
            count == self.log().len(),
    {
        self.journal.len()
    }

    /// The write operations issued since the journal was last taken,
    /// oldest first.
    pub fn journal(&self) -> (journal: &[Write])
        ensures
            journal@.len() == self.log().len(),
            forall|i: int| 0 <= i < journal@.len() ==> (#[trigger] journal@[i])@ == self.log()[i],
    {
        self.journal.as_slice()
    }

    /// Hands the journal out and starts a new one. The contents stay.
    pub fn take_journal(&mut self) -> (journal: Vec<Write>)
        requires
            old(self).wf(),
        ensures
            final(self).wf(),
            final(self)@ == old(self)@,
            final(self).log() == Seq::<Change>::empty(),
            journal@.len() == old(self).log().len(),
            forall|i: int|
                0 <= i < journal@.len() ==> (#[trigger] journal@[i])@ == old(self).log()[i],
    {
        let mut journal: Vec<Write> = Vec::new();
        std::mem::swap(&mut self.journal, &mut journal);
        proof {
            self.lemma_same_records(old(self));
        }
        journal
    }

    /// Whether a value is stored under `key`.
    pub fn contains_key(&self, key: &[u8]) -> (present: bool)
        requires
            self.wf(),
        ensures
            present == self@.contains_key(key@),
    {
        self.position(key).is_some()
    }

    /// The value stored under `key`, if there is one.
    pub fn get(&self, key: &[u8]) -> (value: Option<&[u8]>)
        requires
            self.wf(),
        ensures
            value is Some <==> self@.contains_key(key@),
            value is Some ==> value.unwrap()@ == self@[key@],
    {
        match self.position(key) {
            Some(p) => {
                proof {
                    self.lemma_present(p as int);
                }
                Some(self.records[p].value.as_slice())
            },
            None => None,
        }
    }

    proof fn lemma_same_records(&self, other: &Store)
        requires
            other.wf(),
            self.records == other.records,
        ensures
            self.wf(),
            self@ == other@,
    {
        assert(forall|key: Seq<u8>, p: int| self.holds(key, p) == other.holds(key, p));
        assert forall|key: Seq<u8>| #[trigger] self@.contains_key(key) implies self@[key]
            == other@[key] by {
            let p = choose|p: int| self.holds(key, p);
            self.lemma_present(p);
            other.lemma_present(p);
        }
    }

    fn record(&mut self, write: Write)
        requires
            old(self).wf(),
        ensures
            final(self).wf(),
            final(self).records == old(self).records,
            final(self)@ == old(self)@,
            final(self).log() == old(self).log().push(write@),
    {
        self.journal.push(write);
        proof {
            self.lemma_same_records(old(self));
        }
    }

    /// Stores `value` under `key`, replacing what was there.
    pub fn set(&mut self, key: &[u8], value: Vec<u8>)
        requires
            old(self).wf(),
        ensures
            final(self).wf(),
            final(self)@ == changed(old(self)@, Change::Put(key@, value@)),
            final(self).log() == old(self).log().push(Change::Put(key@, value@)),
    {
        self.record(Write::Put(slice_to_vec(key), slice_to_vec(value.as_slice())));
        self.stage(key, value);
    }

    /// Puts `value` under `key` without entering a write in the journal.
    /// This is for bringing in what the store behind this one already
    /// holds.
    pub fn stage(&mut self, key: &[u8], value: Vec<u8>)
        requires
            old(self).wf(),
        ensures
            final(self).wf(),
            final(self)@ == old(self)@.insert(key@, value@),
            final(self).log() == old(self).log(),
    {
        let found = self.position(key);
        let ghost before = *self;
        match found {
            Some(p) => {
                let record = &mut self.records[p];
                record.value = value;
                proof {
                    assert forall|k: Seq<u8>| #[trigger]
                        self@.contains_key(k) == before@.insert(key@, value@).contains_key(
                            k,
                        ) by {
                        if exists|q: int| self.holds(k, q) {
                            let q = choose|q: int| self.holds(k, q);
                            assert(before.holds(k, q));
                        }
                        if exists|q: int| before.holds(k, q) {
                            let q = choose|q: int| before.holds(k, q);
                            assert(self.holds(k, q));
                        }
                    }
                    assert forall|k: Seq<u8>| #[trigger] self@.contains_key(k) implies self@[k]
                        == before@.insert(key@, value@)[k] by {
                        let q = choose|q: int| self.holds(k, q);
                        self.lemma_present(q);
                        if k != key@ {
                            before.lemma_present(q);
                        }
                    }
                    assert(self@ =~= before@.insert(key@, value@));
                }
            },
            None => {
                self.records.push(Record { key: slice_to_vec(key), value });
                proof {
                    let last = self.records.len() - 1;
                    assert(self.holds(key@, last));
                    assert forall|k: Seq<u8>| #[trigger]
                        self@.contains_key(k) == before@.insert(key@, value@).contains_key(
                            k,
                        ) by {
                        if exists|q: int| self.holds(k, q) {
                            let q = choose|q: int| self.holds(k, q);
                            if q < last {
                                assert(before.holds(k, q));
                            }
                        }
                        if exists|q: int| before.holds(k, q) {
                            let q = choose|q: int| before.holds(k, q);
                            assert(self.holds(k, q));
                        }
                    }
                    assert forall|k: Seq<u8>| #[trigger] self@.contains_key(k) implies self@[k]
                        == before@.insert(key@, value@)[k] by {
                        let q = choose|q: int| self.holds(k, q);
                        self.lemma_present(q);
                        if k != key@ {
                            before.lemma_present(q);
                        }
                    }
                    assert(self@ =~= before@.insert(key@, value@));
                }
            },
        }
    }

    /// Removes `key` and its value. Removing a key that is not stored
    /// leaves the contents as they are; the operation is entered in the
    /// journal all the same.
    pub fn remove(&mut self, key: &[u8])
        requires
            old(self).wf(),
        ensures
            final(self).wf(),
            final(self)@ == changed(old(self)@, Change::Remove(key@)),
            final(self).log() == old(self).log().push(Change::Remove(key@)),
    {
        let found = self.position(key);
        self.record(Write::Remove(slice_to_vec(key)));
        let ghost before = *self;
        match found {
            Some(p) => {
                self.records.swap_remove(p);
                proof {
                    let last = before.records.len() - 1;
                    assert forall|q: int| 0 <= q < self.records.len() implies self.records[q]
                        == before.records[if q == p { last } else { q }] by {}
                    assert forall|k: Seq<u8>| #[trigger]
                        self@.contains_key(k) == before@.remove(key@).contains_key(k) by {
                        if exists|q: int| self.holds(k, q) {
                            let q = choose|q: int| self.holds(k, q);
                            assert(before.holds(k, if q == p { last } else { q }));
                        }
                        if k != key@ && exists|q: int| before.holds(k, q) {
                            let q = choose|q: int| before.holds(k, q);
                            assert(self.holds(k, if q == last { p as int } else { q }));
                        }
                    }
                    assert forall|k: Seq<u8>| #[trigger] self@.contains_key(k) implies self@[k]
                        == before@.remove(key@)[k] by {
                        let q = choose|q: int| self.holds(k, q);
                        self.lemma_present(q);
                        before.lemma_present(if q == p { last } else { q });
                    }
                    assert(self@ =~= before@.remove(key@));
                }
            },
            None => {},
        }
    }
}

} // verus!
