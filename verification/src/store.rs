//! The writer's store: primary records and secondary indices under a size
//! bound, changed only by committing a batch as one transaction.

use vstd::prelude::*;
use crate::content::{
    batch_need, has_id, key_precedes, lemma_apply_ids, lemma_need_monotonic, lemma_put_total, lemma_put_valid,
    lemma_remove_valid, lemma_reopen_restores, lemma_slot_is, lemma_total_remove, position, precedes, spec_apply, spec_delete, spec_put,
    total_bytes, valid,
};
use crate::event::{ErrorKind, Id};
use crate::index::{AuthorKey, KindKey, Record, TagKey};
use crate::secondary::{
    author_index_of, index_author, index_kind, kind_index_of, lemma_author_key_has_record, lemma_kind_key_has_record,
    unindex_author, unindex_kind,
};
use crate::tag_index::{
    has_tag, index_tags, lemma_tag_key_has_record, tag_index_of, tag_view, unindex_tags,
};

verus! {

/// What the durable layer answered when asked to persist a batch.
#[derive(Clone, Copy, Debug, PartialEq, Eq, Structural)]
pub enum Durable {
    /// The batch is on disk.
    Committed,
    /// The durable map is at its size bound.
    MapFull,
    /// The durable layer failed for another reason.
    Fault,
}

/// The result that `commit` owes for a store, a batch and the durable
/// layer's answer.
pub open spec fn commit_outcome(used: nat, bound: nat, need: nat, durable: Durable) -> Result<(), ErrorKind> {
    if used + need > bound {
        Err(ErrorKind::StoreFull)
    } else {
        match durable {
            Durable::Committed => Ok(()),
            Durable::MapFull => Err(ErrorKind::StoreFull),
            Durable::Fault => Err(ErrorKind::WriteFailed),
        }
    }
}

/// The primary records in by-time order, with the by-author, by-kind and
/// by-tag indices over them, under a size bound in bytes.
#[derive(Debug)]
pub struct Store {
    records: Vec<Record>,
    by_author: Vec<AuthorKey>,
    by_kind: Vec<KindKey>,
    by_tag: Vec<TagKey>,
    used: u64,
    bound: u64,
}

impl View for Store {
    type V = Seq<Record>;

    closed spec fn view(&self) -> Seq<Record> {
        self.records@
    }
}

impl Store {
    /// Bytes of encoded records held.
    pub closed spec fn spec_used(&self) -> nat {
        self.used as nat
    }

    /// The size bound, in bytes.
    pub closed spec fn spec_bound(&self) -> nat {
        self.bound as nat
    }

    /// The store's invariant: valid content, indices that belong to it,
    /// and bytes that are accounted for and within the bound.
    pub closed spec fn wf(&self) -> bool {
        &&& valid(self.records@)
        &&& author_index_of(self.records@, self.by_author@)
        &&& kind_index_of(self.records@, self.by_kind@)
        &&& tag_index_of(self.records@, self.by_tag@)
        &&& self.used == total_bytes(self.records@)
        &&& self.used <= self.bound
    }

    /// The by-author index.
    pub closed spec fn spec_by_author(&self) -> Seq<AuthorKey> {
        self.by_author@
    }

    /// The by-kind index.
    pub closed spec fn spec_by_kind(&self) -> Seq<KindKey> {
        self.by_kind@
    }

    /// The by-tag index.
    pub closed spec fn spec_by_tag(&self) -> Seq<TagKey> {
        self.by_tag@
    }

    /// In every state of the store, the content is valid, the bytes held
    /// are the sum of the records' encoded lengths and within the bound,
    /// and every secondary index holds the keys of exactly the records
    /// stored: a record is in all of its indices, and no index holds a
    /// key without its record.
    pub proof fn lemma_wf_valid(&self)
        requires
            self.wf(),
        ensures
            valid(self@),
            author_index_of(self@, self.spec_by_author()),
            kind_index_of(self@, self.spec_by_kind()),
            tag_index_of(self@, self.spec_by_tag()),
            self.spec_used() == total_bytes(self@),
            self.spec_used() <= self.spec_bound(),
    {
    }

    /// What a store holds can be read again: handed to a later opening
    /// under the same bound, the records fit, and the store that opens
    /// holds them as they stood.
    pub proof fn lemma_reopens(&self)
        requires
            self.wf(),
        ensures
            spec_apply(Seq::<Record>::empty(), self@, self@.len() as int) == self@,
            total_bytes(spec_apply(Seq::<Record>::empty(), self@, self@.len() as int)) <= self.spec_bound(),
            forall|i: int| 0 <= i < self@.len() ==> (#[trigger] self@[i]).wf(),
    {
        lemma_reopen_restores(self@);
    }

    /// A stored record has its key in every secondary index: a reader
    /// that sees the record sees all of its index entries.
    pub proof fn lemma_record_is_indexed(&self, i: int)
        requires
            self.wf(),
            0 <= i < self@.len(),
        ensures
            self.spec_by_author().contains(self@[i].keys.by_author),
            self.spec_by_kind().contains(self@[i].keys.by_kind),
            forall|j: int|
                0 <= j < self@[i].keys.by_tag@.len() ==> has_tag(
                    self.spec_by_tag(),
                    tag_view(#[trigger] self@[i].keys.by_tag@[j]),
                ),
    {
        reveal(author_index_of);
        reveal(kind_index_of);
        reveal(tag_index_of);
    }

    /// Every entry of a secondary index ends in the identifier of a
    /// stored record: a reader never sees an index entry without its
    /// record.
    pub proof fn lemma_entry_has_record(&self, a: int, k: int, g: int)
        requires
            self.wf(),
        ensures
            0 <= a < self.spec_by_author().len() ==> has_id(self@, self.spec_by_author()[a].id),
            0 <= k < self.spec_by_kind().len() ==> has_id(self@, self.spec_by_kind()[k].id),
            0 <= g < self.spec_by_tag().len() ==> has_id(self@, self.spec_by_tag()[g].id),
    {
        reveal(author_index_of);
        reveal(kind_index_of);
        reveal(tag_index_of);
        if 0 <= a < self.spec_by_author().len() {
            lemma_author_key_has_record(self@, self.spec_by_author()[a]);
        }
        if 0 <= k < self.spec_by_kind().len() {
            lemma_kind_key_has_record(self@, self.spec_by_kind()[k]);
        }
        if 0 <= g < self.spec_by_tag().len() {
            lemma_tag_key_has_record(self@, tag_view(self.spec_by_tag()[g]));
        }
    }

    /// The by-author index, in index order.
    pub fn author_index(&self) -> (idx: &Vec<AuthorKey>)
        ensures
            idx@ == self.spec_by_author(),
    {
        &self.by_author
    }

    /// The by-kind index, in index order.
    pub fn kind_index(&self) -> (idx: &Vec<KindKey>)
        ensures
            idx@ == self.spec_by_kind(),
    {
        &self.by_kind
    }

    /// The by-tag index.
    pub fn tag_index(&self) -> (idx: &Vec<TagKey>)
        ensures
            idx@ == self.spec_by_tag(),
    {
        &self.by_tag
    }

    /// An empty store with the given size bound.
    pub fn new(bound: u64) -> (s: Store)
        ensures
            s.wf(),
            s@ == Seq::<Record>::empty(),
            s.spec_used() == 0,
            s.spec_bound() == bound,
            s.spec_by_author() == Seq::<AuthorKey>::empty(),
            s.spec_by_kind() == Seq::<KindKey>::empty(),
            s.spec_by_tag() == Seq::<TagKey>::empty(),
    {
        proof {
            reveal(author_index_of);
            reveal(kind_index_of);
            reveal(tag_index_of);
        }
        Store {
            records: Vec::new(),
            by_author: Vec::new(),
            by_kind: Vec::new(),
            by_tag: Vec::new(),
            used: 0,
            bound,
        }
    }

    /// The number of records held.
    pub fn len(&self) -> (n: usize)
        ensures
            n == self@.len(),
    {
        self.records.len()
    }

    /// Bytes of encoded records held.
    pub fn used_bytes(&self) -> (n: u64)
        ensures
            n == self.spec_used(),
    {
        self.used
    }

    /// The size bound, in bytes.
    pub fn bound_bytes(&self) -> (n: u64)
        ensures
            n == self.spec_bound(),
    {
        self.bound
    }

    /// The records in store order.
    pub fn records(&self) -> (r: &Vec<Record>)
        ensures
            r@ == self@,
    {
        &self.records
    }

    /// The place of the record with this identifier, if it is stored.
    pub fn find(&self, id: &Id) -> (at: Option<usize>)
        requires
            self.wf(),
        ensures
            at is Some <==> has_id(self@, *id),
            at is Some ==> at->0 == position(self@, *id),
    {
        let mut i: usize = 0;
        while i < self.records.len()
            invariant
                0 <= i <= self.records@.len(),
                valid(self.records@),
                forall|j: int| 0 <= j < i ==> (#[trigger] self.records@[j]).id != *id,
            decreases self.records@.len() - i,
        {
            if self.records[i].id.same(id) {
                proof {
                    let p = position(self.records@, *id);
                    assert(self.records@[i as int].id == *id);
                    assert(0 <= p < self.records@.len() && self.records@[p].id == *id);
                    if p != i as int {
                        let _ = self.records@[p];
                    }
                }
                return Some(i);
            }
            i = i + 1;
        }
        None
    }

    /// Whether a record with this identifier is stored.
    pub fn contains(&self, id: &Id) -> (r: bool)
        requires
            self.wf(),
        ensures
            r == has_id(self@, *id),
    {
        self.find(id).is_some()
    }

    /// The encoded bytes stored under this identifier.
    pub fn get(&self, id: &Id) -> (bytes: Option<&Vec<u8>>)
        requires
            self.wf(),
        ensures
            bytes is Some <==> has_id(self@, *id),
            bytes is Some ==> *bytes->0 == self@[position(self@, *id)].bytes,
    {
        match self.find(id) {
            Some(i) => Some(&self.records[i].bytes),
            None => None,
        }
    }

    fn insert_new(&mut self, r: Record)
        requires
            old(self).wf(),
            r.wf(),
            !has_id(old(self)@, r.id),
            old(self).spec_used() + r.bytes@.len() <= old(self).spec_bound(),
        ensures
            final(self).wf(),
            final(self)@ == spec_put(old(self)@, r),
            final(self).spec_used() == old(self).spec_used() + r.bytes@.len(),
            final(self).spec_bound() == old(self).spec_bound(),
    {
        let mut k: usize = 0;
        while k < self.records.len() && key_precedes(&self.records[k].keys.by_time, &r.keys.by_time)
            invariant
                0 <= k <= self.records@.len(),
                *self == *old(self),
                forall|j: int| 0 <= j < k ==> precedes((#[trigger] self.records@[j]).keys.by_time, r.keys.by_time),
            decreases self.records@.len() - k,
        {
            k = k + 1;
        }
        let ghost s = self.records@;
        proof {
            assert forall|j: int| k <= j < s.len() implies !precedes((#[trigger] s[j]).keys.by_time, r.keys.by_time) by {
                let _ = s[k as int];
            }
            lemma_slot_is(s, r.keys.by_time, k as int);
        }
        let size: u64 = r.bytes.len() as u64;
        index_author(&mut self.by_author, r.keys.by_author, Ghost(s), Ghost(r), Ghost(k as int));
        index_kind(&mut self.by_kind, r.keys.by_kind, Ghost(s), Ghost(r), Ghost(k as int));
        index_tags(&mut self.by_tag, &r, Ghost(s), Ghost(k as int));
        self.records.insert(k, r);
        self.used = self.used + size;
        proof {
            lemma_put_valid(s, r);
            lemma_put_total(s, r);
        }
    }

    /// Whether an earlier record of the batch has the identifier of
    /// record `j`.
    fn seen_earlier(batch: &Vec<Record>, j: usize) -> (r: bool)
        requires
            j < batch@.len(),
        ensures
            r == !(forall|i: int| 0 <= i < j ==> (#[trigger] batch@[i]).id != batch@[j as int].id),
    {
        let mut i: usize = 0;
        while i < j
            invariant
                0 <= i <= j < batch@.len(),
                forall|h: int| 0 <= h < i ==> (#[trigger] batch@[h]).id != batch@[j as int].id,
            decreases j - i,
        {
            if batch[i].id.same(&batch[j].id) {
                return true;
            }
            i = i + 1;
        }
        false
    }

    /// Whether the batch fits under the size bound: whether the bytes held
    /// and the bytes that the batch's new records add stay within it.
    /// Nothing is written.
    pub fn fits(&self, batch: &Vec<Record>) -> (ok: bool)
        requires
            self.wf(),
        ensures
            ok == (self.spec_used() + batch_need(self@, batch@, batch@.len() as int) <= self.spec_bound()),
    {
        let n: usize = batch.len();
        let room: u64 = self.bound - self.used;
        let mut need: u64 = 0;
        let mut j: usize = 0;
        while j < n
            invariant
                0 <= j <= n == batch@.len(),
                self.wf(),
                room == self.bound - self.used,
                need == batch_need(self@, batch@, j as int),
                need <= room,
            decreases n - j,
        {
            if !self.contains(&batch[j].id) && !Self::seen_earlier(batch, j) {
                let size: u64 = batch[j].bytes.len() as u64;
                if size > room - need {
                    proof {
                        lemma_need_monotonic(self@, batch@, j + 1, n as int);
                    }
                    return false;
                }
                need = need + size;
            }
            j = j + 1;
        }
        true
    }

    /// Gives up the store for its records, in by-time order: what a later
    /// opening is handed.
    pub fn into_records(self) -> (records: Vec<Record>)
        ensures
            records@ == self@,
    {
        self.records
    }

    /// Writes a batch as one transaction. Records whose identifier is
    /// already stored, or came earlier in the batch, are skipped. Either
    /// every other record is placed, or the store is left as it was.
    pub fn commit(&mut self, batch: Vec<Record>, durable: Durable) -> (res: Result<(), ErrorKind>)
        requires
            old(self).wf(),
            forall|i: int| 0 <= i < batch@.len() ==> (#[trigger] batch@[i]).wf(),
        ensures
            final(self).wf(),
            final(self).spec_bound() == old(self).spec_bound(),
            res == commit_outcome(
                old(self).spec_used(),
                old(self).spec_bound(),
                batch_need(old(self)@, batch@, batch@.len() as int),
                durable,
            ),
            res is Ok ==> final(self)@ == spec_apply(old(self)@, batch@, batch@.len() as int),
            res is Ok ==> final(self).spec_used() == old(self).spec_used() + batch_need(
                old(self)@,
                batch@,
                batch@.len() as int,
            ),
            res is Err ==> *final(self) == *old(self),
    {
        let n: usize = batch.len();
        if !self.fits(&batch) {
            return Err(ErrorKind::StoreFull);
        }
        match durable {
            Durable::Committed => {},
            Durable::MapFull => {
                return Err(ErrorKind::StoreFull);
            },
            Durable::Fault => {
                return Err(ErrorKind::WriteFailed);
            },
        }
        let ghost all = batch@;
        let ghost before = self@;
        let ghost used = self.spec_used();
        let mut batch = batch;
        let mut j: usize = 0;
        while j < n
            invariant
                0 <= j <= n == all.len(),
                self.wf(),
                valid(before),
                forall|i: int| 0 <= i < all.len() ==> (#[trigger] all[i]).wf(),
                batch@ == all.subrange(j as int, n as int),
                self@ == spec_apply(before, all, j as int),
                self.spec_used() == used + batch_need(before, all, j as int),
                self.spec_bound() == old(self).spec_bound(),
                used + batch_need(before, all, n as int) <= self.spec_bound(),
            decreases n - j,
        {
            let r = batch.remove(0);
            assert(r == all[j as int]);
            proof {
                lemma_apply_ids(before, all, j as int, r.id);
                lemma_need_monotonic(before, all, j + 1, n as int);
                assert(batch@ == all.subrange(j + 1, n as int));
            }
            if !self.contains(&r.id) {
                self.insert_new(r);
            }
            j = j + 1;
        }
        Ok(())
    }

    /// Deletes the record with this identifier, with every one of its
    /// index entries, as one transaction. Where no record has the
    /// identifier nothing is written and the answer is `Ok(false)`; where
    /// the durable layer fails the store is left as it was.
    pub fn delete(&mut self, id: &Id, durable: Durable) -> (res: Result<bool, ErrorKind>)
        requires
            old(self).wf(),
        ensures
            final(self).wf(),
            final(self).spec_bound() == old(self).spec_bound(),
            !has_id(old(self)@, *id) ==> res == Ok::<bool, ErrorKind>(false),
            has_id(old(self)@, *id) ==> res == (match durable {
                Durable::Committed => Ok::<bool, ErrorKind>(true),
                Durable::MapFull => Err::<bool, ErrorKind>(ErrorKind::StoreFull),
                Durable::Fault => Err::<bool, ErrorKind>(ErrorKind::WriteFailed),
            }),
            res == Ok::<bool, ErrorKind>(true) ==> final(self)@ == spec_delete(old(self)@, *id),
            res == Ok::<bool, ErrorKind>(true) ==> final(self).spec_used() + old(self)@[position(
                old(self)@,
                *id,
            )].bytes@.len() == old(self).spec_used(),
            res != Ok::<bool, ErrorKind>(true) ==> *final(self) == *old(self),
    {
        let p = match self.find(id) {
            Some(p) => p,
            None => {
                return Ok(false);
            },
        };
        match durable {
            Durable::Committed => {},
            Durable::MapFull => {
                return Err(ErrorKind::StoreFull);
            },
            Durable::Fault => {
                return Err(ErrorKind::WriteFailed);
            },
        }
        let ghost s = self.records@;
        proof {
            lemma_remove_valid(s, p as int);
            lemma_total_remove(s, p as int);
        }
        unindex_author(&mut self.by_author, self.records[p].keys.by_author, Ghost(s), Ghost(p as int));
        unindex_kind(&mut self.by_kind, self.records[p].keys.by_kind, Ghost(s), Ghost(p as int));
        unindex_tags(&mut self.by_tag, id, Ghost(s), Ghost(p as int));
        let gone = self.records.remove(p);
        self.used = self.used - gone.bytes.len() as u64;
        Ok(true)
    }
}

} // verus!
