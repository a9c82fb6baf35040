//! The engine handle: opening, submitting, handing records to the writer,
//! flushing, querying and closing.

use vstd::prelude::*;
use vstd::string::StringSliceAdditionalSpecFns;
use crate::config::{ConfigValues, NdbConfig};
use crate::event::{ErrorKind, Id};
use crate::index::Record;
use crate::ingest::{steps, Counters, IngressQueue, Progress, Reply, Task};
use crate::filter::Filter;
use crate::query::{query, spec_query};
use crate::content::{batch_need, has_id, lemma_apply_total, position, spec_apply, spec_delete, total_bytes};
use crate::store::{commit_outcome, Durable, Store};

verus! {

/// Tasks that the ingress queue of an engine holds at most.
pub const INGRESS_CAPACITY: usize = 4096;

/// Whether a directory name can be handed to the durable layer: it holds
/// no zero byte.
pub open spec fn path_ok(bytes: Seq<u8>) -> bool {
    forall|i: int| 0 <= i < bytes.len() ==> bytes[i] != 0u8
}

/// Whether an engine opens on this directory name with these settings.
pub open spec fn opens(db_dir: &str, values: ConfigValues) -> bool {
    path_ok(db_dir.spec_bytes()) && values.ingester_threads >= 0
}

/// Whether the directory name holds no zero byte.
pub fn check_path(db_dir: &str) -> (ok: bool)
    ensures
        ok == path_ok(db_dir.spec_bytes()),
{
    let bytes = db_dir.as_bytes();
    let mut i: usize = 0;
    while i < bytes.len()
        invariant
            0 <= i <= bytes@.len(),
            bytes@ == db_dir.spec_bytes(),
            forall|j: int| 0 <= j < i ==> bytes@[j] != 0u8,
        decreases bytes@.len() - i,
    {
        if bytes[i] == 0 {
            return false;
        }
        i = i + 1;
    }
    true
}

/// What is left of an engine that was closed.
#[derive(Debug)]
pub struct Closed {
    /// The store as the last transaction left it.
    pub store: Store,
    /// The tasks that were queued and not yet taken, oldest first.
    pub unsettled: Vec<Task>,
    /// The result of the last transaction.
    pub last: Result<(), ErrorKind>,
}

/// An open engine: its settings, its ingress queue and its store.
#[derive(Debug)]
pub struct Ndb {
    /// The settings the engine was opened with.
    pub config: ConfigValues,
    /// Payloads waiting for a worker.
    pub queue: IngressQueue,
    /// Validated records handed to the writer and not yet committed.
    pub pending: Vec<Record>,
    /// How many tasks ended in each way.
    pub counters: Counters,
    /// The records written so far.
    pub store: Store,
}

impl Ndb {
    /// The settings the engine was opened with.
    pub open spec fn spec_config(&self) -> ConfigValues {
        self.config
    }

    /// The engine's invariant: those of its queue and of its store, and
    /// consistent keys on every pending record.
    pub open spec fn wf(&self) -> bool {
        &&& self.queue.wf()
        &&& self.store.wf()
        &&& forall|i: int| 0 <= i < self.pending@.len() ==> (#[trigger] self.pending@[i]).wf()
    }

    /// Opens an engine on what the durable layer holds under `db_dir`:
    /// `opened` is the records it read there, or `None` where it could not
    /// be opened. The engine starts with an empty queue and a store that
    /// holds those records, bounded by the configured map size. Fails with
    /// `OpenFailed` exactly when the durable layer could not be opened, the
    /// directory name holds a zero byte, the worker thread count is
    /// negative, or the records do not fit under the bound.
    pub fn new(db_dir: &str, config: &NdbConfig, opened: Option<Vec<Record>>) -> (res: Result<Ndb, ErrorKind>)
        requires
            opened is Some ==> forall|i: int| 0 <= i < opened->0@.len() ==> (#[trigger] opened->0@[i]).wf(),
        ensures
            res is Ok <==> opens(db_dir, config.config) && opened is Some && total_bytes(
                spec_apply(Seq::<Record>::empty(), opened->0@, opened->0@.len() as int),
            ) <= config.config.mapsize,
            res is Err ==> res->Err_0 == ErrorKind::OpenFailed,
            res is Ok ==> {
                &&& res->Ok_0.wf()
                &&& res->Ok_0.spec_config() == config.config
                &&& res->Ok_0.queue@ == Seq::<Task>::empty()
                &&& res->Ok_0.queue.spec_capacity() == INGRESS_CAPACITY
                &&& res->Ok_0.pending@ == Seq::<Record>::empty()
                &&& res->Ok_0.counters == (Counters {
                    parse_failed: 0,
                    invalid_id: 0,
                    invalid_signature: 0,
                    rejected_by_filter: 0,
                    accepted: 0,
                })
                &&& res->Ok_0.store@ == spec_apply(Seq::<Record>::empty(), opened->0@, opened->0@.len() as int)
                &&& res->Ok_0.store.spec_used() == total_bytes(res->Ok_0.store@)
                &&& res->Ok_0.store.spec_bound() == config.config.mapsize
            },
    {
        let records = match opened {
            Some(records) => records,
            None => {
                return Err(ErrorKind::OpenFailed);
            },
        };
        if !check_path(db_dir) {
            return Err(ErrorKind::OpenFailed);
        }
        let values = *config.as_ptr();
        if values.ingester_threads < 0 {
            return Err(ErrorKind::OpenFailed);
        }
        let mut store = Store::new(values.mapsize);
        proof {
            lemma_apply_total(Seq::<Record>::empty(), records@, records@.len() as int);
            assert(total_bytes(Seq::<Record>::empty()) == 0);
        }
        match store.commit(records, Durable::Committed) {
            Ok(()) => {
                proof {
                    store.lemma_wf_valid();
                }
                Ok(
                    Ndb {
                        config: values,
                        queue: IngressQueue::new(INGRESS_CAPACITY),
                        pending: Vec::new(),
                        counters: Counters::new(),
                        store,
                    },
                )
            },
            Err(_) => Err(ErrorKind::OpenFailed),
        }
    }

    /// The settings the engine was opened with.
    pub fn config(&self) -> (values: &ConfigValues)
        ensures
            *values == self.spec_config(),
    {
        &self.config
    }

    /// Queues a payload for ingestion, or refuses it with `QueueFull`.
    /// Whether the event is stored is not known here.
    pub fn submit(&mut self, task: Task) -> (res: Result<(), ErrorKind>)
        requires
            old(self).wf(),
        ensures
            final(self).wf(),
            final(self).spec_config() == old(self).spec_config(),
            final(self).store == old(self).store,
            final(self).pending == old(self).pending,
            final(self).counters == old(self).counters,
            final(self).queue.spec_capacity() == old(self).queue.spec_capacity(),
            res is Ok <==> old(self).queue@.len() < old(self).queue.spec_capacity(),
            res is Ok ==> final(self).queue@ == old(self).queue@.push(task),
            res is Err ==> res == Err::<(), ErrorKind>(ErrorKind::QueueFull) && final(self).queue == old(self).queue,
    {
        self.queue.enqueue(task)
    }

    /// Takes the payload that has waited longest, if any.
    pub fn next_task(&mut self) -> (task: Option<Task>)
        requires
            old(self).wf(),
        ensures
            final(self).wf(),
            final(self).spec_config() == old(self).spec_config(),
            final(self).store == old(self).store,
            final(self).pending == old(self).pending,
            final(self).counters == old(self).counters,
            final(self).queue.spec_capacity() == old(self).queue.spec_capacity(),
            task is Some <==> old(self).queue@.len() > 0,
            task is Some ==> task->0 == old(self).queue@[0] && final(self).queue@ == old(self).queue@.remove(0),
            task is None ==> final(self).queue == old(self).queue,
    {
        self.queue.dequeue()
    }

    /// Takes one pipeline step for a task, under this engine's filter
    /// setting. The engine itself is not touched.
    pub fn advance(&self, progress: Progress, reply: Reply) -> (q: Progress)
        requires
            progress.wf(),
        ensures
            steps(progress, reply, self.spec_config().ingest_filter, q),
            q.wf(),
    {
        progress.advance(reply, self.config.ingest_filter)
    }

    /// Writes a batch of validated records as one transaction: all of it
    /// or nothing.
    pub fn commit(&mut self, batch: Vec<Record>, durable: Durable) -> (res: Result<(), ErrorKind>)
        requires
            old(self).wf(),
            forall|i: int| 0 <= i < batch@.len() ==> (#[trigger] batch@[i]).wf(),
        ensures
            final(self).wf(),
            final(self).spec_config() == old(self).spec_config(),
            final(self).queue == old(self).queue,
            final(self).pending == old(self).pending,
            final(self).counters == old(self).counters,
            final(self).store.spec_bound() == old(self).store.spec_bound(),
            res == commit_outcome(
                old(self).store.spec_used(),
                old(self).store.spec_bound(),
                batch_need(old(self).store@, batch@, batch@.len() as int),
                durable,
            ),
            res is Ok ==> final(self).store@ == spec_apply(old(self).store@, batch@, batch@.len() as int),
            res is Ok ==> final(self).store.spec_used() == old(self).store.spec_used() + batch_need(
                old(self).store@,
                batch@,
                batch@.len() as int,
            ),
            res is Err ==> final(self).store == old(self).store,
    {
        self.store.commit(batch, durable)
    }

    /// Takes the outcome of one finished task and counts it. A dropped
    /// task gives back its reason and changes nothing but the counters; a
    /// ready record joins the pending batch. The store is not touched
    /// either way.
    pub fn hand_over(&mut self, outcome: Result<Record, ErrorKind>) -> (res: Result<(), ErrorKind>)
        requires
            old(self).wf(),
            outcome is Ok ==> outcome->Ok_0.wf(),
        ensures
            final(self).wf(),
            final(self).spec_config() == old(self).spec_config(),
            final(self).queue == old(self).queue,
            final(self).store == old(self).store,
            outcome is Err ==> {
                &&& res == Err::<(), ErrorKind>(outcome->Err_0)
                &&& final(self).pending == old(self).pending
                &&& final(self).counters == old(self).counters.noted(Some(outcome->Err_0))
            },
            outcome is Ok ==> {
                &&& res is Ok
                &&& final(self).pending@ == old(self).pending@.push(outcome->Ok_0)
                &&& final(self).counters == old(self).counters.noted(None)
            },
    {
        match outcome {
            Err(e) => {
                self.counters.note(Some(e));
                Err(e)
            },
            Ok(r) => {
                self.counters.note(None);
                self.pending.push(r);
                Ok(())
            },
        }
    }

    /// Commits the pending batch as one transaction and empties it. On
    /// failure the store is left as it was and every task of the batch
    /// shares the error.
    pub fn flush(&mut self, durable: Durable) -> (res: Result<(), ErrorKind>)
        requires
            old(self).wf(),
        ensures
            final(self).wf(),
            final(self).spec_config() == old(self).spec_config(),
            final(self).queue == old(self).queue,
            final(self).pending@ == Seq::<Record>::empty(),
            final(self).counters == old(self).counters,
            final(self).store.spec_bound() == old(self).store.spec_bound(),
            res == commit_outcome(
                old(self).store.spec_used(),
                old(self).store.spec_bound(),
                batch_need(old(self).store@, old(self).pending@, old(self).pending@.len() as int),
                durable,
            ),
            res is Ok ==> final(self).store@ == spec_apply(
                old(self).store@,
                old(self).pending@,
                old(self).pending@.len() as int,
            ),
            res is Ok ==> final(self).store.spec_used() == old(self).store.spec_used() + batch_need(
                old(self).store@,
                old(self).pending@,
                old(self).pending@.len() as int,
            ),
            res is Err ==> final(self).store == old(self).store,
    {
        let mut batch: Vec<Record> = Vec::new();
        core::mem::swap(&mut self.pending, &mut batch);
        self.store.commit(batch, durable)
    }

    /// Closes the engine: commits the pending batch and gives up the
    /// handle. What comes back is the store as the last transaction left
    /// it, that transaction's result, and every task that was queued and
    /// not yet taken, oldest first, for the host to settle or hand back.
    pub fn destroy(self, durable: Durable) -> (res: Closed)
        requires
            self.wf(),
        ensures
            res.store.wf(),
            res.store.spec_bound() == self.store.spec_bound(),
            res.unsettled@ == self.queue@,
            res.last == commit_outcome(
                self.store.spec_used(),
                self.store.spec_bound(),
                batch_need(self.store@, self.pending@, self.pending@.len() as int),
                durable,
            ),
            res.last is Ok ==> res.store@ == spec_apply(self.store@, self.pending@, self.pending@.len() as int),
            res.last is Err ==> res.store == self.store,
    {
        let mut ndb = self;
        let last = ndb.flush(durable);
        Closed { store: ndb.store, unsettled: ndb.queue.into_tasks(), last }
    }

    /// Deletes the stored record with this identifier and all of its
    /// index entries, as one transaction. Pending records are not
    /// touched.
    pub fn delete(&mut self, id: &Id, durable: Durable) -> (res: Result<bool, ErrorKind>)
        requires
            old(self).wf(),
        ensures
            final(self).wf(),
            final(self).spec_config() == old(self).spec_config(),
            final(self).queue == old(self).queue,
            final(self).pending == old(self).pending,
            final(self).counters == old(self).counters,
            final(self).store.spec_bound() == old(self).store.spec_bound(),
            !has_id(old(self).store@, *id) ==> res == Ok::<bool, ErrorKind>(false),
            has_id(old(self).store@, *id) ==> res == (match durable {
                Durable::Committed => Ok::<bool, ErrorKind>(true),
                Durable::MapFull => Err::<bool, ErrorKind>(ErrorKind::StoreFull),
                Durable::Fault => Err::<bool, ErrorKind>(ErrorKind::WriteFailed),
            }),
            res == Ok::<bool, ErrorKind>(true) ==> final(self).store@ == spec_delete(old(self).store@, *id),
            res != Ok::<bool, ErrorKind>(true) ==> final(self).store == old(self).store,
    {
        self.store.delete(id, durable)
    }

    /// Runs a filter over a snapshot of the store.
    pub fn query(&self, filter: &Filter) -> (out: Vec<Id>)
        requires
            self.wf(),
        ensures
            out@ == spec_query(self.store@, *filter),
    {
        query(&self.store, filter)
    }

    /// The encoded bytes stored under an identifier.
    pub fn get(&self, id: &Id) -> (bytes: Option<&Vec<u8>>)
        requires
            self.wf(),
        ensures
            bytes is Some <==> has_id(self.store@, *id),
            bytes is Some ==> *bytes->0 == self.store@[position(self.store@, *id)].bytes,
    {
        self.store.get(id)
    }
}

} // verus!
