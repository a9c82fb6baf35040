//! Ingestion: the bounded ingress queue, the staged pipeline that takes a
//! task from payload to record, and the counters of its outcomes.

use vstd::prelude::*;
use crate::event::{Decision, ErrorKind, Event, Id};
use crate::index::{keys_of, Record};

verus! {

/// Where a payload came from.
#[derive(Clone, Copy, Debug, PartialEq, Eq, Structural)]
pub enum Origin {
    /// Submitted by the local client.
    Client,
    /// Received from a relay.
    Relay,
}

/// One raw payload waiting to be ingested.
#[derive(Clone, Debug)]
pub struct Task {
    /// The payload as it arrived.
    pub payload: Vec<u8>,
    /// Where it came from.
    pub origin: Origin,
    /// A hint that names the source, such as a relay address.
    pub source: String,
    /// The caller's token for the acceptance filter, passed through and
    /// never read.
    pub filter_context: Option<u64>,
}

/// A bounded first-in, first-out queue of tasks.
#[derive(Debug)]
pub struct IngressQueue {
    items: Vec<Task>,
    capacity: usize,
}

impl View for IngressQueue {
    type V = Seq<Task>;

    closed spec fn view(&self) -> Seq<Task> {
        self.items@
    }
}

impl IngressQueue {
    /// The most tasks the queue holds.
    pub closed spec fn spec_capacity(&self) -> nat {
        self.capacity as nat
    }

    /// The queue never holds more than its capacity.
    pub closed spec fn wf(&self) -> bool {
        self.items@.len() <= self.capacity
    }

    /// The bound follows from the invariant.
    pub proof fn lemma_wf_bounded(&self)
        requires
            self.wf(),
        ensures
            self@.len() <= self.spec_capacity(),
    {
    }

    /// An empty queue that holds at most `capacity` tasks.
    pub fn new(capacity: usize) -> (q: IngressQueue)
        ensures
            q.wf(),
            q@ == Seq::<Task>::empty(),
            q.spec_capacity() == capacity,
    {
        IngressQueue { items: Vec::new(), capacity }
    }

    /// The number of tasks waiting.
    pub fn depth(&self) -> (n: usize)
        ensures
            n == self@.len(),
    {
        self.items.len()
    }

    /// The most tasks the queue holds.
    pub fn capacity(&self) -> (n: usize)
        ensures
            n == self.spec_capacity(),
    {
        self.capacity
    }

    /// Appends a task, or refuses it with `QueueFull` when the queue is at
    /// capacity and leaves the queue as it was.
    pub fn enqueue(&mut self, task: Task) -> (res: Result<(), ErrorKind>)
        requires
            old(self).wf(),
        ensures
            final(self).wf(),
            final(self).spec_capacity() == old(self).spec_capacity(),
            res is Ok <==> old(self)@.len() < old(self).spec_capacity(),
            res is Ok ==> final(self)@ == old(self)@.push(task),
            res is Err ==> res == Err::<(), ErrorKind>(ErrorKind::QueueFull) && *final(self) == *old(self),
    {
        if self.items.len() >= self.capacity {
            return Err(ErrorKind::QueueFull);
        }
        self.items.push(task);
        Ok(())
    }

    /// Gives up the queue for the tasks still waiting, oldest first.
    pub fn into_tasks(self) -> (tasks: Vec<Task>)
        ensures
            tasks@ == self@,
    {
        self.items
    }

    /// Takes the task that has waited longest, if any.
    pub fn dequeue(&mut self) -> (task: Option<Task>)
        requires
            old(self).wf(),
        ensures
            final(self).wf(),
            final(self).spec_capacity() == old(self).spec_capacity(),
            task is Some <==> old(self)@.len() > 0,
            task is Some ==> task->0 == old(self)@[0] && final(self)@ == old(self)@.remove(0),
            task is None ==> *final(self) == *old(self),
    {
        if self.items.len() == 0 {
            return None;
        }
        Some(self.items.remove(0))
    }
}

/// The collaborator a task waits for next.
#[derive(Clone, Copy, Debug, PartialEq, Eq, Structural)]
pub enum Stage {
    /// Parse the payload into an event.
    Parse,
    /// Hash the event's fields into its identifier.
    ContentId,
    /// Verify the signature against identifier and author.
    Signature,
    /// Ask the acceptance filter.
    Policy,
    /// Encode the event into its stored bytes.
    Encode,
}

/// A collaborator's answer.
#[derive(Clone, Debug)]
pub enum Reply {
    /// The parsed event, or `None` for a malformed payload.
    Parsed(Option<Event>),
    /// The identifier that the event's fields hash to.
    ContentId(Id),
    /// Whether the signature verifies.
    Signature(bool),
    /// The acceptance filter's decision.
    Policy(Decision),
    /// The encoded bytes.
    Encoded(Vec<u8>),
}

/// How far one task has come through the pipeline.
#[derive(Clone, Debug)]
pub enum Progress {
    /// Nothing done yet.
    Fresh,
    /// Parsed, identifier not yet checked.
    Parsed(Event),
    /// Identifier checked, signature not yet.
    Identified(Event),
    /// Signature verified, filter not yet asked.
    Verified(Event),
    /// Accepted, not yet encoded.
    Admitted(Event),
    /// Ready for the writer.
    Ready(Record),
    /// Dropped, with the reason.
    Dropped(ErrorKind),
}

/// Whether `q` is the record made of event `e` and its encoded bytes `b`.
pub open spec fn sealed(e: Event, b: Vec<u8>, q: Progress) -> bool {
    &&& q is Ready
    &&& q->Ready_0.id == e.id
    &&& q->Ready_0.bytes == b
    &&& keys_of(e, q->Ready_0.keys)
    &&& q->Ready_0.wf()
}

/// The pipeline's one step: from progress `p` and a reply to progress `q`.
/// The stages run in order and stop at the first failure; a reply that
/// the current stage did not ask for changes nothing. `filtered` says
/// whether an acceptance filter is installed.
pub open spec fn steps(p: Progress, reply: Reply, filtered: bool, q: Progress) -> bool {
    match p {
        Progress::Fresh => match reply {
            Reply::Parsed(Some(e)) => q == Progress::Parsed(e),
            Reply::Parsed(None) => q == Progress::Dropped(ErrorKind::ParseFailed),
            _ => q == p,
        },
        Progress::Parsed(e) => match reply {
            Reply::ContentId(id) => if id == e.id {
                q == Progress::Identified(e)
            } else {
                q == Progress::Dropped(ErrorKind::InvalidId)
            },
            _ => q == p,
        },
        Progress::Identified(e) => match reply {
            Reply::Signature(ok) => if ok {
                q == Progress::Verified(e)
            } else {
                q == Progress::Dropped(ErrorKind::InvalidSignature)
            },
            _ => q == p,
        },
        Progress::Verified(e) => match reply {
            Reply::Policy(d) => if !filtered {
                q == p
            } else if d == Decision::Reject {
                q == Progress::Dropped(ErrorKind::RejectedByFilter)
            } else {
                q == Progress::Admitted(e)
            },
            Reply::Encoded(b) => if filtered {
                q == p
            } else {
                sealed(e, b, q)
            },
            _ => q == p,
        },
        Progress::Admitted(e) => match reply {
            Reply::Encoded(b) => sealed(e, b, q),
            _ => q == p,
        },
        Progress::Ready(_) => q == p,
        Progress::Dropped(_) => q == p,
    }
}

/// The stage that progress `p` waits for, if it is not finished.
pub open spec fn spec_next_stage(p: Progress, filtered: bool) -> Option<Stage> {
    match p {
        Progress::Fresh => Some(Stage::Parse),
        Progress::Parsed(_) => Some(Stage::ContentId),
        Progress::Identified(_) => Some(Stage::Signature),
        Progress::Verified(_) => if filtered {
            Some(Stage::Policy)
        } else {
            Some(Stage::Encode)
        },
        Progress::Admitted(_) => Some(Stage::Encode),
        Progress::Ready(_) => None,
        Progress::Dropped(_) => None,
    }
}

impl Progress {
    /// A record that is ready for the writer has consistent keys.
    pub open spec fn wf(self) -> bool {
        self is Ready ==> self->Ready_0.wf()
    }

    /// Where every task starts.
    pub fn start() -> (p: Progress)
        ensures
            p == Progress::Fresh,
            p.wf(),
    {
        Progress::Fresh
    }

    /// The collaborator to call next, or `None` when the task is finished.
    pub fn next_stage(&self, filtered: bool) -> (s: Option<Stage>)
        ensures
            s == spec_next_stage(*self, filtered),
    {
        match self {
            Progress::Fresh => Some(Stage::Parse),
            Progress::Parsed(_) => Some(Stage::ContentId),
            Progress::Identified(_) => Some(Stage::Signature),
            Progress::Verified(_) => if filtered {
                Some(Stage::Policy)
            } else {
                Some(Stage::Encode)
            },
            Progress::Admitted(_) => Some(Stage::Encode),
            Progress::Ready(_) => None,
            Progress::Dropped(_) => None,
        }
    }

    /// Takes one step of the pipeline with a collaborator's reply.
    pub fn advance(self, reply: Reply, filtered: bool) -> (q: Progress)
        requires
            self.wf(),
        ensures
            steps(self, reply, filtered, q),
            q.wf(),
    {
        match (self, reply) {
            (Progress::Fresh, Reply::Parsed(Some(e))) => Progress::Parsed(e),
            (Progress::Fresh, Reply::Parsed(None)) => Progress::Dropped(ErrorKind::ParseFailed),
            (Progress::Parsed(e), Reply::ContentId(id)) => {
                if id.same(&e.id) {
                    Progress::Identified(e)
                } else {
                    Progress::Dropped(ErrorKind::InvalidId)
                }
            },
            (Progress::Identified(e), Reply::Signature(ok)) => {
                if ok {
                    Progress::Verified(e)
                } else {
                    Progress::Dropped(ErrorKind::InvalidSignature)
                }
            },
            (Progress::Verified(e), Reply::Policy(d)) => {
                if !filtered {
                    Progress::Verified(e)
                } else {
                    match d {
                        Decision::Reject => Progress::Dropped(ErrorKind::RejectedByFilter),
                        _ => Progress::Admitted(e),
                    }
                }
            },
            (Progress::Verified(e), Reply::Encoded(b)) => {
                if filtered {
                    Progress::Verified(e)
                } else {
                    Progress::Ready(Record::seal(&e, b))
                }
            },
            (Progress::Admitted(e), Reply::Encoded(b)) => Progress::Ready(Record::seal(&e, b)),
            (p, _) => p,
        }
    }

    /// The result of a finished task: the record for the writer, or why
    /// the task was dropped. `None` while the task is unfinished.
    pub fn outcome(self) -> (res: Option<Result<Record, ErrorKind>>)
        ensures
            match self {
                Progress::Ready(r) => res == Some(Ok::<Record, ErrorKind>(r)),
                Progress::Dropped(e) => res == Some(Err::<Record, ErrorKind>(e)),
                _ => res is None,
            },
    {
        match self {
            Progress::Ready(r) => Some(Ok(r)),
            Progress::Dropped(e) => Some(Err(e)),
            _ => None,
        }
    }
}

/// How many tasks ended in each way, for observation. A count that has
/// reached the largest value stays there.
#[derive(Clone, Copy, Debug, PartialEq, Eq, Structural)]
pub struct Counters {
    pub parse_failed: u64,
    pub invalid_id: u64,
    pub invalid_signature: u64,
    pub rejected_by_filter: u64,
    pub accepted: u64,
}

/// One more, unless the count is at its largest value.
pub open spec fn bumped(n: u64) -> u64 {
    if n < u64::MAX {
        (n + 1) as u64
    } else {
        n
    }
}

impl Counters {
    /// The counts after one more task ended: accepted when `dropped` is
    /// `None`, else dropped for that reason. Reasons that no pipeline
    /// stage gives are not counted.
    pub open spec fn noted(self, dropped: Option<ErrorKind>) -> Counters {
        match dropped {
            None => Counters { accepted: bumped(self.accepted), ..self },
            Some(ErrorKind::ParseFailed) => Counters { parse_failed: bumped(self.parse_failed), ..self },
            Some(ErrorKind::InvalidId) => Counters { invalid_id: bumped(self.invalid_id), ..self },
            Some(ErrorKind::InvalidSignature) => Counters {
                invalid_signature: bumped(self.invalid_signature),
                ..self
            },
            Some(ErrorKind::RejectedByFilter) => Counters {
                rejected_by_filter: bumped(self.rejected_by_filter),
                ..self
            },
            Some(_) => self,
        }
    }

    /// All counts at zero.
    pub fn new() -> (c: Counters)
        ensures
            c == (Counters { parse_failed: 0, invalid_id: 0, invalid_signature: 0, rejected_by_filter: 0, accepted: 0 }),
    {
        Counters { parse_failed: 0, invalid_id: 0, invalid_signature: 0, rejected_by_filter: 0, accepted: 0 }
    }

    /// Counts one more finished task.
    pub fn note(&mut self, dropped: Option<ErrorKind>)
        ensures
            *final(self) == old(self).noted(dropped),
    {
        match dropped {
            None => {
                self.accepted = self.accepted.saturating_add(1);
            },
            Some(ErrorKind::ParseFailed) => {
                self.parse_failed = self.parse_failed.saturating_add(1);
            },
            Some(ErrorKind::InvalidId) => {
                self.invalid_id = self.invalid_id.saturating_add(1);
            },
            Some(ErrorKind::InvalidSignature) => {
                self.invalid_signature = self.invalid_signature.saturating_add(1);
            },
            Some(ErrorKind::RejectedByFilter) => {
                self.rejected_by_filter = self.rejected_by_filter.saturating_add(1);
            },
            Some(_) => {},
        }
    }
}

/// With a filter installed, a task is ready for the writer only after the
/// filter was asked and did not reject: whatever replies follow a
/// rejection, and whatever replies reach a verified event other than the
/// filter's, no record comes out.
pub proof fn lemma_filter_guards_store(p: Progress, reply: Reply, q: Progress)
    requires
        steps(p, reply, true, q),
        q is Ready,
    ensures
        p is Ready || p is Admitted,
{
}

/// A rejected event is dropped as a policy outcome, and a dropped task
/// stays dropped whatever reply comes.
pub proof fn lemma_rejection_is_final(e: Event, reply: Reply, q: Progress, r: Progress)
    requires
        steps(Progress::Verified(e), Reply::Policy(Decision::Reject), true, q),
        steps(q, reply, true, r),
    ensures
        q == Progress::Dropped(ErrorKind::RejectedByFilter),
        r == q,
        spec_next_stage(q, true) is None,
{
}

/// Under a filter that rejects exactly the events of one kind, an event
/// of that kind is dropped as a policy outcome, and an event of any other
/// kind is sealed as it is, into a record of its own kind.
pub proof fn lemma_filter_on_kind(e: Event, d: Decision, b: Vec<u8>, q: Progress, r: Progress, kind: u32)
    requires
        (d == Decision::Reject) <==> e.kind == kind,
        steps(Progress::Verified(e), Reply::Policy(d), true, q),
        steps(q, Reply::Encoded(b), true, r),
    ensures
        e.kind == kind ==> r == Progress::Dropped(ErrorKind::RejectedByFilter),
        e.kind != kind ==> sealed(e, b, r) && r->Ready_0.keys.by_kind.kind == e.kind,
{
}

} // verus!
