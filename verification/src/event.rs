//! Events, identifiers, filter decisions and the kinds of failure.

use vstd::prelude::*;

verus! {

/// A fixed-length, 256-bit value: an event identifier or a public key.
/// `hi` holds the first sixteen bytes, `lo` the last sixteen, both read
/// big-endian, so the order below is the order of the thirty-two bytes.
#[derive(Clone, Copy, Debug, PartialEq, Eq, Structural)]
pub struct Id {
    pub hi: u128,
    pub lo: u128,
}

impl Id {
    /// Strict order on identifiers: by `hi`, then by `lo`.
    pub open spec fn below(self, other: Id) -> bool {
        self.hi < other.hi || (self.hi == other.hi && self.lo < other.lo)
    }

    /// Whether this identifier sorts strictly before `other`.
    pub fn is_below(&self, other: &Id) -> (r: bool)
        ensures
            r == self.below(*other),
    {
        self.hi < other.hi || (self.hi == other.hi && self.lo < other.lo)
    }

    /// Whether the two identifiers are the same value.
    pub fn same(&self, other: &Id) -> (r: bool)
        ensures
            r == (*self == *other),
    {
        self.hi == other.hi && self.lo == other.lo
    }
}

/// A signature over an event identifier, as two 256-bit halves.
#[derive(Clone, Copy, Debug, PartialEq, Eq, Structural)]
pub struct Signature {
    pub r: Id,
    pub s: Id,
}

/// A parsed event, before or after validation.
#[derive(Clone, Debug)]
pub struct Event {
    /// The identifier the event declares for itself.
    pub id: Id,
    /// The author's public key.
    pub pubkey: Id,
    /// The author's signature over `id`.
    pub sig: Signature,
    /// Creation time, in seconds.
    pub created_at: u64,
    /// What sort of event this is.
    pub kind: u32,
    /// The tags in order, each an ordered list of strings.
    pub tags: Vec<Vec<String>>,
    /// Free-form content.
    pub content: String,
}

/// What an acceptance filter answers for one validated event.
#[derive(Clone, Copy, Debug, PartialEq, Eq, Structural)]
pub enum Decision {
    /// Store the event.
    Accept,
    /// Drop the event.
    Reject,
    /// Store the event and spare it any further checks.
    SkipChecks,
}

/// Why an event was not stored, or why the engine could not serve a call.
#[derive(Clone, Copy, Debug, PartialEq, Eq, Structural)]
pub enum ErrorKind {
    /// The payload is not a well-formed event.
    ParseFailed,
    /// The declared identifier is not the one the content hashes to.
    InvalidId,
    /// The signature does not verify against identifier and author.
    InvalidSignature,
    /// The acceptance filter turned the event down. A policy outcome, not a
    /// fault.
    RejectedByFilter,
    /// The ingress queue is at capacity; the caller may retry.
    QueueFull,
    /// The batch does not fit under the store size bound.
    StoreFull,
    /// The durable store failed while writing the batch.
    WriteFailed,
    /// The engine could not be opened.
    OpenFailed,
}

impl ErrorKind {
    /// Whether the outcome is a policy decision rather than a fault.
    pub fn is_policy(&self) -> (r: bool)
        ensures
            r == (*self == ErrorKind::RejectedByFilter),
    {
        match self {
            ErrorKind::RejectedByFilter => true,
            _ => false,
        }
    }

    /// Whether the caller may simply try the same call again.
    pub fn is_retriable(&self) -> (r: bool)
        ensures
            r == (*self == ErrorKind::QueueFull),
    {
        match self {
            ErrorKind::QueueFull => true,
            _ => false,
        }
    }
}

} // verus!
