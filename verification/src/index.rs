//! The index set: the keys that an event's fields give in each index, and
//! the record that carries them to the writer.

use vstd::prelude::*;
use crate::event::{Event, Id};

verus! {

/// Key of the by-time index.
#[derive(Clone, Copy, Debug, PartialEq, Eq, Structural)]
pub struct TimeKey {
    pub created_at: u64,
    pub id: Id,
}

/// Key of the by-author index.
#[derive(Clone, Copy, Debug, PartialEq, Eq, Structural)]
pub struct AuthorKey {
    pub pubkey: Id,
    pub created_at: u64,
    pub id: Id,
}

/// Key of the by-kind index.
#[derive(Clone, Copy, Debug, PartialEq, Eq, Structural)]
pub struct KindKey {
    pub kind: u32,
    pub created_at: u64,
    pub id: Id,
}

/// Key of the by-tag index: one per indexable tag of an event.
#[derive(Clone, Debug)]
pub struct TagKey {
    pub name: String,
    pub value: String,
    pub created_at: u64,
    pub id: Id,
}

/// Every index key of one event.
#[derive(Clone, Debug)]
pub struct IndexKeys {
    pub by_time: TimeKey,
    pub by_author: AuthorKey,
    pub by_kind: KindKey,
    pub by_tag: Vec<TagKey>,
}

/// A tag is indexable when it has a name and a value, that is at least two
/// strings.
pub open spec fn indexable(tag: Seq<String>) -> bool {
    tag.len() >= 2
}

/// The (name, value) pairs of the indexable tags among the first `n` tags,
/// in the order of the tags.
pub open spec fn tag_pairs(tags: Seq<Vec<String>>, n: int) -> Seq<(Seq<char>, Seq<char>)>
    decreases n,
{
    if n <= 0 {
        Seq::empty()
    } else if indexable(tags[n - 1]@) {
        tag_pairs(tags, n - 1).push((tags[n - 1]@[0]@, tags[n - 1]@[1]@))
    } else {
        tag_pairs(tags, n - 1)
    }
}

/// Whether `keys` are the by-tag keys of an event with these tags, time and
/// identifier: one key per indexable tag, in order.
pub open spec fn tag_keys_of(tags: Seq<Vec<String>>, created_at: u64, id: Id, n: int, keys: Seq<TagKey>) -> bool {
    &&& keys.len() == tag_pairs(tags, n).len()
    &&& forall|j: int|
        0 <= j < keys.len() ==> {
            &&& (#[trigger] keys[j]).name@ == tag_pairs(tags, n)[j].0
            &&& keys[j].value@ == tag_pairs(tags, n)[j].1
            &&& keys[j].created_at == created_at
            &&& keys[j].id == id
        }
}

/// Whether `keys` are exactly the index keys that the event's fields give.
pub open spec fn keys_of(e: Event, keys: IndexKeys) -> bool {
    &&& keys.by_time == (TimeKey { created_at: e.created_at, id: e.id })
    &&& keys.by_author == (AuthorKey { pubkey: e.pubkey, created_at: e.created_at, id: e.id })
    &&& keys.by_kind == (KindKey { kind: e.kind, created_at: e.created_at, id: e.id })
    &&& tag_keys_of(e.tags@, e.created_at, e.id, e.tags@.len() as int, keys.by_tag@)
}

/// Derives the index keys of an event from its fields alone.
pub fn derive_keys(e: &Event) -> (keys: IndexKeys)
    ensures
        keys_of(*e, keys),
{
    let mut by_tag: Vec<TagKey> = Vec::new();
    let mut i: usize = 0;
    while i < e.tags.len()
        invariant
            0 <= i <= e.tags@.len(),
            tag_keys_of(e.tags@, e.created_at, e.id, i as int, by_tag@),
        decreases e.tags@.len() - i,
    {
        let tag = &e.tags[i];
        if tag.len() >= 2 {
            let key = TagKey {
                name: tag[0].clone(),
                value: tag[1].clone(),
                created_at: e.created_at,
                id: e.id,
            };
            by_tag.push(key);
        }
        i = i + 1;
    }
    IndexKeys {
        by_time: TimeKey { created_at: e.created_at, id: e.id },
        by_author: AuthorKey { pubkey: e.pubkey, created_at: e.created_at, id: e.id },
        by_kind: KindKey { kind: e.kind, created_at: e.created_at, id: e.id },
        by_tag,
    }
}

/// Key derivation is a function of the event's fields: two derivations
/// from one event agree on every key.
pub proof fn lemma_keys_deterministic(e: Event, a: IndexKeys, b: IndexKeys)
    requires
        keys_of(e, a),
        keys_of(e, b),
    ensures
        a.by_time == b.by_time,
        a.by_author == b.by_author,
        a.by_kind == b.by_kind,
        a.by_tag@.len() == b.by_tag@.len(),
        forall|j: int|
            0 <= j < a.by_tag@.len() ==> {
                &&& (#[trigger] a.by_tag@[j]).name@ == b.by_tag@[j].name@
                &&& a.by_tag@[j].value@ == b.by_tag@[j].value@
                &&& a.by_tag@[j].created_at == b.by_tag@[j].created_at
                &&& a.by_tag@[j].id == b.by_tag@[j].id
            },
{
    assert forall|j: int| 0 <= j < a.by_tag@.len() implies {
        &&& (#[trigger] a.by_tag@[j]).name@ == b.by_tag@[j].name@
        &&& a.by_tag@[j].value@ == b.by_tag@[j].value@
        &&& a.by_tag@[j].created_at == b.by_tag@[j].created_at
        &&& a.by_tag@[j].id == b.by_tag@[j].id
    } by {
        let _ = b.by_tag@[j];
    }
}

/// A validated event as the writer takes it: its identifier, its encoded
/// bytes and its index keys.
#[derive(Clone, Debug)]
pub struct Record {
    pub id: Id,
    pub bytes: Vec<u8>,
    pub keys: IndexKeys,
}

impl Record {
    /// Every key of the record ends in the record's identifier and carries
    /// the same creation time.
    pub open spec fn wf(self) -> bool {
        &&& self.keys.by_time.id == self.id
        &&& self.keys.by_author.id == self.id
        &&& self.keys.by_author.created_at == self.keys.by_time.created_at
        &&& self.keys.by_kind.id == self.id
        &&& self.keys.by_kind.created_at == self.keys.by_time.created_at
        &&& forall|j: int|
            0 <= j < self.keys.by_tag@.len() ==> {
                &&& (#[trigger] self.keys.by_tag@[j]).id == self.id
                &&& self.keys.by_tag@[j].created_at == self.keys.by_time.created_at
            }
    }

    /// Whether every key of the record ends in the record's identifier
    /// and carries the same creation time.
    pub fn is_consistent(&self) -> (ok: bool)
        ensures
            ok == self.wf(),
    {
        if !(self.keys.by_time.id.same(&self.id) && self.keys.by_author.id.same(&self.id)
            && self.keys.by_author.created_at == self.keys.by_time.created_at && self.keys.by_kind.id.same(&self.id)
            && self.keys.by_kind.created_at == self.keys.by_time.created_at) {
            return false;
        }
        let mut j: usize = 0;
        while j < self.keys.by_tag.len()
            invariant
                0 <= j <= self.keys.by_tag@.len(),
                forall|h: int|
                    0 <= h < j ==> {
                        &&& (#[trigger] self.keys.by_tag@[h]).id == self.id
                        &&& self.keys.by_tag@[h].created_at == self.keys.by_time.created_at
                    },
            decreases self.keys.by_tag@.len() - j,
        {
            if !(self.keys.by_tag[j].id.same(&self.id) && self.keys.by_tag[j].created_at
                == self.keys.by_time.created_at) {
                return false;
            }
            j = j + 1;
        }
        true
    }

    /// Joins a validated event's keys with its encoded bytes.
    pub fn seal(e: &Event, bytes: Vec<u8>) -> (r: Record)
        ensures
            r.id == e.id,
            r.bytes == bytes,
            keys_of(*e, r.keys),
            r.wf(),
    {
        Record { id: e.id, bytes, keys: derive_keys(e) }
    }
}

} // verus!
