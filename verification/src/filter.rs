//! Declarative filters and the test of one record against a filter.

use vstd::prelude::*;
use crate::event::Id;
use crate::index::{Record, TagKey};

verus! {


/// A constraint on one tag name: the event must carry a tag of that name
/// whose value is one of `values`.
#[derive(Clone, Debug)]
pub struct TagMatch {
    pub name: String,
    pub values: Vec<String>,
}

/// A declarative query. An empty list and an absent bound constrain
/// nothing.
#[derive(Clone, Debug)]
pub struct Filter {
    pub ids: Vec<Id>,
    pub authors: Vec<Id>,
    pub kinds: Vec<u32>,
    pub since: Option<u64>,
    pub until: Option<u64>,
    pub tags: Vec<TagMatch>,
    pub limit: Option<usize>,
}

/// Whether `value` is one of the listed strings.
pub open spec fn value_listed(values: Seq<String>, value: Seq<char>) -> bool {
    exists|v: int| 0 <= v < values.len() && (#[trigger] values[v])@ == value
}

/// Whether one tag key satisfies one tag constraint.
pub open spec fn key_hit(k: TagKey, t: TagMatch) -> bool {
    k.name@ == t.name@ && value_listed(t.values@, k.value@)
}

/// Whether some tag key satisfies the constraint.
pub open spec fn tag_hit(keys: Seq<TagKey>, t: TagMatch) -> bool {
    exists|j: int| 0 <= j < keys.len() && key_hit(#[trigger] keys[j], t)
}

/// Whether a record meets every constraint of the filter.
pub open spec fn meets(r: Record, f: Filter) -> bool {
    &&& f.ids@.len() == 0 || f.ids@.contains(r.id)
    &&& f.authors@.len() == 0 || f.authors@.contains(r.keys.by_author.pubkey)
    &&& f.kinds@.len() == 0 || f.kinds@.contains(r.keys.by_kind.kind)
    &&& f.since is Some ==> r.keys.by_time.created_at >= f.since->0
    &&& f.until is Some ==> r.keys.by_time.created_at <= f.until->0
    &&& forall|c: int| 0 <= c < f.tags@.len() ==> tag_hit(r.keys.by_tag@, #[trigger] f.tags@[c])
}

/// Whether `id` is in the list.
pub fn id_listed(list: &Vec<Id>, id: &Id) -> (r: bool)
    ensures
        r == list@.contains(*id),
{
    let mut i: usize = 0;
    while i < list.len()
        invariant
            0 <= i <= list@.len(),
            forall|j: int| 0 <= j < i ==> list@[j] != *id,
        decreases list@.len() - i,
    {
        if list[i].same(id) {
            assert(list@[i as int] == *id);
            return true;
        }
        i = i + 1;
    }
    false
}

/// Whether `kind` is in the list.
pub fn kind_listed(list: &Vec<u32>, kind: u32) -> (r: bool)
    ensures
        r == list@.contains(kind),
{
    let mut i: usize = 0;
    while i < list.len()
        invariant
            0 <= i <= list@.len(),
            forall|j: int| 0 <= j < i ==> list@[j] != kind,
        decreases list@.len() - i,
    {
        if list[i] == kind {
            assert(list@[i as int] == kind);
            return true;
        }
        i = i + 1;
    }
    false
}

/// Whether `value` is one of the listed strings.
pub fn is_value_listed(values: &Vec<String>, value: &String) -> (r: bool)
    ensures
        r == value_listed(values@, value@),
{
    let mut i: usize = 0;
    while i < values.len()
        invariant
            0 <= i <= values@.len(),
            forall|j: int| 0 <= j < i ==> (#[trigger] values@[j])@ != value@,
        decreases values@.len() - i,
    {
        if values[i] == *value {
            assert(values@[i as int]@ == value@);
            return true;
        }
        i = i + 1;
    }
    false
}

/// Whether some tag key satisfies the constraint.
pub fn is_tag_hit(keys: &Vec<TagKey>, t: &TagMatch) -> (r: bool)
    ensures
        r == tag_hit(keys@, *t),
{
    let mut i: usize = 0;
    while i < keys.len()
        invariant
            0 <= i <= keys@.len(),
            forall|j: int| 0 <= j < i ==> !key_hit(#[trigger] keys@[j], *t),
        decreases keys@.len() - i,
    {
        if keys[i].name == t.name && is_value_listed(&t.values, &keys[i].value) {
            assert(key_hit(keys@[i as int], *t));
            return true;
        }
        i = i + 1;
    }
    false
}

/// Whether a record meets every constraint of the filter.
pub fn is_match(r: &Record, f: &Filter) -> (m: bool)
    ensures
        m == meets(*r, *f),
{
    if f.ids.len() > 0 && !id_listed(&f.ids, &r.id) {
        return false;
    }
    if f.authors.len() > 0 && !id_listed(&f.authors, &r.keys.by_author.pubkey) {
        return false;
    }
    if f.kinds.len() > 0 && !kind_listed(&f.kinds, r.keys.by_kind.kind) {
        return false;
    }
    match f.since {
        Some(t) => {
            if r.keys.by_time.created_at < t {
                return false;
            }
        },
        None => {},
    }
    match f.until {
        Some(t) => {
            if r.keys.by_time.created_at > t {
                return false;
            }
        },
        None => {},
    }
    let mut c: usize = 0;
    while c < f.tags.len()
        invariant
            0 <= c <= f.tags@.len(),
            forall|d: int| 0 <= d < c ==> tag_hit(r.keys.by_tag@, #[trigger] f.tags@[d]),
        decreases f.tags@.len() - c,
    {
        if !is_tag_hit(&r.keys.by_tag, &f.tags[c]) {
            return false;
        }
        c = c + 1;
    }
    true
}

} // verus!
