//! The by-author and by-kind indices: their orders, what it means for an
//! index to belong to a set of records, and how keys are placed and
//! removed.

use vstd::prelude::*;
use crate::content::{has_id, key_precedes, precedes, valid};
use crate::index::{AuthorKey, KindKey, Record, TimeKey};

verus! {

/// Whether some record has this by-author key.
pub open spec fn in_author_index(s: Seq<Record>, k: AuthorKey) -> bool {
    exists|i: int| 0 <= i < s.len() && (#[trigger] s[i]).keys.by_author == k
}

/// Whether some record has this by-kind key.
pub open spec fn in_kind_index(s: Seq<Record>, k: KindKey) -> bool {
    exists|i: int| 0 <= i < s.len() && (#[trigger] s[i]).keys.by_kind == k
}

pub(crate) proof fn lemma_author_key_has_record(s: Seq<Record>, k: AuthorKey)
    requires
        valid(s),
        in_author_index(s, k),
    ensures
        has_id(s, k.id),
{
    let i = choose|i: int| 0 <= i < s.len() && (#[trigger] s[i]).keys.by_author == k;
    assert(s[i].wf() && s[i].id == k.id);
}

pub(crate) proof fn lemma_kind_key_has_record(s: Seq<Record>, k: KindKey)
    requires
        valid(s),
        in_kind_index(s, k),
    ensures
        has_id(s, k.id),
{
    let i = choose|i: int| 0 <= i < s.len() && (#[trigger] s[i]).keys.by_kind == k;
    assert(s[i].wf() && s[i].id == k.id);
}

/// Order of the by-author index: by author, then newest first, then by
/// identifier.
pub open spec fn author_before(a: AuthorKey, b: AuthorKey) -> bool {
    a.pubkey.below(b.pubkey) || (a.pubkey == b.pubkey && precedes(
        TimeKey { created_at: a.created_at, id: a.id },
        TimeKey { created_at: b.created_at, id: b.id },
    ))
}

/// Order of the by-kind index: by kind, then newest first, then by
/// identifier.
pub open spec fn kind_before(a: KindKey, b: KindKey) -> bool {
    a.kind < b.kind || (a.kind == b.kind && precedes(
        TimeKey { created_at: a.created_at, id: a.id },
        TimeKey { created_at: b.created_at, id: b.id },
    ))
}

/// Whether `idx` is the by-author index of the records `s`: in index
/// order, with the key of every record and no other key.
#[verifier::opaque]
pub open spec fn author_index_of(s: Seq<Record>, idx: Seq<AuthorKey>) -> bool {
    &&& forall|a: int, b: int| 0 <= a < b < idx.len() ==> author_before(#[trigger] idx[a], #[trigger] idx[b])
    &&& forall|i: int| 0 <= i < s.len() ==> idx.contains((#[trigger] s[i]).keys.by_author)
    &&& forall|j: int| 0 <= j < idx.len() ==> in_author_index(s, #[trigger] idx[j])
}

/// Whether `idx` is the by-kind index of the records `s`: in index order,
/// with the key of every record and no other key.
#[verifier::opaque]
pub open spec fn kind_index_of(s: Seq<Record>, idx: Seq<KindKey>) -> bool {
    &&& forall|a: int, b: int| 0 <= a < b < idx.len() ==> kind_before(#[trigger] idx[a], #[trigger] idx[b])
    &&& forall|i: int| 0 <= i < s.len() ==> idx.contains((#[trigger] s[i]).keys.by_kind)
    &&& forall|j: int| 0 <= j < idx.len() ==> in_kind_index(s, #[trigger] idx[j])
}

/// Whether `a` comes strictly before `b` in the by-author index.
pub fn author_key_before(a: &AuthorKey, b: &AuthorKey) -> (r: bool)
    ensures
        r == author_before(*a, *b),
{
    a.pubkey.is_below(&b.pubkey) || (a.pubkey.same(&b.pubkey) && key_precedes(
        &TimeKey { created_at: a.created_at, id: a.id },
        &TimeKey { created_at: b.created_at, id: b.id },
    ))
}

/// Whether `a` comes strictly before `b` in the by-kind index.
pub fn kind_key_before(a: &KindKey, b: &KindKey) -> (r: bool)
    ensures
        r == kind_before(*a, *b),
{
    a.kind < b.kind || (a.kind == b.kind && key_precedes(
        &TimeKey { created_at: a.created_at, id: a.id },
        &TimeKey { created_at: b.created_at, id: b.id },
    ))
}

/// Places the key of a new record into the by-author index, at its place
/// in index order.
pub(crate) fn index_author(idx: &mut Vec<AuthorKey>, key: AuthorKey, Ghost(s): Ghost<Seq<Record>>, Ghost(r): Ghost<Record>, Ghost(at): Ghost<int>)
    requires
        valid(s),
        r.wf(),
        !has_id(s, r.id),
        0 <= at <= s.len(),
        key == r.keys.by_author,
        author_index_of(s, old(idx)@),
    ensures
        author_index_of(s.insert(at, r), final(idx)@),
{
    let ghost before = idx@;
    proof {
        reveal(author_index_of);
        if before.contains(key) {
            let j = choose|j: int| 0 <= j < before.len() && before[j] == key;
            assert(in_author_index(s, before[j]));
            let i = choose|i: int| 0 <= i < s.len() && (#[trigger] s[i]).keys.by_author == key;
            assert(s[i].wf() && s[i].id == r.id);
        }
    }
    let mut k: usize = 0;
    while k < idx.len() && author_key_before(&idx[k], &key)
        invariant
            0 <= k <= idx@.len(),
            *idx == *old(idx),
            forall|j: int| 0 <= j < k ==> author_before(#[trigger] idx@[j], key),
        decreases idx@.len() - k,
    {
        k = k + 1;
    }
    idx.insert(k, key);
    proof {
        let after = idx@;
        assert forall|a: int, b: int| 0 <= a < b < after.len() implies author_before(
            #[trigger] after[a],
            #[trigger] after[b],
        ) by {
            let x = if a < k { before[a] } else if a > k { before[a - 1] } else { key };
            let y = if b < k { before[b] } else if b > k { before[b - 1] } else { key };
            assert(after[a] == x && after[b] == y);
            if k < before.len() {
                assert(before.contains(before[k as int]));
                assert(before[k as int] != key);
                assert(author_before(key, before[k as int]));
            }
        }
        assert forall|x: AuthorKey| after.contains(x) <==> (before.contains(x) || x == key) by {
            if after.contains(x) {
                let i = choose|i: int| 0 <= i < after.len() && after[i] == x;
                if i < k {
                    assert(before[i] == x);
                } else if i > k {
                    assert(before[i - 1] == x);
                }
            }
            if before.contains(x) {
                let i = choose|i: int| 0 <= i < before.len() && before[i] == x;
                if i < k {
                    assert(after[i] == x);
                } else {
                    assert(after[i + 1] == x);
                }
            }
            if x == key {
                assert(after[k as int] == x);
            }
        }
        lemma_author_index_put(s, r, at, before, after);
    }
}

/// Places the key of a new record into the by-kind index, at its place
/// in index order.
pub(crate) fn index_kind(idx: &mut Vec<KindKey>, key: KindKey, Ghost(s): Ghost<Seq<Record>>, Ghost(r): Ghost<Record>, Ghost(at): Ghost<int>)
    requires
        valid(s),
        r.wf(),
        !has_id(s, r.id),
        0 <= at <= s.len(),
        key == r.keys.by_kind,
        kind_index_of(s, old(idx)@),
    ensures
        kind_index_of(s.insert(at, r), final(idx)@),
{
    let ghost before = idx@;
    proof {
        reveal(kind_index_of);
        if before.contains(key) {
            let j = choose|j: int| 0 <= j < before.len() && before[j] == key;
            assert(in_kind_index(s, before[j]));
            let i = choose|i: int| 0 <= i < s.len() && (#[trigger] s[i]).keys.by_kind == key;
            assert(s[i].wf() && s[i].id == r.id);
        }
    }
    let mut k: usize = 0;
    while k < idx.len() && kind_key_before(&idx[k], &key)
        invariant
            0 <= k <= idx@.len(),
            *idx == *old(idx),
            forall|j: int| 0 <= j < k ==> kind_before(#[trigger] idx@[j], key),
        decreases idx@.len() - k,
    {
        k = k + 1;
    }
    idx.insert(k, key);
    proof {
        let after = idx@;
        assert forall|a: int, b: int| 0 <= a < b < after.len() implies kind_before(
            #[trigger] after[a],
            #[trigger] after[b],
        ) by {
            let x = if a < k { before[a] } else if a > k { before[a - 1] } else { key };
            let y = if b < k { before[b] } else if b > k { before[b - 1] } else { key };
            assert(after[a] == x && after[b] == y);
            if k < before.len() {
                assert(before.contains(before[k as int]));
                assert(before[k as int] != key);
                assert(kind_before(key, before[k as int]));
            }
        }
        assert forall|x: KindKey| after.contains(x) <==> (before.contains(x) || x == key) by {
            if after.contains(x) {
                let i = choose|i: int| 0 <= i < after.len() && after[i] == x;
                if i < k {
                    assert(before[i] == x);
                } else if i > k {
                    assert(before[i - 1] == x);
                }
            }
            if before.contains(x) {
                let i = choose|i: int| 0 <= i < before.len() && before[i] == x;
                if i < k {
                    assert(after[i] == x);
                } else {
                    assert(after[i + 1] == x);
                }
            }
            if x == key {
                assert(after[k as int] == x);
            }
        }
        lemma_kind_index_put(s, r, at, before, after);
    }
}

proof fn lemma_author_index_put(s: Seq<Record>, r: Record, k: int, old_idx: Seq<AuthorKey>, idx: Seq<AuthorKey>)
    requires
        0 <= k <= s.len(),
        author_index_of(s, old_idx),
        forall|a: int, b: int| 0 <= a < b < idx.len() ==> author_before(#[trigger] idx[a], #[trigger] idx[b]),
        forall|x: AuthorKey| idx.contains(x) <==> (old_idx.contains(x) || x == r.keys.by_author),
    ensures
        author_index_of(s.insert(k, r), idx),
{
    reveal(author_index_of);
    let t = s.insert(k, r);
    assert(t[k] == r);
    assert forall|i: int| 0 <= i < t.len() implies idx.contains((#[trigger] t[i]).keys.by_author) by {
        if i < k {
            assert(t[i] == s[i]);
        } else if i > k {
            assert(t[i] == s[i - 1]);
        }
    }
    assert forall|j: int| 0 <= j < idx.len() implies in_author_index(t, #[trigger] idx[j]) by {
        let x = idx[j];
        assert(idx.contains(x));
        if old_idx.contains(x) {
            let h = choose|h: int| 0 <= h < old_idx.len() && old_idx[h] == x;
            assert(in_author_index(s, old_idx[h]));
            let i = choose|i: int| 0 <= i < s.len() && (#[trigger] s[i]).keys.by_author == x;
            let at = if i < k { i } else { i + 1 };
            assert(t[at] == s[i]);
        } else {
            assert(t[k].keys.by_author == x);
        }
    }
}

proof fn lemma_kind_index_put(s: Seq<Record>, r: Record, k: int, old_idx: Seq<KindKey>, idx: Seq<KindKey>)
    requires
        0 <= k <= s.len(),
        kind_index_of(s, old_idx),
        forall|a: int, b: int| 0 <= a < b < idx.len() ==> kind_before(#[trigger] idx[a], #[trigger] idx[b]),
        forall|x: KindKey| idx.contains(x) <==> (old_idx.contains(x) || x == r.keys.by_kind),
    ensures
        kind_index_of(s.insert(k, r), idx),
{
    reveal(kind_index_of);
    let t = s.insert(k, r);
    assert(t[k] == r);
    assert forall|i: int| 0 <= i < t.len() implies idx.contains((#[trigger] t[i]).keys.by_kind) by {
        if i < k {
            assert(t[i] == s[i]);
        } else if i > k {
            assert(t[i] == s[i - 1]);
        }
    }
    assert forall|j: int| 0 <= j < idx.len() implies in_kind_index(t, #[trigger] idx[j]) by {
        let x = idx[j];
        assert(idx.contains(x));
        if old_idx.contains(x) {
            let h = choose|h: int| 0 <= h < old_idx.len() && old_idx[h] == x;
            assert(in_kind_index(s, old_idx[h]));
            let i = choose|i: int| 0 <= i < s.len() && (#[trigger] s[i]).keys.by_kind == x;
            let at = if i < k { i } else { i + 1 };
            assert(t[at] == s[i]);
        } else {
            assert(t[k].keys.by_kind == x);
        }
    }
}

/// Takes the key of a deleted record out of the by-author index.
pub(crate) fn unindex_author(idx: &mut Vec<AuthorKey>, key: AuthorKey, Ghost(s): Ghost<Seq<Record>>, Ghost(p): Ghost<int>)
    requires
        valid(s),
        0 <= p < s.len(),
        key == s[p].keys.by_author,
        author_index_of(s, old(idx)@),
    ensures
        author_index_of(s.remove(p), final(idx)@),
{
    let ghost before = idx@;
    proof {
        reveal(author_index_of);
        assert(before.contains(s[p].keys.by_author));
    }
    let mut j: usize = 0;
    while j < idx.len() && !(idx[j].id.same(&key.id))
        invariant
            0 <= j <= idx@.len(),
            *idx == *old(idx),
            forall|h: int| 0 <= h < j ==> (#[trigger] idx@[h]).id != key.id,
        decreases idx@.len() - j,
    {
        j = j + 1;
    }
    proof {
        let w = choose|w: int| 0 <= w < before.len() && before[w] == key;
        if j >= before.len() {
            assert(before[w].id != key.id);
        }
        assert(in_author_index(s, before[j as int]));
        let i = choose|i: int| 0 <= i < s.len() && (#[trigger] s[i]).keys.by_author == before[j as int];
        assert(s[i].wf() && s[p].wf());
        if i < p {
            assert(s[i].id != s[p].id);
        } else if i > p {
            assert(s[p].id != s[i].id);
        }
        assert(before[j as int] == key);
    }
    idx.remove(j);
    proof {
        let after = idx@;
        let t = s.remove(p);
        assert forall|a: int, b: int| 0 <= a < b < after.len() implies author_before(
            #[trigger] after[a],
            #[trigger] after[b],
        ) by {
            let x = if a < j { a } else { a + 1 };
            let y = if b < j { b } else { b + 1 };
            assert(after[a] == before[x] && after[b] == before[y]);
        }
        assert forall|i: int| 0 <= i < t.len() implies after.contains((#[trigger] t[i]).keys.by_author) by {
            let from = if i < p { i } else { i + 1 };
            assert(t[i] == s[from]);
            assert(s[from].wf() && s[p].wf());
            if from < p {
                assert(s[from].id != s[p].id);
            } else {
                assert(s[p].id != s[from].id);
            }
            assert(before.contains(s[from].keys.by_author));
            let h = choose|h: int| 0 <= h < before.len() && before[h] == s[from].keys.by_author;
            let to = if h < j { h } else { h - 1 };
            assert(after[to] == before[h]);
        }
        assert forall|h: int| 0 <= h < after.len() implies in_author_index(t, #[trigger] after[h]) by {
            let from = if h < j { h } else { h + 1 };
            assert(after[h] == before[from]);
            if from < j {
                assert(author_before(before[from], before[j as int]));
            } else {
                assert(author_before(before[j as int], before[from]));
            }
            assert(in_author_index(s, before[from]));
            let i = choose|i: int| 0 <= i < s.len() && (#[trigger] s[i]).keys.by_author == before[from];
            let to = if i < p { i } else { i - 1 };
            assert(t[to] == s[i]);
        }
    }
}

/// Takes the key of a deleted record out of the by-kind index.
pub(crate) fn unindex_kind(idx: &mut Vec<KindKey>, key: KindKey, Ghost(s): Ghost<Seq<Record>>, Ghost(p): Ghost<int>)
    requires
        valid(s),
        0 <= p < s.len(),
        key == s[p].keys.by_kind,
        kind_index_of(s, old(idx)@),
    ensures
        kind_index_of(s.remove(p), final(idx)@),
{
    let ghost before = idx@;
    proof {
        reveal(kind_index_of);
        assert(before.contains(s[p].keys.by_kind));
    }
    let mut j: usize = 0;
    while j < idx.len() && !(idx[j].id.same(&key.id))
        invariant
            0 <= j <= idx@.len(),
            *idx == *old(idx),
            forall|h: int| 0 <= h < j ==> (#[trigger] idx@[h]).id != key.id,
        decreases idx@.len() - j,
    {
        j = j + 1;
    }
    proof {
        let w = choose|w: int| 0 <= w < before.len() && before[w] == key;
        if j >= before.len() {
            assert(before[w].id != key.id);
        }
        assert(in_kind_index(s, before[j as int]));
        let i = choose|i: int| 0 <= i < s.len() && (#[trigger] s[i]).keys.by_kind == before[j as int];
        assert(s[i].wf() && s[p].wf());
        if i < p {
            assert(s[i].id != s[p].id);
        } else if i > p {
            assert(s[p].id != s[i].id);
        }
        assert(before[j as int] == key);
    }
    idx.remove(j);
    proof {
        let after = idx@;
        let t = s.remove(p);
        assert forall|a: int, b: int| 0 <= a < b < after.len() implies kind_before(
            #[trigger] after[a],
            #[trigger] after[b],
        ) by {
            let x = if a < j { a } else { a + 1 };
            let y = if b < j { b } else { b + 1 };
            assert(after[a] == before[x] && after[b] == before[y]);
        }
        assert forall|i: int| 0 <= i < t.len() implies after.contains((#[trigger] t[i]).keys.by_kind) by {
            let from = if i < p { i } else { i + 1 };
            assert(t[i] == s[from]);
            assert(s[from].wf() && s[p].wf());
            if from < p {
                assert(s[from].id != s[p].id);
            } else {
                assert(s[p].id != s[from].id);
            }
            assert(before.contains(s[from].keys.by_kind));
            let h = choose|h: int| 0 <= h < before.len() && before[h] == s[from].keys.by_kind;
            let to = if h < j { h } else { h - 1 };
            assert(after[to] == before[h]);
        }
        assert forall|h: int| 0 <= h < after.len() implies in_kind_index(t, #[trigger] after[h]) by {
            let from = if h < j { h } else { h + 1 };
            assert(after[h] == before[from]);
            if from < j {
                assert(kind_before(before[from], before[j as int]));
            } else {
                assert(kind_before(before[j as int], before[from]));
            }
            assert(in_kind_index(s, before[from]));
            let i = choose|i: int| 0 <= i < s.len() && (#[trigger] s[i]).keys.by_kind == before[from];
            let to = if i < p { i } else { i - 1 };
            assert(t[to] == s[i]);
        }
    }
}

} // verus!
