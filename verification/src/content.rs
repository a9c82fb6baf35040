//! What a store holds, as a sequence of records in by-time order: the
//! effect of writing a record or a batch, and the laws of that effect.

use vstd::prelude::*;
use crate::event::Id;
use crate::index::{Record, TimeKey};

verus! {


/// Store order: newer first, and among equal times the smaller identifier
/// first.
pub open spec fn precedes(a: TimeKey, b: TimeKey) -> bool {
    a.created_at > b.created_at || (a.created_at == b.created_at && a.id.below(b.id))
}

/// Whether `a` comes strictly before `b` in store order.
pub fn key_precedes(a: &TimeKey, b: &TimeKey) -> (r: bool)
    ensures
        r == precedes(*a, *b),
{
    a.created_at > b.created_at || (a.created_at == b.created_at && a.id.is_below(&b.id))
}

/// Whether some record of `s` has this identifier.
pub open spec fn has_id(s: Seq<Record>, id: Id) -> bool {
    exists|i: int| 0 <= i < s.len() && (#[trigger] s[i]).id == id
}

/// The place of the record with this identifier, where there is one.
pub open spec fn position(s: Seq<Record>, id: Id) -> int {
    choose|i: int| 0 <= i < s.len() && (#[trigger] s[i]).id == id
}

/// What a store's content always satisfies: records stand in store order,
/// no identifier occurs twice, and every record's keys agree with it.
pub open spec fn valid(s: Seq<Record>) -> bool {
    &&& forall|i: int, j: int|
        0 <= i < j < s.len() ==> precedes((#[trigger] s[i]).keys.by_time, (#[trigger] s[j]).keys.by_time)
    &&& forall|i: int, j: int| 0 <= i < j < s.len() ==> (#[trigger] s[i]).id != (#[trigger] s[j]).id
    &&& forall|i: int| 0 <= i < s.len() ==> (#[trigger] s[i]).wf()
}

/// Where a record with this key goes: behind every record that precedes it.
pub open spec fn slot(s: Seq<Record>, key: TimeKey) -> int
    decreases s.len(),
{
    if s.len() == 0 {
        0
    } else if precedes(s.last().keys.by_time, key) {
        s.len() as int
    } else {
        slot(s.drop_last(), key)
    }
}

/// The content after one record is written: unchanged where its
/// identifier is already stored, else with the record at its slot.
pub open spec fn spec_put(s: Seq<Record>, r: Record) -> Seq<Record> {
    if has_id(s, r.id) {
        s
    } else {
        s.insert(slot(s, r.keys.by_time), r)
    }
}

/// The content after the first `n` records of a batch are written in order.
pub open spec fn spec_apply(s: Seq<Record>, batch: Seq<Record>, n: int) -> Seq<Record>
    decreases n,
{
    if n <= 0 {
        s
    } else {
        spec_put(spec_apply(s, batch, n - 1), batch[n - 1])
    }
}

/// Whether record `j` of the batch brings an identifier that neither the
/// store nor an earlier record of the batch holds.
pub open spec fn is_new(s: Seq<Record>, batch: Seq<Record>, j: int) -> bool {
    &&& !has_id(s, batch[j].id)
    &&& forall|i: int| 0 <= i < j ==> (#[trigger] batch[i]).id != batch[j].id
}

/// The bytes that the first `n` records of a batch add to the store: the
/// encoded length of each new record.
pub open spec fn batch_need(s: Seq<Record>, batch: Seq<Record>, n: int) -> nat
    decreases n,
{
    if n <= 0 {
        0
    } else if is_new(s, batch, n - 1) {
        batch_need(s, batch, n - 1) + batch[n - 1].bytes@.len()
    } else {
        batch_need(s, batch, n - 1)
    }
}

pub(crate) proof fn lemma_slot_bounds(s: Seq<Record>, key: TimeKey)
    ensures
        0 <= slot(s, key) <= s.len(),
    decreases s.len(),
{
    if s.len() > 0 && !precedes(s.last().keys.by_time, key) {
        lemma_slot_bounds(s.drop_last(), key);
    }
}

pub(crate) proof fn lemma_slot_is(s: Seq<Record>, key: TimeKey, k: int)
    requires
        0 <= k <= s.len(),
        forall|j: int| 0 <= j < k ==> precedes((#[trigger] s[j]).keys.by_time, key),
        forall|j: int| k <= j < s.len() ==> !precedes((#[trigger] s[j]).keys.by_time, key),
    ensures
        slot(s, key) == k,
    decreases s.len(),
{
    if s.len() > 0 {
        if precedes(s.last().keys.by_time, key) {
            if k < s.len() {
                let _ = s[s.len() - 1];
            }
        } else {
            if k == s.len() {
                let _ = s[s.len() - 1];
            }
            let t = s.drop_last();
            assert forall|j: int| 0 <= j < k implies precedes((#[trigger] t[j]).keys.by_time, key) by {
                let _ = s[j];
            }
            assert forall|j: int| k <= j < t.len() implies !precedes((#[trigger] t[j]).keys.by_time, key) by {
                let _ = s[j];
            }
            lemma_slot_is(t, key, k);
        }
    }
}

/// Writing a record adds its identifier to those stored, and no other.
pub proof fn lemma_put_ids(s: Seq<Record>, r: Record, id: Id)
    ensures
        has_id(spec_put(s, r), id) <==> (has_id(s, id) || r.id == id),
{
    if !has_id(s, r.id) {
        let k = slot(s, r.keys.by_time);
        lemma_slot_bounds(s, r.keys.by_time);
        let t = s.insert(k, r);
        if has_id(t, id) {
            let i = choose|i: int| 0 <= i < t.len() && (#[trigger] t[i]).id == id;
            if i < k {
                assert(s[i].id == id);
            } else if i > k {
                assert(s[i - 1].id == id);
            }
        }
        if has_id(s, id) {
            let i = choose|i: int| 0 <= i < s.len() && (#[trigger] s[i]).id == id;
            if i < k {
                assert(t[i].id == id);
            } else {
                assert(t[i + 1].id == id);
            }
        }
        if r.id == id {
            assert(t[k].id == id);
        }
    }
}

/// After the first `n` records of a batch are written, the identifiers
/// stored are those stored before and those of the `n` records.
pub proof fn lemma_apply_ids(s: Seq<Record>, batch: Seq<Record>, n: int, id: Id)
    requires
        0 <= n <= batch.len(),
    ensures
        has_id(spec_apply(s, batch, n), id) <==> (has_id(s, id) || exists|i: int|
            0 <= i < n && (#[trigger] batch[i]).id == id),
    decreases n,
{
    if n > 0 {
        lemma_apply_ids(s, batch, n - 1, id);
        lemma_put_ids(spec_apply(s, batch, n - 1), batch[n - 1], id);
        if batch[n - 1].id == id {
            assert(0 <= n - 1 < n && batch[n - 1].id == id);
        }
    }
}

pub(crate) proof fn lemma_need_monotonic(s: Seq<Record>, batch: Seq<Record>, m: int, n: int)
    requires
        0 <= m <= n,
    ensures
        batch_need(s, batch, m) <= batch_need(s, batch, n),
    decreases n,
{
    if m < n {
        lemma_need_monotonic(s, batch, m, n - 1);
    }
}

/// On valid content, the slot parts the records that precede the key from
/// those that do not.
proof fn lemma_slot_splits(s: Seq<Record>, key: TimeKey)
    requires
        valid(s),
    ensures
        0 <= slot(s, key) <= s.len(),
        forall|j: int| 0 <= j < slot(s, key) ==> precedes((#[trigger] s[j]).keys.by_time, key),
        forall|j: int| slot(s, key) <= j < s.len() ==> !precedes((#[trigger] s[j]).keys.by_time, key),
    decreases s.len(),
{
    if s.len() > 0 {
        let last = s[s.len() - 1];
        if precedes(last.keys.by_time, key) {
            assert forall|j: int| 0 <= j < s.len() implies precedes((#[trigger] s[j]).keys.by_time, key) by {
                if j < s.len() - 1 {
                    assert(precedes(s[j].keys.by_time, last.keys.by_time));
                }
            }
        } else {
            let t = s.drop_last();
            assert(valid(t)) by {
                assert forall|i: int, j: int| 0 <= i < j < t.len() implies precedes(
                    (#[trigger] t[i]).keys.by_time,
                    (#[trigger] t[j]).keys.by_time,
                ) by {
                    assert(t[i] == s[i] && t[j] == s[j]);
                }
                assert forall|i: int, j: int| 0 <= i < j < t.len() implies (#[trigger] t[i]).id != (#[trigger] t[j]).id by {
                    assert(t[i] == s[i] && t[j] == s[j]);
                }
                assert forall|i: int| 0 <= i < t.len() implies (#[trigger] t[i]).wf() by {
                    assert(t[i] == s[i]);
                }
            }
            lemma_slot_splits(t, key);
            assert forall|j: int| 0 <= j < slot(s, key) implies precedes((#[trigger] s[j]).keys.by_time, key) by {
                assert(s[j] == t[j]);
            }
            assert forall|j: int| slot(s, key) <= j < s.len() implies !precedes(
                (#[trigger] s[j]).keys.by_time,
                key,
            ) by {
                if j < t.len() {
                    assert(s[j] == t[j]);
                }
            }
        }
    }
}

/// Writing a record with consistent keys keeps the content valid.
pub proof fn lemma_put_valid(s: Seq<Record>, r: Record)
    requires
        valid(s),
        r.wf(),
    ensures
        valid(spec_put(s, r)),
{
    if !has_id(s, r.id) {
        let k = slot(s, r.keys.by_time);
        lemma_slot_splits(s, r.keys.by_time);
        let t = s.insert(k, r);
        assert forall|i: int| 0 <= i < t.len() implies (#[trigger] t[i]).wf() by {
            if i < k {
                assert(t[i] == s[i]);
            } else if i > k {
                assert(t[i] == s[i - 1]);
            }
        }
        assert forall|i: int, j: int| 0 <= i < j < t.len() implies (#[trigger] t[i]).id != (#[trigger] t[j]).id by {
            let a = if i < k { s[i] } else if i > k { s[i - 1] } else { r };
            let b = if j < k { s[j] } else if j > k { s[j - 1] } else { r };
            assert(t[i] == a && t[j] == b);
        }
        assert forall|i: int, j: int| 0 <= i < j < t.len() implies precedes(
            (#[trigger] t[i]).keys.by_time,
            (#[trigger] t[j]).keys.by_time,
        ) by {
            let a = if i < k { s[i] } else if i > k { s[i - 1] } else { r };
            let b = if j < k { s[j] } else if j > k { s[j - 1] } else { r };
            assert(t[i] == a && t[j] == b);
            if k < s.len() {
                let c = s[k];
                assert(c.wf() && c.id != r.id);
                assert(precedes(r.keys.by_time, c.keys.by_time));
            }
        }
    }
}

/// Writing a batch of records with consistent keys keeps the content
/// valid.
pub proof fn lemma_apply_valid(s: Seq<Record>, batch: Seq<Record>, n: int)
    requires
        valid(s),
        0 <= n <= batch.len(),
        forall|i: int| 0 <= i < batch.len() ==> (#[trigger] batch[i]).wf(),
    ensures
        valid(spec_apply(s, batch, n)),
    decreases n,
{
    if n > 0 {
        lemma_apply_valid(s, batch, n - 1);
        lemma_put_valid(spec_apply(s, batch, n - 1), batch[n - 1]);
    }
}

/// A record that was written is found again under its identifier: the
/// record itself where the identifier was new, the record stored before
/// where it was not.
pub proof fn lemma_put_then_get(s: Seq<Record>, r: Record)
    requires
        valid(s),
        r.wf(),
    ensures
        has_id(spec_put(s, r), r.id),
        !has_id(s, r.id) ==> spec_put(s, r)[position(spec_put(s, r), r.id)] == r,
        has_id(s, r.id) ==> spec_put(s, r)[position(spec_put(s, r), r.id)] == s[position(s, r.id)],
{
    lemma_put_ids(s, r, r.id);
    lemma_put_valid(s, r);
    if !has_id(s, r.id) {
        let t = spec_put(s, r);
        let k = slot(s, r.keys.by_time);
        lemma_slot_bounds(s, r.keys.by_time);
        let p = position(t, r.id);
        assert(t[k] == r);
        if p < k {
            assert(t[p].id != t[k].id);
        } else if p > k {
            assert(t[k].id != t[p].id);
        }
    }
}

/// A stored record is never replaced: whatever is written later, the
/// record found under a stored identifier stays the one that was there.
pub proof fn lemma_put_keeps(s: Seq<Record>, r: Record, id: Id)
    requires
        valid(s),
        r.wf(),
        has_id(s, id),
    ensures
        has_id(spec_put(s, r), id),
        spec_put(s, r)[position(spec_put(s, r), id)] == s[position(s, id)],
{
    lemma_put_ids(s, r, id);
    lemma_put_valid(s, r);
    if !has_id(s, r.id) {
        let t = spec_put(s, r);
        let k = slot(s, r.keys.by_time);
        lemma_slot_bounds(s, r.keys.by_time);
        let p = position(s, id);
        let q = position(t, id);
        let at = if p < k { p } else { p + 1 };
        assert(t[at] == s[p]);
        if q < at {
            assert(t[q].id != t[at].id);
        } else if q > at {
            assert(t[at].id != t[q].id);
        }
    }
}

/// Writing a batch replaces no stored record.
pub proof fn lemma_apply_keeps(s: Seq<Record>, batch: Seq<Record>, n: int, id: Id)
    requires
        valid(s),
        0 <= n <= batch.len(),
        forall|i: int| 0 <= i < batch.len() ==> (#[trigger] batch[i]).wf(),
        has_id(s, id),
    ensures
        has_id(spec_apply(s, batch, n), id),
        spec_apply(s, batch, n)[position(spec_apply(s, batch, n), id)] == s[position(s, id)],
    decreases n,
{
    if n > 0 {
        lemma_apply_keeps(s, batch, n - 1, id);
        lemma_apply_valid(s, batch, n - 1);
        lemma_put_keeps(spec_apply(s, batch, n - 1), batch[n - 1], id);
    }
}

/// How many of the first `n` records of a batch bring a new identifier.
pub open spec fn batch_new(s: Seq<Record>, batch: Seq<Record>, n: int) -> nat
    decreases n,
{
    if n <= 0 {
        0
    } else if is_new(s, batch, n - 1) {
        batch_new(s, batch, n - 1) + 1
    } else {
        batch_new(s, batch, n - 1)
    }
}

/// Writing a batch adds one record for each new identifier: none is
/// lost and none is written twice.
pub proof fn lemma_apply_len(s: Seq<Record>, batch: Seq<Record>, n: int)
    requires
        0 <= n <= batch.len(),
    ensures
        spec_apply(s, batch, n).len() == s.len() + batch_new(s, batch, n),
    decreases n,
{
    if n > 0 {
        lemma_apply_len(s, batch, n - 1);
        let t = spec_apply(s, batch, n - 1);
        let r = batch[n - 1];
        lemma_apply_ids(s, batch, n - 1, r.id);
        lemma_slot_bounds(t, r.keys.by_time);
    }
}

/// The bytes that the records hold: the sum of their encoded lengths.
pub open spec fn total_bytes(s: Seq<Record>) -> nat
    decreases s.len(),
{
    if s.len() == 0 {
        0
    } else {
        total_bytes(s.drop_last()) + s.last().bytes@.len()
    }
}

proof fn lemma_total_insert(s: Seq<Record>, k: int, r: Record)
    requires
        0 <= k <= s.len(),
    ensures
        total_bytes(s.insert(k, r)) == total_bytes(s) + r.bytes@.len(),
    decreases s.len(),
{
    let t = s.insert(k, r);
    if k == s.len() {
        assert(t.drop_last() =~= s);
        assert(t.last() == r);
    } else {
        assert(t.drop_last() =~= s.drop_last().insert(k, r));
        assert(t.last() == s.last());
        lemma_total_insert(s.drop_last(), k, r);
    }
}

/// Writing a record adds its encoded length to the bytes held where its
/// identifier is new, and nothing where it is not.
pub proof fn lemma_put_total(s: Seq<Record>, r: Record)
    ensures
        has_id(s, r.id) ==> total_bytes(spec_put(s, r)) == total_bytes(s),
        !has_id(s, r.id) ==> total_bytes(spec_put(s, r)) == total_bytes(s) + r.bytes@.len(),
{
    if !has_id(s, r.id) {
        lemma_slot_bounds(s, r.keys.by_time);
        lemma_total_insert(s, slot(s, r.keys.by_time), r);
    }
}

/// Writing a batch adds to the bytes held exactly what the batch needs.
pub proof fn lemma_apply_total(s: Seq<Record>, batch: Seq<Record>, n: int)
    requires
        0 <= n <= batch.len(),
    ensures
        total_bytes(spec_apply(s, batch, n)) == total_bytes(s) + batch_need(s, batch, n),
    decreases n,
{
    if n > 0 {
        lemma_apply_total(s, batch, n - 1);
        lemma_apply_ids(s, batch, n - 1, batch[n - 1].id);
        lemma_put_total(spec_apply(s, batch, n - 1), batch[n - 1]);
    }
}

/// The content after the record with this identifier is deleted:
/// unchanged where no record has it.
pub open spec fn spec_delete(s: Seq<Record>, id: Id) -> Seq<Record> {
    if has_id(s, id) {
        s.remove(position(s, id))
    } else {
        s
    }
}

pub(crate) proof fn lemma_remove_valid(s: Seq<Record>, p: int)
    requires
        valid(s),
        0 <= p < s.len(),
    ensures
        valid(s.remove(p)),
{
    let t = s.remove(p);
    assert forall|i: int| 0 <= i < t.len() implies (#[trigger] t[i]).wf() by {
        let from = if i < p { i } else { i + 1 };
        assert(t[i] == s[from]);
    }
    assert forall|i: int, j: int| 0 <= i < j < t.len() implies (#[trigger] t[i]).id != (#[trigger] t[j]).id by {
        let a = if i < p { i } else { i + 1 };
        let b = if j < p { j } else { j + 1 };
        assert(t[i] == s[a] && t[j] == s[b]);
    }
    assert forall|i: int, j: int| 0 <= i < j < t.len() implies precedes(
        (#[trigger] t[i]).keys.by_time,
        (#[trigger] t[j]).keys.by_time,
    ) by {
        let a = if i < p { i } else { i + 1 };
        let b = if j < p { j } else { j + 1 };
        assert(t[i] == s[a] && t[j] == s[b]);
    }
}

pub(crate) proof fn lemma_total_remove(s: Seq<Record>, p: int)
    requires
        0 <= p < s.len(),
    ensures
        total_bytes(s.remove(p)) + s[p].bytes@.len() == total_bytes(s),
    decreases s.len(),
{
    let t = s.remove(p);
    if p == s.len() - 1 {
        assert(t =~= s.drop_last());
    } else {
        assert(t.drop_last() =~= s.drop_last().remove(p));
        assert(t.last() == s.last());
        lemma_total_remove(s.drop_last(), p);
    }
}

/// Deleting keeps the content valid, takes the identifier out and leaves
/// every other identifier where it was.
pub proof fn lemma_delete_ids(s: Seq<Record>, id: Id, other: Id)
    requires
        valid(s),
    ensures
        valid(spec_delete(s, id)),
        !has_id(spec_delete(s, id), id),
        other != id ==> (has_id(spec_delete(s, id), other) <==> has_id(s, other)),
{
    if has_id(s, id) {
        let p = position(s, id);
        let t = s.remove(p);
        lemma_remove_valid(s, p);
        if has_id(t, id) {
            let i = choose|i: int| 0 <= i < t.len() && (#[trigger] t[i]).id == id;
            let from = if i < p { i } else { i + 1 };
            assert(t[i] == s[from]);
            if from < p {
                assert(s[from].id != s[p].id);
            } else {
                assert(s[p].id != s[from].id);
            }
        }
        if has_id(t, other) {
            let i = choose|i: int| 0 <= i < t.len() && (#[trigger] t[i]).id == other;
            let from = if i < p { i } else { i + 1 };
            assert(t[i] == s[from]);
            assert(s[from].id == other);
        }
        if other != id && has_id(s, other) {
            let i = choose|i: int| 0 <= i < s.len() && (#[trigger] s[i]).id == other;
            let to = if i < p { i } else { i - 1 };
            assert(t[to] == s[i]);
            assert(t[to].id == other);
        }
    }
}

/// Writing the first `n` records of valid content, in their order, into an
/// empty store gives those records back as they stood.
pub proof fn lemma_rewrite_prefix(s: Seq<Record>, n: int)
    requires
        valid(s),
        0 <= n <= s.len(),
    ensures
        spec_apply(Seq::<Record>::empty(), s, n) == s.subrange(0, n),
    decreases n,
{
    if n <= 0 {
        assert(s.subrange(0, 0) =~= Seq::<Record>::empty());
    } else {
        lemma_rewrite_prefix(s, n - 1);
        let t = s.subrange(0, n - 1);
        let r = s[n - 1];
        if has_id(t, r.id) {
            let i = choose|i: int| 0 <= i < t.len() && (#[trigger] t[i]).id == r.id;
            assert(t[i] == s[i]);
            assert(s[i].id != s[n - 1].id);
        }
        assert forall|j: int| 0 <= j < t.len() implies precedes((#[trigger] t[j]).keys.by_time, r.keys.by_time) by {
            assert(t[j] == s[j]);
            assert(precedes(s[j].keys.by_time, s[n - 1].keys.by_time));
        }
        lemma_slot_is(t, r.keys.by_time, t.len() as int);
        assert(t.insert(t.len() as int, r) =~= s.subrange(0, n));
    }
}

/// What was committed is what a later opening reads: writing all of a
/// valid content into an empty store restores it, record for record.
pub proof fn lemma_reopen_restores(s: Seq<Record>)
    requires
        valid(s),
    ensures
        spec_apply(Seq::<Record>::empty(), s, s.len() as int) == s,
{
    lemma_rewrite_prefix(s, s.len() as int);
    assert(s.subrange(0, s.len() as int) =~= s);
}

/// What writing the first `n` records of a batch gives depends on those
/// `n` records alone.
pub proof fn lemma_apply_prefix(s: Seq<Record>, x: Seq<Record>, y: Seq<Record>, n: int)
    requires
        0 <= n <= x.len(),
        n <= y.len(),
        forall|i: int| 0 <= i < n ==> x[i] == y[i],
    ensures
        spec_apply(s, x, n) == spec_apply(s, y, n),
    decreases n,
{
    if n > 0 {
        lemma_apply_prefix(s, x, y, n - 1);
    }
}

proof fn lemma_apply_joined(s: Seq<Record>, a: Seq<Record>, b: Seq<Record>, m: int)
    requires
        0 <= m <= b.len(),
    ensures
        spec_apply(s, a + b, a.len() + m) == spec_apply(spec_apply(s, a, a.len() as int), b, m),
    decreases m,
{
    if m == 0 {
        lemma_apply_prefix(s, a + b, a, a.len() as int);
    } else {
        lemma_apply_joined(s, a, b, m - 1);
        assert((a + b)[a.len() + m - 1] == b[m - 1]);
    }
}

/// However records are split into batches, committing the batches one
/// after the other gives what committing them as one batch gives.
pub proof fn lemma_apply_concat(s: Seq<Record>, a: Seq<Record>, b: Seq<Record>)
    ensures
        spec_apply(spec_apply(s, a, a.len() as int), b, b.len() as int) == spec_apply(
            s,
            a + b,
            (a + b).len() as int,
        ),
{
    lemma_apply_joined(s, a, b, b.len() as int);
}

/// Whether the records have pairwise different identifiers.
pub open spec fn distinct_ids(batch: Seq<Record>) -> bool {
    forall|i: int, j: int| 0 <= i < j < batch.len() ==> (#[trigger] batch[i]).id != (#[trigger] batch[j]).id
}

/// Records with pairwise different identifiers, none of them stored yet,
/// each add one record, in whatever order they come: none is lost and
/// none is stored twice.
pub proof fn lemma_distinct_all_stored(s: Seq<Record>, batch: Seq<Record>, n: int)
    requires
        0 <= n <= batch.len(),
        distinct_ids(batch),
        forall|i: int| 0 <= i < batch.len() ==> !has_id(s, (#[trigger] batch[i]).id),
    ensures
        batch_new(s, batch, n) == n,
        spec_apply(s, batch, n).len() == s.len() + n,
        forall|i: int| 0 <= i < n ==> has_id(spec_apply(s, batch, n), (#[trigger] batch[i]).id),
    decreases n,
{
    lemma_apply_len(s, batch, n);
    if n > 0 {
        lemma_distinct_all_stored(s, batch, n - 1);
        assert(is_new(s, batch, n - 1));
    }
    assert forall|i: int| 0 <= i < n implies has_id(spec_apply(s, batch, n), (#[trigger] batch[i]).id) by {
        lemma_apply_ids(s, batch, n, batch[i].id);
    }
}

/// Whether no record is of this kind.
pub open spec fn kind_absent(s: Seq<Record>, kind: u32) -> bool {
    forall|i: int| 0 <= i < s.len() ==> (#[trigger] s[i]).keys.by_kind.kind != kind
}

/// Where no stored record and no written record is of a kind, none is
/// afterwards.
pub proof fn lemma_apply_keeps_kind_out(s: Seq<Record>, batch: Seq<Record>, n: int, kind: u32)
    requires
        0 <= n <= batch.len(),
        kind_absent(s, kind),
        forall|i: int| 0 <= i < n ==> (#[trigger] batch[i]).keys.by_kind.kind != kind,
    ensures
        kind_absent(spec_apply(s, batch, n), kind),
    decreases n,
{
    if n > 0 {
        lemma_apply_keeps_kind_out(s, batch, n - 1, kind);
        let t = spec_apply(s, batch, n - 1);
        let r = batch[n - 1];
        if !has_id(t, r.id) {
            let k = slot(t, r.keys.by_time);
            lemma_slot_bounds(t, r.keys.by_time);
            let u = t.insert(k, r);
            assert forall|i: int| 0 <= i < u.len() implies (#[trigger] u[i]).keys.by_kind.kind != kind by {
                if i < k {
                    assert(u[i] == t[i]);
                } else if i > k {
                    assert(u[i] == t[i - 1]);
                }
            }
        }
    }
}

/// Writing a record a second time changes nothing.
pub proof fn lemma_put_idempotent(s: Seq<Record>, r: Record)
    ensures
        spec_put(spec_put(s, r), r) == spec_put(s, r),
{
    lemma_put_ids(s, r, r.id);
}

/// Once the first `n` records of a batch are written, writing any of its
/// first `m <= n` records again changes nothing and needs no room.
pub proof fn lemma_apply_absorbs(s: Seq<Record>, batch: Seq<Record>, n: int, m: int)
    requires
        0 <= m <= n <= batch.len(),
    ensures
        spec_apply(spec_apply(s, batch, n), batch, m) == spec_apply(s, batch, n),
        batch_need(spec_apply(s, batch, n), batch, m) == 0,
    decreases m,
{
    if m > 0 {
        lemma_apply_absorbs(s, batch, n, m - 1);
        lemma_apply_ids(s, batch, n, batch[m - 1].id);
        assert(0 <= m - 1 < n && batch[m - 1].id == batch[m - 1].id);
    }
}

/// Writing a whole batch a second time leaves the content as the first
/// write left it, and needs no room.
pub proof fn lemma_commit_idempotent(s: Seq<Record>, batch: Seq<Record>)
    ensures
        spec_apply(spec_apply(s, batch, batch.len() as int), batch, batch.len() as int) == spec_apply(
            s,
            batch,
            batch.len() as int,
        ),
        batch_need(spec_apply(s, batch, batch.len() as int), batch, batch.len() as int) == 0,
{
    lemma_apply_absorbs(s, batch, batch.len() as int, batch.len() as int);
}

} // verus!
