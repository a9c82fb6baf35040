//! The by-tag index: ordered by tag name, tag value, newest first and
//! identifier, with one entry for each distinct tag key of the records.

use vstd::prelude::*;
use vstd::string::StringSliceAdditionalSpecFns;
use vstd::utf8::{encode_utf8, encode_utf8_decode_utf8};
use crate::content::{has_id, key_precedes, precedes, valid};
use crate::event::Id;
use crate::index::{Record, TagKey, TimeKey};

verus! {

/// What a tag key says: name, value, creation time and identifier.
pub open spec fn tag_view(k: TagKey) -> (Seq<char>, Seq<char>, u64, Id) {
    (k.name@, k.value@, k.created_at, k.id)
}

/// Whether `a` and `b` agree on their first `i` bytes.
pub open spec fn agree(a: Seq<u8>, b: Seq<u8>, i: int) -> bool {
    &&& 0 <= i <= a.len()
    &&& i <= b.len()
    &&& forall|j: int| 0 <= j < i ==> a[j] == b[j]
}

/// Whether `a` and `b` agree up to place `i`, where `a` ends or has the
/// smaller byte.
pub open spec fn below_at(a: Seq<u8>, b: Seq<u8>, i: int) -> bool {
    agree(a, b, i) && ((i == a.len() && i < b.len()) || (i < a.len() && i < b.len() && a[i] < b[i]))
}

/// Byte strings in dictionary order.
pub open spec fn bytes_below(a: Seq<u8>, b: Seq<u8>) -> bool {
    exists|i: int| below_at(a, b, i)
}

/// Texts in the dictionary order of their UTF-8 bytes.
pub open spec fn text_below(x: Seq<char>, y: Seq<char>) -> bool {
    bytes_below(encode_utf8(x), encode_utf8(y))
}

/// Order of the by-tag index: by tag name, then tag value, then newest
/// first, then by identifier.
pub open spec fn tag_before(a: TagKey, b: TagKey) -> bool {
    text_below(a.name@, b.name@) || (a.name@ == b.name@ && (text_below(a.value@, b.value@) || (a.value@
        == b.value@ && precedes(
        TimeKey { created_at: a.created_at, id: a.id },
        TimeKey { created_at: b.created_at, id: b.id },
    ))))
}

/// Whether the keys are in strict index order.
pub open spec fn tags_sorted(idx: Seq<TagKey>) -> bool {
    forall|a: int, b: int| 0 <= a < b < idx.len() ==> tag_before(#[trigger] idx[a], #[trigger] idx[b])
}

/// Whether one of the keys says `v`.
pub open spec fn has_tag(idx: Seq<TagKey>, v: (Seq<char>, Seq<char>, u64, Id)) -> bool {
    exists|h: int| 0 <= h < idx.len() && tag_view(#[trigger] idx[h]) == v
}

/// Whether some record has a tag key that says `v`.
pub open spec fn in_tag_index(s: Seq<Record>, v: (Seq<char>, Seq<char>, u64, Id)) -> bool {
    exists|i: int| 0 <= i < s.len() && has_tag((#[trigger] s[i]).keys.by_tag@, v)
}

/// Whether the index says what every tag key of the record says.
pub open spec fn covers(idx: Seq<TagKey>, r: Record) -> bool {
    forall|j: int| 0 <= j < r.keys.by_tag@.len() ==> has_tag(idx, tag_view(#[trigger] r.keys.by_tag@[j]))
}

/// Whether `idx` is the by-tag index of the records `s`: in strict index
/// order, so that nothing is said twice, saying what every tag key of
/// every record says and nothing else.
#[verifier::opaque]
pub open spec fn tag_index_of(s: Seq<Record>, idx: Seq<TagKey>) -> bool {
    &&& tags_sorted(idx)
    &&& forall|i: int| 0 <= i < s.len() ==> covers(idx, #[trigger] s[i])
    &&& forall|h: int| 0 <= h < idx.len() ==> in_tag_index(s, tag_view(#[trigger] idx[h]))
}

/// Dictionary order is transitive.
pub proof fn lemma_bytes_below_transitive(a: Seq<u8>, b: Seq<u8>, c: Seq<u8>)
    requires
        bytes_below(a, b),
        bytes_below(b, c),
    ensures
        bytes_below(a, c),
{
    let i = choose|i: int| below_at(a, b, i);
    let j = choose|j: int| below_at(b, c, j);
    let m = if i <= j { i } else { j };
    assert(below_at(a, c, m));
}

/// No byte string is below itself.
pub proof fn lemma_bytes_below_irreflexive(a: Seq<u8>)
    ensures
        !bytes_below(a, a),
{
    if bytes_below(a, a) {
        let i = choose|i: int| below_at(a, a, i);
        assert(false);
    }
}

/// The index order is transitive, and no key is before one that says the
/// same: a sorted index says nothing twice.
pub proof fn lemma_tag_before_order(a: TagKey, b: TagKey, c: TagKey)
    ensures
        tag_before(a, b) && tag_before(b, c) ==> tag_before(a, c),
        tag_view(a) == tag_view(b) ==> !tag_before(a, b),
{
    if tag_before(a, b) && tag_before(b, c) {
        if text_below(a.name@, b.name@) && text_below(b.name@, c.name@) {
            lemma_bytes_below_transitive(encode_utf8(a.name@), encode_utf8(b.name@), encode_utf8(c.name@));
        }
        if text_below(a.value@, b.value@) && text_below(b.value@, c.value@) {
            lemma_bytes_below_transitive(encode_utf8(a.value@), encode_utf8(b.value@), encode_utf8(c.value@));
        }
    }
    lemma_bytes_below_irreflexive(encode_utf8(a.name@));
    lemma_bytes_below_irreflexive(encode_utf8(a.value@));
}

pub(crate) proof fn lemma_tag_key_has_record(s: Seq<Record>, v: (Seq<char>, Seq<char>, u64, Id))
    requires
        valid(s),
        in_tag_index(s, v),
    ensures
        has_id(s, v.3),
{
    let i = choose|i: int| 0 <= i < s.len() && has_tag((#[trigger] s[i]).keys.by_tag@, v);
    let tags = s[i].keys.by_tag@;
    let j = choose|j: int| 0 <= j < tags.len() && tag_view(#[trigger] tags[j]) == v;
    assert(s[i].wf() && tags[j].id == s[i].id);
}

/// Ranks two texts in the dictionary order of their UTF-8 bytes: 0 where
/// the first is below the second, 1 where they are the same text, 2
/// where the second is below the first.
pub fn text_rank(a: &String, b: &String) -> (r: u8)
    ensures
        r <= 2,
        r == 0 ==> text_below(a@, b@),
        r == 1 ==> a@ == b@,
        r == 2 ==> text_below(b@, a@),
{
    let x = a.as_str().as_bytes();
    let y = b.as_str().as_bytes();
    assert(x@ == encode_utf8(a@));
    assert(y@ == encode_utf8(b@));
    let mut i: usize = 0;
    while i < x.len() && i < y.len()
        invariant
            x@ == encode_utf8(a@),
            y@ == encode_utf8(b@),
            agree(x@, y@, i as int),
        decreases x@.len() - i,
    {
        if x[i] < y[i] {
            assert(below_at(x@, y@, i as int));
            return 0;
        }
        if x[i] > y[i] {
            assert(below_at(y@, x@, i as int));
            return 2;
        }
        i = i + 1;
    }
    if x.len() < y.len() {
        assert(below_at(x@, y@, i as int));
        0
    } else if x.len() > y.len() {
        assert(below_at(y@, x@, i as int));
        2
    } else {
        proof {
            assert(x@ =~= y@);
            encode_utf8_decode_utf8(a@);
            encode_utf8_decode_utf8(b@);
        }
        1
    }
}

/// Ranks two tag keys in index order: 0 where the first is before the
/// second, 1 where they say the same, 2 where the second is before the
/// first.
pub fn tag_rank(a: &TagKey, b: &TagKey) -> (r: u8)
    ensures
        r <= 2,
        r == 0 ==> tag_before(*a, *b),
        r == 1 ==> tag_view(*a) == tag_view(*b),
        r == 2 ==> tag_before(*b, *a),
{
    let by_name = text_rank(&a.name, &b.name);
    if by_name != 1 {
        return by_name;
    }
    let by_value = text_rank(&a.value, &b.value);
    if by_value != 1 {
        return by_value;
    }
    let ta = TimeKey { created_at: a.created_at, id: a.id };
    let tb = TimeKey { created_at: b.created_at, id: b.id };
    if key_precedes(&ta, &tb) {
        0
    } else if key_precedes(&tb, &ta) {
        2
    } else {
        1
    }
}

/// Places a tag key at its place in index order, unless the index says
/// the same already.
fn place_tag(idx: &mut Vec<TagKey>, key: TagKey)
    requires
        tags_sorted(old(idx)@),
    ensures
        tags_sorted(final(idx)@),
        forall|v: (Seq<char>, Seq<char>, u64, Id)|
            #[trigger] has_tag(final(idx)@, v) <==> (has_tag(old(idx)@, v) || v == tag_view(key)),
{
    let ghost before = idx@;
    let mut k: usize = 0;
    let mut rank: u8 = 0;
    let mut looking: bool = true;
    while looking && k < idx.len()
        invariant
            0 <= k <= idx@.len(),
            *idx == *old(idx),
            forall|j: int| 0 <= j < k ==> tag_before(#[trigger] idx@[j], key),
            !looking ==> k < idx@.len() && 1 <= rank <= 2,
            !looking && rank == 1 ==> tag_view(idx@[k as int]) == tag_view(key),
            !looking && rank == 2 ==> tag_before(key, idx@[k as int]),
        decreases idx@.len() - k + (if looking { 1int } else { 0int }),
    {
        rank = tag_rank(&idx[k], &key);
        if rank == 0 {
            k = k + 1;
        } else {
            looking = false;
        }
    }
    if !looking && rank == 1 {
        proof {
            assert(has_tag(before, tag_view(key)));
        }
        return ;
    }
    idx.insert(k, key);
    proof {
        let after = idx@;
        assert forall|a: int, b: int| 0 <= a < b < after.len() implies tag_before(
            #[trigger] after[a],
            #[trigger] after[b],
        ) by {
            let x = if a < k { before[a] } else if a > k { before[a - 1] } else { key };
            let y = if b < k { before[b] } else if b > k { before[b - 1] } else { key };
            assert(after[a] == x && after[b] == y);
            if a == k && b > k + 1 {
                assert(tag_before(before[k as int], before[b - 1]));
                lemma_tag_before_order(key, before[k as int], before[b - 1]);
            }
        }
        assert forall|v: (Seq<char>, Seq<char>, u64, Id)| #[trigger]
            has_tag(after, v) <==> (has_tag(before, v) || v == tag_view(key)) by {
            if has_tag(after, v) {
                let i = choose|i: int| 0 <= i < after.len() && tag_view(#[trigger] after[i]) == v;
                if i < k {
                    assert(before[i] == after[i]);
                } else if i > k {
                    assert(before[i - 1] == after[i]);
                }
            }
            if has_tag(before, v) {
                let i = choose|i: int| 0 <= i < before.len() && tag_view(#[trigger] before[i]) == v;
                if i < k {
                    assert(after[i] == before[i]);
                } else {
                    assert(after[i + 1] == before[i]);
                }
            }
            if v == tag_view(key) {
                assert(after[k as int] == key);
            }
        }
    }
}

proof fn lemma_tag_index_put(s: Seq<Record>, r: Record, k: int, old_idx: Seq<TagKey>, idx: Seq<TagKey>)
    requires
        0 <= k <= s.len(),
        tag_index_of(s, old_idx),
        tags_sorted(idx),
        forall|v: (Seq<char>, Seq<char>, u64, Id)|
            #[trigger] has_tag(idx, v) <==> (has_tag(old_idx, v) || has_tag(r.keys.by_tag@, v)),
    ensures
        tag_index_of(s.insert(k, r), idx),
{
    reveal(tag_index_of);
    let t = s.insert(k, r);
    assert(t[k] == r);
    assert forall|i: int| 0 <= i < t.len() implies covers(idx, #[trigger] t[i]) by {
        assert forall|j: int| 0 <= j < t[i].keys.by_tag@.len() implies has_tag(
            idx,
            tag_view(#[trigger] t[i].keys.by_tag@[j]),
        ) by {
            let v = tag_view(t[i].keys.by_tag@[j]);
            if i == k {
                assert(has_tag(r.keys.by_tag@, v));
            } else {
                let from = if i < k { i } else { i - 1 };
                assert(t[i] == s[from]);
                assert(covers(old_idx, s[from]));
                assert(has_tag(old_idx, v));
            }
            assert(has_tag(idx, v));
        }
    }
    assert forall|h: int| 0 <= h < idx.len() implies in_tag_index(t, tag_view(#[trigger] idx[h])) by {
        let v = tag_view(idx[h]);
        assert(has_tag(idx, v));
        if has_tag(old_idx, v) {
            let w = choose|w: int| 0 <= w < old_idx.len() && tag_view(#[trigger] old_idx[w]) == v;
            assert(in_tag_index(s, tag_view(old_idx[w])));
            let i = choose|i: int| 0 <= i < s.len() && has_tag((#[trigger] s[i]).keys.by_tag@, v);
            let to = if i < k { i } else { i + 1 };
            assert(t[to] == s[i]);
        } else {
            assert(has_tag(t[k].keys.by_tag@, v));
        }
    }
}

/// Places the tag keys of a new record into the by-tag index.
pub(crate) fn index_tags(idx: &mut Vec<TagKey>, r: &Record, Ghost(s): Ghost<Seq<Record>>, Ghost(at): Ghost<int>)
    requires
        0 <= at <= s.len(),
        tag_index_of(s, old(idx)@),
    ensures
        tag_index_of(s.insert(at, *r), final(idx)@),
{
    let ghost before = idx@;
    let ghost keys = r.keys.by_tag@;
    proof {
        reveal(tag_index_of);
    }
    let mut g: usize = 0;
    while g < r.keys.by_tag.len()
        invariant
            0 <= g <= keys.len(),
            keys == r.keys.by_tag@,
            tags_sorted(idx@),
            forall|v: (Seq<char>, Seq<char>, u64, Id)|
                #[trigger] has_tag(idx@, v) <==> (has_tag(before, v) || has_tag(keys.subrange(0, g as int), v)),
        decreases keys.len() - g,
    {
        let key = &r.keys.by_tag[g];
        let copy = TagKey { name: key.name.clone(), value: key.value.clone(), created_at: key.created_at, id: key.id };
        assert(copy == *key);
        let ghost held = idx@;
        place_tag(idx, copy);
        proof {
            let done = keys.subrange(0, g as int);
            let more = keys.subrange(0, g + 1);
            assert forall|v: (Seq<char>, Seq<char>, u64, Id)| #[trigger]
                has_tag(idx@, v) <==> (has_tag(before, v) || has_tag(more, v)) by {
                if has_tag(done, v) {
                    let h = choose|h: int| 0 <= h < done.len() && tag_view(#[trigger] done[h]) == v;
                    assert(more[h] == done[h]);
                }
                if v == tag_view(copy) {
                    assert(more[g as int] == keys[g as int]);
                }
                if has_tag(more, v) {
                    let h = choose|h: int| 0 <= h < more.len() && tag_view(#[trigger] more[h]) == v;
                    if h < g {
                        assert(done[h] == more[h]);
                    }
                }
                assert(has_tag(idx@, v) <==> (has_tag(held, v) || v == tag_view(copy)));
            }
        }
        g = g + 1;
    }
    proof {
        assert(keys.subrange(0, keys.len() as int) =~= keys);
        lemma_tag_index_put(s, *r, at, before, idx@);
    }
}

/// Takes every key of a deleted record out of the by-tag index.
pub(crate) fn unindex_tags(idx: &mut Vec<TagKey>, id: &Id, Ghost(s): Ghost<Seq<Record>>, Ghost(p): Ghost<int>)
    requires
        valid(s),
        0 <= p < s.len(),
        *id == s[p].id,
        tag_index_of(s, old(idx)@),
    ensures
        tag_index_of(s.remove(p), final(idx)@),
{
    let ghost before = idx@;
    proof {
        reveal(tag_index_of);
    }
    let mut j: usize = 0;
    while j < idx.len()
        invariant
            0 <= j <= idx@.len(),
            tags_sorted(idx@),
            forall|h: int| 0 <= h < idx@.len() ==> before.contains(#[trigger] idx@[h]),
            forall|h: int| 0 <= h < before.len() && (#[trigger] before[h]).id != *id ==> idx@.contains(before[h]),
            forall|h: int| 0 <= h < j ==> (#[trigger] idx@[h]).id != *id,
        decreases idx@.len() - j,
    {
        if idx[j].id.same(id) {
            let ghost held = idx@;
            idx.remove(j);
            proof {
                assert forall|a: int, b: int| 0 <= a < b < idx@.len() implies tag_before(
                    #[trigger] idx@[a],
                    #[trigger] idx@[b],
                ) by {
                    let x = if a < j { a } else { a + 1 };
                    let y = if b < j { b } else { b + 1 };
                    assert(idx@[a] == held[x] && idx@[b] == held[y]);
                }
                assert forall|h: int| 0 <= h < idx@.len() implies before.contains(#[trigger] idx@[h]) by {
                    let from = if h < j { h } else { h + 1 };
                    assert(idx@[h] == held[from]);
                }
                assert forall|h: int| 0 <= h < before.len() && (#[trigger] before[h]).id != *id implies idx@.contains(
                    before[h],
                ) by {
                    assert(held.contains(before[h]));
                    let w = choose|w: int| 0 <= w < held.len() && held[w] == before[h];
                    let to = if w < j { w } else { w - 1 };
                    assert(idx@[to] == held[w]);
                }
                assert forall|h: int| 0 <= h < j implies (#[trigger] idx@[h]).id != *id by {
                    assert(idx@[h] == held[h]);
                }
            }
        } else {
            j = j + 1;
        }
    }
    proof {
        let after = idx@;
        let t = s.remove(p);
        assert forall|i: int| 0 <= i < t.len() implies covers(after, #[trigger] t[i]) by {
            let from = if i < p { i } else { i + 1 };
            assert(t[i] == s[from]);
            assert(s[from].wf());
            if from < p {
                assert(s[from].id != s[p].id);
            } else {
                assert(s[p].id != s[from].id);
            }
            assert(covers(before, s[from]));
            assert forall|g: int| 0 <= g < t[i].keys.by_tag@.len() implies has_tag(
                after,
                tag_view(#[trigger] t[i].keys.by_tag@[g]),
            ) by {
                let v = tag_view(s[from].keys.by_tag@[g]);
                assert(has_tag(before, v));
                let w = choose|w: int| 0 <= w < before.len() && tag_view(#[trigger] before[w]) == v;
                assert(before[w].id != *id);
                assert(after.contains(before[w]));
                let h = choose|h: int| 0 <= h < after.len() && after[h] == before[w];
                assert(tag_view(after[h]) == v);
            }
        }
        assert forall|h: int| 0 <= h < after.len() implies in_tag_index(t, tag_view(#[trigger] after[h])) by {
            let v = tag_view(after[h]);
            assert(before.contains(after[h]));
            let w = choose|w: int| 0 <= w < before.len() && before[w] == after[h];
            assert(in_tag_index(s, tag_view(before[w])));
            let i = choose|i: int| 0 <= i < s.len() && has_tag((#[trigger] s[i]).keys.by_tag@, v);
            let keys = s[i].keys.by_tag@;
            let g = choose|g: int| 0 <= g < keys.len() && tag_view(#[trigger] keys[g]) == v;
            assert(s[i].wf() && keys[g].id == s[i].id);
            let to = if i < p { i } else { i - 1 };
            assert(t[to] == s[i]);
        }
    }
}

} // verus!
