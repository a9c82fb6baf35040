//! The query engine: what a filter selects from a store, in which order,
//! and the plans that compute it.

use vstd::prelude::*;
use crate::content::{
    has_id, kind_absent, lemma_put_then_get, lemma_put_valid, position, precedes, spec_put, valid,
};
use crate::event::Id;
use crate::filter::{is_match, is_value_listed, key_hit, meets, tag_hit, Filter};
use crate::index::{AuthorKey, KindKey, Record};
use crate::secondary::{author_before, author_index_of, kind_before, kind_index_of};
use crate::tag_index::{covers, has_tag, tag_index_of, tag_view};
use crate::store::Store;

verus! {

/// The places, in store order, of the records among the first `n` that
/// match the filter.
pub open spec fn hits(s: Seq<Record>, f: Filter, n: int) -> Seq<int>
    decreases n,
{
    if n <= 0 {
        Seq::empty()
    } else if meets(s[n - 1], f) {
        hits(s, f, n - 1).push(n - 1)
    } else {
        hits(s, f, n - 1)
    }
}

/// The most results the filter allows.
pub open spec fn spec_limit(f: Filter) -> int {
    match f.limit {
        Some(l) => l as int,
        None => usize::MAX as int,
    }
}

/// How many results a query over `s` gives.
pub open spec fn spec_count(s: Seq<Record>, f: Filter) -> int {
    let found = hits(s, f, s.len() as int).len() as int;
    if found <= spec_limit(f) {
        found
    } else {
        spec_limit(f)
    }
}

/// What a query over `s` gives: the identifiers of the matching records in
/// store order, cut at the limit.
pub open spec fn spec_query(s: Seq<Record>, f: Filter) -> Seq<Id> {
    Seq::new(spec_count(s, f) as nat, |a: int| s[hits(s, f, s.len() as int)[a]].id)
}

/// The places listed by `hits` are places of matching records among the
/// first `n`, in rising order.
pub proof fn lemma_hits_sound(s: Seq<Record>, f: Filter, n: int)
    requires
        0 <= n <= s.len(),
    ensures
        hits(s, f, n).len() <= n,
        forall|a: int|
            0 <= a < hits(s, f, n).len() ==> 0 <= (#[trigger] hits(s, f, n)[a]) < n && meets(
                s[hits(s, f, n)[a]],
                f,
            ),
        forall|a: int, b: int|
            0 <= a < b < hits(s, f, n).len() ==> (#[trigger] hits(s, f, n)[a]) < (#[trigger] hits(s, f, n)[b]),
    decreases n,
{
    if n > 0 {
        lemma_hits_sound(s, f, n - 1);
    }
}

/// Every matching record among the first `n` has its place listed.
pub proof fn lemma_hits_complete(s: Seq<Record>, f: Filter, n: int, i: int)
    requires
        0 <= i < n <= s.len(),
        meets(s[i], f),
    ensures
        hits(s, f, n).contains(i),
    decreases n,
{
    if i == n - 1 {
        assert(hits(s, f, n).last() == i);
    } else {
        lemma_hits_complete(s, f, n - 1, i);
        let h = hits(s, f, n - 1);
        let a = choose|a: int| 0 <= a < h.len() && h[a] == i;
        assert(hits(s, f, n)[a] == i);
    }
}

/// The matches among the first `m` records open the list of matches among
/// the first `n`.
pub proof fn lemma_hits_prefix(s: Seq<Record>, f: Filter, m: int, n: int)
    requires
        0 <= m <= n,
    ensures
        hits(s, f, m).len() <= hits(s, f, n).len(),
        forall|a: int| 0 <= a < hits(s, f, m).len() ==> hits(s, f, m)[a] == #[trigger] hits(s, f, n)[a],
    decreases n,
{
    if m < n {
        lemma_hits_prefix(s, f, m, n - 1);
    }
}

/// Results come newest first, equal times by rising identifier, and every
/// result is the identifier of a stored record that matches.
pub proof fn lemma_query_ordered(s: Seq<Record>, f: Filter, a: int, b: int)
    requires
        valid(s),
        0 <= a < b < spec_query(s, f).len(),
    ensures
        ({
            let h = hits(s, f, s.len() as int);
            &&& 0 <= h[a] < h[b] < s.len()
            &&& spec_query(s, f)[a] == s[h[a]].id
            &&& spec_query(s, f)[b] == s[h[b]].id
            &&& meets(s[h[a]], f)
            &&& meets(s[h[b]], f)
            &&& precedes(s[h[a]].keys.by_time, s[h[b]].keys.by_time)
        }),
{
    lemma_hits_sound(s, f, s.len() as int);
}

/// A matching record is among the results unless the limit was reached
/// by records that come before it.
pub proof fn lemma_query_complete(s: Seq<Record>, f: Filter, i: int)
    requires
        valid(s),
        0 <= i < s.len(),
        meets(s[i], f),
    ensures
        spec_query(s, f).contains(s[i].id) || (spec_query(s, f).len() == spec_limit(f) && forall|a: int|
            0 <= a < spec_query(s, f).len() ==> (#[trigger] hits(s, f, s.len() as int)[a]) < i),
{
    let h = hits(s, f, s.len() as int);
    lemma_hits_sound(s, f, s.len() as int);
    lemma_hits_complete(s, f, s.len() as int, i);
    let p = choose|p: int| 0 <= p < h.len() && h[p] == i;
    if p < spec_count(s, f) {
        assert(spec_query(s, f)[p] == s[i].id);
    } else {
        assert forall|a: int| 0 <= a < spec_query(s, f).len() implies (#[trigger] h[a]) < i by {
            assert(h[a] < h[p]);
        }
    }
}

/// A record that was written is what a query for its identifier gives:
/// that identifier, once, whose stored bytes are those written where
/// the identifier was new.
pub proof fn lemma_ingest_then_query(s: Seq<Record>, r: Record, f: Filter)
    requires
        valid(s),
        r.wf(),
        f.ids@ == seq![r.id],
        f.authors@.len() == 0,
        f.kinds@.len() == 0,
        f.since is None,
        f.until is None,
        f.tags@.len() == 0,
        spec_limit(f) >= 1,
    ensures
        spec_query(spec_put(s, r), f) == seq![r.id],
        !has_id(s, r.id) ==> spec_put(s, r)[position(spec_put(s, r), r.id)].bytes == r.bytes,
{
    let t = spec_put(s, r);
    lemma_put_valid(s, r);
    lemma_put_then_get(s, r);
    let p = position(t, r.id);
    let h = hits(t, f, t.len() as int);
    lemma_hits_sound(t, f, t.len() as int);
    assert(f.ids@[0] == r.id);
    assert(meets(t[p], f));
    lemma_hits_complete(t, f, t.len() as int, p);
    assert forall|a: int| 0 <= a < h.len() implies h[a] == p by {
        assert(meets(t[h[a]], f));
        let d = choose|d: int| 0 <= d < f.ids@.len() && f.ids@[d] == t[h[a]].id;
        assert(t[h[a]].id == r.id);
        if h[a] < p {
            assert(t[h[a]].id != t[p].id);
        } else if h[a] > p {
            assert(t[p].id != t[h[a]].id);
        }
    }
    if h.len() > 1 {
        assert(h[0] < h[1]);
    }
    assert(h.len() == 1);
    assert(spec_query(t, f) =~= seq![r.id]);
}

/// Where no record is of a kind, a query for that kind gives nothing.
pub proof fn lemma_absent_kind_gives_nothing(s: Seq<Record>, f: Filter, kind: u32)
    requires
        kind_absent(s, kind),
        f.kinds@ == seq![kind],
    ensures
        spec_query(s, f) == Seq::<Id>::empty(),
{
    let h = hits(s, f, s.len() as int);
    lemma_hits_sound(s, f, s.len() as int);
    if h.len() > 0 {
        assert(meets(s[h[0]], f));
        let d = choose|d: int| 0 <= d < f.kinds@.len() && f.kinds@[d] == s[h[0]].keys.by_kind.kind;
        assert(f.kinds@[0] == kind);
    }
    assert(spec_query(s, f) =~= Seq::<Id>::empty());
}

/// How a query reaches its candidates.
#[derive(Clone, Copy, Debug, PartialEq, Eq, Structural)]
pub enum Plan {
    /// Look each listed identifier up in the primary records.
    Lookup,
    /// Read the range of each listed author in the by-author index.
    AuthorRange,
    /// Read the range of each listed kind in the by-kind index.
    KindRange,
    /// Read the by-tag index for the entries that meet the first tag
    /// constraint.
    TagEntries,
    /// Walk the records in by-time order.
    Scan,
}

/// The plan for a filter, most selective first: identifier lookup where
/// identifiers are listed, else the by-author ranges where authors are
/// listed, else the by-kind ranges where kinds are listed, else the
/// by-tag entries where tags are constrained, else the walk in by-time
/// order.
pub open spec fn spec_plan(f: Filter) -> Plan {
    if f.ids@.len() > 0 {
        Plan::Lookup
    } else if f.authors@.len() > 0 {
        Plan::AuthorRange
    } else if f.kinds@.len() > 0 {
        Plan::KindRange
    } else if f.tags@.len() > 0 {
        Plan::TagEntries
    } else {
        Plan::Scan
    }
}

/// Picks the plan for a filter.
pub fn choose_plan(f: &Filter) -> (p: Plan)
    ensures
        p == spec_plan(*f),
{
    if f.ids.len() > 0 {
        Plan::Lookup
    } else if f.authors.len() > 0 {
        Plan::AuthorRange
    } else if f.kinds.len() > 0 {
        Plan::KindRange
    } else if f.tags.len() > 0 {
        Plan::TagEntries
    } else {
        Plan::Scan
    }
}

/// Whether the places rise strictly.
pub open spec fn rising(places: Seq<int>) -> bool {
    forall|a: int, b: int| 0 <= a < b < places.len() ==> (#[trigger] places[a]) < (#[trigger] places[b])
}

/// The places of a vector as integers.
pub open spec fn as_places(v: Seq<usize>) -> Seq<int> {
    Seq::new(v.len(), |a: int| v[a] as int)
}

proof fn lemma_rising_unique(x: Seq<int>, y: Seq<int>)
    requires
        rising(x),
        rising(y),
        forall|p: int| x.contains(p) <==> y.contains(p),
    ensures
        x == y,
    decreases x.len(),
{
    if x.len() == 0 {
        if y.len() > 0 {
            assert(y.contains(y[0]));
            assert(x.contains(y[0]));
        }
        assert(x =~= y);
    } else {
        let top = x[x.len() - 1];
        assert(x.contains(top));
        assert(y.contains(top));
        let j = choose|j: int| 0 <= j < y.len() && y[j] == top;
        let other = y[y.len() - 1];
        assert(y.contains(other));
        assert(x.contains(other));
        let i = choose|i: int| 0 <= i < x.len() && x[i] == other;
        if i < x.len() - 1 {
            assert(x[i] < x[x.len() - 1]);
        }
        if j < y.len() - 1 {
            assert(y[j] < y[y.len() - 1]);
        }
        assert(other == top);
        let xs = x.drop_last();
        let ys = y.drop_last();
        assert forall|p: int| xs.contains(p) <==> ys.contains(p) by {
            if xs.contains(p) {
                let a = choose|a: int| 0 <= a < xs.len() && xs[a] == p;
                assert(x[a] == p && x[a] < x[x.len() - 1]);
                assert(x.contains(p));
                assert(y.contains(p));
                let b = choose|b: int| 0 <= b < y.len() && y[b] == p;
                assert(ys[b] == p);
            }
            if ys.contains(p) {
                let b = choose|b: int| 0 <= b < ys.len() && ys[b] == p;
                assert(y[b] == p && y[b] < y[y.len() - 1]);
                assert(y.contains(p));
                assert(x.contains(p));
                let a = choose|a: int| 0 <= a < x.len() && x[a] == p;
                assert(xs[a] == p);
            }
        }
        assert(rising(xs)) by {
            assert forall|a: int, b: int| 0 <= a < b < xs.len() implies (#[trigger] xs[a]) < (#[trigger] xs[b]) by {
                assert(x[a] < x[b]);
            }
        }
        assert(rising(ys)) by {
            assert forall|a: int, b: int| 0 <= a < b < ys.len() implies (#[trigger] ys[a]) < (#[trigger] ys[b]) by {
                assert(y[a] < y[b]);
            }
        }
        lemma_rising_unique(xs, ys);
        assert(x =~= xs.push(top));
        assert(y =~= ys.push(other));
    }
}

/// Puts a place into a rising list of places, unless it is there.
fn insert_place(places: &mut Vec<usize>, p: usize)
    requires
        rising(as_places(old(places)@)),
    ensures
        rising(as_places(final(places)@)),
        forall|x: int|
            as_places(final(places)@).contains(x) <==> (as_places(old(places)@).contains(x) || x == p),
{
    let ghost before = as_places(places@);
    let mut k: usize = 0;
    while k < places.len() && places[k] < p
        invariant
            0 <= k <= places@.len(),
            *places == *old(places),
            forall|j: int| 0 <= j < k ==> places@[j] < p,
        decreases places@.len() - k,
    {
        k = k + 1;
    }
    if k < places.len() && places[k] == p {
        assert(before[k as int] == p);
        return ;
    }
    places.insert(k, p);
    proof {
        let after = as_places(places@);
        assert(after =~= before.insert(k as int, p as int));
        assert forall|a: int, b: int| 0 <= a < b < after.len() implies (#[trigger] after[a]) < (#[trigger] after[b]) by {
            let x = if a < k { before[a] } else if a > k { before[a - 1] } else { p as int };
            let y = if b < k { before[b] } else if b > k { before[b - 1] } else { p as int };
            assert(after[a] == x && after[b] == y);
            if k < before.len() {
                assert(before[k as int] > p);
            }
        }
        assert forall|x: int| after.contains(x) <==> (before.contains(x) || x == p) by {
            if after.contains(x) {
                let i = choose|i: int| 0 <= i < after.len() && after[i] == x;
                if i < k {
                    assert(before[i] == x);
                } else if i > k {
                    assert(before[i - 1] == x);
                }
            }
            if before.contains(x) {
                let i = choose|i: int| 0 <= i < before.len() && before[i] == x;
                if i < k {
                    assert(after[i] == x);
                } else {
                    assert(after[i + 1] == x);
                }
            }
            if x == p {
                assert(after[k as int] == x);
            }
        }
    }
}

/// Records that all fail the filter add nothing to the matches.
proof fn lemma_hits_skip(s: Seq<Record>, f: Filter, m: int, n: int)
    requires
        0 <= m <= n <= s.len(),
        forall|j: int| m <= j < n ==> !meets(#[trigger] s[j], f),
    ensures
        hits(s, f, n) == hits(s, f, m),
    decreases n,
{
    if m < n {
        lemma_hits_skip(s, f, m, n - 1);
    }
}

/// The place of the first record created at or before `until`, found by
/// halving: every record before it is newer than `until`.
fn first_not_after(records: &Vec<Record>, until: u64) -> (at: usize)
    requires
        valid(records@),
    ensures
        0 <= at <= records@.len(),
        forall|j: int| 0 <= j < at ==> (#[trigger] records@[j]).keys.by_time.created_at > until,
        forall|j: int| at <= j < records@.len() ==> (#[trigger] records@[j]).keys.by_time.created_at <= until,
{
    let mut lo: usize = 0;
    let mut hi: usize = records.len();
    while lo < hi
        invariant
            0 <= lo <= hi <= records@.len(),
            valid(records@),
            forall|j: int| 0 <= j < lo ==> (#[trigger] records@[j]).keys.by_time.created_at > until,
            forall|j: int| hi <= j < records@.len() ==> (#[trigger] records@[j]).keys.by_time.created_at <= until,
        decreases hi - lo,
    {
        let mid: usize = lo + (hi - lo) / 2;
        if records[mid].keys.by_time.created_at > until {
            assert forall|j: int| 0 <= j < mid + 1 implies (#[trigger] records@[j]).keys.by_time.created_at
                > until by {
                if j < mid {
                    assert(precedes(records@[j].keys.by_time, records@[mid as int].keys.by_time));
                }
            }
            lo = mid + 1;
        } else {
            assert forall|j: int| mid <= j < records@.len() implies (#[trigger] records@[j]).keys.by_time.created_at
                <= until by {
                if j > mid {
                    assert(precedes(records@[mid as int].keys.by_time, records@[j].keys.by_time));
                }
            }
            hi = mid;
        }
    }
    lo
}

/// The walk in by-time order, bounded by the filter's time range: starts
/// at the first record not newer than `until`, tests each record in turn,
/// and stops at the limit or at the first record older than `since`.
fn scan(store: &Store, f: &Filter) -> (out: Vec<Id>)
    requires
        store.wf(),
    ensures
        out@ == spec_query(store@, *f),
{
    let records = store.records();
    let ghost s = store@;
    proof {
        store.lemma_wf_valid();
    }
    let cap: usize = match f.limit {
        Some(l) => l,
        None => usize::MAX,
    };
    let floor: u64 = match f.since {
        Some(t) => t,
        None => 0,
    };
    let n: usize = records.len();
    let first: usize = match f.until {
        Some(t) => first_not_after(records, t),
        None => 0,
    };
    proof {
        lemma_hits_skip(s, *f, 0, first as int);
    }
    let mut out: Vec<Id> = Vec::new();
    let mut i: usize = first;
    while i < n && out.len() < cap && records[i].keys.by_time.created_at >= floor
        invariant
            0 <= i <= n == s.len(),
            records@ == s,
            cap == spec_limit(*f),
            out@.len() == hits(s, *f, i as int).len(),
            out@.len() <= cap,
            forall|a: int| 0 <= a < out@.len() ==> out@[a] == s[hits(s, *f, i as int)[a]].id,
        decreases n - i,
    {
        if is_match(&records[i], f) {
            out.push(records[i].id);
        }
        i = i + 1;
    }
    proof {
        lemma_hits_prefix(s, *f, i as int, n as int);
        lemma_hits_sound(s, *f, n as int);
        if i < n && out@.len() < cap {
            assert forall|j: int| i <= j < n implies !meets(#[trigger] s[j], *f) by {
                if j > i {
                    assert(precedes(s[i as int].keys.by_time, s[j].keys.by_time));
                }
            }
            lemma_hits_skip(s, *f, i as int, n as int);
        }
        assert(out@.len() == spec_count(s, *f));
        assert(out@ =~= spec_query(s, *f));
    }
    out
}

/// Turns candidates into results: finds each candidate identifier in the
/// primary records, keeps the places of those that match, in store order,
/// and gives the first of them up to the limit. The candidates must
/// include every match.
fn gather(store: &Store, f: &Filter, candidates: &Vec<Id>) -> (out: Vec<Id>)
    requires
        store.wf(),
        forall|i: int| 0 <= i < store@.len() && meets(#[trigger] store@[i], *f) ==> candidates@.contains(store@[i].id),
    ensures
        out@ == spec_query(store@, *f),
{
    let records = store.records();
    let ghost s = store@;
    let n: usize = records.len();
    let mut places: Vec<usize> = Vec::new();
    let mut c: usize = 0;
    proof {
        store.lemma_wf_valid();
    }
    while c < candidates.len()
        invariant
            0 <= c <= candidates@.len(),
            store.wf(),
            valid(s),
            records@ == s,
            s == store@,
            n == s.len(),
            rising(as_places(places@)),
            forall|a: int| 0 <= a < places@.len() ==> (#[trigger] places@[a]) < n && meets(s[places@[a] as int], *f),
            forall|d: int, i: int|
                0 <= d < c && 0 <= i < n && (#[trigger] s[i]).id == (#[trigger] candidates@[d]) && meets(s[i], *f)
                    ==> as_places(places@).contains(i),
        decreases candidates@.len() - c,
    {
        let ghost prior = as_places(places@);
        let ghost held = places@;
        match store.find(&candidates[c]) {
            Some(p) => {
                if is_match(&records[p], f) {
                    insert_place(&mut places, p);
                    proof {
                        let now = as_places(places@);
                        assert forall|a: int| 0 <= a < places@.len() implies (#[trigger] places@[a]) < n && meets(
                            s[places@[a] as int],
                            *f,
                        ) by {
                            assert(now[a] == places@[a]);
                            assert(now.contains(now[a]));
                            if prior.contains(now[a]) {
                                let b = choose|b: int| 0 <= b < prior.len() && prior[b] == now[a];
                                assert(held[b] == now[a]);
                            }
                        }
                    }
                }
                proof {
                    let now = as_places(places@);
                    assert forall|d: int, i: int|
                        0 <= d < c + 1 && 0 <= i < n && (#[trigger] s[i]).id == (#[trigger] candidates@[d]) && meets(
                            s[i],
                            *f,
                        ) implies now.contains(i) by {
                        if d == c {
                            if i != p as int {
                                assert(s[i].id == s[p as int].id);
                            }
                        } else {
                            assert(prior.contains(i));
                        }
                    }
                }
            },
            None => {
                proof {
                    assert forall|d: int, i: int|
                        0 <= d < c + 1 && 0 <= i < n && (#[trigger] s[i]).id == (#[trigger] candidates@[d]) && meets(
                            s[i],
                            *f,
                        ) implies as_places(places@).contains(i) by {
                        if d == c {
                            assert(s[i].id == candidates@[c as int]);
                        }
                    }
                }
            },
        }
        c = c + 1;
    }
    let ghost found = as_places(places@);
    proof {
        let h = hits(s, *f, n as int);
        lemma_hits_sound(s, *f, n as int);
        assert forall|x: int| found.contains(x) <==> h.contains(x) by {
            if found.contains(x) {
                let a = choose|a: int| 0 <= a < found.len() && found[a] == x;
                assert(places@[a] == x);
                lemma_hits_complete(s, *f, n as int, x);
            }
            if h.contains(x) {
                let a = choose|a: int| 0 <= a < h.len() && h[a] == x;
                assert(0 <= h[a] < n && meets(s[h[a]], *f));
                assert(candidates@.contains(s[x].id));
                let d = choose|d: int| 0 <= d < candidates@.len() && candidates@[d] == s[x].id;
                assert(s[x].id == candidates@[d]);
            }
        }
        lemma_rising_unique(found, h);
    }
    let cap: usize = match f.limit {
        Some(l) => l,
        None => usize::MAX,
    };
    let mut out: Vec<Id> = Vec::new();
    let mut a: usize = 0;
    while a < places.len() && a < cap
        invariant
            0 <= a <= places@.len(),
            a <= cap,
            records@ == s,
            s == store@,
            n == s.len(),
            found == as_places(places@),
            found == hits(s, *f, n as int),
            forall|b: int| 0 <= b < places@.len() ==> (#[trigger] places@[b]) < n,
            out@.len() == a,
            forall|b: int| 0 <= b < a ==> out@[b] == s[found[b]].id,
        decreases places@.len() - a,
    {
        out.push(records[places[a]].id);
        a = a + 1;
    }
    proof {
        assert(cap == spec_limit(*f));
        assert(out@.len() == spec_count(s, *f));
        assert(out@ =~= spec_query(s, *f));
    }
    out
}

/// The place where the range of `author` starts in the by-author index,
/// found by halving: every key before it has a smaller author, no key
/// from it on has.
fn author_range_start(idx: &Vec<AuthorKey>, author: &Id) -> (at: usize)
    requires
        forall|a: int, b: int| 0 <= a < b < idx@.len() ==> author_before(#[trigger] idx@[a], #[trigger] idx@[b]),
    ensures
        0 <= at <= idx@.len(),
        forall|j: int| 0 <= j < at ==> (#[trigger] idx@[j]).pubkey.below(*author),
        forall|j: int| at <= j < idx@.len() ==> !(#[trigger] idx@[j]).pubkey.below(*author),
{
    let mut lo: usize = 0;
    let mut hi: usize = idx.len();
    while lo < hi
        invariant
            0 <= lo <= hi <= idx@.len(),
            forall|a: int, b: int| 0 <= a < b < idx@.len() ==> author_before(#[trigger] idx@[a], #[trigger] idx@[b]),
            forall|j: int| 0 <= j < lo ==> (#[trigger] idx@[j]).pubkey.below(*author),
            forall|j: int| hi <= j < idx@.len() ==> !(#[trigger] idx@[j]).pubkey.below(*author),
        decreases hi - lo,
    {
        let mid: usize = lo + (hi - lo) / 2;
        if idx[mid].pubkey.is_below(author) {
            assert forall|j: int| 0 <= j < mid + 1 implies (#[trigger] idx@[j]).pubkey.below(*author) by {
                if j < mid {
                    assert(author_before(idx@[j], idx@[mid as int]));
                }
            }
            lo = mid + 1;
        } else {
            assert forall|j: int| mid <= j < idx@.len() implies !(#[trigger] idx@[j]).pubkey.below(*author) by {
                if j > mid {
                    assert(author_before(idx@[mid as int], idx@[j]));
                }
            }
            hi = mid;
        }
    }
    lo
}

/// The identifiers in the by-author ranges of the listed authors: every
/// record by a listed author is among them.
fn author_candidates(store: &Store, f: &Filter) -> (out: Vec<Id>)
    requires
        store.wf(),
        f.authors@.len() > 0,
    ensures
        forall|i: int| 0 <= i < store@.len() && meets(#[trigger] store@[i], *f) ==> out@.contains(store@[i].id),
{
    let idx = store.author_index();
    let ghost s = store@;
    proof {
        store.lemma_wf_valid();
        reveal(author_index_of);
    }
    let mut out: Vec<Id> = Vec::new();
    let mut c: usize = 0;
    while c < f.authors.len()
        invariant
            0 <= c <= f.authors@.len(),
            forall|a: int, b: int| 0 <= a < b < idx@.len() ==> author_before(#[trigger] idx@[a], #[trigger] idx@[b]),
            forall|d: int, j: int|
                0 <= d < c && 0 <= j < idx@.len() && (#[trigger] idx@[j]).pubkey == (#[trigger] f.authors@[d])
                    ==> out@.contains(idx@[j].id),
        decreases f.authors@.len() - c,
    {
        let author = &f.authors[c];
        let lo = author_range_start(idx, author);
        let mut j: usize = lo;
        while j < idx.len() && idx[j].pubkey.same(author)
            invariant
                lo <= j <= idx@.len(),
                0 <= c < f.authors@.len(),
                *author == f.authors@[c as int],
                forall|d: int, j: int|
                    0 <= d < c && 0 <= j < idx@.len() && (#[trigger] idx@[j]).pubkey == (#[trigger] f.authors@[d])
                        ==> out@.contains(idx@[j].id),
                forall|h: int| lo <= h < j ==> out@.contains((#[trigger] idx@[h]).id),
            decreases idx@.len() - j,
        {
            let ghost held = out@;
            out.push(idx[j].id);
            proof {
                assert(out@[held.len() as int] == idx@[j as int].id);
                assert forall|x: Id| held.contains(x) implies out@.contains(x) by {
                    let q = choose|q: int| 0 <= q < held.len() && held[q] == x;
                    assert(out@[q] == x);
                }
            }
            j = j + 1;
        }
        proof {
            assert forall|d: int, h: int|
                0 <= d < c + 1 && 0 <= h < idx@.len() && (#[trigger] idx@[h]).pubkey == (#[trigger] f.authors@[d])
                implies out@.contains(idx@[h].id) by {
                if d == c {
                    if h >= j {
                        if h > j {
                            assert(author_before(idx@[j as int], idx@[h]));
                        }
                    }
                }
            }
        }
        c = c + 1;
    }
    proof {
        assert forall|i: int| 0 <= i < s.len() && meets(#[trigger] s[i], *f) implies out@.contains(s[i].id) by {
            let key = s[i].keys.by_author;
            assert(s[i].wf());
            assert(f.authors@.contains(key.pubkey));
            let d = choose|d: int| 0 <= d < f.authors@.len() && f.authors@[d] == key.pubkey;
            assert(idx@.contains(key));
            let h = choose|h: int| 0 <= h < idx@.len() && idx@[h] == key;
            assert(idx@[h].pubkey == f.authors@[d]);
        }
    }
    out
}

/// The place where the range of `kind` starts in the by-kind index,
/// found by halving: every key before it has a smaller kind, no key
/// from it on has.
fn kind_range_start(idx: &Vec<KindKey>, kind: u32) -> (at: usize)
    requires
        forall|a: int, b: int| 0 <= a < b < idx@.len() ==> kind_before(#[trigger] idx@[a], #[trigger] idx@[b]),
    ensures
        0 <= at <= idx@.len(),
        forall|j: int| 0 <= j < at ==> (#[trigger] idx@[j]).kind < kind,
        forall|j: int| at <= j < idx@.len() ==> (#[trigger] idx@[j]).kind >= kind,
{
    let mut lo: usize = 0;
    let mut hi: usize = idx.len();
    while lo < hi
        invariant
            0 <= lo <= hi <= idx@.len(),
            forall|a: int, b: int| 0 <= a < b < idx@.len() ==> kind_before(#[trigger] idx@[a], #[trigger] idx@[b]),
            forall|j: int| 0 <= j < lo ==> (#[trigger] idx@[j]).kind < kind,
            forall|j: int| hi <= j < idx@.len() ==> (#[trigger] idx@[j]).kind >= kind,
        decreases hi - lo,
    {
        let mid: usize = lo + (hi - lo) / 2;
        if idx[mid].kind < kind {
            assert forall|j: int| 0 <= j < mid + 1 implies (#[trigger] idx@[j]).kind < kind by {
                if j < mid {
                    assert(kind_before(idx@[j], idx@[mid as int]));
                }
            }
            lo = mid + 1;
        } else {
            assert forall|j: int| mid <= j < idx@.len() implies (#[trigger] idx@[j]).kind >= kind by {
                if j > mid {
                    assert(kind_before(idx@[mid as int], idx@[j]));
                }
            }
            hi = mid;
        }
    }
    lo
}

/// The identifiers in the by-kind ranges of the listed kinds: every
/// record of a listed kind is among them.
fn kind_candidates(store: &Store, f: &Filter) -> (out: Vec<Id>)
    requires
        store.wf(),
        f.kinds@.len() > 0,
    ensures
        forall|i: int| 0 <= i < store@.len() && meets(#[trigger] store@[i], *f) ==> out@.contains(store@[i].id),
{
    let idx = store.kind_index();
    let ghost s = store@;
    proof {
        store.lemma_wf_valid();
        reveal(kind_index_of);
    }
    let mut out: Vec<Id> = Vec::new();
    let mut c: usize = 0;
    while c < f.kinds.len()
        invariant
            0 <= c <= f.kinds@.len(),
            forall|a: int, b: int| 0 <= a < b < idx@.len() ==> kind_before(#[trigger] idx@[a], #[trigger] idx@[b]),
            forall|d: int, j: int|
                0 <= d < c && 0 <= j < idx@.len() && (#[trigger] idx@[j]).kind == (#[trigger] f.kinds@[d])
                    ==> out@.contains(idx@[j].id),
        decreases f.kinds@.len() - c,
    {
        let kind: u32 = f.kinds[c];
        let lo = kind_range_start(idx, kind);
        let mut j: usize = lo;
        while j < idx.len() && idx[j].kind == kind
            invariant
                lo <= j <= idx@.len(),
                0 <= c < f.kinds@.len(),
                kind == f.kinds@[c as int],
                forall|d: int, j: int|
                    0 <= d < c && 0 <= j < idx@.len() && (#[trigger] idx@[j]).kind == (#[trigger] f.kinds@[d])
                        ==> out@.contains(idx@[j].id),
                forall|h: int| lo <= h < j ==> out@.contains((#[trigger] idx@[h]).id),
            decreases idx@.len() - j,
        {
            let ghost held = out@;
            out.push(idx[j].id);
            proof {
                assert(out@[held.len() as int] == idx@[j as int].id);
                assert forall|x: Id| held.contains(x) implies out@.contains(x) by {
                    let q = choose|q: int| 0 <= q < held.len() && held[q] == x;
                    assert(out@[q] == x);
                }
            }
            j = j + 1;
        }
        proof {
            assert forall|d: int, h: int|
                0 <= d < c + 1 && 0 <= h < idx@.len() && (#[trigger] idx@[h]).kind == (#[trigger] f.kinds@[d])
                implies out@.contains(idx@[h].id) by {
                if d == c {
                    if h >= j {
                        if h > j {
                            assert(kind_before(idx@[j as int], idx@[h]));
                        }
                    }
                }
            }
        }
        c = c + 1;
    }
    proof {
        assert forall|i: int| 0 <= i < s.len() && meets(#[trigger] s[i], *f) implies out@.contains(s[i].id) by {
            let key = s[i].keys.by_kind;
            assert(s[i].wf());
            assert(f.kinds@.contains(key.kind));
            let d = choose|d: int| 0 <= d < f.kinds@.len() && f.kinds@[d] == key.kind;
            assert(idx@.contains(key));
            let h = choose|h: int| 0 <= h < idx@.len() && idx@[h] == key;
            assert(idx@[h].kind == f.kinds@[d]);
        }
    }
    out
}

/// The identifiers of the by-tag entries that meet the filter's first
/// tag constraint: every record that meets it is among them.
fn tag_candidates(store: &Store, f: &Filter) -> (out: Vec<Id>)
    requires
        store.wf(),
        f.tags@.len() > 0,
    ensures
        forall|i: int| 0 <= i < store@.len() && meets(#[trigger] store@[i], *f) ==> out@.contains(store@[i].id),
{
    let idx = store.tag_index();
    let ghost s = store@;
    let t = &f.tags[0];
    proof {
        store.lemma_wf_valid();
    }
    let mut out: Vec<Id> = Vec::new();
    let mut j: usize = 0;
    while j < idx.len()
        invariant
            0 <= j <= idx@.len(),
            *t == f.tags@[0],
            forall|h: int| 0 <= h < j && key_hit(#[trigger] idx@[h], *t) ==> out@.contains(idx@[h].id),
        decreases idx@.len() - j,
    {
        if idx[j].name == t.name && is_value_listed(&t.values, &idx[j].value) {
            let ghost held = out@;
            out.push(idx[j].id);
            proof {
                assert(out@[held.len() as int] == idx@[j as int].id);
                assert forall|x: Id| held.contains(x) implies out@.contains(x) by {
                    let q = choose|q: int| 0 <= q < held.len() && held[q] == x;
                    assert(out@[q] == x);
                }
            }
        }
        j = j + 1;
    }
    proof {
        reveal(tag_index_of);
        assert forall|i: int| 0 <= i < s.len() && meets(#[trigger] s[i], *f) implies out@.contains(s[i].id) by {
            let keys = s[i].keys.by_tag@;
            assert(s[i].wf());
            assert(tag_hit(keys, f.tags@[0]));
            let g = choose|g: int| 0 <= g < keys.len() && key_hit(#[trigger] keys[g], *t);
            assert(covers(idx@, s[i]));
            assert(has_tag(idx@, tag_view(keys[g])));
            let h = choose|h: int| 0 <= h < idx@.len() && tag_view(#[trigger] idx@[h]) == tag_view(keys[g]);
            assert(key_hit(idx@[h], *t));
            assert(keys[g].id == s[i].id && idx@[h].id == s[i].id);
        }
    }
    out
}

/// Runs a filter over the store: the identifiers of the matching records,
/// newest first and equal times by rising identifier, cut at the filter's
/// limit. The plan is the most selective the filter allows; whatever the
/// plan, the result is the same.
pub fn query(store: &Store, f: &Filter) -> (out: Vec<Id>)
    requires
        store.wf(),
    ensures
        out@ == spec_query(store@, *f),
{
    match choose_plan(f) {
        Plan::Lookup => gather(store, f, &f.ids),
        Plan::AuthorRange => {
            let candidates = author_candidates(store, f);
            gather(store, f, &candidates)
        },
        Plan::KindRange => {
            let candidates = kind_candidates(store, f);
            gather(store, f, &candidates)
        },
        Plan::TagEntries => {
            let candidates = tag_candidates(store, f);
            gather(store, f, &candidates)
        },
        Plan::Scan => scan(store, f),
    }
}

} // verus!
