//! Properties of the history that hold across operations.
use crate::history::{
    dedup_spec, differs, evict_spec, ids_ascending, listing_order, lookup_spec, payload_of,
    scan_start, store_spec, view_wf, without_ids, worth_storing, HistoryView,
};
use vstd::prelude::*;

verus! {

proof fn lemma_filter_twice(s: Seq<(u64, Seq<u8>)>, pred: spec_fn((u64, Seq<u8>)) -> bool)
    ensures
        s.filter(pred).filter(pred) == s.filter(pred),
    decreases s.len(),
{
    reveal(Seq::filter);
    if s.len() > 0 {
        lemma_filter_twice(s.drop_last(), pred);
        let sub = s.drop_last().filter(pred);
        if pred(s.last()) {
            assert(sub.push(s.last()).drop_last() =~= sub);
        }
    }
}

/// Deleting the same ids a second time changes nothing.
pub proof fn lemma_delete_idempotent(es: Seq<(u64, Seq<u8>)>, ids: Seq<u64>)
    ensures
        without_ids(without_ids(es, ids), ids) == without_ids(es, ids),
{
    lemma_filter_twice(es, |e: (u64, Seq<u8>)| !ids.contains(e.0));
}

/// After a store that keeps its payload there are at most `max_items` entries;
/// so, from a history within the bound, every store stays within it.
pub proof fn lemma_store_within_bound(
    v: HistoryView,
    p: Seq<u8>,
    max_dedupe_search: u64,
    max_items: u64,
)
    ensures
        worth_storing(p) && v.counter < u64::MAX ==> store_spec(
            v,
            p,
            max_dedupe_search,
            max_items,
        ).entries.len() <= max_items,
        v.entries.len() <= max_items ==> store_spec(
            v,
            p,
            max_dedupe_search,
            max_items,
        ).entries.len() <= max_items,
{
}

proof fn lemma_evict_keeps_last(s: Seq<(u64, Seq<u8>)>, max_items: u64)
    requires
        s.len() > 0,
        max_items >= 1,
    ensures
        evict_spec(s, max_items).len() > 0,
        evict_spec(s, max_items).last() == s.last(),
        evict_spec(s, max_items).len() <= s.len(),
        forall|i: int|
            0 <= i < evict_spec(s, max_items).len() ==> #[trigger] evict_spec(s, max_items)[i]
                == s[i + s.len() - evict_spec(s, max_items).len()],
{
}

/// Storing payload `p` removes its earlier copies among the newest
/// `max_dedupe_search + 1` entries before it goes in as the newest, so `p` is held
/// exactly once afterwards: by the new entry. The history must not hold `p`
/// among the older entries that the scan does not reach, and must keep at least
/// one entry.
pub proof fn lemma_store_dedups(
    v: HistoryView,
    p: Seq<u8>,
    max_dedupe_search: u64,
    max_items: u64,
)
    requires
        worth_storing(p),
        v.counter < u64::MAX,
        max_items >= 1,
        forall|i: int|
            0 <= i < scan_start(v.entries.len(), max_dedupe_search) ==> (#[trigger] v.entries[i]).1
                != p,
    ensures
        ({
            let r = store_spec(v, p, max_dedupe_search, max_items).entries;
            &&& r.len() > 0
            &&& r.last() == ((v.counter + 1) as u64, p)
            &&& forall|i: int| 0 <= i < r.len() - 1 ==> (#[trigger] r[i]).1 != p
        }),
{
    let es = v.entries;
    let c = scan_start(es.len(), max_dedupe_search);
    let pred = |e: (u64, Seq<u8>)| differs(e, p);
    let f = es.skip(c).filter(pred);
    let d = dedup_spec(es, p, max_dedupe_search);
    assert(d == es.take(c) + f);
    assert forall|i: int| 0 <= i < d.len() implies (#[trigger] d[i]).1 != p by {
        if i >= c {
            es.skip(c).lemma_filter_pred(pred, i - c);
        }
    }
    let s = d.push(((v.counter + 1) as u64, p));
    lemma_evict_keeps_last(s, max_items);
    let r = evict_spec(s, max_items);
    assert forall|i: int| 0 <= i < r.len() - 1 implies (#[trigger] r[i]).1 != p by {
        let j = i + s.len() - r.len();
        assert(r[i] == s[j]);
        assert(s[j] == d[j]);
    }
}

/// The ids that stores give out grow strictly, whatever is deleted in between: a
/// store that keeps its payload takes the id after the counter, and no other
/// operation lowers the counter.
pub proof fn lemma_ids_increase(
    v: HistoryView,
    p: Seq<u8>,
    q: Seq<u8>,
    deleted: Seq<u64>,
    max_dedupe_search: u64,
    max_items: u64,
)
    requires
        worth_storing(p),
        worth_storing(q),
        v.counter < u64::MAX - 1,
    ensures
        ({
            let v1 = store_spec(v, p, max_dedupe_search, max_items);
            let w = HistoryView { entries: without_ids(v1.entries, deleted), counter: v1.counter };
            let v2 = store_spec(w, q, max_dedupe_search, max_items);
            &&& v1.counter == v.counter + 1
            &&& v2.counter == v1.counter + 1
            &&& v1.counter > v.counter
            &&& v2.counter > v1.counter
        }),
{
}

/// A listing shows ids in strictly decreasing order.
pub proof fn lemma_listing_descends(v: HistoryView)
    requires
        view_wf(v),
    ensures
        forall|i: int, j: int|
            0 <= i < j < v.entries.len() ==> #[trigger] listing_order(v.entries)[i].0
                > #[trigger] listing_order(v.entries)[j].0,
{
    let es = v.entries;
    assert forall|i: int, j: int| 0 <= i < j < es.len() implies #[trigger] listing_order(es)[i].0
        > #[trigger] listing_order(es)[j].0 by {
        assert(es[es.len() - 1 - j].0 < es[es.len() - 1 - i].0);
    }
}

/// Looking up the id that a store gave out returns the stored bytes, as long as
/// the history keeps at least one entry.
pub proof fn lemma_store_then_lookup(
    v: HistoryView,
    p: Seq<u8>,
    max_dedupe_search: u64,
    max_items: u64,
)
    requires
        worth_storing(p),
        v.counter < u64::MAX,
        max_items >= 1,
    ensures
        lookup_spec(
            store_spec(v, p, max_dedupe_search, max_items).entries,
            (v.counter + 1) as u64,
        ) == Ok::<Seq<u8>, crate::error::Error>(p),
{
    let s = dedup_spec(v.entries, p, max_dedupe_search).push(((v.counter + 1) as u64, p));
    lemma_evict_keeps_last(s, max_items);
    let r = evict_spec(s, max_items);
    assert(payload_of(r, (v.counter + 1) as u64) == Some(p));
}

} // verus!
