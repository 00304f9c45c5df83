//! The stored collection: entries ordered by id, the id counter, and the rules
//! for storing, evicting, deleting and listing.
use crate::error::Error;
use crate::keys::{extract_id, id_of_line, MAX_SIZE};
use crate::preview::{preview, preview_spec};
use vstd::prelude::*;

verus! {

/// One stored payload and the id it was given.
pub struct Entry {
    pub id: u64,
    pub payload: Vec<u8>,
}

/// The id and payload of an entry, as values.
pub open spec fn entry_view(e: Entry) -> (u64, Seq<u8>) {
    (e.id, e.payload@)
}

/// The ids and payloads of a run of entries, in order.
pub open spec fn entry_views(es: Seq<Entry>) -> Seq<(u64, Seq<u8>)> {
    es.map_values(|e: Entry| entry_view(e))
}

/// Whether `b` is an ASCII whitespace byte: space, tab, line feed, form feed or
/// carriage return.
pub open spec fn is_space_byte(b: u8) -> bool {
    b == 32 || b == 9 || b == 10 || b == 12 || b == 13
}

/// Whether a payload is kept at all: no longer than `MAX_SIZE`, and not made of
/// whitespace bytes alone (so not empty either).
pub open spec fn worth_storing(p: Seq<u8>) -> bool {
    p.len() <= MAX_SIZE && exists|i: int| 0 <= i < p.len() && !is_space_byte(#[trigger] p[i])
}

/// Decides whether `input` is to be stored.
pub fn should_store(input: &[u8]) -> (r: bool)
    ensures
        r == worth_storing(input@),
{
    if input.len() > MAX_SIZE {
        return false;
    }
    let mut i: usize = 0;
    while i < input.len()
        invariant
            i <= input@.len(),
            input@.len() <= MAX_SIZE,
            forall|j: int| 0 <= j < i ==> is_space_byte(#[trigger] input@[j]),
        decreases input@.len() - i,
    {
        let b = input[i];
        if !(b == 32 || b == 9 || b == 10 || b == 12 || b == 13) {
            assert(!is_space_byte(input@[i as int]));
            return true;
        }
        i = i + 1;
    }
    false
}

/// Whether `q` occurs in `p` as a run of contiguous bytes.
pub open spec fn contains_seq(p: Seq<u8>, q: Seq<u8>) -> bool {
    exists|i: int| 0 <= i && i + q.len() <= p.len() && #[trigger] p.subrange(i, i + q.len()) == q
}

/// Whether `a` and `b` hold the same bytes.
pub fn bytes_equal(a: &[u8], b: &[u8]) -> (r: bool)
    ensures
        r == (a@ == b@),
{
    if a.len() != b.len() {
        return false;
    }
    let mut i: usize = 0;
    while i < a.len()
        invariant
            a@.len() == b@.len(),
            i <= a@.len(),
            forall|j: int| 0 <= j < i ==> a@[j] == b@[j],
        decreases a@.len() - i,
    {
        if a[i] != b[i] {
            return false;
        }
        i = i + 1;
    }
    assert(a@ =~= b@);
    true
}

/// Whether `query` occurs in `payload` as a run of contiguous bytes.
pub fn contains_bytes(payload: &[u8], query: &[u8]) -> (r: bool)
    ensures
        r == contains_seq(payload@, query@),
{
    let n = payload.len();
    let m = query.len();
    if m > n {
        return false;
    }
    let mut i: usize = 0;
    while i <= n - m
        invariant
            n == payload@.len(),
            m == query@.len(),
            m <= n,
            i <= n - m + 1,
            forall|k: int| 0 <= k < i ==> #[trigger] payload@.subrange(k, k + m) != query@,
        decreases n - m + 1 - i,
    {
        let mut j: usize = 0;
        let mut same = true;
        while j < m
            invariant
                n == payload@.len(),
                m == query@.len(),
                i + m <= n,
                j <= m,
                same == (forall|t: int| 0 <= t < j ==> payload@[i + t] == query@[t]),
            decreases m - j,
        {
            if payload[i + j] != query[j] {
                same = false;
            }
            j = j + 1;
        }
        if same {
            assert(payload@.subrange(i as int, i + m) =~= query@);
            return true;
        }
        assert(payload@.subrange(i as int, i + m) != query@) by {
            let t = choose|t: int| 0 <= t < m && payload@[i + t] != query@[t];
            assert(payload@.subrange(i as int, i + m)[t] == payload@[i + t]);
        }
        i = i + 1;
    }
    false
}

/// The ids, in order, of the entries of `s` whose payload is `p`.
pub open spec fn ids_with_payload(s: Seq<(u64, Seq<u8>)>, p: Seq<u8>) -> Seq<u64>
    decreases s.len(),
{
    if s.len() == 0 {
        Seq::empty()
    } else {
        let r = ids_with_payload(s.drop_last(), p);
        if s.last().1 == p {
            r.push(s.last().0)
        } else {
            r
        }
    }
}

/// How many of `len` entries the duplicate scan looks at: `max_dedupe_search + 1`,
/// or all of them where there are fewer.
pub open spec fn scan_len(len: nat, max_dedupe_search: u64) -> nat {
    if len <= max_dedupe_search + 1 {
        len
    } else {
        (max_dedupe_search + 1) as nat
    }
}

/// The ids to delete before `input` is stored, given the entries newest first:
/// those among the first `max_dedupe_search + 1` whose payload equals `input`.
pub fn dedup_keys(newest_first: &Vec<Entry>, input: &[u8], max_dedupe_search: u64) -> (r: Vec<
    u64,
>)
    ensures
        r@ == ids_with_payload(
            entry_views(newest_first@).take(
                scan_len(newest_first@.len(), max_dedupe_search) as int,
            ),
            input@,
        ),
{
    let ghost w = entry_views(newest_first@);
    let mut r: Vec<u64> = Vec::new();
    let mut i: usize = 0;
    while i < newest_first.len() && (i as u64) <= max_dedupe_search
        invariant
            w == entry_views(newest_first@),
            i <= newest_first@.len(),
            i <= max_dedupe_search + 1,
            r@ == ids_with_payload(w.take(i as int), input@),
        decreases newest_first@.len() - i,
    {
        let e = &newest_first[i];
        assert(w.take(i + 1).drop_last() =~= w.take(i as int));
        assert(w.take(i + 1).last() == entry_view(*e));
        if bytes_equal(e.payload.as_slice(), input) {
            r.push(e.id);
        }
        i = i + 1;
    }
    assert(w.take(i as int) =~= w.take(scan_len(newest_first@.len(), max_dedupe_search) as int));
    r
}

/// The ids to evict, given all ids newest first: every one after the first
/// `max_items`.
pub fn evict_keys(newest_first: &Vec<u64>, max_items: u64) -> (r: Vec<u64>)
    ensures
        r@ == (if newest_first@.len() > max_items {
            newest_first@.skip(max_items as int)
        } else {
            Seq::empty()
        }),
{
    let mut r: Vec<u64> = Vec::new();
    if (newest_first.len() as u64) <= max_items {
        return r;
    }
    let start = max_items as usize;
    let mut i: usize = start;
    while i < newest_first.len()
        invariant
            start == max_items,
            start <= i <= newest_first@.len(),
            r@ == newest_first@.subrange(start as int, i as int),
        decreases newest_first@.len() - i,
    {
        r.push(newest_first[i]);
        i = i + 1;
    }
    r
}

/// The collection as values: entries in ascending id order, and the last id that
/// the counter gave out.
pub struct HistoryView {
    pub entries: Seq<(u64, Seq<u8>)>,
    pub counter: u64,
}

/// Ids ascend strictly along `es`.
pub open spec fn ids_ascending(es: Seq<(u64, Seq<u8>)>) -> bool {
    forall|i: int, j: int| 0 <= i < j < es.len() ==> #[trigger] es[i].0 < #[trigger] es[j].0
}

/// No id of `es` is above `counter`.
pub open spec fn ids_bounded(es: Seq<(u64, Seq<u8>)>, counter: u64) -> bool {
    forall|i: int| 0 <= i < es.len() ==> #[trigger] es[i].0 <= counter
}

/// Ids ascend strictly along the entries and none is above the counter.
pub open spec fn view_wf(v: HistoryView) -> bool {
    ids_ascending(v.entries) && ids_bounded(v.entries, v.counter)
}

/// Whether entry `e` escapes the duplicate removal of payload `p`.
pub open spec fn differs(e: (u64, Seq<u8>), p: Seq<u8>) -> bool {
    e.1 != p
}

/// Where the duplicate scan starts: the oldest of the newest
/// `max_dedupe_search + 1` entries.
pub open spec fn scan_start(len: nat, max_dedupe_search: u64) -> int {
    len - scan_len(len, max_dedupe_search)
}

/// `es` with every entry of payload `p` removed from its newest
/// `max_dedupe_search + 1` entries.
pub open spec fn dedup_spec(es: Seq<(u64, Seq<u8>)>, p: Seq<u8>, max_dedupe_search: u64) -> Seq<
    (u64, Seq<u8>),
> {
    let c = scan_start(es.len(), max_dedupe_search);
    es.take(c) + es.skip(c).filter(|e: (u64, Seq<u8>)| differs(e, p))
}

/// The newest `max_items` entries of `es`.
pub open spec fn evict_spec(es: Seq<(u64, Seq<u8>)>, max_items: u64) -> Seq<(u64, Seq<u8>)> {
    if es.len() > max_items {
        es.skip(es.len() - max_items)
    } else {
        es
    }
}

/// The collection after `store` of payload `p`.
pub open spec fn store_spec(v: HistoryView, p: Seq<u8>, max_dedupe_search: u64, max_items: u64) -> HistoryView {
    if !worth_storing(p) || v.counter == u64::MAX {
        v
    } else {
        HistoryView {
            entries: evict_spec(
                dedup_spec(v.entries, p, max_dedupe_search).push(((v.counter + 1) as u64, p)),
                max_items,
            ),
            counter: (v.counter + 1) as u64,
        }
    }
}

/// A clipboard history held in memory: entries in ascending id order and the id
/// counter, which only grows.
pub struct History {
    entries: Vec<Entry>,
    seq: u64,
}

impl View for History {
    type V = HistoryView;

    closed spec fn view(&self) -> HistoryView {
        HistoryView { entries: entry_views(self.entries@), counter: self.seq }
    }
}

impl History {
    /// The collection's invariant.
    pub open spec fn wf(&self) -> bool {
        view_wf(self@)
    }

    /// An empty history whose first id will be 1.
    pub fn new() -> (r: History)
        ensures
            r.wf(),
            r@.entries.len() == 0,
            r@.counter == 0,
    {
        History { entries: Vec::new(), seq: 0 }
    }

    /// Number of entries.
    pub fn len(&self) -> (r: usize)
        ensures
            r == self@.entries.len(),
    {
        self.entries.len()
    }

    /// The entries, oldest first.
    pub fn entries(&self) -> (r: &Vec<Entry>)
        ensures
            entry_views(r@) == self@.entries,
    {
        &self.entries
    }

    /// The last id given out.
    pub fn counter(&self) -> (r: u64)
        ensures
            r == self@.counter,
    {
        self.seq
    }

    /// Removes every entry of payload `input` among the newest
    /// `max_dedupe_search + 1`.
    fn remove_duplicates(&mut self, input: &[u8], max_dedupe_search: u64)
        requires
            old(self).wf(),
        ensures
            final(self).wf(),
            final(self)@.counter == old(self)@.counter,
            final(self)@.entries == dedup_spec(old(self)@.entries, input@, max_dedupe_search),
    {
        let ghost es = self@.entries;
        let mut old_entries: Vec<Entry> = Vec::new();
        std::mem::swap(&mut old_entries, &mut self.entries);
        assert(entry_views(old_entries@) == es);
        let n = old_entries.len();
        let cut: usize = if (n as u64) <= max_dedupe_search {
            0
        } else {
            (n as u64 - max_dedupe_search - 1) as usize
        };
        assert(cut == scan_start(n as nat, max_dedupe_search));
        let ghost pred = |e: (u64, Seq<u8>)| differs(e, input@);
        let mut kept: Vec<Entry> = Vec::new();
        let mut i: usize = 0;
        for e in it: old_entries.into_iter()
            invariant
                it.seq() == old_entries@,
                es == entry_views(old_entries@),
                n == es.len(),
                cut == scan_start(n as nat, max_dedupe_search),
                pred == (|e: (u64, Seq<u8>)| differs(e, input@)),
                ids_ascending(es),
                ids_bounded(es, self.seq),
                ids_ascending(entry_views(kept@)),
                ids_bounded(entry_views(kept@), self.seq),
                forall|k: int, j: int|
                    0 <= k < kept@.len() && i <= j < n ==> #[trigger] kept@[k].id
                        < #[trigger] es[j].0,
                i == it.index(),
                i <= n,
                i <= cut ==> entry_views(kept@) == es.take(i as int),
                i > cut ==> entry_views(kept@) == es.take(cut as int) + es.subrange(
                    cut as int,
                    i as int,
                ).filter(pred),
        {
            let ghost before = kept@;
            assert(e == old_entries@[i as int]);
            assert(es[i as int] == entry_view(e));
            let keep = i < cut || !bytes_equal(e.payload.as_slice(), input);
            if keep {
                kept.push(e);
                assert(forall|k: int| 0 <= k < before.len() ==> kept@[k] == before[k]);
                proof {
                    let kv = entry_views(kept@);
                    assert(forall|k: int| 0 <= k < kept@.len() ==> kv[k].0 == kept@[k].id);
                    assert(forall|k: int| 0 <= k < before.len() ==> #[trigger] before[k].id < es[i as int].0);
                    let bv = entry_views(before);
                    assert forall|a: int, b: int| 0 <= a < b < kv.len() implies #[trigger] kv[a].0 < #[trigger] kv[b].0 by {
                        if b < before.len() {
                            assert(bv[a].0 < bv[b].0);
                        }
                    }
                    assert forall|k: int, j: int| 0 <= k < kept@.len() && i + 1 <= j < n implies #[trigger] kept@[k].id < #[trigger] es[j].0 by {
                        assert(es[i as int].0 < es[j].0);
                    }
                    assert forall|a: int| 0 <= a < kv.len() implies #[trigger] kv[a].0 <= self.seq by {
                        if a < before.len() {
                            assert(bv[a].0 <= self.seq);
                        }
                    }
                }
                assert(entry_views(kept@) =~= entry_views(before).push(es[i as int]));
            } else {
                assert(entry_views(kept@) == entry_views(before));
            }
            proof {
                assert(es.take(i + 1) =~= es.take(i as int).push(es[i as int]));
                if i >= cut {
                    let sub = es.subrange(cut as int, i + 1);
                    let prev = es.subrange(cut as int, i as int);
                    assert(sub.drop_last() =~= prev);
                    assert(sub.last() == es[i as int]);
                    reveal(Seq::filter);
                    assert(pred(es[i as int]) == differs(es[i as int], input@));
                    assert(es[i as int].1 == e.payload@);
                    assert(pred(es[i as int]) == keep);
                    if i == cut {
                        assert(prev =~= Seq::<(u64, Seq<u8>)>::empty());
                        assert(prev.filter(pred) =~= Seq::<(u64, Seq<u8>)>::empty());
                        assert(entry_views(before) == es.take(cut as int));
                    }
                    assert(entry_views(before) == es.take(cut as int) + prev.filter(pred));
                    if keep {
                        assert(sub.filter(pred) == prev.filter(pred).push(es[i as int]));
                        assert(entry_views(kept@) =~= es.take(cut as int) + sub.filter(pred));
                    } else {
                        assert(sub.filter(pred) == prev.filter(pred));
                    }
                }
            }
            i = i + 1;
        }
        assert(es.subrange(cut as int, n as int) =~= es.skip(cut as int));
        if n <= cut {
            assert(es.take(n as int) =~= es);
        }
        self.entries = kept;
    }

    /// Keeps the entries flagged in `keep`, in order.
    fn retain_flagged(&mut self, keep: &Vec<bool>, Ghost(pred): Ghost<spec_fn((u64, Seq<u8>)) -> bool>)
        requires
            old(self).wf(),
            keep@.len() == old(self)@.entries.len(),
            forall|i: int| 0 <= i < keep@.len() ==> keep@[i] == pred(#[trigger] old(self)@.entries[i]),
        ensures
            final(self).wf(),
            final(self)@.counter == old(self)@.counter,
            final(self)@.entries == old(self)@.entries.filter(pred),
    {
        let ghost es = self@.entries;
        let mut old_entries: Vec<Entry> = Vec::new();
        std::mem::swap(&mut old_entries, &mut self.entries);
        assert(entry_views(old_entries@) == es);
        let n = old_entries.len();
        let mut kept: Vec<Entry> = Vec::new();
        let mut i: usize = 0;
        for e in it: old_entries.into_iter()
            invariant
                it.seq() == old_entries@,
                es == entry_views(old_entries@),
                n == es.len(),
                keep@.len() == n,
                forall|i: int| 0 <= i < keep@.len() ==> keep@[i] == pred(#[trigger] es[i]),
                ids_ascending(es),
                ids_bounded(es, self.seq),
                ids_ascending(entry_views(kept@)),
                ids_bounded(entry_views(kept@), self.seq),
                forall|k: int, j: int|
                    0 <= k < kept@.len() && i <= j < n ==> #[trigger] kept@[k].id
                        < #[trigger] es[j].0,
                i == it.index(),
                i <= n,
                entry_views(kept@) == es.take(i as int).filter(pred),
        {
            let ghost before = kept@;
            assert(e == old_entries@[i as int]);
            assert(es[i as int] == entry_view(e));
            proof {
                let sub = es.take(i + 1);
                assert(sub.drop_last() =~= es.take(i as int));
                assert(sub.last() == es[i as int]);
                reveal(Seq::filter);
            }
            if keep[i] {
                kept.push(e);
                assert(forall|k: int| 0 <= k < before.len() ==> kept@[k] == before[k]);
                proof {
                    let kv = entry_views(kept@);
                    let bv = entry_views(before);
                    assert(forall|k: int| 0 <= k < kept@.len() ==> kv[k].0 == kept@[k].id);
                    assert(forall|k: int| 0 <= k < before.len() ==> #[trigger] before[k].id < es[i as int].0);
                    assert forall|a: int, b: int| 0 <= a < b < kv.len() implies #[trigger] kv[a].0 < #[trigger] kv[b].0 by {
                        if b < before.len() {
                            assert(bv[a].0 < bv[b].0);
                        }
                    }
                    assert forall|k: int, j: int| 0 <= k < kept@.len() && i + 1 <= j < n implies #[trigger] kept@[k].id < #[trigger] es[j].0 by {
                        assert(es[i as int].0 < es[j].0);
                    }
                    assert forall|a: int| 0 <= a < kv.len() implies #[trigger] kv[a].0 <= self.seq by {
                        if a < before.len() {
                            assert(bv[a].0 <= self.seq);
                        }
                    }
                    assert(kv =~= bv.push(es[i as int]));
                }
            }
            i = i + 1;
        }
        assert(es.take(n as int) =~= es);
        self.entries = kept;
    }

    /// Keeps the newest `max_items` entries.
    fn evict(&mut self, max_items: u64)
        requires
            old(self).wf(),
        ensures
            final(self).wf(),
            final(self)@.counter == old(self)@.counter,
            final(self)@.entries == evict_spec(old(self)@.entries, max_items),
    {
        let n = self.entries.len();
        if n as u64 > max_items {
            let ghost es = self@.entries;
            let tail = self.entries.split_off(n - max_items as usize);
            self.entries = tail;
            assert(self@.entries =~= es.skip(n - max_items));
        }
    }
}

/// Stores `input` as the newest entry, unless it is longer than `MAX_SIZE` or
/// holds only whitespace: first the entries of equal payload among the newest
/// `max_dedupe_search + 1` are removed, then the payload gets the next id, then
/// the oldest entries go until at most `max_items` are left. Returns the id given,
/// or `None` where nothing was stored.
pub fn store(history: &mut History, input: &[u8], max_dedupe_search: u64, max_items: u64) -> (r:
    Result<Option<u64>, Error>)
    requires
        old(history).wf(),
    ensures
        final(history).wf(),
        final(history)@ == store_spec(old(history)@, input@, max_dedupe_search, max_items),
        !worth_storing(input@) ==> r == Ok::<Option<u64>, Error>(None),
        worth_storing(input@) && old(history)@.counter == u64::MAX ==> r == Err::<Option<u64>, Error>(
            Error::SequenceExhausted,
        ),
        worth_storing(input@) && old(history)@.counter < u64::MAX ==> r == Ok::<Option<u64>, Error>(
            Some((old(history)@.counter + 1) as u64),
        ),
{
    if !should_store(input) {
        return Ok(None);
    }
    if history.seq == u64::MAX {
        return Err(Error::SequenceExhausted);
    }
    history.remove_duplicates(input, max_dedupe_search);
    let id = history.seq + 1;
    let ghost before = history@.entries;
    history.entries.push(Entry { id, payload: vstd::slice::slice_to_vec(input) });
    history.seq = id;
    assert(history@.entries =~= before.push((id, input@)));
    history.evict(max_items);
    Ok(Some(id))
}

/// The entries of `es` whose id is not in `ids`.
pub open spec fn without_ids(es: Seq<(u64, Seq<u8>)>, ids: Seq<u64>) -> Seq<(u64, Seq<u8>)> {
    es.filter(|e: (u64, Seq<u8>)| !ids.contains(e.0))
}

/// The entries of `es` whose payload does not hold `q`.
pub open spec fn without_matches(es: Seq<(u64, Seq<u8>)>, q: Seq<u8>) -> Seq<(u64, Seq<u8>)> {
    es.filter(|e: (u64, Seq<u8>)| !contains_seq(e.1, q))
}

/// Whether `id` is in `ids`.
fn has_id(ids: &Vec<u64>, id: u64) -> (r: bool)
    ensures
        r == ids@.contains(id),
{
    let mut i: usize = 0;
    while i < ids.len()
        invariant
            i <= ids@.len(),
            forall|j: int| 0 <= j < i ==> ids@[j] != id,
        decreases ids@.len() - i,
    {
        if ids[i] == id {
            assert(ids@[i as int] == id);
            return true;
        }
        i = i + 1;
    }
    false
}

/// Deletes the entries with the given ids; ids that are absent are passed over.
pub fn delete_ids(history: &mut History, ids: &Vec<u64>)
    requires
        old(history).wf(),
    ensures
        final(history).wf(),
        final(history)@.counter == old(history)@.counter,
        final(history)@.entries == without_ids(old(history)@.entries, ids@),
{
    let ghost pred = |e: (u64, Seq<u8>)| !ids@.contains(e.0);
    let mut keep: Vec<bool> = Vec::new();
    let mut i: usize = 0;
    while i < history.entries.len()
        invariant
            history.wf(),
            history@ == old(history)@,
            pred == (|e: (u64, Seq<u8>)| !ids@.contains(e.0)),
            i <= history.entries@.len(),
            keep@.len() == i,
            forall|j: int| 0 <= j < i ==> keep@[j] == pred(#[trigger] history@.entries[j]),
        decreases history.entries@.len() - i,
    {
        assert(history@.entries[i as int] == entry_view(history.entries@[i as int]));
        let b = !has_id(ids, history.entries[i].id);
        keep.push(b);
        i = i + 1;
    }
    history.retain_flagged(&keep, Ghost(pred));
    assert(final(history)@.entries == without_ids(old(history)@.entries, ids@));
}

/// Deletes every entry whose payload holds `query` as contiguous bytes. An
/// empty query is refused and nothing changes.
pub fn delete_query(history: &mut History, query: &[u8]) -> (r: Result<(), Error>)
    requires
        old(history).wf(),
    ensures
        final(history).wf(),
        query@.len() == 0 ==> r == Err::<(), Error>(Error::EmptyQuery) && final(history)@ == old(history)@,
        query@.len() > 0 ==> r == Ok::<(), Error>(()) && final(history)@ == (HistoryView {
            entries: without_matches(old(history)@.entries, query@),
            counter: old(history)@.counter,
        }),
{
    if query.len() == 0 {
        return Err(Error::EmptyQuery);
    }
    let ghost pred = |e: (u64, Seq<u8>)| !contains_seq(e.1, query@);
    let mut keep: Vec<bool> = Vec::new();
    let mut i: usize = 0;
    while i < history.entries.len()
        invariant
            history.wf(),
            history@ == old(history)@,
            pred == (|e: (u64, Seq<u8>)| !contains_seq(e.1, query@)),
            i <= history.entries@.len(),
            keep@.len() == i,
            forall|j: int| 0 <= j < i ==> keep@[j] == pred(#[trigger] history@.entries[j]),
        decreases history.entries@.len() - i,
    {
        assert(history@.entries[i as int] == entry_view(history.entries@[i as int]));
        let b = !contains_bytes(history.entries[i].payload.as_slice(), query);
        keep.push(b);
        i = i + 1;
    }
    history.retain_flagged(&keep, Ghost(pred));
    Ok(())
}

/// Deletes the newest entry, if there is one.
pub fn delete_last(history: &mut History)
    requires
        old(history).wf(),
    ensures
        final(history).wf(),
        final(history)@.counter == old(history)@.counter,
        old(history)@.entries.len() == 0 ==> final(history)@.entries == old(history)@.entries,
        old(history)@.entries.len() > 0 ==> final(history)@.entries == old(history)@.entries.drop_last(),
{
    let ghost es = history@.entries;
    if history.entries.len() > 0 {
        history.entries.pop();
        assert(history@.entries =~= es.drop_last());
    }
}

/// Deletes every entry; the id counter keeps its value.
pub fn wipe(history: &mut History)
    requires
        old(history).wf(),
    ensures
        final(history).wf(),
        final(history)@.counter == old(history)@.counter,
        final(history)@.entries.len() == 0,
{
    history.entries = Vec::new();
    assert(history@.entries =~= Seq::<(u64, Seq<u8>)>::empty());
}

/// The payload of the entry with id `id` in `es`, if there is one.
pub open spec fn payload_of(es: Seq<(u64, Seq<u8>)>, id: u64) -> Option<Seq<u8>>
    decreases es.len(),
{
    if es.len() == 0 {
        None
    } else if es.last().0 == id {
        Some(es.last().1)
    } else {
        payload_of(es.drop_last(), id)
    }
}

/// What `lookup` of `id` returns.
pub open spec fn lookup_spec(es: Seq<(u64, Seq<u8>)>, id: u64) -> Result<Seq<u8>, Error> {
    match payload_of(es, id) {
        Some(p) => Ok(p),
        None => Err(Error::NotFound(id)),
    }
}

/// The view of a lookup result.
pub open spec fn bytes_result_view(r: Result<Vec<u8>, Error>) -> Result<Seq<u8>, Error> {
    match r {
        Ok(v) => Ok(v@),
        Err(e) => Err(e),
    }
}

/// A copy of the payload of entry `id`, or `NotFound`.
pub fn lookup(history: &History, id: u64) -> (r: Result<Vec<u8>, Error>)
    ensures
        bytes_result_view(r) == lookup_spec(history@.entries, id),
{
    let ghost es = history@.entries;
    let mut i: usize = history.entries.len();
    assert(es.take(i as int) =~= es);
    while i > 0
        invariant
            es == history@.entries,
            i <= es.len(),
            payload_of(es, id) == payload_of(es.take(i as int), id),
        decreases i,
    {
        let e = &history.entries[i - 1];
        assert(es.take(i as int).drop_last() =~= es.take(i - 1));
        assert(es.take(i as int).last() == entry_view(*e));
        if e.id == id {
            return Ok(vstd::slice::slice_to_vec(e.payload.as_slice()));
        }
        i = i - 1;
    }
    Err(Error::NotFound(id))
}

/// What `decode` of a listing line returns.
pub open spec fn decode_spec(es: Seq<(u64, Seq<u8>)>, line: Seq<char>) -> Result<Seq<u8>, Error> {
    match id_of_line(line) {
        Ok(id) => lookup_spec(es, id),
        Err(e) => Err(e),
    }
}

/// The payload of the entry that a listing line names by its leading id.
pub fn decode(history: &History, input: String) -> (r: Result<Vec<u8>, Error>)
    ensures
        bytes_result_view(r) == decode_spec(history@.entries, input@),
{
    match extract_id(input) {
        Ok(id) => lookup(history, id),
        Err(e) => Err(e),
    }
}

/// Deletes the entries that the listing lines name by their leading ids. Where a
/// line names no id, its error comes back and nothing is deleted.
pub fn delete(history: &mut History, lines: &Vec<String>) -> (r: Result<(), Error>)
    requires
        old(history).wf(),
    ensures
        final(history).wf(),
        r is Ok <==> (forall|k: int| 0 <= k < lines@.len() ==> #[trigger] id_of_line(lines@[k]@) is Ok),
        r is Ok ==> final(history)@ == (HistoryView {
            entries: without_ids(
                old(history)@.entries,
                lines@.map_values(|l: String| id_of_line(l@)->Ok_0),
            ),
            counter: old(history)@.counter,
        }),
        r is Err ==> final(history)@ == old(history)@ && exists|k: int|
            0 <= k < lines@.len() && Err::<u64, Error>(r->Err_0) == #[trigger] id_of_line(lines@[k]@),
{
    let mut ids: Vec<u64> = Vec::new();
    let mut i: usize = 0;
    while i < lines.len()
        invariant
            history.wf(),
            history@ == old(history)@,
            i <= lines@.len(),
            ids@.len() == i,
            forall|k: int| 0 <= k < i ==> #[trigger] id_of_line(lines@[k]@) is Ok,
            forall|k: int| 0 <= k < i ==> ids@[k] == #[trigger] id_of_line(lines@[k]@)->Ok_0,
        decreases lines@.len() - i,
    {
        match extract_id(lines[i].clone()) {
            Ok(id) => ids.push(id),
            Err(e) => {
                return Err(e);
            },
        }
        i = i + 1;
    }
    assert(ids@ =~= lines@.map_values(|l: String| id_of_line(l@)->Ok_0));
    delete_ids(history, &ids);
    Ok(())
}

/// The entries of `es` in the order that a listing shows them: newest first.
pub open spec fn listing_order(es: Seq<(u64, Seq<u8>)>) -> Seq<(u64, Seq<u8>)> {
    Seq::new(es.len(), |k: int| es[es.len() - 1 - k])
}

/// The preview lines of `es`, newest first.
pub open spec fn listing(es: Seq<(u64, Seq<u8>)>, width: nat) -> Seq<Seq<char>> {
    listing_order(es).map_values(|e: (u64, Seq<u8>)| preview_spec(e.0, e.1, width))
}

/// Formats every entry as a preview line, newest first.
pub fn list(history: &History, width: u64) -> (r: Vec<String>)
    ensures
        r@.map_values(|s: String| s@) == listing(history@.entries, width as nat),
{
    let ghost es = history@.entries;
    let n = history.entries.len();
    let mut out: Vec<String> = Vec::new();
    let mut k: usize = 0;
    while k < n
        invariant
            es == history@.entries,
            n == es.len(),
            k <= n,
            out@.len() == k,
            forall|j: int| 0 <= j < k ==> (#[trigger] out@[j])@ == listing(es, width as nat)[j],
        decreases n - k,
    {
        let e = &history.entries[n - 1 - k];
        assert(es[n - 1 - k] == entry_view(*e));
        out.push(preview(e.id, e.payload.as_slice(), width));
        k = k + 1;
    }
    assert(out@.map_values(|s: String| s@) =~= listing(es, width as nat));
    out
}

} // verus!
