//! What a store holds of an anchored channel, and that opening it gives the copy back.

use vstd::prelude::*;

use crate::anchor::copy::{self, AnchorState, StoredAnchor};
use crate::anchor::pass;
use crate::anchor::{self, SEG_META};
use crate::cbor::{self, Tok};
use crate::channel::brought;
use crate::channel::kept;
use crate::channel::log;
use crate::channel::ops;
use crate::channel::reopened;
use crate::channel::rest;
use crate::channel::segments::{self, MAX_AUTHORS};
use crate::channel::state::{self, LogEntry, SegmentKind};
use crate::error::Error;
use crate::hash::{self, Digest32};
use crate::identity::CompositePublicKey;
use crate::lists;
use crate::table::{self, Key};

verus! {

/// Whether a store holds exactly these entries of a copy, and `next` is the first number
/// above them all.
pub open spec fn keeps_entries(
    store: Map<(SegmentKind, u64), Seq<u8>>,
    ids: Seq<u64>,
    entries: Seq<LogEntry>,
    next: u64,
) -> bool {
    &&& ids.len() == entries.len()
    &&& rest::increasing(ids)
    &&& forall|n: u64| #[trigger]
        store.contains_key((SegmentKind::AnchorLog, n)) <==> ids.contains(n)
    &&& forall|i: int|
        0 <= i < ids.len() ==> store[(SegmentKind::AnchorLog, #[trigger] ids[i])]
            == entries[i].wire@
    &&& next == state::above(ids)
}

/// Whether a store holds a copy: what memory has, the store has.
pub open spec fn keeps(
    store: Map<(SegmentKind, u64), Seq<u8>>,
    st: AnchorState,
    ids: Seq<u64>,
    entries: Seq<LogEntry>,
) -> bool {
    &&& store.contains_key((SegmentKind::AnchorMeta, SEG_META))
    &&& store[(SegmentKind::AnchorMeta, SEG_META)] == st.meta()
    &&& keeps_entries(store, ids, entries, st.next_log_id)
    &&& rest::same_entries(entries, st.log@)
}

/// Whether a copy is within what a copy alone does not keep: its authors do not outgrow what
/// a reader admits.
pub open spec fn fits(st: AnchorState) -> bool {
    st.authors.rows().len() <= MAX_AUTHORS
}

/// How many bytes a key takes.
spec fn key_len() -> nat {
    hash::COMPOSITE_PUB_LEN as nat
}

/// The authors of a copy that fits take no more room than a length can say.
proof fn lemma_authors_fit(st: AnchorState)
    requires
        st.wf(),
        fits(st),
    ensures
        ops::authors_segment(st.authors).len() <= u64::MAX,
{
    let rows = st.authors.rows();
    table::lemma_map_of(rows);
    let item = segments::author_item();
    let vs = segments::authors_view(rows);
    let ts = segments::authors_toks(vs);
    let base = segments::segment_head(segments::AUTHORS_VERSION, vs.len());
    assert forall|x: (Seq<u8>, Seq<u8>)| (#[trigger] item(x)).len() == 3 by {}
    cbor::lemma_put_all_len(base, vs, item, 3);
    assert forall|i: int| 0 <= i < vs.len() implies (#[trigger] vs[i]).1.len()
        == hash::COMPOSITE_PUB_LEN by {
        assert(st.authors.map().contains_key(rows[i].0.key_bytes()));
    }
    lemma_rows_small(base, vs);
    cbor::lemma_enc_len(ts, key_len());
    let n = ts.len();
    let width = key_len() + 9;
    assert(n * width <= 10000 * width) by (nonlinear_arith)
        requires
            n <= 10000,
    ;
}

proof fn lemma_rows_small(base: Seq<Tok>, vs: Seq<(Seq<u8>, Seq<u8>)>)
    requires
        forall|i: int| 0 <= i < base.len() ==> cbor::small(#[trigger] base[i], key_len()),
        forall|i: int|
            0 <= i < vs.len() ==> (#[trigger] vs[i]).0.len() <= key_len() && vs[i].1.len() <= key_len(),
    ensures
        ({
            let ts = cbor::put_all(base, vs, segments::author_item());
            forall|i: int| 0 <= i < ts.len() ==> cbor::small(#[trigger] ts[i], key_len())
        }),
    decreases vs.len(),
{
    if vs.len() > 0 {
        let front = vs.drop_last();
        assert forall|i: int| 0 <= i < front.len() implies (#[trigger] front[i]).0.len() <= key_len()
            && front[i].1.len() <= key_len() by {
            assert(front[i] == vs[i]);
        }
        lemma_rows_small(base, front);
        assert(vs[vs.len() - 1].0.len() <= key_len());
        let sofar = cbor::put_all(base, front, segments::author_item());
        let more = segments::author_item()(vs.last());
        let ts = cbor::put_all(base, vs, segments::author_item());
        assert(ts == sofar + more);
        assert forall|i: int| 0 <= i < ts.len() implies cbor::small(#[trigger] ts[i], key_len()) by {
            if i < sofar.len() {
                assert(ts[i] == sofar[i]);
            } else {
                assert(ts[i] == more[i - sofar.len()]);
            }
        }
    }
}

/// Whether `s` is what a store gives for a copy that it holds, with what other formats
/// encode decoding to what was encoded.
pub open spec fn reads(
    s: StoredAnchor,
    store: Map<(SegmentKind, u64), Seq<u8>>,
    st: AnchorState,
    ids: Seq<u64>,
    entries: Seq<LogEntry>,
) -> bool {
    &&& s.wf()
    &&& s.meta matches Ok(Some(b))
    &&& b@ == store[(SegmentKind::AnchorMeta, SEG_META)]
    &&& s.genesis is Ok
    &&& s.genesis->Ok_0.is_same(&st.genesis)
    &&& forall|i: int|
        0 <= i < s.keys@.len() && i < st.authors.rows().len() ==> (#[trigger] s.keys@[i]) is Ok
            && s.keys@[i]->Ok_0.is_same(&st.authors.rows()[i].1)
    &&& s.verified is Ok
    &&& s.entries is Ok
    &&& s.entries->Ok_0@.len() == ids.len()
    &&& forall|i: int|
        0 <= i < ids.len() ==> rest::reads_entry(
            #[trigger] s.entries->Ok_0@[i],
            ids[i],
            entries[i],
        )
}

/// Whether a copy is another one by content, with its log in the order of `entries`.
pub open spec fn agrees(c: AnchorState, st: AnchorState, entries: Seq<LogEntry>) -> bool {
    &&& c.channel_id == st.channel_id
    &&& c.genesis.is_same(&st.genesis)
    &&& c.epoch == st.epoch
    &&& c.authors.map().dom() =~= st.authors.map().dom()
    &&& forall|k: Seq<u8>| #[trigger]
        st.authors.map().contains_key(k) ==> c.authors.map()[k].is_same(&st.authors.map()[k])
    &&& c.log@.len() == entries.len()
    &&& forall|i: int|
        0 <= i < entries.len() ==> rest::same_entry(#[trigger] c.log@[i], entries[i])
    &&& c.next_log_id == st.next_log_id
    &&& !c.poisoned
}

/// Whether `s` opens without a fault, as `st` with its log in the order of `entries`.
pub open spec fn reopens(s: StoredAnchor, st: AnchorState, entries: Seq<LogEntry>) -> bool {
    &&& copy::reopen_fault(s, st.channel_id) is None
    &&& forall|c: AnchorState| #[trigger]
        copy::opened(c, s, st.channel_id) ==> agrees(c, st, entries)
}

/// A copy that its store holds opens again, and is the copy that it was: its genesis, its
/// authors, its entries, and the number that comes next.
pub proof fn law_kept_copy_reopens(
    store: Map<(SegmentKind, u64), Seq<u8>>,
    st: AnchorState,
    ids: Seq<u64>,
    entries: Seq<LogEntry>,
    s: StoredAnchor,
)
    requires
        st.wf(),
        fits(st),
        keeps(store, st, ids, entries),
        reads(s, store, st, ids, entries),
    ensures
        reopens(s, st, entries),
{
    let rows = st.authors.rows();
    let written = ops::authors_segment(st.authors);
    lemma_authors_fit(st);
    assert(st.genesis.wire.len() == st.genesis.wire@.len());
    table::lemma_map_of(rows);
    assert forall|i: int| 0 <= i < rows.len() implies (#[trigger] rows[i]).1.bytes@.len()
        == hash::COMPOSITE_PUB_LEN by {
        assert(st.authors.map().contains_key(rows[i].0.key_bytes()));
    }
    let b = s.meta->Ok_0->Some_0@;
    let stored = s.entries->Ok_0@;
    anchor::law_meta_read_back(st.genesis.wire@, written);
    segments::law_authors_read_back(rows);
    assert(anchor::meta_item(b, 3) == written);
    assert(anchor::meta_front(b).bad is None);
    assert(s.authors.read_from(written));
    assert(s.authors.fault is None);
    rest::lemma_authors_listed(s.authors, rows);
    let f = segments::author_fault(s.authors.rows@, s.keys@);
    let listed = segments::author_keys_of(s.authors.rows@, s.keys@);
    assert forall|i: int| 0 <= i < rows.len() implies (#[trigger] listed[i]).0.key_bytes()
        == rows[i].0.key_bytes() && listed[i].1.is_same(&rows[i].1) by {
        assert(s.authors@[i] == segments::authors_view(rows)[i]);
        assert(s.keys@[i] is Ok);
    }
    assert forall|i: int| 0 <= i < s.authors.rows@.len() implies #[trigger] f(i) is None by {
        assert(s.authors@[i] == segments::authors_view(rows)[i]);
        assert(s.keys@[i] is Ok);
        table::lemma_map_of(rows);
        assert(st.authors.map().contains_key(rows[i].0.key_bytes()));
    }
    rest::lemma_faultless(s.authors.rows@.len(), f);
    let like = |a: CompositePublicKey, b: CompositePublicKey| a.is_same(&b);
    rest::lemma_maps_alike(listed, rows, like);
    assert(s.known() == table::map_of(listed));
    assert(st.authors.map() == table::map_of(rows));
    assert forall|k: Seq<u8>| #[trigger] st.authors.map().contains_key(k) implies s.known()[k].is_same(
        &st.authors.map()[k],
    ) by {
        assert(like(table::map_of(listed)[k], table::map_of(rows)[k]));
    }
    let g = copy::kept_fault(s.known(), stored);
    assert forall|i: int| 0 <= i < stored.len() implies #[trigger] g(i) is None by {
        assert(rest::reads_entry(stored[i], ids[i], entries[i]));
        assert(st.log@.contains(entries[i]));
        let j = choose|j: int| 0 <= j < st.log@.len() && st.log@[j] == entries[i];
        assert(st.authors.has(st.log@[j].author_id@));
        assert(s.known().dom().contains(entries[i].author_id@));
    }
    rest::lemma_faultless(stored.len(), g);
    assert(state::ids_of(stored) =~= ids) by {
        assert forall|i: int| 0 <= i < stored.len() implies state::ids_of(stored)[i] == ids[i] by {
            assert(rest::reads_entry(stored[i], ids[i], entries[i]));
        }
    }
    assert forall|c: AnchorState| #[trigger] copy::opened(c, s, st.channel_id) implies agrees(
        c,
        st,
        entries,
    ) by {
        assert forall|i: int| 0 <= i < entries.len() implies rest::same_entry(
            #[trigger] c.log@[i],
            entries[i],
        ) by {
            assert(rest::reads_entry(stored[i], ids[i], entries[i]));
        }
    }
}

/// What was never anchored does not open.
pub proof fn law_unanchored_does_not_open(s: StoredAnchor, channel_id: Digest32)
    requires
        s.meta == Ok::<Option<Vec<u8>>, Error>(None),
    ensures
        copy::reopen_fault(s, channel_id) == Some(Error::Profile("channel is not anchored here")),
{
}

proof fn lemma_reopens(
    store: Map<(SegmentKind, u64), Seq<u8>>,
    st: AnchorState,
    ids: Seq<u64>,
    entries: Seq<LogEntry>,
    s: StoredAnchor,
)
    requires
        keeps(store, st, ids, entries),
    ensures
        st.wf() && fits(st) && reads(s, store, st, ids, entries) ==> reopens(s, st, entries),
{
    if st.wf() && fits(st) && reads(s, store, st, ids, entries) {
        law_kept_copy_reopens(store, st, ids, entries, s);
    }
}

/// A copy that was started opens again as it was: nothing in it yet but the genesis and its
/// creator.
pub proof fn law_created_copy_reopens(st: AnchorState, s: StoredAnchor)
    requires
        st.log@.len() == 0,
        st.next_log_id == 1,
    ensures
        ({
            let store = rest::put(
                Map::empty(),
                seq![(SegmentKind::AnchorMeta, SEG_META, st.meta())],
            );
            &&& keeps(store, st, Seq::empty(), Seq::empty())
            &&& st.wf() && fits(st) && reads(s, store, st, Seq::empty(), Seq::empty()) ==> reopens(
                s,
                st,
                Seq::empty(),
            )
        }),
{
    let empty = Map::<(SegmentKind, u64), Seq<u8>>::empty();
    let w = (SegmentKind::AnchorMeta, SEG_META, st.meta());
    kept::lemma_put_one(empty, w);
    lemma_reopens(rest::put(empty, seq![w]), st, Seq::empty(), Seq::empty(), s);
}

/// Authors that a copy came to know are known to it when it is opened again.
pub proof fn law_admitted_authors_are_kept(
    store: Map<(SegmentKind, u64), Seq<u8>>,
    before: AnchorState,
    after: AnchorState,
    ids: Seq<u64>,
    entries: Seq<LogEntry>,
    s: StoredAnchor,
)
    requires
        keeps(store, before, ids, entries),
        after == (AnchorState { authors: after.authors, ..before }),
    ensures
        ({
            let now = rest::put(
                store,
                seq![(SegmentKind::AnchorMeta, SEG_META, after.meta())],
            );
            &&& keeps(now, after, ids, entries)
            &&& after.wf() && fits(after) && reads(s, now, after, ids, entries) ==> reopens(
                s,
                after,
                entries,
            )
        }),
{
    let w = (SegmentKind::AnchorMeta, SEG_META, after.meta());
    kept::lemma_put_one(store, w);
    let now = rest::put(store, seq![w]);
    assert forall|n: u64| #[trigger]
        now.contains_key((SegmentKind::AnchorLog, n)) <==> ids.contains(n) by {
        assert(store.contains_key((SegmentKind::AnchorLog, n)) <==> ids.contains(n));
    }
    lemma_reopens(now, after, ids, entries, s);
}

/// A copy that was opened is held by the store that it was opened from, and fits: what is
/// proved of a copy and its store goes on from there.
pub proof fn law_opened_copy_is_kept(
    store: Map<(SegmentKind, u64), Seq<u8>>,
    st: AnchorState,
    ids: Seq<u64>,
    entries: Seq<LogEntry>,
    s: StoredAnchor,
    c: AnchorState,
)
    requires
        st.wf(),
        fits(st),
        keeps(store, st, ids, entries),
        reads(s, store, st, ids, entries),
        c.wf(),
        copy::opened(c, s, st.channel_id),
    ensures
        keeps(store, c, ids, c.log@),
        fits(c),
        c.log@.len() == st.log@.len(),
{
    law_kept_copy_reopens(store, st, ids, entries, s);
    assert(agrees(c, st, entries));
    let a = c.authors.rows();
    let b = st.authors.rows();
    let like = |x: CompositePublicKey, y: CompositePublicKey| x.is_same(&y);
    assert forall|k: Seq<u8>| #[trigger] table::map_of(b).contains_key(k) implies like(
        table::map_of(a)[k],
        table::map_of(b)[k],
    ) by {
        assert(st.authors.map().contains_key(k));
    }
    reopened::lemma_rows_alike(a, b, like);
    assert(segments::authors_view(a) =~= segments::authors_view(b)) by {
        assert forall|i: int| 0 <= i < a.len() implies #[trigger] segments::authors_view(a)[i]
            == segments::authors_view(b)[i] by {
            assert(a[i].0.key_bytes() == b[i].0.key_bytes() && like(a[i].1, b[i].1));
        }
    }
    assert forall|i: int| 0 <= i < ids.len() implies store[(
        SegmentKind::AnchorLog,
        #[trigger] ids[i],
    )] == c.log@[i].wire@ by {
        assert(rest::same_entry(c.log@[i], entries[i]));
    }
    assert(rest::same_entries(c.log@, c.log@)) by {
        assert forall|i: int| 0 <= i < c.log@.len() implies c.log@.contains(
            #[trigger] c.log@[i],
        ) by {}
    }
}

// ---- a session -----------------------------------------------------------------

proof fn lemma_entry_kept(
    store: Map<(SegmentKind, u64), Seq<u8>>,
    ids: Seq<u64>,
    entries: Seq<LogEntry>,
    next: u64,
    entry: LogEntry,
)
    requires
        keeps_entries(store, ids, entries, next),
        next < u64::MAX,
    ensures
        keeps_entries(
            store.insert((SegmentKind::AnchorLog, next), entry.wire@),
            ids.push(next),
            entries.push(entry),
            lists::succ(next),
        ),
{
    kept::lemma_one_more(ids, next);
    let now = store.insert((SegmentKind::AnchorLog, next), entry.wire@);
    assert forall|n: u64| #[trigger] now.contains_key((SegmentKind::AnchorLog, n)) <==> ids.push(
        next,
    ).contains(n) by {
        assert(store.contains_key((SegmentKind::AnchorLog, n)) <==> ids.contains(n));
    }
    assert forall|i: int| 0 <= i < ids.push(next).len() implies now[(
        SegmentKind::AnchorLog,
        #[trigger] ids.push(next)[i],
    )] == entries.push(entry)[i].wire@ by {
        if i < ids.len() {
            assert(ids.contains(ids[i]));
            assert(store[(SegmentKind::AnchorLog, ids[i])] == entries[i].wire@);
        }
    }
}

/// The numbers of `k` segments from `next` on.
pub open spec fn numbers(next: u64, k: nat) -> Seq<u64> {
    Seq::new(k, |i: int| pass::segment_number(next, i as nat))
}

/// The entries of a log with these hashes.
pub open spec fn entries_with(lg: Seq<LogEntry>, hashes: Seq<Digest32>) -> Seq<LogEntry> {
    Seq::new(hashes.len(), |i: int| kept::entry_with(lg, hashes[i]))
}

/// What a pass writes of these entries, from a number on.
pub open spec fn filings(lg: Seq<LogEntry>, hashes: Seq<Digest32>, next: u64) -> Seq<
    (SegmentKind, u64, Seq<u8>),
> {
    Seq::new(
        hashes.len(),
        |i: int|
            (
                SegmentKind::AnchorLog,
                pass::segment_number(next, i as nat),
                pass::wire_of(lg, hashes[i]),
            ),
    )
}

proof fn lemma_filed(
    store: Map<(SegmentKind, u64), Seq<u8>>,
    ids: Seq<u64>,
    entries: Seq<LogEntry>,
    next: u64,
    lg: Seq<LogEntry>,
    hashes: Seq<Digest32>,
)
    requires
        keeps_entries(store, ids, entries, next),
        pass::segment_number(next, hashes.len()) < u64::MAX,
    ensures
        ({
            let now = rest::put(store, filings(lg, hashes, next));
            &&& keeps_entries(
                now,
                ids + numbers(next, hashes.len()),
                entries + entries_with(lg, hashes),
                pass::segment_number(next, hashes.len()),
            )
            &&& now.contains_key((SegmentKind::AnchorMeta, SEG_META)) == store.contains_key(
                (SegmentKind::AnchorMeta, SEG_META),
            )
            &&& now[(SegmentKind::AnchorMeta, SEG_META)] == store[(
                SegmentKind::AnchorMeta,
                SEG_META,
            )]
        }),
    decreases hashes.len(),
{
    let writes = filings(lg, hashes, next);
    if hashes.len() > 0 {
        let less = hashes.drop_last();
        let k = less.len();
        let id = pass::segment_number(next, k);
        let entry = kept::entry_with(lg, hashes.last());
        lemma_filed(store, ids, entries, next, lg, less);
        let mid = rest::put(store, filings(lg, less, next));
        assert(writes.drop_last() =~= filings(lg, less, next));
        assert(writes.last() == (SegmentKind::AnchorLog, id, entry.wire@));
        lemma_entry_kept(
            mid,
            ids + numbers(next, k),
            entries + entries_with(lg, less),
            id,
            entry,
        );
        assert((ids + numbers(next, k)).push(id) =~= ids + numbers(next, hashes.len()));
        assert((entries + entries_with(lg, less)).push(entry) =~= entries + entries_with(
            lg,
            hashes,
        ));
    } else {
        assert(ids + numbers(next, 0) =~= ids);
        assert(entries + entries_with(lg, hashes) =~= entries);
        assert(rest::put(store, writes) == store);
    }
}

/// What an anchor files is what a member's pass would store: the same entries, in the same
/// order.
proof fn lemma_hashes_are_arrivals(lg: Seq<LogEntry>, heads: Seq<(Digest32, u64)>)
    ensures
        pass::hashes_past(lg, heads) == Seq::new(
            log::arrivals(lg, heads).len(),
            |i: int| log::arrivals(lg, heads)[i].1,
        ),
    decreases heads.len(),
{
    if heads.len() > 0 {
        let less = heads.drop_last();
        let (author, head) = heads.last();
        lemma_hashes_are_arrivals(lg, less);
        lemma_hashes_in_feed(lg, author, head, log::max_seq(lg, author));
        assert(pass::hashes_past(lg, heads) =~= Seq::new(
            log::arrivals(lg, heads).len(),
            |i: int| log::arrivals(lg, heads)[i].1,
        ));
    } else {
        assert(pass::hashes_past(lg, heads) =~= Seq::new(
            log::arrivals(lg, heads).len(),
            |i: int| log::arrivals(lg, heads)[i].1,
        ));
    }
}

proof fn lemma_hashes_in_feed(lg: Seq<LogEntry>, author: Digest32, from: u64, to: u64)
    ensures
        pass::hashes_in(lg, author, from, to) == Seq::new(
            log::arrived_in(lg, author, from, to).len(),
            |i: int| log::arrived_in(lg, author, from, to)[i].1,
        ),
    decreases to,
{
    if to > from {
        lemma_hashes_in_feed(lg, author, from, (to - 1) as u64);
    }
    assert(pass::hashes_in(lg, author, from, to) =~= Seq::new(
        log::arrived_in(lg, author, from, to).len(),
        |i: int| log::arrived_in(lg, author, from, to)[i].1,
    ));
}

/// Whether `after` is a copy once a session has brought `brought` and all of it was filed,
/// and `writes` is what was written.
pub open spec fn filed(
    before: AnchorState,
    after: AnchorState,
    brought: Seq<LogEntry>,
    writes: Seq<(SegmentKind, u64, Seq<u8>)>,
) -> bool {
    let lg = before.log@ + brought;
    let hashes = pass::hashes_past(lg, pass::heads_of(before));
    &&& after == (AnchorState {
        log: after.log,
        next_log_id: pass::segment_number(before.next_log_id, hashes.len()),
        ..before
    })
    &&& after.log@ == lg
    &&& writes == filings(lg, hashes, before.next_log_id)
}

/// After a session, failed or not, a copy opens again with every entry that it holds, those
/// with a pruned payload among them: whatever arrived was filed.
pub proof fn law_session_reopens(
    store: Map<(SegmentKind, u64), Seq<u8>>,
    before: AnchorState,
    after: AnchorState,
    ids: Seq<u64>,
    entries: Seq<LogEntry>,
    brought: Seq<LogEntry>,
    writes: Seq<(SegmentKind, u64, Seq<u8>)>,
    s: StoredAnchor,
)
    requires
        before.wf(),
        keeps(store, before, ids, entries),
        brought::goes_on(before.log@, ops::ids_of(before.authors.rows()), brought),
        filed(before, after, brought, writes),
        after.next_log_id < u64::MAX,
    ensures
        ({
            let lg = before.log@ + brought;
            let hashes = pass::hashes_past(lg, pass::heads_of(before));
            let now = rest::put(store, writes);
            let is = ids + numbers(before.next_log_id, hashes.len());
            let es = entries + entries_with(lg, hashes);
            &&& keeps(now, after, is, es)
            &&& es.len() == after.log@.len()
            &&& after.wf() && fits(before) && reads(s, now, after, is, es) ==> reopens(
                s,
                after,
                es,
            )
        }),
{
    let lg = before.log@ + brought;
    let heads = pass::heads_of(before);
    let authors = ops::ids_of(before.authors.rows());
    let arrived = log::arrivals(lg, heads);
    let hashes = pass::hashes_past(lg, heads);
    assert(brought::heads_over(before.log@, authors) =~= heads);
    brought::lemma_ids_once(before.authors);
    brought::lemma_all_arrives(before.log@, authors, brought);
    lemma_hashes_are_arrivals(lg, heads);
    assert(entries_with(lg, hashes) =~= brought::arrived_entries(lg, arrived));
    lemma_filed(store, ids, entries, before.next_log_id, lg, hashes);
    brought::lemma_same_entries_joined(entries, before.log@, entries_with(lg, hashes), brought);
    let is = ids + numbers(before.next_log_id, hashes.len());
    let es = entries + entries_with(lg, hashes);
    lemma_reopens(rest::put(store, writes), after, is, es, s);
}

} // verus!
