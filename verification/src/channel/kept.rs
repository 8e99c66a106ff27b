//! What an open channel changes is kept: each change, once it was written, is there when the
//! channel is opened again.

use vstd::prelude::*;

use crate::api::Secret;
use crate::cbor;
use crate::channel::log;
use crate::channel::ops;
use crate::channel::rest::{self, Places};
use crate::channel::segments::{
    self, ReceiverChain, Rendered, SEG_ADMISSION, SEG_ANCHORS, SEG_AUTHORS, SEG_DELIVERED,
    SEG_MANIFEST, SEG_ORIGINS, SEG_RECEIVERS, SEG_SENDER, SEG_SERVICES,
};
use crate::channel::session::{self, Book, EntryWork, Setting};
use crate::channel::state::{
    self, ChannelState, LogEntry, SegmentKind, SegmentWrite, StoredChannel,
};
use crate::channel::sync;
use crate::content;
use crate::hash::Digest32;
use crate::identity::CompositePublicKey;
use crate::lists;
use crate::table::{Key, Table};

verus! {

/// Whether `s` opens without a fault, as `ch` with its log in the order of `entries`.
pub open spec fn reopens(s: StoredChannel, ch: ChannelState, entries: Seq<LogEntry>) -> bool {
    &&& s.complete()
    &&& state::open_fault(s, ch.channel_id) is None
    &&& forall|c: ChannelState, passphrase: Secret| #[trigger]
        state::opened(c, s, ch.channel_id, passphrase) ==> rest::agrees(c, ch, entries)
}

/// What is kept is there again.
pub(crate) proof fn lemma_reopens(
    store: Map<(SegmentKind, u64), Seq<u8>>,
    ch: ChannelState,
    p: Places,
    s: StoredChannel,
)
    requires
        rest::keeps(store, ch, p),
    ensures
        ch.wf() && rest::fits(ch) && rest::reads(s, store, ch, p) ==> reopens(s, ch, p.entries),
{
    if ch.wf() && rest::fits(ch) && rest::reads(s, store, ch, p) {
        rest::law_kept_channel_reopens(store, ch, p, s);
    }
}

// ---- writing -----------------------------------------------------------------

pub(crate) proof fn lemma_put_push(
    store: Map<(SegmentKind, u64), Seq<u8>>,
    writes: Seq<(SegmentKind, u64, Seq<u8>)>,
    w: (SegmentKind, u64, Seq<u8>),
)
    ensures
        rest::put(store, writes.push(w)) == rest::put(store, writes).insert((w.0, w.1), w.2),
{
    assert(writes.push(w).drop_last() =~= writes);
}

pub(crate) proof fn lemma_put_one(
    store: Map<(SegmentKind, u64), Seq<u8>>,
    a: (SegmentKind, u64, Seq<u8>),
)
    ensures
        rest::put(store, seq![a]) == store.insert((a.0, a.1), a.2),
{
    lemma_put_push(store, Seq::empty(), a);
    assert(seq![a] =~= Seq::empty().push(a));
}

pub(crate) proof fn lemma_put_two(
    store: Map<(SegmentKind, u64), Seq<u8>>,
    a: (SegmentKind, u64, Seq<u8>),
    b: (SegmentKind, u64, Seq<u8>),
)
    ensures
        rest::put(store, seq![a, b]) == store.insert((a.0, a.1), a.2).insert((b.0, b.1), b.2),
{
    lemma_put_one(store, a);
    lemma_put_push(store, seq![a], b);
    assert(seq![a, b] =~= seq![a].push(b));
}

proof fn lemma_put_three(
    store: Map<(SegmentKind, u64), Seq<u8>>,
    a: (SegmentKind, u64, Seq<u8>),
    b: (SegmentKind, u64, Seq<u8>),
    c: (SegmentKind, u64, Seq<u8>),
)
    ensures
        rest::put(store, seq![a, b, c]) == store.insert((a.0, a.1), a.2).insert(
            (b.0, b.1),
            b.2,
        ).insert((c.0, c.1), c.2),
{
    lemma_put_two(store, a, b);
    lemma_put_push(store, seq![a, b], c);
    assert(seq![a, b, c] =~= seq![a, b].push(c));
}

/// A table without a key has no row.
pub(crate) proof fn lemma_no_rows<K: Key, V>(t: Table<K, V>)
    requires
        t.map() == Map::<Seq<u8>, V>::empty(),
    ensures
        t.rows().len() == 0,
{
    if t.rows().len() > 0 {
        assert(t.map().contains_key(t.rows().last().0.key_bytes()));
    }
}

// ---- a new channel -------------------------------------------------------------

/// Whether `ch` is a channel as it is made or joined, and `writes` the batch that it is
/// written in.
pub open spec fn newborn(
    ch: ChannelState,
    writes: Seq<(SegmentKind, u64, Seq<u8>)>,
    admission: Option<Seq<u8>>,
) -> bool {
    &&& writes == state::birth_writes(
        ch.authors.rows(),
        ch.genesis,
        ch.local_name@,
        ch.created,
        ch.sender,
        ch.origins,
        admission,
    )
    &&& (admission is Some) == (ch.own_admission is Some)
    &&& ch.epoch == 0
    &&& ch.next_log_id == 1
    &&& ch.log@.len() == 0
    &&& ch.timeline@.len() == 0
    &&& ch.receivers.map() == Map::<Seq<u8>, ReceiverChain>::empty()
    &&& ch.anchors.nodes@.len() == 0
    &&& ch.services.map() == Map::<Seq<u8>, String>::empty()
    &&& ch.delivered.map() == Map::<Seq<u8>, u64>::empty()
}

/// No entry and no row.
pub open spec fn nowhere() -> Places {
    Places { ids: Seq::empty(), entries: Seq::empty(), rows: Seq::empty() }
}

/// What a channel that was made or joined writes is all of it: opening it gives the channel
/// back.
pub proof fn law_created_channel_reopens(
    ch: ChannelState,
    writes: Seq<(SegmentKind, u64, Seq<u8>)>,
    admission: Option<Seq<u8>>,
    s: StoredChannel,
)
    requires
        newborn(ch, writes, admission),
    ensures
        rest::keeps(rest::put(Map::empty(), writes), ch, nowhere()),
        ch.wf() && rest::fits(ch) && rest::reads(
            s,
            rest::put(Map::empty(), writes),
            ch,
            nowhere(),
        ) ==> reopens(s, ch, Seq::empty()),
{
    let empty = Map::<(SegmentKind, u64), Seq<u8>>::empty();
    let a = (SegmentKind::KeyMaterial, SEG_AUTHORS, ops::authors_segment(ch.authors));
    let m = (
        SegmentKind::KeyMaterial,
        SEG_MANIFEST,
        cbor::enc(segments::manifest_toks(ch.genesis.wire@, ch.local_name@, ch.created, 0)),
    );
    let c = (SegmentKind::KeyMaterial, SEG_SENDER, ch.sender.state@);
    let o = (SegmentKind::KeyMaterial, SEG_ORIGINS, ch.origins.state@);
    let base = seq![a, m, c, o];
    lemma_put_three(empty, a, m, c);
    lemma_put_push(empty, seq![a, m, c], o);
    assert(base =~= seq![a, m, c].push(o));
    if admission is Some {
        let w = (SegmentKind::KeyMaterial, SEG_ADMISSION, admission->Some_0);
        lemma_put_push(empty, base, w);
        assert(writes =~= base.push(w));
    } else {
        assert(writes =~= base);
    }
    let store = rest::put(empty, writes);
    lemma_no_rows(ch.receivers);
    lemma_no_rows(ch.services);
    lemma_no_rows(ch.delivered);
    assert(session::lines(ch.timeline@).len() == 0);
    assert(rest::keeps_log(store, nowhere(), 1, session::lines(ch.timeline@)));
    assert(rest::keeps(store, ch, nowhere()));
    lemma_reopens(store, ch, nowhere(), s);
}

// ---- a change of keys or configuration -------------------------------------------

/// Whether two stores hold the same entries and rows.
spec fn same_log(
    a: Map<(SegmentKind, u64), Seq<u8>>,
    b: Map<(SegmentKind, u64), Seq<u8>>,
) -> bool {
    forall|n: u64|
        #![trigger b.contains_key((SegmentKind::LogDb, n))]
        #![trigger b[(SegmentKind::LogDb, n)]]
        #![trigger b.contains_key((SegmentKind::PlaintextCache, n))]
        #![trigger b[(SegmentKind::PlaintextCache, n)]]
        a.contains_key((SegmentKind::LogDb, n)) == b.contains_key((SegmentKind::LogDb, n))
            && a[(SegmentKind::LogDb, n)] == b[(SegmentKind::LogDb, n)] && a.contains_key(
            (SegmentKind::PlaintextCache, n),
        ) == b.contains_key((SegmentKind::PlaintextCache, n)) && a[(
            SegmentKind::PlaintextCache,
            n,
        )] == b[(SegmentKind::PlaintextCache, n)]
}

proof fn lemma_same_log(
    a: Map<(SegmentKind, u64), Seq<u8>>,
    b: Map<(SegmentKind, u64), Seq<u8>>,
    p: Places,
    next: u64,
    lines: Seq<(Digest32, Digest32, int, Seq<char>)>,
)
    requires
        same_log(a, b),
        rest::keeps_log(a, p, next, lines),
    ensures
        rest::keeps_log(b, p, next, lines),
{
}

/// An author that was admitted is one when the channel is opened again.
pub proof fn law_author_is_kept(
    store: Map<(SegmentKind, u64), Seq<u8>>,
    before: ChannelState,
    after: ChannelState,
    p: Places,
    key: CompositePublicKey,
    written: SegmentWrite,
    s: StoredChannel,
)
    requires
        rest::keeps(store, before, p),
        ops::admit_fault(before.authors, key) is None,
        ops::admitted(after, before, key, Some(written)),
    ensures
        ({
            let w = (SegmentKind::KeyMaterial, SEG_AUTHORS, ops::authors_segment(after.authors));
            let now = rest::put(store, seq![w]);
            &&& rest::keeps(now, after, p)
            &&& after.wf() && rest::fits(before) && rest::reads(s, now, after, p) ==> reopens(
                s,
                after,
                p.entries,
            )
        }),
{
    let w = (SegmentKind::KeyMaterial, SEG_AUTHORS, ops::authors_segment(after.authors));
    lemma_put_one(store, w);
    let now = rest::put(store, seq![w]);
    lemma_same_log(store, now, p, before.next_log_id, session::lines(before.timeline@));
    if rest::fits(before) {
        assert(rest::fits(after));
    }
    lemma_reopens(now, after, p, s);
}

/// A service that was offered, moved or withdrawn is so when the channel is opened again.
pub proof fn law_service_is_kept(
    store: Map<(SegmentKind, u64), Seq<u8>>,
    before: ChannelState,
    after: ChannelState,
    p: Places,
    s: StoredChannel,
)
    requires
        rest::keeps(store, before, p),
        after == (ChannelState { services: after.services, ..before }),
    ensures
        ({
            let w = (SegmentKind::KeyMaterial, SEG_SERVICES, ops::services_segment(after.services));
            let now = rest::put(store, seq![w]);
            &&& rest::keeps(now, after, p)
            &&& after.wf() && rest::fits(after) && rest::reads(s, now, after, p) ==> reopens(
                s,
                after,
                p.entries,
            )
        }),
{
    let w = (SegmentKind::KeyMaterial, SEG_SERVICES, ops::services_segment(after.services));
    lemma_put_one(store, w);
    let now = rest::put(store, seq![w]);
    lemma_same_log(store, now, p, before.next_log_id, session::lines(before.timeline@));
    lemma_reopens(now, after, p, s);
}

/// A sender key that was taken up is held when the channel is opened again.
pub proof fn law_sender_key_is_kept(
    store: Map<(SegmentKind, u64), Seq<u8>>,
    before: ChannelState,
    after: ChannelState,
    p: Places,
    s: StoredChannel,
)
    requires
        rest::keeps(store, before, p),
        after == (ChannelState { receivers: after.receivers, ..before }),
    ensures
        ({
            let w = (
                SegmentKind::KeyMaterial,
                SEG_RECEIVERS,
                ops::receivers_segment(after.receivers),
            );
            let now = rest::put(store, seq![w]);
            &&& rest::keeps(now, after, p)
            &&& after.wf() && rest::fits(before) && rest::reads(s, now, after, p) ==> reopens(
                s,
                after,
                p.entries,
            )
        }),
{
    let w = (SegmentKind::KeyMaterial, SEG_RECEIVERS, ops::receivers_segment(after.receivers));
    lemma_put_one(store, w);
    let now = rest::put(store, seq![w]);
    lemma_same_log(store, now, p, before.next_log_id, session::lines(before.timeline@));
    lemma_reopens(now, after, p, s);
}

/// What the ledger says of who holds which generation is kept.
pub proof fn law_ledger_is_kept(
    store: Map<(SegmentKind, u64), Seq<u8>>,
    before: ChannelState,
    after: ChannelState,
    p: Places,
    s: StoredChannel,
)
    requires
        rest::keeps(store, before, p),
        after == (ChannelState { delivered: after.delivered, ..before }),
    ensures
        ({
            let w = (
                SegmentKind::KeyMaterial,
                SEG_DELIVERED,
                ops::delivered_segment(after.delivered),
            );
            let now = rest::put(store, seq![w]);
            &&& rest::keeps(now, after, p)
            &&& after.wf() && rest::fits(after) && rest::reads(s, now, after, p) ==> reopens(
                s,
                after,
                p.entries,
            )
        }),
{
    let w = (SegmentKind::KeyMaterial, SEG_DELIVERED, ops::delivered_segment(after.delivered));
    lemma_put_one(store, w);
    let now = rest::put(store, seq![w]);
    lemma_same_log(store, now, p, before.next_log_id, session::lines(before.timeline@));
    lemma_reopens(now, after, p, s);
}

/// How this node came to be a member, once that was written, is known when the channel is
/// opened again. `bytes` is the admission as it was encoded.
pub proof fn law_own_admission_is_kept(
    store: Map<(SegmentKind, u64), Seq<u8>>,
    before: ChannelState,
    after: ChannelState,
    p: Places,
    bytes: Seq<u8>,
    s: StoredChannel,
)
    requires
        rest::keeps(store, before, p),
        after == (ChannelState { own_admission: after.own_admission, ..before }),
        after.own_admission is Some,
    ensures
        ({
            let now = rest::put(store, seq![(SegmentKind::KeyMaterial, SEG_ADMISSION, bytes)]);
            &&& rest::keeps(now, after, p)
            &&& after.wf() && rest::fits(before) && rest::reads(s, now, after, p) ==> reopens(
                s,
                after,
                p.entries,
            )
        }),
{
    let w = (SegmentKind::KeyMaterial, SEG_ADMISSION, bytes);
    lemma_put_one(store, w);
    let now = rest::put(store, seq![w]);
    lemma_same_log(store, now, p, before.next_log_id, session::lines(before.timeline@));
    lemma_reopens(now, after, p, s);
}

/// The anchors that a channel took up, once they were written, are there when it is opened
/// again. `bytes` is the set as it was encoded.
pub proof fn law_anchors_are_kept(
    store: Map<(SegmentKind, u64), Seq<u8>>,
    before: ChannelState,
    after: ChannelState,
    p: Places,
    bytes: Seq<u8>,
    s: StoredChannel,
)
    requires
        rest::keeps(store, before, p),
        after == (ChannelState { anchors: after.anchors, ..before }),
    ensures
        ({
            let now = rest::put(store, seq![(SegmentKind::KeyMaterial, SEG_ANCHORS, bytes)]);
            &&& rest::keeps(now, after, p)
            &&& after.wf() && rest::fits(before) && rest::reads(s, now, after, p) ==> reopens(
                s,
                after,
                p.entries,
            )
        }),
{
    let w = (SegmentKind::KeyMaterial, SEG_ANCHORS, bytes);
    lemma_put_one(store, w);
    let now = rest::put(store, seq![w]);
    lemma_same_log(store, now, p, before.next_log_id, session::lines(before.timeline@));
    lemma_reopens(now, after, p, s);
}

/// A rotation that was written is kept: the channel opens under the new generation, with its
/// origin retained.
pub proof fn law_rotation_is_kept(
    store: Map<(SegmentKind, u64), Seq<u8>>,
    before: ChannelState,
    after: ChannelState,
    p: Places,
    s: StoredChannel,
)
    requires
        rest::keeps(store, before, p),
        after == (ChannelState { sender: after.sender, origins: after.origins, ..before }),
    ensures
        ({
            let now = rest::put(
                store,
                ops::rotation_writes(after.sender, after.origins.state@),
            );
            &&& rest::keeps(now, after, p)
            &&& after.wf() && rest::fits(before) && rest::reads(s, now, after, p) ==> reopens(
                s,
                after,
                p.entries,
            )
        }),
{
    let a = (SegmentKind::KeyMaterial, SEG_SENDER, after.sender.state@);
    let b = (SegmentKind::KeyMaterial, SEG_ORIGINS, after.origins.state@);
    lemma_put_two(store, a, b);
    let now = rest::put(store, ops::rotation_writes(after.sender, after.origins.state@));
    lemma_same_log(store, now, p, before.next_log_id, session::lines(before.timeline@));
    lemma_reopens(now, after, p, s);
}

// ---- an entry, a row -----------------------------------------------------------

/// One more number above all others keeps them ascending.
pub(crate) proof fn lemma_one_more(ids: Seq<u64>, next: u64)
    requires
        rest::increasing(ids),
        state::above(ids) <= next,
        next < u64::MAX,
    ensures
        rest::increasing(ids.push(next)),
        state::above(ids.push(next)) == next + 1,
        forall|n: u64| #[trigger] ids.push(next).contains(n) <==> ids.contains(n) || n == next,
        !ids.contains(next),
{
    let more = ids.push(next);
    assert(more.drop_last() =~= ids);
    assert forall|i: int| 0 <= i < ids.len() implies (#[trigger] ids[i]) < next by {
        rest::lemma_below(ids, i);
    }
    assert forall|i: int, j: int| 0 <= i < j < more.len() implies #[trigger] more[i]
        < #[trigger] more[j] by {
        if j < ids.len() {
            assert(ids[i] < ids[j]);
        } else {
            assert(more[i] == ids[i]);
        }
    }
    assert forall|n: u64| #[trigger] more.contains(n) <==> ids.contains(n) || n == next by {
        if more.contains(n) {
            let i = choose|i: int| 0 <= i < more.len() && more[i] == n;
            if i < ids.len() {
                assert(ids[i] == n);
            }
        }
        if ids.contains(n) {
            let i = choose|i: int| 0 <= i < ids.len() && ids[i] == n;
            assert(more[i] == n);
        }
        if n == next {
            assert(more[ids.len() as int] == n);
        }
    }
    if ids.contains(next) {
        let i = choose|i: int| 0 <= i < ids.len() && ids[i] == next;
        assert(ids[i] < next);
    }
}

/// One more stored entry.
proof fn lemma_entry_kept(
    store: Map<(SegmentKind, u64), Seq<u8>>,
    p: Places,
    next: u64,
    lines: Seq<(Digest32, Digest32, int, Seq<char>)>,
    entry: LogEntry,
)
    requires
        rest::keeps_log(store, p, next, lines),
        next < u64::MAX,
    ensures
        rest::keeps_log(
            store.insert((SegmentKind::LogDb, next), entry.wire@),
            Places { ids: p.ids.push(next), entries: p.entries.push(entry), rows: p.rows },
            lists::succ(next),
            lines,
        ),
{
    lemma_one_more(p.ids, next);
    let now = store.insert((SegmentKind::LogDb, next), entry.wire@);
    let q = Places { ids: p.ids.push(next), entries: p.entries.push(entry), rows: p.rows };
    assert forall|n: u64| #[trigger] now.contains_key((SegmentKind::LogDb, n)) <==> q.ids.contains(
        n,
    ) by {
        assert(store.contains_key((SegmentKind::LogDb, n)) <==> p.ids.contains(n));
    }
    assert forall|n: u64| #[trigger] now.contains_key(
        (SegmentKind::PlaintextCache, n),
    ) <==> q.rows.contains(n) by {
        assert(store.contains_key((SegmentKind::PlaintextCache, n)) <==> p.rows.contains(n));
    }
    assert forall|i: int| 0 <= i < q.ids.len() implies now[(
        SegmentKind::LogDb,
        #[trigger] q.ids[i],
    )] == q.entries[i].wire@ by {
        if i < p.ids.len() {
            assert(p.ids.contains(p.ids[i]));
            assert(store[(SegmentKind::LogDb, p.ids[i])] == p.entries[i].wire@);
        }
    }
}

/// One more rendered row, under a number that no row has.
proof fn lemma_row_kept(
    store: Map<(SegmentKind, u64), Seq<u8>>,
    p: Places,
    next: u64,
    lines: Seq<(Digest32, Digest32, int, Seq<char>)>,
    at: u64,
    line: (Digest32, Digest32, int, Seq<char>),
)
    requires
        rest::keeps_log(store, p, next, lines),
        state::above(p.rows) <= at,
        at < u64::MAX,
    ensures
        rest::keeps_log(
            store.insert((SegmentKind::PlaintextCache, at), session::cached(line)),
            Places { rows: p.rows.push(at), ..p },
            state::later(next, lists::succ(at)),
            lines.push(line),
        ),
{
    lemma_one_more(p.rows, at);
    let now = store.insert((SegmentKind::PlaintextCache, at), session::cached(line));
    let q = Places { rows: p.rows.push(at), ..p };
    assert forall|n: u64| #[trigger] now.contains_key((SegmentKind::LogDb, n)) <==> q.ids.contains(
        n,
    ) by {
        assert(store.contains_key((SegmentKind::LogDb, n)) <==> p.ids.contains(n));
    }
    assert forall|n: u64| #[trigger] now.contains_key(
        (SegmentKind::PlaintextCache, n),
    ) <==> q.rows.contains(n) by {
        assert(store.contains_key((SegmentKind::PlaintextCache, n)) <==> p.rows.contains(n));
    }
    assert forall|i: int| 0 <= i < q.rows.len() implies now[(
        SegmentKind::PlaintextCache,
        #[trigger] q.rows[i],
    )] == session::cached(lines.push(line)[i]) by {
        if i < p.rows.len() {
            assert(p.rows.contains(p.rows[i]));
            assert(store[(SegmentKind::PlaintextCache, p.rows[i])] == session::cached(lines[i]));
        }
    }
}

proof fn lemma_same_entries_push(a: Seq<LogEntry>, b: Seq<LogEntry>, e: LogEntry)
    requires
        rest::same_entries(a, b),
    ensures
        rest::same_entries(a.push(e), b.push(e)),
{
    assert forall|i: int| 0 <= i < a.push(e).len() implies b.push(e).contains(
        #[trigger] a.push(e)[i],
    ) by {
        if i < a.len() {
            assert(b.contains(a[i]));
            let j = choose|j: int| 0 <= j < b.len() && b[j] == a[i];
            assert(b.push(e)[j] == a[i]);
        } else {
            assert(b.push(e)[b.len() as int] == e);
        }
    }
    assert forall|i: int| 0 <= i < b.push(e).len() implies a.push(e).contains(
        #[trigger] b.push(e)[i],
    ) by {
        if i < b.len() {
            assert(a.contains(b[i]));
            let j = choose|j: int| 0 <= j < a.len() && a[j] == b[i];
            assert(a.push(e)[j] == b[i]);
        } else {
            assert(a.push(e)[a.len() as int] == e);
        }
    }
}

/// Where things stand once an entry of one's own was appended: it and its row under one
/// number.
pub open spec fn with_own(p: Places, id: u64, entry: LogEntry) -> Places {
    Places { ids: p.ids.push(id), entries: p.entries.push(entry), rows: p.rows.push(id) }
}

/// A text that was appended is in the log and shown when the channel is opened again, and
/// its chain stands where it did. What was rendered before is still shown.
pub proof fn law_append_is_kept(
    store: Map<(SegmentKind, u64), Seq<u8>>,
    before: ChannelState,
    after: ChannelState,
    p: Places,
    entry: LogEntry,
    row: Rendered,
    s: StoredChannel,
)
    requires
        rest::keeps(store, before, p),
        before.next_log_id < u64::MAX,
        after == (ChannelState {
            log: after.log,
            timeline: after.timeline,
            sender: after.sender,
            next_log_id: lists::succ(before.next_log_id),
            ..before
        }),
        after.log@ == before.log@.push(entry),
        after.timeline@ == before.timeline@.push(row),
    ensures
        ({
            let now = rest::put(
                store,
                seq![
                    (SegmentKind::LogDb, before.next_log_id, entry.wire@),
                    (SegmentKind::PlaintextCache, before.next_log_id, cbor::enc(row.toks())),
                    (SegmentKind::KeyMaterial, SEG_SENDER, after.sender.state@),
                ],
            );
            let q = with_own(p, before.next_log_id, entry);
            &&& rest::keeps(now, after, q)
            &&& after.wf() && rest::fits(before) && rest::text_fits(row.text@) && rest::reads(
                s,
                now,
                after,
                q,
            ) ==> reopens(s, after, q.entries)
        }),
{
    let id = before.next_log_id;
    let lines = session::lines(before.timeline@);
    let e = (SegmentKind::LogDb, id, entry.wire@);
    let r = (SegmentKind::PlaintextCache, id, cbor::enc(row.toks()));
    let k = (SegmentKind::KeyMaterial, SEG_SENDER, after.sender.state@);
    lemma_put_three(store, e, r, k);
    lemma_entry_kept(store, p, id, lines, entry);
    let first = store.insert((SegmentKind::LogDb, id), entry.wire@);
    let q = Places { ids: p.ids.push(id), entries: p.entries.push(entry), rows: p.rows };
    lemma_row_kept(first, q, lists::succ(id), lines, id, session::line(row));
    assert(session::cached(session::line(row)) == cbor::enc(row.toks()));
    assert(session::lines(after.timeline@) =~= lines.push(session::line(row)));
    let second = first.insert((SegmentKind::PlaintextCache, id), cbor::enc(row.toks()));
    let now = rest::put(store, seq![e, r, k]);
    let w = with_own(p, id, entry);
    lemma_same_log(second, now, w, after.next_log_id, session::lines(after.timeline@));
    lemma_same_entries_push(p.entries, before.log@, entry);
    lemma_reopens(now, after, w, s);
}

/// A governance entry of one's own, or a peer's entry, that was stored is in the log when
/// the channel is opened again.
pub proof fn law_stored_entry_is_kept(
    store: Map<(SegmentKind, u64), Seq<u8>>,
    before: ChannelState,
    after: ChannelState,
    p: Places,
    entry: LogEntry,
    s: StoredChannel,
)
    requires
        rest::keeps(store, before, p),
        before.next_log_id < u64::MAX,
        after == (ChannelState {
            log: after.log,
            gov_entries: after.gov_entries,
            next_log_id: lists::succ(before.next_log_id),
            ..before
        }),
        after.log@ == before.log@.push(entry),
    ensures
        ({
            let now = rest::put(
                store,
                seq![(SegmentKind::LogDb, before.next_log_id, entry.wire@)],
            );
            let q = Places {
                ids: p.ids.push(before.next_log_id),
                entries: p.entries.push(entry),
                rows: p.rows,
            };
            &&& rest::keeps(now, after, q)
            &&& after.wf() && rest::fits(before) && rest::reads(s, now, after, q) ==> reopens(
                s,
                after,
                q.entries,
            )
        }),
{
    let id = before.next_log_id;
    let q = Places { ids: p.ids.push(id), entries: p.entries.push(entry), rows: p.rows };
    lemma_put_one(store, (SegmentKind::LogDb, id, entry.wire@));
    lemma_entry_kept(store, p, id, session::lines(before.timeline@), entry);
    lemma_same_entries_push(p.entries, before.log@, entry);
    let now = rest::put(store, seq![(SegmentKind::LogDb, id, entry.wire@)]);
    lemma_reopens(now, after, q, s);
}

/// A message that was rendered is shown when the channel is opened again: its row stands
/// under a number of its own, which neither an entry nor another row has.
pub proof fn law_rendering_is_kept(
    store: Map<(SegmentKind, u64), Seq<u8>>,
    before: ChannelState,
    after: ChannelState,
    p: Places,
    row: Rendered,
    s: StoredChannel,
)
    requires
        rest::keeps(store, before, p),
        before.next_log_id < u64::MAX,
        after == (ChannelState {
            timeline: after.timeline,
            receivers: after.receivers,
            next_log_id: lists::succ(before.next_log_id),
            ..before
        }),
        after.timeline@ == before.timeline@.push(row),
    ensures
        ({
            let now = rest::put(
                store,
                seq![
                    (SegmentKind::PlaintextCache, before.next_log_id, cbor::enc(row.toks())),
                    (
                        SegmentKind::KeyMaterial,
                        SEG_RECEIVERS,
                        ops::receivers_segment(after.receivers),
                    ),
                ],
            );
            let q = Places { rows: p.rows.push(before.next_log_id), ..p };
            &&& !store.contains_key((SegmentKind::LogDb, before.next_log_id))
            &&& !store.contains_key((SegmentKind::PlaintextCache, before.next_log_id))
            &&& rest::keeps(now, after, q)
            &&& after.wf() && rest::fits(before) && rest::text_fits(row.text@) && rest::reads(
                s,
                now,
                after,
                q,
            ) ==> reopens(s, after, q.entries)
        }),
{
    let id = before.next_log_id;
    let lines = session::lines(before.timeline@);
    let r = (SegmentKind::PlaintextCache, id, cbor::enc(row.toks()));
    let k = (SegmentKind::KeyMaterial, SEG_RECEIVERS, ops::receivers_segment(after.receivers));
    rest::law_next_number_is_free(store, p, id, lines);
    lemma_put_two(store, r, k);
    lemma_row_kept(store, p, id, lines, id, session::line(row));
    assert(session::cached(session::line(row)) == cbor::enc(row.toks()));
    assert(session::lines(after.timeline@) =~= lines.push(session::line(row)));
    let first = store.insert((SegmentKind::PlaintextCache, id), cbor::enc(row.toks()));
    let now = rest::put(store, seq![r, k]);
    let q = Places { rows: p.rows.push(id), ..p };
    lemma_same_log(first, now, q, after.next_log_id, session::lines(after.timeline@));
    lemma_reopens(now, after, q, s);
}

// ---- a session -----------------------------------------------------------------

pub(crate) proof fn lemma_put_batches(
    store: Map<(SegmentKind, u64), Seq<u8>>,
    a: Seq<Seq<(SegmentKind, u64, Seq<u8>)>>,
    b: Seq<Seq<(SegmentKind, u64, Seq<u8>)>>,
)
    ensures
        rest::put_batches(store, a + b) == rest::put_batches(rest::put_batches(store, a), b),
    decreases b.len(),
{
    if b.len() > 0 {
        lemma_put_batches(store, a, b.drop_last());
        assert((a + b).drop_last() =~= a + b.drop_last());
        assert((a + b).last() == b.last());
    } else {
        assert(a + b =~= a);
    }
}

pub(crate) proof fn lemma_put_batch(
    store: Map<(SegmentKind, u64), Seq<u8>>,
    b: Seq<(SegmentKind, u64, Seq<u8>)>,
)
    ensures
        rest::put_batches(store, seq![b]) == rest::put(store, b),
{
    reveal_with_fuel(rest::put_batches, 2);
    assert(seq![b].last() == b);
}

/// The entry of a log that has a hash.
pub open spec fn entry_with(lg: Seq<LogEntry>, h: Digest32) -> LogEntry {
    lg[sync::by_hash(lg, h)->Some_0]
}

/// Where things stand once an entry that arrived was worked off.
pub open spec fn with_arrived(
    p: Places,
    b: Book,
    s: Setting,
    a: (Digest32, Digest32, Option<Seq<u8>>),
    w: EntryWork,
) -> Places {
    Places {
        ids: p.ids.push(b.next_log_id),
        entries: p.entries.push(entry_with(s.log, a.1)),
        rows: if session::worked(b, s, a, w).0.timeline.len() > b.timeline.len() {
            p.rows.push(lists::succ(b.next_log_id))
        } else {
            p.rows
        },
    }
}

/// Where things stand once the first `k` entries that arrived were worked off.
pub open spec fn with_all_arrived(
    p: Places,
    b: Book,
    s: Setting,
    arrived: Seq<(Digest32, Digest32, Option<Seq<u8>>)>,
    works: Seq<EntryWork>,
    k: nat,
) -> Places
    decreases k,
{
    if k == 0 {
        p
    } else {
        let i = (k - 1) as nat;
        with_arrived(
            with_all_arrived(p, b, s, arrived, works, i),
            session::worked_all(b, s, arrived, works, i).0,
            s,
            arrived[i as int],
            works[i as int],
        )
    }
}

/// Whether an entry that arrived is one that can be stored.
pub open spec fn storable(s: Setting, a: (Digest32, Digest32, Option<Seq<u8>>)) -> bool {
    s.authors.contains_key(a.0@) && sync::by_hash(s.log, a.1) is Some
}

proof fn lemma_worked_is_kept(
    store: Map<(SegmentKind, u64), Seq<u8>>,
    p: Places,
    b: Book,
    s: Setting,
    a: (Digest32, Digest32, Option<Seq<u8>>),
    w: EntryWork,
)
    requires
        rest::keeps_log(store, p, b.next_log_id, b.timeline),
        storable(s, a),
        !session::worked(b, s, a, w).0.poisoned,
        session::worked(b, s, a, w).0.next_log_id < u64::MAX,
    ensures
        rest::keeps_log(
            rest::put_batches(store, session::entry_batches(b, s, a, w)),
            with_arrived(p, b, s, a, w),
            session::worked(b, s, a, w).0.next_log_id,
            session::worked(b, s, a, w).0.timeline,
        ),
{
    let after = session::worked(b, s, a, w).0;
    let id = b.next_log_id;
    let entry = entry_with(s.log, a.1);
    let one = seq![(SegmentKind::LogDb, id, entry.wire@)];
    let q = Places { ids: p.ids.push(id), entries: p.entries.push(entry), rows: p.rows };
    lemma_put_batch(store, one);
    lemma_put_one(store, (SegmentKind::LogDb, id, entry.wire@));
    lemma_entry_kept(store, p, id, b.timeline, entry);
    let stored = store.insert((SegmentKind::LogDb, id), entry.wire@);
    let step = Book { next_log_id: lists::succ(id), ..b };
    let more = session::render_batch(step, s.me, a.0, a.1, w.render);
    let content = a.2 is Some && sync::arrived_kind(a, w.framed) == Some(
        segments::EntryKind::Content,
    );
    if content && more.len() > 0 {
        let slot = session::slot_for(step.receivers, s.me, a.0, w.render)->Some_0;
        let o = w.render.opened->Ok_0;
        let line = session::line_in(a.1, a.0, o.plaintext@);
        let r = (SegmentKind::PlaintextCache, lists::succ(id), session::cached(line));
        let k = (
            SegmentKind::KeyMaterial,
            SEG_RECEIVERS,
            session::chains_segment(step.receivers.insert(slot.key_bytes(), o.chain)),
        );
        assert(more =~= seq![seq![r, k]]);
        assert(session::entry_batches(b, s, a, w) =~= seq![one] + seq![seq![r, k]]);
        lemma_put_batches(store, seq![one], seq![seq![r, k]]);
        lemma_put_batch(stored, seq![r, k]);
        lemma_put_two(stored, r, k);
        lemma_row_kept(stored, q, lists::succ(id), b.timeline, lists::succ(id), line);
        let shown = stored.insert(
            (SegmentKind::PlaintextCache, lists::succ(id)),
            session::cached(line),
        );
        let now = rest::put(stored, seq![r, k]);
        let rows = Places { rows: q.rows.push(lists::succ(id)), ..q };
        lemma_same_log(shown, now, rows, after.next_log_id, after.timeline);
    } else {
        assert(session::entry_batches(b, s, a, w) =~= seq![one]);
        assert(after.timeline == b.timeline);
    }
}

/// A pass only raises numbers.
proof fn lemma_worked_rises(
    b: Book,
    s: Setting,
    a: (Digest32, Digest32, Option<Seq<u8>>),
    w: EntryWork,
)
    ensures
        b.next_log_id <= session::worked(b, s, a, w).0.next_log_id,
{
}

/// Whatever a session brought is stored, even where the session or one of its entries
/// failed: unless a write failed, the store holds every entry that arrived, behind those it
/// held, and every message that became readable.
pub proof fn law_session_is_stored(
    store: Map<(SegmentKind, u64), Seq<u8>>,
    p: Places,
    b: Book,
    s: Setting,
    arrived: Seq<(Digest32, Digest32, Option<Seq<u8>>)>,
    works: Seq<EntryWork>,
    k: nat,
)
    requires
        k <= arrived.len(),
        rest::keeps_log(store, p, b.next_log_id, b.timeline),
        forall|i: int| 0 <= i < arrived.len() ==> storable(s, #[trigger] arrived[i]),
        !session::worked_all(b, s, arrived, works, k).0.poisoned,
        session::worked_all(b, s, arrived, works, k).0.next_log_id < u64::MAX,
    ensures
        rest::keeps_log(
            rest::put_batches(store, session::all_batches(b, s, arrived, works, k)),
            with_all_arrived(p, b, s, arrived, works, k),
            session::worked_all(b, s, arrived, works, k).0.next_log_id,
            session::worked_all(b, s, arrived, works, k).0.timeline,
        ),
        with_all_arrived(p, b, s, arrived, works, k).entries == p.entries + Seq::new(
            k,
            |i: int| entry_with(s.log, arrived[i].1),
        ),
    decreases k,
{
    if k > 0 {
        let i = (k - 1) as nat;
        let before = session::worked_all(b, s, arrived, works, i).0;
        let a = arrived[i as int];
        let w = works[i as int];
        lemma_worked_rises(before, s, a, w);
        law_session_is_stored(store, p, b, s, arrived, works, i);
        let batches = session::all_batches(b, s, arrived, works, i);
        let mid = rest::put_batches(store, batches);
        let q = with_all_arrived(p, b, s, arrived, works, i);
        assert(storable(s, arrived[i as int]));
        lemma_worked_is_kept(mid, q, before, s, a, w);
        lemma_put_batches(store, batches, session::entry_batches(before, s, a, w));
        assert(with_all_arrived(p, b, s, arrived, works, k).entries =~= p.entries + Seq::new(
            k,
            |i: int| entry_with(s.log, arrived[i].1),
        ));
    } else {
        assert(p.entries + Seq::new(0nat, |i: int| entry_with(s.log, arrived[i].1))
            =~= p.entries);
    }
}

} // verus!
