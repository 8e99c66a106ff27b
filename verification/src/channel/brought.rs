//! Nothing of what a session brings is left out: every entry is reconciled once, stored, and
//! there when the channel is opened again.

use vstd::prelude::*;

use crate::channel::kept;
use crate::channel::log;
use crate::channel::ops;
use crate::channel::rest::{self, Places};
use crate::channel::segments::{ChainSlot, EntryKind, ReceiverChain, SEG_RECEIVERS};
use crate::channel::session::{self, Book, EntryWork, Setting};
use crate::channel::state::{self, ChannelState, LogEntry, SegmentKind, StoredChannel};
use crate::channel::sync;
use crate::content;
use crate::hash::{self, Digest32};
use crate::lists;
use crate::table::{self, Key, Table};

verus! {

/// Whether no two entries have one hash.
pub open spec fn told_apart(lg: Seq<LogEntry>) -> bool {
    forall|i: int, j: int|
        0 <= i < j < lg.len() ==> (#[trigger] lg[i]).entry_hash != (#[trigger] lg[j]).entry_hash
}

/// Whether `brought` goes on from a log: no entry is there twice, each is one of these
/// authors' and lies past what its feed reached, and no two have one place.
pub open spec fn goes_on(held: Seq<LogEntry>, authors: Seq<Digest32>, brought: Seq<LogEntry>) -> bool {
    &&& told_apart(held + brought)
    &&& forall|j: int|
        0 <= j < brought.len() ==> {
            &&& authors.contains((#[trigger] brought[j]).author_id)
            &&& log::max_seq(held, brought[j].author_id) < brought[j].seq
        }
    &&& forall|i: int, j: int|
        0 <= i < j < brought.len() && (#[trigger] brought[i]).author_id == (
        #[trigger] brought[j]).author_id ==> brought[i].seq != brought[j].seq
}

/// Whether `brought` goes on from a channel's log.
pub open spec fn continues(ch: ChannelState, brought: Seq<LogEntry>) -> bool {
    goes_on(ch.log@, ops::ids_of(ch.authors.rows()), brought)
}

/// How far the feeds of these authors reach.
pub open spec fn heads_over(held: Seq<LogEntry>, authors: Seq<Digest32>) -> Seq<(Digest32, u64)> {
    Seq::new(authors.len(), |i: int| (authors[i], log::max_seq(held, authors[i])))
}

proof fn lemma_by_hash(lg: Seq<LogEntry>, j: int)
    requires
        0 <= j < lg.len(),
        told_apart(lg),
    ensures
        sync::by_hash(lg, lg[j].entry_hash) == Some(j),
    decreases lg.len(),
{
    let h = lg[j].entry_hash;
    let front = lg.drop_last();
    if j < front.len() {
        assert(told_apart(front)) by {
            assert forall|a: int, b: int| 0 <= a < b < front.len() implies (
            #[trigger] front[a]).entry_hash != (#[trigger] front[b]).entry_hash by {
                assert(front[a] == lg[a] && front[b] == lg[b]);
            }
        }
        assert(front[j] == lg[j]);
        lemma_by_hash(front, j);
    } else {
        lemma_not_by_hash(front, h, lg);
    }
}

proof fn lemma_not_by_hash(front: Seq<LogEntry>, h: Digest32, lg: Seq<LogEntry>)
    requires
        lg.len() > front.len(),
        front =~= lg.take(front.len() as int),
        told_apart(lg),
        lg[front.len() as int].entry_hash == h || forall|i: int|
            0 <= i < front.len() ==> (#[trigger] front[i]).entry_hash != h,
    ensures
        sync::by_hash(front, h) is None,
    decreases front.len(),
{
    if front.len() > 0 {
        assert forall|i: int| 0 <= i < front.len() implies (#[trigger] front[i]).entry_hash
            != h by {
            if lg[front.len() as int].entry_hash == h {
                assert(front[i] == lg[i]);
            }
        }
        let less = front.drop_last();
        assert forall|i: int| 0 <= i < less.len() implies (#[trigger] less[i]).entry_hash != h by {
            assert(less[i] == front[i]);
        }
        lemma_not_by_hash(less, h, lg);
        assert(front[front.len() - 1].entry_hash != h);
    }
}

/// What is listed of a feed stands in the log at its place.
proof fn lemma_listed_source(lg: Seq<LogEntry>, author: Digest32, from: u64, to: u64, i: int)
    requires
        0 <= i < log::arrived_in(lg, author, from, to).len(),
    ensures
        exists|j: int| #[trigger]
            sync::is_source(lg, j, log::arrived_in(lg, author, from, to)[i]) && lg[j].author_id
                == author && from < lg[j].seq <= to,
    decreases to,
{
    if to > from {
        let front = log::arrived_in(lg, author, from, (to - 1) as u64);
        if i < front.len() {
            lemma_listed_source(lg, author, from, (to - 1) as u64, i);
            let j = choose|j: int| #[trigger]
                sync::is_source(lg, j, front[i]) && lg[j].author_id == author && from < lg[j].seq
                    <= to - 1;
            assert(sync::is_source(lg, j, log::arrived_in(lg, author, from, to)[i]));
        } else {
            log::lemma_feed_at(lg, author, to);
            let j = log::feed_at(lg, author, to)->Some_0;
            assert(sync::is_source(lg, j, log::arrived_in(lg, author, from, to)[i]));
        }
    }
}

/// The entry at a place past `from` is listed.
proof fn lemma_place_is_listed(
    lg: Seq<LogEntry>,
    author: Digest32,
    from: u64,
    to: u64,
    seq: u64,
)
    requires
        from < seq <= to,
        log::feed_at(lg, author, seq) is Some,
    ensures
        log::arrived_in(lg, author, from, to).contains(log::arrived_at(lg, author, seq)[0]),
    decreases to,
{
    let front = log::arrived_in(lg, author, from, (to - 1) as u64);
    let here = log::arrived_at(lg, author, to);
    let whole = log::arrived_in(lg, author, from, to);
    let x = log::arrived_at(lg, author, seq)[0];
    if seq == to {
        assert(whole[front.len() as int] == here[0]);
    } else {
        lemma_place_is_listed(lg, author, from, (to - 1) as u64, seq);
        let i = choose|i: int| 0 <= i < front.len() && front[i] == x;
        assert(whole[i] == x);
    }
}

proof fn lemma_feed_finds(lg: Seq<LogEntry>, j: int)
    requires
        0 <= j < lg.len(),
    ensures
        log::feed_at(lg, lg[j].author_id, lg[j].seq) is Some,
        lg[j].seq <= log::max_seq(lg, lg[j].author_id),
    decreases lg.len(),
{
    if j < lg.len() - 1 {
        lemma_feed_finds(lg.drop_last(), j);
        assert(lg.drop_last()[j] == lg[j]);
    }
}

/// What past the heads stands in the log has arrived.
proof fn lemma_arrives(lg: Seq<LogEntry>, heads: Seq<(Digest32, u64)>, k: int, j: int)
    requires
        0 <= k < heads.len(),
        0 <= j < lg.len(),
        heads[k].0 == lg[j].author_id,
        heads[k].1 < lg[j].seq,
    ensures
        log::arrivals(lg, heads).contains(
            log::arrived_at(lg, lg[j].author_id, lg[j].seq)[0],
        ),
    decreases heads.len(),
{
    let x = log::arrived_at(lg, lg[j].author_id, lg[j].seq)[0];
    let front = log::arrivals(lg, heads.drop_last());
    let (author, head) = heads.last();
    let here = log::arrived_in(lg, author, head, log::max_seq(lg, author));
    let whole = log::arrivals(lg, heads);
    lemma_feed_finds(lg, j);
    if k < heads.len() - 1 {
        assert(heads.drop_last()[k] == heads[k]);
        lemma_arrives(lg, heads.drop_last(), k, j);
        let i = choose|i: int| 0 <= i < front.len() && front[i] == x;
        assert(whole[i] == x);
    } else {
        lemma_place_is_listed(lg, author, head, log::max_seq(lg, author), lg[j].seq);
        let i = choose|i: int| 0 <= i < here.len() && here[i] == x;
        assert(whole[front.len() + i] == x);
    }
}

/// Whether no author is listed twice.
spec fn one_each(heads: Seq<(Digest32, u64)>) -> bool {
    forall|i: int, j: int|
        0 <= i < j < heads.len() ==> (#[trigger] heads[i]).0 != (#[trigger] heads[j]).0
}

/// What arrived is its author's, who is listed.
proof fn lemma_arrived_author(lg: Seq<LogEntry>, heads: Seq<(Digest32, u64)>, i: int)
    requires
        0 <= i < log::arrivals(lg, heads).len(),
    ensures
        exists|k: int|
            0 <= k < heads.len() && (#[trigger] heads[k]).0 == log::arrivals(lg, heads)[i].0,
        exists|j: int| #[trigger] sync::is_source(lg, j, log::arrivals(lg, heads)[i]),
    decreases heads.len(),
{
    if heads.len() > 0 {
        let front = log::arrivals(lg, heads.drop_last());
        let (author, head) = heads.last();
        let last = heads.len() - 1;
        if i < front.len() {
            lemma_arrived_author(lg, heads.drop_last(), i);
            let k = choose|k: int|
                0 <= k < heads.drop_last().len() && (#[trigger] heads.drop_last()[k]).0
                    == front[i].0;
            assert(heads[k].0 == log::arrivals(lg, heads)[i].0);
            let j = choose|j: int| #[trigger] sync::is_source(lg, j, front[i]);
            assert(sync::is_source(lg, j, log::arrivals(lg, heads)[i]));
        } else {
            let at = i - front.len();
            lemma_listed_source(lg, author, head, log::max_seq(lg, author), at);
            let here = log::arrived_in(lg, author, head, log::max_seq(lg, author));
            let j = choose|j: int| #[trigger]
                sync::is_source(lg, j, here[at]) && lg[j].author_id == author && head < lg[j].seq
                    <= log::max_seq(lg, author);
            assert(sync::is_source(lg, j, log::arrivals(lg, heads)[i]));
            assert(heads[last].0 == log::arrivals(lg, heads)[i].0);
        }
    }
}

/// One feed lists no entry twice.
proof fn lemma_feed_lists_once(
    lg: Seq<LogEntry>,
    author: Digest32,
    from: u64,
    to: u64,
    a: int,
    b: int,
)
    requires
        told_apart(lg),
        0 <= a < b < log::arrived_in(lg, author, from, to).len(),
    ensures
        log::arrived_in(lg, author, from, to)[a].1 != log::arrived_in(lg, author, from, to)[b].1,
    decreases to,
{
    if to > from {
        let front = log::arrived_in(lg, author, from, (to - 1) as u64);
        let whole = log::arrived_in(lg, author, from, to);
        if b < front.len() {
            lemma_feed_lists_once(lg, author, from, (to - 1) as u64, a, b);
        } else {
            log::lemma_feed_at(lg, author, to);
            let y = log::feed_at(lg, author, to)->Some_0;
            if a < front.len() {
                lemma_listed_source(lg, author, from, (to - 1) as u64, a);
                let x = choose|x: int| #[trigger]
                    sync::is_source(lg, x, front[a]) && lg[x].author_id == author && from
                        < lg[x].seq <= to - 1;
                if x < y {
                    assert(lg[x].entry_hash != lg[y].entry_hash);
                } else {
                    assert(lg[y].entry_hash != lg[x].entry_hash);
                }
            }
        }
    }
}

/// Nothing arrives twice.
proof fn lemma_arrives_once(
    lg: Seq<LogEntry>,
    heads: Seq<(Digest32, u64)>,
    a: int,
    b: int,
)
    requires
        told_apart(lg),
        one_each(heads),
        0 <= a < b < log::arrivals(lg, heads).len(),
    ensures
        log::arrivals(lg, heads)[a].1 != log::arrivals(lg, heads)[b].1,
    decreases heads.len(),
{
    if heads.len() > 0 {
        let less = heads.drop_last();
        let front = log::arrivals(lg, less);
        let (author, head) = heads.last();
        let to = log::max_seq(lg, author);
        let here = log::arrived_in(lg, author, head, to);
        assert(one_each(less)) by {
            assert forall|i: int, j: int| 0 <= i < j < less.len() implies (#[trigger] less[i]).0
                != (#[trigger] less[j]).0 by {
                assert(less[i] == heads[i] && less[j] == heads[j]);
            }
        }
        if b < front.len() {
            lemma_arrives_once(lg, less, a, b);
        } else if a >= front.len() {
            lemma_feed_lists_once(lg, author, head, to, a - front.len(), b - front.len());
        } else {
            lemma_arrived_author(lg, less, a);
            lemma_listed_source(lg, author, head, to, b - front.len());
            let k = choose|k: int| 0 <= k < less.len() && (#[trigger] less[k]).0 == front[a].0;
            let x = choose|x: int| #[trigger] sync::is_source(lg, x, front[a]);
            let y = choose|y: int| #[trigger]
                sync::is_source(lg, y, here[b - front.len()]) && lg[y].author_id == author && head
                    < lg[y].seq <= to;
            assert(heads[k] == less[k]);
            assert(heads[k].0 != heads[heads.len() - 1].0);
            if x < y {
                assert(lg[x].entry_hash != lg[y].entry_hash);
            } else if y < x {
                assert(lg[y].entry_hash != lg[x].entry_hash);
            }
        }
    }
}

/// The entries that a session's arrivals stand for.
pub open spec fn arrived_entries(
    lg: Seq<LogEntry>,
    arrived: Seq<(Digest32, Digest32, Option<Seq<u8>>)>,
) -> Seq<LogEntry> {
    Seq::new(arrived.len(), |i: int| kept::entry_with(lg, arrived[i].1))
}

/// Everything that goes on from a log arrives, and arrives once, whether its payload was
/// pruned or not.
pub proof fn lemma_all_arrives(
    held: Seq<LogEntry>,
    authors: Seq<Digest32>,
    brought: Seq<LogEntry>,
)
    requires
        authors.no_duplicates(),
        goes_on(held, authors, brought),
    ensures
        ({
            let lg = held + brought;
            let arrived = log::arrivals(lg, heads_over(held, authors));
            &&& rest::same_entries(arrived_entries(lg, arrived), brought)
            &&& forall|i: int|
                0 <= i < arrived.len() ==> authors.contains((#[trigger] arrived[i]).0)
                    && sync::by_hash(lg, arrived[i].1) is Some
        }),
{
    let lg = held + brought;
    let n = held.len();
    let heads = heads_over(held, authors);
    let arrived = log::arrivals(lg, heads);
    let listed = arrived_entries(lg, arrived);
    assert(one_each(heads));
    // What arrived was brought.
    assert forall|i: int| 0 <= i < arrived.len() implies brought.contains(listed[i])
        && listed[i].entry_hash == arrived[i].1 && sync::by_hash(lg, arrived[i].1) is Some
        && authors.contains((#[trigger] arrived[i]).0) by {
        let a = arrived[i];
        assert(arrived.contains(a));
        sync::lemma_arrivals_come_from(lg, heads, a);
        let (j, k) = choose|j: int, k: int|
            #![trigger sync::is_source(lg, j, a), heads[k]]
            sync::is_source(lg, j, a) && 0 <= k < heads.len() && heads[k].0 == lg[j].author_id
                && heads[k].1 < lg[j].seq;
        assert(heads[k].0 == authors[k]);
        if j < n {
            assert(lg[j] == held[j]);
            lemma_feed_finds(held, j);
        }
        assert(lg[j] == brought[j - n]);
        lemma_by_hash(lg, j);
    }
    // What was brought arrived.
    assert forall|j: int| 0 <= j < brought.len() implies listed.contains(#[trigger] brought[j]) by {
        assert(lg[n + j] == brought[j]);
        assert(authors.contains(brought[j].author_id));
        let k = choose|k: int| 0 <= k < authors.len() && authors[k] == brought[j].author_id;
        assert(heads[k] == (brought[j].author_id, log::max_seq(held, brought[j].author_id)));
        lemma_arrives(lg, heads, k, n + j);
        lemma_feed_finds(lg, n + j);
        let x = log::arrived_at(lg, brought[j].author_id, brought[j].seq)[0];
        let i = choose|i: int| 0 <= i < arrived.len() && arrived[i] == x;
        log::lemma_feed_at(lg, brought[j].author_id, brought[j].seq);
        let at = log::feed_at(lg, brought[j].author_id, brought[j].seq)->Some_0;
        if at < n {
            assert(lg[at] == held[at]);
            lemma_feed_finds(held, at);
        } else if at != n + j {
            assert(lg[at] == brought[at - n]);
        }
        assert(at == n + j);
        lemma_by_hash(lg, n + j);
        assert(listed[i] == brought[j]);
    }
    // As many.
    let ha = Seq::new(arrived.len(), |i: int| arrived[i].1);
    let hb = Seq::new(brought.len(), |j: int| brought[j].entry_hash);
    assert(ha.no_duplicates()) by {
        assert forall|a: int, b: int| 0 <= a < ha.len() && 0 <= b < ha.len() && a != b implies ha[a]
            != ha[b] by {
            if a < b {
                lemma_arrives_once(lg, heads, a, b);
            } else {
                lemma_arrives_once(lg, heads, b, a);
            }
        }
    }
    assert(hb.no_duplicates()) by {
        assert forall|a: int, b: int| 0 <= a < hb.len() && 0 <= b < hb.len() && a != b implies hb[a]
            != hb[b] by {
            if a < b {
                assert(lg[n + a].entry_hash != lg[n + b].entry_hash);
            } else {
                assert(lg[n + b].entry_hash != lg[n + a].entry_hash);
            }
        }
    }
    assert(ha.to_set() =~= hb.to_set()) by {
        assert forall|h: Digest32| ha.to_set().contains(h) == hb.to_set().contains(h) by {
            if ha.contains(h) {
                let i = choose|i: int| 0 <= i < ha.len() && ha[i] == h;
                assert(authors.contains(arrived[i].0));
                let j = choose|j: int| 0 <= j < brought.len() && brought[j] == listed[i];
                assert(hb[j] == h);
            }
            if hb.contains(h) {
                let j = choose|j: int| 0 <= j < hb.len() && hb[j] == h;
                assert(listed.contains(brought[j]));
                let i = choose|i: int| 0 <= i < listed.len() && listed[i] == brought[j];
                assert(authors.contains(arrived[i].0));
                assert(ha[i] == h);
            }
        }
    }
    ha.unique_seq_to_set();
    hb.unique_seq_to_set();
    assert forall|i: int| 0 <= i < listed.len() implies brought.contains(#[trigger] listed[i]) by {
        assert(authors.contains(arrived[i].0));
    }
}

/// The authors of a table are listed once each.
pub(crate) proof fn lemma_ids_once<V>(t: Table<Digest32, V>)
    requires
        t.wf(),
    ensures
        ops::ids_of(t.rows()).no_duplicates(),
{
    let rows = t.rows();
    let ids = ops::ids_of(rows);
    assert forall|i: int, j: int| 0 <= i < ids.len() && 0 <= j < ids.len() && i != j implies ids[i]
        != ids[j] by {
        let a = rows[i].0.key_bytes();
        let b = rows[j].0.key_bytes();
        hash::lemma_bytes_order(a, b, a);
        if i < j {
            assert(hash::bytes_before(rows[i].0.key_bytes(), rows[j].0.key_bytes()));
        } else {
            assert(hash::bytes_before(rows[j].0.key_bytes(), rows[i].0.key_bytes()));
        }
    }
}

/// Everything that a session brings arrives, and arrives once, whether its payload was
/// pruned or not; and all of it can be stored.
pub proof fn law_everything_brought_arrives(ch: ChannelState, brought: Seq<LogEntry>)
    requires
        ch.wf(),
        continues(ch, brought),
    ensures
        ({
            let lg = ch.log@ + brought;
            let arrived = log::arrivals(lg, log::heads_of(ch));
            &&& rest::same_entries(arrived_entries(lg, arrived), brought)
            &&& forall|i: int|
                0 <= i < arrived.len() ==> kept::storable(
                    ch.setting_with(brought),
                    #[trigger] arrived[i],
                )
        }),
{
    let lg = ch.log@ + brought;
    let rows = ch.authors.rows();
    let ids = ops::ids_of(rows);
    lemma_ids_once(ch.authors);
    lemma_all_arrives(ch.log@, ids, brought);
    assert(heads_over(ch.log@, ids) =~= log::heads_of(ch));
    let arrived = log::arrivals(lg, log::heads_of(ch));
    assert forall|i: int| 0 <= i < arrived.len() implies kept::storable(
        ch.setting_with(brought),
        #[trigger] arrived[i],
    ) by {
        assert(ids.contains(arrived[i].0));
        let at = choose|at: int| 0 <= at < ids.len() && ids[at] == arrived[i].0;
        table::lemma_map_of(rows);
        assert(ch.authors.map().contains_key(rows[at].0.key_bytes()));
    }
}

// ---- and is there again ----------------------------------------------------------

/// Whether a store holds these receiver chains.
spec fn keeps_chains(
    store: Map<(SegmentKind, u64), Seq<u8>>,
    chains: Map<Seq<u8>, ReceiverChain>,
) -> bool {
    rest::holds(
        store,
        SEG_RECEIVERS,
        session::chains_segment(chains),
        chains == Map::<Seq<u8>, ReceiverChain>::empty(),
    )
}

/// Whether two stores hold the same keys and configuration, but for the receiver chains.
spec fn same_keys(
    a: Map<(SegmentKind, u64), Seq<u8>>,
    b: Map<(SegmentKind, u64), Seq<u8>>,
) -> bool {
    forall|id: u64|
        #![trigger b.contains_key(rest::material(id))]
        #![trigger b[rest::material(id)]]
        id != SEG_RECEIVERS ==> a.contains_key(rest::material(id)) == b.contains_key(
            rest::material(id),
        ) && a[rest::material(id)] == b[rest::material(id)]
}

/// Whether what a message opened to, if it did, is an envelope.
pub open spec fn legible(w: EntryWork) -> bool {
    w.render.opened matches Ok(o) ==> content::envelope_fault(o.plaintext@) is None
}

/// Whether working an entry off writes the receiver chains.
pub open spec fn writes_chains(
    b: Book,
    s: Setting,
    a: (Digest32, Digest32, Option<Seq<u8>>),
    w: EntryWork,
) -> bool {
    let step = Book { next_log_id: lists::succ(b.next_log_id), ..b };
    a.2 is Some && sync::arrived_kind(a, w.framed) == Some(EntryKind::Content)
        && session::render_batch(step, s.me, a.0, a.1, w.render).len() > 0
}

/// The receiver chains as they were last written, once the first `k` entries are worked off.
pub open spec fn chains_at_rest(
    b: Book,
    s: Setting,
    arrived: Seq<(Digest32, Digest32, Option<Seq<u8>>)>,
    works: Seq<EntryWork>,
    k: nat,
) -> Map<Seq<u8>, ReceiverChain>
    decreases k,
{
    if k == 0 {
        b.receivers
    } else {
        let i = (k - 1) as nat;
        let before = session::worked_all(b, s, arrived, works, i).0;
        if writes_chains(before, s, arrived[i as int], works[i as int]) {
            session::worked(before, s, arrived[i as int], works[i as int]).0.receivers
        } else {
            chains_at_rest(b, s, arrived, works, i)
        }
    }
}

proof fn lemma_worked_keys(
    store: Map<(SegmentKind, u64), Seq<u8>>,
    chains: Map<Seq<u8>, ReceiverChain>,
    b: Book,
    s: Setting,
    a: (Digest32, Digest32, Option<Seq<u8>>),
    w: EntryWork,
)
    requires
        keeps_chains(store, chains),
        kept::storable(s, a),
        !session::worked(b, s, a, w).0.poisoned,
    ensures
        ({
            let now = rest::put_batches(store, session::entry_batches(b, s, a, w));
            let left = session::worked(b, s, a, w).0.receivers;
            &&& keeps_chains(
                now,
                if writes_chains(b, s, a, w) {
                    left
                } else {
                    chains
                },
            )
            &&& same_keys(store, now)
            &&& legible(w) && !writes_chains(b, s, a, w) ==> left == b.receivers
        }),
{
    let id = b.next_log_id;
    let wire = kept::entry_with(s.log, a.1).wire@;
    let one = seq![(SegmentKind::LogDb, id, wire)];
    kept::lemma_put_batch(store, one);
    kept::lemma_put_one(store, (SegmentKind::LogDb, id, wire));
    let stored = store.insert((SegmentKind::LogDb, id), wire);
    let step = Book { next_log_id: lists::succ(id), ..b };
    let more = session::render_batch(step, s.me, a.0, a.1, w.render);
    if writes_chains(b, s, a, w) {
        let slot = session::slot_for(step.receivers, s.me, a.0, w.render)->Some_0;
        let o = w.render.opened->Ok_0;
        let line = session::line_in(a.1, a.0, o.plaintext@);
        let advanced = step.receivers.insert(slot.key_bytes(), o.chain);
        let r = (SegmentKind::PlaintextCache, lists::succ(id), session::cached(line));
        let k = (SegmentKind::KeyMaterial, SEG_RECEIVERS, session::chains_segment(advanced));
        assert(more =~= seq![seq![r, k]]);
        assert(session::entry_batches(b, s, a, w) =~= seq![one] + seq![seq![r, k]]);
        kept::lemma_put_batches(store, seq![one], seq![seq![r, k]]);
        kept::lemma_put_batch(stored, seq![r, k]);
        kept::lemma_put_two(stored, r, k);
        assert(session::worked(b, s, a, w).0.receivers == advanced);
    } else {
        assert(session::entry_batches(b, s, a, w) =~= seq![one]);
    }
}

proof fn lemma_session_keys(
    store: Map<(SegmentKind, u64), Seq<u8>>,
    b: Book,
    s: Setting,
    arrived: Seq<(Digest32, Digest32, Option<Seq<u8>>)>,
    works: Seq<EntryWork>,
    k: nat,
)
    requires
        k <= arrived.len() <= works.len(),
        keeps_chains(store, b.receivers),
        forall|i: int| 0 <= i < arrived.len() ==> kept::storable(s, #[trigger] arrived[i]),
        !session::worked_all(b, s, arrived, works, k).0.poisoned,
    ensures
        ({
            let now = rest::put_batches(store, session::all_batches(b, s, arrived, works, k));
            let chains = chains_at_rest(b, s, arrived, works, k);
            &&& keeps_chains(now, chains)
            &&& same_keys(store, now)
            &&& (forall|i: int| 0 <= i < works.len() ==> legible(#[trigger] works[i])) ==> chains
                == session::worked_all(b, s, arrived, works, k).0.receivers
        }),
    decreases k,
{
    if k > 0 {
        let i = (k - 1) as nat;
        let before = session::worked_all(b, s, arrived, works, i).0;
        let a = arrived[i as int];
        let w = works[i as int];
        lemma_session_keys(store, b, s, arrived, works, i);
        let batches = session::all_batches(b, s, arrived, works, i);
        let mid = rest::put_batches(store, batches);
        assert(kept::storable(s, arrived[i as int]));
        lemma_worked_keys(mid, chains_at_rest(b, s, arrived, works, i), before, s, a, w);
        kept::lemma_put_batches(store, batches, session::entry_batches(before, s, a, w));
        if forall|i: int| 0 <= i < works.len() ==> legible(#[trigger] works[i]) {
            assert(legible(works[i as int]));
        }
    }
}

pub(crate) proof fn lemma_same_entries_joined(
    a: Seq<LogEntry>,
    b: Seq<LogEntry>,
    x: Seq<LogEntry>,
    y: Seq<LogEntry>,
)
    requires
        rest::same_entries(a, b),
        rest::same_entries(x, y),
    ensures
        rest::same_entries(a + x, b + y),
{
    assert forall|i: int| 0 <= i < (a + x).len() implies (b + y).contains(#[trigger] (a + x)[i]) by {
        if i < a.len() {
            assert(b.contains(a[i]));
            let j = choose|j: int| 0 <= j < b.len() && b[j] == a[i];
            assert((b + y)[j] == a[i]);
        } else {
            assert(y.contains(x[i - a.len()]));
            let j = choose|j: int| 0 <= j < y.len() && y[j] == x[i - a.len()];
            assert((b + y)[b.len() + j] == y[j]);
        }
    }
    assert forall|i: int| 0 <= i < (b + y).len() implies (a + x).contains(#[trigger] (b + y)[i]) by {
        if i < b.len() {
            assert(a.contains(b[i]));
            let j = choose|j: int| 0 <= j < a.len() && a[j] == b[i];
            assert((a + x)[j] == b[i]);
        } else {
            assert(x.contains(y[i - b.len()]));
            let j = choose|j: int| 0 <= j < x.len() && x[j] == y[i - b.len()];
            assert((a + x)[a.len() + j] == x[j]);
        }
    }
}

/// A pass neither adds a chain nor takes one away, and leaves each under its own name.
proof fn lemma_chains_stay(
    b: Book,
    s: Setting,
    arrived: Seq<(Digest32, Digest32, Option<Seq<u8>>)>,
    works: Seq<EntryWork>,
    k: nat,
)
    requires
        k <= arrived.len(),
        session::works_for(works, arrived),
        state::chains_named(b.receivers),
    ensures
        ({
            let memory = session::worked_all(b, s, arrived, works, k).0.receivers;
            let stored = chains_at_rest(b, s, arrived, works, k);
            &&& memory.dom() == b.receivers.dom() && state::chains_named(memory)
            &&& stored.dom() == b.receivers.dom() && state::chains_named(stored)
        }),
    decreases k,
{
    if k > 0 {
        let i = (k - 1) as nat;
        lemma_chains_stay(b, s, arrived, works, i);
        let before = session::worked_all(b, s, arrived, works, i).0;
        let w = works[i as int];
        assert(w.render.is_by(arrived[i as int].0));
        let after = session::worked(before, s, arrived[i as int], w).0;
        assert(after.receivers.dom() =~= before.receivers.dom());
    }
}

/// Whether `after` is a channel once a session has brought `brought`, with what became of
/// each entry.
pub open spec fn synced(
    before: ChannelState,
    after: ChannelState,
    brought: Seq<LogEntry>,
    works: Seq<EntryWork>,
) -> bool {
    let s = before.setting_with(brought);
    let arrived = log::arrivals(s.log, log::heads_of(before));
    let b = session::worked_all(before.book(0, 0), s, arrived, works, arrived.len()).0;
    &&& session::works_for(works, arrived)
    &&& after.log@ == s.log
    &&& after.same_but_book((ChannelState { log: after.log, ..before }))
    &&& after.book(b.governance, b.rendered) == b
}

/// After a session, failed or not, the channel opens again with every entry that the log
/// holds and every message that is shown: unless a write failed, none of them lives in memory
/// alone. The chains that it opens with are those that were last written, `chains`: all that
/// memory holds, unless a message opened to no envelope, which advances its chain in memory
/// and writes nothing.
pub proof fn law_session_reopens(
    store: Map<(SegmentKind, u64), Seq<u8>>,
    before: ChannelState,
    after: ChannelState,
    p: Places,
    brought: Seq<LogEntry>,
    works: Seq<EntryWork>,
    chains: Table<ChainSlot, ReceiverChain>,
    s: StoredChannel,
)
    requires
        before.wf(),
        after.wf(),
        rest::keeps(store, before, p),
        continues(before, brought),
        synced(before, after, brought, works),
        !after.poisoned,
        after.next_log_id < u64::MAX,
        chains.wf(),
        ({
            let st = before.setting_with(brought);
            let arrived = log::arrivals(st.log, log::heads_of(before));
            chains.map() == chains_at_rest(before.book(0, 0), st, arrived, works, arrived.len())
        }),
    ensures
        ({
            let st = before.setting_with(brought);
            let arrived = log::arrivals(st.log, log::heads_of(before));
            let now = rest::put_batches(
                store,
                session::all_batches(before.book(0, 0), st, arrived, works, arrived.len()),
            );
            let q = kept::with_all_arrived(
                p,
                before.book(0, 0),
                st,
                arrived,
                works,
                arrived.len(),
            );
            let there = ChannelState { receivers: chains, ..after };
            &&& rest::keeps(now, there, q)
            &&& q.entries.len() == after.log@.len()
            &&& rest::fits(before) && rest::rows_fit(after.timeline@) && rest::reads(
                s,
                now,
                there,
                q,
            ) ==> kept::reopens(s, there, q.entries)
            &&& (forall|i: int| 0 <= i < works.len() ==> legible(#[trigger] works[i]))
                ==> chains.map() == after.receivers.map()
        }),
{
    let st = before.setting_with(brought);
    let arrived = log::arrivals(st.log, log::heads_of(before));
    let start = before.book(0, 0);
    let n = arrived.len();
    let b = session::worked_all(start, st, arrived, works, n).0;
    let now = rest::put_batches(store, session::all_batches(start, st, arrived, works, n));
    let q = kept::with_all_arrived(p, start, st, arrived, works, n);
    let there = ChannelState { receivers: chains, ..after };
    law_everything_brought_arrives(before, brought);
    assert(after.book(b.governance, b.rendered).poisoned == after.poisoned);
    assert(after.book(b.governance, b.rendered).next_log_id == after.next_log_id);
    assert(after.book(b.governance, b.rendered).timeline == session::lines(after.timeline@));
    assert(after.book(b.governance, b.rendered).receivers == after.receivers.map());
    kept::law_session_is_stored(store, p, start, st, arrived, works, n);
    session::lemma_chains_segment(before.receivers);
    session::lemma_chains_segment(chains);
    assert(keeps_chains(store, start.receivers)) by {
        if before.receivers.rows().len() == 0 {
            assert(before.receivers.map() =~= Map::<Seq<u8>, ReceiverChain>::empty());
        }
    }
    lemma_session_keys(store, start, st, arrived, works, n);
    if chains.map() == Map::<Seq<u8>, ReceiverChain>::empty() {
        kept::lemma_no_rows(chains);
    }
    lemma_chains_stay(start, st, arrived, works, n);
    table::lemma_rows_counted(before.receivers.rows());
    table::lemma_rows_counted(chains.rows());
    assert(there.wf());
    assert(rest::keeps_keys(now, there));
    let listed = arrived_entries(st.log, arrived);
    assert(q.entries =~= p.entries + listed);
    lemma_same_entries_joined(p.entries, before.log@, listed, brought);
    kept::lemma_reopens(now, there, q, s);
}

} // verus!
