//! A channel that was opened goes on where it stood: the store that it was opened from holds
//! it, so that whatever is kept of a channel is kept across any number of openings.

use vstd::prelude::*;
use vstd::utf8::*;

use crate::api::Secret;
use crate::bootstrap;
use crate::cbor;
use crate::channel::kept;
use crate::channel::ops;
use crate::channel::rest::{self, Places};
use crate::channel::segments::{self, ReceiverChain, Rendered, SEG_SENDER};
use crate::channel::session;
use crate::channel::state::{self, ChannelState, LogEntry, SegmentKind, StoredChannel};
use crate::hash;
use crate::identity::CompositePublicKey;
use crate::lists;
use crate::table::{self, Key};

verus! {

/// The keys of some rows.
spec fn bare<K: Key, V>(rows: Seq<(K, V)>) -> Seq<(K, ())> {
    Seq::new(rows.len(), |i: int| (rows[i].0, ()))
}

proof fn lemma_bare<K: Key, V>(rows: Seq<(K, V)>)
    requires
        table::ascending(rows),
    ensures
        table::ascending(bare(rows)),
        table::map_of(bare(rows)).dom() == table::map_of(rows).dom(),
    decreases rows.len(),
{
    let keys = bare(rows);
    assert forall|i: int, j: int| 0 <= i < j < keys.len() implies hash::bytes_before(
        (#[trigger] keys[i]).0.key_bytes(),
        (#[trigger] keys[j]).0.key_bytes(),
    ) by {
        assert(hash::bytes_before(rows[i].0.key_bytes(), rows[j].0.key_bytes()));
    }
    if rows.len() > 0 {
        let front = rows.drop_last();
        assert forall|i: int, j: int| 0 <= i < j < front.len() implies hash::bytes_before(
            (#[trigger] front[i]).0.key_bytes(),
            (#[trigger] front[j]).0.key_bytes(),
        ) by {
            assert(front[i] == rows[i] && front[j] == rows[j]);
        }
        lemma_bare(front);
        assert(keys.drop_last() =~= bare(front));
        assert(keys.last().0 == rows.last().0);
    }
    assert(table::map_of(bare(rows)).dom() =~= table::map_of(rows).dom());
}

/// Two tables with the same keys, and alike under each, are alike row by row.
pub(crate) proof fn lemma_rows_alike<K: Key, V>(
    a: Seq<(K, V)>,
    b: Seq<(K, V)>,
    like: spec_fn(V, V) -> bool,
)
    requires
        table::ascending(a),
        table::ascending(b),
        table::map_of(a).dom() == table::map_of(b).dom(),
        forall|k: Seq<u8>| #[trigger]
            table::map_of(b).contains_key(k) ==> like(table::map_of(a)[k], table::map_of(b)[k]),
    ensures
        a.len() == b.len(),
        forall|i: int|
            0 <= i < a.len() ==> (#[trigger] a[i]).0.key_bytes() == b[i].0.key_bytes() && like(
                a[i].1,
                b[i].1,
            ),
{
    lemma_bare(a);
    lemma_bare(b);
    let ka = table::map_of(bare(a));
    let kb = table::map_of(bare(b));
    assert(ka =~= kb) by {
        assert forall|k: Seq<u8>| ka.dom().contains(k) implies #[trigger] ka[k] == kb[k] by {}
    }
    table::law_rows_are_canonical(bare(a), bare(b));
    table::lemma_map_of(a);
    table::lemma_map_of(b);
    assert forall|i: int| 0 <= i < a.len() implies (#[trigger] a[i]).0.key_bytes()
        == b[i].0.key_bytes() && like(a[i].1, b[i].1) by {
        assert(bare(a)[i].0.key_bytes() == bare(b)[i].0.key_bytes());
        assert(table::map_of(b).contains_key(b[i].0.key_bytes()));
    }
}

proof fn lemma_same_authors(c: ChannelState, ch: ChannelState, entries: Seq<LogEntry>)
    requires
        c.wf(),
        ch.wf(),
        rest::agrees(c, ch, entries),
    ensures
        c.authors.rows().len() == ch.authors.rows().len(),
        ops::authors_segment(c.authors) == ops::authors_segment(ch.authors),
{
    let a = c.authors.rows();
    let b = ch.authors.rows();
    let like = |x: CompositePublicKey, y: CompositePublicKey| x.is_same(&y);
    assert forall|k: Seq<u8>| #[trigger] table::map_of(b).contains_key(k) implies like(
        table::map_of(a)[k],
        table::map_of(b)[k],
    ) by {
        assert(ch.authors.map().contains_key(k));
    }
    lemma_rows_alike(a, b, like);
    assert(segments::authors_view(a) =~= segments::authors_view(b)) by {
        assert forall|i: int| 0 <= i < a.len() implies #[trigger] segments::authors_view(a)[i]
            == segments::authors_view(b)[i] by {
            assert(a[i].0.key_bytes() == b[i].0.key_bytes() && like(a[i].1, b[i].1));
        }
    }
}

proof fn lemma_same_receivers(c: ChannelState, ch: ChannelState, entries: Seq<LogEntry>)
    requires
        c.wf(),
        ch.wf(),
        rest::agrees(c, ch, entries),
    ensures
        c.receivers.rows().len() == ch.receivers.rows().len(),
        ops::receivers_segment(c.receivers) == ops::receivers_segment(ch.receivers),
{
    let a = c.receivers.rows();
    let b = ch.receivers.rows();
    let like = |x: ReceiverChain, y: ReceiverChain| rest::same_receiver(x, y);
    assert forall|k: Seq<u8>| #[trigger] table::map_of(b).contains_key(k) implies like(
        table::map_of(a)[k],
        table::map_of(b)[k],
    ) by {
        assert(ch.receivers.map().contains_key(k));
    }
    lemma_rows_alike(a, b, like);
    assert(segments::receivers_view(a) =~= segments::receivers_view(b)) by {
        assert forall|i: int| 0 <= i < a.len() implies #[trigger] segments::receivers_view(a)[i]
            == segments::receivers_view(b)[i] by {
            assert(a[i].0.key_bytes() == b[i].0.key_bytes() && like(a[i].1, b[i].1));
        }
    }
}

proof fn lemma_same_services(c: ChannelState, ch: ChannelState, entries: Seq<LogEntry>)
    requires
        c.wf(),
        ch.wf(),
        rest::agrees(c, ch, entries),
    ensures
        c.services.rows().len() == ch.services.rows().len(),
        forall|i: int|
            0 <= i < c.services.rows().len() ==> (#[trigger] c.services.rows()[i]).1@
                == ch.services.rows()[i].1@,
        ops::services_segment(c.services) == ops::services_segment(ch.services),
{
    let a = c.services.rows();
    let b = ch.services.rows();
    let like = |x: String, y: String| x@ == y@;
    assert forall|k: Seq<u8>| #[trigger] table::map_of(b).contains_key(k) implies like(
        table::map_of(a)[k],
        table::map_of(b)[k],
    ) by {
        assert(ch.services.map().contains_key(k));
    }
    lemma_rows_alike(a, b, like);
    assert forall|i: int| 0 <= i < a.len() implies (#[trigger] a[i]).0@ == b[i].0@ && a[i].1@
        == b[i].1@ by {
        assert(a[i].0.key_bytes() == b[i].0.key_bytes() && like(a[i].1, b[i].1));
        encode_utf8_decode_utf8(a[i].0@);
        encode_utf8_decode_utf8(b[i].0@);
    }
    assert(segments::services_view(a) =~= segments::services_view(b));
}

proof fn lemma_same_ledger(c: ChannelState, ch: ChannelState, entries: Seq<LogEntry>)
    requires
        c.wf(),
        ch.wf(),
        rest::agrees(c, ch, entries),
    ensures
        c.delivered.rows() == ch.delivered.rows(),
{
    let a = c.delivered.rows();
    let b = ch.delivered.rows();
    table::law_rows_are_canonical(a, b);
    assert forall|i: int| 0 <= i < a.len() implies #[trigger] a[i] == b[i] by {
        assert(a[i].0.key_bytes() == b[i].0.key_bytes());
        hash::lemma_digest_ext(a[i].0, b[i].0);
    }
    assert(a =~= b);
}

/// The places of a channel that was opened: those of the channel before, with the entries as
/// they were read.
pub open spec fn places_of(c: ChannelState, p: Places) -> Places {
    Places { entries: c.log@, ..p }
}

/// A channel that was opened is held by the store that it was opened from, and fits where the
/// channel before did: what is proved of a channel and its store goes on from there.
pub proof fn law_opened_channel_is_kept(
    store: Map<(SegmentKind, u64), Seq<u8>>,
    ch: ChannelState,
    p: Places,
    s: StoredChannel,
    c: ChannelState,
    passphrase: Secret,
)
    requires
        ch.wf(),
        rest::fits(ch),
        rest::keeps(store, ch, p),
        rest::reads(s, store, ch, p),
        c.wf(),
        state::opened(c, s, ch.channel_id, passphrase),
    ensures
        rest::keeps(store, c, places_of(c, p)),
        rest::fits(c),
        session::lines(c.timeline@) == session::lines(ch.timeline@),
        c.log@.len() == ch.log@.len(),
{
    rest::law_kept_channel_reopens(store, ch, p, s);
    assert(rest::agrees(c, ch, p.entries));
    lemma_same_authors(c, ch, p.entries);
    lemma_same_receivers(c, ch, p.entries);
    lemma_same_services(c, ch, p.entries);
    lemma_same_ledger(c, ch, p.entries);
    let q = places_of(c, p);
    assert(bootstrap::nodes_view(c.anchors.nodes@).len() == bootstrap::nodes_view(
        ch.anchors.nodes@,
    ).len());
    assert(rest::keeps_keys(store, c));
    assert forall|i: int| 0 <= i < q.ids.len() implies store[(
        SegmentKind::LogDb,
        #[trigger] q.ids[i],
    )] == q.entries[i].wire@ by {
        assert(rest::same_entry(c.log@[i], p.entries[i]));
    }
    assert(rest::same_entries(q.entries, c.log@)) by {
        assert forall|i: int| 0 <= i < c.log@.len() implies c.log@.contains(
            #[trigger] c.log@[i],
        ) by {}
    }
    let shown = session::lines(c.timeline@);
    assert forall|i: int| 0 <= i < c.timeline@.len() implies rest::text_fits(
        (#[trigger] c.timeline@[i]).text@,
    ) by {
        assert(shown[i] == session::lines(ch.timeline@)[i]);
        assert(rest::text_fits(ch.timeline@[i].text@));
    }
    assert forall|i: int| 0 <= i < c.services.rows().len() implies rest::text_fits(
        (#[trigger] c.services.rows()[i]).1@,
    ) by {
        assert(rest::text_fits(ch.services.rows()[i].1@));
    }
}

/// What was rendered outlives a reopening and an append behind it: the channel that is opened
/// numbers its next entry above every row, so that nothing is overwritten. Opened once more,
/// the channel shows every message that it showed before, in its order, and the appended one
/// behind them. `c` is the channel as it was opened first, `after` once the text was appended
/// and written.
pub proof fn law_row_survives_reopening_and_append(
    store: Map<(SegmentKind, u64), Seq<u8>>,
    ch: ChannelState,
    p: Places,
    s: StoredChannel,
    c: ChannelState,
    passphrase: Secret,
    after: ChannelState,
    entry: LogEntry,
    row: Rendered,
    t: StoredChannel,
    d: ChannelState,
    again: Secret,
)
    requires
        ch.wf(),
        rest::fits(ch),
        rest::keeps(store, ch, p),
        rest::reads(s, store, ch, p),
        c.wf(),
        state::opened(c, s, ch.channel_id, passphrase),
        c.next_log_id < u64::MAX,
        after.wf(),
        after == (ChannelState {
            log: after.log,
            timeline: after.timeline,
            sender: after.sender,
            next_log_id: lists::succ(c.next_log_id),
            ..c
        }),
        after.log@ == c.log@.push(entry),
        after.timeline@ == c.timeline@.push(row),
        rest::text_fits(row.text@),
        ({
            let now = rest::put(
                store,
                seq![
                    (SegmentKind::LogDb, c.next_log_id, entry.wire@),
                    (SegmentKind::PlaintextCache, c.next_log_id, cbor::enc(row.toks())),
                    (SegmentKind::KeyMaterial, SEG_SENDER, after.sender.state@),
                ],
            );
            rest::reads(t, now, after, kept::with_own(places_of(c, p), c.next_log_id, entry))
        }),
        state::opened(d, t, ch.channel_id, again),
    ensures
        state::open_fault(t, ch.channel_id) is None,
        session::lines(d.timeline@) == session::lines(ch.timeline@).push(session::line(row)),
        d.log@.len() == ch.log@.len() + 1,
{
    law_opened_channel_is_kept(store, ch, p, s, c, passphrase);
    let q = places_of(c, p);
    kept::law_append_is_kept(store, c, after, q, entry, row, t);
    assert(rest::agrees(d, after, kept::with_own(q, c.next_log_id, entry).entries));
    assert(session::lines(after.timeline@) =~= session::lines(c.timeline@).push(
        session::line(row),
    ));
}

} // verus!
