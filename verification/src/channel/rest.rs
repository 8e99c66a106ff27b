//! What a store holds of a channel, and that opening it gives the channel back.

use vstd::prelude::*;
use vstd::utf8::*;

use crate::api::Secret;
use crate::bootstrap;
use crate::cbor::{self, Tok};
use crate::channel::ops;
use crate::channel::segments::{
    self, AuthorsRead, EntryKind, ReceiverChain, Rendered, MAX_AUTHORS, SEG_ADMISSION,
    SEG_ANCHORS, SEG_AUTHORS, SEG_DELIVERED, SEG_MANIFEST, SEG_ORIGINS, SEG_RECEIVERS, SEG_SENDER,
    SEG_SERVICES,
};
use crate::channel::session;
use crate::channel::state::{
    self, Admission, ChannelState, LogEntry, SegmentKind, SenderChain, StoredChannel, StoredEntry,
    StoredRow,
};
use crate::error::Error;
use crate::hash::{self, Digest32};
use crate::identity::CompositePublicKey;
use crate::lists;
use crate::table::{self, Key};

verus! {

// ---- a store -----------------------------------------------------------------

/// The place of a segment with keys or configuration.
pub open spec fn material(id: u64) -> (SegmentKind, u64) {
    (SegmentKind::KeyMaterial, id)
}

/// What a store holds once a batch was written: segments by kind and number.
pub open spec fn put(
    store: Map<(SegmentKind, u64), Seq<u8>>,
    writes: Seq<(SegmentKind, u64, Seq<u8>)>,
) -> Map<(SegmentKind, u64), Seq<u8>>
    decreases writes.len(),
{
    if writes.len() == 0 {
        store
    } else {
        let w = writes.last();
        put(store, writes.drop_last()).insert((w.0, w.1), w.2)
    }
}

/// What a store holds once batches were written, one after the other.
pub open spec fn put_batches(
    store: Map<(SegmentKind, u64), Seq<u8>>,
    batches: Seq<Seq<(SegmentKind, u64, Seq<u8>)>>,
) -> Map<(SegmentKind, u64), Seq<u8>>
    decreases batches.len(),
{
    if batches.len() == 0 {
        store
    } else {
        put(put_batches(store, batches.drop_last()), batches.last())
    }
}

/// Where the entries and the rendered rows of a channel stand in its store.
pub struct Places {
    /// The numbers of the stored entries, in ascending order.
    pub ids: Seq<u64>,
    /// The entries that they hold.
    pub entries: Seq<LogEntry>,
    /// The numbers of the rendered rows, in ascending order.
    pub rows: Seq<u64>,
}

/// Whether numbers ascend.
pub open spec fn increasing(ids: Seq<u64>) -> bool {
    forall|i: int, j: int| 0 <= i < j < ids.len() ==> #[trigger] ids[i] < #[trigger] ids[j]
}

/// Whether a store holds exactly these entries and these messages, and `next` is the first
/// number above them all.
pub open spec fn keeps_log(
    store: Map<(SegmentKind, u64), Seq<u8>>,
    p: Places,
    next: u64,
    lines: Seq<(Digest32, Digest32, int, Seq<char>)>,
) -> bool {
    &&& p.ids.len() == p.entries.len()
    &&& p.rows.len() == lines.len()
    &&& increasing(p.ids)
    &&& increasing(p.rows)
    &&& forall|n: u64| #[trigger]
        store.contains_key((SegmentKind::LogDb, n)) <==> p.ids.contains(n)
    &&& forall|i: int|
        0 <= i < p.ids.len() ==> store[(SegmentKind::LogDb, #[trigger] p.ids[i])]
            == p.entries[i].wire@
    &&& forall|n: u64| #[trigger]
        store.contains_key((SegmentKind::PlaintextCache, n)) <==> p.rows.contains(n)
    &&& forall|i: int|
        0 <= i < p.rows.len() ==> store[(SegmentKind::PlaintextCache, #[trigger] p.rows[i])]
            == session::cached(lines[i])
    &&& next == state::later(state::above(p.ids), state::above(p.rows))
}

/// Whether both list the same entries, as many of them, in whatever order.
pub open spec fn same_entries(a: Seq<LogEntry>, b: Seq<LogEntry>) -> bool {
    &&& a.len() == b.len()
    &&& forall|i: int| 0 <= i < a.len() ==> b.contains(#[trigger] a[i])
    &&& forall|i: int| 0 <= i < b.len() ==> a.contains(#[trigger] b[i])
}

/// Whether a store holds `bytes` under a number, or nothing where there is nothing to hold.
pub open spec fn holds(
    store: Map<(SegmentKind, u64), Seq<u8>>,
    id: u64,
    bytes: Seq<u8>,
    nothing: bool,
) -> bool {
    if store.contains_key(material(id)) {
        store[material(id)] == bytes
    } else {
        nothing
    }
}

/// Whether a store holds a channel's keys and its configuration.
pub open spec fn keeps_keys(
    store: Map<(SegmentKind, u64), Seq<u8>>,
    ch: ChannelState,
) -> bool {
    &&& holds(
        store,
        SEG_MANIFEST,
        cbor::enc(
            segments::manifest_toks(ch.genesis.wire@, ch.local_name@, ch.created, ch.epoch),
        ),
        false,
    )
    &&& holds(store, SEG_AUTHORS, ops::authors_segment(ch.authors), false)
    &&& holds(store, SEG_SENDER, ch.sender.state@, false)
    &&& holds(store, SEG_ORIGINS, ch.origins.state@, false)
    &&& holds(
        store,
        SEG_RECEIVERS,
        ops::receivers_segment(ch.receivers),
        ch.receivers.rows().len() == 0,
    )
    &&& holds(
        store,
        SEG_SERVICES,
        ops::services_segment(ch.services),
        ch.services.rows().len() == 0,
    )
    &&& holds(
        store,
        SEG_DELIVERED,
        ops::delivered_segment(ch.delivered),
        ch.delivered.rows().len() == 0,
    )
    &&& !store.contains_key(material(SEG_ANCHORS)) ==> ch.anchors.nodes@.len() == 0
    &&& store.contains_key(material(SEG_ADMISSION)) == (ch.own_admission is Some)
}

/// Whether a store holds a channel: what memory has, the store has.
pub open spec fn keeps(
    store: Map<(SegmentKind, u64), Seq<u8>>,
    ch: ChannelState,
    p: Places,
) -> bool {
    &&& keeps_keys(store, ch)
    &&& keeps_log(store, p, ch.next_log_id, session::lines(ch.timeline@))
    &&& same_entries(p.entries, ch.log@)
}

/// Whether a channel is within what a channel alone does not keep: neither its authors nor
/// its ledger outgrow what a reader admits, and the texts in it are no longer than a length
/// can be.
pub open spec fn fits(ch: ChannelState) -> bool {
    &&& ch.authors.rows().len() <= MAX_AUTHORS
    &&& ch.delivered.rows().len() <= MAX_AUTHORS
    &&& rows_fit(ch.timeline@)
    &&& forall|i: int|
        0 <= i < ch.services.rows().len() ==> text_fits((#[trigger] ch.services.rows()[i]).1@)
}

/// Whether a text is no longer than a length can be.
pub open spec fn text_fits(text: Seq<char>) -> bool {
    encode_utf8(text).len() <= u64::MAX
}

/// Whether the texts of a timeline are no longer than a length can be.
pub open spec fn rows_fit(timeline: Seq<Rendered>) -> bool {
    forall|i: int| 0 <= i < timeline.len() ==> text_fits((#[trigger] timeline[i]).text@)
}

/// Whether everything of a channel can be written down and is within the bounds that a
/// reader holds it to.
pub open spec fn readable(ch: ChannelState) -> bool {
    &&& ch.genesis.wire@.len() <= u64::MAX
    &&& ch.genesis.creator.wf()
    &&& ch.authors.rows().len() <= MAX_AUTHORS
    &&& forall|i: int|
        0 <= i < ch.authors.rows().len() ==> (#[trigger] ch.authors.rows()[i]).1.wf()
    &&& forall|i: int|
        0 <= i < ch.timeline@.len() ==> cbor::all_encodable((#[trigger] ch.timeline@[i]).toks())
    &&& cbor::all_encodable(
        segments::receivers_toks(segments::receivers_view(ch.receivers.rows())),
    )
    &&& forall|i: int|
        0 <= i < ch.receivers.rows().len() ==> (
        #[trigger] ch.receivers.rows()[i]).1.slot().key_bytes()
            == ch.receivers.rows()[i].0.key_bytes()
    &&& cbor::all_encodable(
        segments::services_toks(segments::services_view(ch.services.rows())),
    )
    &&& forall|i: int|
        0 <= i < ch.services.rows().len() ==> segments::service_tag_ok(
            (#[trigger] ch.services.rows()[i]).0@,
        )
    &&& ch.delivered.rows().len() <= MAX_AUTHORS
}

/// Every channel that fits can be read back.
pub proof fn lemma_readable(ch: ChannelState)
    requires
        ch.wf(),
        fits(ch),
    ensures
        readable(ch),
{
    assert(ch.genesis.wire.len() == ch.genesis.wire@.len());
    let authors = ch.authors.rows();
    table::lemma_map_of(authors);
    assert(ch.authors.map().contains_key(ch.genesis.creator.fingerprint@));
    assert forall|i: int| 0 <= i < authors.len() implies (#[trigger] authors[i]).1.wf() by {
        assert(ch.authors.map().contains_key(authors[i].0.key_bytes()));
    }
    assert forall|i: int| 0 <= i < ch.timeline@.len() implies cbor::all_encodable(
        (#[trigger] ch.timeline@[i]).toks(),
    ) by {
        assert(text_fits(ch.timeline@[i].text@));
        let ts = ch.timeline@[i].toks();
        assert forall|j: int| 0 <= j < ts.len() implies cbor::encodable(#[trigger] ts[j]) by {}
    }
    let chains = ch.receivers.rows();
    table::lemma_map_of(chains);
    let states = segments::receivers_view(chains);
    assert forall|i: int| 0 <= i < states.len() implies cbor::all_encodable(
        segments::receiver_item()(#[trigger] states[i]),
    ) by {
        assert(chains[i].1.state.len() == states[i].len());
        let ts = segments::receiver_item()(states[i]);
        assert forall|j: int| 0 <= j < ts.len() implies cbor::encodable(#[trigger] ts[j]) by {}
    }
    segments::lemma_put_all_encodable(
        segments::segment_head(segments::RECEIVERS_VERSION, states.len()),
        states,
        segments::receiver_item(),
    );
    assert forall|i: int| 0 <= i < chains.len() implies (
    #[trigger] chains[i]).1.slot().key_bytes() == chains[i].0.key_bytes() by {
        assert(ch.receivers.map().contains_key(chains[i].0.key_bytes()));
    }
    let services = ch.services.rows();
    table::lemma_map_of(services);
    assert forall|i: int| 0 <= i < services.len() implies segments::service_tag_ok(
        (#[trigger] services[i]).0@,
    ) by {
        assert(ch.services.map().contains_key(services[i].0.key_bytes()));
    }
    let pairs = segments::services_view(services);
    assert forall|i: int| 0 <= i < pairs.len() implies cbor::all_encodable(
        segments::service_item()(#[trigger] pairs[i]),
    ) by {
        assert(segments::service_tag_ok(services[i].0@));
        assert(text_fits(services[i].1@));
        let ts = segments::service_item()(pairs[i]);
        assert forall|j: int| 0 <= j < ts.len() implies cbor::encodable(#[trigger] ts[j]) by {}
    }
    segments::lemma_put_all_encodable(
        segments::segment_head(segments::SERVICES_VERSION, pairs.len()),
        pairs,
        segments::service_item(),
    );
}

// ---- what is read of it --------------------------------------------------------

/// Whether both are one entry.
pub open spec fn same_entry(a: LogEntry, b: LogEntry) -> bool {
    &&& a.channel_id == b.channel_id
    &&& a.epoch == b.epoch
    &&& a.author_id == b.author_id
    &&& a.seq == b.seq
    &&& a.entry_hash == b.entry_hash
    &&& (a.payload is Some) == (b.payload is Some)
    &&& a.payload is Some ==> a.payload->Some_0@ == b.payload->Some_0@
    &&& a.wire@ == b.wire@
}

/// Whether both are one sender chain.
pub open spec fn same_sender(a: SenderChain, b: SenderChain) -> bool {
    &&& a.author_id == b.author_id
    &&& a.chain_id == b.chain_id
    &&& a.next_iteration == b.next_iteration
    &&& a.state@ == b.state@
}

/// Whether both are one receiver chain.
pub open spec fn same_receiver(a: ReceiverChain, b: ReceiverChain) -> bool {
    a.author_id == b.author_id && a.chain_id == b.chain_id && a.state@ == b.state@
}

/// Whether both are one admission.
pub open spec fn same_admission(a: Option<Admission>, b: Option<Admission>) -> bool {
    match (a, b) {
        (Some(Admission::Witnessed(v)), Some(Admission::Witnessed(w))) => v.witness_id
            == w.witness_id && v.wire@ == w.wire@,
        _ => a == b,
    }
}

/// Whether a stored entry is what the store holds under a number: it decodes to the entry
/// that was written there, is of the kind it was, and the log accepts it again.
pub open spec fn reads_entry(s: StoredEntry, id: u64, entry: LogEntry) -> bool {
    &&& s.id == id
    &&& s.entry is Ok
    &&& same_entry(s.entry->Ok_0, entry)
    &&& s.accepted
    &&& entry.payload matches Some(p) ==> {
        &&& segments::payload_kind(p@, s.framed) is Some
        &&& segments::payload_kind(p@, s.framed) == Some(EntryKind::Governance)
            ==> s.governance is Ok
    }
}

/// Whether a stored row is what the store holds under a number.
pub open spec fn reads_row(
    s: StoredRow,
    id: u64,
    store: Map<(SegmentKind, u64), Seq<u8>>,
) -> bool {
    &&& s.id == id
    &&& s.row is Ok
    &&& s.row->Ok_0@ == store[(SegmentKind::PlaintextCache, id)]
}

/// Whether the log and the cache of `s` are those that a store holds, in the order of their
/// numbers.
pub open spec fn reads_log(
    s: StoredChannel,
    store: Map<(SegmentKind, u64), Seq<u8>>,
    p: Places,
) -> bool {
    &&& s.log is Ok
    &&& s.log->Ok_0@.len() == p.ids.len()
    &&& forall|i: int|
        0 <= i < p.ids.len() ==> reads_entry(
            #[trigger] s.log->Ok_0@[i],
            p.ids[i],
            p.entries[i],
        )
    &&& s.cache is Ok
    &&& s.cache->Ok_0@.len() == p.rows.len()
    &&& forall|i: int|
        0 <= i < p.rows.len() ==> reads_row(#[trigger] s.cache->Ok_0@[i], p.rows[i], store)
}

/// Whether the keys and the configuration in `s` are those that a store holds, with what
/// other formats encode decoding to what was encoded.
pub open spec fn reads_keys(
    s: StoredChannel,
    store: Map<(SegmentKind, u64), Seq<u8>>,
    ch: ChannelState,
) -> bool {
    &&& s.signer is Ok
    &&& s.wrap == Ok::<bool, Error>(true)
    &&& s.unlocked is Ok
    &&& s.manifest matches Ok(Some(b))
    &&& b@ == store[material(SEG_MANIFEST)]
    &&& s.genesis is Ok
    &&& s.genesis->Ok_0.is_same(&ch.genesis)
    &&& s.verified is Ok
    &&& s.authors matches Ok(Some((authors, keys)))
    &&& authors.read_from(store[material(SEG_AUTHORS)])
    &&& keys@.len() == authors.rows@.len()
    &&& forall|i: int|
        0 <= i < keys@.len() && i < ch.authors.rows().len() ==> (#[trigger] keys@[i]) is Ok
            && keys@[i]->Ok_0.is_same(&ch.authors.rows()[i].1)
    &&& s.sender matches Ok(Some(sender))
    &&& same_sender(sender, ch.sender)
    &&& s.origins matches Ok(Some(origins))
    &&& origins.held@ == ch.origins.held@ && origins.state@ == ch.origins.state@
    &&& match s.receivers {
        Ok(Some((read, chains))) => {
            &&& store.contains_key(material(SEG_RECEIVERS))
            &&& read.read_from(store[material(SEG_RECEIVERS)])
            &&& chains@.len() == read.rows@.len()
            &&& forall|i: int|
                0 <= i < chains@.len() && i < ch.receivers.rows().len() ==> (
                #[trigger] chains@[i]) is Ok && same_receiver(
                    chains@[i]->Ok_0,
                    ch.receivers.rows()[i].1,
                )
        },
        Ok(None) => !store.contains_key(material(SEG_RECEIVERS)),
        Err(_) => false,
    }
    &&& match s.services {
        Ok(Some((read, parsed))) => {
            &&& store.contains_key(material(SEG_SERVICES))
            &&& read.read_from(store[material(SEG_SERVICES)])
            &&& parsed@.len() == read.rows@.len()
            &&& forall|i: int|
                0 <= i < parsed@.len() ==> (#[trigger] parsed@[i]) is Some
                    && parsed@[i]->Some_0@ == read.rows@[i].1@
        },
        Ok(None) => !store.contains_key(material(SEG_SERVICES)),
        Err(_) => false,
    }
    &&& match s.delivered {
        Ok(Some(b)) => {
            &&& store.contains_key(material(SEG_DELIVERED))
            &&& b@ == store[material(SEG_DELIVERED)]
        },
        Ok(None) => !store.contains_key(material(SEG_DELIVERED)),
        Err(_) => false,
    }
    &&& match s.anchors {
        Ok(Some(a)) => {
            &&& store.contains_key(material(SEG_ANCHORS))
            &&& bootstrap::nodes_view(a.nodes@) == bootstrap::nodes_view(ch.anchors.nodes@)
        },
        Ok(None) => !store.contains_key(material(SEG_ANCHORS)),
        Err(_) => false,
    }
    &&& s.admission is Ok
    &&& same_admission(s.admission->Ok_0, ch.own_admission)
    &&& s.evaluator is Ok
}

/// Whether `s` is what a store and the vault give for a channel that the store holds.
pub open spec fn reads(
    s: StoredChannel,
    store: Map<(SegmentKind, u64), Seq<u8>>,
    ch: ChannelState,
    p: Places,
) -> bool {
    reads_keys(s, store, ch) && reads_log(s, store, p)
}

/// Whether a channel is another one by content, with its log in the order of `entries`.
pub open spec fn agrees(c: ChannelState, ch: ChannelState, entries: Seq<LogEntry>) -> bool {
    &&& c.channel_id == ch.channel_id
    &&& c.genesis.is_same(&ch.genesis)
    &&& c.local_name@ == ch.local_name@
    &&& c.created == ch.created
    &&& c.epoch == ch.epoch
    &&& c.authors.map().dom() =~= ch.authors.map().dom()
    &&& forall|k: Seq<u8>| #[trigger]
        ch.authors.map().contains_key(k) ==> c.authors.map()[k].is_same(&ch.authors.map()[k])
    &&& c.log@.len() == entries.len()
    &&& forall|i: int| 0 <= i < entries.len() ==> same_entry(#[trigger] c.log@[i], entries[i])
    &&& session::lines(c.timeline@) == session::lines(ch.timeline@)
    &&& c.next_log_id == ch.next_log_id
    &&& same_sender(c.sender, ch.sender)
    &&& c.origins.held@ == ch.origins.held@ && c.origins.state@ == ch.origins.state@
    &&& c.receivers.map().dom() =~= ch.receivers.map().dom()
    &&& forall|k: Seq<u8>| #[trigger]
        ch.receivers.map().contains_key(k) ==> same_receiver(
            c.receivers.map()[k],
            ch.receivers.map()[k],
        )
    &&& c.services.map().dom() =~= ch.services.map().dom()
    &&& forall|k: Seq<u8>| #[trigger]
        ch.services.map().contains_key(k) ==> c.services.map()[k]@ == ch.services.map()[k]@
    &&& c.delivered.map() == ch.delivered.map()
    &&& bootstrap::nodes_view(c.anchors.nodes@) == bootstrap::nodes_view(ch.anchors.nodes@)
    &&& same_admission(c.own_admission, ch.own_admission)
    &&& !c.poisoned
}

// ---- helpers -----------------------------------------------------------------

/// Where no row has a fault, there is no first one.
pub proof fn lemma_faultless(n: nat, f: spec_fn(int) -> Option<Error>)
    requires
        forall|i: int| 0 <= i < n ==> #[trigger] f(i) is None,
    ensures
        segments::first_fault(n, f) is None,
    decreases n,
{
    if n > 0 {
        lemma_faultless((n - 1) as nat, f);
        assert(f(n - 1) is None);
    }
}

/// The rows of a segment are told apart by what it writes.
proof fn lemma_rows_split<T>(
    version: u64,
    xs: Seq<T>,
    ys: Seq<T>,
    item: spec_fn(T) -> Seq<Tok>,
    size: nat,
)
    requires
        size > 0,
        ys.len() <= u64::MAX,
        forall|x: T| (#[trigger] item(x)).len() == size,
        forall|x: T, y: T| #[trigger] item(x) == #[trigger] item(y) ==> x == y,
        cbor::put_all(segments::segment_head(version, xs.len()), xs, item) == cbor::put_all(
            segments::segment_head(version, ys.len()),
            ys,
            item,
        ),
    ensures
        xs == ys,
{
    let a = segments::segment_head(version, xs.len());
    let b = segments::segment_head(version, ys.len());
    assert(a.len() == 3 && b.len() == 3);
    cbor::lemma_put_all_parts(a, b, xs, ys, item, size);
    assert(xs =~= ys);
}

/// Rows under the same keys, with like values, spell out like maps.
pub proof fn lemma_maps_alike<K: Key, V>(
    a: Seq<(K, V)>,
    b: Seq<(K, V)>,
    like: spec_fn(V, V) -> bool,
)
    requires
        a.len() == b.len(),
        forall|i: int|
            0 <= i < a.len() ==> (#[trigger] a[i]).0.key_bytes() == b[i].0.key_bytes() && like(
                a[i].1,
                b[i].1,
            ),
    ensures
        table::map_of(a).dom() =~= table::map_of(b).dom(),
        forall|k: Seq<u8>| #[trigger]
            table::map_of(b).contains_key(k) ==> like(table::map_of(a)[k], table::map_of(b)[k]),
    decreases a.len(),
{
    if a.len() > 0 {
        let x = a.drop_last();
        let y = b.drop_last();
        assert forall|i: int| 0 <= i < x.len() implies (#[trigger] x[i]).0.key_bytes()
            == y[i].0.key_bytes() && like(x[i].1, y[i].1) by {
            assert(x[i] == a[i] && y[i] == b[i]);
        }
        lemma_maps_alike(x, y, like);
        let last = a.len() - 1;
        assert(a[last].0.key_bytes() == b[last].0.key_bytes());
    }
}

/// Every number is below the first one above them all.
pub proof fn lemma_below(ids: Seq<u64>, i: int)
    requires
        0 <= i < ids.len(),
    ensures
        lists::succ(ids[i]) <= state::above(ids),
    decreases ids.len(),
{
    if i < ids.len() - 1 {
        lemma_below(ids.drop_last(), i);
        assert(ids.drop_last()[i] == ids[i]);
    }
}

/// Rows that are all in a log are all shown.
proof fn lemma_all_in_log(rows: Seq<Rendered>, log: Seq<LogEntry>)
    requires
        forall|i: int|
            0 <= i < rows.len() ==> state::in_log(log, (#[trigger] rows[i]).entry_hash),
    ensures
        state::in_log_rows(rows, log) == rows,
    decreases rows.len(),
{
    if rows.len() > 0 {
        let front = rows.drop_last();
        assert forall|i: int| 0 <= i < front.len() implies state::in_log(
            log,
            (#[trigger] front[i]).entry_hash,
        ) by {
            assert(front[i] == rows[i]);
        }
        lemma_all_in_log(front, log);
        assert(state::in_log(log, rows[rows.len() - 1].entry_hash));
        assert(rows =~= front.push(rows.last()));
    } else {
        assert(state::in_log_rows(rows, log) =~= rows);
    }
}

// ---- each piece is read back ---------------------------------------------------

proof fn lemma_manifest_reads(
    s: StoredChannel,
    store: Map<(SegmentKind, u64), Seq<u8>>,
    ch: ChannelState,
)
    requires
        ch.wf(),
        readable(ch),
        keeps_keys(store, ch),
        reads_keys(s, store, ch),
    ensures
        segments::manifest_front(s.manifest->Ok_0->Some_0@).bad is None,
        segments::manifest_fault(s.manifest->Ok_0->Some_0@) is None,
        cbor::toks_of(s.manifest->Ok_0->Some_0@) == segments::manifest_toks(
            ch.genesis.wire@,
            ch.local_name@,
            ch.created,
            ch.epoch,
        ),
{
    segments::law_manifest_read_back(ch.genesis.wire@, ch.local_name@, ch.created, ch.epoch);
}

/// What is read of an authors segment is what was written, row for row.
pub proof fn lemma_authors_listed(
    read: AuthorsRead,
    rows: Seq<(Digest32, CompositePublicKey)>,
)
    requires
        rows.len() <= MAX_AUTHORS,
        cbor::toks_of(
            cbor::enc(segments::authors_toks(segments::authors_view(rows))),
        ) == segments::authors_toks(segments::authors_view(rows)),
        read.fault is None,
        read.read_from(cbor::enc(segments::authors_toks(segments::authors_view(rows)))),
    ensures
        read@ == segments::authors_view(rows),
        read.rows@.len() == rows.len(),
{
    let item = segments::author_item();
    assert forall|x: (Seq<u8>, Seq<u8>)| (#[trigger] item(x)).len() == 3 by {}
    assert forall|x: (Seq<u8>, Seq<u8>), y: (Seq<u8>, Seq<u8>)| #[trigger] item(x)
        == #[trigger] item(y) implies x == y by {
        assert(item(x)[1] == item(y)[1]);
        assert(item(x)[2] == item(y)[2]);
    }
    lemma_rows_split(
        segments::AUTHORS_VERSION,
        read@,
        segments::authors_view(rows),
        item,
        3,
    );
    assert(read.rows@.len() == read@.len());
}

proof fn lemma_authors_read(
    s: StoredChannel,
    store: Map<(SegmentKind, u64), Seq<u8>>,
    ch: ChannelState,
)
    requires
        ch.wf(),
        readable(ch),
        keeps_keys(store, ch),
        reads_keys(s, store, ch),
    ensures
        ({
            let (read, keys) = s.authors->Ok_0->Some_0;
            &&& read.fault is None
            &&& segments::first_fault(
                read.rows@.len(),
                segments::author_fault(read.rows@, keys@),
            ) is None
            &&& read.wf()
            &&& segments::keys_decoded(keys@)
        }),
        s.listed_authors().contains_key(ch.genesis.creator.fingerprint@),
        s.all_authors().dom() =~= ch.authors.map().dom(),
        forall|k: Seq<u8>| #[trigger]
            ch.authors.map().contains_key(k) ==> s.all_authors()[k].is_same(
                &ch.authors.map()[k],
            ),
{
    let rows = ch.authors.rows();
    let (read, keys) = s.authors->Ok_0->Some_0;
    segments::law_authors_read_back(rows);
    assert(read.fault is None);
    lemma_authors_listed(read, rows);
    let f = segments::author_fault(read.rows@, keys@);
    let listed = segments::author_keys_of(read.rows@, keys@);
    assert forall|i: int| 0 <= i < rows.len() implies (#[trigger] listed[i]).0.key_bytes()
        == rows[i].0.key_bytes() && listed[i].1.is_same(&rows[i].1) by {
        assert(read@[i] == segments::authors_view(rows)[i]);
        assert(keys@[i] is Ok);
    }
    assert forall|i: int| 0 <= i < read.rows@.len() implies #[trigger] f(i) is None by {
        assert(read@[i] == segments::authors_view(rows)[i]);
        assert(keys@[i] is Ok);
        table::lemma_map_of(rows);
        assert(ch.authors.map().contains_key(rows[i].0.key_bytes()));
    }
    lemma_faultless(read.rows@.len(), f);
    let like = |a: CompositePublicKey, b: CompositePublicKey| a.is_same(&b);
    lemma_maps_alike(listed, rows, like);
    assert forall|i: int| 0 <= i < keys@.len() implies ((#[trigger] keys@[i]) matches Ok(k)
        ==> k.wf()) by {
        assert(rows[i].1.wf());
    }
    let all = s.all_authors();
    let fp = ch.genesis.creator.fingerprint@;
    assert(ch.authors.map().contains_key(fp));
    assert(s.listed_authors() == table::map_of(listed));
    assert(ch.authors.map() == table::map_of(rows));
    assert forall|k: Seq<u8>| #[trigger] ch.authors.map().contains_key(k) implies all[k].is_same(
        &ch.authors.map()[k],
    ) by {
        if k != fp {
            assert(like(table::map_of(listed)[k], table::map_of(rows)[k]));
        }
    }
}

proof fn lemma_receivers_read(
    s: StoredChannel,
    store: Map<(SegmentKind, u64), Seq<u8>>,
    ch: ChannelState,
)
    requires
        ch.wf(),
        readable(ch),
        keeps_keys(store, ch),
        reads_keys(s, store, ch),
    ensures
        match s.receivers->Ok_0 {
            Some((read, chains)) => {
                &&& read.wf()
                &&& read.fault is None
                &&& segments::first_fault(
                    read.rows@.len(),
                    segments::receiver_fault(chains@),
                ) is None
                &&& table::map_of(segments::receivers_of(chains@)).dom()
                    =~= ch.receivers.map().dom()
                &&& forall|k: Seq<u8>| #[trigger]
                    ch.receivers.map().contains_key(k) ==> same_receiver(
                        table::map_of(segments::receivers_of(chains@))[k],
                        ch.receivers.map()[k],
                    )
            },
            None => ch.receivers.map() =~= Map::<Seq<u8>, ReceiverChain>::empty(),
        },
{
    let rows = ch.receivers.rows();
    match s.receivers->Ok_0 {
        None => {
            assert(rows.len() == 0);
            assert(ch.receivers.map() == table::map_of(rows));
        },
        Some((read, chains)) => {
            let item = segments::receiver_item();
            segments::law_receivers_read_back(rows);
            assert forall|x: Seq<u8>| (#[trigger] item(x)).len() == 1 by {}
            assert forall|x: Seq<u8>, y: Seq<u8>| #[trigger] item(x) == #[trigger] item(
                y,
            ) implies x == y by {
                assert(item(x)[0] == item(y)[0]);
            }
            lemma_rows_split(
                segments::RECEIVERS_VERSION,
                read@,
                segments::receivers_view(rows),
                item,
                1,
            );
            assert(read.rows@.len() == read@.len());
            let f = segments::receiver_fault(chains@);
            assert forall|i: int| 0 <= i < read.rows@.len() implies #[trigger] f(i) is None by {
                assert(chains@[i] is Ok);
            }
            lemma_faultless(read.rows@.len(), f);
            let listed = segments::receivers_of(chains@);
            let like = |a: ReceiverChain, b: ReceiverChain| same_receiver(a, b);
            assert forall|i: int| 0 <= i < rows.len() implies (#[trigger] listed[i]).0.key_bytes()
                == rows[i].0.key_bytes() && like(listed[i].1, rows[i].1) by {
                assert(chains@[i] is Ok);
                assert(rows[i].1.slot().key_bytes() == rows[i].0.key_bytes());
                assert(listed[i].0 == chains@[i]->Ok_0.slot());
            }
            lemma_maps_alike(listed, rows, like);
            assert(ch.receivers.map() == table::map_of(rows));
            assert forall|k: Seq<u8>| #[trigger]
                ch.receivers.map().contains_key(k) implies same_receiver(
                table::map_of(listed)[k],
                ch.receivers.map()[k],
            ) by {
                assert(like(table::map_of(listed)[k], table::map_of(rows)[k]));
            }
        },
    }
}

proof fn lemma_services_read(
    s: StoredChannel,
    store: Map<(SegmentKind, u64), Seq<u8>>,
    ch: ChannelState,
)
    requires
        ch.wf(),
        readable(ch),
        keeps_keys(store, ch),
        reads_keys(s, store, ch),
    ensures
        match s.services->Ok_0 {
            Some((read, parsed)) => {
                &&& read.wf()
                &&& read.fault is None
                &&& segments::first_fault(
                    read.rows@.len(),
                    segments::service_fault(read.rows@, parsed@),
                ) is None
                &&& table::map_of(segments::services_of(read.rows@, parsed@)).dom()
                    =~= ch.services.map().dom()
                &&& forall|k: Seq<u8>| #[trigger]
                    ch.services.map().contains_key(k) ==> table::map_of(
                        segments::services_of(read.rows@, parsed@),
                    )[k]@ == ch.services.map()[k]@
            },
            None => ch.services.map() =~= Map::<Seq<u8>, String>::empty(),
        },
{
    let rows = ch.services.rows();
    match s.services->Ok_0 {
        None => {
            assert(rows.len() == 0);
            assert(ch.services.map() == table::map_of(rows));
        },
        Some((read, parsed)) => {
            let item = segments::service_item();
            segments::law_services_read_back(rows);
            assert forall|x: (Seq<char>, Seq<char>)| (#[trigger] item(x)).len() == 3 by {}
            assert forall|x: (Seq<char>, Seq<char>), y: (Seq<char>, Seq<char>)| #[trigger] item(x)
                == #[trigger] item(y) implies x == y by {
                assert(item(x)[1] == item(y)[1]);
                assert(item(x)[2] == item(y)[2]);
            }
            lemma_rows_split(
                segments::SERVICES_VERSION,
                read@,
                segments::services_view(rows),
                item,
                3,
            );
            assert(read.rows@.len() == read@.len());
            let f = segments::service_fault(read.rows@, parsed@);
            let listed = segments::services_of(read.rows@, parsed@);
            let like = |a: String, b: String| a@ == b@;
            assert forall|i: int| 0 <= i < rows.len() implies (#[trigger] listed[i]).0.key_bytes()
                == rows[i].0.key_bytes() && like(listed[i].1, rows[i].1) by {
                assert(read@[i] == segments::services_view(rows)[i]);
                assert(parsed@[i] is Some);
            }
            assert forall|i: int| 0 <= i < read.rows@.len() implies #[trigger] f(i) is None by {
                assert(read@[i] == segments::services_view(rows)[i]);
                assert(parsed@[i] is Some);
                assert(segments::service_tag_ok(rows[i].0@));
            }
            lemma_faultless(read.rows@.len(), f);
            lemma_maps_alike(listed, rows, like);
            assert(ch.services.map() == table::map_of(rows));
            assert forall|k: Seq<u8>| #[trigger] ch.services.map().contains_key(k) implies table::map_of(
                listed,
            )[k]@ == ch.services.map()[k]@ by {
                assert(like(table::map_of(listed)[k], table::map_of(rows)[k]));
            }
        },
    }
}

proof fn lemma_delivered_read(
    s: StoredChannel,
    store: Map<(SegmentKind, u64), Seq<u8>>,
    ch: ChannelState,
)
    requires
        ch.wf(),
        readable(ch),
        keeps_keys(store, ch),
        reads_keys(s, store, ch),
    ensures
        match s.delivered->Ok_0 {
            Some(b) => {
                &&& segments::delivered_fault(b@) is None
                &&& forall|m: Map<Seq<u8>, u64>| #[trigger]
                    segments::delivered_read(m, cbor::toks_of(b@)) ==> m == ch.delivered.map()
            },
            None => ch.delivered.map() =~= Map::<Seq<u8>, u64>::empty(),
        },
{
    let rows = ch.delivered.rows();
    match s.delivered->Ok_0 {
        None => {
            assert(rows.len() == 0);
            assert(ch.delivered.map() == table::map_of(rows));
        },
        Some(b) => {
            let item = segments::delivered_item();
            segments::law_delivered_read_back(ch.delivered);
            assert forall|x: (Digest32, u64)| (#[trigger] item(x)).len() == 3 by {}
            assert forall|x: (Digest32, u64), y: (Digest32, u64)| #[trigger] item(x)
                == #[trigger] item(y) implies x == y by {
                assert(item(x)[1] == item(y)[1]);
                assert(item(x)[2] == item(y)[2]);
                hash::lemma_digest_ext(x.0, y.0);
            }
            assert forall|m: Map<Seq<u8>, u64>| #[trigger]
                segments::delivered_read(m, cbor::toks_of(b@)) implies m == ch.delivered.map() by {
                let listed = choose|listed: Seq<(Digest32, u64)>|
                    cbor::toks_of(b@) == #[trigger] segments::delivered_toks(listed) && m
                        == table::map_of(listed);
                lemma_rows_split(segments::DELIVERED_VERSION, listed, rows, item, 3);
            }
        },
    }
}

proof fn lemma_log_reads(
    s: StoredChannel,
    store: Map<(SegmentKind, u64), Seq<u8>>,
    ch: ChannelState,
    p: Places,
)
    requires
        ch.wf(),
        readable(ch),
        keeps(store, ch, p),
        reads_log(s, store, p),
        s.all_authors().dom() =~= ch.authors.map().dom(),
    ensures
        segments::first_fault(
            s.log->Ok_0@.len(),
            state::entry_fault(s.all_authors(), s.log->Ok_0@),
        ) is None,
        segments::first_fault(
            s.cache->Ok_0@.len(),
            state::cached_fault(s.cache->Ok_0@),
        ) is None,
        state::ids_of(s.log->Ok_0@) == p.ids,
        state::row_ids_of(s.cache->Ok_0@) == p.rows,
        forall|t: Seq<Rendered>| #[trigger]
            state::shows(t, s.cache->Ok_0@, state::entries_of(s.log->Ok_0@)) ==> session::lines(t)
                == session::lines(ch.timeline@),
{
    let stored = s.log->Ok_0@;
    let cache = s.cache->Ok_0@;
    let log = state::entries_of(stored);
    let shown = ch.timeline@;
    let f = state::entry_fault(s.all_authors(), stored);
    assert forall|i: int| 0 <= i < stored.len() implies #[trigger] f(i) is None by {
        assert(reads_entry(stored[i], p.ids[i], p.entries[i]));
        assert(ch.log@.contains(p.entries[i]));
        let j = choose|j: int| 0 <= j < ch.log@.len() && ch.log@[j] == p.entries[i];
        assert(ch.authors.has(ch.log@[j].author_id@));
        assert(s.all_authors().dom().contains(p.entries[i].author_id@));
    }
    lemma_faultless(stored.len(), f);
    assert(state::ids_of(stored) =~= p.ids) by {
        assert forall|i: int| 0 <= i < stored.len() implies state::ids_of(stored)[i]
            == p.ids[i] by {
            assert(reads_entry(stored[i], p.ids[i], p.entries[i]));
        }
    }
    assert(state::row_ids_of(cache) =~= p.rows) by {
        assert forall|i: int| 0 <= i < cache.len() implies state::row_ids_of(cache)[i]
            == p.rows[i] by {
            assert(reads_row(cache[i], p.rows[i], store));
        }
    }
    assert forall|i: int| 0 <= i < cache.len() implies (#[trigger] cache[i]).row is Ok
        && cache[i].row->Ok_0@ == cbor::enc(shown[i].toks()) by {
        assert(reads_row(cache[i], p.rows[i], store));
        assert(store[(SegmentKind::PlaintextCache, p.rows[i])] == session::cached(
            session::lines(shown)[i],
        ));
        assert(session::cached(session::line(shown[i])) == cbor::enc(shown[i].toks()));
    }
    let g = state::cached_fault(cache);
    assert forall|i: int| 0 <= i < cache.len() implies #[trigger] g(i) is None by {
        assert(cache[i].row is Ok);
        assert(cbor::all_encodable(shown[i].toks()));
        segments::law_cache_read_back(shown[i]);
    }
    lemma_faultless(cache.len(), g);
    assert forall|t: Seq<Rendered>| #[trigger] state::shows(t, cache, log) implies session::lines(
        t,
    ) == session::lines(shown) by {
        let rows = choose|rows: Seq<Rendered>| #[trigger]
            state::cached_rows(rows, cache) && t == state::in_log_rows(rows, log);
        assert forall|i: int| 0 <= i < rows.len() implies session::line(#[trigger] rows[i])
            == session::line(shown[i]) by {
            assert(segments::cache_read(rows[i], cbor::toks_of(cache[i].row->Ok_0@)));
            assert(cache[i].row is Ok);
            assert(cbor::all_encodable(shown[i].toks()));
            segments::law_cache_read_back(shown[i]);
            hash::lemma_digest_ext(rows[i].entry_hash, shown[i].entry_hash);
            hash::lemma_digest_ext(rows[i].author, shown[i].author);
        }
        assert forall|i: int| 0 <= i < rows.len() implies state::in_log(
            log,
            (#[trigger] rows[i]).entry_hash,
        ) by {
            assert(session::line(rows[i]) == session::line(shown[i]));
            assert(state::in_log(ch.log@, shown[i].entry_hash));
            let j = choose|j: int|
                0 <= j < ch.log@.len() && (#[trigger] ch.log@[j]).entry_hash
                    == shown[i].entry_hash;
            assert(p.entries.contains(ch.log@[j]));
            let k = choose|k: int| 0 <= k < p.entries.len() && p.entries[k] == ch.log@[j];
            assert(reads_entry(stored[k], p.ids[k], p.entries[k]));
            assert(log[k].entry_hash == rows[i].entry_hash);
        }
        lemma_all_in_log(rows, log);
        assert(session::lines(t) =~= session::lines(shown));
    }
}

// ---- the law -----------------------------------------------------------------

/// A channel that its store holds opens again, and is the channel that it was: its genesis,
/// its name and epoch, its authors, its log, its timeline, its own chain and those of
/// others, its services, its ledger and its admission, and the number that comes next.
#[verifier::rlimit(60)]
pub proof fn law_kept_channel_reopens(
    store: Map<(SegmentKind, u64), Seq<u8>>,
    ch: ChannelState,
    p: Places,
    s: StoredChannel,
)
    requires
        ch.wf(),
        fits(ch),
        keeps(store, ch, p),
        reads(s, store, ch, p),
    ensures
        s.complete(),
        s.listed_authors().contains_key(ch.genesis.creator.fingerprint@),
        state::open_fault(s, ch.channel_id) is None,
        forall|c: ChannelState, passphrase: Secret| #[trigger]
            state::opened(c, s, ch.channel_id, passphrase) ==> agrees(c, ch, p.entries),
{
    lemma_readable(ch);
    lemma_manifest_reads(s, store, ch);
    lemma_authors_read(s, store, ch);
    lemma_receivers_read(s, store, ch);
    lemma_services_read(s, store, ch);
    lemma_delivered_read(s, store, ch);
    lemma_log_reads(s, store, ch, p);
    assert forall|c: ChannelState, passphrase: Secret| #[trigger]
        state::opened(c, s, ch.channel_id, passphrase) implies agrees(c, ch, p.entries) by {
        let ts = cbor::toks_of(s.manifest->Ok_0->Some_0@);
        assert(ts[3] == Tok::Text(ch.local_name@));
        assert(ts[4] == Tok::Uint(ch.created));
        assert(ts[5] == Tok::Uint(ch.epoch));
        assert(c.authors.map().dom() =~= ch.authors.map().dom()) by {
            assert forall|k: Seq<u8>| c.authors.map().dom().contains(k)
                == ch.authors.map().dom().contains(k) by {
                assert(c.authors.map().contains_key(k) <==> s.all_authors().contains_key(k));
                assert(s.all_authors().dom().contains(k) == ch.authors.map().dom().contains(k));
            }
        }
        assert forall|k: Seq<u8>| #[trigger]
            ch.authors.map().contains_key(k) implies c.authors.map()[k].is_same(
            &ch.authors.map()[k],
        ) by {
            assert(c.authors.map().contains_key(k));
            assert(s.all_authors()[k].is_same(&ch.authors.map()[k]));
        }
        assert forall|i: int| 0 <= i < p.entries.len() implies same_entry(
            #[trigger] c.log@[i],
            p.entries[i],
        ) by {
            assert(reads_entry(s.log->Ok_0@[i], p.ids[i], p.entries[i]));
        }
        if s.anchors->Ok_0 is None {
            assert(bootstrap::nodes_view(c.anchors.nodes@) =~= bootstrap::nodes_view(
                ch.anchors.nodes@,
            ));
        }
    }
}

/// A fresh number stands for nothing yet: no entry and no rendered row is stored under it.
pub proof fn law_next_number_is_free(
    store: Map<(SegmentKind, u64), Seq<u8>>,
    p: Places,
    next: u64,
    lines: Seq<(Digest32, Digest32, int, Seq<char>)>,
)
    requires
        keeps_log(store, p, next, lines),
        next < u64::MAX,
    ensures
        !store.contains_key((SegmentKind::LogDb, next)),
        !store.contains_key((SegmentKind::PlaintextCache, next)),
{
    if store.contains_key((SegmentKind::LogDb, next)) {
        assert(p.ids.contains(next));
        let i = choose|i: int| 0 <= i < p.ids.len() && p.ids[i] == next;
        lemma_below(p.ids, i);
    }
    if store.contains_key((SegmentKind::PlaintextCache, next)) {
        assert(p.rows.contains(next));
        let i = choose|i: int| 0 <= i < p.rows.len() && p.rows[i] == next;
        lemma_below(p.rows, i);
    }
}

} // verus!
