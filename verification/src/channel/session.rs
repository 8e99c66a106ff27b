//! What a whole sync session, and a sender key that arrives, lead to: every entry in
//! turn is stored, folded in or rendered, and the first fault ends it.

use vstd::prelude::*;

use crate::cbor::{self, Tok};
use crate::channel::log::{self, Arrived, OpenedPayload};
use crate::channel::ops;
use crate::channel::segments::{self, ChainSlot, EntryKind, ReceiverChain, Rendered, SEG_RECEIVERS};
use crate::channel::state::{self, ChannelState, LogEntry, SegmentKind, SegmentWrite};
use crate::channel::sync::{self, SyncOutcome, SyncPass, WireError};
use crate::content::{self, Content};
use crate::error::Error;
use crate::hash::Digest32;
use crate::identity::CompositePublicKey;
use crate::lists;
use crate::table::{self, Key, Table};

verus! {

/// What became of one attempt to render a content entry.
#[derive(Debug, PartialEq, Eq)]
pub struct RenderWork {
    /// Whether the log has the author consent to this identity.
    pub consented: bool,
    /// The generation that the message names, where it is one.
    pub generation: Option<u64>,
    /// What the chain opened it to.
    pub opened: Result<OpenedPayload, Error>,
    /// Whether the row and the advanced chain were written.
    pub shown: Result<(), Error>,
}

impl RenderWork {
    /// Whether what opened is a message of `author`'s: the chain is still that of the
    /// author and the generation which the message names.
    pub open spec fn is_by(&self, author: Digest32) -> bool {
        self.generation matches Some(chain_id) ==> (self.opened matches Ok(o) ==> o.chain.slot()
            == (ChainSlot { author, chain_id }))
    }
}

/// What became of one entry that a session brought.
#[derive(Debug, PartialEq, Eq)]
pub struct EntryWork {
    /// Whether its payload is a struct-tagged frame.
    pub framed: bool,
    /// Whether it was written.
    pub written: Result<(), Error>,
    /// Whether it is a governance fact of this channel under its author's key.
    pub fact: Result<(), Error>,
    /// Whether the evaluator could be rebuilt with it.
    pub evaluated: Result<(), Error>,
    /// What became of rendering it.
    pub render: RenderWork,
}

/// A message of the timeline: its entry, its author, when it was made and its text.
pub open spec fn line(row: Rendered) -> (Digest32, Digest32, int, Seq<char>) {
    (row.entry_hash, row.author, row.created_millis as int, row.text@)
}

/// The messages of a timeline.
pub open spec fn lines(timeline: Seq<Rendered>) -> Seq<(Digest32, Digest32, int, Seq<char>)> {
    Seq::new(timeline.len(), |i: int| line(timeline[i]))
}

/// The message that an envelope of an entry holds.
pub open spec fn line_in(entry_hash: Digest32, author: Digest32, plaintext: Seq<u8>) -> (
    Digest32,
    Digest32,
    int,
    Seq<char>,
) {
    let ts = cbor::toks_of(plaintext);
    (
        entry_hash,
        author,
        ts[3]->Uint_0 * content::unit_of(ts[1]->Uint_0),
        ts[4]->Text_0,
    )
}

/// What entries change of a channel, and how many of them were folded in and rendered.
#[verifier::ext_equal]
pub struct Book {
    /// The number of the next segment.
    pub next_log_id: u64,
    /// The timeline.
    pub timeline: Seq<(Digest32, Digest32, int, Seq<char>)>,
    /// The governance entries that were folded in.
    pub folded: Seq<Digest32>,
    /// The receiver chains.
    pub receivers: Map<Seq<u8>, ReceiverChain>,
    /// Whether a write failed.
    pub poisoned: bool,
    /// How many entries were folded in.
    pub governance: int,
    /// How many were rendered.
    pub rendered: int,
}

/// What entries read of a channel, and do not change: the admitted authors, this
/// identity and the log.
pub struct Setting {
    /// The admitted authors.
    pub authors: Map<Seq<u8>, CompositePublicKey>,
    /// This identity.
    pub me: Digest32,
    /// The log.
    pub log: Seq<LogEntry>,
}

impl ChannelState {
    /// What entries change of this channel.
    pub open spec fn book(&self, governance: int, rendered: int) -> Book {
        Book {
            next_log_id: self.next_log_id,
            timeline: lines(self.timeline@),
            folded: self.gov_entries@,
            receivers: self.receivers.map(),
            poisoned: self.poisoned,
            governance,
            rendered,
        }
    }

    /// What entries read of this channel.
    pub open spec fn setting(&self) -> Setting {
        Setting { authors: self.authors.map(), me: self.sender.author_id, log: self.log@ }
    }

    /// Whether nothing else differs from `before`.
    pub open spec fn same_but_book(&self, before: ChannelState) -> bool {
        *self == (ChannelState {
            next_log_id: self.next_log_id,
            timeline: self.timeline,
            gov_entries: self.gov_entries,
            receivers: self.receivers,
            poisoned: self.poisoned,
            ..before
        })
    }
}

/// The chain that opens a message, if it may be opened at all.
pub open spec fn slot_for(
    receivers: Map<Seq<u8>, ReceiverChain>,
    me: Digest32,
    author: Digest32,
    w: RenderWork,
) -> Option<ChainSlot> {
    if author != me && !w.consented {
        None
    } else {
        match w.generation {
            None => None,
            Some(chain_id) => {
                let slot = ChainSlot { author, chain_id };
                if receivers.contains_key(slot.key_bytes()) {
                    Some(slot)
                } else {
                    None
                }
            },
        }
    }
}

/// What rendering one content entry leads to, and the error that ends the pass, if one
/// does. What cannot be opened or read is left as it is.
pub open spec fn rendered(
    b: Book,
    me: Digest32,
    author: Digest32,
    entry_hash: Digest32,
    w: RenderWork,
) -> (Book, Option<Error>) {
    match (slot_for(b.receivers, me, author, w), w.opened) {
        (Some(slot), Ok(o)) => {
            let stepped = Book { receivers: b.receivers.insert(slot.key_bytes(), o.chain), ..b };
            if content::envelope_fault(o.plaintext@) is Some {
                (stepped, None)
            } else {
                match w.shown {
                    Err(e) => (Book { poisoned: true, ..stepped }, Some(e)),
                    Ok(_) => (
                        Book {
                            next_log_id: lists::succ(b.next_log_id),
                            timeline: b.timeline.push(line_in(entry_hash, author, o.plaintext@)),
                            rendered: b.rendered + 1,
                            ..stepped
                        },
                        None,
                    ),
                }
            }
        },
        _ => (b, None),
    }
}

/// The cache row of a message.
pub open spec fn cached(l: (Digest32, Digest32, int, Seq<char>)) -> Seq<u8> {
    cbor::enc(
        cbor::items()
            .push(Tok::Array(5))
            .push(Tok::Uint(segments::CACHE_VERSION))
            .push(Tok::Bytes(l.0@))
            .push(Tok::Bytes(l.1@))
            .push(Tok::Uint(l.2 as u64))
            .push(Tok::Text(l.3)),
    )
}

/// The chains of a map, in slot order.
pub open spec fn chain_rows(chains: Map<Seq<u8>, ReceiverChain>) -> Seq<
    (ChainSlot, ReceiverChain),
> {
    choose|rows: Seq<(ChainSlot, ReceiverChain)>|
        table::ascending(rows) && table::map_of(rows) == chains
}

/// The receiver-chains segment of a map of chains.
pub open spec fn chains_segment(chains: Map<Seq<u8>, ReceiverChain>) -> Seq<u8> {
    cbor::enc(segments::receivers_toks(segments::receivers_view(chain_rows(chains))))
}

/// A map of chains is written in one way only.
pub(crate) proof fn lemma_chains_segment(t: Table<ChainSlot, ReceiverChain>)
    requires
        t.wf(),
    ensures
        ops::receivers_segment(t) == chains_segment(t.map()),
{
    let rows = chain_rows(t.map());
    assert(table::ascending(t.rows()) && table::map_of(t.rows()) == t.map());
    table::law_rows_are_canonical(rows, t.rows());
    assert(segments::receivers_view(rows) =~= segments::receivers_view(t.rows()));
}

/// The segments that rendering one content entry writes, in one batch: the message, and
/// the chains with the one that opened it advanced.
pub open spec fn render_batch(
    b: Book,
    me: Digest32,
    author: Digest32,
    entry_hash: Digest32,
    w: RenderWork,
) -> Seq<Seq<(SegmentKind, u64, Seq<u8>)>> {
    match (slot_for(b.receivers, me, author, w), w.opened) {
        (Some(slot), Ok(o)) => if content::envelope_fault(o.plaintext@) is None {
            seq![
                seq![
                    (
                        SegmentKind::PlaintextCache,
                        b.next_log_id,
                        cached(line_in(entry_hash, author, o.plaintext@)),
                    ),
                    (
                        SegmentKind::KeyMaterial,
                        SEG_RECEIVERS,
                        chains_segment(b.receivers.insert(slot.key_bytes(), o.chain)),
                    ),
                ],
            ]
        } else {
            Seq::empty()
        },
        _ => Seq::empty(),
    }
}

/// What is written, batch by batch.
pub open spec fn batches_view(batches: Seq<Vec<SegmentWrite>>) -> Seq<
    Seq<(SegmentKind, u64, Seq<u8>)>,
> {
    batches.map_values(|v: Vec<SegmentWrite>| state::writes_view(v@))
}

proof fn lemma_batches_push(batches: Seq<Vec<SegmentWrite>>, v: Vec<SegmentWrite>)
    ensures
        batches_view(batches.push(v)) == batches_view(batches).push(state::writes_view(v@)),
{
    assert(batches_view(batches.push(v)) =~= batches_view(batches).push(
        state::writes_view(v@),
    ));
}

/// What is read from an envelope is what its items say.
proof fn lemma_line(row: Rendered, plaintext: Seq<u8>)
    requires
        content::envelope_read(
            Content { created_millis: row.created_millis, text: row.text },
            cbor::toks_of(plaintext),
        ),
    ensures
        line(row) == line_in(row.entry_hash, row.author, plaintext),
{
    let c = Content { created_millis: row.created_millis, text: row.text };
    let ts = cbor::toks_of(plaintext);
    if ts == content::envelope_toks(content::VERSION, c.created_millis, c.text@) {
    } else {
        let secs = choose|secs: u64|
            c.created_millis == secs * content::MILLIS_PER_SEC
                && ts == #[trigger] content::envelope_toks(
                content::VERSION_SECONDS,
                secs,
                c.text@,
            );
        assert(ts == content::envelope_toks(content::VERSION_SECONDS, secs, c.text@));
    }
}

proof fn lemma_timeline_push(timeline: Seq<Rendered>, row: Rendered)
    ensures
        lines(timeline.push(row)) == lines(timeline).push(line(row)),
{
    assert(lines(timeline.push(row)) =~= lines(timeline).push(line(row)));
}

impl ChannelState {
    /// Tries to render one content entry that the log holds, and shows it where that
    /// succeeds. `batches` takes what is written.
    fn try_render(
        &mut self,
        author: Digest32,
        entry_hash: Digest32,
        w: RenderWork,
        batches: &mut Vec<Vec<SegmentWrite>>,
    ) -> (r: Result<bool, Error>)
        requires
            old(self).wf(),
            state::in_log(old(self).log@, entry_hash),
            w.is_by(author),
        ensures
            final(self).wf(),
            final(self).same_but_book(*old(self)),
            ({
                let (b, e) = rendered(
                    old(self).book(0, 0),
                    old(self).sender.author_id,
                    author,
                    entry_hash,
                    w,
                );
                &&& final(self).book(0, b.rendered) == b
                &&& match r {
                    Ok(shown) => e is None && shown == (b.rendered == 1),
                    Err(x) => e == Some(x),
                }
            }),
            batches_view(final(batches)@) == batches_view(old(batches)@) + render_batch(
                old(self).book(0, 0),
                old(self).sender.author_id,
                author,
                entry_hash,
                w,
            ),
    {
        let ghost before = batches_view(batches@);
        let slot: ChainSlot = match self.render_gate(&author, w.consented, w.generation) {
            Some(slot) => slot,
            None => {
                assert(before =~= before + Seq::empty());
                return Ok(false);
            },
        };
        match self.render_content(slot, entry_hash, w.opened) {
            None => {
                assert(before =~= before + Seq::empty());
                Ok(false)
            },
            Some((row, writes)) => {
                proof {
                    lemma_line(row, w.opened->Ok_0.plaintext@);
                    lemma_timeline_push(self.timeline@, row);
                    lemma_batches_push(batches@, writes);
                    lemma_chains_segment(self.receivers);
                    assert(cached(line(row)) == cbor::enc(row.toks()));
                }
                batches.push(writes);
                assert(batches_view(batches@) =~= before + render_batch(
                    old(self).book(0, 0),
                    old(self).sender.author_id,
                    author,
                    entry_hash,
                    w,
                ));
                match self.show(row, w.shown) {
                    Ok(_) => Ok(true),
                    Err(e) => Err(e),
                }
            },
        }
    }
}

// ---- one entry of a session ------------------------------------------------------

/// What working off one entry leads to, and the fault that it has, if one. It is stored
/// before anything else is done about it.
pub open spec fn worked(
    b: Book,
    s: Setting,
    a: (Digest32, Digest32, Option<Seq<u8>>),
    w: EntryWork,
) -> (Book, Option<Error>) {
    if !s.authors.contains_key(a.0@) {
        (b, Some(Error::MalformedGovernance("synced entry from an unadmitted author")))
    } else if sync::by_hash(s.log, a.1) is None {
        (b, Some(Error::MalformedGovernance("synced entry vanished")))
    } else {
        match w.written {
            Err(e) => (Book { poisoned: true, ..b }, Some(e)),
            Ok(_) => {
                let stored = Book { next_log_id: lists::succ(b.next_log_id), ..b };
                match sync::arrived_kind(a, w.framed) {
                    None => (stored, Some(log::unclassified())),
                    Some(EntryKind::Governance) => match (w.fact, w.evaluated) {
                        (Err(e), _) => (stored, Some(e)),
                        (Ok(_), Err(e)) => (
                            Book { folded: stored.folded.push(a.1), ..stored },
                            Some(e),
                        ),
                        (Ok(_), Ok(_)) => (
                            Book {
                                folded: stored.folded.push(a.1),
                                governance: stored.governance + 1,
                                ..stored
                            },
                            None,
                        ),
                    },
                    Some(EntryKind::Content) => if a.2 is Some {
                        rendered(stored, s.me, a.0, a.1, w.render)
                    } else {
                        (stored, None)
                    },
                }
            },
        }
    }
}

/// The segments that working off one entry writes, batch by batch.
pub open spec fn entry_batches(
    b: Book,
    s: Setting,
    a: (Digest32, Digest32, Option<Seq<u8>>),
    w: EntryWork,
) -> Seq<Seq<(SegmentKind, u64, Seq<u8>)>> {
    if !s.authors.contains_key(a.0@) || sync::by_hash(s.log, a.1) is None {
        Seq::empty()
    } else {
        let wire = s.log[sync::by_hash(s.log, a.1)->Some_0].wire@;
        seq![seq![(SegmentKind::LogDb, b.next_log_id, wire)]] + (if w.written is Ok && a.2 is Some
            && sync::arrived_kind(a, w.framed) == Some(EntryKind::Content) {
            render_batch(
                Book { next_log_id: lists::succ(b.next_log_id), ..b },
                s.me,
                a.0,
                a.1,
                w.render,
            )
        } else {
            Seq::empty()
        })
    }
}

/// What working off the first `k` entries leads to, and the first fault among them. A
/// fault does not end the pass: the entries behind it are stored all the same. Only a write
/// that failed does.
pub open spec fn worked_all(
    b: Book,
    s: Setting,
    arrived: Seq<(Digest32, Digest32, Option<Seq<u8>>)>,
    works: Seq<EntryWork>,
    k: nat,
) -> (Book, Option<Error>)
    decreases k,
{
    if k == 0 {
        (b, None)
    } else {
        let before = worked_all(b, s, arrived, works, (k - 1) as nat);
        if before.0.poisoned {
            before
        } else {
            let (after, e) = worked(before.0, s, arrived[k - 1], works[k - 1]);
            (after, state::or_fault(before.1, e))
        }
    }
}

/// The segments that working off the first `k` entries writes, batch by batch.
pub open spec fn all_batches(
    b: Book,
    s: Setting,
    arrived: Seq<(Digest32, Digest32, Option<Seq<u8>>)>,
    works: Seq<EntryWork>,
    k: nat,
) -> Seq<Seq<(SegmentKind, u64, Seq<u8>)>>
    decreases k,
{
    if k == 0 {
        Seq::empty()
    } else {
        let before = worked_all(b, s, arrived, works, (k - 1) as nat);
        let sofar = all_batches(b, s, arrived, works, (k - 1) as nat);
        if before.0.poisoned {
            sofar
        } else {
            sofar + entry_batches(before.0, s, arrived[k - 1], works[k - 1])
        }
    }
}

/// A write that failed ends a pass: nothing behind it changes anything.
proof fn lemma_worked_stuck(
    b: Book,
    s: Setting,
    arrived: Seq<(Digest32, Digest32, Option<Seq<u8>>)>,
    works: Seq<EntryWork>,
    k: nat,
    n: nat,
)
    requires
        k <= n,
        worked_all(b, s, arrived, works, k).0.poisoned,
    ensures
        worked_all(b, s, arrived, works, n) == worked_all(b, s, arrived, works, k),
        all_batches(b, s, arrived, works, n) == all_batches(b, s, arrived, works, k),
    decreases n,
{
    if k < n {
        lemma_worked_stuck(b, s, arrived, works, k, (n - 1) as nat);
    }
}

/// Rendering does not look at what was counted before.
proof fn lemma_rendered_counts(
    b: Book,
    me: Digest32,
    author: Digest32,
    entry_hash: Digest32,
    w: RenderWork,
    governance: int,
    count: int,
)
    ensures
        ({
            let plain = rendered(
                Book { governance: 0, rendered: 0, ..b },
                me,
                author,
                entry_hash,
                w,
            );
            let counted = rendered(
                Book { governance, rendered: count, ..b },
                me,
                author,
                entry_hash,
                w,
            );
            &&& counted.1 == plain.1
            &&& counted.0 == (Book { governance, rendered: count + plain.0.rendered, ..plain.0 })
        }),
{
}

impl ChannelState {
    /// Works off the next entry that a session brought. Only a write that failed keeps the
    /// pass from going on.
    fn work_off(
        &mut self,
        pass: &mut SyncPass,
        w: EntryWork,
        batches: &mut Vec<Vec<SegmentWrite>>,
    ) -> (r: Result<(), Error>)
        requires
            old(self).wf(),
            !old(self).poisoned,
            old(pass).wf(),
            old(pass).at < old(pass).arrived@.len(),
            w.render.is_by(old(pass).arrived@[old(pass).at as int].author),
        ensures
            final(self).wf(),
            final(self).same_but_book(*old(self)),
            final(pass).wf(),
            final(pass).arrived == old(pass).arrived,
            final(pass).failure == old(pass).failure,
            final(pass).out.applied == old(pass).out.applied,
            ({
                let b = old(self).book(
                    old(pass).out.governance as int,
                    old(pass).out.rendered as int,
                );
                let a = old(pass).arrived@[old(pass).at as int]@;
                let (after, e) = worked(b, old(self).setting(), a, w);
                &&& final(self).book(after.governance, after.rendered) == after
                &&& batches_view(final(batches)@) == batches_view(old(batches)@) + entry_batches(
                    b,
                    old(self).setting(),
                    a,
                    w,
                )
                &&& !final(self).poisoned ==> {
                    &&& final(pass).at == old(pass).at + 1
                    &&& final(pass).out.governance == after.governance
                    &&& final(pass).out.rendered == after.rendered
                }
                &&& match r {
                    Ok(_) => e is None && !final(self).poisoned,
                    Err(x) => e == Some(x),
                }
            }),
    {
        let ghost b = self.book(pass.out.governance as int, pass.out.rendered as int);
        let ghost s = self.setting();
        let ghost a = pass.arrived@[pass.at as int]@;
        let ghost first = batches_view(batches@);
        let ghost wire = s.log[sync::by_hash(s.log, a.1)->Some_0].wire@;
        let total: usize = pass.arrived.len();
        assert(pass.out.governance + pass.out.rendered < total);
        match pass.next_write(&*self) {
            Err(e) => {
                assert(first =~= first + Seq::empty());
                pass.done(EntryKind::Content, false);
                return Err(e);
            },
            Ok(None) => {
                assert(false);
            },
            Ok(Some(write)) => {
                let mut batch: Vec<SegmentWrite> = Vec::new();
                batch.push(write);
                proof {
                    lemma_batches_push(batches@, batch);
                    assert(state::writes_view(batch@) =~= seq![
                        (SegmentKind::LogDb, b.next_log_id, wire),
                    ]);
                }
                batches.push(batch);
            },
        }
        let ghost stored = seq![seq![(SegmentKind::LogDb, b.next_log_id, wire)]];
        assert(batches_view(batches@) =~= first + stored);
        assert(stored =~= stored + Seq::empty());
        self.entry_stored(w.written)?;
        let author: Digest32 = pass.arrived[pass.at].author;
        let entry_hash: Digest32 = pass.arrived[pass.at].entry_hash;
        let pruned: bool = pass.arrived[pass.at].payload.is_none();
        assert(author == a.0 && entry_hash == a.1 && pruned == (a.2 is None));
        let kind: EntryKind = match pass.kind(w.framed) {
            Ok(k) => k,
            Err(e) => {
                pass.done(EntryKind::Content, false);
                return Err(e);
            },
        };
        match kind {
            EntryKind::Governance => {
                match w.fact {
                    Ok(_) => {},
                    Err(e) => {
                        pass.done(EntryKind::Content, false);
                        return Err(e);
                    },
                }
                let folded: Result<(), Error> = self.fold_governance(entry_hash, w.evaluated);
                proof {
                    let after = worked(b, s, a, w).0;
                    assert(self.book(after.governance, after.rendered) =~= after);
                }
                match folded {
                    Ok(_) => {},
                    Err(e) => {
                        pass.done(EntryKind::Content, false);
                        return Err(e);
                    },
                }
                pass.done(EntryKind::Governance, false);
            },
            EntryKind::Content => {
                if pruned {
                    pass.done(EntryKind::Content, false);
                    return Ok(());
                }
                proof {
                    lemma_found(self.log@, entry_hash);
                    lemma_rendered_counts(
                        self.book(0, 0),
                        s.me,
                        author,
                        entry_hash,
                        w.render,
                        b.governance,
                        b.rendered,
                    );
                    assert(Book { governance: 0, rendered: 0, ..self.book(0, 0) }
                        =~= self.book(0, 0));
                    assert(Book { governance: b.governance, rendered: b.rendered, ..self.book(0, 0) }
                        =~= Book { next_log_id: lists::succ(b.next_log_id), ..b });
                }
                let tried: Result<bool, Error> = self.try_render(
                    author,
                    entry_hash,
                    w.render,
                    batches,
                );
                proof {
                    let after = worked(b, s, a, w).0;
                    assert(self.book(after.governance, after.rendered) =~= after);
                    assert(batches_view(batches@) =~= first + entry_batches(b, s, a, w));
                }
                match tried {
                    Ok(shown) => {
                        pass.done(EntryKind::Content, shown);
                    },
                    Err(e) => {
                        return Err(e);
                    },
                }
            },
        }
        Ok(())
    }
}

proof fn lemma_found(lg: Seq<LogEntry>, h: Digest32)
    requires
        sync::by_hash(lg, h) is Some,
    ensures
        state::in_log(lg, h),
    decreases lg.len(),
{
    if lg.len() > 0 {
        if sync::by_hash(lg.drop_last(), h) is Some {
            lemma_found(lg.drop_last(), h);
            let i = choose|i: int|
                0 <= i < lg.drop_last().len() && (#[trigger] lg.drop_last()[i]).entry_hash == h;
            assert(lg[i].entry_hash == h);
        } else {
            assert(lg[lg.len() - 1].entry_hash == h);
        }
    }
}

// ---- a whole session ---------------------------------------------------------------

/// Whether there is a work for each entry that arrived, and what opened of it is its
/// author's.
pub open spec fn works_for(
    works: Seq<EntryWork>,
    arrived: Seq<(Digest32, Digest32, Option<Seq<u8>>)>,
) -> bool {
    &&& works.len() >= arrived.len()
    &&& forall|i: int|
        0 <= i < arrived.len() ==> (#[trigger] works[i]).render.is_by(arrived[i].0)
}

impl ChannelState {
    /// The channel once a session has applied `entries` to its log.
    pub open spec fn setting_with(&self, entries: Seq<LogEntry>) -> Setting {
        Setting { log: self.log@ + entries, ..self.setting() }
    }

    /// A whole session: `entries` is what it applied to the log, `session` how it ended,
    /// and `works` what became of each entry that arrived, in order. Whatever arrived is
    /// worked off even where the session failed, and all of it is stored: an entry that
    /// cannot be folded in does not keep those behind it out of the store. Only a write
    /// that failed ends it, and poisons the channel. The result is what is written, batch
    /// by batch, and what the session did, or the first fault.
    pub fn sync_over(
        &mut self,
        entries: Vec<LogEntry>,
        session: Result<usize, WireError>,
        works: Vec<EntryWork>,
    ) -> (r: (Vec<Vec<SegmentWrite>>, Result<SyncOutcome, Error>))
        requires
            old(self).wf(),
            state::by_authors(entries@, old(self).authors.map()),
            !old(self).poisoned ==> works_for(
                works@,
                log::arrivals(old(self).log@ + entries@, log::heads_of(*old(self))),
            ),
        ensures
            final(self).wf(),
            if old(self).poisoned {
                &&& *final(self) == *old(self)
                &&& r.0@.len() == 0
                &&& r.1 == Err::<SyncOutcome, Error>(ops::poisoned_error())
            } else {
                let s = old(self).setting_with(entries@);
                let arrived = log::arrivals(s.log, log::heads_of(*old(self)));
                let (b, e) = worked_all(
                    old(self).book(0, 0),
                    s,
                    arrived,
                    works@,
                    arrived.len(),
                );
                &&& final(self).log@ == s.log
                &&& final(self).same_but_book(
                    (ChannelState { log: final(self).log, ..*old(self) }),
                )
                &&& final(self).book(b.governance, b.rendered) == b
                &&& batches_view(r.0@) == all_batches(
                    old(self).book(0, 0),
                    s,
                    arrived,
                    works@,
                    arrived.len(),
                )
                &&& match (e, session) {
                    (Some(x), _) => r.1 == Err::<SyncOutcome, Error>(x),
                    (None, Err(code)) => r.1 == Err::<SyncOutcome, Error>(sync::failure_of(code)),
                    (None, Ok(n)) => {
                        &&& r.1 is Ok
                        &&& r.1->Ok_0.applied == n
                        &&& r.1->Ok_0.governance == b.governance
                        &&& r.1->Ok_0.rendered == b.rendered
                    },
                }
            },
    {
        let mut batches: Vec<Vec<SegmentWrite>> = Vec::new();
        let heads: Vec<(Digest32, u64)> = match self.begin_sync() {
            Ok(h) => h,
            Err(e) => {
                return (batches, Err(e));
            },
        };
        let ghost start = self.book(0, 0);
        let ghost given = works@;
        self.apply_session(entries);
        let mut pass: SyncPass = SyncPass::start(&*self, &heads, session);
        let ghost s = self.setting();
        let ghost arrived = log::arrived_view(pass.arrived@);
        let ghost applied = pass.out.applied;
        let mut left: Vec<EntryWork> = works;
        let n: usize = pass.arrived.len();
        let mut fault: Option<Error> = None;
        assert(batches_view(batches@) =~= Seq::empty());
        while pass.at < n
            invariant
                self.wf(),
                pass.wf(),
                !old(self).poisoned,
                given == works@,
                s == old(self).setting_with(entries@),
                self.setting() == s,
                self.same_but_book((ChannelState { log: self.log, ..*old(self) })),
                start == old(self).book(0, 0),
                arrived == log::arrivals(s.log, log::heads_of(*old(self))),
                arrived == log::arrived_view(pass.arrived@),
                n == arrived.len(),
                works_for(given, arrived),
                left@ == given.skip(pass.at as int),
                pass.out.applied == applied,
                pass.failure == (match session {
                    Ok(_) => None,
                    Err(code) => Some(code),
                }),
                worked_all(start, s, arrived, given, pass.at as nat) == (
                    self.book(pass.out.governance as int, pass.out.rendered as int),
                    fault,
                ),
                batches_view(batches@) == all_batches(start, s, arrived, given, pass.at as nat),
                !self.poisoned,
            decreases n - pass.at,
        {
            let ghost at = pass.at;
            let ghost before = *self;
            let w: EntryWork = left.remove(0);
            proof {
                assert(w == given[at as int]);
                assert(arrived[at as int] == pass.arrived@[at as int]@);
            }
            let done: Result<(), Error> = self.work_off(&mut pass, w, &mut batches);
            proof {
                assert(self.setting() == before.setting());
                let (after, e) = worked(
                    worked_all(start, s, arrived, given, at as nat).0,
                    s,
                    arrived[at as int],
                    given[at as int],
                );
                assert(worked_all(start, s, arrived, given, (at + 1) as nat) == (
                    after,
                    state::or_fault(fault, e),
                ));
                assert(given.skip(at as int).remove(0) =~= given.skip(at + 1));
            }
            match done {
                Ok(_) => {},
                Err(e) => {
                    let first: Error = match fault {
                        Some(f) => f,
                        None => e,
                    };
                    if self.poisoned {
                        proof {
                            lemma_worked_stuck(
                                start,
                                s,
                                arrived,
                                given,
                                (at + 1) as nat,
                                n as nat,
                            );
                        }
                        return (batches, Err(first));
                    }
                    fault = Some(first);
                },
            }
        }
        match fault {
            Some(e) => (batches, Err(e)),
            None => {
                let r: Result<SyncOutcome, Error> = pass.finish();
                (batches, r)
            },
        }
    }
}

// ---- a sender key that arrives ---------------------------------------------------

/// What rendering the first `k` entries of an author leads to.
pub open spec fn rendered_all(
    b: Book,
    me: Digest32,
    pending: Seq<(Digest32, Digest32, Option<Seq<u8>>)>,
    works: Seq<RenderWork>,
    k: nat,
) -> (Book, Option<Error>)
    decreases k,
{
    if k == 0 {
        (b, None)
    } else {
        let before = rendered_all(b, me, pending, works, (k - 1) as nat);
        if before.1 is Some {
            before
        } else {
            rendered(before.0, me, pending[k - 1].0, pending[k - 1].1, works[k - 1])
        }
    }
}

/// The segments that rendering the first `k` entries of an author writes, batch by batch.
pub open spec fn rendered_batches(
    b: Book,
    me: Digest32,
    pending: Seq<(Digest32, Digest32, Option<Seq<u8>>)>,
    works: Seq<RenderWork>,
    k: nat,
) -> Seq<Seq<(SegmentKind, u64, Seq<u8>)>>
    decreases k,
{
    if k == 0 {
        Seq::empty()
    } else {
        let before = rendered_all(b, me, pending, works, (k - 1) as nat);
        let sofar = rendered_batches(b, me, pending, works, (k - 1) as nat);
        if before.1 is Some {
            sofar
        } else {
            sofar + render_batch(
                before.0,
                me,
                pending[k - 1].0,
                pending[k - 1].1,
                works[k - 1],
            )
        }
    }
}

proof fn lemma_rendered_stuck(
    b: Book,
    me: Digest32,
    pending: Seq<(Digest32, Digest32, Option<Seq<u8>>)>,
    works: Seq<RenderWork>,
    k: nat,
    n: nat,
)
    requires
        k <= n,
        rendered_all(b, me, pending, works, k).1 is Some,
    ensures
        rendered_all(b, me, pending, works, n) == rendered_all(b, me, pending, works, k),
        rendered_batches(b, me, pending, works, n) == rendered_batches(b, me, pending, works, k),
    decreases n,
{
    if k < n {
        lemma_rendered_stuck(b, me, pending, works, k, (n - 1) as nat);
    }
}

/// What a feed lists is its author's, and in the log.
proof fn lemma_listed(lg: Seq<LogEntry>, author: Digest32, from: u64, to: u64, i: int)
    requires
        0 <= i < log::arrived_in(lg, author, from, to).len(),
    ensures
        log::arrived_in(lg, author, from, to)[i].0 == author,
        state::in_log(lg, log::arrived_in(lg, author, from, to)[i].1),
    decreases to,
{
    if to > from {
        let front = log::arrived_in(lg, author, from, (to - 1) as u64);
        if i < front.len() {
            lemma_listed(lg, author, from, (to - 1) as u64, i);
        } else {
            log::lemma_feed_at(lg, author, to);
            let at = log::feed_at(lg, author, to)->Some_0;
            assert(lg[at].entry_hash == log::arrived_in(lg, author, from, to)[i].1);
        }
    }
}

/// What is picked was there.
proof fn lemma_picked<T>(all: Seq<T>, p: spec_fn(T) -> bool, i: int)
    requires
        0 <= i < lists::pick(all, p).len(),
    ensures
        all.contains(lists::pick(all, p)[i]),
{
    lists::lemma_pick_contains(all, p, lists::pick(all, p)[i]);
}

impl ChannelState {
    /// The content entries of an author that are tried again when a key of theirs arrives.
    pub open spec fn unread(&self, author: Digest32) -> Seq<(Digest32, Digest32, Option<Seq<u8>>)> {
        lists::pick(
            log::arrived_in(self.log@, author, 0, log::max_seq(self.log@, author)),
            log::unshown_content(self.timeline@),
        )
    }

    /// Tries every stored content entry of an author that is not shown yet against the
    /// keys now held, oldest first. `works` is what became of each. The result is what is
    /// written, batch by batch, and how many messages became readable; a write that fails
    /// ends it.
    pub fn backfill(&mut self, author: &Digest32, works: Vec<RenderWork>) -> (r: (
        Vec<Vec<SegmentWrite>>,
        Result<usize, Error>,
    ))
        requires
            old(self).wf(),
            works@.len() >= old(self).unread(*author).len(),
            forall|i: int|
                0 <= i < old(self).unread(*author).len() ==> (#[trigger] works@[i]).is_by(*author),
        ensures
            final(self).wf(),
            final(self).same_but_book(*old(self)),
            ({
                let unread = old(self).unread(*author);
                let (b, e) = rendered_all(
                    old(self).book(0, 0),
                    old(self).sender.author_id,
                    unread,
                    works@,
                    unread.len(),
                );
                &&& final(self).book(0, b.rendered) == b
                &&& batches_view(r.0@) == rendered_batches(
                    old(self).book(0, 0),
                    old(self).sender.author_id,
                    unread,
                    works@,
                    unread.len(),
                )
                &&& match r.1 {
                    Ok(n) => e is None && n == b.rendered,
                    Err(x) => e == Some(x),
                }
            }),
    {
        let mut batches: Vec<Vec<SegmentWrite>> = Vec::new();
        let pending: Vec<Arrived> = self.pending(author);
        let ghost start = self.book(0, 0);
        let ghost me = self.sender.author_id;
        let ghost given = works@;
        let ghost unread = self.unread(*author);
        let mut left: Vec<RenderWork> = works;
        let mut count: usize = 0;
        let mut i: usize = 0;
        assert(batches_view(batches@) =~= Seq::empty());
        while i < pending.len()
            invariant
                i <= pending@.len(),
                count <= i,
                self.wf(),
                self.same_but_book(*old(self)),
                me == old(self).sender.author_id,
                given == works@,
                start == old(self).book(0, 0),
                unread == old(self).unread(*author),
                unread == log::arrived_view(pending@),
                given.len() >= unread.len(),
                forall|j: int| 0 <= j < unread.len() ==> (#[trigger] given[j]).is_by(*author),
                left@ == given.skip(i as int),
                rendered_all(start, me, unread, given, i as nat) == (
                    self.book(0, count as int),
                    None::<Error>,
                ),
                batches_view(batches@) == rendered_batches(start, me, unread, given, i as nat),
            decreases pending@.len() - i,
        {
            let total: usize = pending.len();
            let ghost before = *self;
            let w: RenderWork = left.remove(0);
            proof {
                let all = log::arrived_in(
                    self.log@,
                    *author,
                    0,
                    log::max_seq(self.log@, *author),
                );
                lemma_picked(all, log::unshown_content(old(self).timeline@), i as int);
                let j = choose|j: int| 0 <= j < all.len() && all[j] == unread[i as int];
                lemma_listed(self.log@, *author, 0, log::max_seq(self.log@, *author), j);
                assert(unread[i as int] == pending@[i as int]@);
                assert(w == given[i as int]);
                lemma_rendered_counts(
                    self.book(0, 0),
                    me,
                    pending@[i as int].author,
                    pending@[i as int].entry_hash,
                    w,
                    0,
                    count as int,
                );
                assert(Book { governance: 0, rendered: 0, ..self.book(0, 0) } =~= self.book(0, 0));
                assert(Book { governance: 0, rendered: count as int, ..self.book(0, 0) }
                    =~= self.book(0, count as int));
            }
            let tried: Result<bool, Error> = self.try_render(
                pending[i].author,
                pending[i].entry_hash,
                w,
                &mut batches,
            );
            proof {
                let plain = rendered(
                    before.book(0, 0),
                    me,
                    unread[i as int].0,
                    unread[i as int].1,
                    w,
                );
                assert(rendered_all(start, me, unread, given, (i + 1) as nat) == rendered(
                    before.book(0, count as int),
                    me,
                    unread[i as int].0,
                    unread[i as int].1,
                    w,
                ));
                assert(self.book(0, count + plain.0.rendered) =~= Book {
                    governance: 0,
                    rendered: count + plain.0.rendered,
                    ..plain.0
                });
                assert(given.skip(i as int).remove(0) =~= given.skip(i + 1));
                assert(batches_view(batches@) == rendered_batches(
                    start,
                    me,
                    unread,
                    given,
                    (i + 1) as nat,
                ));
            }
            match tried {
                Ok(shown) => {
                    if shown {
                        count = count + 1;
                    }
                },
                Err(e) => {
                    proof {
                        lemma_rendered_stuck(
                            start,
                            me,
                            unread,
                            given,
                            (i + 1) as nat,
                            unread.len(),
                        );
                    }
                    return (batches, Err(e));
                },
            }
            i = i + 1;
        }
        (batches, Ok(count))
    }
}

// ---- laws --------------------------------------------------------------------------

/// Nothing is shown but what was stored before: a message that a pass adds to the timeline
/// is one of the entries that arrived.
pub proof fn law_shown_was_stored(
    b: Book,
    s: Setting,
    arrived: Seq<(Digest32, Digest32, Option<Seq<u8>>)>,
    works: Seq<EntryWork>,
    k: nat,
    i: int,
)
    requires
        k <= arrived.len(),
        b.timeline.len() <= i < worked_all(b, s, arrived, works, k).0.timeline.len(),
    ensures
        exists|j: int|
            0 <= j < k && (#[trigger] arrived[j]).1 == worked_all(
                b,
                s,
                arrived,
                works,
                k,
            ).0.timeline[i].0,
    decreases k,
{
    if k > 0 {
        let before = worked_all(b, s, arrived, works, (k - 1) as nat);
        if before.0.poisoned || i < before.0.timeline.len() {
            law_shown_was_stored(b, s, arrived, works, (k - 1) as nat, i);
            let j = choose|j: int|
                0 <= j < k - 1 && (#[trigger] arrived[j]).1 == before.0.timeline[i].0;
            assert(arrived[j].1 == worked_all(b, s, arrived, works, k).0.timeline[i].0);
        } else {
            assert(arrived[k - 1].1 == worked_all(b, s, arrived, works, k).0.timeline[i].0);
        }
    }
}

/// A message is shown only where its author consented to this identity, or is this
/// identity, and released a key for it.
pub proof fn law_no_rendering_without_consent(
    b: Book,
    me: Digest32,
    author: Digest32,
    entry_hash: Digest32,
    w: RenderWork,
)
    requires
        rendered(b, me, author, entry_hash, w).0.timeline != b.timeline,
    ensures
        author == me || w.consented,
        w.generation is Some,
        b.receivers.contains_key(
            (ChainSlot { author, chain_id: w.generation->Some_0 }).key_bytes(),
        ),
{
}

/// A pass only adds: what was shown and what was folded in stays, in its order, and a
/// poisoned channel stays poisoned.
pub proof fn law_a_pass_only_adds(
    b: Book,
    s: Setting,
    arrived: Seq<(Digest32, Digest32, Option<Seq<u8>>)>,
    works: Seq<EntryWork>,
    k: nat,
)
    ensures
        ({
            let after = worked_all(b, s, arrived, works, k).0;
            &&& b.timeline.is_prefix_of(after.timeline)
            &&& b.folded.is_prefix_of(after.folded)
            &&& b.next_log_id <= after.next_log_id
            &&& b.poisoned ==> after.poisoned
            &&& forall|slot: Seq<u8>| #[trigger]
                b.receivers.contains_key(slot) ==> after.receivers.contains_key(slot)
        }),
    decreases k,
{
    if k > 0 {
        law_a_pass_only_adds(b, s, arrived, works, (k - 1) as nat);
        let before = worked_all(b, s, arrived, works, (k - 1) as nat).0;
        let after = worked_all(b, s, arrived, works, k).0;
        assert(before.timeline.is_prefix_of(after.timeline));
        assert(before.folded.is_prefix_of(after.folded));
    }
}

} // verus!
