//! Entries: authoring them, accepting them, rendering them, and reconciling what a sync
//! session brought.

use vstd::prelude::*;

use crate::cbor;
use crate::channel::ops;
use crate::channel::segments::{
    self, cache_bytes, classify_payload, receivers_bytes, ChainSlot, EntryKind, ReceiverChain,
    Rendered, MAX_RECEIVER_CHAINS, SEG_RECEIVERS, SEG_SENDER,
};
use crate::channel::state::{
    self, ChannelState, LogEntry, SegmentKind, SegmentWrite, SenderChain,
};
use crate::content::{self, Content};
use crate::error::Error;
use crate::hash::{self, same_digest, sha256, Digest32};
use crate::lists::{self, next_number};
use crate::table::Key;

verus! {

// ---- feeds -------------------------------------------------------------------

/// The highest place that `author`'s feed reaches in a log; 0 where it has none.
pub open spec fn max_seq(log: Seq<LogEntry>, author: Digest32) -> u64
    decreases log.len(),
{
    if log.len() == 0 {
        0
    } else {
        let front = max_seq(log.drop_last(), author);
        if log.last().author_id == author && log.last().seq > front {
            log.last().seq
        } else {
            front
        }
    }
}

/// Where in a log the entry at place `seq` of `author`'s feed stands.
pub open spec fn feed_at(log: Seq<LogEntry>, author: Digest32, seq: u64) -> Option<int>
    decreases log.len(),
{
    if log.len() == 0 {
        None
    } else {
        match feed_at(log.drop_last(), author, seq) {
            Some(i) => Some(i),
            None => if log.last().author_id == author && log.last().seq == seq {
                Some(log.len() - 1)
            } else {
                None
            },
        }
    }
}

/// What is found is at that place of the feed.
pub proof fn lemma_feed_at(log: Seq<LogEntry>, author: Digest32, seq: u64)
    ensures
        match feed_at(log, author, seq) {
            Some(i) => 0 <= i < log.len() && log[i].author_id == author && log[i].seq == seq,
            None => true,
        },
    decreases log.len(),
{
    if log.len() > 0 {
        lemma_feed_at(log.drop_last(), author, seq);
    }
}

/// The highest place that `author`'s feed reaches.
pub fn feed_head(log: &Vec<LogEntry>, author: &Digest32) -> (n: u64)
    ensures
        n == max_seq(log@, *author),
{
    let mut n: u64 = 0;
    let mut i: usize = 0;
    assert(log@.take(0) =~= Seq::empty());
    while i < log.len()
        invariant
            i <= log@.len(),
            n == max_seq(log@.take(i as int), *author),
        decreases log@.len() - i,
    {
        proof {
            assert(log@.take(i + 1).drop_last() =~= log@.take(i as int));
            assert(log@.take(i + 1).last() == log@[i as int]);
        }
        let e: &LogEntry = &log[i];
        if same_digest(&e.author_id, author) && e.seq > n {
            n = e.seq;
        }
        i = i + 1;
    }
    assert(log@.take(i as int) =~= log@);
    n
}

/// The entry at place `seq` of `author`'s feed.
pub fn feed_find(log: &Vec<LogEntry>, author: &Digest32, seq: u64) -> (r: Option<usize>)
    ensures
        match r {
            Some(i) => i < log@.len() && feed_at(log@, *author, seq) == Some(i as int),
            None => feed_at(log@, *author, seq) is None,
        },
{
    let mut i: usize = 0;
    let mut r: Option<usize> = None;
    assert(log@.take(0) =~= Seq::empty());
    while i < log.len()
        invariant
            i <= log@.len(),
            match r {
                Some(k) => k < log@.len() && feed_at(log@.take(i as int), *author, seq) == Some(
                    k as int,
                ),
                None => feed_at(log@.take(i as int), *author, seq) is None,
            },
        decreases log@.len() - i,
    {
        proof {
            assert(log@.take(i + 1).drop_last() =~= log@.take(i as int));
            assert(log@.take(i + 1).last() == log@[i as int]);
        }
        if r.is_none() && same_digest(&log[i].author_id, author) && log[i].seq == seq {
            r = Some(i);
        }
        i = i + 1;
    }
    assert(log@.take(i as int) =~= log@);
    r
}

// ---- authoring ---------------------------------------------------------------

/// What an entry says of itself, before it is signed. The algorithm identifiers are the
/// signing suite's.
#[derive(Debug, Clone, Copy, PartialEq, Eq)]
pub struct EntrySkeleton {
    /// The author.
    pub author_id: Digest32,
    /// The place in the author's feed.
    pub seq: u64,
    /// The hash of the entry before.
    pub prev_hash: Digest32,
    /// The hash of the entry that the skip link names.
    pub lipmaa_backlink: Digest32,
    /// The channel.
    pub channel_id: Digest32,
    /// The epoch.
    pub epoch: u64,
    /// The hash of the payload.
    pub payload_hash: Digest32,
    /// The length of the payload.
    pub payload_len: u64,
    /// Whether the feed ends here.
    pub end_of_feed: bool,
}

/// The hash of the entry at a place of a feed, or the zero hash where there is none.
pub open spec fn hash_at(log: Seq<LogEntry>, author: Digest32, seq: u64) -> Seq<u8> {
    match feed_at(log, author, seq) {
        Some(i) => log[i].entry_hash@,
        None => hash::zero_digest(),
    }
}

/// The hash of an entry that another one links to; the first entry links to none.
pub open spec fn link(log: Seq<LogEntry>, author: Digest32, seq: u64, to: u64) -> Seq<u8> {
    if seq == 1 {
        hash::zero_digest()
    } else {
        hash_at(log, author, to)
    }
}

/// What an identity authors: whether it may, in the order in which that is asked.
pub open spec fn author_fault(ch: ChannelState, signer: Result<Digest32, Error>) -> Option<Error> {
    state::or_fault(
        state::unless(!ch.poisoned, ops::poisoned_error()),
        state::or_fault(
            state::fault_in(signer),
            state::unless(
                ch.authors.has(signer->Ok_0@),
                Error::Profile("this identity is not an author of the channel"),
            ),
        ),
    )
}

/// The error for an entry of one's own that the log does not accept.
pub open spec fn authored_refused() -> Error {
    Error::Profile("authored entry failed the acceptance predicate")
}

/// Why a text of one's own is not appended, or `None` where it is: the channel is poisoned,
/// this identity is no author, or the log does not accept the entry.
pub open spec fn append_fault(ch: ChannelState, entry: LogEntry, accepted: bool) -> Option<Error> {
    state::or_fault(
        state::unless(!ch.poisoned, ops::poisoned_error()),
        state::or_fault(
            state::unless(
                ch.authors.has(entry.author_id@),
                Error::Profile("this identity is not an author of the channel"),
            ),
            state::unless(accepted, authored_refused()),
        ),
    )
}

/// Whether `w` is the write of `entry` as log segment `id`.
pub open spec fn writes_entry(w: SegmentWrite, id: u64, wire: Seq<u8>) -> bool {
    w.kind == SegmentKind::LogDb && w.id == id && w.bytes@ == wire
}

/// The row that a content envelope renders to.
pub open spec fn row_for(row: Rendered, entry: LogEntry, content: Content) -> bool {
    &&& row.entry_hash == entry.entry_hash
    &&& row.author == entry.author_id
    &&& row.created_millis == content.created_millis
    &&& row.text@ == content.text@
}

proof fn lemma_still_gated(timeline: Seq<Rendered>, log: Seq<LogEntry>, more: Seq<LogEntry>)
    requires
        state::gated(timeline, log),
    ensures
        state::gated(timeline, log + more),
{
    assert forall|i: int| 0 <= i < timeline.len() implies state::in_log(
        log + more,
        (#[trigger] timeline[i]).entry_hash,
    ) by {
        assert(state::in_log(log, timeline[i].entry_hash));
        let j = choose|j: int|
            0 <= j < log.len() && (#[trigger] log[j]).entry_hash == timeline[i].entry_hash;
        assert((log + more)[j] == log[j]);
    }
}

impl ChannelState {
    /// The next place in `author`'s feed.
    pub fn next_seq(&self, author: &Digest32) -> (n: u64)
        requires
            max_seq(self.log@, *author) < u64::MAX,
        ensures
            n == max_seq(self.log@, *author) + 1,
    {
        feed_head(&self.log, author) + 1
    }

    fn hash_of(&self, author: &Digest32, seq: u64) -> (d: Digest32)
        ensures
            d@ == hash_at(self.log@, *author, seq),
    {
        match feed_find(&self.log, author, seq) {
            Some(i) => self.log[i].entry_hash,
            None => {
                let zero: Digest32 = [0u8; 32];
                assert(zero@ =~= hash::zero_digest());
                zero
            },
        }
    }

    /// The next entry of `author`'s feed, before it is signed. `lipmaa` is the place that
    /// the skip link of the next place names.
    pub fn next_skeleton(&self, author: &Digest32, payload: &[u8], lipmaa: u64) -> (s: EntrySkeleton)
        requires
            max_seq(self.log@, *author) < u64::MAX,
        ensures
            s.author_id == *author,
            s.seq == max_seq(self.log@, *author) + 1,
            s.prev_hash@ == link(self.log@, *author, s.seq, (s.seq - 1) as u64),
            s.lipmaa_backlink@ == link(self.log@, *author, s.seq, lipmaa),
            s.channel_id == self.channel_id,
            s.epoch == self.epoch,
            s.payload_hash@ == hash::sha256_of(payload@),
            s.payload_len == payload@.len(),
            !s.end_of_feed,
    {
        let seq: u64 = self.next_seq(author);
        let zero: Digest32 = [0u8; 32];
        assert(zero@ =~= hash::zero_digest());
        let prev_hash: Digest32 = if seq == 1 {
            zero
        } else {
            self.hash_of(author, seq - 1)
        };
        let lipmaa_backlink: Digest32 = if seq == 1 {
            zero
        } else {
            self.hash_of(author, lipmaa)
        };
        EntrySkeleton {
            author_id: *author,
            seq,
            prev_hash,
            lipmaa_backlink,
            channel_id: self.channel_id,
            epoch: self.epoch,
            payload_hash: sha256(payload),
            payload_len: payload.len() as u64,
            end_of_feed: false,
        }
    }

    /// Begins a text message: whether this identity may author here, and the envelope
    /// that is to be encrypted under its sender chain. `signer` is the fingerprint of
    /// the unlocked identity.
    pub fn begin_text(&self, signer: Result<Digest32, Error>, text: &str, now_millis: u64) -> (r: Result<
        Content,
        Error,
    >)
        requires
            self.wf(),
        ensures
            match r {
                Ok(c) => author_fault(*self, signer) is None && content::text_fits(text@)
                    && c.created_millis == now_millis && c.text@ == text@,
                Err(e) => state::or_fault(
                    author_fault(*self, signer),
                    state::unless(
                        content::text_fits(text@),
                        Error::SizeLimitExceeded("message text"),
                    ),
                ) == Some(e),
            },
    {
        self.sound()?;
        let me: Digest32 = signer?;
        if !self.authors.contains_key(&me) {
            return Err(Error::Profile("this identity is not an author of the channel"));
        }
        Content::text(now_millis, text)
    }

    /// Takes up the sender chain as it stands after an encryption: the same generation,
    /// further on. Its key is used up from there on, whatever becomes of the message.
    pub fn advance_sender(&mut self, sender: SenderChain)
        requires
            old(self).wf(),
            sender.author_id == old(self).sender.author_id,
            sender.chain_id == old(self).sender.chain_id,
            sender.next_iteration > old(self).sender.next_iteration,
        ensures
            final(self).wf(),
            *final(self) == (ChannelState { sender, ..*old(self) }),
    {
        self.sender = sender;
    }

    /// Takes a signed entry of this identity's own, with an encrypted text, into the log. A
    /// poisoned channel takes none until it is opened again. `accepted` says whether the
    /// log's acceptance predicate holds of it. The result is the rendered message and the
    /// one batch that the entry, the rendering and the advanced chain are written in.
    pub fn append_text(&mut self, content: Content, entry: LogEntry, accepted: bool) -> (r: Result<
        (Rendered, Vec<SegmentWrite>),
        Error,
    >)
        requires
            old(self).wf(),
            entry.author_id == old(self).sender.author_id,
        ensures
            final(self).wf(),
            match r {
                Ok((row, writes)) => {
                    &&& append_fault(*old(self), entry, accepted) is None
                    &&& *final(self) == (ChannelState { log: final(self).log, ..*old(self) })
                    &&& final(self).log@ == old(self).log@.push(entry)
                    &&& row_for(row, entry, content)
                    &&& row.author == old(self).sender.author_id
                    &&& state::writes_view(writes@) == seq![
                        (SegmentKind::LogDb, old(self).next_log_id, entry.wire@),
                        (
                            SegmentKind::PlaintextCache,
                            old(self).next_log_id,
                            cbor::enc(row.toks()),
                        ),
                        (SegmentKind::KeyMaterial, SEG_SENDER, old(self).sender.state@),
                    ]
                },
                Err(e) => append_fault(*old(self), entry, accepted) == Some(e) && *final(self)
                    == *old(self),
            },
    {
        self.sound()?;
        if !self.authors.contains_key(&entry.author_id) {
            return Err(Error::Profile("this identity is not an author of the channel"));
        }
        if !accepted {
            return Err(Error::Profile("authored entry failed the acceptance predicate"));
        }
        let id: u64 = self.next_log_id;
        let row: Rendered = Rendered {
            entry_hash: entry.entry_hash,
            author: entry.author_id,
            created_millis: content.created_millis,
            text: content.text,
        };
        let mut writes: Vec<SegmentWrite> = Vec::new();
        writes.push(
            SegmentWrite {
                kind: SegmentKind::LogDb,
                id,
                bytes: vstd::slice::slice_to_vec(entry.wire.as_slice()),
            },
        );
        writes.push(
            SegmentWrite { kind: SegmentKind::PlaintextCache, id, bytes: cache_bytes(&row) },
        );
        writes.push(
            ops::key_material(SEG_SENDER, vstd::slice::slice_to_vec(self.sender.state.as_slice())),
        );
        assert(state::writes_view(writes@) =~= seq![
            (SegmentKind::LogDb, id, entry.wire@),
            (SegmentKind::PlaintextCache, id, cbor::enc(row.toks())),
            (SegmentKind::KeyMaterial, SEG_SENDER, self.sender.state@),
        ]);
        proof {
            lemma_still_gated(self.timeline@, self.log@, seq![entry]);
            assert(self.log@.push(entry) =~= self.log@ + seq![entry]);
        }
        self.log.push(entry);
        Ok((row, writes))
    }

    /// Shows a message once its batch was written. A batch that failed poisons the
    /// channel and shows nothing.
    pub fn show(&mut self, row: Rendered, written: Result<(), Error>) -> (r: Result<(), Error>)
        requires
            old(self).wf(),
            state::in_log(old(self).log@, row.entry_hash),
        ensures
            final(self).wf(),
            match written {
                Ok(_) => {
                    &&& r is Ok
                    &&& *final(self) == (ChannelState {
                        next_log_id: lists::succ(old(self).next_log_id),
                        timeline: final(self).timeline,
                        ..*old(self)
                    })
                    &&& final(self).timeline@ == old(self).timeline@.push(row)
                },
                Err(e) => r == Err::<(), Error>(e) && *final(self) == (ChannelState {
                    poisoned: true,
                    ..*old(self)
                }),
            },
    {
        self.persisted(written)?;
        self.next_log_id = next_number(self.next_log_id);
        self.timeline.push(row);
        Ok(())
    }

    /// Takes a signed governance entry of this identity's own into the log. `entry` is
    /// the signed entry, `fact` says whether it is a governance fact of this channel,
    /// `accepted` whether the log's acceptance predicate holds of it.
    pub fn append_governance(
        &mut self,
        signer: Result<Digest32, Error>,
        entry: Result<LogEntry, Error>,
        fact: Result<(), Error>,
        accepted: bool,
    ) -> (r: Result<SegmentWrite, Error>)
        requires
            old(self).wf(),
            signer is Ok && entry is Ok ==> entry->Ok_0.author_id == signer->Ok_0,
        ensures
            final(self).wf(),
            match r {
                Ok(w) => {
                    &&& governance_fault(*old(self), signer, entry, fact, accepted) is None
                    &&& *final(self) == (ChannelState { log: final(self).log, ..*old(self) })
                    &&& final(self).log@ == old(self).log@.push(entry->Ok_0)
                    &&& writes_entry(w, old(self).next_log_id, entry->Ok_0.wire@)
                },
                Err(e) => {
                    &&& governance_fault(*old(self), signer, entry, fact, accepted) == Some(e)
                    &&& *final(self) == *old(self)
                },
            },
    {
        self.sound()?;
        let me: Digest32 = signer?;
        if !self.authors.contains_key(&me) {
            return Err(Error::Profile("this identity is not an author of the channel"));
        }
        let entry: LogEntry = entry?;
        fact?;
        if !accepted {
            return Err(Error::Profile("authored entry failed the acceptance predicate"));
        }
        let w: SegmentWrite = SegmentWrite {
            kind: SegmentKind::LogDb,
            id: self.next_log_id,
            bytes: vstd::slice::slice_to_vec(entry.wire.as_slice()),
        };
        proof {
            lemma_still_gated(self.timeline@, self.log@, seq![entry]);
            assert(self.log@.push(entry) =~= self.log@ + seq![entry]);
        }
        self.log.push(entry);
        Ok(w)
    }

    /// Counts a stored log segment, once it was written. A write that failed poisons the
    /// channel.
    pub fn entry_stored(&mut self, written: Result<(), Error>) -> (r: Result<(), Error>)
        requires
            old(self).wf(),
        ensures
            final(self).wf(),
            match written {
                Ok(_) => r is Ok && *final(self) == (ChannelState {
                    next_log_id: lists::succ(old(self).next_log_id),
                    ..*old(self)
                }),
                Err(e) => r == Err::<(), Error>(e) && *final(self) == (ChannelState {
                    poisoned: true,
                    ..*old(self)
                }),
            },
    {
        self.persisted(written)?;
        self.next_log_id = next_number(self.next_log_id);
        Ok(())
    }

    /// Folds a stored governance entry in. `evaluated` says whether the evaluator could
    /// be rebuilt over the entries as they now stand.
    pub fn fold_governance(&mut self, entry_hash: Digest32, evaluated: Result<(), Error>) -> (r: Result<
        (),
        Error,
    >)
        requires
            old(self).wf(),
        ensures
            final(self).wf(),
            *final(self) == (ChannelState { gov_entries: final(self).gov_entries, ..*old(self) }),
            final(self).gov_entries@ == old(self).gov_entries@.push(entry_hash),
            r == evaluated,
    {
        self.gov_entries.push(entry_hash);
        evaluated
    }
}

/// Why a governance entry of one's own is not appended, or `None` where it is.
pub open spec fn governance_fault(
    ch: ChannelState,
    signer: Result<Digest32, Error>,
    entry: Result<LogEntry, Error>,
    fact: Result<(), Error>,
    accepted: bool,
) -> Option<Error> {
    state::or_fault(
        author_fault(ch, signer),
        state::or_fault(
            state::fault_in(entry),
            state::or_fault(state::fault_in(fact), state::unless(accepted, authored_refused())),
        ),
    )
}

// ---- accepting ---------------------------------------------------------------

/// What became of a peer's entry.
#[derive(Debug, Clone, Copy, PartialEq, Eq, Structural)]
pub enum Accepted {
    /// A governance entry: verified, stored and folded into the evaluator.
    Governance,
    /// A content entry: verified and stored, but not readable here.
    ContentNotReadable,
    /// A content entry that was decrypted and rendered into the timeline.
    Rendered,
}

/// Why a peer's entry is not accepted, or `None` where it is.
pub open spec fn entry_fault(
    ch: ChannelState,
    entry: LogEntry,
    framed: bool,
    fact: Result<(), Error>,
    accepted: bool,
) -> Option<Error> {
    let kind = segments::payload_kind(entry.payload->Some_0@, framed);
    state::or_fault(
        state::unless(!ch.poisoned, ops::poisoned_error()),
        state::or_fault(
            state::unless(
                entry.channel_id == ch.channel_id,
                Error::MalformedGovernance("entry binds another channel"),
            ),
            state::or_fault(
                state::unless(
                    entry.epoch == ch.epoch,
                    Error::MalformedGovernance("entry binds another epoch"),
                ),
                state::or_fault(
                    state::unless(
                        ch.authors.has(entry.author_id@),
                        Error::MalformedGovernance("entry from an unadmitted author"),
                    ),
                    state::or_fault(
                        state::unless(
                            entry.payload is Some,
                            Error::MalformedGovernance("entry payload pruned"),
                        ),
                        state::or_fault(
                            state::unless(kind is Some, unclassified()),
                            state::or_fault(
                                if kind == Some(EntryKind::Governance) {
                                    state::fault_in(fact)
                                } else {
                                    None
                                },
                                state::unless(
                                    accepted,
                                    Error::MalformedGovernance(
                                        "entry failed the acceptance predicate",
                                    ),
                                ),
                            ),
                        ),
                    ),
                ),
            ),
        ),
    )
}

/// The error for a payload that is neither content nor governance.
pub open spec fn unclassified() -> Error {
    segments::at_rest("entry payload is neither a group message nor a governance struct")
}

impl ChannelState {
    /// Takes an entry authored by another member into the log. The author must already
    /// be admitted, and the payload decides the kind. `framed` says whether the payload
    /// is a struct-tagged frame, `fact` whether it is a governance fact of this channel
    /// under the author's key, `accepted` whether the log's acceptance predicate holds.
    ///
    /// The result is the kind and the write. Once that is through, a governance entry
    /// is folded in, and a content entry is rendered if it can be.
    pub fn accept_entry(
        &mut self,
        entry: LogEntry,
        framed: bool,
        fact: Result<(), Error>,
        accepted: bool,
    ) -> (r: Result<(EntryKind, SegmentWrite), Error>)
        requires
            old(self).wf(),
        ensures
            final(self).wf(),
            match r {
                Ok((kind, w)) => {
                    &&& entry_fault(*old(self), entry, framed, fact, accepted) is None
                    &&& segments::payload_kind(entry.payload->Some_0@, framed) == Some(kind)
                    &&& *final(self) == (ChannelState { log: final(self).log, ..*old(self) })
                    &&& final(self).log@ == old(self).log@.push(entry)
                    &&& writes_entry(w, old(self).next_log_id, entry.wire@)
                },
                Err(e) => {
                    &&& entry_fault(*old(self), entry, framed, fact, accepted) == Some(e)
                    &&& *final(self) == *old(self)
                },
            },
    {
        self.sound()?;
        if !same_digest(&entry.channel_id, &self.channel_id) {
            return Err(Error::MalformedGovernance("entry binds another channel"));
        }
        if entry.epoch != self.epoch {
            return Err(Error::MalformedGovernance("entry binds another epoch"));
        }
        if !self.authors.contains_key(&entry.author_id) {
            return Err(Error::MalformedGovernance("entry from an unadmitted author"));
        }
        let kind: EntryKind = match &entry.payload {
            Some(payload) => classify_payload(payload.as_slice(), framed)?,
            None => {
                return Err(Error::MalformedGovernance("entry payload pruned"));
            },
        };
        match kind {
            EntryKind::Governance => {
                fact?;
            },
            EntryKind::Content => {},
        }
        if !accepted {
            return Err(Error::MalformedGovernance("entry failed the acceptance predicate"));
        }
        let w: SegmentWrite = SegmentWrite {
            kind: SegmentKind::LogDb,
            id: self.next_log_id,
            bytes: vstd::slice::slice_to_vec(entry.wire.as_slice()),
        };
        proof {
            lemma_still_gated(self.timeline@, self.log@, seq![entry]);
            assert(self.log@.push(entry) =~= self.log@ + seq![entry]);
        }
        self.log.push(entry);
        Ok((kind, w))
    }
}

/// What became of an accepted entry, by its kind and by whether it was rendered.
pub fn accepted_as(kind: EntryKind, rendered: bool) -> (r: Accepted)
    ensures
        r == (match kind {
            EntryKind::Governance => Accepted::Governance,
            EntryKind::Content => if rendered {
                Accepted::Rendered
            } else {
                Accepted::ContentNotReadable
            },
        }),
{
    match kind {
        EntryKind::Governance => Accepted::Governance,
        EntryKind::Content => if rendered {
            Accepted::Rendered
        } else {
            Accepted::ContentNotReadable
        },
    }
}

// ---- rendering ---------------------------------------------------------------

/// A content payload, opened: the plaintext, and the chain as it stands after it.
#[derive(Debug, PartialEq, Eq)]
pub struct OpenedPayload {
    /// What was encrypted.
    pub plaintext: Vec<u8>,
    /// The receiver chain, advanced.
    pub chain: ReceiverChain,
}

/// The chain that opens a content payload, if it may be opened at all. Both gates
/// apply: the author has consented to this identity, and released a sender key for the
/// message's generation.
pub open spec fn readable(
    ch: ChannelState,
    author: Digest32,
    consented: bool,
    generation: Option<u64>,
) -> Option<ChainSlot> {
    if author != ch.sender.author_id && !consented {
        None
    } else {
        match generation {
            None => None,
            Some(chain_id) => {
                let slot = ChainSlot { author, chain_id };
                if ch.receivers.has(slot.key_bytes()) {
                    Some(slot)
                } else {
                    None
                }
            },
        }
    }
}

impl ChannelState {
    /// Which chain opens a content payload of `author`'s, if it may be opened here.
    /// `consented` says whether the log has the author consent to this identity,
    /// `generation` which generation the message names, where it is one.
    pub fn render_gate(&self, author: &Digest32, consented: bool, generation: Option<u64>) -> (r: Option<
        ChainSlot,
    >)
        requires
            self.wf(),
        ensures
            r == readable(*self, *author, consented, generation),
    {
        if !same_digest(author, &self.sender.author_id) && !consented {
            return None;
        }
        match generation {
            None => None,
            Some(chain_id) => {
                let slot: ChainSlot = ChainSlot { author: *author, chain_id };
                if self.receivers.contains_key(&slot) {
                    Some(slot)
                } else {
                    None
                }
            },
        }
    }

    /// Renders an opened content payload. A payload that did not open, or whose content
    /// is not an envelope, is one message that is not shown: it is skipped, and the
    /// entries after it still render. Otherwise the result is the row and the one batch
    /// that it and the advanced chains are written in; it is shown with
    /// [`ChannelState::show`] once they are.
    pub fn render_content(
        &mut self,
        slot: ChainSlot,
        entry_hash: Digest32,
        opened: Result<OpenedPayload, Error>,
    ) -> (r: Option<(Rendered, Vec<SegmentWrite>)>)
        requires
            old(self).wf(),
            old(self).receivers.has(slot.key_bytes()),
            opened matches Ok(o) ==> o.chain.slot() == slot,
        ensures
            final(self).wf(),
            match opened {
                Err(_) => r is None && *final(self) == *old(self),
                Ok(o) => {
                    &&& *final(self) == (ChannelState {
                        receivers: final(self).receivers,
                        ..*old(self)
                    })
                    &&& final(self).receivers.map() == old(self).receivers.map().insert(
                        slot.key_bytes(),
                        o.chain,
                    )
                    &&& match r {
                        None => content::envelope_fault(o.plaintext@) is Some,
                        Some((row, writes)) => {
                            &&& content::envelope_fault(o.plaintext@) is None
                            &&& content::envelope_read(
                                Content { created_millis: row.created_millis, text: row.text },
                                cbor::toks_of(o.plaintext@),
                            )
                            &&& row.entry_hash == entry_hash
                            &&& row.author == slot.author
                            &&& state::writes_view(writes@) == seq![
                                (
                                    SegmentKind::PlaintextCache,
                                    old(self).next_log_id,
                                    cbor::enc(row.toks()),
                                ),
                                (
                                    SegmentKind::KeyMaterial,
                                    SEG_RECEIVERS,
                                    ops::receivers_segment(final(self).receivers),
                                ),
                            ]
                        },
                    }
                },
            },
    {
        let o: OpenedPayload = match opened {
            Ok(o) => o,
            Err(_) => {
                return None;
            },
        };
        self.receivers.insert(slot, o.chain);
        let content: Content = match Content::from_canonical_slice(o.plaintext.as_slice()) {
            Ok(c) => c,
            Err(_) => {
                return None;
            },
        };
        let row: Rendered = Rendered {
            entry_hash,
            author: slot.author,
            created_millis: content.created_millis,
            text: content.text,
        };
        let id: u64 = self.next_log_id;
        let mut writes: Vec<SegmentWrite> = Vec::new();
        writes.push(
            SegmentWrite { kind: SegmentKind::PlaintextCache, id, bytes: cache_bytes(&row) },
        );
        writes.push(ops::key_material(SEG_RECEIVERS, receivers_bytes(&self.receivers)));
        assert(state::writes_view(writes@) =~= seq![
            (SegmentKind::PlaintextCache, id, cbor::enc(row.toks())),
            (SegmentKind::KeyMaterial, SEG_RECEIVERS, ops::receivers_segment(self.receivers)),
        ]);
        Some((row, writes))
    }
}

// ---- sender keys from others -------------------------------------------------

/// Why a released sender key is not taken up, or `None` where it is, or is held already.
pub open spec fn skdm_fault(
    ch: ChannelState,
    author: Digest32,
    chain: Result<ReceiverChain, Error>,
) -> Option<Error> {
    state::or_fault(
        state::unless(!ch.poisoned, ops::poisoned_error()),
        state::or_fault(
            state::unless(
                ch.authors.has(author@),
                Error::MalformedGovernance("SKDM from an unadmitted author"),
            ),
            state::or_fault(
                state::fault_in(chain),
                state::unless(
                    ch.receivers.has(slot_of(author, chain->Ok_0).key_bytes())
                        || ch.receivers.rows().len() < MAX_RECEIVER_CHAINS,
                    Error::SizeLimitExceeded("channel receiver chains"),
                ),
            ),
        ),
    )
}

/// Where a chain that `author` released is kept.
pub open spec fn slot_of(author: Digest32, chain: ReceiverChain) -> ChainSlot {
    ChainSlot { author, chain_id: chain.chain_id }
}

impl ChannelState {
    /// Takes up a sender key that `author` released to this identity. `chain` is what
    /// the release opens to under the author's admitted key, for this channel and this
    /// epoch: a chain of that author's. `None` where the generation is held already: a
    /// second release would rewind the chain and make used-up keys usable again, so the live
    /// one is kept.
    pub fn accept_skdm(&mut self, author: &Digest32, chain: Result<ReceiverChain, Error>) -> (r: Result<
        Option<SegmentWrite>,
        Error,
    >)
        requires
            old(self).wf(),
            chain matches Ok(c) ==> c.author_id == *author,
        ensures
            final(self).wf(),
            match r {
                Ok(w) => {
                    let slot = slot_of(*author, chain->Ok_0);
                    &&& skdm_fault(*old(self), *author, chain) is None
                    &&& match w {
                        None => old(self).receivers.has(slot.key_bytes()) && *final(self)
                            == *old(self),
                        Some(w) => {
                            &&& !old(self).receivers.has(slot.key_bytes())
                            &&& *final(self) == (ChannelState {
                                receivers: final(self).receivers,
                                ..*old(self)
                            })
                            &&& final(self).receivers.map() == old(self).receivers.map().insert(
                                slot.key_bytes(),
                                chain->Ok_0,
                            )
                            &&& ops::writes_key_material(
                                w,
                                SEG_RECEIVERS,
                                ops::receivers_segment(final(self).receivers),
                            )
                        },
                    }
                },
                Err(e) => skdm_fault(*old(self), *author, chain) == Some(e) && *final(self)
                    == *old(self),
            },
    {
        self.sound()?;
        if !self.authors.contains_key(author) {
            return Err(Error::MalformedGovernance("SKDM from an unadmitted author"));
        }
        let chain: ReceiverChain = chain?;
        let slot: ChainSlot = ChainSlot { author: *author, chain_id: chain.chain_id };
        if self.receivers.contains_key(&slot) {
            return Ok(None);
        }
        if self.receivers.len() >= MAX_RECEIVER_CHAINS {
            return Err(Error::SizeLimitExceeded("channel receiver chains"));
        }
        self.receivers.insert(slot, chain);
        Ok(Some(ops::key_material(SEG_RECEIVERS, receivers_bytes(&self.receivers))))
    }

    /// Whether this node holds a sender key for `author`.
    #[must_use]
    pub fn has_sender_key(&self, author: &Digest32) -> (r: bool)
        ensures
            r == (exists|i: int|
                0 <= i < self.receivers.rows().len() && (#[trigger] self.receivers.rows()[i]).0.author
                    == *author),
    {
        let mut i: usize = 0;
        while i < self.receivers.len()
            invariant
                i <= self.receivers.rows().len(),
                forall|j: int|
                    0 <= j < i ==> (#[trigger] self.receivers.rows()[j]).0.author != *author,
            decreases self.receivers.rows().len() - i,
        {
            if same_digest(&self.receivers.row(i).0.author, author) {
                assert(self.receivers.rows()[i as int].0.author == *author);
                return true;
            }
            i = i + 1;
        }
        false
    }
}

// ---- what arrived ------------------------------------------------------------

/// An entry of a feed.
#[derive(Debug, PartialEq, Eq)]
pub struct Arrived {
    /// Its author.
    pub author: Digest32,
    /// Its hash.
    pub entry_hash: Digest32,
    /// Its payload, or `None` where that was pruned.
    pub payload: Option<Vec<u8>>,
}

/// A payload by content.
pub open spec fn payload_view(p: Option<Vec<u8>>) -> Option<Seq<u8>> {
    match p {
        Some(p) => Some(p@),
        None => None,
    }
}

impl Arrived {
    /// The entry by content.
    pub open spec fn view(&self) -> (Digest32, Digest32, Option<Seq<u8>>) {
        (self.author, self.entry_hash, payload_view(self.payload))
    }
}

/// Entries by content.
pub open spec fn arrived_view(v: Seq<Arrived>) -> Seq<(Digest32, Digest32, Option<Seq<u8>>)> {
    Seq::new(v.len(), |i: int| v[i]@)
}

/// The entry at one place of a feed, where there is one.
pub open spec fn arrived_at(log: Seq<LogEntry>, author: Digest32, seq: u64) -> Seq<
    (Digest32, Digest32, Option<Seq<u8>>),
> {
    match feed_at(log, author, seq) {
        Some(i) => seq![(author, log[i].entry_hash, payload_view(log[i].payload))],
        None => Seq::empty(),
    }
}

fn copy_payload(p: &Option<Vec<u8>>) -> (r: Option<Vec<u8>>)
    ensures
        payload_view(r) == payload_view(*p),
{
    match p {
        Some(b) => Some(vstd::slice::slice_to_vec(b.as_slice())),
        None => None,
    }
}

/// The entries of a feed past place `from` and up to place `to`, in order.
pub open spec fn arrived_in(log: Seq<LogEntry>, author: Digest32, from: u64, to: u64) -> Seq<
    (Digest32, Digest32, Option<Seq<u8>>),
>
    decreases to,
{
    if to <= from {
        Seq::empty()
    } else {
        arrived_in(log, author, from, (to - 1) as u64) + arrived_at(log, author, to)
    }
}

/// The entries past the given heads, author by author, each feed in order.
pub open spec fn arrivals(log: Seq<LogEntry>, heads: Seq<(Digest32, u64)>) -> Seq<
    (Digest32, Digest32, Option<Seq<u8>>),
>
    decreases heads.len(),
{
    if heads.len() == 0 {
        Seq::empty()
    } else {
        let (author, head) = heads.last();
        arrivals(log, heads.drop_last()) + arrived_in(log, author, head, max_seq(log, author))
    }
}

fn gather(log: &Vec<LogEntry>, author: &Digest32, from: u64, to: u64, out: &mut Vec<Arrived>)
    ensures
        arrived_view(final(out)@) == arrived_view(old(out)@) + arrived_in(
            log@,
            *author,
            from,
            to,
        ),
{
    let ghost before = arrived_view(out@);
    if to <= from {
        assert(arrived_in(log@, *author, from, to) =~= Seq::empty());
        assert(before + arrived_in(log@, *author, from, to) =~= before);
        return;
    }
    let mut seq: u64 = from;
    assert(before + arrived_in(log@, *author, from, from) =~= before);
    while seq < to
        invariant
            from <= seq <= to,
            arrived_view(out@) == before + arrived_in(log@, *author, from, seq),
        decreases to - seq,
    {
        seq = seq + 1;
        let ghost sofar = out@;
        proof {
            lemma_feed_at(log@, *author, seq);
        }
        match feed_find(log, author, seq) {
            Some(i) => {
                out.push(
                    Arrived {
                        author: *author,
                        entry_hash: log[i].entry_hash,
                        payload: copy_payload(&log[i].payload),
                    },
                );
            },
            None => {},
        }
        assert(arrived_view(out@) =~= arrived_view(sofar) + arrived_at(log@, *author, seq));
        assert(arrived_view(out@) =~= before + arrived_in(log@, *author, from, seq));
    }
}

impl ChannelState {
    /// How far each admitted author's feed reaches, in fingerprint order. A sync session
    /// begins with this; a poisoned channel does not sync.
    pub fn begin_sync(&self) -> (r: Result<Vec<(Digest32, u64)>, Error>)
        ensures
            match r {
                Ok(heads) => {
                    &&& !self.poisoned
                    &&& heads@ == heads_of(*self)
                },
                Err(e) => self.poisoned && e == ops::poisoned_error(),
            },
    {
        self.sound()?;
        let mut out: Vec<(Digest32, u64)> = Vec::new();
        let mut i: usize = 0;
        while i < self.authors.len()
            invariant
                i <= self.authors.rows().len(),
                out@ == heads_of(*self).take(i as int),
            decreases self.authors.rows().len() - i,
        {
            let a: Digest32 = self.authors.row(i).0;
            out.push((a, feed_head(&self.log, &a)));
            assert(out@ =~= heads_of(*self).take(i + 1));
            i = i + 1;
        }
        assert(heads_of(*self).take(i as int) =~= heads_of(*self));
        Ok(out)
    }

    /// Takes up the entries that a sync session applied to the log, in the order in
    /// which it applied them. A session fails at the first entry by anybody whom the
    /// resolver does not know, so all of them are by admitted authors.
    pub fn apply_session(&mut self, entries: Vec<LogEntry>)
        requires
            old(self).wf(),
            state::by_authors(entries@, old(self).authors.map()),
        ensures
            final(self).wf(),
            *final(self) == (ChannelState { log: final(self).log, ..*old(self) }),
            final(self).log@ == old(self).log@ + entries@,
    {
        let mut entries: Vec<LogEntry> = entries;
        proof {
            lemma_still_gated(self.timeline@, self.log@, entries@);
            assert(state::by_authors(self.log@ + entries@, self.authors.map()));
        }
        self.log.append(&mut entries);
    }

    /// The entries that appeared past the given heads, author by author, each feed in
    /// order. One whose payload was pruned is among them: it is stored like any other.
    pub fn arrived_since(&self, heads: &Vec<(Digest32, u64)>) -> (out: Vec<Arrived>)
        ensures
            arrived_view(out@) == arrivals(self.log@, heads@),
    {
        let mut out: Vec<Arrived> = Vec::new();
        let mut i: usize = 0;
        assert(heads@.take(0) =~= Seq::empty());
        assert(arrived_view(out@) =~= Seq::empty());
        while i < heads.len()
            invariant
                i <= heads@.len(),
                arrived_view(out@) == arrivals(self.log@, heads@.take(i as int)),
            decreases heads@.len() - i,
        {
            let (author, head) = heads[i];
            proof {
                assert(heads@.take(i + 1).drop_last() =~= heads@.take(i as int));
                assert(heads@.take(i + 1).last() == heads@[i as int]);
            }
            let to: u64 = feed_head(&self.log, &author);
            gather(&self.log, &author, head, to, &mut out);
            i = i + 1;
        }
        assert(heads@.take(i as int) =~= heads@);
        out
    }

    /// The stored content entries of `author`'s that are not shown yet, oldest first:
    /// what is tried again when a sender key of theirs arrives.
    pub fn pending(&self, author: &Digest32) -> (out: Vec<Arrived>)
        ensures
            arrived_view(out@) == lists::pick(
                arrived_in(self.log@, *author, 0, max_seq(self.log@, *author)),
                unshown_content(self.timeline@),
            ),
    {
        let ghost p = unshown_content(self.timeline@);
        let to: u64 = feed_head(&self.log, author);
        let mut all: Vec<Arrived> = Vec::new();
        assert(arrived_view(all@) =~= Seq::empty());
        gather(&self.log, author, 0, to, &mut all);
        let ghost listed = arrived_view(all@);
        assert(listed =~= arrived_in(self.log@, *author, 0, to));
        let mut out: Vec<Arrived> = Vec::new();
        let mut i: usize = 0;
        assert(listed.take(0) =~= Seq::empty());
        assert(arrived_view(out@) =~= Seq::empty());
        while i < all.len()
            invariant
                i <= all@.len(),
                listed == arrived_view(all@),
                p == unshown_content(self.timeline@),
                arrived_view(out@) == lists::pick(listed.take(i as int), p),
            decreases all@.len() - i,
        {
            proof {
                assert(listed.take(i + 1).drop_last() =~= listed.take(i as int));
                assert(listed.take(i + 1).last() == all@[i as int]@);
            }
            let a: &Arrived = &all[i];
            let ghost sofar = out@;
            let content: bool = match &a.payload {
                Some(p) => match classify_payload(p.as_slice(), false) {
                    Ok(_) => true,
                    Err(_) => false,
                },
                None => false,
            };
            if content && !self.shown(&a.entry_hash) {
                out.push(
                    Arrived {
                        author: a.author,
                        entry_hash: a.entry_hash,
                        payload: copy_payload(&a.payload),
                    },
                );
                assert(arrived_view(out@) =~= arrived_view(sofar).push(all@[i as int]@));
            }
            i = i + 1;
        }
        assert(listed.take(i as int) =~= listed);
        out
    }

    fn shown(&self, entry_hash: &Digest32) -> (r: bool)
        ensures
            r == is_shown(self.timeline@, *entry_hash),
    {
        let mut i: usize = 0;
        while i < self.timeline.len()
            invariant
                i <= self.timeline@.len(),
                forall|j: int|
                    0 <= j < i ==> (#[trigger] self.timeline@[j]).entry_hash != *entry_hash,
            decreases self.timeline@.len() - i,
        {
            if same_digest(&self.timeline[i].entry_hash, entry_hash) {
                assert(self.timeline@[i as int].entry_hash == *entry_hash);
                return true;
            }
            i = i + 1;
        }
        false
    }
}

/// How far each admitted author's feed reaches.
pub open spec fn heads_of(ch: ChannelState) -> Seq<(Digest32, u64)> {
    Seq::new(
        ch.authors.rows().len(),
        |i: int| (ch.authors.rows()[i].0, max_seq(ch.log@, ch.authors.rows()[i].0)),
    )
}

/// Whether an entry is shown.
pub open spec fn is_shown(timeline: Seq<Rendered>, entry_hash: Digest32) -> bool {
    exists|i: int| 0 <= i < timeline.len() && (#[trigger] timeline[i]).entry_hash == entry_hash
}

/// The content entries that are not shown.
pub open spec fn unshown_content(timeline: Seq<Rendered>) -> spec_fn(
    (Digest32, Digest32, Option<Seq<u8>>),
) -> bool {
    |a: (Digest32, Digest32, Option<Seq<u8>>)|
        a.2 is Some && segments::is_group_message(a.2->Some_0) && !is_shown(timeline, a.1)
}

} // verus!
