//! What a sync session leaves to be done: every entry that it brought is stored, folded
//! in or rendered, even where the session itself failed.

use vstd::prelude::*;

use crate::channel::log::{self, Arrived};
use crate::channel::ops;
use crate::channel::segments::{self, classify_payload, EntryKind};
use crate::channel::state::{self, ChannelState, LogEntry, SegmentKind, SegmentWrite};
use crate::error::Error;
use crate::hash::{same_digest, Digest32};
use crate::identity::CompositePublicKey;
use crate::lists;
use crate::table::{self, Table};

verus! {

/// Why a peer, or this node, gave a sync session up.
#[derive(Debug, Clone, Copy, PartialEq, Eq, Structural)]
pub enum WireError {
    /// The protocol version is not supported.
    ProtocolVersionUnsupported,
    /// The suite is below the channel's floor.
    SuiteBelowFloor,
    /// A struct tag is not known.
    UnknownStructTag,
    /// An algorithm is not known.
    UnknownAlgoId,
    /// An authenticator does not verify.
    AuthenticatorInvalid,
    /// A quota was used up.
    QuotaExceeded,
    /// The sync mode is not supported.
    SyncModeUnsupported,
    /// The epochs differ.
    EpochMismatch,
    /// The transport failed.
    TransportFailed,
}

/// What a failed session is reported as.
pub open spec fn failure_of(code: WireError) -> Error {
    Error::MalformedGovernance(
        match code {
            WireError::ProtocolVersionUnsupported => "sync failed: protocol version",
            WireError::SuiteBelowFloor => "sync failed: suite below floor",
            WireError::UnknownStructTag => "sync failed: unknown struct tag",
            WireError::UnknownAlgoId => "sync failed: unknown algo id",
            WireError::AuthenticatorInvalid => "sync failed: authenticator invalid",
            WireError::QuotaExceeded => "sync failed: quota exceeded",
            WireError::SyncModeUnsupported => "sync failed: sync mode unsupported",
            WireError::EpochMismatch => "sync failed: epoch mismatch",
            WireError::TransportFailed => "sync failed: transport",
        },
    )
}

/// Maps a coded sync failure onto the error taxonomy, keeping the reason.
pub fn sync_failure(code: WireError) -> (e: Error)
    ensures
        e == failure_of(code),
{
    Error::MalformedGovernance(
        match code {
            WireError::ProtocolVersionUnsupported => "sync failed: protocol version",
            WireError::SuiteBelowFloor => "sync failed: suite below floor",
            WireError::UnknownStructTag => "sync failed: unknown struct tag",
            WireError::UnknownAlgoId => "sync failed: unknown algo id",
            WireError::AuthenticatorInvalid => "sync failed: authenticator invalid",
            WireError::QuotaExceeded => "sync failed: quota exceeded",
            WireError::SyncModeUnsupported => "sync failed: sync mode unsupported",
            WireError::EpochMismatch => "sync failed: epoch mismatch",
            WireError::TransportFailed => "sync failed: transport",
        },
    )
}

/// What one session did.
#[derive(Debug, Clone, Copy, PartialEq, Eq)]
pub struct SyncOutcome {
    /// Entries the session applied to the log.
    pub applied: usize,
    /// How many of those were governance entries folded into the evaluator.
    pub governance: usize,
    /// How many of those were decrypted and rendered into the timeline.
    pub rendered: usize,
}

/// The reconciliation after a session: the entries that arrived, and how far it is.
#[derive(Debug)]
pub struct SyncPass {
    /// What arrived.
    pub arrived: Vec<Arrived>,
    /// The next one.
    pub at: usize,
    /// What was done so far.
    pub out: SyncOutcome,
    /// Why the session failed, where it did.
    pub failure: Option<WireError>,
}

/// Where in a log the entry with a hash stands.
pub open spec fn by_hash(log: Seq<LogEntry>, h: Digest32) -> Option<int>
    decreases log.len(),
{
    if log.len() == 0 {
        None
    } else {
        match by_hash(log.drop_last(), h) {
            Some(i) => Some(i),
            None => if log.last().entry_hash == h {
                Some(log.len() - 1)
            } else {
                None
            },
        }
    }
}

pub(crate) fn find_hash(log: &Vec<LogEntry>, h: &Digest32) -> (r: Option<usize>)
    ensures
        match r {
            Some(i) => i < log@.len() && by_hash(log@, *h) == Some(i as int),
            None => by_hash(log@, *h) is None,
        },
{
    let mut i: usize = 0;
    assert(log@.take(0) =~= Seq::empty());
    while i < log.len()
        invariant
            i <= log@.len(),
            by_hash(log@.take(i as int), *h) is None,
        decreases log@.len() - i,
    {
        proof {
            assert(log@.take(i + 1).drop_last() =~= log@.take(i as int));
            assert(log@.take(i + 1).last() == log@[i as int]);
        }
        if same_digest(&log[i].entry_hash, h) {
            proof {
                lemma_by_hash_stands(log@, i + 1, *h);
            }
            return Some(i);
        }
        i = i + 1;
    }
    assert(log@.take(i as int) =~= log@);
    None
}

proof fn lemma_by_hash_stands(log: Seq<LogEntry>, n: int, h: Digest32)
    requires
        0 <= n <= log.len(),
        by_hash(log.take(n), h) is Some,
    ensures
        by_hash(log, h) == by_hash(log.take(n), h),
    decreases log.len() - n,
{
    if n < log.len() {
        assert(log.take(n + 1).drop_last() =~= log.take(n));
        lemma_by_hash_stands(log, n + 1, h);
    } else {
        assert(log.take(n) =~= log);
    }
}

impl SyncPass {
    /// What a pass keeps.
    pub open spec fn wf(&self) -> bool {
        &&& self.at <= self.arrived@.len()
        &&& self.out.governance + self.out.rendered <= self.at
    }

    /// Begins to reconcile what appeared past `heads`. A session that failed counts what
    /// arrived; it is reported only when everything that arrived is done.
    pub fn start(ch: &ChannelState, heads: &Vec<(Digest32, u64)>, session: Result<usize, WireError>) -> (p:
        SyncPass)
        ensures
            p.wf(),
            p.at == 0,
            log::arrived_view(p.arrived@) == log::arrivals(ch.log@, heads@),
            p.out.applied == (match session {
                Ok(n) => n as nat,
                Err(_) => p.arrived@.len(),
            }),
            p.out.governance == 0,
            p.out.rendered == 0,
            p.failure == (match session {
                Ok(_) => None,
                Err(code) => Some(code),
            }),
    {
        let arrived: Vec<Arrived> = ch.arrived_since(heads);
        let (applied, failure): (usize, Option<WireError>) = match session {
            Ok(n) => (n, None),
            Err(code) => (arrived.len(), Some(code)),
        };
        SyncPass {
            arrived,
            at: 0,
            out: SyncOutcome { applied, governance: 0, rendered: 0 },
            failure,
        }
    }

    /// The write of the next entry that arrived; `None` when all are done.
    pub fn next_write(&self, ch: &ChannelState) -> (r: Result<Option<SegmentWrite>, Error>)
        requires
            self.wf(),
            ch.wf(),
        ensures
            match r {
                Ok(None) => self.at == self.arrived@.len(),
                Ok(Some(w)) => {
                    &&& self.at < self.arrived@.len()
                    &&& store_fault(*ch, self.arrived@[self.at as int]) is None
                    &&& log::writes_entry(
                        w,
                        ch.next_log_id,
                        ch.log@[by_hash(
                            ch.log@,
                            self.arrived@[self.at as int].entry_hash,
                        )->Some_0].wire@,
                    )
                },
                Err(e) => {
                    &&& self.at < self.arrived@.len()
                    &&& store_fault(*ch, self.arrived@[self.at as int]) == Some(e)
                },
            },
    {
        if self.at == self.arrived.len() {
            return Ok(None);
        }
        let a: &Arrived = &self.arrived[self.at];
        if !ch.authors.contains_key(&a.author) {
            return Err(Error::MalformedGovernance("synced entry from an unadmitted author"));
        }
        match find_hash(&ch.log, &a.entry_hash) {
            Some(i) => Ok(
                Some(
                    SegmentWrite {
                        kind: SegmentKind::LogDb,
                        id: ch.next_log_id,
                        bytes: vstd::slice::slice_to_vec(ch.log[i].wire.as_slice()),
                    },
                ),
            ),
            None => Err(Error::MalformedGovernance("synced entry vanished")),
        }
    }

    /// What the next entry that arrived is. A pruned one is content: governance entries
    /// keep their payload.
    pub fn kind(&self, framed: bool) -> (r: Result<EntryKind, Error>)
        requires
            self.wf(),
            self.at < self.arrived@.len(),
        ensures
            match r {
                Ok(k) => arrived_kind(self.arrived@[self.at as int]@, framed) == Some(k),
                Err(e) => arrived_kind(self.arrived@[self.at as int]@, framed) is None && e
                    == log::unclassified(),
            },
    {
        match &self.arrived[self.at].payload {
            Some(p) => classify_payload(p.as_slice(), framed),
            None => Ok(EntryKind::Content),
        }
    }

    /// Counts the next entry as done: folded in, or rendered, or left as it was stored.
    pub fn done(&mut self, kind: EntryKind, rendered: bool)
        requires
            old(self).wf(),
            old(self).at < old(self).arrived@.len(),
        ensures
            final(self).wf(),
            *final(self) == (SyncPass {
                at: (old(self).at + 1) as usize,
                out: SyncOutcome {
                    applied: old(self).out.applied,
                    governance: if kind == EntryKind::Governance {
                        (old(self).out.governance + 1) as usize
                    } else {
                        old(self).out.governance
                    },
                    rendered: if kind == EntryKind::Content && rendered {
                        (old(self).out.rendered + 1) as usize
                    } else {
                        old(self).out.rendered
                    },
                },
                ..*old(self)
            }),
    {
        let total: usize = self.arrived.len();
        assert(self.at < total);
        match kind {
            EntryKind::Governance => {
                self.out.governance = self.out.governance + 1;
            },
            EntryKind::Content => {
                if rendered {
                    self.out.rendered = self.out.rendered + 1;
                }
            },
        }
        self.at = self.at + 1;
    }

    /// How it went, once everything that arrived is done: only now is a failed session
    /// reported.
    pub fn finish(&self) -> (r: Result<SyncOutcome, Error>)
        requires
            self.wf(),
            self.at == self.arrived@.len(),
        ensures
            match self.failure {
                None => r == Ok::<SyncOutcome, Error>(self.out),
                Some(code) => r == Err::<SyncOutcome, Error>(failure_of(code)),
            },
    {
        match self.failure {
            None => Ok(self.out),
            Some(code) => Err(sync_failure(code)),
        }
    }
}

/// What an entry that arrived is, or `None` where its payload is of neither kind. A
/// pruned one is content.
pub open spec fn arrived_kind(a: (Digest32, Digest32, Option<Seq<u8>>), framed: bool) -> Option<
    EntryKind,
> {
    match a.2 {
        Some(p) => segments::payload_kind(p, framed),
        None => Some(EntryKind::Content),
    }
}

/// Why an entry that arrived is not stored, or `None` where it is.
pub open spec fn store_fault(ch: ChannelState, a: Arrived) -> Option<Error> {
    state::or_fault(
        state::unless(
            ch.authors.has(a.author@),
            Error::MalformedGovernance("synced entry from an unadmitted author"),
        ),
        state::unless(
            by_hash(ch.log@, a.entry_hash) is Some,
            Error::MalformedGovernance("synced entry vanished"),
        ),
    )
}

// ---- the authors a session resolves ------------------------------------------

/// The admitted authors' keys, and what an entry is by its payload.
#[derive(Debug)]
pub struct ChannelAuthors {
    /// The keys.
    pub authors: Table<Digest32, CompositePublicKey>,
}

impl ChannelAuthors {
    /// A resolver over exactly these authors.
    #[must_use]
    pub fn new(authors: Table<Digest32, CompositePublicKey>) -> (r: ChannelAuthors)
        ensures
            r.authors == authors,
    {
        ChannelAuthors { authors }
    }

    /// The key admitted for a fingerprint.
    pub fn key_for(&self, author: &Digest32) -> (r: Option<CompositePublicKey>)
        requires
            self.authors.wf(),
        ensures
            match r {
                Some(k) => self.authors.has(author@) && k.is_same(
                    &self.authors.map()[author@],
                ),
                None => !self.authors.has(author@),
            },
    {
        match self.authors.get(author) {
            Some(k) => Some(k.clone()),
            None => None,
        }
    }

    /// What an entry is. A payload that is neither, or a pruned one, counts as content:
    /// governance entries keep their payload, so they are never the pruned case.
    pub fn kind_for(&self, payload: &Option<Vec<u8>>, framed: bool) -> (k: EntryKind)
        ensures
            k == (match *payload {
                None => EntryKind::Content,
                Some(p) => match segments::payload_kind(p@, framed) {
                    Some(k) => k,
                    None => EntryKind::Content,
                },
            }),
    {
        match payload {
            None => EntryKind::Content,
            Some(p) => match classify_payload(p.as_slice(), framed) {
                Ok(k) => k,
                Err(_) => EntryKind::Content,
            },
        }
    }
}

impl ChannelState {
    /// The resolver that a sync session needs.
    #[must_use]
    pub fn resolver(&self) -> (r: ChannelAuthors)
        requires
            self.wf(),
        ensures
            r.authors.wf(),
            r.authors.map().dom() == self.authors.map().dom(),
            forall|k: Seq<u8>| #[trigger]
                self.authors.map().contains_key(k) ==> r.authors.map()[k].is_same(
                    &self.authors.map()[k],
                ),
    {
        ChannelAuthors { authors: copy_authors(&self.authors) }
    }
}

fn copy_authors(authors: &Table<Digest32, CompositePublicKey>) -> (t: Table<
    Digest32,
    CompositePublicKey,
>)
    ensures
        t.wf(),
        t.map().dom() == authors.map().dom(),
        forall|k: Seq<u8>| #[trigger]
            authors.map().contains_key(k) ==> t.map()[k].is_same(&authors.map()[k]),
{
    let mut t: Table<Digest32, CompositePublicKey> = Table::new();
    let ghost rows = authors.rows();
    let mut i: usize = 0;
    assert(rows.take(0) =~= Seq::empty());
    while i < authors.len()
        invariant
            i <= rows.len(),
            rows == authors.rows(),
            t.wf(),
            t.map().dom() =~= table::map_of(rows.take(i as int)).dom(),
            forall|k: Seq<u8>| #[trigger]
                table::map_of(rows.take(i as int)).contains_key(k) ==> t.map()[k].is_same(
                    &table::map_of(rows.take(i as int))[k],
                ),
        decreases rows.len() - i,
    {
        let row: &(Digest32, CompositePublicKey) = authors.row(i);
        proof {
            assert(rows.take(i + 1).drop_last() =~= rows.take(i as int));
            assert(rows.take(i + 1).last() == *row);
        }
        t.insert(row.0, row.1.clone());
        i = i + 1;
    }
    assert(rows.take(i as int) =~= rows);
    t
}

// ---- joining -----------------------------------------------------------------

/// What a join binds: both ends derive it from the genesis, or do not agree on a key.
#[derive(Debug, Clone, Copy, PartialEq, Eq)]
pub struct JoinParams {
    /// The channel.
    pub channel_id: Digest32,
    /// The epoch.
    pub epoch: u64,
    /// The lowest suite that the channel's policy admits.
    pub floor: u64,
}

/// The join parameters of a channel with this genesis. `floor` is the suite floor of
/// its policy, where that can be read.
pub fn join_context_from_genesis(
    genesis: &state::Genesis,
    epoch: u64,
    floor: Result<u64, Error>,
) -> (r: Result<JoinParams, Error>)
    ensures
        match floor {
            Ok(floor) => r == Ok::<JoinParams, Error>(
                JoinParams { channel_id: genesis.channel_id, epoch, floor },
            ),
            Err(e) => r == Err::<JoinParams, Error>(e),
        },
{
    let floor: u64 = floor?;
    Ok(JoinParams { channel_id: genesis.channel_id, epoch, floor })
}

impl ChannelState {
    /// The join parameters of this channel.
    pub fn join_context(&self, floor: Result<u64, Error>) -> (r: Result<JoinParams, Error>)
        ensures
            match floor {
                Ok(floor) => r == Ok::<JoinParams, Error>(
                    JoinParams {
                        channel_id: self.genesis.channel_id,
                        epoch: self.epoch,
                        floor,
                    },
                ),
                Err(e) => r == Err::<JoinParams, Error>(e),
            },
    {
        join_context_from_genesis(&self.genesis, self.epoch, floor)
    }

    /// Whether this channel can answer a join: it holds its passphrase.
    #[must_use]
    pub fn can_answer_join(&self) -> (r: bool)
        ensures
            r == (self.passphrase@.len() > 0),
    {
        !self.passphrase.is_empty()
    }

    /// The retained passphrase, for answering a join.
    pub fn join_passphrase(&self) -> (r: Result<&[u8], Error>)
        ensures
            match r {
                Ok(b) => self.passphrase@.len() > 0 && b@ == self.passphrase@,
                Err(e) => self.passphrase@.len() == 0 && e == Error::AtRestLocked,
            },
    {
        if self.passphrase.is_empty() {
            return Err(Error::AtRestLocked);
        }
        Ok(self.passphrase.as_slice())
    }

    /// Wipes the retained passphrase: from here on no join is answered until the channel
    /// is opened again.
    pub fn lock_now(&mut self)
        requires
            old(self).wf(),
        ensures
            final(self).wf(),
            *final(self) == (ChannelState { passphrase: final(self).passphrase, ..*old(self) }),
            final(self).passphrase@.len() == 0,
    {
        self.passphrase.wipe();
    }
}

// ---- laws --------------------------------------------------------------------

proof fn lemma_no_news(log: Seq<LogEntry>, heads: Seq<(Digest32, u64)>)
    requires
        forall|i: int|
            0 <= i < heads.len() ==> (#[trigger] heads[i]).1 == log::max_seq(log, heads[i].0),
    ensures
        log::arrivals(log, heads).len() == 0,
    decreases heads.len(),
{
    if heads.len() > 0 {
        let front = heads.drop_last();
        assert forall|i: int| 0 <= i < front.len() implies (#[trigger] front[i]).1
            == log::max_seq(log, front[i].0) by {
            assert(front[i] == heads[i]);
        }
        lemma_no_news(log, front);
        assert(heads[heads.len() - 1].1 == log::max_seq(log, heads.last().0));
    }
}

/// A session that brings nothing leaves nothing to reconcile.
pub proof fn law_nothing_arrives_of_itself(ch: ChannelState)
    ensures
        log::arrivals(ch.log@, log::heads_of(ch)).len() == 0,
{
    lemma_no_news(ch.log@, log::heads_of(ch));
}

proof fn lemma_arrived_in(
    lg: Seq<LogEntry>,
    author: Digest32,
    from: u64,
    to: u64,
    a: (Digest32, Digest32, Option<Seq<u8>>),
)
    requires
        log::arrived_in(lg, author, from, to).contains(a),
    ensures
        exists|j: int| #[trigger] is_source(lg, j, a) && from < lg[j].seq && lg[j].author_id
            == author,
    decreases to,
{
    if to > from {
        let front = log::arrived_in(lg, author, from, (to - 1) as u64);
        let here = log::arrived_at(lg, author, to);
        let i = choose|i: int| 0 <= i < (front + here).len() && (front + here)[i] == a;
        if i < front.len() {
            assert(front[i] == a);
            assert(front.contains(a));
            lemma_arrived_in(lg, author, from, (to - 1) as u64, a);
        } else {
            assert(here[i - front.len()] == a);
            log::lemma_feed_at(lg, author, to);
            let j = log::feed_at(lg, author, to)->Some_0;
            assert(is_source(lg, j, a));
        }
    }
}

/// Whether `a` is the entry at place `j` of a log.
pub open spec fn is_source(lg: Seq<LogEntry>, j: int, a: (Digest32, Digest32, Option<Seq<u8>>)) -> bool {
    &&& 0 <= j < lg.len()
    &&& lg[j].author_id == a.0
    &&& lg[j].entry_hash == a.1
    &&& log::payload_view(lg[j].payload) == a.2
}

/// What arrived stands in the log, past the head of its author.
pub proof fn lemma_arrivals_come_from(
    lg: Seq<LogEntry>,
    heads: Seq<(Digest32, u64)>,
    a: (Digest32, Digest32, Option<Seq<u8>>),
)
    requires
        log::arrivals(lg, heads).contains(a),
    ensures
        exists|j: int, k: int|
            #![trigger is_source(lg, j, a), heads[k]]
            is_source(lg, j, a) && 0 <= k < heads.len() && heads[k].0 == lg[j].author_id
                && heads[k].1 < lg[j].seq,
    decreases heads.len(),
{
    if heads.len() > 0 {
        let front = heads.drop_last();
        let (author, head) = heads.last();
        let before = log::arrivals(lg, front);
        let here = log::arrived_in(lg, author, head, log::max_seq(lg, author));
        let i = choose|i: int| 0 <= i < (before + here).len() && (before + here)[i] == a;
        if i < before.len() {
            assert(before[i] == a);
            assert(before.contains(a));
            lemma_arrivals_come_from(lg, front, a);
            let (j, k) = choose|j: int, k: int|
                #![trigger is_source(lg, j, a), front[k]]
                is_source(lg, j, a) && 0 <= k < front.len() && front[k].0 == lg[j].author_id
                    && front[k].1 < lg[j].seq;
            assert(heads[k] == front[k]);
        } else {
            assert(here[i - before.len()] == a);
            assert(here.contains(a));
            lemma_arrived_in(lg, author, head, log::max_seq(lg, author), a);
            let j = choose|j: int| #[trigger]
                is_source(lg, j, a) && head < lg[j].seq && lg[j].author_id == author;
            let k = heads.len() - 1;
            assert(heads[k] == (author, head));
            assert(is_source(lg, j, a) && heads[k].0 == lg[j].author_id);
        }
    }
}

proof fn lemma_max_seq_bounds(lg: Seq<LogEntry>, j: int)
    requires
        0 <= j < lg.len(),
    ensures
        lg[j].seq <= log::max_seq(lg, lg[j].author_id),
    decreases lg.len(),
{
    if j < lg.len() - 1 {
        lemma_max_seq_bounds(lg.drop_last(), j);
        assert(lg.drop_last()[j] == lg[j]);
    }
}

/// What a pass reconciles is what its session brought: an entry that arrived stands in
/// the log past everything that stood there before, and its author is admitted.
pub proof fn law_arrivals_are_the_session(
    ch: ChannelState,
    brought: Seq<LogEntry>,
    a: (Digest32, Digest32, Option<Seq<u8>>),
)
    requires
        log::arrivals(ch.log@ + brought, log::heads_of(ch)).contains(a),
    ensures
        exists|j: int| #[trigger] is_source(brought, j, a),
        ops::ids_of(ch.authors.rows()).contains(a.0),
{
    let lg = ch.log@ + brought;
    let heads = log::heads_of(ch);
    lemma_arrivals_come_from(lg, heads, a);
    let (j, k) = choose|j: int, k: int|
        #![trigger is_source(lg, j, a), heads[k]]
        is_source(lg, j, a) && 0 <= k < heads.len() && heads[k].0 == lg[j].author_id && heads[k].1
            < lg[j].seq;
    if j < ch.log@.len() {
        assert(lg[j] == ch.log@[j]);
        lemma_max_seq_bounds(ch.log@, j);
        assert(heads[k].1 == log::max_seq(ch.log@, heads[k].0));
    }
    assert(is_source(brought, j - ch.log@.len(), a));
    assert(ops::ids_of(ch.authors.rows())[k] == a.0);
}

/// A poisoned channel takes nothing more: it authors nothing, appends nothing, accepts no
/// entry and no sender key, and does not rotate its own.
pub proof fn law_poisoned_takes_nothing(
    ch: ChannelState,
    signer: Result<Digest32, Error>,
    entry: LogEntry,
    framed: bool,
    fact: Result<(), Error>,
    accepted: bool,
    author: Digest32,
    chain: Result<segments::ReceiverChain, Error>,
    next: Result<state::SenderChain, Error>,
)
    requires
        ch.poisoned,
    ensures
        log::author_fault(ch, signer) == Some(ops::poisoned_error()),
        log::append_fault(ch, entry, accepted) == Some(ops::poisoned_error()),
        log::entry_fault(ch, entry, framed, fact, accepted) == Some(ops::poisoned_error()),
        log::skdm_fault(ch, author, chain) == Some(ops::poisoned_error()),
        ops::rotate_fault(ch, next) == Some(ops::poisoned_error()),
{
}

/// Consent, not possession of a key, grants reading, and a key is needed too: a message
/// is opened only where its author has consented, or is this identity itself, and a
/// sender key for its generation was released.
pub proof fn law_reading_needs_consent_and_key(
    ch: ChannelState,
    author: Digest32,
    consented: bool,
    generation: Option<u64>,
)
    ensures
        log::readable(ch, author, consented, generation) matches Some(slot) ==> {
            &&& author == ch.sender.author_id || consented
            &&& generation == Some(slot.chain_id)
            &&& slot.author == author
            &&& ch.receivers.map().contains_key(table::Key::key_bytes(&slot))
        },
{
}

/// A rotation makes every remaining reader owed a key: nobody holds a generation that
/// is new.
pub proof fn law_rotation_owes_every_reader(
    before: ChannelState,
    after: ChannelState,
    readers: Seq<Digest32>,
    reader: Digest32,
)
    requires
        after.delivered == before.delivered,
        after.sender.author_id == before.sender.author_id,
        forall|k: Seq<u8>| #[trigger]
            before.delivered.map().contains_key(k) ==> before.delivered.map()[k]
                < after.sender.chain_id,
        readers.contains(reader),
        reader != after.sender.author_id,
    ensures
        lists::pick(readers, ops::owes_rekey(after)).contains(reader),
{
    lists::lemma_pick_contains(readers, ops::owes_rekey(after), reader);
}

/// Whoever was delivered the current generation is owed nothing; whoever's delivery is
/// forgotten is owed it again.
pub proof fn law_delivery_settles_what_is_owed(
    before: ChannelState,
    after: ChannelState,
    readers: Seq<Digest32>,
    target: Digest32,
)
    requires
        after.sender == before.sender,
        readers.contains(target),
        target != after.sender.author_id,
    ensures
        after.delivered.map() == before.delivered.map().insert(target@, after.sender.chain_id)
            ==> !lists::pick(readers, ops::owes_rekey(after)).contains(target),
        after.delivered.map() == before.delivered.map().remove(target@) ==> lists::pick(
            readers,
            ops::owes_rekey(after),
        ).contains(target),
{
    lists::lemma_pick_contains(readers, ops::owes_rekey(after), target);
}

} // verus!
