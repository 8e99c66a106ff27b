//! The copy itself: starting one, reopening it, admitting authors to it, and filing
//! what a sync session brings.

use vstd::prelude::*;

use crate::anchor::{self, meta_bytes, parse_meta, SEG_META};
use crate::channel::log;
use crate::channel::segments::{self, classify_payload, AuthorsRead, MAX_AUTHORS};
use crate::channel::state::{self, Genesis, LogEntry, SegmentKind, SegmentWrite, StoredEntry};
use crate::error::Error;
use crate::hash::{same_digest, Digest32};
use crate::identity::CompositePublicKey;
use crate::table::{self, Table};

verus! {

/// A channel as an anchor holds it. There is no key in it that reads anything.
#[derive(Debug)]
pub struct AnchorState {
    /// The channel.
    pub channel_id: Digest32,
    /// Its genesis.
    pub genesis: Genesis,
    /// The epoch that the copy tracks.
    pub epoch: u64,
    /// The authors whose entries are accepted.
    pub authors: Table<Digest32, CompositePublicKey>,
    /// The entries, in arrival order.
    pub log: Vec<LogEntry>,
    /// The number of the next log segment.
    pub next_log_id: u64,
    /// Whether a failed write has left memory ahead of the store.
    pub poisoned: bool,
}

/// What the store gave for an anchored channel, each piece as it was found.
#[derive(Debug)]
pub struct StoredAnchor {
    /// The segment beside the log.
    pub meta: Result<Option<Vec<u8>>, Error>,
    /// What its genesis decodes to.
    pub genesis: Result<Genesis, Error>,
    /// What was read of its authors.
    pub authors: AuthorsRead,
    /// What each author's key decodes to.
    pub keys: Vec<Result<CompositePublicKey, Error>>,
    /// Whether the genesis verifies.
    pub verified: Result<(), Error>,
    /// The entries, by number.
    pub entries: Result<Vec<StoredEntry>, Error>,
}

impl StoredAnchor {
    /// Whether what was read of the authors is what the segment holds, and every key is one.
    pub open spec fn wf(&self) -> bool {
        &&& self.authors.wf()
        &&& self.keys@.len() == self.authors.rows@.len()
        &&& segments::keys_decoded(self.keys@)
        &&& match self.meta {
            Ok(Some(b)) => anchor::meta_rest(b@).bad is None ==> self.authors.read_from(
                anchor::meta_item(b@, 3),
            ),
            _ => true,
        }
    }

    /// The authors on file.
    pub open spec fn known(&self) -> Map<Seq<u8>, CompositePublicKey> {
        table::map_of(segments::author_keys_of(self.authors.rows@, self.keys@))
    }
}

/// The fault of a kept entry: it does not decode, its author is unknown, its payload is
/// of neither kind, or the log does not accept it. A pruned payload is no fault.
pub open spec fn kept_fault(
    authors: Map<Seq<u8>, CompositePublicKey>,
    entries: Seq<StoredEntry>,
) -> spec_fn(int) -> Option<Error> {
    |i: int|
        {
            let s = entries[i];
            match s.entry {
                Err(e) => Some(e),
                Ok(entry) => state::or_fault(
                    state::unless(
                        authors.contains_key(entry.author_id@),
                        segments::at_rest("stored entry from unknown author"),
                    ),
                    state::or_fault(
                        match entry.payload {
                            Some(p) => state::unless(
                                segments::payload_kind(p@, s.framed) is Some,
                                log::unclassified(),
                            ),
                            None => None,
                        },
                        state::unless(
                            s.accepted,
                            segments::at_rest("stored entry failed acceptance"),
                        ),
                    ),
                ),
            }
        }
}

/// Why an anchored channel does not open, or `None` where it does.
pub open spec fn reopen_fault(s: StoredAnchor, channel_id: Digest32) -> Option<Error> {
    match s.meta {
        Err(e) => Some(e),
        Ok(None) => Some(Error::Profile("channel is not anchored here")),
        Ok(Some(b)) => state::or_fault(
            anchor::meta_fault(b@, s.genesis, s.authors, s.keys@),
            state::or_fault(
                state::fault_in(s.verified),
                state::or_fault(
                    state::unless(
                        s.genesis->Ok_0.channel_id == channel_id,
                        segments::at_rest("anchor meta genesis mismatch"),
                    ),
                    match s.entries {
                        Err(e) => Some(e),
                        Ok(es) => segments::first_fault(es@.len(), kept_fault(s.known(), es@)),
                    },
                ),
            ),
        ),
    }
}

/// Whether `st` is the copy that the stored pieces spell out.
pub open spec fn opened(st: AnchorState, s: StoredAnchor, channel_id: Digest32) -> bool {
    &&& st.channel_id == channel_id
    &&& st.genesis == s.genesis->Ok_0
    &&& st.epoch == 0
    &&& st.authors.map() == s.known()
    &&& st.log@ == state::entries_of(s.entries->Ok_0@)
    &&& st.next_log_id == state::above(state::ids_of(s.entries->Ok_0@))
    &&& !st.poisoned
}

/// Why a channel is not anchored anew, or `None` where it is.
pub open spec fn create_fault(verified: Result<(), Error>, filed: Result<bool, Error>) -> Option<
    Error,
> {
    state::or_fault(
        state::fault_in(verified),
        match filed {
            Err(e) => Some(e),
            Ok(there) => state::unless(!there, Error::Profile("channel is already anchored")),
        },
    )
}

/// What is said of a copy that is ahead of its store.
pub open spec fn poisoned_error() -> Error {
    Error::Profile("anchored channel is poisoned after a failed persist; reopen it")
}

fn reload(stored: Vec<StoredEntry>, authors: &Table<Digest32, CompositePublicKey>) -> (r: Result<
    (Vec<LogEntry>, u64),
    Error,
>)
    requires
        authors.wf(),
    ensures
        match r {
            Ok((log, next)) => {
                &&& segments::first_fault(
                    stored@.len(),
                    kept_fault(authors.map(), stored@),
                ) is None
                &&& log@ == state::entries_of(stored@)
                &&& state::by_authors(log@, authors.map())
                &&& next == state::above(state::ids_of(stored@))
            },
            Err(e) => segments::first_fault(stored@.len(), kept_fault(authors.map(), stored@))
                == Some(e),
        },
{
    let ghost all = stored@;
    let ghost f = kept_fault(authors.map(), all);
    let n: usize = stored.len();
    let mut left = stored;
    let mut log: Vec<LogEntry> = Vec::new();
    let mut next: u64 = 1;
    let mut i: usize = 0;
    assert(all.skip(0) =~= all);
    assert(state::ids_of(all).take(0) =~= Seq::empty());
    while i < n
        invariant
            i <= n == all.len(),
            all == stored@,
            authors.wf(),
            left@ == all.skip(i as int),
            f == kept_fault(authors.map(), all),
            segments::first_fault(i as nat, f) is None,
            log@ == state::entries_of(all).take(i as int),
            state::by_authors(log@, authors.map()),
            next == state::above(state::ids_of(all).take(i as int)),
        decreases n - i,
    {
        let s: StoredEntry = left.remove(0);
        proof {
            assert(s == all[i as int]);
            assert(left@ =~= all.skip(i + 1));
            assert(state::ids_of(all).take(i + 1).drop_last() =~= state::ids_of(all).take(
                i as int,
            ));
            assert(state::ids_of(all).take(i + 1).last() == s.id);
            if f(i as int) is Some {
                assert(segments::first_fault((i + 1) as nat, f) == f(i as int));
                segments::lemma_first_fault((i + 1) as nat, n as nat, f);
            }
        }
        let entry: LogEntry = s.entry?;
        if !authors.contains_key(&entry.author_id) {
            return Err(Error::MalformedAtRest("stored entry from unknown author"));
        }
        match &entry.payload {
            Some(p) => {
                classify_payload(p.as_slice(), s.framed)?;
            },
            None => {},
        }
        if !s.accepted {
            return Err(Error::MalformedAtRest("stored entry failed acceptance"));
        }
        next = state::raised(next, s.id);
        log.push(entry);
        assert(log@ =~= state::entries_of(all).take(i + 1));
        i = i + 1;
    }
    assert(state::ids_of(all).take(all.len() as int) =~= state::ids_of(all));
    assert(state::entries_of(all).take(all.len() as int) =~= state::entries_of(all));
    Ok((log, next))
}

impl AnchorState {
    /// What every copy keeps.
    pub open spec fn wf(&self) -> bool {
        &&& self.authors.wf()
        &&& self.genesis.channel_id == self.channel_id
        &&& self.epoch == 0
        &&& state::authors_own_names(self.authors.map())
        &&& state::keys_whole(self.authors.map())
        &&& state::by_authors(self.log@, self.authors.map())
    }

    /// The segment that the copy writes beside its log.
    pub open spec fn meta(&self) -> Seq<u8> {
        cbor_meta(self.genesis, self.authors)
    }

    fn meta_write(&self) -> (w: SegmentWrite)
        ensures
            w.kind == SegmentKind::AnchorMeta,
            w.id == SEG_META,
            w.bytes@ == self.meta(),
    {
        SegmentWrite {
            kind: SegmentKind::AnchorMeta,
            id: SEG_META,
            bytes: meta_bytes(&self.genesis, &self.authors),
        }
    }

    /// Starts to anchor a channel: the genesis and its creator. `verified` says whether
    /// the genesis verifies, `filed` whether the store has the channel already. The copy
    /// is there once the write is through.
    pub fn create(genesis: Genesis, verified: Result<(), Error>, filed: Result<bool, Error>) -> (r:
        Result<(AnchorState, SegmentWrite), Error>)
        requires
            genesis.creator.wf(),
        ensures
            match r {
                Ok((st, w)) => {
                    &&& create_fault(verified, filed) is None
                    &&& st.wf()
                    &&& st.genesis == genesis
                    &&& st.channel_id == genesis.channel_id
                    &&& st.epoch == 0
                    &&& st.authors.map().dom() =~= set![genesis.creator.fingerprint@]
                    &&& st.authors.map()[genesis.creator.fingerprint@].is_same(&genesis.creator)
                    &&& st.log@.len() == 0
                    &&& st.next_log_id == 1
                    &&& !st.poisoned
                    &&& w.kind == SegmentKind::AnchorMeta
                    &&& w.id == SEG_META
                    &&& w.bytes@ == st.meta()
                },
                Err(e) => create_fault(verified, filed) == Some(e),
            },
    {
        verified?;
        if filed? {
            return Err(Error::Profile("channel is already anchored"));
        }
        let mut authors: Table<Digest32, CompositePublicKey> = Table::new();
        authors.insert(genesis.creator.fingerprint, genesis.creator.clone());
        let st: AnchorState = AnchorState {
            channel_id: genesis.channel_id,
            genesis,
            epoch: 0,
            authors,
            log: Vec::new(),
            next_log_id: 1,
            poisoned: false,
        };
        let w: SegmentWrite = st.meta_write();
        Ok((st, w))
    }

    /// Reopens an anchored channel: what stands beside the log, then every entry, which
    /// must pass acceptance again under the authors on file.
    pub fn open(stored: StoredAnchor, channel_id: Digest32) -> (r: Result<AnchorState, Error>)
        requires
            stored.wf(),
        ensures
            match r {
                Ok(st) => {
                    &&& reopen_fault(stored, channel_id) is None
                    &&& st.wf()
                    &&& opened(st, stored, channel_id)
                    &&& st.authors.rows().len() <= MAX_AUTHORS
                },
                Err(e) => reopen_fault(stored, channel_id) == Some(e),
            },
    {
        let ghost whole = stored;
        let meta: Vec<u8> = match stored.meta? {
            Some(b) => b,
            None => {
                return Err(Error::Profile("channel is not anchored here"));
            },
        };
        let ghost rows = stored.authors.rows@;
        let ghost keys = stored.keys@;
        let (genesis, authors) = parse_meta(
            meta.as_slice(),
            stored.genesis,
            stored.authors,
            stored.keys,
        )?;
        stored.verified?;
        if !same_digest(&genesis.channel_id, &channel_id) {
            return Err(Error::MalformedAtRest("anchor meta genesis mismatch"));
        }
        let (log, next_log_id) = reload(stored.entries?, &authors)?;
        proof {
            let listed = segments::author_keys_of(rows, keys);
            state::lemma_listed_own_names(rows, keys, rows.len());
            assert(listed.take(rows.len() as int) =~= listed);
        }
        Ok(
            AnchorState {
                channel_id,
                genesis,
                epoch: 0,
                authors,
                log,
                next_log_id,
                poisoned: false,
            },
        )
    }
}

/// The segment beside the log, for a genesis and its authors.
pub open spec fn cbor_meta(genesis: Genesis, authors: Table<Digest32, CompositePublicKey>) -> Seq<
    u8,
> {
    crate::cbor::enc(
        anchor::meta_toks(
            genesis.wire@,
            crate::cbor::enc(segments::authors_toks(segments::authors_view(authors.rows()))),
        ),
    )
}

// ---- getters and admission ---------------------------------------------------

impl AnchorState {
    /// The channel.
    #[must_use]
    pub fn channel_id(&self) -> (d: Digest32)
        ensures
            d == self.channel_id,
    {
        self.channel_id
    }

    /// The genesis.
    #[must_use]
    pub fn genesis(&self) -> (g: &Genesis)
        ensures
            *g == self.genesis,
    {
        &self.genesis
    }

    /// The epoch that this anchor tracks.
    #[must_use]
    pub fn epoch(&self) -> (n: u64)
        ensures
            n == self.epoch,
    {
        self.epoch
    }

    /// How many entries the anchor holds.
    #[must_use]
    pub fn entries(&self) -> (n: usize)
        ensures
            n == self.log@.len(),
    {
        self.log.len()
    }

    /// The authors whose entries are accepted, in fingerprint order.
    #[must_use]
    pub fn authors(&self) -> (v: Vec<Digest32>)
        ensures
            v@ == Seq::new(self.authors.rows().len(), |i: int| self.authors.rows()[i].0),
    {
        let mut v: Vec<Digest32> = Vec::new();
        let mut i: usize = 0;
        while i < self.authors.len()
            invariant
                i <= self.authors.rows().len(),
                v@.len() == i,
                forall|j: int| 0 <= j < i ==> #[trigger] v@[j] == self.authors.rows()[j].0,
            decreases self.authors.rows().len() - i,
        {
            v.push(self.authors.row(i).0);
            i = i + 1;
        }
        v
    }

    /// Their keys, in the same order.
    #[must_use]
    pub fn author_keys(&self) -> (v: Vec<CompositePublicKey>)
        ensures
            v@.len() == self.authors.rows().len(),
            forall|i: int|
                0 <= i < v@.len() ==> (#[trigger] v@[i]).is_same(&self.authors.rows()[i].1),
    {
        let mut v: Vec<CompositePublicKey> = Vec::new();
        let mut i: usize = 0;
        while i < self.authors.len()
            invariant
                i <= self.authors.rows().len(),
                v@.len() == i,
                forall|j: int|
                    0 <= j < i ==> (#[trigger] v@[j]).is_same(&self.authors.rows()[j].1),
            decreases self.authors.rows().len() - i,
        {
            v.push(self.authors.row(i).1.clone());
            i = i + 1;
        }
        v
    }

    /// Whether a fingerprint is that of a known author.
    #[must_use]
    pub fn is_author(&self, fingerprint: &Digest32) -> (r: bool)
        requires
            self.wf(),
        ensures
            r == self.authors.has(fingerprint@),
    {
        self.authors.contains_key(fingerprint)
    }

    /// Admits authors that the board has come to know. The result says how many are new
    /// and, where any is, what is to be written. A key that differs from the one on file
    /// for its fingerprint is refused and never takes its place.
    pub fn admit_authors(&mut self, keys: Vec<CompositePublicKey>) -> (r: Result<
        (usize, Option<SegmentWrite>),
        Error,
    >)
        requires
            old(self).wf(),
            forall|i: int| 0 <= i < keys@.len() ==> (#[trigger] keys@[i]).wf(),
        ensures
            final(self).wf(),
            *final(self) == (AnchorState { authors: final(self).authors, ..*old(self) }),
            match r {
                Ok((n, w)) => {
                    &&& final(self).authors.rows().len() == old(self).authors.rows().len() + n
                    &&& filed_all(old(self).authors.map(), final(self).authors.map(), keys@)
                    &&& match w {
                        Some(w) => {
                            &&& n > 0
                            &&& w.kind == SegmentKind::AnchorMeta
                            &&& w.id == SEG_META
                            &&& w.bytes@ == final(self).meta()
                        },
                        None => n == 0,
                    }
                },
                Err(e) => {
                    &&& e == Error::MalformedGovernance(
                        "another key is already admitted for this fingerprint",
                    )
                    &&& exists|i: int|
                        0 <= i < keys@.len() && conflicts(
                            final(self).authors.map(),
                            #[trigger] keys@[i],
                        ) && filed_all(
                            old(self).authors.map(),
                            final(self).authors.map(),
                            keys@.take(i),
                        )
                },
            },
    {
        let mut added: usize = 0;
        let mut i: usize = 0;
        while i < keys.len()
            invariant
                self.wf(),
                forall|j: int| 0 <= j < keys@.len() ==> (#[trigger] keys@[j]).wf(),
                i <= keys@.len(),
                added <= i,
                *self == (AnchorState { authors: self.authors, ..*old(self) }),
                filed_all(old(self).authors.map(), self.authors.map(), keys@.take(i as int)),
                self.authors.rows().len() == old(self).authors.rows().len() + added,
            decreases keys@.len() - i,
        {
            let total: usize = keys.len();
            assert(i < total);
            let ghost before = self.authors.map();
            let fp: Digest32 = keys[i].fingerprint();
            match self.authors.get(&fp) {
                Some(known) => {
                    if !known.same_key(&keys[i]) {
                        assert(conflicts(self.authors.map(), keys@[i as int]));
                        return Err(
                            Error::MalformedGovernance(
                                "another key is already admitted for this fingerprint",
                            ),
                        );
                    }
                },
                None => {
                    self.authors.insert(fp, keys[i].clone());
                    added = added + 1;
                },
            }
            proof {
                lemma_filed_one_more(
                    old(self).authors.map(),
                    before,
                    self.authors.map(),
                    keys@,
                    i as int,
                );
            }
            i = i + 1;
        }
        assert(keys@.take(i as int) =~= keys@);
        if added > 0 {
            let w: SegmentWrite = self.meta_write();
            return Ok((added, Some(w)));
        }
        Ok((added, None))
    }

    /// Takes up how a write went. A failed one leaves memory ahead of the store, and the
    /// copy takes nothing more until it is reopened.
    pub fn persisted(&mut self, written: Result<(), Error>) -> (r: Result<(), Error>)
        ensures
            r == written,
            *final(self) == (AnchorState {
                poisoned: old(self).poisoned || written is Err,
                ..*old(self)
            }),
    {
        match written {
            Ok(done) => Ok(done),
            Err(e) => {
                self.poisoned = true;
                Err(e)
            },
        }
    }
}

/// Whether a key is on file under its fingerprint.
pub open spec fn on_file(
    authors: Map<Seq<u8>, CompositePublicKey>,
    key: CompositePublicKey,
) -> bool {
    &&& authors.contains_key(key.fingerprint@)
    &&& authors[key.fingerprint@].bytes@ == key.bytes@
}

/// Whether another key is on file under a key's fingerprint.
pub open spec fn conflicts(
    authors: Map<Seq<u8>, CompositePublicKey>,
    key: CompositePublicKey,
) -> bool {
    &&& authors.contains_key(key.fingerprint@)
    &&& authors[key.fingerprint@].bytes@ != key.bytes@
}

/// Whether a fingerprint is one of these keys'.
pub open spec fn named_in(keys: Seq<CompositePublicKey>, k: Seq<u8>) -> bool {
    exists|i: int| 0 <= i < keys.len() && (#[trigger] keys[i]).fingerprint@ == k
}

/// Whether authors were only added, each of them one of `keys`, and none replaced.
pub open spec fn kept_apart(
    before: Map<Seq<u8>, CompositePublicKey>,
    after: Map<Seq<u8>, CompositePublicKey>,
    keys: Seq<CompositePublicKey>,
) -> bool {
    &&& forall|k: Seq<u8>| #[trigger]
        before.contains_key(k) ==> after.contains_key(k) && after[k] == before[k]
    &&& forall|k: Seq<u8>| #[trigger]
        after.contains_key(k) && !before.contains_key(k) ==> named_in(keys, k)
}

/// Whether authors were only added, none replaced, and those added are exactly the ones of
/// `keys`, each of which is on file now.
pub open spec fn filed_all(
    before: Map<Seq<u8>, CompositePublicKey>,
    after: Map<Seq<u8>, CompositePublicKey>,
    keys: Seq<CompositePublicKey>,
) -> bool {
    &&& kept_apart(before, after, keys)
    &&& forall|j: int| 0 <= j < keys.len() ==> on_file(after, #[trigger] keys[j])
}

proof fn lemma_filed_one_more(
    start: Map<Seq<u8>, CompositePublicKey>,
    before: Map<Seq<u8>, CompositePublicKey>,
    after: Map<Seq<u8>, CompositePublicKey>,
    keys: Seq<CompositePublicKey>,
    i: int,
)
    requires
        0 <= i < keys.len(),
        filed_all(start, before, keys.take(i)),
        on_file(after, keys[i]),
        forall|k: Seq<u8>| #[trigger]
            before.contains_key(k) ==> after.contains_key(k) && after[k] == before[k],
        forall|k: Seq<u8>| #[trigger]
            after.contains_key(k) && !before.contains_key(k) ==> keys[i].fingerprint@ == k,
    ensures
        filed_all(start, after, keys.take(i + 1)),
{
    let now = keys.take(i + 1);
    assert(now[i] == keys[i]);
    assert forall|j: int| 0 <= j < now.len() implies on_file(after, #[trigger] now[j]) by {
        if j < i {
            assert(keys.take(i)[j] == now[j]);
            assert(on_file(before, keys.take(i)[j]));
        }
    }
    assert forall|k: Seq<u8>| #[trigger] after.contains_key(k) && !start.contains_key(k) implies
        named_in(now, k) by {
        if before.contains_key(k) {
            let j = choose|j: int|
                0 <= j < i && (#[trigger] keys.take(i)[j]).fingerprint@ == k;
            assert(now[j].fingerprint@ == k);
        } else {
            assert(now[i].fingerprint@ == k);
        }
    }
    assert forall|k: Seq<u8>| #[trigger] start.contains_key(k) implies after.contains_key(k)
        && after[k] == start[k] by {
        assert(before.contains_key(k));
    }
}

} // verus!
