//! What an open channel does: admitting authors, offering services, releasing and
//! rotating its sender key, and taking entries into its log.
//!
//! Each operation decides and changes the state in memory; what has to be written is
//! returned, and the caller reports back whether the write went through. A write that
//! fails poisons the channel: memory is then ahead of the store, and the only safe
//! continuation is to open the channel again.

use vstd::prelude::*;
use vstd::utf8::*;

use crate::bootstrap::{self, BootstrapSet};
use crate::cbor;
use crate::channel::segments::{
    self, authors_bytes, delivered_bytes, services_bytes, ChainSlot, ReceiverChain, MAX_AUTHORS,
    MAX_SERVICES, MAX_SERVICE_TAG_LEN, SEG_ADMISSION, SEG_ANCHORS, SEG_AUTHORS, SEG_DELIVERED,
    SEG_ORIGINS, SEG_SENDER, SEG_SERVICES,
};
use crate::channel::state::{
    self, retain_generation, Admission, ChannelState, SegmentKind, SegmentWrite, SenderChain,
};
use crate::error::Error;
use crate::hash::{same_digest, Digest32};
use crate::identity::CompositePublicKey;
use crate::lists::{self, has_digest};
use crate::table::Table;

verus! {

/// Where a sender key is released.
#[derive(Clone, Copy, Debug, PartialEq, Eq)]
pub enum ReleaseAt {
    /// At the beginning of its generation.
    Origin,
    /// From this message on.
    Position(u64),
}

/// A release of a sender key: which generation, and from where.
#[derive(Clone, Copy, Debug, PartialEq, Eq)]
pub struct Release {
    /// The generation.
    pub chain_id: u64,
    /// From where.
    pub at: ReleaseAt,
}

/// What a poisoned channel answers.
pub open spec fn poisoned_error() -> Error {
    Error::Profile("channel is poisoned after a failed persist; reopen it")
}

/// Whether `w` writes `bytes` to the key-material segment `id`.
pub open spec fn writes_key_material(w: SegmentWrite, id: u64, bytes: Seq<u8>) -> bool {
    w.kind == SegmentKind::KeyMaterial && w.id == id && w.bytes@ == bytes
}

/// The bytes of the authors segment.
pub open spec fn authors_segment(authors: Table<Digest32, CompositePublicKey>) -> Seq<u8> {
    cbor::enc(segments::authors_toks(segments::authors_view(authors.rows())))
}

/// The bytes of the services segment.
pub open spec fn services_segment(services: Table<String, String>) -> Seq<u8> {
    cbor::enc(segments::services_toks(segments::services_view(services.rows())))
}

/// The bytes of the delivery ledger.
pub open spec fn delivered_segment(delivered: Table<Digest32, u64>) -> Seq<u8> {
    cbor::enc(segments::delivered_toks(delivered.rows()))
}

/// The bytes of the receiver-chains segment.
pub open spec fn receivers_segment(receivers: Table<ChainSlot, ReceiverChain>) -> Seq<u8> {
    cbor::enc(segments::receivers_toks(segments::receivers_view(receivers.rows())))
}

pub(crate) fn key_material(id: u64, bytes: Vec<u8>) -> (w: SegmentWrite)
    ensures
        writes_key_material(w, id, bytes@),
{
    SegmentWrite { kind: SegmentKind::KeyMaterial, id, bytes }
}

/// The fingerprints that a table of authors lists, in order.
pub open spec fn ids_of<V>(rows: Seq<(Digest32, V)>) -> Seq<Digest32> {
    Seq::new(rows.len(), |i: int| rows[i].0)
}

/// Why a key is not admitted as an author, or `None` where it is.
pub open spec fn admit_fault(
    authors: Table<Digest32, CompositePublicKey>,
    key: CompositePublicKey,
) -> Option<Error> {
    if authors.has(key.fingerprint@) {
        if authors.map()[key.fingerprint@].bytes@ == key.bytes@ {
            None
        } else {
            Some(Error::MalformedGovernance("another key is already admitted for this fingerprint"))
        }
    } else if authors.rows().len() >= MAX_AUTHORS {
        Some(Error::SizeLimitExceeded("channel authors"))
    } else {
        None
    }
}

/// Why a key from a board is not admitted, as far as its evidence goes. `witness` says
/// whether the witness verifies under the key of the author that signed it.
pub open spec fn evidence_fault(
    ch: ChannelState,
    key: CompositePublicKey,
    admission: Admission,
    witness: Result<(), Error>,
) -> Option<Error> {
    match admission {
        Admission::Creator => state::unless(
            ch.genesis.creator.fingerprint == key.fingerprint,
            Error::MalformedGovernance("board record claims to be the creator and is not"),
        ),
        Admission::Witnessed(w) => state::or_fault(
            state::unless(
                ch.authors.has(w.witness_id@),
                Error::MalformedGovernance("join witness signed by an unadmitted key"),
            ),
            state::fault_in(witness),
        ),
    }
}

/// Whether `ch` is `before` with `key` among its authors, and `r` says whether that is
/// new, with the write that makes it last.
pub open spec fn admitted(
    ch: ChannelState,
    before: ChannelState,
    key: CompositePublicKey,
    r: Option<SegmentWrite>,
) -> bool {
    match r {
        None => before.authors.has(key.fingerprint@) && ch == before,
        Some(w) => {
            &&& !before.authors.has(key.fingerprint@)
            &&& ch == (ChannelState { authors: ch.authors, ..before })
            &&& ch.authors.has(key.fingerprint@)
            &&& ch.authors.map().remove(key.fingerprint@) == before.authors.map()
            &&& ch.authors.map()[key.fingerprint@].is_same(&key)
            &&& ch.authors.rows().len() == before.authors.rows().len() + 1
            &&& writes_key_material(w, SEG_AUTHORS, authors_segment(ch.authors))
        },
    }
}

/// The next sender chain, and the batch that makes it last.
#[derive(Debug, PartialEq, Eq)]
pub struct Rotation {
    /// The chain.
    pub next: SenderChain,
    /// The batch.
    pub writes: Vec<SegmentWrite>,
}

/// Why a sender key is not rotated, or `None` where it is.
pub open spec fn rotate_fault(ch: ChannelState, next: Result<SenderChain, Error>) -> Option<Error> {
    state::or_fault(
        state::unless(!ch.poisoned, poisoned_error()),
        state::or_fault(
            state::fault_in(next),
            state::unless(
                next->Ok_0.next_iteration == 0,
                Error::MalformedBundle("origin retention past iteration 0"),
            ),
        ),
    )
}

/// What a rotation writes.
pub open spec fn rotation_writes(next: SenderChain, origin_state: Seq<u8>) -> Seq<
    (SegmentKind, u64, Seq<u8>),
> {
    seq![
        (SegmentKind::KeyMaterial, SEG_SENDER, next.state@),
        (SegmentKind::KeyMaterial, SEG_ORIGINS, origin_state),
    ]
}

/// Whether `next` is a later generation of the same author's.
pub open spec fn follows(next: SenderChain, sender: SenderChain) -> bool {
    next.author_id == sender.author_id && next.chain_id > sender.chain_id
}

/// Whether `ch` is `before` with the origin of `next` retained, and `rotation` what is
/// to be written.
pub open spec fn rotating(
    ch: ChannelState,
    before: ChannelState,
    next: SenderChain,
    origin_state: Seq<u8>,
    rotation: Rotation,
) -> bool {
    &&& ch == (ChannelState { origins: ch.origins, ..before })
    &&& ch.origins.held@ == before.origins.held@.push(next.chain_id)
    &&& ch.origins.state@ == origin_state
    &&& rotation.next == next
    &&& state::writes_view(rotation.writes@) == rotation_writes(next, origin_state)
}

/// Why a consent is not revoked, or `None` where it is.
pub open spec fn revoke_fault(
    ch: ChannelState,
    target: Digest32,
    readers: Seq<Digest32>,
) -> Option<Error> {
    state::or_fault(
        state::unless(
            target != ch.sender.author_id,
            Error::MalformedGovernance("an identity cannot revoke its own consent"),
        ),
        state::unless(
            readers.contains(target),
            Error::MalformedGovernance("no consent to revoke"),
        ),
    )
}

impl ChannelState {
    // ---- persistence -----------------------------------------------------------

    /// Notes how a write went: one that failed poisons the channel.
    pub fn persisted(&mut self, written: Result<(), Error>) -> (r: Result<(), Error>)
        ensures
            r == written,
            *final(self) == (ChannelState {
                poisoned: old(self).poisoned || written is Err,
                ..*old(self)
            }),
    {
        match written {
            Ok(done) => Ok(done),
            Err(e) => {
                self.poisoned = true;
                Err(e)
            },
        }
    }

    /// Whether a failed write has poisoned this channel.
    #[must_use]
    pub fn is_poisoned(&self) -> (r: bool)
        ensures
            r == self.poisoned,
    {
        self.poisoned
    }

    pub(crate) fn sound(&self) -> (r: Result<(), Error>)
        ensures
            match r {
                Ok(_) => !self.poisoned,
                Err(e) => self.poisoned && e == poisoned_error(),
            },
    {
        if self.poisoned {
            return Err(Error::Profile("channel is poisoned after a failed persist; reopen it"));
        }
        Ok(())
    }

    // ---- authors ---------------------------------------------------------------

    /// Admits `key` as a log author. This checks no evidence: it is for keys whose right
    /// to be here this node established itself. Admitting a key again is a no-op; a
    /// different key under an admitted fingerprint is refused, never replaced.
    pub fn admit_author(&mut self, key: &CompositePublicKey) -> (r: Result<
        Option<SegmentWrite>,
        Error,
    >)
        requires
            old(self).wf(),
            key.wf(),
        ensures
            final(self).wf(),
            match r {
                Ok(w) => {
                    &&& admit_fault(old(self).authors, *key) is None
                    &&& admitted(*final(self), *old(self), *key, w)
                },
                Err(e) => {
                    &&& admit_fault(old(self).authors, *key) == Some(e)
                    &&& *final(self) == *old(self)
                },
            },
    {
        match self.authors.get(&key.fingerprint) {
            Some(existing) => {
                if existing.same_key(key) {
                    return Ok(None);
                }
                return Err(
                    Error::MalformedGovernance(
                        "another key is already admitted for this fingerprint",
                    ),
                );
            },
            None => {},
        }
        if self.authors.len() >= MAX_AUTHORS {
            return Err(Error::SizeLimitExceeded("channel authors"));
        }
        let ghost before = self.authors.map();
        self.authors.insert(key.fingerprint, key.clone());
        proof {
            assert(self.authors.map().remove(key.fingerprint@) =~= before);
        }
        let bytes: Vec<u8> = authors_bytes(&self.authors);
        Ok(Some(key_material(SEG_AUTHORS, bytes)))
    }

    /// Admits a key from a board, on the evidence that it belongs there and on nothing
    /// else: the genesis names it as the creator, or a member already admitted here
    /// witnessed its join. `witness` says whether the witness verifies under the key
    /// admitted for its signer, for this channel, this epoch and this key.
    pub fn admit_from_board(
        &mut self,
        key: &CompositePublicKey,
        admission: &Admission,
        witness: Result<(), Error>,
    ) -> (r: Result<Option<SegmentWrite>, Error>)
        requires
            old(self).wf(),
            key.wf(),
        ensures
            final(self).wf(),
            match r {
                Ok(w) => {
                    &&& evidence_fault(*old(self), *key, *admission, witness) is None
                    &&& admit_fault(old(self).authors, *key) is None
                    &&& admitted(*final(self), *old(self), *key, w)
                },
                Err(e) => {
                    &&& state::or_fault(
                        evidence_fault(*old(self), *key, *admission, witness),
                        admit_fault(old(self).authors, *key),
                    ) == Some(e)
                    &&& *final(self) == *old(self)
                },
            },
    {
        match admission {
            Admission::Creator => {
                if !same_digest(&self.genesis.creator.fingerprint, &key.fingerprint) {
                    return Err(
                        Error::MalformedGovernance(
                            "board record claims to be the creator and is not",
                        ),
                    );
                }
            },
            Admission::Witnessed(w) => {
                if !self.authors.contains_key(&w.witness_id) {
                    return Err(
                        Error::MalformedGovernance("join witness signed by an unadmitted key"),
                    );
                }
                witness?;
            },
        }
        self.admit_author(key)
    }

    /// Whether `fingerprint` is an admitted log author.
    #[must_use]
    pub fn is_author(&self, fingerprint: &Digest32) -> (r: bool)
        requires
            self.wf(),
        ensures
            r == self.authors.has(fingerprint@),
    {
        self.authors.contains_key(fingerprint)
    }

    /// The admitted authors' keys, in fingerprint order.
    #[must_use]
    pub fn author_keys(&self) -> (out: Vec<CompositePublicKey>)
        ensures
            out@.len() == self.authors.rows().len(),
            forall|i: int|
                0 <= i < out@.len() ==> (#[trigger] out@[i]).is_same(&self.authors.rows()[i].1),
    {
        let mut out: Vec<CompositePublicKey> = Vec::new();
        let mut i: usize = 0;
        while i < self.authors.len()
            invariant
                i <= self.authors.rows().len(),
                out@.len() == i,
                forall|j: int|
                    0 <= j < i ==> (#[trigger] out@[j]).is_same(&self.authors.rows()[j].1),
            decreases self.authors.rows().len() - i,
        {
            out.push(self.authors.row(i).1.clone());
            i = i + 1;
        }
        out
    }

    /// Every admitted author's fingerprint, in ascending order.
    #[must_use]
    pub fn author_fingerprints(&self) -> (out: Vec<Digest32>)
        ensures
            out@ == ids_of(self.authors.rows()),
    {
        let mut out: Vec<Digest32> = Vec::new();
        let mut i: usize = 0;
        while i < self.authors.len()
            invariant
                i <= self.authors.rows().len(),
                out@ == ids_of(self.authors.rows()).take(i as int),
            decreases self.authors.rows().len() - i,
        {
            out.push(self.authors.row(i).0);
            assert(out@ =~= ids_of(self.authors.rows()).take(i + 1));
            i = i + 1;
        }
        assert(ids_of(self.authors.rows()).take(i as int) =~= ids_of(self.authors.rows()));
        out
    }

    /// The members: every admitted author, in ascending order.
    #[must_use]
    pub fn members(&self) -> (out: Vec<Digest32>)
        ensures
            out@ == ids_of(self.authors.rows()),
    {
        self.author_fingerprints()
    }

    /// This identity's fingerprint in this channel: the author of its sender chain.
    #[must_use]
    pub fn me(&self) -> (d: Digest32)
        ensures
            d == self.sender.author_id,
    {
        self.sender.author_id
    }

    /// How many entries were accepted into the log.
    #[must_use]
    pub fn entry_count(&self) -> (n: usize)
        ensures
            n == self.log@.len(),
    {
        self.log.len()
    }

    // ---- anchors ---------------------------------------------------------------

    /// Takes up the anchors that a merge with more of them gave. A set that gained
    /// neither a node nor an endpoint is not written. The result says how many nodes
    /// were new, with the write; `bytes` is the merged set in wire form.
    pub fn add_anchors(&mut self, merged: Result<BootstrapSet, Error>, bytes: Vec<u8>) -> (r: Result<
        (usize, Option<SegmentWrite>),
        Error,
    >)
        requires
            old(self).wf(),
        ensures
            final(self).wf(),
            match r {
                Ok((fresh, w)) => {
                    &&& merged is Ok
                    &&& *final(self) == (ChannelState { anchors: merged->Ok_0, ..*old(self) })
                    &&& match w {
                        None => fresh == 0 && anchors_unchanged(old(self).anchors, merged->Ok_0),
                        Some(w) => {
                            &&& !anchors_unchanged(old(self).anchors, merged->Ok_0)
                            &&& fresh == (if merged->Ok_0.nodes@.len()
                                >= old(self).anchors.nodes@.len() {
                                merged->Ok_0.nodes@.len() - old(self).anchors.nodes@.len()
                            } else {
                                0
                            })
                            &&& writes_key_material(w, SEG_ANCHORS, bytes@)
                        },
                    }
                },
                Err(e) => merged == Err::<BootstrapSet, Error>(e) && *final(self) == *old(self),
            },
    {
        let merged: BootstrapSet = merged?;
        let before: usize = self.anchors.nodes.len();
        let after: usize = merged.nodes.len();
        let same: bool = before == after && self.anchors.endpoint_count()
            == merged.endpoint_count();
        self.anchors = merged;
        if same {
            return Ok((0, None));
        }
        let fresh: usize = if after >= before {
            after - before
        } else {
            0
        };
        Ok((fresh, Some(key_material(SEG_ANCHORS, bytes))))
    }

    // ---- services --------------------------------------------------------------

    /// Offers `service_tag` at `local`. Replacing a tag's address is allowed: that is how
    /// a service moves. The result says whether the tag is new, with the write that
    /// makes it last.
    pub fn add_service(&mut self, service_tag: &str, local: String) -> (r: Result<
        (bool, SegmentWrite),
        Error,
    >)
        requires
            old(self).wf(),
        ensures
            final(self).wf(),
            match r {
                Ok((fresh, w)) => {
                    &&& segments::service_tag_ok(service_tag@)
                    &&& fresh == !old(self).services.has(encode_utf8(service_tag@))
                    &&& fresh ==> old(self).services.rows().len() < MAX_SERVICES
                    &&& *final(self) == (ChannelState {
                        services: final(self).services,
                        ..*old(self)
                    })
                    &&& final(self).services.map() == old(self).services.map().insert(
                        encode_utf8(service_tag@),
                        local,
                    )
                    &&& writes_key_material(w, SEG_SERVICES, services_segment(final(self).services))
                },
                Err(e) => {
                    &&& *final(self) == *old(self)
                    &&& {
                        ||| !segments::service_tag_ok(service_tag@) && e == Error::MalformedTunnel(
                            "service tag length",
                        )
                        ||| segments::service_tag_ok(service_tag@) && !old(self).services.has(
                            encode_utf8(service_tag@),
                        ) && old(self).services.rows().len() >= MAX_SERVICES && e
                            == Error::SizeLimitExceeded("channel services")
                    }
                },
            },
    {
        let len: usize = service_tag.as_bytes().len();
        if len == 0 || len > MAX_SERVICE_TAG_LEN {
            return Err(Error::MalformedTunnel("service tag length"));
        }
        let tag: String = service_tag.to_owned();
        let fresh: bool = !self.services.contains_key(&tag);
        if fresh && self.services.len() >= MAX_SERVICES {
            return Err(Error::SizeLimitExceeded("channel services"));
        }
        self.services.insert(tag, local);
        let bytes: Vec<u8> = services_bytes(&self.services);
        Ok((fresh, key_material(SEG_SERVICES, bytes)))
    }

    /// Stops offering `service_tag`. `None` where it was not offered.
    pub fn remove_service(&mut self, service_tag: &str) -> (r: Option<SegmentWrite>)
        requires
            old(self).wf(),
        ensures
            final(self).wf(),
            *final(self) == (ChannelState { services: final(self).services, ..*old(self) }),
            final(self).services.map() == old(self).services.map().remove(
                encode_utf8(service_tag@),
            ),
            match r {
                Some(w) => old(self).services.has(encode_utf8(service_tag@))
                    && writes_key_material(w, SEG_SERVICES, services_segment(final(self).services)),
                None => !old(self).services.has(encode_utf8(service_tag@)),
            },
    {
        let tag: String = service_tag.to_owned();
        if !self.services.remove(&tag) {
            return None;
        }
        let bytes: Vec<u8> = services_bytes(&self.services);
        Some(key_material(SEG_SERVICES, bytes))
    }

    /// Where a service this node offers lives locally. Host configuration only: it
    /// carries no authorization.
    #[must_use]
    pub fn service_endpoint(&self, service_tag: &str) -> (r: Option<String>)
        requires
            self.wf(),
        ensures
            match r {
                Some(a) => self.services.has(encode_utf8(service_tag@)) && a@
                    == self.services.map()[encode_utf8(service_tag@)]@,
                None => !self.services.has(encode_utf8(service_tag@)),
            },
    {
        let tag: String = service_tag.to_owned();
        match self.services.get(&tag) {
            Some(a) => Some(a.clone()),
            None => None,
        }
    }

    // ---- admission -------------------------------------------------------------

    /// The write of this node's own admission.
    pub fn own_admission_write(body: Vec<u8>) -> (w: SegmentWrite)
        ensures
            writes_key_material(w, SEG_ADMISSION, body@),
    {
        key_material(SEG_ADMISSION, body)
    }

    /// Records how this node came to be a member here, once that was written. A write
    /// that failed poisons the channel and records nothing.
    pub fn set_own_admission(&mut self, admission: Admission, written: Result<(), Error>) -> (r: Result<
        (),
        Error,
    >)
        requires
            old(self).wf(),
        ensures
            final(self).wf(),
            r == written,
            *final(self) == (if written is Ok {
                ChannelState { own_admission: Some(admission), ..*old(self) }
            } else {
                ChannelState { poisoned: true, ..*old(self) }
            }),
    {
        self.persisted(written)?;
        self.own_admission = Some(admission);
        Ok(())
    }

    // ---- consent and sender keys ------------------------------------------------

    /// Whether this identity has consented to `target` reading it here. `readers` are
    /// those that the log says may read it.
    #[must_use]
    pub fn has_consented(&self, readers: &Vec<Digest32>, target: &Digest32) -> (r: bool)
        ensures
            r == readers@.contains(*target),
    {
        has_digest(readers, target)
    }

    /// The admitted authors in `trusted` that this identity has not consented to yet.
    /// Membership alone is not enough: a member gets nothing unless the operator put it
    /// in the keyring.
    #[must_use]
    pub fn owed_consents(&self, trusted: &Vec<Digest32>, readers: &Vec<Digest32>) -> (out: Vec<
        Digest32,
    >)
        ensures
            out@ == lists::pick(
                ids_of(self.authors.rows()),
                owes_consent(self.sender.author_id, trusted@, readers@),
            ),
    {
        let me: Digest32 = self.me();
        let ghost p = owes_consent(me, trusted@, readers@);
        let ghost ids = ids_of(self.authors.rows());
        let mut out: Vec<Digest32> = Vec::new();
        let mut i: usize = 0;
        assert(ids.take(0) =~= Seq::empty());
        while i < self.authors.len()
            invariant
                i <= ids.len(),
                ids == ids_of(self.authors.rows()),
                me == self.sender.author_id,
                p == owes_consent(me, trusted@, readers@),
                out@ == lists::pick(ids.take(i as int), p),
            decreases ids.len() - i,
        {
            let a: Digest32 = self.authors.row(i).0;
            proof {
                assert(ids.take(i + 1).drop_last() =~= ids.take(i as int));
                assert(ids.take(i + 1).last() == a);
            }
            if !same_digest(&a, &me) && has_digest(trusted, &a) && !has_digest(readers, &a) {
                out.push(a);
            }
            i = i + 1;
        }
        assert(ids.take(ids.len() as int) =~= ids);
        out
    }

    /// The members this identity has consented to that do not hold its current
    /// generation yet. A consenter with no ledger row counts as owed.
    #[must_use]
    pub fn owed_rekeys(&self, readers: &Vec<Digest32>) -> (out: Vec<Digest32>)
        requires
            self.wf(),
        ensures
            out@ == lists::pick(readers@, owes_rekey(*self)),
    {
        let me: Digest32 = self.me();
        let current: u64 = self.sender.chain_id;
        let ghost p = owes_rekey(*self);
        let mut out: Vec<Digest32> = Vec::new();
        let mut i: usize = 0;
        assert(readers@.take(0) =~= Seq::empty());
        while i < readers.len()
            invariant
                i <= readers@.len(),
                self.wf(),
                me == self.sender.author_id,
                current == self.sender.chain_id,
                p == owes_rekey(*self),
                out@ == lists::pick(readers@.take(i as int), p),
            decreases readers@.len() - i,
        {
            let t: Digest32 = readers[i];
            proof {
                assert(readers@.take(i + 1).drop_last() =~= readers@.take(i as int));
                assert(readers@.take(i + 1).last() == t);
            }
            let behind: bool = match self.delivered.get(&t) {
                None => true,
                Some(d) => *d < current,
            };
            if !same_digest(&t, &me) && behind {
                out.push(t);
            }
            i = i + 1;
        }
        assert(readers@.take(readers@.len() as int) =~= readers@);
        out
    }

    /// Records that `target` was delivered generation `chain_id` of this identity's
    /// sender key, so that it is owed no longer. `None` where the ledger already says so.
    pub fn note_delivered(&mut self, target: Digest32, chain_id: u64) -> (r: Option<SegmentWrite>)
        requires
            old(self).wf(),
        ensures
            final(self).wf(),
            *final(self) == (ChannelState { delivered: final(self).delivered, ..*old(self) }),
            final(self).delivered.rows().len() == old(self).delivered.rows().len() + (
            if old(self).delivered.has(target@) {
                0int
            } else {
                1
            }),
            final(self).delivered.map() == old(self).delivered.map().insert(
                target@,
                if delivered_to(*old(self), target) >= chain_id {
                    delivered_to(*old(self), target)
                } else {
                    chain_id
                },
            ),
            match r {
                Some(w) => delivered_to(*old(self), target) < chain_id && writes_key_material(
                    w,
                    SEG_DELIVERED,
                    delivered_segment(final(self).delivered),
                ),
                None => delivered_to(*old(self), target) >= chain_id,
            },
    {
        let known: u64 = match self.delivered.get(&target) {
            Some(d) => *d,
            None => 0,
        };
        if known >= chain_id {
            self.delivered.insert(target, known);
            return None;
        }
        self.delivered.insert(target, chain_id);
        let bytes: Vec<u8> = delivered_bytes(&self.delivered);
        Some(key_material(SEG_DELIVERED, bytes))
    }

    /// Forgets that `target` holds this identity's current sender key, so that the next
    /// round delivers it again.
    pub fn forget_delivery(&mut self, target: &Digest32) -> (r: Option<SegmentWrite>)
        requires
            old(self).wf(),
        ensures
            final(self).wf(),
            *final(self) == (ChannelState { delivered: final(self).delivered, ..*old(self) }),
            final(self).delivered.map() == old(self).delivered.map().remove(target@),
            match r {
                Some(w) => old(self).delivered.has(target@) && writes_key_material(
                    w,
                    SEG_DELIVERED,
                    delivered_segment(final(self).delivered),
                ),
                None => !old(self).delivered.has(target@) && final(self).delivered.rows() == old(
                    self,
                ).delivered.rows(),
            },
    {
        if !self.delivered.remove(target) {
            return None;
        }
        let bytes: Vec<u8> = delivered_bytes(&self.delivered);
        Some(key_material(SEG_DELIVERED, bytes))
    }

    /// Notes a consent grant that is on the log: `target` holds the current generation.
    pub fn issue_consent(&mut self, target: Digest32) -> (w: SegmentWrite)
        requires
            old(self).wf(),
        ensures
            final(self).wf(),
            *final(self) == (ChannelState { delivered: final(self).delivered, ..*old(self) }),
            final(self).delivered.rows().len() == old(self).delivered.rows().len() + (
            if old(self).delivered.has(target@) {
                0int
            } else {
                1
            }),
            final(self).delivered.map() == old(self).delivered.map().insert(
                target@,
                old(self).sender.chain_id,
            ),
            writes_key_material(w, SEG_DELIVERED, delivered_segment(final(self).delivered)),
    {
        self.delivered.insert(target, self.sender.chain_id);
        let bytes: Vec<u8> = delivered_bytes(&self.delivered);
        key_material(SEG_DELIVERED, bytes)
    }

    /// Begins to revoke `target`'s consent. It must be another's, and have been given.
    /// The rotation comes first: the revocation names the generation that excludes
    /// `target`, so that generation has to exist before the fact is signed.
    pub fn revoke_consent(
        &mut self,
        target: &Digest32,
        readers: &Vec<Digest32>,
        next: Result<SenderChain, Error>,
        origin_state: Vec<u8>,
    ) -> (r: Result<Rotation, Error>)
        requires
            old(self).wf(),
            next matches Ok(n) ==> follows(n, old(self).sender),
        ensures
            final(self).wf(),
            match r {
                Ok(rotation) => {
                    &&& revoke_fault(*old(self), *target, readers@) is None
                    &&& rotate_fault(*old(self), next) is None
                    &&& rotating(
                        *final(self),
                        *old(self),
                        next->Ok_0,
                        origin_state@,
                        rotation,
                    )
                },
                Err(e) => *final(self) == *old(self) && state::or_fault(
                    revoke_fault(*old(self), *target, readers@),
                    rotate_fault(*old(self), next),
                ) == Some(e),
            },
    {
        if same_digest(target, &self.sender.author_id) {
            return Err(Error::MalformedGovernance("an identity cannot revoke its own consent"));
        }
        if !has_digest(readers, target) {
            return Err(Error::MalformedGovernance("no consent to revoke"));
        }
        self.rotate_sender(next, origin_state)
    }

    /// The generation this identity is sending under.
    #[must_use]
    pub fn sender_generation(&self) -> (n: u64)
        ensures
            n == self.sender.chain_id,
    {
        self.sender.chain_id
    }

    /// Whether the re-key of the current generation can be released at its origin, so
    /// that a member who kept consent reads the generation whole. Where the origin is
    /// not retained, the only release left is the current position.
    #[must_use]
    pub fn rekey_at_origin(&self) -> (r: bool)
        ensures
            r == self.origins.held@.contains(self.sender.chain_id),
    {
        let mut i: usize = 0;
        while i < self.origins.held.len()
            invariant
                i <= self.origins.held@.len(),
                forall|j: int| 0 <= j < i ==> self.origins.held@[j] != self.sender.chain_id,
            decreases self.origins.held@.len() - i,
        {
            if self.origins.held[i] == self.sender.chain_id {
                return true;
            }
            i = i + 1;
        }
        false
    }

    /// The release of this identity's sender key that a consent carries: at the current
    /// position, so that the recipient reads from here on and never what came before.
    pub fn skdm_for_consent(&self, signer: Result<(), Error>) -> (r: Result<Release, Error>)
        ensures
            r == (match signer {
                Ok(_) => Ok(
                    Release {
                        chain_id: self.sender.chain_id,
                        at: ReleaseAt::Position(self.sender.next_iteration),
                    },
                ),
                Err(e) => Err(e),
            }),
    {
        match signer {
            Ok(_) => Ok(
                Release {
                    chain_id: self.sender.chain_id,
                    at: ReleaseAt::Position(self.sender.next_iteration),
                },
            ),
            Err(e) => Err(e),
        }
    }

    /// The release that a re-key carries: the current generation at its origin, so that a
    /// member who was away while it was minted reads all of it. Where the origin is not
    /// retained, the only release left is the one that a consent carries.
    pub fn rekey_skdm(&self, signer: Result<(), Error>) -> (r: Result<Release, Error>)
        ensures
            r == (match signer {
                Ok(_) => Ok(
                    Release {
                        chain_id: self.sender.chain_id,
                        at: if self.origins.held@.contains(self.sender.chain_id) {
                            ReleaseAt::Origin
                        } else {
                            ReleaseAt::Position(self.sender.next_iteration)
                        },
                    },
                ),
                Err(e) => Err(e),
            }),
    {
        match signer {
            Ok(_) => {
                if self.rekey_at_origin() {
                    Ok(Release { chain_id: self.sender.chain_id, at: ReleaseAt::Origin })
                } else {
                    self.skdm_for_consent(Ok(()))
                }
            },
            Err(e) => Err(e),
        }
    }

    /// Prepares to send under the next generation, whose origin is retained now or
    /// never. The chain and the origins are written in one batch; the new chain is taken
    /// up with [`ChannelState::rotated`] once they are. `next` is the chain that the
    /// ratchet minted, `origin_state` the key store that retains its origin.
    pub fn rotate_sender(
        &mut self,
        next: Result<SenderChain, Error>,
        origin_state: Vec<u8>,
    ) -> (r: Result<Rotation, Error>)
        requires
            old(self).wf(),
            next matches Ok(n) ==> follows(n, old(self).sender),
        ensures
            final(self).wf(),
            match r {
                Ok(rotation) => rotate_fault(*old(self), next) is None && rotating(
                    *final(self),
                    *old(self),
                    next->Ok_0,
                    origin_state@,
                    rotation,
                ),
                Err(e) => *final(self) == *old(self) && rotate_fault(*old(self), next) == Some(e),
            },
    {
        self.sound()?;
        let next: SenderChain = next?;
        retain_generation(&mut self.origins, &next, origin_state)?;
        let mut writes: Vec<SegmentWrite> = Vec::new();
        writes.push(
            key_material(SEG_SENDER, vstd::slice::slice_to_vec(next.state.as_slice())),
        );
        writes.push(
            key_material(SEG_ORIGINS, vstd::slice::slice_to_vec(self.origins.state.as_slice())),
        );
        assert(state::writes_view(writes@) =~= rotation_writes(next, origin_state@));
        Ok(Rotation { next, writes })
    }

    /// Takes the next generation up once it was written. A write that failed poisons the
    /// channel, which then goes on holding the chain that the store holds.
    pub fn rotated(&mut self, next: SenderChain, written: Result<(), Error>) -> (r: Result<
        u64,
        Error,
    >)
        requires
            old(self).wf(),
            follows(next, old(self).sender),
            old(self).origins.held@.contains(next.chain_id),
        ensures
            final(self).wf(),
            match written {
                Ok(_) => r == Ok::<u64, Error>(next.chain_id) && *final(self) == (ChannelState {
                    sender: next,
                    ..*old(self)
                }),
                Err(e) => r == Err::<u64, Error>(e) && *final(self) == (ChannelState {
                    poisoned: true,
                    ..*old(self)
                }),
            },
    {
        self.persisted(written)?;
        let chain_id: u64 = next.chain_id;
        self.sender = next;
        Ok(chain_id)
    }

    /// Whether a grant may be issued: one with no capabilities is no grant.
    pub fn grant_capabilities(capabilities: &Vec<String>) -> (r: Result<(), Error>)
        ensures
            r == (if capabilities@.len() == 0 {
                Err::<(), Error>(Error::MalformedGovernance("a grant with no capabilities"))
            } else {
                Ok::<(), Error>(())
            }),
    {
        if capabilities.len() == 0 {
            return Err(Error::MalformedGovernance("a grant with no capabilities"));
        }
        Ok(())
    }

    /// Whether `member` can be excluded from the genesis service grant: there is one, and
    /// it is another's.
    pub fn exclude_from_service_grant(&self, member: &Digest32) -> (r: Result<(), Error>)
        ensures
            r == (if self.genesis.service_grant@.len() == 0 {
                Err::<(), Error>(
                    Error::MalformedGovernance(
                        "channel has no genesis service grant to exclude from",
                    ),
                )
            } else if *member == self.sender.author_id {
                Err::<(), Error>(
                    Error::MalformedGovernance(
                        "an identity cannot exclude itself from the service grant",
                    ),
                )
            } else {
                Ok::<(), Error>(())
            }),
    {
        if self.genesis.service_grant.len() == 0 {
            return Err(
                Error::MalformedGovernance("channel has no genesis service grant to exclude from"),
            );
        }
        if same_digest(member, &self.sender.author_id) {
            return Err(
                Error::MalformedGovernance(
                    "an identity cannot exclude itself from the service grant",
                ),
            );
        }
        Ok(())
    }
}

/// Whether a merge added neither a node nor an endpoint.
pub open spec fn anchors_unchanged(before: BootstrapSet, after: BootstrapSet) -> bool {
    before.nodes@.len() == after.nodes@.len() && bootstrap::endpoints_in(before.nodes@)
        == bootstrap::endpoints_in(after.nodes@)
}

/// The highest generation that the ledger says `target` holds; 0 where it says nothing.
pub open spec fn delivered_to(ch: ChannelState, target: Digest32) -> u64 {
    if ch.delivered.has(target@) {
        ch.delivered.map()[target@]
    } else {
        0
    }
}

/// Who is owed a first key release: another author, trusted, not consented to yet.
pub open spec fn owes_consent(
    me: Digest32,
    trusted: Seq<Digest32>,
    readers: Seq<Digest32>,
) -> spec_fn(Digest32) -> bool {
    |a: Digest32| a != me && trusted.contains(a) && !readers.contains(a)
}

/// Who is owed the current generation: another reader, whose ledger row is behind it or
/// missing.
pub open spec fn owes_rekey(ch: ChannelState) -> spec_fn(Digest32) -> bool {
    |t: Digest32|
        t != ch.sender.author_id && (!ch.delivered.has(t@) || ch.delivered.map()[t@]
            < ch.sender.chain_id)
}

} // verus!
