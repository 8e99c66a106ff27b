//! The state of an open channel.

use vstd::prelude::*;

use crate::api::Secret;
use crate::bootstrap::BootstrapSet;
use crate::cbor;
use crate::channel::kept;
use crate::channel::rest;
use crate::channel::segments::{
    self, authors_bytes, classify_payload, manifest_bytes, parse_authors, parse_cache,
    parse_delivered, parse_manifest, parse_receivers, parse_services, AuthorsRead, ChainSlot,
    EntryKind, Manifest, ReceiverChain, ReceiversRead, Rendered, ServicesRead, MAX_AUTHORS,
    MAX_LOCAL_NAME_LEN, MAX_RECEIVER_CHAINS, MAX_SERVICES, MAX_SERVICE_TAG_LEN, SEG_ADMISSION,
    SEG_AUTHORS, SEG_MANIFEST, SEG_ORIGINS, SEG_SENDER,
};
use crate::error::Error;
use crate::hash::{self, same_digest, Digest32};
use crate::identity::CompositePublicKey;
use crate::lists::{self, next_number};
use crate::table::{self, Key, Table};

verus! {

/// Which part of a channel a segment belongs to.
#[derive(Debug, Clone, Copy, PartialEq, Eq, Structural)]
pub enum SegmentKind {
    /// Keys and configuration.
    KeyMaterial,
    /// Log entries, in arrival order.
    LogDb,
    /// Rendered messages.
    PlaintextCache,
    /// What an anchor keeps of a channel beside its log.
    AnchorMeta,
    /// The log entries that an anchor keeps.
    AnchorLog,
}

/// A segment to be sealed and written.
#[derive(Debug, PartialEq, Eq)]
pub struct SegmentWrite {
    /// Its kind.
    pub kind: SegmentKind,
    /// Its number within the kind.
    pub id: u64,
    /// What it holds.
    pub bytes: Vec<u8>,
}

/// The record that makes a channel: what the rules read of it.
#[derive(Debug, PartialEq, Eq)]
pub struct Genesis {
    /// The record in wire form.
    pub wire: Vec<u8>,
    /// The hash of the record, which is the channel's identifier.
    pub channel_id: Digest32,
    /// The key of the creator, who signed it.
    pub creator: CompositePublicKey,
    /// The capabilities that it confers on every member.
    pub service_grant: Vec<String>,
}

impl Genesis {
    /// Whether both are one record.
    pub open spec fn is_same(&self, other: &Genesis) -> bool {
        &&& self.wire@ == other.wire@
        &&& self.channel_id == other.channel_id
        &&& self.creator.is_same(&other.creator)
        &&& self.service_grant@ == other.service_grant@
    }
}

/// This identity's own sender chain: what the rules read of it, and its state as a
/// blob.
#[derive(Debug, PartialEq, Eq)]
pub struct SenderChain {
    /// Whose chain it is.
    pub author_id: Digest32,
    /// The generation.
    pub chain_id: u64,
    /// How many messages were sent under it.
    pub next_iteration: u64,
    /// The serialised state.
    pub state: Vec<u8>,
}

/// The sender-key generations whose origin is retained, and the retained keys as a
/// blob.
#[derive(Debug, PartialEq, Eq)]
pub struct Origins {
    /// The generations.
    pub held: Vec<u64>,
    /// The serialised keys.
    pub state: Vec<u8>,
}

/// How a node came to be a member of a channel.
#[derive(Debug, PartialEq, Eq)]
pub enum Admission {
    /// The genesis names it as the creator.
    Creator,
    /// A member witnessed its join.
    Witnessed(JoinWitness),
}

/// A member's signed word that it verified a join.
#[derive(Debug, PartialEq, Eq)]
pub struct JoinWitness {
    /// Who signed.
    pub witness_id: Digest32,
    /// The witness in wire form.
    pub wire: Vec<u8>,
}

/// An accepted entry of the log: what the rules read of it.
#[derive(Debug, PartialEq, Eq)]
pub struct LogEntry {
    /// The channel it binds.
    pub channel_id: Digest32,
    /// The epoch it binds.
    pub epoch: u64,
    /// Its author.
    pub author_id: Digest32,
    /// Its place in the author's feed.
    pub seq: u64,
    /// Its hash.
    pub entry_hash: Digest32,
    /// What it carries, or `None` where that was pruned.
    pub payload: Option<Vec<u8>>,
    /// The entry in wire form.
    pub wire: Vec<u8>,
}

/// An open channel on this device.
#[derive(Debug)]
pub struct ChannelState {
    /// The channel.
    pub channel_id: Digest32,
    /// Its genesis.
    pub genesis: Genesis,
    /// This device's name for it.
    pub local_name: String,
    /// When it was created or joined here.
    pub created: u64,
    /// The current epoch.
    pub epoch: u64,
    /// The identities whose entries are accepted into the log.
    pub authors: Table<Digest32, CompositePublicKey>,
    /// The accepted entries, in arrival order.
    pub log: Vec<LogEntry>,
    /// The accepted governance entries, in arrival order.
    pub gov_entries: Vec<Digest32>,
    /// This identity's sender chain.
    pub sender: SenderChain,
    /// The retained origins of its generations.
    pub origins: Origins,
    /// The next log segment.
    pub next_log_id: u64,
    /// The rendered messages.
    pub timeline: Vec<Rendered>,
    /// The sender keys released to this identity.
    pub receivers: Table<ChainSlot, ReceiverChain>,
    /// The anchors this channel is published to.
    pub anchors: BootstrapSet,
    /// The services this node offers here: tag and local address.
    pub services: Table<String, String>,
    /// How this node came to be a member here.
    pub own_admission: Option<Admission>,
    /// The highest generation delivered to each target.
    pub delivered: Table<Digest32, u64>,
    /// The channel passphrase, held while the channel is open.
    pub passphrase: Secret,
    /// Whether a failed write has left memory ahead of the store.
    pub poisoned: bool,
}

/// Whether every author stands under the fingerprint of its own key.
pub open spec fn authors_own_names(authors: Map<Seq<u8>, CompositePublicKey>) -> bool {
    forall|k: Seq<u8>| #[trigger]
        authors.contains_key(k) ==> authors[k].fingerprint@ == k
}

/// Whether an entry with this hash is in the log.
pub open spec fn in_log(log: Seq<LogEntry>, h: Digest32) -> bool {
    exists|i: int| 0 <= i < log.len() && (#[trigger] log[i]).entry_hash == h
}

/// Whether nothing is shown that is not in the log.
pub open spec fn gated(timeline: Seq<Rendered>, log: Seq<LogEntry>) -> bool {
    forall|i: int|
        0 <= i < timeline.len() ==> in_log(log, (#[trigger] timeline[i]).entry_hash)
}

/// Whether every author's key is a whole one.
pub open spec fn keys_whole(authors: Map<Seq<u8>, CompositePublicKey>) -> bool {
    forall|k: Seq<u8>| #[trigger] authors.contains_key(k) ==> authors[k].wf()
}

/// Whether every entry of the log is by one of these authors.
pub open spec fn by_authors(
    log: Seq<LogEntry>,
    authors: Map<Seq<u8>, CompositePublicKey>,
) -> bool {
    forall|i: int| 0 <= i < log.len() ==> authors.contains_key((#[trigger] log[i]).author_id@)
}

/// Whether every receiver chain stands under the author and the generation that it carries.
pub open spec fn chains_named(receivers: Map<Seq<u8>, ReceiverChain>) -> bool {
    forall|k: Seq<u8>| #[trigger]
        receivers.contains_key(k) ==> receivers[k].slot().key_bytes() == k
}

/// Whether every service carries a tag that one may carry.
pub open spec fn tags_ok(services: Map<Seq<u8>, String>) -> bool {
    forall|k: Seq<u8>| #[trigger]
        services.contains_key(k) ==> 1 <= k.len() <= MAX_SERVICE_TAG_LEN
}

impl ChannelState {
    /// What every open channel keeps.
    pub open spec fn wf(&self) -> bool {
        &&& self.authors.wf()
        &&& self.receivers.wf()
        &&& self.services.wf()
        &&& self.delivered.wf()
        &&& local_name_ok(self.local_name@)
        // The creator is always an author, under the key that the genesis names.
        &&& self.authors.has(self.genesis.creator.fingerprint@)
        &&& self.authors.map()[self.genesis.creator.fingerprint@].is_same(&self.genesis.creator)
        &&& authors_own_names(self.authors.map())
        &&& keys_whole(self.authors.map())
        &&& by_authors(self.log@, self.authors.map())
        // Nothing is rendered but what the log holds.
        &&& gated(self.timeline@, self.log@)
        &&& self.receivers.rows().len() <= MAX_RECEIVER_CHAINS
        &&& chains_named(self.receivers.map())
        &&& self.services.rows().len() <= MAX_SERVICES
        &&& tags_ok(self.services.map())
        &&& self.genesis.channel_id == self.channel_id
    }
}

// ---- a new channel -----------------------------------------------------------

/// What a new channel is made of, beside its name and its passphrase: the genesis, this
/// identity's key and its freshly minted sender chain, with the origin key store that
/// retains the chain's origin.
#[derive(Debug)]
pub struct NewChannel {
    /// The genesis.
    pub genesis: Genesis,
    /// This identity's key.
    pub key: CompositePublicKey,
    /// The sender chain.
    pub sender: SenderChain,
    /// The origin key store that retains the chain's origin.
    pub origin_state: Vec<u8>,
}

/// Whether a local name is short enough.
pub open spec fn local_name_ok(name: Seq<char>) -> bool {
    vstd::utf8::encode_utf8(name).len() <= MAX_LOCAL_NAME_LEN
}

/// Retains a freshly minted generation's origin. The origin is the live chain key
/// exactly while nothing was sent under it, so a later position is an error.
pub fn retain_generation(origins: &mut Origins, sender: &SenderChain, state: Vec<u8>) -> (r: Result<
    (),
    Error,
>)
    ensures
        match r {
            Ok(_) => {
                &&& sender.next_iteration == 0
                &&& final(origins).held@ == old(origins).held@.push(sender.chain_id)
                &&& final(origins).state@ == state@
            },
            Err(e) => {
                &&& sender.next_iteration != 0
                &&& e == Error::MalformedBundle("origin retention past iteration 0")
                &&& *final(origins) == *old(origins)
            },
        },
{
    if sender.next_iteration != 0 {
        return Err(Error::MalformedBundle("origin retention past iteration 0"));
    }
    origins.held.push(sender.chain_id);
    origins.state = state;
    Ok(())
}

/// The segments that a new channel is written as, in one batch. `admission` is how this
/// node came to be a member, in wire form, where that is known already.
pub open spec fn birth_writes(
    authors: Seq<(Digest32, CompositePublicKey)>,
    genesis: Genesis,
    local_name: Seq<char>,
    now: u64,
    sender: SenderChain,
    origins: Origins,
    admission: Option<Seq<u8>>,
) -> Seq<(SegmentKind, u64, Seq<u8>)> {
    let base = seq![
        (
            SegmentKind::KeyMaterial,
            SEG_AUTHORS,
            cbor::enc(segments::authors_toks(segments::authors_view(authors))),
        ),
        (
            SegmentKind::KeyMaterial,
            SEG_MANIFEST,
            cbor::enc(segments::manifest_toks(genesis.wire@, local_name, now, 0)),
        ),
        (SegmentKind::KeyMaterial, SEG_SENDER, sender.state@),
        (SegmentKind::KeyMaterial, SEG_ORIGINS, origins.state@),
    ];
    match admission {
        Some(b) => base.push((SegmentKind::KeyMaterial, SEG_ADMISSION, b)),
        None => base,
    }
}

/// What a batch writes, by content.
pub open spec fn writes_view(writes: Seq<SegmentWrite>) -> Seq<(SegmentKind, u64, Seq<u8>)> {
    Seq::new(writes.len(), |i: int| (writes[i].kind, writes[i].id, writes[i].bytes@))
}

fn birth(
    new: NewChannel,
    authors: Table<Digest32, CompositePublicKey>,
    local_name: &str,
    passphrase: Secret,
    now: u64,
    own: Option<(Admission, Vec<u8>)>,
) -> (r: Result<(ChannelState, Vec<SegmentWrite>), Error>)
    requires
        local_name_ok(local_name@),
        authors.wf(),
        authors.has(new.genesis.creator.fingerprint@),
        authors.map()[new.genesis.creator.fingerprint@].is_same(&new.genesis.creator),
        authors_own_names(authors.map()),
        keys_whole(authors.map()),
    ensures
        match r {
            Ok((ch, writes)) => {
                &&& new.sender.next_iteration == 0
                &&& ch.wf()
                &&& ch.channel_id == new.genesis.channel_id
                &&& ch.genesis == new.genesis
                &&& ch.local_name@ == local_name@
                &&& ch.created == now
                &&& ch.epoch == 0
                &&& ch.authors == authors
                &&& ch.log@.len() == 0 && ch.gov_entries@.len() == 0 && ch.timeline@.len() == 0
                &&& ch.sender == new.sender
                &&& ch.origins.held@ == seq![new.sender.chain_id]
                &&& ch.origins.state@ == new.origin_state@
                &&& ch.next_log_id == 1
                &&& ch.receivers.map() == Map::<Seq<u8>, ReceiverChain>::empty()
                &&& ch.anchors.nodes@.len() == 0
                &&& ch.services.map() == Map::<Seq<u8>, String>::empty()
                &&& ch.services.rows().len() == 0 && ch.delivered.rows().len() == 0
                &&& ch.own_admission == (match own {
                    Some((a, _)) => Some(a),
                    None => None,
                })
                &&& ch.delivered.map() == Map::<Seq<u8>, u64>::empty()
                &&& ch.passphrase == passphrase
                &&& !ch.poisoned
                &&& writes_view(writes@) == birth_writes(
                    authors.rows(),
                    new.genesis,
                    local_name@,
                    now,
                    new.sender,
                    ch.origins,
                    match own {
                        Some((_, b)) => Some(b@),
                        None => None,
                    },
                )
            },
            Err(e) => new.sender.next_iteration != 0 && e == Error::MalformedBundle(
                "origin retention past iteration 0",
            ),
        },
{
    let mut origins: Origins = Origins { held: Vec::new(), state: Vec::new() };
    retain_generation(&mut origins, &new.sender, new.origin_state)?;
    let mut writes: Vec<SegmentWrite> = Vec::new();
    writes.push(
        SegmentWrite {
            kind: SegmentKind::KeyMaterial,
            id: SEG_AUTHORS,
            bytes: authors_bytes(&authors),
        },
    );
    writes.push(
        SegmentWrite {
            kind: SegmentKind::KeyMaterial,
            id: SEG_MANIFEST,
            bytes: manifest_bytes(new.genesis.wire.as_slice(), local_name, now, 0),
        },
    );
    writes.push(
        SegmentWrite {
            kind: SegmentKind::KeyMaterial,
            id: SEG_SENDER,
            bytes: vstd::slice::slice_to_vec(new.sender.state.as_slice()),
        },
    );
    writes.push(
        SegmentWrite {
            kind: SegmentKind::KeyMaterial,
            id: SEG_ORIGINS,
            bytes: vstd::slice::slice_to_vec(origins.state.as_slice()),
        },
    );
    let own_admission: Option<Admission> = match own {
        Some((a, b)) => {
            writes.push(
                SegmentWrite { kind: SegmentKind::KeyMaterial, id: SEG_ADMISSION, bytes: b },
            );
            Some(a)
        },
        None => None,
    };
    assert(writes_view(writes@) =~= birth_writes(
        authors.rows(),
        new.genesis,
        local_name@,
        now,
        new.sender,
        origins,
        match own {
            Some((_, b)) => Some(b@),
            None => None,
        },
    ));
    assert(origins.held@ =~= seq![new.sender.chain_id]);
    let ch: ChannelState = ChannelState {
        channel_id: new.genesis.channel_id,
        genesis: new.genesis,
        local_name: local_name.to_owned(),
        created: now,
        epoch: 0,
        authors,
        log: Vec::new(),
        gov_entries: Vec::new(),
        sender: new.sender,
        origins,
        next_log_id: 1,
        timeline: Vec::new(),
        receivers: Table::new(),
        anchors: BootstrapSet::new(),
        services: Table::new(),
        own_admission,
        delivered: Table::new(),
        passphrase,
        poisoned: false,
    };
    Ok((ch, writes))
}

impl ChannelState {
    /// Creates a channel on this device whose genesis confers its service grant on
    /// every member. The creator is the only author, and needs no witness; `admission` is
    /// the record that says so, in wire form.
    ///
    /// The result is the channel and the segments to be committed with its key wrap in
    /// one batch.
    pub fn create_with_grant(
        new: NewChannel,
        local_name: &str,
        passphrase: Secret,
        now_secs: u64,
        admission: Vec<u8>,
    ) -> (r: Result<(ChannelState, Vec<SegmentWrite>), Error>)
        requires
            new.key.wf(),
            new.genesis.creator.is_same(&new.key),
        ensures
            match r {
                Ok((ch, writes)) => {
                    &&& local_name_ok(local_name@)
                    &&& new.sender.next_iteration == 0
                    &&& ch.wf()
                    &&& ch.channel_id == new.genesis.channel_id
                    &&& ch.genesis == new.genesis
                    &&& ch.local_name@ == local_name@
                    &&& ch.created == now_secs && ch.epoch == 0 && ch.next_log_id == 1
                    &&& ch.authors.map() == Map::<Seq<u8>, CompositePublicKey>::empty().insert(
                        new.key.fingerprint@,
                        ch.authors.map()[new.key.fingerprint@],
                    )
                    &&& ch.authors.map()[new.key.fingerprint@].is_same(&new.key)
                    &&& ch.log@.len() == 0 && ch.gov_entries@.len() == 0 && ch.timeline@.len() == 0
                    &&& ch.sender == new.sender
                    &&& ch.origins.held@ == seq![new.sender.chain_id]
                    &&& ch.origins.state@ == new.origin_state@
                    &&& ch.receivers.map() == Map::<Seq<u8>, ReceiverChain>::empty()
                    &&& ch.anchors.nodes@.len() == 0
                    &&& ch.services.map() == Map::<Seq<u8>, String>::empty()
                    &&& ch.own_admission == Some(Admission::Creator)
                    &&& ch.delivered.map() == Map::<Seq<u8>, u64>::empty()
                    &&& ch.passphrase == passphrase
                    &&& !ch.poisoned
                    &&& writes_view(writes@) == birth_writes(
                        ch.authors.rows(),
                        new.genesis,
                        local_name@,
                        now_secs,
                        new.sender,
                        ch.origins,
                        Some(admission@),
                    )
                    &&& kept::newborn(ch, writes_view(writes@), Some(admission@))
                    &&& rest::fits(ch)
                },
                Err(e) => {
                    ||| !local_name_ok(local_name@) && e == Error::SizeLimitExceeded(
                        "channel local name",
                    )
                    ||| local_name_ok(local_name@) && new.sender.next_iteration != 0 && e
                        == Error::MalformedBundle("origin retention past iteration 0")
                },
            },
    {
        if local_name.as_bytes().len() > MAX_LOCAL_NAME_LEN {
            return Err(Error::SizeLimitExceeded("channel local name"));
        }
        let mut authors: Table<Digest32, CompositePublicKey> = Table::new();
        authors.insert(new.key.fingerprint, new.key.clone());
        birth(
            new,
            authors,
            local_name,
            passphrase,
            now_secs,
            Some((Admission::Creator, admission)),
        )
    }

    /// Creates the local state for a channel this identity joined rather than created.
    ///
    /// The genesis is accepted only if it verifies and its hash is the channel that was
    /// joined. The creator is an author at once, and so is this identity; every other
    /// member is admitted as its key arrives. The admission is recorded by the caller
    /// once it holds the witness.
    pub fn join_channel_with_profile(
        new: NewChannel,
        verified: Result<(), Error>,
        channel_id: &Digest32,
        known: bool,
        local_name: &str,
        passphrase: Secret,
        now_secs: u64,
    ) -> (r: Result<(ChannelState, Vec<SegmentWrite>), Error>)
        requires
            new.key.wf(),
            new.genesis.creator.wf(),
            // A fingerprint names one key.
            new.key.fingerprint == new.genesis.creator.fingerprint ==> new.key.is_same(
                &new.genesis.creator,
            ),
        ensures
            match r {
                Ok((ch, writes)) => {
                    &&& join_fault(new, verified, *channel_id, known, local_name@) is None
                    &&& ch.wf()
                    &&& ch.channel_id == *channel_id
                    &&& ch.genesis == new.genesis
                    &&& ch.local_name@ == local_name@
                    &&& ch.created == now_secs && ch.epoch == 0 && ch.next_log_id == 1
                    &&& forall|k: Seq<u8>| #[trigger]
                        ch.authors.map().contains_key(k) <==> k
                            == new.genesis.creator.fingerprint@ || k == new.key.fingerprint@
                    &&& ch.authors.map()[new.key.fingerprint@].is_same(&new.key)
                    &&& ch.authors.map()[new.genesis.creator.fingerprint@].is_same(
                        &new.genesis.creator,
                    )
                    &&& ch.log@.len() == 0 && ch.gov_entries@.len() == 0 && ch.timeline@.len() == 0
                    &&& ch.sender == new.sender
                    &&& ch.origins.held@ == seq![new.sender.chain_id]
                    &&& ch.origins.state@ == new.origin_state@
                    &&& ch.receivers.map() == Map::<Seq<u8>, ReceiverChain>::empty()
                    &&& ch.anchors.nodes@.len() == 0
                    &&& ch.services.map() == Map::<Seq<u8>, String>::empty()
                    &&& ch.own_admission is None
                    &&& ch.delivered.map() == Map::<Seq<u8>, u64>::empty()
                    &&& ch.passphrase == passphrase
                    &&& !ch.poisoned
                    &&& writes_view(writes@) == birth_writes(
                        ch.authors.rows(),
                        new.genesis,
                        local_name@,
                        now_secs,
                        new.sender,
                        ch.origins,
                        None,
                    )
                    &&& kept::newborn(ch, writes_view(writes@), None)
                    &&& rest::fits(ch)
                },
                Err(e) => join_fault(new, verified, *channel_id, known, local_name@) == Some(e),
            },
    {
        if local_name.as_bytes().len() > MAX_LOCAL_NAME_LEN {
            return Err(Error::SizeLimitExceeded("channel local name"));
        }
        verified?;
        if !same_digest(&new.genesis.channel_id, channel_id) {
            return Err(Error::MalformedGovernance("genesis hash is not the channelID joined with"));
        }
        if known {
            return Err(Error::Profile("this channel is already in the profile"));
        }
        let mut authors: Table<Digest32, CompositePublicKey> = Table::new();
        authors.insert(new.genesis.creator.fingerprint, new.genesis.creator.clone());
        authors.insert(new.key.fingerprint, new.key.clone());
        proof {
            hash::lemma_digest_ext(new.key.fingerprint, new.genesis.creator.fingerprint);
        }
        birth(new, authors, local_name, passphrase, now_secs, None)
    }
}

/// Why a joined channel is not taken up, or `None` where it is.
pub open spec fn join_fault(
    new: NewChannel,
    verified: Result<(), Error>,
    channel_id: Digest32,
    known: bool,
    local_name: Seq<char>,
) -> Option<Error> {
    if !local_name_ok(local_name) {
        Some(Error::SizeLimitExceeded("channel local name"))
    } else if verified is Err {
        Some(verified->Err_0)
    } else if new.genesis.channel_id != channel_id {
        Some(Error::MalformedGovernance("genesis hash is not the channelID joined with"))
    } else if known {
        Some(Error::Profile("this channel is already in the profile"))
    } else if new.sender.next_iteration != 0 {
        Some(Error::MalformedBundle("origin retention past iteration 0"))
    } else {
        None
    }
}

// ---- opening -----------------------------------------------------------------

/// A stored entry as it was found: its segment, what it decodes to, whether its payload
/// is a struct-tagged frame, whether it stands as a governance fact, and whether the
/// log accepts it.
#[derive(Debug)]
pub struct StoredEntry {
    /// The segment's number.
    pub id: u64,
    /// The entry.
    pub entry: Result<LogEntry, Error>,
    /// Whether its payload is a struct-tagged frame.
    pub framed: bool,
    /// Whether it stands as a governance fact.
    pub governance: Result<(), Error>,
    /// Whether the log's acceptance predicate holds of it.
    pub accepted: bool,
}

/// A row of the rendering cache as it was found.
#[derive(Debug)]
pub struct StoredRow {
    /// The segment's number.
    pub id: u64,
    /// The row.
    pub row: Result<Vec<u8>, Error>,
}

/// What the store and the vault gave for a channel, each piece as it was found.
#[derive(Debug)]
pub struct StoredChannel {
    /// Whether the identity is unlocked.
    pub signer: Result<(), Error>,
    /// Whether there is a key wrap.
    pub wrap: Result<bool, Error>,
    /// Whether both factors unwrapped the key.
    pub unlocked: Result<(), Error>,
    /// The manifest.
    pub manifest: Result<Option<Vec<u8>>, Error>,
    /// What the manifest's genesis decodes to.
    pub genesis: Result<Genesis, Error>,
    /// Whether the genesis verifies.
    pub verified: Result<(), Error>,
    /// The authors segment, with what its keys decode to.
    pub authors: Result<Option<(AuthorsRead, Vec<Result<CompositePublicKey, Error>>)>, Error>,
    /// The log.
    pub log: Result<Vec<StoredEntry>, Error>,
    /// The rendering cache.
    pub cache: Result<Vec<StoredRow>, Error>,
    /// The sender chain.
    pub sender: Result<Option<SenderChain>, Error>,
    /// The receiver chains, with what their states decode to.
    pub receivers: Result<Option<(ReceiversRead, Vec<Result<ReceiverChain, Error>>)>, Error>,
    /// The anchors.
    pub anchors: Result<Option<BootstrapSet>, Error>,
    /// The services, with what their addresses parse to.
    pub services: Result<Option<(ServicesRead, Vec<Option<String>>)>, Error>,
    /// This node's admission.
    pub admission: Result<Option<Admission>, Error>,
    /// The retained origins.
    pub origins: Result<Option<Origins>, Error>,
    /// The delivery ledger.
    pub delivered: Result<Option<Vec<u8>>, Error>,
    /// Whether the governance evaluator could be built.
    pub evaluator: Result<(), Error>,
}

impl StoredChannel {
    /// Whether every row that was read comes with what it decodes to, and every key is one.
    pub open spec fn complete(&self) -> bool {
        &&& self.genesis matches Ok(g) ==> g.creator.wf()
        &&& self.authors matches Ok(Some((read, decoded))) ==> {
            &&& read.wf()
            &&& decoded@.len() == read.rows@.len()
            &&& segments::keys_decoded(decoded@)
        }
        &&& self.receivers matches Ok(Some((read, decoded))) ==> read.wf() && decoded@.len()
            == read.rows@.len()
        &&& self.services matches Ok(Some((read, parsed))) ==> read.wf() && parsed@.len()
            == read.rows@.len()
    }

    /// The authors that the segment lists.
    pub open spec fn listed_authors(&self) -> Map<Seq<u8>, CompositePublicKey> {
        match self.authors {
            Ok(Some((read, decoded))) => table::map_of(
                segments::author_keys_of(read.rows@, decoded@),
            ),
            _ => Map::empty(),
        }
    }

    /// The authors of the channel: those listed, and the creator.
    pub open spec fn all_authors(&self) -> Map<Seq<u8>, CompositePublicKey> {
        self.listed_authors().insert(
            self.genesis->Ok_0.creator.fingerprint@,
            self.genesis->Ok_0.creator,
        )
    }
}

/// The error of a result, where it is one.
pub open spec fn fault_in<T>(r: Result<T, Error>) -> Option<Error> {
    match r {
        Ok(_) => None,
        Err(e) => Some(e),
    }
}

/// The first of two faults.
pub open spec fn or_fault(a: Option<Error>, b: Option<Error>) -> Option<Error> {
    match a {
        Some(e) => Some(e),
        None => b,
    }
}

/// A fault where `good` does not hold.
pub open spec fn unless(good: bool, e: Error) -> Option<Error> {
    if good {
        None
    } else {
        Some(e)
    }
}

/// The fault of a stored entry: it does not decode, its author is unknown, its payload
/// is of neither kind, it is no governance fact though it carries one, or the log does
/// not accept it. A pruned payload is no fault: the entry still verifies and still links
/// its feed.
pub open spec fn entry_fault(
    authors: Map<Seq<u8>, CompositePublicKey>,
    entries: Seq<StoredEntry>,
) -> spec_fn(int) -> Option<Error> {
    |i: int|
        {
            let s = entries[i];
            match s.entry {
                Err(e) => Some(e),
                Ok(entry) => if !authors.contains_key(entry.author_id@) {
                    Some(segments::at_rest("stored entry from unknown author"))
                } else {
                    match entry.payload {
                        None => unless(
                            s.accepted,
                            segments::at_rest("stored entry failed acceptance"),
                        ),
                        Some(p) => match segments::payload_kind(p@, s.framed) {
                            None => Some(
                                segments::at_rest(
                                    "entry payload is neither a group message nor a governance struct",
                                ),
                            ),
                            Some(EntryKind::Governance) => or_fault(
                                fault_in(s.governance),
                                unless(
                                    s.accepted,
                                    segments::at_rest("stored entry failed acceptance"),
                                ),
                            ),
                            Some(EntryKind::Content) => unless(
                                s.accepted,
                                segments::at_rest("stored entry failed acceptance"),
                            ),
                        },
                    }
                },
            }
        }
}

/// The entries, in order.
pub open spec fn entries_of(stored: Seq<StoredEntry>) -> Seq<LogEntry> {
    Seq::new(stored.len(), |i: int| stored[i].entry->Ok_0)
}

/// Whether a stored entry is a governance fact.
pub open spec fn is_governance(s: StoredEntry) -> bool {
    s.entry->Ok_0.payload is Some && segments::payload_kind(s.entry->Ok_0.payload->Some_0@, s.framed) == Some(
        EntryKind::Governance,
    )
}

/// The hashes of the governance entries, in order.
pub open spec fn governance_of(stored: Seq<StoredEntry>) -> Seq<Digest32>
    decreases stored.len(),
{
    if stored.len() == 0 {
        Seq::empty()
    } else if is_governance(stored.last()) {
        governance_of(stored.drop_last()).push(stored.last().entry->Ok_0.entry_hash)
    } else {
        governance_of(stored.drop_last())
    }
}

/// The first number, from 1 on, above all of these.
pub open spec fn above(ids: Seq<u64>) -> u64
    decreases ids.len(),
{
    if ids.len() == 0 {
        1
    } else {
        later(above(ids.drop_last()), lists::succ(ids.last()))
    }
}

/// The higher of two numbers.
pub open spec fn later(a: u64, b: u64) -> u64 {
    if a >= b {
        a
    } else {
        b
    }
}

/// The numbers of stored entries.
pub open spec fn ids_of(stored: Seq<StoredEntry>) -> Seq<u64> {
    Seq::new(stored.len(), |i: int| stored[i].id)
}

/// The numbers of stored rows.
pub open spec fn row_ids_of(stored: Seq<StoredRow>) -> Seq<u64> {
    Seq::new(stored.len(), |i: int| stored[i].id)
}

pub(crate) fn raised(next: u64, id: u64) -> (r: u64)
    ensures
        r == later(next, lists::succ(id)),
{
    let n: u64 = next_number(id);
    if next >= n {
        next
    } else {
        n
    }
}

fn load_log(stored: Vec<StoredEntry>, authors: &Table<Digest32, CompositePublicKey>) -> (r: Result<
    (Vec<LogEntry>, Vec<Digest32>, u64),
    Error,
>)
    requires
        authors.wf(),
    ensures
        match r {
            Ok((log, gov, next)) => {
                &&& segments::first_fault(
                    stored@.len(),
                    entry_fault(authors.map(), stored@),
                ) is None
                &&& log@ == entries_of(stored@)
                &&& by_authors(log@, authors.map())
                &&& gov@ == governance_of(stored@)
                &&& next == above(ids_of(stored@))
            },
            Err(e) => segments::first_fault(stored@.len(), entry_fault(authors.map(), stored@))
                == Some(e),
        },
{
    let ghost all = stored@;
    let ghost f = entry_fault(authors.map(), all);
    let n: usize = stored.len();
    let mut left = stored;
    let mut log: Vec<LogEntry> = Vec::new();
    let mut gov: Vec<Digest32> = Vec::new();
    let mut next: u64 = 1;
    let mut i: usize = 0;
    assert(all.skip(0) =~= all);
    assert(all.take(0) =~= Seq::empty());
    assert(ids_of(all).take(0) =~= Seq::empty());
    while i < n
        invariant
            i <= n == all.len(),
            all == stored@,
            authors.wf(),
            left@ == all.skip(i as int),
            f == entry_fault(authors.map(), all),
            segments::first_fault(i as nat, f) is None,
            log@ == entries_of(all).take(i as int),
            by_authors(log@, authors.map()),
            gov@ == governance_of(all.take(i as int)),
            next == above(ids_of(all).take(i as int)),
        decreases n - i,
    {
        let s: StoredEntry = left.remove(0);
        let ghost whole = s;
        proof {
            assert(s == all[i as int]);
            assert(left@ =~= all.skip(i + 1));
            assert(all.take(i + 1).drop_last() =~= all.take(i as int));
            assert(all.take(i + 1).last() == s);
            assert(ids_of(all).take(i + 1).drop_last() =~= ids_of(all).take(i as int));
            assert(ids_of(all).take(i + 1).last() == s.id);
        }
        let ghost fault = f(i as int);
        proof {
            if fault is Some {
                assert(segments::first_fault((i + 1) as nat, f) == fault);
                segments::lemma_first_fault((i + 1) as nat, n as nat, f);
            }
        }
        let entry: LogEntry = s.entry?;
        if !authors.contains_key(&entry.author_id) {
            return Err(Error::MalformedAtRest("stored entry from unknown author"));
        }
        let kind: EntryKind = match &entry.payload {
            None => EntryKind::Content,
            Some(p) => classify_payload(p.as_slice(), s.framed)?,
        };
        if kind == EntryKind::Governance {
            s.governance?;
        }
        if !s.accepted {
            return Err(Error::MalformedAtRest("stored entry failed acceptance"));
        }
        if kind == EntryKind::Governance {
            gov.push(entry.entry_hash);
        }
        next = raised(next, s.id);
        log.push(entry);
        assert(log@ =~= entries_of(all).take(i + 1));
        i = i + 1;
    }
    assert(all.take(all.len() as int) =~= all);
    assert(entries_of(all).take(all.len() as int) =~= entries_of(all));
    assert(ids_of(all).take(all.len() as int) =~= ids_of(all));
    Ok((log, gov, next))
}

/// The fault of a cache row: it did not open, or it does not parse.
pub open spec fn cached_fault(cache: Seq<StoredRow>) -> spec_fn(int) -> Option<Error> {
    |i: int|
        match cache[i].row {
            Err(e) => Some(e),
            Ok(b) => segments::cache_fault(b@),
        }
}

/// Whether `rows` are the renderings that the cache holds, in order.
pub open spec fn cached_rows(rows: Seq<Rendered>, cache: Seq<StoredRow>) -> bool {
    &&& rows.len() == cache.len()
    &&& forall|i: int|
        0 <= i < rows.len() ==> segments::cache_read(
            #[trigger] rows[i],
            cbor::toks_of(cache[i].row->Ok_0@),
        )
}

/// The rows whose entry is in the log, in order.
pub open spec fn in_log_rows(rows: Seq<Rendered>, log: Seq<LogEntry>) -> Seq<Rendered>
    decreases rows.len(),
{
    if rows.len() == 0 {
        Seq::empty()
    } else if in_log(log, rows.last().entry_hash) {
        in_log_rows(rows.drop_last(), log).push(rows.last())
    } else {
        in_log_rows(rows.drop_last(), log)
    }
}

/// Whether `timeline` is what the cache shows of the log.
pub open spec fn shows(
    timeline: Seq<Rendered>,
    cache: Seq<StoredRow>,
    log: Seq<LogEntry>,
) -> bool {
    exists|rows: Seq<Rendered>| #[trigger] cached_rows(rows, cache) && timeline == in_log_rows(rows, log)
}

/// Whether an entry with this hash is in the log.
pub fn log_contains(log: &Vec<LogEntry>, h: &Digest32) -> (r: bool)
    ensures
        r == in_log(log@, *h),
{
    let mut i: usize = 0;
    while i < log.len()
        invariant
            i <= log@.len(),
            forall|j: int| 0 <= j < i ==> (#[trigger] log@[j]).entry_hash != *h,
        decreases log@.len() - i,
    {
        if same_digest(&log[i].entry_hash, h) {
            return true;
        }
        i = i + 1;
    }
    false
}

/// The timeline, and the first number above `from` and above all rows.
fn load_timeline(cache: Vec<StoredRow>, log: &Vec<LogEntry>, from: u64) -> (r: Result<
    (Vec<Rendered>, u64),
    Error,
>)
    requires
        from >= 1,
    ensures
        match r {
            Ok((t, next)) => {
                &&& next == later(from, above(row_ids_of(cache@)))
                &&& segments::first_fault(cache@.len(), cached_fault(cache@)) is None
                &&& shows(t@, cache@, log@)
                &&& gated(t@, log@)
            },
            Err(e) => segments::first_fault(cache@.len(), cached_fault(cache@)) == Some(e),
        },
{
    let ghost all = cache@;
    let ghost f = cached_fault(all);
    let ghost mut rows: Seq<Rendered> = Seq::empty();
    let n: usize = cache.len();
    let mut left = cache;
    let mut t: Vec<Rendered> = Vec::new();
    let mut next: u64 = from;
    let mut i: usize = 0;
    assert(all.skip(0) =~= all);
    assert(row_ids_of(all).take(0) =~= Seq::empty());
    while i < n
        invariant
            i <= n == all.len(),
            all == cache@,
            from >= 1,
            next == later(from, above(row_ids_of(all).take(i as int))),
            left@ == all.skip(i as int),
            f == cached_fault(all),
            segments::first_fault(i as nat, f) is None,
            rows.len() == i,
            forall|j: int|
                0 <= j < i ==> segments::cache_read(
                    #[trigger] rows[j],
                    cbor::toks_of(all[j].row->Ok_0@),
                ),
            t@ == in_log_rows(rows, log@),
            gated(t@, log@),
        decreases n - i,
    {
        let one: StoredRow = left.remove(0);
        next = raised(next, one.id);
        proof {
            assert(one == all[i as int]);
            assert(row_ids_of(all).take(i + 1).drop_last() =~= row_ids_of(all).take(i as int));
            assert(row_ids_of(all).take(i + 1).last() == one.id);
            assert(left@ =~= all.skip(i + 1));
            if f(i as int) is Some {
                assert(segments::first_fault((i + 1) as nat, f) == f(i as int));
                segments::lemma_first_fault((i + 1) as nat, n as nat, f);
            }
        }
        let b: Vec<u8> = one.row?;
        let row: Rendered = parse_cache(b.as_slice())?;
        proof {
            assert(rows.push(row).drop_last() =~= rows);
            rows = rows.push(row);
        }
        if log_contains(log, &row.entry_hash) {
            t.push(row);
        }
        i = i + 1;
    }
    assert(cached_rows(rows, all));
    assert(row_ids_of(all).take(all.len() as int) =~= row_ids_of(all));
    Ok((t, next))
}

/// Why a channel does not open, or `None` where it does: the first fault in the order
/// in which the pieces are looked at.
pub open spec fn open_fault(s: StoredChannel, channel_id: Digest32) -> Option<Error> {
    let front = or_fault(
        fault_in(s.signer),
        or_fault(
            fault_in(s.wrap),
            or_fault(
                unless(s.wrap->Ok_0, Error::Profile("no such channel in this profile")),
                or_fault(
                    fault_in(s.unlocked),
                    or_fault(
                        fault_in(s.manifest),
                        unless(
                            s.manifest->Ok_0 is Some,
                            segments::at_rest("channel manifest missing"),
                        ),
                    ),
                ),
            ),
        ),
    );
    let bytes = s.manifest->Ok_0->Some_0@;
    let manifest = or_fault(
        segments::manifest_front(bytes).bad,
        or_fault(
            fault_in(s.genesis),
            or_fault(
                segments::manifest_fault(bytes),
                or_fault(
                    fault_in(s.verified),
                    unless(
                        s.genesis->Ok_0.channel_id == channel_id,
                        segments::at_rest("channel manifest genesis mismatch"),
                    ),
                ),
            ),
        ),
    );
    let authors = or_fault(
        fault_in(s.authors),
        match s.authors {
            Ok(Some((read, decoded))) => segments::rows_fault(
                read.rows@.len(),
                segments::author_fault(read.rows@, decoded@),
                read.fault,
            ),
            _ => None,
        },
    );
    let log = or_fault(
        fault_in(s.log),
        segments::first_fault(
            s.log->Ok_0@.len(),
            entry_fault(s.all_authors(), s.log->Ok_0@),
        ),
    );
    let cache = or_fault(
        fault_in(s.cache),
        segments::first_fault(s.cache->Ok_0@.len(), cached_fault(s.cache->Ok_0@)),
    );
    let sender = or_fault(
        fault_in(s.sender),
        unless(s.sender->Ok_0 is Some, segments::at_rest("sender chain missing")),
    );
    let receivers = or_fault(
        fault_in(s.receivers),
        match s.receivers {
            Ok(Some((read, decoded))) => segments::rows_fault(
                read.rows@.len(),
                segments::receiver_fault(decoded@),
                read.fault,
            ),
            _ => None,
        },
    );
    let services = or_fault(
        fault_in(s.services),
        match s.services {
            Ok(Some((read, parsed))) => segments::rows_fault(
                read.rows@.len(),
                segments::service_fault(read.rows@, parsed@),
                read.fault,
            ),
            _ => None,
        },
    );
    let delivered = or_fault(
        fault_in(s.delivered),
        match s.delivered {
            Ok(Some(b)) => segments::delivered_fault(b@),
            _ => None,
        },
    );
    let back = or_fault(
        fault_in(s.admission),
        or_fault(fault_in(s.origins), or_fault(delivered, fault_in(s.evaluator))),
    );
    or_fault(
        front,
        or_fault(
            manifest,
            or_fault(
                authors,
                or_fault(
                    log,
                    or_fault(
                        cache,
                        or_fault(
                            sender,
                            or_fault(
                                receivers,
                                or_fault(fault_in(s.anchors), or_fault(services, back)),
                            ),
                        ),
                    ),
                ),
            ),
        ),
    )
}

/// Whether `ch` is the channel that the stored pieces spell out.
pub open spec fn opened(
    ch: ChannelState,
    s: StoredChannel,
    channel_id: Digest32,
    passphrase: Secret,
) -> bool {
    &&& ch.channel_id == channel_id
    &&& ch.genesis == s.genesis->Ok_0
    &&& cbor::toks_of(s.manifest->Ok_0->Some_0@)[3] == cbor::Tok::Text(ch.local_name@)
    &&& cbor::toks_of(s.manifest->Ok_0->Some_0@)[4] == cbor::Tok::Uint(ch.created)
    &&& cbor::toks_of(s.manifest->Ok_0->Some_0@)[5] == cbor::Tok::Uint(ch.epoch)
    // The creator signed the genesis, so no segment can leave it out.
    &&& forall|k: Seq<u8>| #[trigger]
        ch.authors.map().contains_key(k) <==> s.all_authors().contains_key(k)
    &&& forall|k: Seq<u8>| #[trigger]
        ch.authors.map().contains_key(k) ==> ch.authors.map()[k].is_same(&s.all_authors()[k])
    &&& ch.log@ == entries_of(s.log->Ok_0@)
    &&& ch.gov_entries@ == governance_of(s.log->Ok_0@)
    // A fresh number is above every entry and every row.
    &&& ch.next_log_id == later(
        above(ids_of(s.log->Ok_0@)),
        above(row_ids_of(s.cache->Ok_0@)),
    )
    &&& shows(ch.timeline@, s.cache->Ok_0@, ch.log@)
    &&& ch.sender == s.sender->Ok_0->Some_0
    &&& match s.receivers->Ok_0 {
        Some((read, decoded)) => ch.receivers.map() == table::map_of(
            segments::receivers_of(decoded@),
        ),
        None => ch.receivers.map() == Map::<Seq<u8>, ReceiverChain>::empty(),
    }
    &&& match s.anchors->Ok_0 {
        Some(a) => ch.anchors == a,
        None => ch.anchors.nodes@.len() == 0,
    }
    &&& match s.services->Ok_0 {
        Some((read, parsed)) => ch.services.map() == table::map_of(
            segments::services_of(read.rows@, parsed@),
        ),
        None => ch.services.map() == Map::<Seq<u8>, String>::empty(),
    }
    &&& ch.own_admission == s.admission->Ok_0
    &&& match s.origins->Ok_0 {
        Some(o) => ch.origins == o,
        None => ch.origins.held@.len() == 0 && ch.origins.state@.len() == 0,
    }
    &&& match s.delivered->Ok_0 {
        Some(b) => segments::delivered_read(ch.delivered.map(), cbor::toks_of(b@)),
        None => ch.delivered.map() == Map::<Seq<u8>, u64>::empty(),
    }
    &&& ch.passphrase == passphrase
    &&& !ch.poisoned
}

pub(crate) proof fn lemma_listed_own_names(
    rows: Seq<(Digest32, Vec<u8>)>,
    decoded: Seq<Result<CompositePublicKey, Error>>,
    n: nat,
)
    requires
        rows.len() == decoded.len(),
        n <= rows.len(),
        segments::first_fault(rows.len(), segments::author_fault(rows, decoded)) is None,
    ensures
        authors_own_names(
            table::map_of(segments::author_keys_of(rows, decoded).take(n as int)),
        ),
    decreases n,
{
    let keys = segments::author_keys_of(rows, decoded);
    if n == 0 {
        assert(keys.take(0) =~= Seq::empty());
    } else {
        lemma_listed_own_names(rows, decoded, (n - 1) as nat);
        assert(keys.take(n as int).drop_last() =~= keys.take(n - 1));
        lemma_no_fault(rows.len(), n - 1, segments::author_fault(rows, decoded));
        assert(segments::author_fault(rows, decoded)(n - 1) is None);
    }
}

/// Where no row has a fault, none has.
pub proof fn lemma_no_fault(n: nat, i: int, f: spec_fn(int) -> Option<Error>)
    requires
        0 <= i < n,
        segments::first_fault(n, f) is None,
    ensures
        f(i) is None,
    decreases n,
{
    if i < n - 1 {
        lemma_no_fault((n - 1) as nat, i, f);
    }
}

impl ChannelState {
    /// Opens a channel from what the store and the vault gave for it.
    ///
    /// The store is a cache of verified entries and is never trusted as such: every
    /// stored entry passes the acceptance predicate again, and a cached rendering is
    /// shown only if its entry is in the log that results.
    #[verifier::rlimit(60)]
    pub fn open(stored: StoredChannel, channel_id: &Digest32, passphrase: Secret) -> (r: Result<
        ChannelState,
        Error,
    >)
        requires
            stored.complete(),
        ensures
            match r {
                Ok(ch) => {
                    &&& open_fault(stored, *channel_id) is None
                    &&& ch.wf()
                    &&& opened(ch, stored, *channel_id, passphrase)
                    &&& ch.delivered.rows().len() <= MAX_AUTHORS
                    // Only a segment that leaves the creator out can list one author more.
                    &&& stored.listed_authors().contains_key(ch.genesis.creator.fingerprint@)
                        ==> ch.authors.rows().len() <= MAX_AUTHORS
                },
                Err(e) => open_fault(stored, *channel_id) == Some(e),
            },
    {
        stored.signer?;
        if !stored.wrap? {
            return Err(Error::Profile("no such channel in this profile"));
        }
        stored.unlocked?;
        let bytes: Vec<u8> = match stored.manifest? {
            Some(b) => b,
            None => {
                return Err(Error::MalformedAtRest("channel manifest missing"));
            },
        };
        segments::manifest_genesis(bytes.as_slice())?;
        let genesis: Genesis = stored.genesis?;
        let manifest: Manifest = parse_manifest(bytes.as_slice())?;
        stored.verified?;
        if !same_digest(&genesis.channel_id, channel_id) {
            return Err(Error::MalformedAtRest("channel manifest genesis mismatch"));
        }
        let mut authors: Table<Digest32, CompositePublicKey> = match stored.authors? {
            Some((read, decoded)) => {
                let ghost rows = read.rows@;
                let ghost keys = decoded@;
                let t: Table<Digest32, CompositePublicKey> = parse_authors(read, decoded)?;
                proof {
                    lemma_listed_own_names(rows, keys, rows.len());
                    let all = segments::author_keys_of(rows, keys);
                    assert(all.take(rows.len() as int) =~= all);
                }
                t
            },
            None => Table::new(),
        };
        // The creator signed the genesis whose hash is the channel, so it cannot be left
        // out by a tampered segment.
        let ghost listed = authors.map();
        assert(listed == stored.listed_authors());
        assert(authors_own_names(listed));
        let creator: CompositePublicKey = genesis.creator.clone();
        authors.insert(genesis.creator.fingerprint, creator);
        assert(keys_whole(authors.map()));
        let (log, gov_entries, past_log) = {
            let l: Vec<StoredEntry> = stored.log?;
            proof {
                lemma_entry_fault_same(
                    authors.map(),
                    stored.all_authors(),
                    l@,
                    l@.len(),
                );
            }
            load_log(l, &authors)?
        };
        proof {
            lemma_above(ids_of(stored.log->Ok_0@));
        }
        let (timeline, next_log_id) = load_timeline(stored.cache?, &log, past_log)?;
        let sender: SenderChain = match stored.sender? {
            Some(s) => s,
            None => {
                return Err(Error::MalformedAtRest("sender chain missing"));
            },
        };
        let receivers: Table<ChainSlot, ReceiverChain> = match stored.receivers? {
            Some((read, decoded)) => parse_receivers(read, decoded)?,
            None => Table::new(),
        };
        let anchors: BootstrapSet = match stored.anchors? {
            Some(a) => a,
            None => BootstrapSet::new(),
        };
        let services: Table<String, String> = match stored.services? {
            Some((read, parsed)) => parse_services(read, parsed)?,
            None => Table::new(),
        };
        let own_admission: Option<Admission> = stored.admission?;
        let origins: Origins = match stored.origins? {
            Some(o) => o,
            None => Origins { held: Vec::new(), state: Vec::new() },
        };
        let delivered: Table<Digest32, u64> = match stored.delivered? {
            Some(b) => parse_delivered(b.as_slice())?,
            None => Table::new(),
        };
        stored.evaluator?;
        Ok(
            ChannelState {
                channel_id: *channel_id,
                genesis,
                local_name: manifest.local_name,
                created: manifest.created,
                epoch: manifest.epoch,
                authors,
                log,
                gov_entries,
                sender,
                origins,
                next_log_id,
                timeline,
                receivers,
                anchors,
                services,
                own_admission,
                delivered,
                passphrase,
                poisoned: false,
            },
        )
    }
}

/// Numbers begin at 1.
pub proof fn lemma_above(ids: Seq<u64>)
    ensures
        above(ids) >= 1,
    decreases ids.len(),
{
    if ids.len() > 0 {
        lemma_above(ids.drop_last());
    }
}

proof fn lemma_entry_fault_same(
    a: Map<Seq<u8>, CompositePublicKey>,
    b: Map<Seq<u8>, CompositePublicKey>,
    entries: Seq<StoredEntry>,
    n: nat,
)
    requires
        a.dom() == b.dom(),
        n <= entries.len(),
    ensures
        segments::first_fault(n, entry_fault(a, entries)) == segments::first_fault(
            n,
            entry_fault(b, entries),
        ),
    decreases n,
{
    if n > 0 {
        lemma_entry_fault_same(a, b, entries, (n - 1) as nat);
        let k = entries[n - 1].entry->Ok_0.author_id@;
        assert(a.dom().contains(k) == b.dom().contains(k));
        assert(entry_fault(a, entries)(n - 1) == entry_fault(b, entries)(n - 1));
    }
}

} // verus!
