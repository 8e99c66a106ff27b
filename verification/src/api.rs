//! The node's typed boundary: the only types that cross between the node and a
//! client.
//!
//! They carry public facts and already-rendered text only: fingerprints, names,
//! timestamps, decrypted message bodies and enum state, never a key or a
//! passphrase. The one secret-bearing input is a [`Secret`]. Outcomes are a
//! closed enum with no free text.
//!
//! Socket addresses are carried in their text form, `ip:port`.

use vstd::prelude::*;

use crate::hash::Digest32;

verus! {

/// A secret input: passphrase bytes that are wiped when they are done with.
#[derive(Debug)]
pub struct Secret {
    bytes: Vec<u8>,
}

impl View for Secret {
    type V = Seq<u8>;

    closed spec fn view(&self) -> Seq<u8> {
        self.bytes@
    }
}

/// `zeroize::Zeroize::zeroize` on a `Vec<u8>`: the bytes are overwritten and the
/// vector is left empty. That the memory itself was overwritten is not stated.
#[verifier::external_body]
fn zeroize_bytes(v: &mut Vec<u8>)
    ensures
        final(v)@ == Seq::<u8>::empty(),
{
    zeroize::Zeroize::zeroize(v)
}

impl Secret {
    /// Takes hold of secret bytes.
    pub fn new(bytes: Vec<u8>) -> (s: Secret)
        ensures
            s@ == bytes@,
    {
        Secret { bytes }
    }

    /// The secret bytes.
    pub fn as_slice(&self) -> (b: &[u8])
        ensures
            b@ == self@,
    {
        self.bytes.as_slice()
    }

    /// Whether there is nothing left of the secret.
    pub fn is_empty(&self) -> (r: bool)
        ensures
            r == (self@.len() == 0),
    {
        self.bytes.len() == 0
    }

    /// Wipes the secret.
    pub fn wipe(&mut self)
        ensures
            final(self)@ == Seq::<u8>::empty(),
    {
        zeroize_bytes(&mut self.bytes);
    }
}

/// Public facts about the profile's identity (available while locked).
#[derive(Debug, Clone, Copy, PartialEq, Eq)]
pub struct IdentityInfo {
    /// The composite-identity fingerprint.
    pub fingerprint: Digest32,
    /// Creation time (seconds since the Unix epoch).
    pub created: u64,
}

/// A channel known to this profile.
#[derive(Debug, PartialEq, Eq)]
pub struct ChannelSummary {
    /// The channel.
    pub channel_id: Digest32,
    /// The local name, known only while the channel is open.
    pub local_name: Option<String>,
    /// Whether the channel is open in this session.
    pub open: bool,
    /// Number of accepted log entries (0 while closed).
    pub entries: u64,
}

/// A rendered message.
#[derive(Debug, PartialEq, Eq)]
pub struct MessageRow {
    /// The entry hash.
    pub entry_hash: Digest32,
    /// The author's fingerprint.
    pub author: Digest32,
    /// The author's recorded send time, milliseconds since the Unix epoch.
    pub created_millis: u64,
    /// The text.
    pub text: String,
    /// When this node rendered the row, as a position in its own arrival order.
    pub arrival: u64,
    /// Whether the row arrived after rows that stand below it.
    pub late: bool,
}

impl MessageRow {
    /// Whether two rows are alike.
    pub open spec fn is_same(&self, other: &MessageRow) -> bool {
        &&& self.entry_hash == other.entry_hash
        &&& self.author == other.author
        &&& self.created_millis == other.created_millis
        &&& self.text@ == other.text@
        &&& self.arrival == other.arrival
        &&& self.late == other.late
    }
}

impl Clone for MessageRow {
    fn clone(&self) -> (r: MessageRow)
        ensures
            r == *self,
    {
        MessageRow {
            entry_hash: self.entry_hash,
            author: self.author,
            created_millis: self.created_millis,
            text: self.text.clone(),
            arrival: self.arrival,
            late: self.late,
        }
    }
}

/// An open channel's full state for display.
#[derive(Debug, PartialEq, Eq)]
pub struct ChannelDetail {
    /// The channel.
    pub channel_id: Digest32,
    /// The local name.
    pub local_name: String,
    /// The current epoch.
    pub epoch: u64,
    /// Members, in fingerprint order.
    pub members: Vec<Digest32>,
    /// The timeline, in the room's order.
    pub timeline: Vec<MessageRow>,
    /// Every entry held for the room, readable or not, in the room's order: the
    /// entry hash and its clock in milliseconds.
    pub order: Vec<(Digest32, u64)>,
    /// The services this node offers in this channel: tag and local address, in
    /// tag order.
    pub services: Vec<(String, String)>,
}

/// A live local port forwarded to a member's service.
#[derive(Debug, PartialEq, Eq)]
pub struct ForwardInfo {
    /// The channel the capability is claimed under.
    pub channel_id: Digest32,
    /// The member hosting the service.
    pub host: Digest32,
    /// The service tag.
    pub service_tag: String,
    /// The local address accepting connections.
    pub local: String,
}

/// A channel this node's board serves.
#[derive(Debug, Clone, Copy, PartialEq, Eq)]
pub struct AnchoredChannel {
    /// The channel.
    pub channel_id: Digest32,
    /// Members the board knows by a live record.
    pub members: usize,
    /// Joiners with a live pre-join announcement.
    pub pending: usize,
    /// Entries in the ciphertext copy of the log this node keeps for the channel,
    /// or `None` when it keeps none.
    pub entries: Option<u64>,
}

/// The node's latest view of itself.
#[derive(Debug, PartialEq, Eq)]
pub struct NodeView {
    /// The profile's identity, or `None` before one is created.
    pub identity: Option<IdentityInfo>,
    /// Whether the identity is locked.
    pub locked: bool,
    /// Whether the key of every open channel is locked in memory (`true` when none
    /// are open).
    pub mlock_active: bool,
    /// The endpoints this node is listening on, in text form.
    pub listening: Vec<String>,
    /// Every channel in the profile, in channel order.
    pub channels: Vec<ChannelSummary>,
    /// The open channels' detail, in channel order.
    pub open_channels: Vec<ChannelDetail>,
    /// The live forwards, in bound-address order.
    pub forwards: Vec<ForwardInfo>,
    /// Every channel this node's board holds a genesis for, in channel order.
    pub anchoring: Vec<AnchoredChannel>,
    /// The trust keyring: fingerprint and petname, in fingerprint order.
    pub trusted: Vec<(Digest32, String)>,
    /// The peers reached through a relay, in fingerprint order.
    pub relayed_peers: Vec<Digest32>,
    /// How many circuits this node carries for others.
    pub relaying: usize,
}

/// A command from a client to the node.
#[derive(Debug)]
pub enum NodeCommand {
    /// Create the profile's identity.
    CreateIdentity {
        /// The identity passphrase.
        passphrase: Secret,
    },
    /// Unlock the identity.
    Unlock {
        /// The identity passphrase.
        passphrase: Secret,
    },
    /// Check an identity passphrase, and change nothing.
    VerifyPassphrase {
        /// The identity passphrase.
        passphrase: Secret,
    },
    /// Drop the identity's signer and every open channel's key.
    Lock,
    /// Create a channel.
    CreateChannel {
        /// The local name.
        local_name: String,
        /// The channel passphrase.
        passphrase: Secret,
    },
    /// Open a channel.
    OpenChannel {
        /// The channel.
        channel_id: Digest32,
        /// The channel passphrase.
        passphrase: Secret,
    },
    /// Close an open channel.
    CloseChannel {
        /// The channel.
        channel_id: Digest32,
    },
    /// Author a text message in an open channel.
    SendText {
        /// The channel.
        channel_id: Digest32,
        /// The text.
        text: String,
    },
    /// Produce an invite link for a channel this node holds open.
    Invite {
        /// The channel to invite to.
        channel_id: Digest32,
    },
    /// Join a channel from an invite link.
    JoinChannel {
        /// The link.
        link: String,
        /// The local name to give the channel.
        local_name: String,
        /// The channel passphrase, which the link never carries.
        passphrase: Secret,
    },
    /// Consent to `target` reading this identity's messages in a channel.
    Consent {
        /// The channel.
        channel_id: Digest32,
        /// The member being consented to.
        target: Digest32,
    },
    /// Revoke `target`'s consent to read this identity's messages in a channel.
    Revoke {
        /// The channel.
        channel_id: Digest32,
        /// The member whose consent is withdrawn.
        target: Digest32,
    },
    /// Trust an identity node-wide.
    Trust {
        /// Who to trust.
        fingerprint: Digest32,
        /// The petname to file it under.
        petname: String,
    },
    /// Stop trusting an identity.
    Untrust {
        /// Who to stop trusting.
        fingerprint: Digest32,
    },
    /// Set how long a room's message bodies are kept.
    SetRetention {
        /// The room.
        channel_id: Digest32,
        /// Seconds a message body is kept; `0` keeps it forever.
        ttl: u64,
    },
    /// Create a service room and offer one local service in it, in one act.
    Serve {
        /// The local name for the room.
        local_name: String,
        /// The room passphrase.
        passphrase: Secret,
        /// The service's port, which is also its tag.
        port: u16,
        /// The local endpoint to carry connections to; the same port on loopback
        /// where there is none.
        at: Option<String>,
    },
    /// Bring up the local entry point for a room's services.
    Up {
        /// The room whose services this proxy carries.
        channel_id: Digest32,
        /// Where to listen.
        bind: String,
    },
    /// Offer a local service to a channel.
    AddService {
        /// The channel the service is offered in.
        channel_id: Digest32,
        /// The service tag peers dial.
        service_tag: String,
        /// The local address the service listens on.
        local: String,
    },
    /// Stop offering a service.
    RemoveService {
        /// The channel.
        channel_id: Digest32,
        /// The service tag.
        service_tag: String,
    },
    /// Grant a member the capability to dial, and optionally to offer, a service.
    GrantTunnel {
        /// The channel.
        channel_id: Digest32,
        /// The member being granted.
        target: Digest32,
        /// The service tag.
        service_tag: String,
        /// Also grant offering the service.
        may_bind: bool,
        /// When the grant stops counting (unix seconds).
        expiry: u64,
    },
    /// Forward a local port to a member's service over the overlay.
    Forward {
        /// The channel whose capability this claims.
        channel_id: Digest32,
        /// The member hosting the service.
        host: Digest32,
        /// The service tag to reach.
        service_tag: String,
        /// Where to listen locally.
        local: String,
    },
    /// Stop a forward and release its port.
    StopForward {
        /// The local address the forward is listening on.
        local: String,
    },
    /// Reconcile a channel's log with the members this node can reach.
    Sync {
        /// The channel.
        channel_id: Digest32,
    },
    /// Stop the node (locks first).
    Shutdown,
}

/// Why a command did not succeed: closed, machine-stable, free of detail.
#[derive(Debug, Clone, Copy, PartialEq, Eq, Structural)]
#[non_exhaustive]
pub enum Fault {
    /// The profile has no identity yet.
    NoIdentity,
    /// The profile already has an identity.
    IdentityExists,
    /// The identity is locked.
    Locked,
    /// Wrong passphrase, or a tampered vault or wrap.
    WrongPassphrase,
    /// No such channel in this profile.
    UnknownChannel,
    /// The channel is not open.
    ChannelNotOpen,
    /// An input exceeded its bound.
    TooLong,
    /// The store failed; the channel may be poisoned until reopened.
    Storage,
    /// The node is shutting down.
    ShuttingDown,
    /// This node is not networked, or is locked, so it cannot reach anyone.
    NotNetworked,
    /// An invite link would not parse, or named something this node cannot use.
    BadLink,
    /// A peer could not be reached.
    Unreachable,
    /// The remote refused.
    Refused,
    /// There is no consent to withdraw.
    NotConsented,
    /// The identity is in the trust keyring, so a revocation in one room would not
    /// hold.
    StillTrusted,
    /// A forward may only be bound on loopback.
    NotLoopback,
    /// An internal invariant failed.
    Internal,
}

/// The result of a command.
#[derive(Debug, Clone, Copy, PartialEq, Eq, Structural)]
pub enum Outcome {
    /// The command succeeded.
    Done,
    /// The command failed for the given reason.
    Failed(Fault),
}

impl Outcome {
    /// Whether the command succeeded.
    #[must_use]
    pub fn is_done(self) -> (r: bool)
        ensures
            r == (self is Done),
    {
        matches!(self, Outcome::Done)
    }
}

/// An ordered node to client event.
#[derive(Debug, PartialEq, Eq)]
#[non_exhaustive]
pub enum NodeEvent {
    /// A new rendered entry in a channel.
    NewEntry {
        /// The channel.
        channel_id: Digest32,
        /// The rendered entry.
        row: MessageRow,
    },
    /// The identity was unlocked.
    Unlocked,
    /// The identity (and every open channel) was locked.
    Locked,
    /// A channel was opened.
    ChannelOpened {
        /// The channel.
        channel_id: Digest32,
    },
    /// A channel was closed.
    ChannelClosed {
        /// The channel.
        channel_id: Digest32,
    },
    /// A peer completed a join against this node.
    PeerJoined {
        /// The channel joined.
        channel_id: Digest32,
        /// The joiner's verified fingerprint.
        peer: Digest32,
    },
    /// A peer's sender key was offered and not taken.
    KeyNotTaken {
        /// The channel.
        channel_id: Digest32,
        /// The peer.
        peer: Digest32,
        /// Why not.
        why: String,
    },
    /// A peer's sender key arrived, so that peer's messages become readable.
    SenderKeyReceived {
        /// The channel.
        channel_id: Digest32,
        /// The author who released the key.
        peer: Digest32,
        /// How many already-stored messages became readable.
        backfilled: u64,
    },
    /// A forward is live.
    Forwarding {
        /// The channel the capability is claimed under.
        channel_id: Digest32,
        /// The member hosting the service.
        host: Digest32,
        /// The service tag.
        service_tag: String,
        /// The local address actually bound.
        local: String,
    },
    /// The node was held up.
    Stalled {
        /// What held it up.
        what: String,
        /// For how long, in milliseconds.
        millis: u64,
    },
    /// A board refused one of this node's records.
    PublishRefused {
        /// The channel.
        channel_id: Digest32,
        /// Which record.
        what: String,
        /// Why.
        why: String,
    },
    /// A join failed.
    JoinFailed {
        /// Why.
        reason: String,
    },
    /// Where a join's time went.
    JoinSteps {
        /// Whether the join succeeded.
        joined: bool,
        /// The steps, in words.
        steps: String,
    },
    /// A peer is still reached over a relay.
    StillRelayed {
        /// The peer.
        peer: Digest32,
        /// Why no direct path landed.
        reason: String,
    },
    /// The local entry point refused a connection.
    ProxyRefused {
        /// Why.
        reason: String,
    },
    /// A peer could not be reached.
    PeerUnreachable {
        /// The peer.
        peer: Digest32,
        /// Why.
        why: String,
    },
    /// Reach of a service was withdrawn while it was in use.
    ReachWithdrawn {
        /// The room.
        channel_id: Digest32,
        /// The service's port.
        port: u16,
    },
    /// An invite link for a channel.
    InviteLink {
        /// The channel.
        channel_id: Digest32,
        /// The link.
        url: String,
    },
    /// This node joined a channel.
    Joined {
        /// The channel joined.
        channel_id: Digest32,
        /// The member that answered the join.
        responder: Digest32,
    },
    /// This identity consented to `target`, which may now read its messages.
    Consented {
        /// The channel.
        channel_id: Digest32,
        /// The member consented to.
        target: Digest32,
    },
    /// This identity revoked `target`.
    Revoked {
        /// The channel.
        channel_id: Digest32,
        /// The member whose consent was withdrawn.
        target: Digest32,
        /// The new sender-key generation.
        generation: u64,
        /// How many remaining consenters were re-keyed at once.
        rekeyed: u64,
    },
    /// A member reached one of this node's services, and was authorized to.
    TunnelServed {
        /// The room whose capability authorized it.
        channel_id: Digest32,
        /// The member that reached the service.
        client: Digest32,
        /// The service reached.
        service_tag: String,
    },
    /// The local entry point is up.
    ProxyUp {
        /// The room it carries.
        channel_id: Digest32,
        /// The hostname its services answer on.
        hostname: String,
        /// Where it is listening.
        bind: String,
    },
    /// A sync session applied entries to a channel's log.
    Synced {
        /// The channel.
        channel_id: Digest32,
        /// Entries applied to the log.
        applied: u64,
        /// How many of those became readable.
        rendered: u64,
    },
    /// The node has stopped.
    Shutdown,
}

impl NodeEvent {
    /// Whether two events are alike.
    pub open spec fn is_same(&self, other: &NodeEvent) -> bool {
        match self {
            NodeEvent::NewEntry { channel_id, row } => {
                &&& *other matches NodeEvent::NewEntry { channel_id: p, row: q }
                &&& *channel_id == p
                &&& row.is_same(&q)
            },
            NodeEvent::Unlocked => *other is Unlocked,
            NodeEvent::Locked => *other is Locked,
            NodeEvent::ChannelOpened { channel_id } => {
                &&& *other matches NodeEvent::ChannelOpened { channel_id: p }
                &&& *channel_id == p
            },
            NodeEvent::ChannelClosed { channel_id } => {
                &&& *other matches NodeEvent::ChannelClosed { channel_id: p }
                &&& *channel_id == p
            },
            NodeEvent::PeerJoined { channel_id, peer } => {
                &&& *other matches NodeEvent::PeerJoined { channel_id: p, peer: q }
                &&& *channel_id == p
                &&& *peer == q
            },
            NodeEvent::KeyNotTaken { channel_id, peer, why } => {
                &&& *other matches NodeEvent::KeyNotTaken { channel_id: p, peer: q, why: r }
                &&& *channel_id == p
                &&& *peer == q
                &&& why@ == r@
            },
            NodeEvent::SenderKeyReceived { channel_id, peer, backfilled } => {
                &&& *other matches NodeEvent::SenderKeyReceived {
                    channel_id: p,
                    peer: q,
                    backfilled: r,
                }
                &&& *channel_id == p
                &&& *peer == q
                &&& *backfilled == r
            },
            NodeEvent::Forwarding { channel_id, host, service_tag, local } => {
                &&& *other matches NodeEvent::Forwarding {
                    channel_id: p,
                    host: q,
                    service_tag: r,
                    local: s,
                }
                &&& *channel_id == p
                &&& *host == q
                &&& service_tag@ == r@
                &&& local@ == s@
            },
            NodeEvent::Stalled { what, millis } => {
                &&& *other matches NodeEvent::Stalled { what: p, millis: q }
                &&& what@ == p@
                &&& *millis == q
            },
            NodeEvent::PublishRefused { channel_id, what, why } => {
                &&& *other matches NodeEvent::PublishRefused { channel_id: p, what: q, why: r }
                &&& *channel_id == p
                &&& what@ == q@
                &&& why@ == r@
            },
            NodeEvent::JoinFailed { reason } => {
                &&& *other matches NodeEvent::JoinFailed { reason: p }
                &&& reason@ == p@
            },
            NodeEvent::JoinSteps { joined, steps } => {
                &&& *other matches NodeEvent::JoinSteps { joined: p, steps: q }
                &&& *joined == p
                &&& steps@ == q@
            },
            NodeEvent::StillRelayed { peer, reason } => {
                &&& *other matches NodeEvent::StillRelayed { peer: p, reason: q }
                &&& *peer == p
                &&& reason@ == q@
            },
            NodeEvent::ProxyRefused { reason } => {
                &&& *other matches NodeEvent::ProxyRefused { reason: p }
                &&& reason@ == p@
            },
            NodeEvent::PeerUnreachable { peer, why } => {
                &&& *other matches NodeEvent::PeerUnreachable { peer: p, why: q }
                &&& *peer == p
                &&& why@ == q@
            },
            NodeEvent::ReachWithdrawn { channel_id, port } => {
                &&& *other matches NodeEvent::ReachWithdrawn { channel_id: p, port: q }
                &&& *channel_id == p
                &&& *port == q
            },
            NodeEvent::InviteLink { channel_id, url } => {
                &&& *other matches NodeEvent::InviteLink { channel_id: p, url: q }
                &&& *channel_id == p
                &&& url@ == q@
            },
            NodeEvent::Joined { channel_id, responder } => {
                &&& *other matches NodeEvent::Joined { channel_id: p, responder: q }
                &&& *channel_id == p
                &&& *responder == q
            },
            NodeEvent::Consented { channel_id, target } => {
                &&& *other matches NodeEvent::Consented { channel_id: p, target: q }
                &&& *channel_id == p
                &&& *target == q
            },
            NodeEvent::Revoked { channel_id, target, generation, rekeyed } => {
                &&& *other matches NodeEvent::Revoked {
                    channel_id: p,
                    target: q,
                    generation: r,
                    rekeyed: s,
                }
                &&& *channel_id == p
                &&& *target == q
                &&& *generation == r
                &&& *rekeyed == s
            },
            NodeEvent::TunnelServed { channel_id, client, service_tag } => {
                &&& *other matches NodeEvent::TunnelServed {
                    channel_id: p,
                    client: q,
                    service_tag: r,
                }
                &&& *channel_id == p
                &&& *client == q
                &&& service_tag@ == r@
            },
            NodeEvent::ProxyUp { channel_id, hostname, bind } => {
                &&& *other matches NodeEvent::ProxyUp { channel_id: p, hostname: q, bind: r }
                &&& *channel_id == p
                &&& hostname@ == q@
                &&& bind@ == r@
            },
            NodeEvent::Synced { channel_id, applied, rendered } => {
                &&& *other matches NodeEvent::Synced { channel_id: p, applied: q, rendered: r }
                &&& *channel_id == p
                &&& *applied == q
                &&& *rendered == r
            },
            NodeEvent::Shutdown => *other is Shutdown,
        }
    }
}

} // verus!
