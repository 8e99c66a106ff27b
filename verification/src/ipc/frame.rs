//! What the node sends on the control socket.

use vstd::prelude::*;

use crate::api::{MessageRow, NodeEvent};
use crate::cbor::{self, Cur, Decoder, Encoder, Tok};
use crate::error::Error;
use crate::hash::Digest32;
use crate::ipc::request::{digest, text, uint};

verus! {

pub const T_HELLO: u64 = 1;
pub const T_LAGGED: u64 = 2;
pub const T_OK: u64 = 3;
pub const T_ERROR: u64 = 4;
pub const T_ROWS: u64 = 5;
pub const T_MEMBERS: u64 = 6;
pub const T_ROOMS: u64 = 7;
pub const T_BOUND: u64 = 8;
pub const T_LINK: u64 = 9;
pub const T_NEW_ENTRY: u64 = 10;
pub const T_UNLOCKED: u64 = 11;
pub const T_LOCKED: u64 = 12;
pub const T_CHANNEL_OPENED: u64 = 13;
pub const T_CHANNEL_CLOSED: u64 = 14;
pub const T_PEER_JOINED: u64 = 15;
pub const T_SENDER_KEY: u64 = 16;
pub const T_FORWARDING: u64 = 17;
pub const T_INVITE_LINK: u64 = 18;
pub const T_JOINED: u64 = 19;
pub const T_CONSENTED: u64 = 20;
pub const T_REVOKED: u64 = 21;
pub const T_TUNNEL_SERVED: u64 = 22;
pub const T_PROXY_UP: u64 = 23;
pub const T_SYNCED: u64 = 24;
pub const T_SHUTDOWN: u64 = 25;
pub const T_TRUSTED: u64 = 26;
pub const T_ORDER_ROWS: u64 = 27;
// Additive tags, away from the sequential range.
pub const T_REACH_WITHDRAWN: u64 = 1711;
pub const T_PROXY_REFUSED: u64 = 1712;
pub const T_STILL_RELAYED: u64 = 1713;
pub const T_JOIN_FAILED: u64 = 1714;
pub const T_STALLED: u64 = 1715;
pub const T_PEER_UNREACHABLE: u64 = 1716;
pub const T_PUBLISH_REFUSED: u64 = 1717;
pub const T_JOIN_STEPS: u64 = 1718;
pub const T_KEY_NOT_TAKEN: u64 = 1719;

/// What the node sends.
#[derive(Debug, PartialEq, Eq)]
pub enum Frame {
    /// Sent once on connect, before anything else.
    Hello {
        /// The protocol this node speaks.
        protocol: u64,
        /// Who this client is: the node's own fingerprint, or `None` if no identity
        /// exists yet.
        me: Option<Digest32>,
    },
    /// This client fell behind and `missed` events were dropped for it alone.
    Lagged {
        /// How many events were dropped.
        missed: u64,
    },
    /// A node event.
    Event(NodeEvent),
    /// A request succeeded and carries nothing further.
    Done,
    /// A request failed. The reason is for a person to read.
    Error {
        /// Why it failed.
        reason: String,
    },
    /// The rows a read asked for.
    Rows {
        /// The rendered entries.
        rows: Vec<MessageRow>,
    },
    /// The order of a room.
    Order {
        /// Entry hash and clock in milliseconds, first to last.
        entries: Vec<(Digest32, u64)>,
    },
    /// The members of a room.
    Members {
        /// Member fingerprints, in the order the node holds them.
        members: Vec<Digest32>,
    },
    /// The address a forward actually bound.
    Bound {
        /// The bound local address.
        local: String,
    },
    /// An invite link.
    Link {
        /// The link.
        url: String,
    },
    /// The trust keyring.
    Trusted {
        /// Fingerprint and petname, in fingerprint order.
        entries: Vec<(Digest32, String)>,
    },
    /// The rooms this node holds.
    Rooms {
        /// Room, local name and whether it is open.
        rooms: Vec<(Digest32, String, bool)>,
    },
}

/// A frame's error for a field that is not as it should be.
pub open spec fn bad(what: &'static str) -> Error {
    Error::MalformedBundle(what)
}

impl Cur {
    /// Reads a port number of the control protocol.
    pub open spec fn ipc_port(self) -> Cur {
        self.uint(Error::MalformedBundle("ipc port")).check(
            self.peek_uint() <= 0xffff,
            Error::MalformedBundle("ipc port range"),
        )
    }
}

// ---- list elements -----------------------------------------------------------

/// The items of a row.
pub open spec fn row_item() -> spec_fn(MessageRow) -> Seq<Tok> {
    |r: MessageRow|
        cbor::items()
            .push(Tok::Array(6))
            .push(Tok::Bytes(r.entry_hash@))
            .push(Tok::Bytes(r.author@))
            .push(Tok::Uint(r.created_millis))
            .push(Tok::Text(r.text@))
            .push(Tok::Uint(r.arrival))
            .push(Tok::Uint(cbor::flag_value(r.late)))
}

/// Reads a row.
pub open spec fn row_step() -> spec_fn(Cur) -> Cur {
    |c: Cur|
        c.array(bad("ipc row")).check(c.peek_array() == 6, bad("ipc row arity"))
            .ipc_digest().ipc_digest().ipc_uint("ipc millis").ipc_text("ipc text")
            .ipc_uint("ipc arrival").flag(bad("ipc late"), bad("ipc late"))
}

/// The items of an entry of a room's order.
pub open spec fn order_item() -> spec_fn((Digest32, u64)) -> Seq<Tok> {
    |x: (Digest32, u64)|
        cbor::items().push(Tok::Array(2)).push(Tok::Bytes(x.0@)).push(Tok::Uint(x.1))
}

/// Reads an entry of a room's order.
pub open spec fn order_step() -> spec_fn(Cur) -> Cur {
    |c: Cur|
        c.array(bad("ipc order entry")).check(c.peek_array() == 2, bad("ipc order entry arity"))
            .ipc_digest().ipc_uint("ipc order clock")
}

/// The items of a member.
pub open spec fn member_item() -> spec_fn(Digest32) -> Seq<Tok> {
    |x: Digest32| cbor::items().push(Tok::Bytes(x@))
}

/// Reads a member.
pub open spec fn member_step() -> spec_fn(Cur) -> Cur {
    |c: Cur| c.ipc_digest()
}

/// The items of a room: its identifier, its name and its flag.
pub open spec fn room_item() -> spec_fn((Seq<u8>, Seq<char>, u64)) -> Seq<Tok> {
    |x: (Seq<u8>, Seq<char>, u64)|
        cbor::items()
            .push(Tok::Array(3))
            .push(Tok::Bytes(x.0))
            .push(Tok::Text(x.1))
            .push(Tok::Uint(x.2))
}

/// Reads a room.
pub open spec fn room_step() -> spec_fn(Cur) -> Cur {
    |c: Cur|
        c.array(bad("ipc room")).check(c.peek_array() == 3, bad("ipc room arity")).ipc_digest()
            .ipc_text("ipc room name").ipc_uint("ipc room open")
}

/// Rooms with the numbers that their flags were written as.
pub open spec fn rooms_as(rooms: Seq<(Digest32, String, bool)>, flags: Seq<u64>) -> Seq<
    (Seq<u8>, Seq<char>, u64),
> {
    Seq::new(rooms.len(), |i: int| (rooms[i].0@, rooms[i].1@, flags[i]))
}

/// The numbers that the flags of `rooms` are written as.
pub open spec fn room_flags(rooms: Seq<(Digest32, String, bool)>) -> Seq<u64> {
    Seq::new(rooms.len(), |i: int| cbor::flag_value(rooms[i].2))
}

/// The items of a keyring entry.
pub open spec fn trusted_item() -> spec_fn((Digest32, String)) -> Seq<Tok> {
    |x: (Digest32, String)|
        cbor::items().push(Tok::Array(2)).push(Tok::Bytes(x.0@)).push(Tok::Text(x.1@))
}

/// Reads a keyring entry.
pub open spec fn trusted_step() -> spec_fn(Cur) -> Cur {
    |c: Cur|
        c.array(bad("ipc trusted row")).check(c.peek_array() == 2, bad("ipc trusted row arity"))
            .ipc_digest().ipc_text("ipc trusted petname")
}

// ---- events ------------------------------------------------------------------

impl NodeEvent {
    /// The number that stands for this kind of event.
    pub open spec fn tag(&self) -> u64 {
        match self {
            NodeEvent::NewEntry { .. } => T_NEW_ENTRY,
            NodeEvent::Unlocked => T_UNLOCKED,
            NodeEvent::Locked => T_LOCKED,
            NodeEvent::ChannelOpened { .. } => T_CHANNEL_OPENED,
            NodeEvent::ChannelClosed { .. } => T_CHANNEL_CLOSED,
            NodeEvent::PeerJoined { .. } => T_PEER_JOINED,
            NodeEvent::KeyNotTaken { .. } => T_KEY_NOT_TAKEN,
            NodeEvent::SenderKeyReceived { .. } => T_SENDER_KEY,
            NodeEvent::Forwarding { .. } => T_FORWARDING,
            NodeEvent::Stalled { .. } => T_STALLED,
            NodeEvent::PublishRefused { .. } => T_PUBLISH_REFUSED,
            NodeEvent::JoinFailed { .. } => T_JOIN_FAILED,
            NodeEvent::JoinSteps { .. } => T_JOIN_STEPS,
            NodeEvent::StillRelayed { .. } => T_STILL_RELAYED,
            NodeEvent::ProxyRefused { .. } => T_PROXY_REFUSED,
            NodeEvent::PeerUnreachable { .. } => T_PEER_UNREACHABLE,
            NodeEvent::ReachWithdrawn { .. } => T_REACH_WITHDRAWN,
            NodeEvent::InviteLink { .. } => T_INVITE_LINK,
            NodeEvent::Joined { .. } => T_JOINED,
            NodeEvent::Consented { .. } => T_CONSENTED,
            NodeEvent::Revoked { .. } => T_REVOKED,
            NodeEvent::TunnelServed { .. } => T_TUNNEL_SERVED,
            NodeEvent::ProxyUp { .. } => T_PROXY_UP,
            NodeEvent::Synced { .. } => T_SYNCED,
            NodeEvent::Shutdown => T_SHUTDOWN,
        }
    }

    /// The items an event is written as.
    pub open spec fn toks(&self) -> Seq<Tok> {
        match self {
            NodeEvent::NewEntry { channel_id, row } => cbor::items()
                .push(Tok::Array(8))
                .push(Tok::Uint(T_NEW_ENTRY))
                .push(Tok::Bytes(channel_id@))
                .push(Tok::Bytes(row.entry_hash@))
                .push(Tok::Bytes(row.author@))
                .push(Tok::Uint(row.created_millis))
                .push(Tok::Text(row.text@))
                .push(Tok::Uint(row.arrival))
                .push(Tok::Uint(cbor::flag_value(row.late))),
            NodeEvent::Unlocked => cbor::items()
                .push(Tok::Array(1))
                .push(Tok::Uint(T_UNLOCKED)),
            NodeEvent::Locked => cbor::items()
                .push(Tok::Array(1))
                .push(Tok::Uint(T_LOCKED)),
            NodeEvent::Shutdown => cbor::items()
                .push(Tok::Array(1))
                .push(Tok::Uint(T_SHUTDOWN)),
            NodeEvent::ChannelOpened { channel_id } => cbor::items()
                .push(Tok::Array(2))
                .push(Tok::Uint(T_CHANNEL_OPENED))
                .push(Tok::Bytes(channel_id@)),
            NodeEvent::ChannelClosed { channel_id } => cbor::items()
                .push(Tok::Array(2))
                .push(Tok::Uint(T_CHANNEL_CLOSED))
                .push(Tok::Bytes(channel_id@)),
            NodeEvent::PeerJoined { channel_id, peer } => cbor::items()
                .push(Tok::Array(3))
                .push(Tok::Uint(T_PEER_JOINED))
                .push(Tok::Bytes(channel_id@))
                .push(Tok::Bytes(peer@)),
            NodeEvent::KeyNotTaken { channel_id, peer, why } => cbor::items()
                .push(Tok::Array(4))
                .push(Tok::Uint(T_KEY_NOT_TAKEN))
                .push(Tok::Bytes(channel_id@))
                .push(Tok::Bytes(peer@))
                .push(Tok::Text(why@)),
            NodeEvent::SenderKeyReceived { channel_id, peer, backfilled } => cbor::items()
                .push(Tok::Array(4))
                .push(Tok::Uint(T_SENDER_KEY))
                .push(Tok::Bytes(channel_id@))
                .push(Tok::Bytes(peer@))
                .push(Tok::Uint(*backfilled)),
            NodeEvent::Forwarding { channel_id, host, service_tag, local } => cbor::items()
                .push(Tok::Array(5))
                .push(Tok::Uint(T_FORWARDING))
                .push(Tok::Bytes(channel_id@))
                .push(Tok::Bytes(host@))
                .push(Tok::Text(service_tag@))
                .push(Tok::Text(local@)),
            NodeEvent::Stalled { what, millis } => cbor::items()
                .push(Tok::Array(3))
                .push(Tok::Uint(T_STALLED))
                .push(Tok::Text(what@))
                .push(Tok::Uint(*millis)),
            NodeEvent::PublishRefused { channel_id, what, why } => cbor::items()
                .push(Tok::Array(4))
                .push(Tok::Uint(T_PUBLISH_REFUSED))
                .push(Tok::Bytes(channel_id@))
                .push(Tok::Text(what@))
                .push(Tok::Text(why@)),
            NodeEvent::JoinSteps { joined, steps } => cbor::items()
                .push(Tok::Array(3))
                .push(Tok::Uint(T_JOIN_STEPS))
                .push(Tok::Uint(cbor::flag_value(*joined)))
                .push(Tok::Text(steps@)),
            NodeEvent::JoinFailed { reason } => cbor::items()
                .push(Tok::Array(2))
                .push(Tok::Uint(T_JOIN_FAILED))
                .push(Tok::Text(reason@)),
            NodeEvent::StillRelayed { peer, reason } => cbor::items()
                .push(Tok::Array(3))
                .push(Tok::Uint(T_STILL_RELAYED))
                .push(Tok::Bytes(peer@))
                .push(Tok::Text(reason@)),
            NodeEvent::ProxyRefused { reason } => cbor::items()
                .push(Tok::Array(2))
                .push(Tok::Uint(T_PROXY_REFUSED))
                .push(Tok::Text(reason@)),
            NodeEvent::PeerUnreachable { peer, why } => cbor::items()
                .push(Tok::Array(3))
                .push(Tok::Uint(T_PEER_UNREACHABLE))
                .push(Tok::Bytes(peer@))
                .push(Tok::Text(why@)),
            NodeEvent::ReachWithdrawn { channel_id, port } => cbor::items()
                .push(Tok::Array(3))
                .push(Tok::Uint(T_REACH_WITHDRAWN))
                .push(Tok::Bytes(channel_id@))
                .push(Tok::Uint(*port as u64)),
            NodeEvent::InviteLink { channel_id, url } => cbor::items()
                .push(Tok::Array(3))
                .push(Tok::Uint(T_INVITE_LINK))
                .push(Tok::Bytes(channel_id@))
                .push(Tok::Text(url@)),
            NodeEvent::Joined { channel_id, responder } => cbor::items()
                .push(Tok::Array(3))
                .push(Tok::Uint(T_JOINED))
                .push(Tok::Bytes(channel_id@))
                .push(Tok::Bytes(responder@)),
            NodeEvent::Consented { channel_id, target } => cbor::items()
                .push(Tok::Array(3))
                .push(Tok::Uint(T_CONSENTED))
                .push(Tok::Bytes(channel_id@))
                .push(Tok::Bytes(target@)),
            NodeEvent::Revoked { channel_id, target, generation, rekeyed } => cbor::items()
                .push(Tok::Array(5))
                .push(Tok::Uint(T_REVOKED))
                .push(Tok::Bytes(channel_id@))
                .push(Tok::Bytes(target@))
                .push(Tok::Uint(*generation))
                .push(Tok::Uint(*rekeyed)),
            NodeEvent::TunnelServed { channel_id, client, service_tag } => cbor::items()
                .push(Tok::Array(4))
                .push(Tok::Uint(T_TUNNEL_SERVED))
                .push(Tok::Bytes(channel_id@))
                .push(Tok::Bytes(client@))
                .push(Tok::Text(service_tag@)),
            NodeEvent::ProxyUp { channel_id, hostname, bind } => cbor::items()
                .push(Tok::Array(4))
                .push(Tok::Uint(T_PROXY_UP))
                .push(Tok::Bytes(channel_id@))
                .push(Tok::Text(hostname@))
                .push(Tok::Text(bind@)),
            NodeEvent::Synced { channel_id, applied, rendered } => cbor::items()
                .push(Tok::Array(4))
                .push(Tok::Uint(T_SYNCED))
                .push(Tok::Bytes(channel_id@))
                .push(Tok::Uint(*applied))
                .push(Tok::Uint(*rendered)),
        }
    }
}

/// Writes an event.
pub fn encode_event(e: &mut Encoder, ev: &NodeEvent)
    requires
        old(e).wf(),
        old(e).toks() == cbor::items(),
    ensures
        final(e).wf(),
        final(e).toks() == ev.toks(),
{
    match ev {
        NodeEvent::NewEntry { channel_id, row } => {
            e.array(8);
            e.uint(T_NEW_ENTRY);
            e.digest(channel_id);
            e.digest(&row.entry_hash);
            e.digest(&row.author);
            e.uint(row.created_millis);
            e.text(&row.text);
            e.uint(row.arrival);
            e.flag(row.late);
        },
        NodeEvent::Unlocked => {
            e.array(1);
            e.uint(T_UNLOCKED);
        },
        NodeEvent::Locked => {
            e.array(1);
            e.uint(T_LOCKED);
        },
        NodeEvent::Shutdown => {
            e.array(1);
            e.uint(T_SHUTDOWN);
        },
        NodeEvent::ChannelOpened { channel_id } => {
            e.array(2);
            e.uint(T_CHANNEL_OPENED);
            e.digest(channel_id);
        },
        NodeEvent::ChannelClosed { channel_id } => {
            e.array(2);
            e.uint(T_CHANNEL_CLOSED);
            e.digest(channel_id);
        },
        NodeEvent::PeerJoined { channel_id, peer } => {
            e.array(3);
            e.uint(T_PEER_JOINED);
            e.digest(channel_id);
            e.digest(peer);
        },
        NodeEvent::KeyNotTaken { channel_id, peer, why } => {
            e.array(4);
            e.uint(T_KEY_NOT_TAKEN);
            e.digest(channel_id);
            e.digest(peer);
            e.text(why);
        },
        NodeEvent::SenderKeyReceived { channel_id, peer, backfilled } => {
            e.array(4);
            e.uint(T_SENDER_KEY);
            e.digest(channel_id);
            e.digest(peer);
            e.uint(*backfilled);
        },
        NodeEvent::Forwarding { channel_id, host, service_tag, local } => {
            e.array(5);
            e.uint(T_FORWARDING);
            e.digest(channel_id);
            e.digest(host);
            e.text(service_tag);
            e.text(local);
        },
        NodeEvent::Stalled { what, millis } => {
            e.array(3);
            e.uint(T_STALLED);
            e.text(what);
            e.uint(*millis);
        },
        NodeEvent::PublishRefused { channel_id, what, why } => {
            e.array(4);
            e.uint(T_PUBLISH_REFUSED);
            e.digest(channel_id);
            e.text(what);
            e.text(why);
        },
        NodeEvent::JoinSteps { joined, steps } => {
            e.array(3);
            e.uint(T_JOIN_STEPS);
            e.flag(*joined);
            e.text(steps);
        },
        NodeEvent::JoinFailed { reason } => {
            e.array(2);
            e.uint(T_JOIN_FAILED);
            e.text(reason);
        },
        NodeEvent::StillRelayed { peer, reason } => {
            e.array(3);
            e.uint(T_STILL_RELAYED);
            e.digest(peer);
            e.text(reason);
        },
        NodeEvent::ProxyRefused { reason } => {
            e.array(2);
            e.uint(T_PROXY_REFUSED);
            e.text(reason);
        },
        NodeEvent::PeerUnreachable { peer, why } => {
            e.array(3);
            e.uint(T_PEER_UNREACHABLE);
            e.digest(peer);
            e.text(why);
        },
        NodeEvent::ReachWithdrawn { channel_id, port } => {
            e.array(3);
            e.uint(T_REACH_WITHDRAWN);
            e.digest(channel_id);
            e.uint(*port as u64);
        },
        NodeEvent::InviteLink { channel_id, url } => {
            e.array(3);
            e.uint(T_INVITE_LINK);
            e.digest(channel_id);
            e.text(url);
        },
        NodeEvent::Joined { channel_id, responder } => {
            e.array(3);
            e.uint(T_JOINED);
            e.digest(channel_id);
            e.digest(responder);
        },
        NodeEvent::Consented { channel_id, target } => {
            e.array(3);
            e.uint(T_CONSENTED);
            e.digest(channel_id);
            e.digest(target);
        },
        NodeEvent::Revoked { channel_id, target, generation, rekeyed } => {
            e.array(5);
            e.uint(T_REVOKED);
            e.digest(channel_id);
            e.digest(target);
            e.uint(*generation);
            e.uint(*rekeyed);
        },
        NodeEvent::TunnelServed { channel_id, client, service_tag } => {
            e.array(4);
            e.uint(T_TUNNEL_SERVED);
            e.digest(channel_id);
            e.digest(client);
            e.text(service_tag);
        },
        NodeEvent::ProxyUp { channel_id, hostname, bind } => {
            e.array(4);
            e.uint(T_PROXY_UP);
            e.digest(channel_id);
            e.text(hostname);
            e.text(bind);
        },
        NodeEvent::Synced { channel_id, applied, rendered } => {
            e.array(4);
            e.uint(T_SYNCED);
            e.digest(channel_id);
            e.uint(*applied);
            e.uint(*rendered);
        },
    }
}

impl NodeEvent {
    /// The address that the event names, where it names one.
    pub open spec fn address(&self) -> Option<Seq<char>> {
        match self {
            NodeEvent::Forwarding { local, .. } => Some(local@),
            NodeEvent::ProxyUp { bind, .. } => Some(bind@),
            _ => None,
        }
    }

    /// Whether the event names an address.
    pub open spec fn addressed(&self) -> bool {
        self.address() is Some
    }
}

/// The fields of an event with tag `tag` in an array of `n`, read behind the tag. `addr` is
/// what its address parses to, where it has one.
pub open spec fn event_fields(c: Cur, tag: u64, n: u64, addr: Option<Seq<char>>) -> Cur {
    if tag == T_NEW_ENTRY && n == 8 {
        c.ipc_digest().ipc_digest().ipc_digest().ipc_uint("ipc millis").ipc_text(
            "ipc text",
        ).ipc_uint("ipc arrival").flag(bad("ipc late"), bad("ipc late"))
    } else if tag == T_UNLOCKED && n == 1 {
        c
    } else if tag == T_LOCKED && n == 1 {
        c
    } else if tag == T_SHUTDOWN && n == 1 {
        c
    } else if tag == T_CHANNEL_OPENED && n == 2 {
        c.ipc_digest()
    } else if tag == T_CHANNEL_CLOSED && n == 2 {
        c.ipc_digest()
    } else if tag == T_PEER_JOINED && n == 3 {
        c.ipc_digest().ipc_digest()
    } else if tag == T_KEY_NOT_TAKEN && n == 4 {
        c.ipc_digest().ipc_digest().ipc_text("ipc why")
    } else if tag == T_SENDER_KEY && n == 4 {
        c.ipc_digest().ipc_digest().ipc_uint("ipc n")
    } else if tag == T_FORWARDING && n == 5 {
        c.ipc_digest().ipc_digest().ipc_text("ipc tag").ipc_text("ipc addr").check(
            addr is Some,
            bad("ipc addr syntax"),
        )
    } else if tag == T_STALLED && n == 3 {
        c.ipc_text("ipc stall what").ipc_uint("ipc stall ms")
    } else if tag == T_PUBLISH_REFUSED && n == 4 {
        c.ipc_digest().ipc_text("ipc publish what").ipc_text("ipc publish why")
    } else if tag == T_JOIN_STEPS && n == 3 {
        c.flag(Error::Cbor("cbor"), bad("ipc join steps flag")).ipc_text("ipc join steps")
    } else if tag == T_JOIN_FAILED && n == 2 {
        c.ipc_text("ipc join reason")
    } else if tag == T_STILL_RELAYED && n == 3 {
        c.ipc_digest().ipc_text("ipc relayed reason")
    } else if tag == T_PROXY_REFUSED && n == 2 {
        c.ipc_text("ipc proxy refusal reason")
    } else if tag == T_PEER_UNREACHABLE && n == 3 {
        c.ipc_digest().ipc_text("ipc unreachable reason")
    } else if tag == T_REACH_WITHDRAWN && n == 3 {
        c.ipc_digest().ipc_port()
    } else if tag == T_INVITE_LINK && n == 3 {
        c.ipc_digest().ipc_text("ipc url")
    } else if tag == T_JOINED && n == 3 {
        c.ipc_digest().ipc_digest()
    } else if tag == T_CONSENTED && n == 3 {
        c.ipc_digest().ipc_digest()
    } else if tag == T_REVOKED && n == 5 {
        c.ipc_digest().ipc_digest().ipc_uint("ipc gen").ipc_uint("ipc rekeyed")
    } else if tag == T_TUNNEL_SERVED && n == 4 {
        c.ipc_digest().ipc_digest().ipc_text("ipc tag")
    } else if tag == T_PROXY_UP && n == 4 {
        c.ipc_digest().ipc_text("ipc host").ipc_text("ipc addr").check(
            addr is Some,
            bad("ipc addr syntax"),
        )
    } else if tag == T_SYNCED && n == 4 {
        c.ipc_digest().ipc_uint("ipc applied").ipc_uint("ipc rendered")
    } else {
        c.fail(bad("ipc frame unknown tag"))
    }
}

/// Reads a port number.
fn port_number(d: &mut Decoder<'_>) -> (r: Result<u16, Error>)
    requires
        old(d).wf(),
    ensures
        final(d).wf(),
        final(d).buffer() == old(d).buffer(),
        match r {
            Ok(p) => {
                &&& old(d).cur().toks.len() > 0 && old(d).cur().toks[0] == Tok::Uint(p as u64)
                &&& final(d).cur() == old(d).cur().ipc_port()
                &&& final(d).seen() == old(d).seen().push(Tok::Uint(p as u64))
            },
            Err(x) => old(d).cur().ipc_port().bad == Some(x),
        },
{
    let n: u64 = d.uint(Error::MalformedBundle("ipc port"))?;
    if n <= 0xffff {
        Ok(n as u16)
    } else {
        Err(Error::MalformedBundle("ipc port range"))
    }
}

/// The items of a frame with the address that it names, if any, written as `addr`.
pub open spec fn readdressed(ts: Seq<Tok>, addr: Option<Seq<char>>) -> Seq<Tok> {
    match addr {
        None => ts,
        Some(a) => if ts.len() == 6 && ts[0] == Tok::Array(5) && ts[1] == Tok::Uint(
            T_FORWARDING,
        ) {
            ts.update(5, Tok::Text(a))
        } else if ts.len() == 5 && ts[0] == Tok::Array(4) && ts[1] == Tok::Uint(T_PROXY_UP) {
            ts.update(4, Tok::Text(a))
        } else {
            ts
        },
    }
}

/// Reads a local address: its text, which must be one. `addr` is what it parses to.
fn address(d: &mut Decoder<'_>, addr: Option<String>) -> (r: Result<String, Error>)
    requires
        old(d).wf(),
    ensures
        final(d).wf(),
        final(d).buffer() == old(d).buffer(),
        ({
            let after = old(d).cur().ipc_text("ipc addr").check(
                addr is Some,
                bad("ipc addr syntax"),
            );
            match r {
                Ok(a) => {
                    &&& addr == Some(a)
                    &&& final(d).cur() == after
                    &&& final(d).seen() == old(d).seen().push(
                        Tok::Text(old(d).cur().peek_text()),
                    )
                },
                Err(x) => after.bad == Some(x),
            }
        }),
{
    let written: String = text(d, "ipc addr")?;
    match addr {
        Some(a) => Ok(a),
        None => Err(Error::MalformedBundle("ipc addr syntax")),
    }
}

/// Reads the fields of an event.
#[verifier::rlimit(60)]
fn decode_event(d: &mut Decoder<'_>, tag: u64, n: u64, addr: Option<String>) -> (r: Result<
    NodeEvent,
    Error,
>)
    requires
        old(d).wf(),
        old(d).seen() == cbor::items().push(Tok::Array(n)).push(Tok::Uint(tag)),
    ensures
        final(d).wf(),
        final(d).buffer() == old(d).buffer(),
        match r {
            Ok(ev) => {
                &&& final(d).cur() == event_fields(old(d).cur(), tag, n, crate::link::opt_text(addr))
                &&& ev.toks() == readdressed(final(d).seen(), crate::link::opt_text(addr))
                &&& ev.addressed() ==> addr is Some
            },
            Err(e) => event_fields(old(d).cur(), tag, n, crate::link::opt_text(addr)).bad == Some(e),
        },
{
    if tag == T_NEW_ENTRY && n == 8 {
        let channel_id: Digest32 = digest(d)?;
        let entry_hash: Digest32 = digest(d)?;
        let author: Digest32 = digest(d)?;
        let created_millis: u64 = uint(d, "ipc millis")?;
        let text: String = text(d, "ipc text")?;
        let arrival: u64 = uint(d, "ipc arrival")?;
        let late: bool = flag(d, "ipc late")?;
        Ok(
            NodeEvent::NewEntry {
                channel_id,
                row: MessageRow { entry_hash, author, created_millis, text, arrival, late },
            },
        )
    } else if tag == T_UNLOCKED && n == 1 {
        Ok(NodeEvent::Unlocked)
    } else if tag == T_LOCKED && n == 1 {
        Ok(NodeEvent::Locked)
    } else if tag == T_SHUTDOWN && n == 1 {
        Ok(NodeEvent::Shutdown)
    } else if tag == T_CHANNEL_OPENED && n == 2 {
        let channel_id: Digest32 = digest(d)?;
        Ok(NodeEvent::ChannelOpened { channel_id })
    } else if tag == T_CHANNEL_CLOSED && n == 2 {
        let channel_id: Digest32 = digest(d)?;
        Ok(NodeEvent::ChannelClosed { channel_id })
    } else if tag == T_PEER_JOINED && n == 3 {
        let channel_id: Digest32 = digest(d)?;
        let peer: Digest32 = digest(d)?;
        Ok(NodeEvent::PeerJoined { channel_id, peer })
    } else if tag == T_KEY_NOT_TAKEN && n == 4 {
        let channel_id: Digest32 = digest(d)?;
        let peer: Digest32 = digest(d)?;
        let why: String = text(d, "ipc why")?;
        Ok(NodeEvent::KeyNotTaken { channel_id, peer, why })
    } else if tag == T_SENDER_KEY && n == 4 {
        let channel_id: Digest32 = digest(d)?;
        let peer: Digest32 = digest(d)?;
        let backfilled: u64 = uint(d, "ipc n")?;
        Ok(NodeEvent::SenderKeyReceived { channel_id, peer, backfilled })
    } else if tag == T_FORWARDING && n == 5 {
        let channel_id: Digest32 = digest(d)?;
        let host: Digest32 = digest(d)?;
        let service_tag: String = text(d, "ipc tag")?;
        let local: String = address(d, addr)?;
        let ev: NodeEvent = NodeEvent::Forwarding { channel_id, host, service_tag, local };
        assert(ev.toks() =~= readdressed(d.seen(), crate::link::opt_text(addr)));
        Ok(ev)
    } else if tag == T_STALLED && n == 3 {
        let what: String = text(d, "ipc stall what")?;
        let millis: u64 = uint(d, "ipc stall ms")?;
        Ok(NodeEvent::Stalled { what, millis })
    } else if tag == T_PUBLISH_REFUSED && n == 4 {
        let channel_id: Digest32 = digest(d)?;
        let what: String = text(d, "ipc publish what")?;
        let why: String = text(d, "ipc publish why")?;
        Ok(NodeEvent::PublishRefused { channel_id, what, why })
    } else if tag == T_JOIN_STEPS && n == 3 {
        let joined: bool = d.flag(
            Error::Cbor("cbor"),
            Error::MalformedBundle("ipc join steps flag"),
        )?;
        let steps: String = text(d, "ipc join steps")?;
        Ok(NodeEvent::JoinSteps { joined, steps })
    } else if tag == T_JOIN_FAILED && n == 2 {
        let reason: String = text(d, "ipc join reason")?;
        Ok(NodeEvent::JoinFailed { reason })
    } else if tag == T_STILL_RELAYED && n == 3 {
        let peer: Digest32 = digest(d)?;
        let reason: String = text(d, "ipc relayed reason")?;
        Ok(NodeEvent::StillRelayed { peer, reason })
    } else if tag == T_PROXY_REFUSED && n == 2 {
        let reason: String = text(d, "ipc proxy refusal reason")?;
        Ok(NodeEvent::ProxyRefused { reason })
    } else if tag == T_PEER_UNREACHABLE && n == 3 {
        let peer: Digest32 = digest(d)?;
        let why: String = text(d, "ipc unreachable reason")?;
        Ok(NodeEvent::PeerUnreachable { peer, why })
    } else if tag == T_REACH_WITHDRAWN && n == 3 {
        let channel_id: Digest32 = digest(d)?;
        let port: u16 = port_number(d)?;
        Ok(NodeEvent::ReachWithdrawn { channel_id, port })
    } else if tag == T_INVITE_LINK && n == 3 {
        let channel_id: Digest32 = digest(d)?;
        let url: String = text(d, "ipc url")?;
        Ok(NodeEvent::InviteLink { channel_id, url })
    } else if tag == T_JOINED && n == 3 {
        let channel_id: Digest32 = digest(d)?;
        let responder: Digest32 = digest(d)?;
        Ok(NodeEvent::Joined { channel_id, responder })
    } else if tag == T_CONSENTED && n == 3 {
        let channel_id: Digest32 = digest(d)?;
        let target: Digest32 = digest(d)?;
        Ok(NodeEvent::Consented { channel_id, target })
    } else if tag == T_REVOKED && n == 5 {
        let channel_id: Digest32 = digest(d)?;
        let target: Digest32 = digest(d)?;
        let generation: u64 = uint(d, "ipc gen")?;
        let rekeyed: u64 = uint(d, "ipc rekeyed")?;
        Ok(NodeEvent::Revoked { channel_id, target, generation, rekeyed })
    } else if tag == T_TUNNEL_SERVED && n == 4 {
        let channel_id: Digest32 = digest(d)?;
        let client: Digest32 = digest(d)?;
        let service_tag: String = text(d, "ipc tag")?;
        Ok(NodeEvent::TunnelServed { channel_id, client, service_tag })
    } else if tag == T_PROXY_UP && n == 4 {
        let channel_id: Digest32 = digest(d)?;
        let hostname: String = text(d, "ipc host")?;
        let bind: String = address(d, addr)?;
        let ev: NodeEvent = NodeEvent::ProxyUp { channel_id, hostname, bind };
        assert(ev.toks() =~= readdressed(d.seen(), crate::link::opt_text(addr)));
        Ok(ev)
    } else if tag == T_SYNCED && n == 4 {
        let channel_id: Digest32 = digest(d)?;
        let applied: u64 = uint(d, "ipc applied")?;
        let rendered: u64 = uint(d, "ipc rendered")?;
        Ok(NodeEvent::Synced { channel_id, applied, rendered })
    } else {
        Err(Error::MalformedBundle("ipc frame unknown tag"))
    }
}

/// Reads a flag; any number but 0 and 1 is malformed rather than read as true.
fn flag(d: &mut Decoder<'_>, what: &'static str) -> (r: Result<bool, Error>)
    requires
        old(d).wf(),
    ensures
        final(d).wf(),
        final(d).buffer() == old(d).buffer(),
        match r {
            Ok(b) => {
                &&& old(d).cur().toks.len() > 0 && old(d).cur().toks[0] == Tok::Uint(
                    cbor::flag_value(b),
                )
                &&& final(d).cur() == old(d).cur().flag(bad(what), bad(what))
                &&& final(d).seen() == old(d).seen().push(Tok::Uint(cbor::flag_value(b)))
            },
            Err(x) => old(d).cur().flag(bad(what), bad(what)).bad == Some(x),
        },
{
    d.flag(Error::MalformedBundle(what), Error::MalformedBundle(what))
}

fn put_rows(e: &mut Encoder, xs: &Vec<MessageRow>)
    requires
        old(e).wf(),
    ensures
        final(e).wf(),
        final(e).toks() == cbor::put_all(old(e).toks(), xs@, row_item()),
{
    let ghost base = e.toks();
    let mut i: usize = 0;
    assert(xs@.take(0) =~= Seq::empty());
    while i < xs.len()
        invariant
            i <= xs@.len(),
            e.wf(),
            e.toks() == cbor::put_all(base, xs@.take(i as int), row_item()),
        decreases xs@.len() - i,
    {
        let x: &MessageRow = &xs[i];
        let ghost before = e.toks();
        e.array(6);
        e.digest(&x.entry_hash);
        e.digest(&x.author);
        e.uint(x.created_millis);
        e.text(&x.text);
        e.uint(x.arrival);
        e.flag(x.late);
        proof {
            assert(e.toks() =~= before + row_item()(*x));
            cbor::lemma_put_all_push(base, xs@.take(i as int), *x, row_item());
            assert(xs@.take(i as int).push(*x) =~= xs@.take(i + 1));
        }
        i = i + 1;
    }
    assert(xs@.take(xs@.len() as int) =~= xs@);
}

fn read_row(d: &mut Decoder<'_>) -> (r: Result<MessageRow, Error>)
    requires
        old(d).wf(),
    ensures
        final(d).wf(),
        final(d).buffer() == old(d).buffer(),
        match r {
            Ok(x) => {
                &&& final(d).cur() == row_step()(old(d).cur())
                &&& final(d).seen() == old(d).seen() + row_item()(x)
            },
            Err(e) => row_step()(old(d).cur()).bad == Some(e),
        },
{
    let ghost before = d.seen();
    let arity: u64 = d.array(Error::MalformedBundle("ipc row"))?;
    if arity != 6 {
        return Err(Error::MalformedBundle("ipc row arity"));
    }
    let entry_hash: Digest32 = digest(d)?;
    let author: Digest32 = digest(d)?;
    let created_millis: u64 = uint(d, "ipc millis")?;
    let text: String = text(d, "ipc text")?;
    let arrival: u64 = uint(d, "ipc arrival")?;
    let late: bool = flag(d, "ipc late")?;
    let x: MessageRow = MessageRow { entry_hash, author, created_millis, text, arrival, late };
    assert(d.seen() =~= before + row_item()(x));
    Ok(x)
}

fn take_rows(d: &mut Decoder<'_>, n: u64) -> (r: Result<Vec<MessageRow>, Error>)
    requires
        old(d).wf(),
    ensures
        final(d).wf(),
        final(d).buffer() == old(d).buffer(),
        match r {
            Ok(xs) => {
                &&& xs@.len() == n
                &&& final(d).cur() == cbor::many(old(d).cur(), n as nat, row_step())
                &&& final(d).seen() == cbor::put_all(old(d).seen(), xs@, row_item())
            },
            Err(e) => cbor::many(old(d).cur(), n as nat, row_step()).bad == Some(e),
        },
{
    let ghost start = d.cur();
    let ghost base = d.seen();
    let mut xs: Vec<MessageRow> = Vec::new();
    let mut k: u64 = 0;
    while k < n
        invariant
            k <= n,
            xs@.len() == k,
            d.wf(),
            d.buffer() == old(d).buffer(),
            start == old(d).cur(),
            d.cur() == cbor::many(start, k as nat, row_step()),
            d.seen() == cbor::put_all(base, xs@, row_item()),
        decreases n - k,
    {
        match read_row(d) {
            Ok(x) => {
                proof {
                    cbor::lemma_put_all_push(base, xs@, x, row_item());
                }
                xs.push(x);
            },
            Err(e) => {
                proof {
                    cbor::lemma_many_stuck(start, (k + 1) as nat, n as nat, row_step());
                }
                return Err(e);
            },
        }
        k = k + 1;
    }
    Ok(xs)
}

fn put_order(e: &mut Encoder, xs: &Vec<(Digest32, u64)>)
    requires
        old(e).wf(),
    ensures
        final(e).wf(),
        final(e).toks() == cbor::put_all(old(e).toks(), xs@, order_item()),
{
    let ghost base = e.toks();
    let mut i: usize = 0;
    assert(xs@.take(0) =~= Seq::empty());
    while i < xs.len()
        invariant
            i <= xs@.len(),
            e.wf(),
            e.toks() == cbor::put_all(base, xs@.take(i as int), order_item()),
        decreases xs@.len() - i,
    {
        let x: &(Digest32, u64) = &xs[i];
        let ghost before = e.toks();
        e.array(2);
        e.digest(&x.0);
        e.uint(x.1);
        proof {
            assert(e.toks() =~= before + order_item()(*x));
            cbor::lemma_put_all_push(base, xs@.take(i as int), *x, order_item());
            assert(xs@.take(i as int).push(*x) =~= xs@.take(i + 1));
        }
        i = i + 1;
    }
    assert(xs@.take(xs@.len() as int) =~= xs@);
}

fn read_order(d: &mut Decoder<'_>) -> (r: Result<(Digest32, u64), Error>)
    requires
        old(d).wf(),
    ensures
        final(d).wf(),
        final(d).buffer() == old(d).buffer(),
        match r {
            Ok(x) => {
                &&& final(d).cur() == order_step()(old(d).cur())
                &&& final(d).seen() == old(d).seen() + order_item()(x)
            },
            Err(e) => order_step()(old(d).cur()).bad == Some(e),
        },
{
    let ghost before = d.seen();
    let arity: u64 = d.array(Error::MalformedBundle("ipc order entry"))?;
    if arity != 2 {
        return Err(Error::MalformedBundle("ipc order entry arity"));
    }
    let h: Digest32 = digest(d)?;
    let clock: u64 = uint(d, "ipc order clock")?;
    let x: (Digest32, u64) = (h, clock);
    assert(d.seen() =~= before + order_item()(x));
    Ok(x)
}

fn take_order(d: &mut Decoder<'_>, n: u64) -> (r: Result<Vec<(Digest32, u64)>, Error>)
    requires
        old(d).wf(),
    ensures
        final(d).wf(),
        final(d).buffer() == old(d).buffer(),
        match r {
            Ok(xs) => {
                &&& xs@.len() == n
                &&& final(d).cur() == cbor::many(old(d).cur(), n as nat, order_step())
                &&& final(d).seen() == cbor::put_all(old(d).seen(), xs@, order_item())
            },
            Err(e) => cbor::many(old(d).cur(), n as nat, order_step()).bad == Some(e),
        },
{
    let ghost start = d.cur();
    let ghost base = d.seen();
    let mut xs: Vec<(Digest32, u64)> = Vec::new();
    let mut k: u64 = 0;
    while k < n
        invariant
            k <= n,
            xs@.len() == k,
            d.wf(),
            d.buffer() == old(d).buffer(),
            start == old(d).cur(),
            d.cur() == cbor::many(start, k as nat, order_step()),
            d.seen() == cbor::put_all(base, xs@, order_item()),
        decreases n - k,
    {
        match read_order(d) {
            Ok(x) => {
                proof {
                    cbor::lemma_put_all_push(base, xs@, x, order_item());
                }
                xs.push(x);
            },
            Err(e) => {
                proof {
                    cbor::lemma_many_stuck(start, (k + 1) as nat, n as nat, order_step());
                }
                return Err(e);
            },
        }
        k = k + 1;
    }
    Ok(xs)
}

fn put_members(e: &mut Encoder, xs: &Vec<Digest32>)
    requires
        old(e).wf(),
    ensures
        final(e).wf(),
        final(e).toks() == cbor::put_all(old(e).toks(), xs@, member_item()),
{
    let ghost base = e.toks();
    let mut i: usize = 0;
    assert(xs@.take(0) =~= Seq::empty());
    while i < xs.len()
        invariant
            i <= xs@.len(),
            e.wf(),
            e.toks() == cbor::put_all(base, xs@.take(i as int), member_item()),
        decreases xs@.len() - i,
    {
        let x: &Digest32 = &xs[i];
        let ghost before = e.toks();
        e.digest(x);
        proof {
            assert(e.toks() =~= before + member_item()(*x));
            cbor::lemma_put_all_push(base, xs@.take(i as int), *x, member_item());
            assert(xs@.take(i as int).push(*x) =~= xs@.take(i + 1));
        }
        i = i + 1;
    }
    assert(xs@.take(xs@.len() as int) =~= xs@);
}

fn read_member(d: &mut Decoder<'_>) -> (r: Result<Digest32, Error>)
    requires
        old(d).wf(),
    ensures
        final(d).wf(),
        final(d).buffer() == old(d).buffer(),
        match r {
            Ok(x) => {
                &&& final(d).cur() == member_step()(old(d).cur())
                &&& final(d).seen() == old(d).seen() + member_item()(x)
            },
            Err(e) => member_step()(old(d).cur()).bad == Some(e),
        },
{
    let ghost before = d.seen();
    let m: Digest32 = digest(d)?;
    let x: Digest32 = m;
    assert(d.seen() =~= before + member_item()(x));
    Ok(x)
}

fn take_members(d: &mut Decoder<'_>, n: u64) -> (r: Result<Vec<Digest32>, Error>)
    requires
        old(d).wf(),
    ensures
        final(d).wf(),
        final(d).buffer() == old(d).buffer(),
        match r {
            Ok(xs) => {
                &&& xs@.len() == n
                &&& final(d).cur() == cbor::many(old(d).cur(), n as nat, member_step())
                &&& final(d).seen() == cbor::put_all(old(d).seen(), xs@, member_item())
            },
            Err(e) => cbor::many(old(d).cur(), n as nat, member_step()).bad == Some(e),
        },
{
    let ghost start = d.cur();
    let ghost base = d.seen();
    let mut xs: Vec<Digest32> = Vec::new();
    let mut k: u64 = 0;
    while k < n
        invariant
            k <= n,
            xs@.len() == k,
            d.wf(),
            d.buffer() == old(d).buffer(),
            start == old(d).cur(),
            d.cur() == cbor::many(start, k as nat, member_step()),
            d.seen() == cbor::put_all(base, xs@, member_item()),
        decreases n - k,
    {
        match read_member(d) {
            Ok(x) => {
                proof {
                    cbor::lemma_put_all_push(base, xs@, x, member_item());
                }
                xs.push(x);
            },
            Err(e) => {
                proof {
                    cbor::lemma_many_stuck(start, (k + 1) as nat, n as nat, member_step());
                }
                return Err(e);
            },
        }
        k = k + 1;
    }
    Ok(xs)
}

fn put_trusted(e: &mut Encoder, xs: &Vec<(Digest32, String)>)
    requires
        old(e).wf(),
    ensures
        final(e).wf(),
        final(e).toks() == cbor::put_all(old(e).toks(), xs@, trusted_item()),
{
    let ghost base = e.toks();
    let mut i: usize = 0;
    assert(xs@.take(0) =~= Seq::empty());
    while i < xs.len()
        invariant
            i <= xs@.len(),
            e.wf(),
            e.toks() == cbor::put_all(base, xs@.take(i as int), trusted_item()),
        decreases xs@.len() - i,
    {
        let x: &(Digest32, String) = &xs[i];
        let ghost before = e.toks();
        e.array(2);
        e.digest(&x.0);
        e.text(&x.1);
        proof {
            assert(e.toks() =~= before + trusted_item()(*x));
            cbor::lemma_put_all_push(base, xs@.take(i as int), *x, trusted_item());
            assert(xs@.take(i as int).push(*x) =~= xs@.take(i + 1));
        }
        i = i + 1;
    }
    assert(xs@.take(xs@.len() as int) =~= xs@);
}

fn read_trusted(d: &mut Decoder<'_>) -> (r: Result<(Digest32, String), Error>)
    requires
        old(d).wf(),
    ensures
        final(d).wf(),
        final(d).buffer() == old(d).buffer(),
        match r {
            Ok(x) => {
                &&& final(d).cur() == trusted_step()(old(d).cur())
                &&& final(d).seen() == old(d).seen() + trusted_item()(x)
            },
            Err(e) => trusted_step()(old(d).cur()).bad == Some(e),
        },
{
    let ghost before = d.seen();
    let arity: u64 = d.array(Error::MalformedBundle("ipc trusted row"))?;
    if arity != 2 {
        return Err(Error::MalformedBundle("ipc trusted row arity"));
    }
    let id: Digest32 = digest(d)?;
    let petname: String = text(d, "ipc trusted petname")?;
    let x: (Digest32, String) = (id, petname);
    assert(d.seen() =~= before + trusted_item()(x));
    Ok(x)
}

fn take_trusted(d: &mut Decoder<'_>, n: u64) -> (r: Result<Vec<(Digest32, String)>, Error>)
    requires
        old(d).wf(),
    ensures
        final(d).wf(),
        final(d).buffer() == old(d).buffer(),
        match r {
            Ok(xs) => {
                &&& xs@.len() == n
                &&& final(d).cur() == cbor::many(old(d).cur(), n as nat, trusted_step())
                &&& final(d).seen() == cbor::put_all(old(d).seen(), xs@, trusted_item())
            },
            Err(e) => cbor::many(old(d).cur(), n as nat, trusted_step()).bad == Some(e),
        },
{
    let ghost start = d.cur();
    let ghost base = d.seen();
    let mut xs: Vec<(Digest32, String)> = Vec::new();
    let mut k: u64 = 0;
    while k < n
        invariant
            k <= n,
            xs@.len() == k,
            d.wf(),
            d.buffer() == old(d).buffer(),
            start == old(d).cur(),
            d.cur() == cbor::many(start, k as nat, trusted_step()),
            d.seen() == cbor::put_all(base, xs@, trusted_item()),
        decreases n - k,
    {
        match read_trusted(d) {
            Ok(x) => {
                proof {
                    cbor::lemma_put_all_push(base, xs@, x, trusted_item());
                }
                xs.push(x);
            },
            Err(e) => {
                proof {
                    cbor::lemma_many_stuck(start, (k + 1) as nat, n as nat, trusted_step());
                }
                return Err(e);
            },
        }
        k = k + 1;
    }
    Ok(xs)
}

fn put_rooms(e: &mut Encoder, xs: &Vec<(Digest32, String, bool)>)
    requires
        old(e).wf(),
    ensures
        final(e).wf(),
        final(e).toks() == cbor::put_all(
            old(e).toks(),
            rooms_as(xs@, room_flags(xs@)),
            room_item(),
        ),
{
    let ghost base = e.toks();
    let ghost raw = rooms_as(xs@, room_flags(xs@));
    let mut i: usize = 0;
    assert(raw.take(0) =~= Seq::empty());
    while i < xs.len()
        invariant
            i <= xs@.len(),
            e.wf(),
            raw == rooms_as(xs@, room_flags(xs@)),
            e.toks() == cbor::put_all(base, raw.take(i as int), room_item()),
        decreases xs@.len() - i,
    {
        let x: &(Digest32, String, bool) = &xs[i];
        let ghost before = e.toks();
        e.array(3);
        e.digest(&x.0);
        e.text(&x.1);
        e.flag(x.2);
        proof {
            assert(e.toks() =~= before + room_item()(raw[i as int]));
            cbor::lemma_put_all_push(base, raw.take(i as int), raw[i as int], room_item());
            assert(raw.take(i as int).push(raw[i as int]) =~= raw.take(i + 1));
        }
        i = i + 1;
    }
    assert(raw.take(xs@.len() as int) =~= raw);
}

/// Whether `rooms` is what is read where the flags are written as `flags`: a room is
/// open where its number is not 0.
pub open spec fn rooms_read(rooms: Seq<(Digest32, String, bool)>, flags: Seq<u64>) -> bool {
    &&& flags.len() == rooms.len()
    &&& forall|i: int| 0 <= i < rooms.len() ==> rooms[i].2 == (#[trigger] flags[i] != 0)
}

fn take_rooms(d: &mut Decoder<'_>, n: u64) -> (r: Result<
    (Vec<(Digest32, String, bool)>, Ghost<Seq<u64>>),
    Error,
>)
    requires
        old(d).wf(),
    ensures
        final(d).wf(),
        final(d).buffer() == old(d).buffer(),
        match r {
            Ok((xs, flags)) => {
                &&& xs@.len() == n
                &&& rooms_read(xs@, flags@)
                &&& final(d).cur() == cbor::many(old(d).cur(), n as nat, room_step())
                &&& final(d).seen() == cbor::put_all(
                    old(d).seen(),
                    rooms_as(xs@, flags@),
                    room_item(),
                )
            },
            Err(e) => cbor::many(old(d).cur(), n as nat, room_step()).bad == Some(e),
        },
{
    let ghost start = d.cur();
    let ghost base = d.seen();
    let ghost mut flags: Seq<u64> = Seq::empty();
    let mut xs: Vec<(Digest32, String, bool)> = Vec::new();
    let mut k: u64 = 0;
    assert(rooms_as(xs@, flags) =~= Seq::empty());
    while k < n
        invariant
            k <= n,
            xs@.len() == k,
            d.wf(),
            d.buffer() == old(d).buffer(),
            start == old(d).cur(),
            rooms_read(xs@, flags),
            d.cur() == cbor::many(start, k as nat, room_step()),
            d.seen() == cbor::put_all(base, rooms_as(xs@, flags), room_item()),
        decreases n - k,
    {
        let ghost before = d.seen();
        match read_room(d) {
            Ok((id, name, raw)) => {
                proof {
                    let x = (id@, name@, raw);
                    let ys = xs@.push((id, name, raw != 0));
                    let fs = flags.push(raw);
                    cbor::lemma_put_all_push(base, rooms_as(xs@, flags), x, room_item());
                    assert(rooms_as(ys, fs) =~= rooms_as(xs@, flags).push(x));
                    flags = fs;
                }
                xs.push((id, name, raw != 0));
            },
            Err(e) => {
                proof {
                    cbor::lemma_many_stuck(start, (k + 1) as nat, n as nat, room_step());
                }
                return Err(e);
            },
        }
        k = k + 1;
    }
    Ok((xs, Ghost(flags)))
}

fn read_room(d: &mut Decoder<'_>) -> (r: Result<(Digest32, String, u64), Error>)
    requires
        old(d).wf(),
    ensures
        final(d).wf(),
        final(d).buffer() == old(d).buffer(),
        match r {
            Ok(x) => {
                &&& final(d).cur() == room_step()(old(d).cur())
                &&& final(d).seen() == old(d).seen() + room_item()((x.0@, x.1@, x.2))
            },
            Err(e) => room_step()(old(d).cur()).bad == Some(e),
        },
{
    let ghost before = d.seen();
    let arity: u64 = d.array(Error::MalformedBundle("ipc room"))?;
    if arity != 3 {
        return Err(Error::MalformedBundle("ipc room arity"));
    }
    let id: Digest32 = digest(d)?;
    let name: String = text(d, "ipc room name")?;
    let open: u64 = uint(d, "ipc room open")?;
    assert(d.seen() =~= before + room_item()((id@, name@, open)));
    Ok((id, name, open))
}

// ---- frames ------------------------------------------------------------------

/// The fields of a frame with tag `tag` in an array of `n`, read behind the tag.
pub open spec fn frame_fields(c: Cur, tag: u64, n: u64, addr: Option<Seq<char>>) -> Cur {
    if tag == T_HELLO && n == 3 {
        c.ipc_uint("ipc hello").opt_digest(
            bad("ipc hello identity"),
            bad("ipc hello identity length"),
        )
    } else if tag == T_LAGGED && n == 2 {
        c.ipc_uint("ipc lagged")
    } else if tag == T_OK && n == 1 {
        c
    } else if tag == T_ERROR && n == 2 {
        c.ipc_text("ipc error reason")
    } else if tag == T_ROWS && n == 2 {
        cbor::many(c.array(bad("ipc rows")), c.peek_array() as nat, row_step())
    } else if tag == T_ORDER_ROWS && n == 2 {
        cbor::many(c.array(bad("ipc order")), c.peek_array() as nat, order_step())
    } else if tag == T_MEMBERS && n == 2 {
        cbor::many(c.array(bad("ipc members")), c.peek_array() as nat, member_step())
    } else if tag == T_BOUND && n == 2 {
        c.ipc_text("ipc bound address")
    } else if tag == T_LINK && n == 2 {
        c.ipc_text("ipc link")
    } else if tag == T_ROOMS && n == 2 {
        cbor::many(c.array(bad("ipc rooms")), c.peek_array() as nat, room_step())
    } else if tag == T_TRUSTED && n == 2 {
        cbor::many(c.array(bad("ipc trusted array")), c.peek_array() as nat, trusted_step())
    } else {
        event_fields(c, tag, n, addr)
    }
}

/// What is wrong with `b` as a frame, or `None` where it is one. `addr` is what the address
/// that it names parses to, where it names one.
pub open spec fn frame_fault(b: Seq<u8>, addr: Option<Seq<char>>) -> Option<Error> {
    let start = Cur::at(b);
    let tagged = start.array(bad("ipc frame"));
    let body = tagged.uint(bad("ipc frame tag"));
    if body.bad is Some {
        body.bad
    } else {
        frame_fields(body, tagged.peek_uint(), start.peek_array(), addr).end(
            bad("ipc frame trailing"),
        ).bad
    }
}

/// The items in front of a list of `n` in a frame with tag `tag`.
pub open spec fn list_head(tag: u64, n: nat) -> Seq<Tok> {
    cbor::items().push(Tok::Array(2)).push(Tok::Uint(tag)).push(Tok::Array(n as u64))
}

impl Frame {
    /// The number that stands for this kind of frame.
    pub open spec fn tag(&self) -> u64 {
        match self {
            Frame::Hello { .. } => T_HELLO,
            Frame::Lagged { .. } => T_LAGGED,
            Frame::Event(ev) => ev.tag(),
            Frame::Done => T_OK,
            Frame::Error { .. } => T_ERROR,
            Frame::Rows { .. } => T_ROWS,
            Frame::Order { .. } => T_ORDER_ROWS,
            Frame::Members { .. } => T_MEMBERS,
            Frame::Bound { .. } => T_BOUND,
            Frame::Link { .. } => T_LINK,
            Frame::Trusted { .. } => T_TRUSTED,
            Frame::Rooms { .. } => T_ROOMS,
        }
    }

    /// Whether two frames are alike.
    pub open spec fn is_same(&self, other: &Frame) -> bool {
        match self {
            Frame::Hello { protocol, me } => {
                &&& *other matches Frame::Hello { protocol: p, me: q }
                &&& *protocol == p
                &&& *me == q
            },
            Frame::Lagged { missed } => {
                &&& *other matches Frame::Lagged { missed: p }
                &&& *missed == p
            },
            Frame::Event(ev) => *other matches Frame::Event(p) && ev.is_same(&p),
            Frame::Done => *other is Done,
            Frame::Error { reason } => {
                &&& *other matches Frame::Error { reason: p }
                &&& reason@ == p@
            },
            Frame::Rows { rows } => {
                &&& *other matches Frame::Rows { rows: p }
                &&& rows@.len() == p@.len()
                &&& forall|i: int|
                    0 <= i < rows@.len() ==> (#[trigger] rows@[i]).is_same(&p@[i])
            },
            Frame::Order { entries } => {
                &&& *other matches Frame::Order { entries: p }
                &&& entries@ == p@
            },
            Frame::Members { members } => {
                &&& *other matches Frame::Members { members: p }
                &&& members@ == p@
            },
            Frame::Bound { local } => {
                &&& *other matches Frame::Bound { local: p }
                &&& local@ == p@
            },
            Frame::Link { url } => {
                &&& *other matches Frame::Link { url: p }
                &&& url@ == p@
            },
            Frame::Trusted { entries } => {
                &&& *other matches Frame::Trusted { entries: p }
                &&& entries@.len() == p@.len()
                &&& forall|i: int|
                    0 <= i < entries@.len() ==> (#[trigger] entries@[i]).0 == p@[i].0 && entries@[i].1@
                        == p@[i].1@
            },
            Frame::Rooms { rooms } => {
                &&& *other matches Frame::Rooms { rooms: p }
                &&& rooms@.len() == p@.len()
                &&& forall|i: int|
                    0 <= i < rooms@.len() ==> (#[trigger] rooms@[i]).0 == p@[i].0 && rooms@[i].1@
                        == p@[i].1@ && rooms@[i].2 == p@[i].2
            },
        }
    }

    /// The items a frame is written as.
    pub open spec fn toks(&self) -> Seq<Tok> {
        match self {
            Frame::Hello { protocol, me } => cbor::items()
                .push(Tok::Array(3))
                .push(Tok::Uint(T_HELLO))
                .push(Tok::Uint(*protocol))
                .push(Tok::Bytes(cbor::opt_bytes(*me))),
            Frame::Lagged { missed } => cbor::items()
                .push(Tok::Array(2))
                .push(Tok::Uint(T_LAGGED))
                .push(Tok::Uint(*missed)),
            Frame::Event(ev) => ev.toks(),
            Frame::Done => cbor::items().push(Tok::Array(1)).push(Tok::Uint(T_OK)),
            Frame::Error { reason } => cbor::items()
                .push(Tok::Array(2))
                .push(Tok::Uint(T_ERROR))
                .push(Tok::Text(reason@)),
            Frame::Rows { rows } => cbor::put_all(
                list_head(T_ROWS, rows@.len()),
                rows@,
                row_item(),
            ),
            Frame::Order { entries } => cbor::put_all(
                list_head(T_ORDER_ROWS, entries@.len()),
                entries@,
                order_item(),
            ),
            Frame::Members { members } => cbor::put_all(
                list_head(T_MEMBERS, members@.len()),
                members@,
                member_item(),
            ),
            Frame::Bound { local } => cbor::items()
                .push(Tok::Array(2))
                .push(Tok::Uint(T_BOUND))
                .push(Tok::Text(local@)),
            Frame::Link { url } => cbor::items()
                .push(Tok::Array(2))
                .push(Tok::Uint(T_LINK))
                .push(Tok::Text(url@)),
            Frame::Rooms { rooms } => rooms_toks(rooms@, room_flags(rooms@)),
            Frame::Trusted { entries } => cbor::put_all(
                list_head(T_TRUSTED, entries@.len()),
                entries@,
                trusted_item(),
            ),
        }
    }

    /// Whether this frame is what is read from `ts`. A reader takes any number but 0
    /// for an open room, and holds an address as what its text parses to; every other
    /// frame is read from the items it is written as.
    pub open spec fn read_from(&self, ts: Seq<Tok>, addr: Option<Seq<char>>) -> bool {
        match self {
            Frame::Rooms { rooms } => rooms_read_from(rooms@, ts),
            Frame::Event(ev) => {
                &&& self.toks() == readdressed(ts, addr)
                &&& ev.addressed() ==> addr is Some
            },
            _ => ts == self.toks(),
        }
    }

    /// The body of the frame.
    #[must_use]
    pub fn to_bytes(&self) -> (b: Vec<u8>)
        ensures
            b@ == cbor::enc(self.toks()),
    {
        let mut e = Encoder::new();
        match self {
            Frame::Hello { protocol, me } => {
                e.array(3);
                e.uint(T_HELLO);
                e.uint(*protocol);
                e.opt_digest(me);
            },
            Frame::Lagged { missed } => {
                e.array(2);
                e.uint(T_LAGGED);
                e.uint(*missed);
            },
            Frame::Event(ev) => {
                encode_event(&mut e, ev);
            },
            Frame::Done => {
                e.array(1);
                e.uint(T_OK);
            },
            Frame::Error { reason } => {
                e.array(2);
                e.uint(T_ERROR);
                e.text(reason);
            },
            Frame::Rows { rows } => {
                e.array(2);
                e.uint(T_ROWS);
                e.array(rows.len() as u64);
                put_rows(&mut e, rows);
            },
            Frame::Order { entries } => {
                e.array(2);
                e.uint(T_ORDER_ROWS);
                e.array(entries.len() as u64);
                put_order(&mut e, entries);
            },
            Frame::Members { members } => {
                e.array(2);
                e.uint(T_MEMBERS);
                e.array(members.len() as u64);
                put_members(&mut e, members);
            },
            Frame::Bound { local } => {
                e.array(2);
                e.uint(T_BOUND);
                e.text(local);
            },
            Frame::Link { url } => {
                e.array(2);
                e.uint(T_LINK);
                e.text(url);
            },
            Frame::Rooms { rooms } => {
                e.array(2);
                e.uint(T_ROOMS);
                e.array(rooms.len() as u64);
                put_rooms(&mut e, rooms);
            },
            Frame::Trusted { entries } => {
                e.array(2);
                e.uint(T_TRUSTED);
                e.array(entries.len() as u64);
                put_trusted(&mut e, entries);
            },
        }
        e.finish()
    }

    /// The address that the body of a frame names, where it is one that names an address
    /// and can be read that far.
    #[must_use]
    pub fn address_in(b: &[u8]) -> (r: Option<String>)
        ensures
            crate::link::opt_text(r) == named_address(b@),
    {
        let mut d = Decoder::new(b);
        let n: u64 = match d.array(Error::MalformedBundle("ipc frame")) {
            Ok(n) => n,
            Err(_) => {
                return None;
            },
        };
        let tag: u64 = match d.uint(Error::MalformedBundle("ipc frame tag")) {
            Ok(tag) => tag,
            Err(_) => {
                return None;
            },
        };
        if tag == T_FORWARDING && n == 5 {
            if digest(&mut d).is_err() {
                return None;
            }
            if digest(&mut d).is_err() {
                return None;
            }
            if text(&mut d, "ipc tag").is_err() {
                return None;
            }
        } else if tag == T_PROXY_UP && n == 4 {
            if digest(&mut d).is_err() {
                return None;
            }
            if text(&mut d, "ipc host").is_err() {
                return None;
            }
        } else {
            return None;
        }
        match text(&mut d, "ipc addr") {
            Ok(a) => Some(a),
            Err(_) => None,
        }
    }

    /// Reads the body of a frame. `addr` is what the address that it names
    /// ([`Frame::address_in`]) parses to, in canonical text, where it names one.
    pub fn from_bytes(b: &[u8], addr: Option<String>) -> (r: Result<Frame, Error>)
        ensures
            match r {
                Ok(f) => frame_fault(b@, crate::link::opt_text(addr)) is None && f.read_from(
                    cbor::toks_of(b@),
                    crate::link::opt_text(addr),
                ) && cbor::enc(cbor::toks_of(b@)) == b@,
                Err(e) => frame_fault(b@, crate::link::opt_text(addr)) == Some(e),
            },
    {
        let mut d = Decoder::new(b);
        let n: u64 = d.array(Error::MalformedBundle("ipc frame"))?;
        let tag: u64 = d.uint(Error::MalformedBundle("ipc frame tag"))?;
        let out: Frame = decode_body(&mut d, tag, n, addr)?;
        d.finish(Error::MalformedBundle("ipc frame trailing"))?;
        Ok(out)
    }
}

/// The address text that `b` names as a frame, where it does.
pub open spec fn named_address(b: Seq<u8>) -> Option<Seq<char>> {
    let start = Cur::at(b);
    let tagged = start.array(bad("ipc frame"));
    let body = tagged.uint(bad("ipc frame tag"));
    let (tag, n) = (tagged.peek_uint(), start.peek_array());
    let front = if tag == T_FORWARDING && n == 5 {
        body.ipc_digest().ipc_digest().ipc_text("ipc tag")
    } else if tag == T_PROXY_UP && n == 4 {
        body.ipc_digest().ipc_text("ipc host")
    } else {
        body.fail(bad("ipc addr"))
    };
    if front.ipc_text("ipc addr").bad is None {
        Some(front.peek_text())
    } else {
        None
    }
}

/// The items of a list of rooms whose flags are written as `flags`.
pub open spec fn rooms_toks(rooms: Seq<(Digest32, String, bool)>, flags: Seq<u64>) -> Seq<Tok> {
    cbor::put_all(list_head(T_ROOMS, rooms.len()), rooms_as(rooms, flags), room_item())
}

/// Whether `rooms` is what is read from `ts`, whatever numbers the flags were written
/// as.
pub open spec fn rooms_read_from(rooms: Seq<(Digest32, String, bool)>, ts: Seq<Tok>) -> bool {
    exists|flags: Seq<u64>|
        #[trigger] rooms_read(rooms, flags) && ts == rooms_toks(rooms, flags)
}

/// Reads the fields of a frame with tag `tag` in an array of `n`.
pub fn decode_body(d: &mut Decoder<'_>, tag: u64, n: u64, addr: Option<String>) -> (r: Result<
    Frame,
    Error,
>)
    requires
        old(d).wf(),
        old(d).seen() == cbor::items().push(Tok::Array(n)).push(Tok::Uint(tag)),
    ensures
        final(d).wf(),
        final(d).buffer() == old(d).buffer(),
        match r {
            Ok(f) => {
                &&& final(d).cur() == frame_fields(old(d).cur(), tag, n, crate::link::opt_text(addr))
                &&& f.read_from(final(d).seen(), crate::link::opt_text(addr))
            },
            Err(e) => frame_fields(old(d).cur(), tag, n, crate::link::opt_text(addr)).bad == Some(e),
        },
{
    if tag == T_HELLO && n == 3 {
        let protocol: u64 = uint(d, "ipc hello")?;
        let me: Option<Digest32> = d.opt_digest(
            Error::MalformedBundle("ipc hello identity"),
            Error::MalformedBundle("ipc hello identity length"),
        )?;
        Ok(Frame::Hello { protocol, me })
    } else if tag == T_LAGGED && n == 2 {
        let missed: u64 = uint(d, "ipc lagged")?;
        Ok(Frame::Lagged { missed })
    } else if tag == T_OK && n == 1 {
        Ok(Frame::Done)
    } else if tag == T_ERROR && n == 2 {
        let reason: String = text(d, "ipc error reason")?;
        Ok(Frame::Error { reason })
    } else if tag == T_ROWS && n == 2 {
        let count: u64 = list_count(d, "ipc rows", Ghost(row_step()))?;
        let rows: Vec<MessageRow> = take_rows(d, count)?;
        assert(d.seen() == cbor::put_all(list_head(T_ROWS, rows@.len()), rows@, row_item()));
        Ok(Frame::Rows { rows })
    } else if tag == T_ORDER_ROWS && n == 2 {
        let count: u64 = list_count(d, "ipc order", Ghost(order_step()))?;
        let entries: Vec<(Digest32, u64)> = take_order(d, count)?;
        assert(d.seen() == cbor::put_all(
            list_head(T_ORDER_ROWS, entries@.len()),
            entries@,
            order_item(),
        ));
        Ok(Frame::Order { entries })
    } else if tag == T_MEMBERS && n == 2 {
        let count: u64 = list_count(d, "ipc members", Ghost(member_step()))?;
        let members: Vec<Digest32> = take_members(d, count)?;
        assert(d.seen() == cbor::put_all(
            list_head(T_MEMBERS, members@.len()),
            members@,
            member_item(),
        ));
        Ok(Frame::Members { members })
    } else if tag == T_BOUND && n == 2 {
        let local: String = text(d, "ipc bound address")?;
        Ok(Frame::Bound { local })
    } else if tag == T_LINK && n == 2 {
        let url: String = text(d, "ipc link")?;
        Ok(Frame::Link { url })
    } else if tag == T_ROOMS && n == 2 {
        let count: u64 = list_count(d, "ipc rooms", Ghost(room_step()))?;
        let (rooms, flags) = take_rooms(d, count)?;
        assert(d.seen() == rooms_toks(rooms@, flags@));
        assert(rooms_read_from(rooms@, d.seen()));
        Ok(Frame::Rooms { rooms })
    } else if tag == T_TRUSTED && n == 2 {
        let count: u64 = list_count(d, "ipc trusted array", Ghost(trusted_step()))?;
        let entries: Vec<(Digest32, String)> = take_trusted(d, count)?;
        assert(d.seen() == cbor::put_all(
            list_head(T_TRUSTED, entries@.len()),
            entries@,
            trusted_item(),
        ));
        Ok(Frame::Trusted { entries })
    } else {
        let ev: NodeEvent = decode_event(d, tag, n, addr)?;
        Ok(Frame::Event(ev))
    }
}

/// Reads how many elements a list has. A list that does not begin is a list that
/// failed, whatever its elements are.
fn list_count(
    d: &mut Decoder<'_>,
    what: &'static str,
    Ghost(step): Ghost<spec_fn(Cur) -> Cur>,
) -> (r: Result<u64, Error>)
    requires
        old(d).wf(),
        cbor::sticky(step),
    ensures
        final(d).wf(),
        final(d).buffer() == old(d).buffer(),
        match r {
            Ok(n) => {
                &&& old(d).cur().toks.len() > 0 && old(d).cur().toks[0] == Tok::Array(n)
                &&& final(d).cur() == old(d).cur().array(bad(what))
                &&& final(d).seen() == old(d).seen().push(Tok::Array(n))
            },
            Err(x) => cbor::many(
                old(d).cur().array(bad(what)),
                old(d).cur().peek_array() as nat,
                step,
            ).bad == Some(x),
        },
{
    let ghost c = d.cur().array(bad(what));
    let ghost k = d.cur().peek_array() as nat;
    match d.array(Error::MalformedBundle(what)) {
        Ok(n) => Ok(n),
        Err(x) => {
            proof {
                cbor::lemma_many_stuck(c, 0, k, step);
            }
            Err(x)
        },
    }
}

/// A frame is read from items with its tag.
pub proof fn lemma_tag(f: Frame, ts: Seq<Tok>, addr: Option<Seq<char>>)
    requires
        f.read_from(ts, addr),
    ensures
        ts.len() >= 2,
        ts[1] == Tok::Uint(f.tag()),
{
    match f {
        Frame::Rows { rows } => {
            cbor::lemma_put_all_base(list_head(T_ROWS, rows@.len()), rows@, row_item());
            assert(ts[1] == Tok::Uint(T_ROWS));
        },
        Frame::Order { entries } => {
            cbor::lemma_put_all_base(
                list_head(T_ORDER_ROWS, entries@.len()),
                entries@,
                order_item(),
            );
            assert(ts[1] == Tok::Uint(T_ORDER_ROWS));
        },
        Frame::Members { members } => {
            cbor::lemma_put_all_base(
                list_head(T_MEMBERS, members@.len()),
                members@,
                member_item(),
            );
            assert(ts[1] == Tok::Uint(T_MEMBERS));
        },
        Frame::Trusted { entries } => {
            cbor::lemma_put_all_base(
                list_head(T_TRUSTED, entries@.len()),
                entries@,
                trusted_item(),
            );
            assert(ts[1] == Tok::Uint(T_TRUSTED));
        },
        Frame::Rooms { rooms } => {
            let flags = choose|flags: Seq<u64>|
                rooms_read(rooms@, flags) && ts == #[trigger] rooms_toks(rooms@, flags);
            cbor::lemma_put_all_base(
                list_head(T_ROOMS, rooms@.len()),
                rooms_as(rooms@, flags),
                room_item(),
            );
            assert(ts[1] == Tok::Uint(T_ROOMS));
        },
        Frame::Event(ev) => {
            assert(ev.toks()[1] == Tok::Uint(ev.tag()));
            assert(readdressed(ts, addr)[1] == ts[1]);
        },
        _ => {},
    }
}

} // verus!
