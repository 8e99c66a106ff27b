//! The Vox interface: TCP is terminated in userspace and handed to the overlay.
//!
//! Nothing binds a port. A destination port is a field of a packet's header; it is read
//! here and names the service. Which ports are dialled is learned from the packets that
//! open connections: the first to a pair that nothing listens for is held back, a socket
//! is asked for, and the packet is replayed once there is one.

use vstd::prelude::*;

use crate::cbor;
use crate::error::Error;
use crate::hash;
use crate::table::{Key, Table};

pub mod laws;

verus! {

/// The buffer of a socket, each way.
pub const SOCKET_BUFFER: usize = 65536;

/// The buffer of the local bridge, each way.
pub const BRIDGE_BUFFER: usize = 65536;

/// The largest chunk moved at once.
pub const CHUNK: usize = 16384;

/// How many milliseconds lie between two polls.
pub const POLL_INTERVAL_MILLIS: u64 = 5;

/// The most connections that one interface terminates at once.
pub const MAX_CONNECTIONS: usize = 256;

/// The most pairs of address and port that are kept listening.
pub const MAX_LISTENERS: usize = 64;

/// The number of TCP among the protocols that an IPv6 header names.
pub const PROTOCOL_TCP: u8 = 6;

// ---- packets -----------------------------------------------------------------

/// An address and a port to which a connection is opened.
#[derive(Debug, Clone, Copy, PartialEq, Eq)]
pub struct Target {
    /// The address, which names the room.
    pub to: [u8; 16],
    /// The port, which names the service.
    pub port: u16,
}

impl Target {
    fn bytes(&self) -> (b: Vec<u8>)
        ensures
            b@ == self.key_bytes(),
    {
        let mut b: Vec<u8> = vstd::slice::slice_to_vec(self.to.as_slice());
        b.push((self.port / 256) as u8);
        b.push((self.port % 256) as u8);
        proof {
            reveal_with_fuel(cbor::be, 3);
            assert(b@ =~= self.to@ + cbor::be(self.port as nat, 2));
        }
        b
    }
}

impl Key for Target {
    open spec fn key_bytes(&self) -> Seq<u8> {
        self.to@ + cbor::be(self.port as nat, 2)
    }

    fn before(&self, other: &Self) -> (r: bool) {
        let a: Vec<u8> = self.bytes();
        let b: Vec<u8> = other.bytes();
        hash::is_before(a.as_slice(), b.as_slice())
    }

    fn same(&self, other: &Self) -> (r: bool) {
        let a: Vec<u8> = self.bytes();
        let b: Vec<u8> = other.bytes();
        hash::same_bytes(a.as_slice(), b.as_slice())
    }
}

/// What is read of an IPv6 header, and what the packet carries.
struct Ipv6Head {
    next_header: u8,
    to: [u8; 16],
    payload: Vec<u8>,
}

/// What is read of a TCP header.
struct TcpHead {
    port: u16,
    syn: bool,
    ack: bool,
}

/// How long a packet says its payload is.
pub open spec fn payload_len(p: Seq<u8>) -> int {
    p[4] * 256 + p[5]
}

/// Whether a packet is as long as an IPv6 header and the payload that it announces.
pub open spec fn is_ipv6(p: Seq<u8>) -> bool {
    p.len() >= 40 && p.len() >= 40 + payload_len(p)
}

/// How long a segment says its header is.
pub open spec fn header_len(s: Seq<u8>) -> int {
    (s[12] / 16) * 4
}

/// Whether a segment holds the TCP header that it announces, and that is no shorter than
/// one is.
pub open spec fn is_tcp(s: Seq<u8>) -> bool {
    s.len() >= 20 && 20 <= header_len(s) <= s.len()
}

/// `smoltcp::wire::Ipv6Packet::new_checked`, and of the packet `next_header`, `dst_addr`
/// and `payload`. A packet is accepted where it holds a header of 40 bytes and the payload
/// that bytes 4 and 5 announce; the next header is byte 6, the destination bytes 24 to 39,
/// and the payload what is announced behind the header. The version is not looked at.
#[verifier::external_body]
fn ipv6_head(packet: &[u8]) -> (r: Option<Ipv6Head>)
    ensures
        match r {
            Some(h) => {
                &&& is_ipv6(packet@)
                &&& h.next_header == packet@[6]
                &&& h.to@ == packet@.subrange(24, 40)
                &&& h.payload@ == packet@.subrange(40, 40 + payload_len(packet@))
            },
            None => !is_ipv6(packet@),
        },
{
    let ip = smoltcp::wire::Ipv6Packet::new_checked(packet).ok()?;
    Some(
        Ipv6Head {
            next_header: ip.next_header().into(),
            to: ip.dst_addr().octets(),
            payload: ip.payload().to_vec(),
        },
    )
}

/// `smoltcp::wire::TcpPacket::new_checked`, and of the segment `dst_port`, `syn` and
/// `ack`. A segment is accepted where it holds the header that the high half of byte 12
/// announces in words of 4 bytes, and that is at least 20 bytes long; the port is bytes 2
/// and 3, and the flags are bits 1 and 4 of byte 13.
#[verifier::external_body]
fn tcp_head(segment: &[u8]) -> (r: Option<TcpHead>)
    ensures
        match r {
            Some(h) => {
                &&& is_tcp(segment@)
                &&& h.port == segment@[2] * 256 + segment@[3]
                &&& h.syn == ((segment@[13] / 2) % 2 == 1)
                &&& h.ack == ((segment@[13] / 16) % 2 == 1)
            },
            None => !is_tcp(segment@),
        },
{
    let tcp = smoltcp::wire::TcpPacket::new_checked(segment).ok()?;
    Some(TcpHead { port: tcp.dst_port(), syn: tcp.syn(), ack: tcp.ack() })
}

/// What the payload of a packet is.
pub open spec fn segment_of(p: Seq<u8>) -> Seq<u8> {
    p.subrange(40, 40 + payload_len(p))
}

/// Whether a packet opens a TCP connection: it says SYN and not ACK.
pub open spec fn opens(p: Seq<u8>) -> bool {
    let s = segment_of(p);
    &&& is_ipv6(p)
    &&& p[6] == PROTOCOL_TCP
    &&& is_tcp(s)
    &&& (s[13] / 2) % 2 == 1
    &&& (s[13] / 16) % 2 == 0
}

/// The address that a packet goes to.
pub open spec fn address_of(p: Seq<u8>) -> Seq<u8> {
    p.subrange(24, 40)
}

/// The port that a packet goes to.
pub open spec fn port_of(p: Seq<u8>) -> int {
    segment_of(p)[2] * 256 + segment_of(p)[3]
}

/// Whether `t` is where a packet opens a connection to.
pub open spec fn opens_to(p: Seq<u8>, t: Target) -> bool {
    opens(p) && t.to@ == address_of(p) && t.port == port_of(p)
}

/// Whether a packet opens a connection, and where to. What is malformed opens nothing, and
/// is left for the stack to reject.
pub fn syn_target(packet: &[u8]) -> (r: Option<Target>)
    ensures
        match r {
            Some(t) => opens_to(packet@, t),
            None => !opens(packet@),
        },
{
    let ip: Ipv6Head = ipv6_head(packet)?;
    if ip.next_header != PROTOCOL_TCP {
        return None;
    }
    let tcp: TcpHead = tcp_head(ip.payload.as_slice())?;
    if !tcp.syn || tcp.ack {
        return None;
    }
    Some(Target { to: ip.to, port: tcp.port })
}

/// The key of where a packet opens a connection to.
pub open spec fn target_key(p: Seq<u8>) -> Seq<u8> {
    address_of(p) + cbor::be(port_of(p) as nat, 2)
}

proof fn lemma_target_key(p: Seq<u8>, t: Target)
    requires
        opens_to(p, t),
    ensures
        t.key_bytes() == target_key(p),
{
}

// ---- the stack's books -------------------------------------------------------

/// What an interface keeps beside the stack itself: which pairs have a listening socket,
/// which are wanted, and the packets that are held back.
#[derive(Debug)]
pub struct Netstack {
    /// The pairs for which packets are let through.
    pub listening: Table<Target, ()>,
    /// The pairs that a packet asked for and that nothing listens for.
    pub wanted: Table<Target, ()>,
    /// The packets held back, in arrival order.
    pub held: Vec<Vec<u8>>,
    /// The pairs with a socket that listens.
    pub listeners: Table<Target, ()>,
    /// How many connections are terminated.
    pub conns: usize,
}

/// What the device hands to the stack next.
#[derive(Debug, PartialEq, Eq)]
pub enum Received {
    /// A packet that was held back.
    Replay(Vec<u8>),
    /// Nothing this time: a packet is ready, but there is nothing to answer it with.
    Stall,
    /// Whatever the device itself has.
    Fresh,
}

/// Whether the first packet held back has its socket.
pub open spec fn ready(n: Netstack) -> bool {
    n.held@.len() > 0 && n.listening.has(target_key(n.held@[0]@))
}

impl Netstack {
    /// What the books keep: every bound, and that nothing is held back that opens no
    /// connection.
    pub open spec fn wf(&self) -> bool {
        &&& self.listening.wf()
        &&& self.wanted.wf()
        &&& self.listeners.wf()
        &&& self.held@.len() <= MAX_LISTENERS
        &&& self.listeners.rows().len() <= MAX_LISTENERS
        &&& self.conns <= MAX_CONNECTIONS
        &&& forall|i: int| 0 <= i < self.held@.len() ==> opens((#[trigger] self.held@[i])@)
    }

    /// The books of a stack that answers for these addresses. `set` says how many of them
    /// the stack took.
    pub fn new(addrs: &Vec<[u8; 16]>, set: usize) -> (r: Result<Netstack, Error>)
        ensures
            match r {
                Ok(n) => {
                    &&& addrs@.len() > 0 && set > 0
                    &&& n.wf()
                    &&& n.listening.rows().len() == 0
                    &&& n.wanted.rows().len() == 0
                    &&& n.listeners.rows().len() == 0
                    &&& n.held@.len() == 0
                    &&& n.conns == 0
                },
                Err(e) => if addrs@.len() == 0 {
                    e == Error::MalformedLink("an interface with no addresses")
                } else {
                    set == 0 && e == Error::MalformedLink("no interface address could be set")
                },
            },
    {
        if addrs.len() == 0 {
            return Err(Error::MalformedLink("an interface with no addresses"));
        }
        if set == 0 {
            return Err(Error::MalformedLink("no interface address could be set"));
        }
        Ok(
            Netstack {
                listening: Table::new(),
                wanted: Table::new(),
                held: Vec::new(),
                listeners: Table::new(),
                conns: 0,
            },
        )
    }

    /// Whether a packet from the device goes on to the stack. One that opens a connection
    /// to a pair that nothing listens for does not: it is held back, and its pair is
    /// wanted, unless as many are held back as will be.
    pub fn consume(&mut self, packet: &[u8]) -> (passes: bool)
        requires
            old(self).wf(),
        ensures
            final(self).wf(),
            final(self).listening == old(self).listening,
            final(self).listeners == old(self).listeners,
            final(self).conns == old(self).conns,
            passes == !(opens(packet@) && !old(self).listening.has(target_key(packet@))),
            if passes || old(self).held@.len() == MAX_LISTENERS {
                *final(self) == *old(self)
            } else {
                &&& final(self).held@.len() == old(self).held@.len() + 1
                &&& final(self).held@.drop_last() == old(self).held@
                &&& final(self).held@.last()@ == packet@
                &&& final(self).wanted.map() == old(self).wanted.map().insert(
                    target_key(packet@),
                    (),
                )
            },
    {
        let target: Target = match syn_target(packet) {
            Some(t) => t,
            None => {
                return true;
            },
        };
        proof {
            lemma_target_key(packet@, target);
        }
        if self.listening.contains_key(&target) {
            return true;
        }
        if self.held.len() < MAX_LISTENERS {
            self.wanted.insert(target, ());
            let ghost before = self.held@;
            self.held.push(vstd::slice::slice_to_vec(packet));
            proof {
                assert(self.held@.drop_last() =~= before);
                assert forall|i: int| 0 <= i < self.held@.len() implies opens(
                    (#[trigger] self.held@[i])@,
                ) by {
                    if i < before.len() {
                        assert(self.held@[i] == before[i]);
                    }
                }
            }
        }
        false
    }

    /// What the device hands to the stack: a packet that was held back and has its socket
    /// by now comes before anything new, so that the order of arrival is kept. `answer`
    /// says whether there is something to answer it with; where there is not, the packet
    /// stays.
    pub fn receive(&mut self, answer: bool) -> (r: Received)
        requires
            old(self).wf(),
        ensures
            final(self).wf(),
            match r {
                Received::Replay(p) => {
                    &&& ready(*old(self)) && answer
                    &&& p == old(self).held@[0]
                    &&& final(self).held@ == old(self).held@.skip(1)
                    &&& *final(self) == (Netstack { held: final(self).held, ..*old(self) })
                },
                Received::Stall => ready(*old(self)) && !answer && *final(self) == *old(self),
                Received::Fresh => !ready(*old(self)) && *final(self) == *old(self),
            },
    {
        if self.held.len() == 0 {
            return Received::Fresh;
        }
        assert(opens(self.held@[0]@));
        let target: Target = match syn_target(self.held[0].as_slice()) {
            Some(t) => t,
            None => {
                return Received::Fresh;
            },
        };
        proof {
            lemma_target_key(self.held@[0]@, target);
        }
        if !self.listening.contains_key(&target) {
            return Received::Fresh;
        }
        if !answer {
            return Received::Stall;
        }
        let ghost before = self.held@;
        let p: Vec<u8> = self.held.remove(0);
        proof {
            assert(self.held@ =~= before.skip(1));
            assert forall|i: int| 0 <= i < self.held@.len() implies opens(
                (#[trigger] self.held@[i])@,
            ) by {
                assert(self.held@[i] == before[i + 1]);
            }
        }
        Received::Replay(p)
    }

    /// Whether one more socket may listen for a pair.
    pub open spec fn may_arm(&self, t: Target) -> bool {
        self.listeners.rows().len() < MAX_LISTENERS || self.listeners.has(t.key_bytes())
    }

    /// Whether a socket may be put to listen for `t`.
    pub fn has_place(&self, t: &Target) -> (r: bool)
        requires
            self.wf(),
        ensures
            r == self.may_arm(*t),
    {
        self.listeners.len() < MAX_LISTENERS || self.listeners.contains_key(t)
    }

    /// Takes up that a socket was put to listen for `t`; `listens` says whether it took.
    pub fn arm(&mut self, t: Target, listens: bool) -> (r: bool)
        requires
            old(self).wf(),
        ensures
            final(self).wf(),
            r == (old(self).may_arm(t) && listens),
            if r {
                &&& final(self).listeners.map() == old(self).listeners.map().insert(
                    t.key_bytes(),
                    (),
                )
                &&& final(self).listening.map() == old(self).listening.map().insert(
                    t.key_bytes(),
                    (),
                )
                &&& *final(self) == (Netstack {
                    listeners: final(self).listeners,
                    listening: final(self).listening,
                    ..*old(self)
                })
            } else {
                *final(self) == *old(self)
            },
    {
        if !self.has_place(&t) || !listens {
            return false;
        }
        self.listeners.insert(t, ());
        self.listening.insert(t, ());
        true
    }

    /// The pairs to put sockets to listen for: those that packets asked for, in order,
    /// without those that have one. They are not asked for any more.
    pub fn take_wanted(&mut self) -> (v: Vec<Target>)
        requires
            old(self).wf(),
        ensures
            final(self).wf(),
            final(self).wanted.rows().len() == 0,
            *final(self) == (Netstack { wanted: final(self).wanted, ..*old(self) }),
            v@ == crate::lists::pick(keys_of(old(self).wanted.rows()), unserved(*old(self))),
    {
        let ghost rows = self.wanted.rows();
        let ghost all = keys_of(rows);
        let ghost p = unserved(*self);
        let mut v: Vec<Target> = Vec::new();
        let mut i: usize = 0;
        assert(all.take(0) =~= Seq::empty());
        while i < self.wanted.len()
            invariant
                *self == *old(self),
                self.wf(),
                i <= rows.len(),
                rows == self.wanted.rows(),
                all == keys_of(rows),
                p == unserved(*self),
                v@ == crate::lists::pick(all.take(i as int), p),
            decreases rows.len() - i,
        {
            let t: Target = self.wanted.row(i).0;
            proof {
                assert(all.take(i + 1).drop_last() =~= all.take(i as int));
                assert(all.take(i + 1).last() == t);
            }
            if !self.listeners.contains_key(&t) {
                v.push(t);
            }
            i = i + 1;
        }
        assert(all.take(i as int) =~= all);
        self.wanted = Table::new();
        v
    }

    /// Takes up that the socket for `t` has a peer. The result says whether the connection
    /// is taken; where as many are terminated as will be, it is refused with a reset, which
    /// is the truthful answer.
    pub fn take_established(&mut self, t: &Target) -> (taken: bool)
        requires
            old(self).wf(),
        ensures
            final(self).wf(),
            taken == (old(self).conns < MAX_CONNECTIONS),
            final(self).listeners.map() == old(self).listeners.map().remove(t.key_bytes()),
            if taken {
                *final(self) == (Netstack {
                    listeners: final(self).listeners,
                    conns: (old(self).conns + 1) as usize,
                    ..*old(self)
                })
            } else {
                &&& final(self).listening.map() == old(self).listening.map().remove(t.key_bytes())
                &&& *final(self) == (Netstack {
                    listeners: final(self).listeners,
                    listening: final(self).listening,
                    ..*old(self)
                })
            },
    {
        self.listeners.remove(t);
        if self.conns >= MAX_CONNECTIONS {
            self.listening.remove(t);
            return false;
        }
        self.conns = self.conns + 1;
        true
    }

    /// Takes up that a connection is over.
    pub fn reaped(&mut self)
        requires
            old(self).wf(),
            old(self).conns > 0,
        ensures
            final(self).wf(),
            *final(self) == (Netstack { conns: (old(self).conns - 1) as usize, ..*old(self) }),
    {
        self.conns = self.conns - 1;
    }
}

/// The pairs of a table.
pub open spec fn keys_of(rows: Seq<(Target, ())>) -> Seq<Target> {
    Seq::new(rows.len(), |i: int| rows[i].0)
}

/// The pairs that no socket listens for.
pub open spec fn unserved(n: Netstack) -> spec_fn(Target) -> bool {
    |t: Target| !n.listeners.has(t.key_bytes())
}

/// The interface is transparent: a packet that opens no connection always goes on, and one
/// that opens a connection goes on where something listens. One that is held back is
/// ready as soon as something listens for its pair, and it is the next packet that the
/// stack gets if it is the first that is held.
pub proof fn law_held_is_replayed(n: Netstack, armed: Netstack, packet: Seq<u8>)
    requires
        opens(packet),
        n.held@.len() > 0,
        n.held@[0]@ == packet,
        armed.held == n.held,
        armed.listening.map() == n.listening.map().insert(target_key(packet), ()),
    ensures
        ready(armed),
{
}

// ---- a connection ------------------------------------------------------------

/// One connection that is terminated, from the stack's side.
#[derive(Debug, PartialEq, Eq)]
pub struct Conn {
    /// What the tool sent and the socket has not taken yet.
    pub queued: Vec<u8>,
    /// Whether the tool has closed its side.
    pub local_done: bool,
}

impl Conn {
    /// A connection that has just come up.
    pub fn new() -> (c: Conn)
        ensures
            c.queued@.len() == 0,
            !c.local_done,
    {
        Conn { queued: Vec::new(), local_done: false }
    }

    /// Whether more of what the tool sent is taken: only while there is somewhere to put
    /// it, so that a socket that cannot be written to holds the tool back.
    pub fn wants_more(&self) -> (r: bool)
        ensures
            r == (self.queued@.len() < SOCKET_BUFFER),
    {
        self.queued.len() < SOCKET_BUFFER
    }

    /// Takes up what the tool sent, or that it has closed its side.
    pub fn from_local(&mut self, chunk: Option<Vec<u8>>)
        ensures
            match chunk {
                Some(b) => {
                    &&& final(self).queued@ == old(self).queued@ + b@
                    &&& final(self).local_done == old(self).local_done
                },
                None => {
                    &&& final(self).queued == old(self).queued
                    &&& final(self).local_done
                },
            },
    {
        match chunk {
            Some(b) => {
                let mut b: Vec<u8> = b;
                self.queued.append(&mut b);
            },
            None => {
                self.local_done = true;
            },
        }
    }

    /// Takes up that the socket took the first `n` bytes.
    pub fn sent(&mut self, n: usize)
        requires
            n <= old(self).queued@.len(),
        ensures
            final(self).queued@ == old(self).queued@.skip(n as int),
            final(self).local_done == old(self).local_done,
    {
        let left: usize = self.queued.len();
        self.queued = vstd::slice::slice_to_vec(
            vstd::slice::slice_subrange(self.queued.as_slice(), n, left),
        );
        assert(self.queued@ =~= old(self).queued@.skip(n as int));
    }

    /// Whether the socket's sending half is closed now: the tool has closed its side, and
    /// the socket has taken everything.
    pub fn closes(&self, may_send: bool) -> (r: bool)
        ensures
            r == (self.local_done && self.queued@.len() == 0 && may_send),
    {
        self.local_done && self.queued.len() == 0 && may_send
    }

    /// Whether the connection is over: the socket is gone and nothing is left to hand over.
    pub fn over(&self, active: bool, can_recv: bool) -> (r: bool)
        ensures
            r == (!active && !can_recv && self.queued@.len() == 0),
    {
        !active && !can_recv && self.queued.len() == 0
    }
}

/// What is taken of a socket's data for the tool: no more than [`CHUNK`] bytes, from the
/// front.
pub fn take_chunk(data: &[u8]) -> (b: Vec<u8>)
    ensures
        b@ == data@.take(if data@.len() < CHUNK {
            data@.len() as int
        } else {
            CHUNK as int
        }),
{
    let n: usize = if data.len() < CHUNK {
        data.len()
    } else {
        CHUNK
    };
    let b: Vec<u8> = vstd::slice::slice_to_vec(vstd::slice::slice_subrange(data, 0, n));
    assert(b@ =~= data@.take(n as int));
    b
}

/// What the socket took is, byte for byte and in order, the front of what the tool sent.
pub proof fn law_bytes_keep_their_order(
    sent: Seq<u8>,
    queued: Seq<u8>,
    received: Seq<u8>,
    chunk: Seq<u8>,
    n: int,
)
    requires
        sent + queued == received,
        0 <= n <= (queued + chunk).len(),
    ensures
        (sent + (queued + chunk).take(n)) + (queued + chunk).skip(n) == received + chunk,
{
    assert((sent + (queued + chunk).take(n)) + (queued + chunk).skip(n) =~= received + chunk);
}

} // verus!
