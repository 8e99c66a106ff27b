//! The coord stream: what address a peer sees for this node, and the signaling of a hole
//! punch.
//!
//! Any authenticated peer may ask what address is seen for it. A signaling session is
//! carried only between peers that this node knows in some way, a pending joiner among
//! them; and a session that this node's own anchor carries is taken whoever the far peer
//! is. A coordinator forwards signaling frames and nothing else, and only a few of them.

use vstd::prelude::*;

use crate::cbor::{self, Cur, Decoder, Encoder, Tok};
use crate::error::Error;
use crate::hash::Digest32;

pub mod punch;
pub mod session;

verus! {

/// The largest coord frame.
pub const MAX_COORD_FRAME: usize = 4096;

/// How many signaling frames a coordinator forwards one way in one session.
pub const MAX_RELAYED_FRAMES: usize = 8;

/// How many seconds a relayed session may live.
pub const RELAY_SESSION_SECS: u64 = 30;

/// How many seconds one frame of the peer's is waited for.
pub const FRAME_TIMEOUT_SECS: u64 = 10;

/// How many seconds the synchronized dial waits for each target.
pub const PUNCH_ATTEMPT_SECS: u64 = 6;

/// Frame tag of a question for the observed address.
pub const OP_WHOAMI: u64 = 0;

/// Frame tag of the observed address.
pub const OP_OBSERVED: u64 = 1;

/// Frame tag of a request to carry a session.
pub const OP_RELAY: u64 = 2;

/// Frame tag of a session that is carried here.
pub const OP_FROM: u64 = 3;

/// Frame tag of a session that is up.
pub const OP_RELAYING: u64 = 4;

/// Frame tag of a refusal.
pub const OP_REFUSED: u64 = 5;

/// Frame tag of a signaling message.
pub const OP_COORD: u64 = 6;

/// What a node knows of a peer.
#[derive(Debug, Clone, Copy, PartialEq, Eq, Structural)]
pub enum PeerClass {
    /// A member of a channel held here.
    Member,
    /// An anchor of this node's.
    Anchor,
    /// A peer with a live pre-join record on this node's board.
    PendingJoiner,
    /// Anyone else.
    Unknown,
}

/// Whether a node relays for a peer of this class: for anyone it knows in some way.
pub open spec fn relays(class: PeerClass) -> bool {
    class != PeerClass::Unknown
}

/// Whether a node takes part in a session that a peer carried here from another: the
/// carrier must be one that it would relay for, and the origin too, unless the carrier
/// is its own anchor, which vouches for whomever it introduces.
pub open spec fn accepts(relay: PeerClass, origin: PeerClass) -> bool {
    relays(relay) && (relays(origin) || relay == PeerClass::Anchor)
}

/// Whether this node relays for a peer of this class.
#[must_use]
pub fn relays_for(class: PeerClass) -> (r: bool)
    ensures
        r == relays(class),
{
    match class {
        PeerClass::Member | PeerClass::Anchor | PeerClass::PendingJoiner => true,
        PeerClass::Unknown => false,
    }
}

/// Whether this node takes part in a session that `relay` carried here from `origin`.
#[must_use]
pub fn accepts_relayed(relay: PeerClass, origin: PeerClass) -> (r: bool)
    ensures
        r == accepts(relay, origin),
{
    relays_for(relay) && (relays_for(origin) || relay == PeerClass::Anchor)
}

// ---- frames ------------------------------------------------------------------

/// Why a coordinator or a responder takes no part.
#[derive(Debug, Clone, Copy, PartialEq, Eq, Structural)]
pub enum CoordRefusal {
    /// The coordinator has no live connection to the named peer.
    NotConnected,
    /// The asker, or the peer it named, is not one this node relays for.
    NotAuthorized,
    /// This node carries as many sessions as it will.
    Capacity,
}

impl CoordRefusal {
    /// The number on the wire.
    pub open spec fn number(self) -> u64 {
        match self {
            CoordRefusal::NotConnected => 0,
            CoordRefusal::NotAuthorized => 1,
            CoordRefusal::Capacity => 2,
        }
    }

    fn code(self) -> (n: u64)
        ensures
            n == self.number(),
    {
        match self {
            CoordRefusal::NotConnected => 0,
            CoordRefusal::NotAuthorized => 1,
            CoordRefusal::Capacity => 2,
        }
    }

    fn from_code(code: u64) -> (r: Result<CoordRefusal, Error>)
        ensures
            match r {
                Ok(x) => x.number() == code,
                Err(e) => code > 2 && e == Error::HolePunchFailed("coord: unknown refusal reason"),
            },
    {
        if code == 0 {
            Ok(CoordRefusal::NotConnected)
        } else if code == 1 {
            Ok(CoordRefusal::NotAuthorized)
        } else if code == 2 {
            Ok(CoordRefusal::Capacity)
        } else {
            Err(Error::HolePunchFailed("coord: unknown refusal reason"))
        }
    }
}

/// One frame on a coord stream.
#[derive(Debug, PartialEq, Eq)]
pub enum CoordFrame {
    /// What address is seen for the asker?
    WhoAmI,
    /// The address that the peer sees for this connection.
    Observed {
        /// The address, in its own encoding.
        addr: Vec<u8>,
    },
    /// A session to this peer is asked for.
    Relay {
        /// The peer to reach.
        peer: Digest32,
    },
    /// A session from that peer.
    From {
        /// The peer that asked for the session.
        peer: Digest32,
    },
    /// The session is up.
    Relaying,
    /// The session is refused.
    Refused {
        /// Why.
        reason: CoordRefusal,
    },
    /// One signaling message, opaque to the coordinator.
    Coord {
        /// The message.
        payload: Vec<u8>,
    },
}

/// The front of a frame with `n` elements.
pub open spec fn front(n: u64, op: u64) -> Seq<Tok> {
    cbor::items().push(Tok::Array(n)).push(Tok::Uint(op))
}

/// What is wrong with `b` as a coord frame, or `None` where it is one. `addr` says how
/// many of the bytes behind the tag an address takes up.
pub open spec fn coord_fault(b: Seq<u8>, addr: Result<usize, Error>) -> Option<Error> {
    let c0 = Cur::at(b);
    let n = c0.peek_array();
    let c1 = c0.array(cbor::raw());
    let op = c1.peek_uint();
    let c2 = c1.uint(cbor::raw());
    let end = Error::HolePunchFailed("coord: trailing bytes");
    let peer = c2.digest(cbor::raw(), Error::HolePunchFailed("coord: fingerprint length"));
    if op == OP_WHOAMI && n == 1 {
        c2.end(end).bad
    } else if op == OP_OBSERVED && n == 2 {
        match c2.bad {
            Some(e) => Some(e),
            None => match addr {
                Err(e) => Some(e),
                Ok(k) => if k == observed_part(b).len() {
                    None
                } else {
                    Some(end)
                },
            },
        }
    } else if op == OP_RELAY && n == 2 {
        peer.end(end).bad
    } else if op == OP_FROM && n == 2 {
        peer.end(end).bad
    } else if op == OP_RELAYING && n == 1 {
        c2.end(end).bad
    } else if op == OP_REFUSED && n == 2 {
        c2.uint(cbor::raw()).check(
            c2.peek_uint() <= 2,
            Error::HolePunchFailed("coord: unknown refusal reason"),
        ).end(end).bad
    } else if op == OP_COORD && n == 2 {
        c2.bytes(cbor::raw()).end(end).bad
    } else if op <= OP_COORD {
        c2.fail(Error::HolePunchFailed("coord: frame arity")).bad
    } else {
        c2.fail(Error::HolePunchFailed("coord: unknown op")).bad
    }
}

/// What stands behind the tag of a frame that carries an address.
pub open spec fn observed_part(b: Seq<u8>) -> Seq<u8> {
    b.skip(cbor::enc(front(2, OP_OBSERVED)).len() as int)
}

impl CoordFrame {
    /// What a frame writes in front of an address.
    pub open spec fn toks(&self) -> Seq<Tok> {
        match *self {
            CoordFrame::WhoAmI => front(1, OP_WHOAMI),
            CoordFrame::Observed { addr } => front(2, OP_OBSERVED),
            CoordFrame::Relay { peer } => front(2, OP_RELAY).push(Tok::Bytes(peer@)),
            CoordFrame::From { peer } => front(2, OP_FROM).push(Tok::Bytes(peer@)),
            CoordFrame::Relaying => front(1, OP_RELAYING),
            CoordFrame::Refused { reason } => front(2, OP_REFUSED).push(
                Tok::Uint(reason.number()),
            ),
            CoordFrame::Coord { payload } => front(2, OP_COORD).push(Tok::Bytes(payload@)),
        }
    }

    /// The frame as bytes: an array led by the tag.
    pub open spec fn wire(&self) -> Seq<u8> {
        match *self {
            CoordFrame::Observed { addr } => cbor::enc(self.toks()) + addr@,
            _ => cbor::enc(self.toks()),
        }
    }

    /// Whether both are one frame.
    pub open spec fn is_same(&self, other: &CoordFrame) -> bool {
        match (*self, *other) {
            (CoordFrame::Observed { addr: a }, CoordFrame::Observed { addr: b }) => a@ == b@,
            (CoordFrame::Coord { payload: a }, CoordFrame::Coord { payload: b }) => a@ == b@,
            (a, b) => a == b,
        }
    }

    /// The frame in canonical form.
    #[must_use]
    pub fn to_bytes(&self) -> (b: Vec<u8>)
        ensures
            b@ == self.wire(),
    {
        let mut e = Encoder::new();
        match self {
            CoordFrame::WhoAmI => {
                e.array(1);
                e.uint(OP_WHOAMI);
            },
            CoordFrame::Observed { addr } => {
                e.array(2);
                e.uint(OP_OBSERVED);
                let mut b: Vec<u8> = e.finish();
                let mut rest: Vec<u8> = vstd::slice::slice_to_vec(addr.as_slice());
                b.append(&mut rest);
                return b;
            },
            CoordFrame::Relay { peer } => {
                e.array(2);
                e.uint(OP_RELAY);
                e.digest(peer);
            },
            CoordFrame::From { peer } => {
                e.array(2);
                e.uint(OP_FROM);
                e.digest(peer);
            },
            CoordFrame::Relaying => {
                e.array(1);
                e.uint(OP_RELAYING);
            },
            CoordFrame::Refused { reason } => {
                e.array(2);
                e.uint(OP_REFUSED);
                e.uint(reason.code());
            },
            CoordFrame::Coord { payload } => {
                e.array(2);
                e.uint(OP_COORD);
                e.bytes(payload.as_slice());
            },
        }
        e.finish()
    }

    /// Decodes a frame strictly: an unknown tag, a wrong arity, a fingerprint that is not
    /// 32 bytes long and trailing bytes are all refused. `addr` says how many of the bytes
    /// behind the tag an address takes up, where the frame carries one (see
    /// [`CoordFrame::address_part`]).
    pub fn from_bytes(bytes: &[u8], addr: Result<usize, Error>) -> (r: Result<CoordFrame, Error>)
        ensures
            match r {
                Ok(f) => {
                    &&& coord_fault(bytes@, addr) is None
                    &&& f.wire() == bytes@
                    &&& cbor::all_encodable(f.toks())
                },
                Err(e) => coord_fault(bytes@, addr) == Some(e),
            },
    {
        let mut d = Decoder::new(bytes);
        let n: u64 = d.array(Error::Cbor("cbor"))?;
        let op: u64 = d.uint(Error::Cbor("cbor"))?;
        let f: CoordFrame = if op == OP_WHOAMI && n == 1 {
            CoordFrame::WhoAmI
        } else if op == OP_OBSERVED && n == 2 {
            let rest: &[u8] = d.remaining();
            proof {
                assert(d.seen() =~= front(2, OP_OBSERVED));
                assert(observed_part(bytes@) =~= rest@);
            }
            if addr? != rest.len() {
                return Err(Error::HolePunchFailed("coord: trailing bytes"));
            }
            return Ok(CoordFrame::Observed { addr: vstd::slice::slice_to_vec(rest) });
        } else if op == OP_RELAY && n == 2 {
            CoordFrame::Relay {
                peer: d.digest(
                    Error::Cbor("cbor"),
                    Error::HolePunchFailed("coord: fingerprint length"),
                )?,
            }
        } else if op == OP_FROM && n == 2 {
            CoordFrame::From {
                peer: d.digest(
                    Error::Cbor("cbor"),
                    Error::HolePunchFailed("coord: fingerprint length"),
                )?,
            }
        } else if op == OP_RELAYING && n == 1 {
            CoordFrame::Relaying
        } else if op == OP_REFUSED && n == 2 {
            let code: u64 = d.uint(Error::Cbor("cbor"))?;
            CoordFrame::Refused { reason: CoordRefusal::from_code(code)? }
        } else if op == OP_COORD && n == 2 {
            CoordFrame::Coord { payload: vstd::slice::slice_to_vec(d.bytes(Error::Cbor("cbor"))?) }
        } else if op <= OP_COORD {
            return Err(Error::HolePunchFailed("coord: frame arity"));
        } else {
            return Err(Error::HolePunchFailed("coord: unknown op"));
        };
        d.finish(Error::HolePunchFailed("coord: trailing bytes"))?;
        proof {
            assert(f.toks() =~= d.seen());
            cbor::law_clean_is_canonical(bytes@);
        }
        Ok(f)
    }

    /// What stands behind the tag, where the frame is one that carries an address: the
    /// address is read from its front.
    pub fn address_part<'a>(bytes: &'a [u8]) -> (r: Option<&'a [u8]>)
        ensures
            match r {
                Some(part) => bytes@ == cbor::enc(front(2, OP_OBSERVED)) + part@,
                None => {
                    let c1 = Cur::at(bytes@).array(cbor::raw());
                    ||| c1.uint(cbor::raw()).bad is Some
                    ||| Cur::at(bytes@).peek_array() != 2
                    ||| c1.peek_uint() != OP_OBSERVED
                },
            },
    {
        let mut d = Decoder::new(bytes);
        let n: u64 = match d.array(Error::Cbor("cbor")) {
            Ok(n) => n,
            Err(_) => {
                return None;
            },
        };
        let op: u64 = match d.uint(Error::Cbor("cbor")) {
            Ok(op) => op,
            Err(_) => {
                return None;
            },
        };
        if n != 2 || op != OP_OBSERVED {
            return None;
        }
        let part: &'a [u8] = d.remaining();
        assert(d.seen() =~= front(2, OP_OBSERVED));
        Some(part)
    }
}

/// A coord frame is read back as it was written: it is accepted where its address reads
/// as itself, and a frame with the same bytes is the same frame.
pub proof fn law_coord_frame_read_back(f: CoordFrame, taken: Result<usize, Error>)
    requires
        cbor::all_encodable(f.toks()),
        match f {
            CoordFrame::Observed { addr } => taken is Ok && taken->Ok_0 == addr@.len(),
            _ => true,
        },
    ensures
        coord_fault(f.wire(), taken) is None,
        forall|g: CoordFrame|
            cbor::all_encodable(g.toks()) && #[trigger] g.wire() == f.wire() ==> g.is_same(&f),
{
    let ts = f.toks();
    lemma_wire_front(f);
    let b = f.wire();
    assert(cbor::toks_of(b)[0] == ts[0]);
    assert(cbor::toks_of(b)[1] == ts[1]);
    match f {
        CoordFrame::Observed { addr } => {
            assert(ts =~= front(2, OP_OBSERVED));
            assert(observed_part(b) =~= addr@);
        },
        _ => {
            cbor::law_items_read_back(ts);
        },
    }
    assert forall|g: CoordFrame|
        cbor::all_encodable(g.toks()) && #[trigger] g.wire() == b implies g.is_same(&f) by {
        lemma_wire_front(g);
        assert(g.toks()[0] == ts[0]);
        assert(g.toks()[1] == ts[1]);
        if !(f is Observed) {
            cbor::law_items_read_back(g.toks());
            assert(g.toks() == ts);
            if ts.len() == 3 {
                assert(g.toks()[2] == ts[2]);
            }
        }
        match (f, g) {
            (CoordFrame::Observed { addr: x }, CoordFrame::Observed { addr: y }) => {
                assert(observed_part(b) =~= x@);
                assert(observed_part(b) =~= y@);
            },
            (CoordFrame::Relay { peer: x }, CoordFrame::Relay { peer: y }) => {
                crate::hash::lemma_digest_ext(x, y);
            },
            (CoordFrame::From { peer: x }, CoordFrame::From { peer: y }) => {
                crate::hash::lemma_digest_ext(x, y);
            },
            _ => {},
        }
    }
}

/// The items of a frame stand at the front of its bytes.
pub proof fn lemma_wire_front(f: CoordFrame)
    requires
        cbor::all_encodable(f.toks()),
    ensures
        f.toks().is_prefix_of(cbor::toks_of(f.wire())),
        f.toks().len() >= 2,
{
    match f {
        CoordFrame::Observed { addr } => {
            cbor::law_front_read_back(f.toks(), addr@);
            assert(f.toks() =~= (f.toks() + cbor::toks_of(addr@)).subrange(
                0,
                f.toks().len() as int,
            ));
        },
        _ => {
            cbor::law_items_read_back(f.toks());
        },
    }
}

} // verus!
