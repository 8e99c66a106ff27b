//! The circuit stream: the relay of last resort.
//!
//! Where neither a direct dial nor a hole punch reaches a peer, a peer that is connected
//! to both carries their packets without reading them. Only the opening exchange rides
//! the stream; this module holds its frames, who may ask, what a relay carries at once,
//! and what each answer leads to.

use vstd::prelude::*;

use crate::cbor::{self, Cur, Decoder, Encoder, Tok};
use crate::coordstream::{self, accepts_relayed, relays_for, PeerClass};
use crate::error::Error;
use crate::hash::{same_digest, Digest32};

verus! {

/// The largest circuit frame.
pub const MAX_CIRCUIT_FRAME: usize = 256;

/// The largest datagram that either end of a circuit sends.
pub const CIRCUIT_DATAGRAM_MAX: usize = 1100;

/// How many circuits a relay carries at once.
pub const MAX_RELAYED_CIRCUITS: usize = 64;

/// How many circuits a relay carries at once for any one asker.
pub const MAX_CIRCUITS_PER_ASKER: usize = 4;

/// A circuit without traffic for this many seconds is closed.
pub const CIRCUIT_IDLE_SECS: u64 = 300;

/// How many seconds the opening exchange may take to be answered.
pub const OPEN_TIMEOUT_SECS: u64 = 10;

/// How many seconds a circuit outlives the connection that it carried.
pub const CIRCUIT_CLOSE_LINGER_SECS: u64 = 1;

/// Frame tag of a request for a circuit.
pub const OP_OPEN: u64 = 0;

/// Frame tag of a circuit that arrives.
pub const OP_INCOMING: u64 = 1;

/// Frame tag of a circuit that is up.
pub const OP_OPENED: u64 = 2;

/// Frame tag of a refusal.
pub const OP_REFUSED: u64 = 3;

/// Why a relay or a target takes no part.
#[derive(Debug, Clone, Copy, PartialEq, Eq, Structural)]
pub enum CircuitRefusal {
    /// The relay has no live connection to the named peer.
    NotConnected,
    /// The asker, or the peer it named, is not one this node relays for.
    NotAuthorized,
    /// The relay carries as many circuits as it will.
    Capacity,
}

impl CircuitRefusal {
    /// The number on the wire.
    pub open spec fn number(self) -> u64 {
        match self {
            CircuitRefusal::NotConnected => 0,
            CircuitRefusal::NotAuthorized => 1,
            CircuitRefusal::Capacity => 2,
        }
    }

    fn code(self) -> (n: u64)
        ensures
            n == self.number(),
    {
        match self {
            CircuitRefusal::NotConnected => 0,
            CircuitRefusal::NotAuthorized => 1,
            CircuitRefusal::Capacity => 2,
        }
    }

    fn from_code(code: u64) -> (r: Result<CircuitRefusal, Error>)
        ensures
            match r {
                Ok(x) => x.number() == code,
                Err(e) => code > 2 && e == Error::Unreachable("circuit: unknown refusal reason"),
            },
    {
        if code == 0 {
            Ok(CircuitRefusal::NotConnected)
        } else if code == 1 {
            Ok(CircuitRefusal::NotAuthorized)
        } else if code == 2 {
            Ok(CircuitRefusal::Capacity)
        } else {
            Err(Error::Unreachable("circuit: unknown refusal reason"))
        }
    }
}

/// One frame on a circuit stream.
#[derive(Debug, Clone, Copy, PartialEq, Eq)]
pub enum CircuitFrame {
    /// A circuit to this peer is asked for.
    Open {
        /// The peer to reach.
        peer: Digest32,
    },
    /// A circuit from that peer.
    Incoming {
        /// The peer that asked for the circuit.
        peer: Digest32,
    },
    /// The circuit is up.
    Opened,
    /// The circuit is refused.
    Refused {
        /// Why.
        reason: CircuitRefusal,
    },
}

/// What is wrong with `b` as a circuit frame, or `None` where it is one.
pub open spec fn circuit_fault(b: Seq<u8>) -> Option<Error> {
    let c0 = Cur::at(b);
    let n = c0.peek_array();
    let c1 = c0.array(cbor::raw());
    let op = c1.peek_uint();
    let c2 = c1.uint(cbor::raw());
    let peer = c2.digest(cbor::raw(), Error::Unreachable("circuit: fingerprint length"));
    let end = Error::Unreachable("circuit: trailing bytes");
    if op == OP_OPEN && n == 2 {
        peer.end(end).bad
    } else if op == OP_INCOMING && n == 2 {
        peer.end(end).bad
    } else if op == OP_OPENED && n == 1 {
        c2.end(end).bad
    } else if op == OP_REFUSED && n == 2 {
        c2.uint(cbor::raw()).check(
            c2.peek_uint() <= 2,
            Error::Unreachable("circuit: unknown refusal reason"),
        ).end(end).bad
    } else if op <= OP_REFUSED {
        c2.fail(Error::Unreachable("circuit: frame arity")).bad
    } else {
        c2.fail(Error::Unreachable("circuit: unknown op")).bad
    }
}

impl CircuitFrame {
    /// What a frame writes: an array led by the tag.
    pub open spec fn toks(&self) -> Seq<Tok> {
        match *self {
            CircuitFrame::Open { peer } => cbor::items().push(Tok::Array(2)).push(
                Tok::Uint(OP_OPEN),
            ).push(Tok::Bytes(peer@)),
            CircuitFrame::Incoming { peer } => cbor::items().push(Tok::Array(2)).push(
                Tok::Uint(OP_INCOMING),
            ).push(Tok::Bytes(peer@)),
            CircuitFrame::Opened => cbor::items().push(Tok::Array(1)).push(Tok::Uint(OP_OPENED)),
            CircuitFrame::Refused { reason } => cbor::items().push(Tok::Array(2)).push(
                Tok::Uint(OP_REFUSED),
            ).push(Tok::Uint(reason.number())),
        }
    }

    /// The frame in canonical form.
    #[must_use]
    pub fn to_bytes(&self) -> (b: Vec<u8>)
        ensures
            b@ == cbor::enc(self.toks()),
    {
        let mut e = Encoder::new();
        match self {
            CircuitFrame::Open { peer } => {
                e.array(2);
                e.uint(OP_OPEN);
                e.digest(peer);
            },
            CircuitFrame::Incoming { peer } => {
                e.array(2);
                e.uint(OP_INCOMING);
                e.digest(peer);
            },
            CircuitFrame::Opened => {
                e.array(1);
                e.uint(OP_OPENED);
            },
            CircuitFrame::Refused { reason } => {
                e.array(2);
                e.uint(OP_REFUSED);
                e.uint(reason.code());
            },
        }
        e.finish()
    }

    /// Decodes a frame strictly: an unknown tag, a wrong arity, a fingerprint that is not
    /// 32 bytes long and trailing bytes are all refused.
    pub fn from_bytes(bytes: &[u8]) -> (r: Result<CircuitFrame, Error>)
        ensures
            match r {
                Ok(f) => {
                    &&& circuit_fault(bytes@) is None
                    &&& f.toks() == cbor::toks_of(bytes@)
                    &&& cbor::enc(cbor::toks_of(bytes@)) == bytes@
                },
                Err(e) => circuit_fault(bytes@) == Some(e),
            },
    {
        let mut d = Decoder::new(bytes);
        let n: u64 = d.array(Error::Cbor("cbor"))?;
        let op: u64 = d.uint(Error::Cbor("cbor"))?;
        let f: CircuitFrame = if op == OP_OPEN && n == 2 {
            CircuitFrame::Open {
                peer: d.digest(
                    Error::Cbor("cbor"),
                    Error::Unreachable("circuit: fingerprint length"),
                )?,
            }
        } else if op == OP_INCOMING && n == 2 {
            CircuitFrame::Incoming {
                peer: d.digest(
                    Error::Cbor("cbor"),
                    Error::Unreachable("circuit: fingerprint length"),
                )?,
            }
        } else if op == OP_OPENED && n == 1 {
            CircuitFrame::Opened
        } else if op == OP_REFUSED && n == 2 {
            let code: u64 = d.uint(Error::Cbor("cbor"))?;
            CircuitFrame::Refused { reason: CircuitRefusal::from_code(code)? }
        } else if op <= OP_REFUSED {
            return Err(Error::Unreachable("circuit: frame arity"));
        } else {
            return Err(Error::Unreachable("circuit: unknown op"));
        };
        d.finish(Error::Unreachable("circuit: trailing bytes"))?;
        Ok(f)
    }
}

/// A circuit frame is read back as it was written, and no other frame is.
pub proof fn law_circuit_frame_read_back(f: CircuitFrame)
    ensures
        circuit_fault(cbor::enc(f.toks())) is None,
        forall|g: CircuitFrame| #[trigger]
            g.toks() == cbor::toks_of(cbor::enc(f.toks())) ==> g == f,
{
    let ts = f.toks();
    assert forall|i: int| 0 <= i < ts.len() implies cbor::encodable(#[trigger] ts[i]) by {}
    cbor::law_items_read_back(ts);
    assert forall|g: CircuitFrame| #[trigger] g.toks() == cbor::toks_of(cbor::enc(ts)) implies g
        == f by {
        assert(g.toks() == ts);
        assert(g.toks()[1] == ts[1]);
        if ts.len() == 3 {
            assert(g.toks()[2] == ts[2]);
        }
        match (f, g) {
            (CircuitFrame::Open { peer: a }, CircuitFrame::Open { peer: b }) => {
                crate::hash::lemma_digest_ext(a, b);
            },
            (CircuitFrame::Incoming { peer: a }, CircuitFrame::Incoming { peer: b }) => {
                crate::hash::lemma_digest_ext(a, b);
            },
            _ => {},
        }
    }
}

// ---- what a relay carries ----------------------------------------------------

/// How often `x` stands in `s`.
pub open spec fn times(s: Seq<Digest32>, x: Digest32) -> nat
    decreases s.len(),
{
    if s.len() == 0 {
        0
    } else {
        times(s.drop_last(), x) + (if s.last() == x {
            1nat
        } else {
            0
        })
    }
}

proof fn lemma_times_push(s: Seq<Digest32>, y: Digest32, x: Digest32)
    ensures
        times(s.push(y), x) == times(s, x) + (if y == x {
            1nat
        } else {
            0
        }),
{
    assert(s.push(y).drop_last() =~= s);
}

proof fn lemma_times_remove(s: Seq<Digest32>, i: int, x: Digest32)
    requires
        0 <= i < s.len(),
    ensures
        times(s, x) == times(s.remove(i), x) + (if s[i] == x {
            1nat
        } else {
            0
        }),
    decreases s.len(),
{
    if i == s.len() - 1 {
        assert(s.remove(i) =~= s.drop_last());
    } else {
        lemma_times_remove(s.drop_last(), i, x);
        assert(s.remove(i).drop_last() =~= s.drop_last().remove(i));
        assert(s.remove(i).last() == s.last());
    }
}

proof fn lemma_times_absent(s: Seq<Digest32>, x: Digest32)
    ensures
        (forall|i: int| 0 <= i < s.len() ==> s[i] != x) <==> times(s, x) == 0,
    decreases s.len(),
{
    if s.len() > 0 {
        lemma_times_absent(s.drop_last(), x);
        if times(s, x) == 0 {
            assert forall|i: int| 0 <= i < s.len() implies s[i] != x by {
                if i < s.len() - 1 {
                    assert(s[i] == s.drop_last()[i]);
                }
            }
        }
    }
}

/// A relay's books of what it carries: the asker of each circuit.
#[derive(Debug)]
pub struct CircuitLedger {
    held: Vec<Digest32>,
}

/// One relayed circuit's place in the ledger.
#[derive(Debug, PartialEq, Eq)]
pub struct CircuitSlot {
    /// Who asked for the circuit.
    pub asker: Digest32,
}

impl CircuitLedger {
    /// The askers of the circuits that are carried.
    pub closed spec fn held(&self) -> Seq<Digest32> {
        self.held@
    }

    /// How many circuits are carried for `asker`.
    pub open spec fn held_for(&self, asker: Digest32) -> nat {
        times(self.held(), asker)
    }

    /// Neither cap is ever passed.
    pub open spec fn wf(&self) -> bool {
        &&& self.held().len() <= MAX_RELAYED_CIRCUITS
        &&& forall|a: Digest32| #[trigger] self.held_for(a) <= MAX_CIRCUITS_PER_ASKER
    }

    /// A ledger with nothing in it.
    pub fn new() -> (l: CircuitLedger)
        ensures
            l.wf(),
            l.held().len() == 0,
    {
        CircuitLedger { held: Vec::new() }
    }

    fn count(&self, asker: &Digest32) -> (n: usize)
        ensures
            n == self.held_for(*asker),
    {
        let mut n: usize = 0;
        let mut i: usize = 0;
        assert(self.held@.take(0) =~= Seq::empty());
        while i < self.held.len()
            invariant
                i <= self.held@.len(),
                n <= i,
                n == times(self.held@.take(i as int), *asker),
            decreases self.held@.len() - i,
        {
            let total: usize = self.held.len();
            assert(i < total);
            proof {
                assert(self.held@.take(i + 1) =~= self.held@.take(i as int).push(
                    self.held@[i as int],
                ));
                lemma_times_push(self.held@.take(i as int), self.held@[i as int], *asker);
            }
            if same_digest(&self.held[i], asker) {
                n = n + 1;
            }
            i = i + 1;
        }
        assert(self.held@.take(i as int) =~= self.held@);
        n
    }

    /// Takes a place for `asker`, or none where either cap is reached.
    #[must_use]
    pub fn take(&mut self, asker: Digest32) -> (r: Option<CircuitSlot>)
        requires
            old(self).wf(),
        ensures
            final(self).wf(),
            match r {
                Some(slot) => {
                    &&& old(self).held().len() < MAX_RELAYED_CIRCUITS
                    &&& old(self).held_for(asker) < MAX_CIRCUITS_PER_ASKER
                    &&& slot.asker == asker
                    &&& final(self).held() == old(self).held().push(asker)
                },
                None => {
                    &&& old(self).held().len() == MAX_RELAYED_CIRCUITS || old(self).held_for(asker)
                        == MAX_CIRCUITS_PER_ASKER
                    &&& *final(self) == *old(self)
                },
            },
    {
        let mine: usize = self.count(&asker);
        assert(self.held_for(asker) <= MAX_CIRCUITS_PER_ASKER);
        if self.held.len() >= MAX_RELAYED_CIRCUITS || mine >= MAX_CIRCUITS_PER_ASKER {
            return None;
        }
        self.held.push(asker);
        proof {
            assert forall|a: Digest32| #[trigger] self.held_for(a) <= MAX_CIRCUITS_PER_ASKER by {
                lemma_times_push(old(self).held(), asker, a);
                assert(old(self).held_for(a) <= MAX_CIRCUITS_PER_ASKER);
            }
        }
        Some(CircuitSlot { asker })
    }

    /// Whether neither cap is reached for `asker`.
    pub open spec fn room_for(&self, asker: Digest32) -> bool {
        &&& self.held().len() < MAX_RELAYED_CIRCUITS
        &&& self.held_for(asker) < MAX_CIRCUITS_PER_ASKER
    }

    /// Whether there is a place for `asker`.
    pub fn has_room(&self, asker: &Digest32) -> (r: bool)
        ensures
            r == self.room_for(*asker),
    {
        self.held.len() < MAX_RELAYED_CIRCUITS && self.count(asker) < MAX_CIRCUITS_PER_ASKER
    }

    /// How many circuits are carried right now.
    #[must_use]
    pub fn carrying(&self) -> (n: usize)
        ensures
            n == self.held().len(),
    {
        self.held.len()
    }

    /// Gives a place back, as the end of its circuit does.
    pub fn give_back(&mut self, slot: CircuitSlot)
        requires
            old(self).wf(),
        ensures
            final(self).wf(),
            old(self).held_for(slot.asker) > 0 ==> final(self).held().len()
                + 1 == old(self).held().len(),
            old(self).held_for(slot.asker) == 0 ==> *final(self) == *old(self),
            forall|a: Digest32| #[trigger]
                final(self).held_for(a) == (if a == slot.asker && old(self).held_for(a) > 0 {
                    old(self).held_for(a) - 1
                } else {
                    old(self).held_for(a) as int
                }),
    {
        let mut i: usize = 0;
        while i < self.held.len()
            invariant
                i <= self.held@.len(),
                *self == *old(self),
                self.wf(),
                forall|j: int| 0 <= j < i ==> self.held@[j] != slot.asker,
            decreases self.held@.len() - i,
        {
            if same_digest(&self.held[i], &slot.asker) {
                self.held.remove(i);
                proof {
                    lemma_times_remove(old(self).held(), i as int, slot.asker);
                    assert forall|a: Digest32| #[trigger]
                        self.held_for(a) == (if a == slot.asker && old(self).held_for(a) > 0 {
                            old(self).held_for(a) - 1
                        } else {
                            old(self).held_for(a) as int
                        }) && self.held_for(a) <= MAX_CIRCUITS_PER_ASKER by {
                        lemma_times_remove(old(self).held(), i as int, a);
                        assert(old(self).held_for(a) <= MAX_CIRCUITS_PER_ASKER);
                    }
                }
                return ;
            }
            i = i + 1;
        }
        proof {
            lemma_times_absent(self.held(), slot.asker);
        }
    }
}

/// A place that is taken and given back leaves the books as they were, for every asker
/// and in all.
pub proof fn law_give_back_undoes_take(
    before: CircuitLedger,
    taken: CircuitLedger,
    after: CircuitLedger,
    asker: Digest32,
)
    requires
        taken.held() == before.held().push(asker),
        after.held().len() + 1 == taken.held().len(),
        forall|a: Digest32| #[trigger]
            after.held_for(a) == (if a == asker && taken.held_for(a) > 0 {
                taken.held_for(a) - 1
            } else {
                taken.held_for(a) as int
            }),
    ensures
        after.held().len() == before.held().len(),
        forall|a: Digest32| #[trigger] after.held_for(a) == before.held_for(a),
{
    assert forall|a: Digest32| #[trigger] after.held_for(a) == before.held_for(a) by {
        lemma_times_push(before.held(), asker, a);
    }
}

// ---- the opening exchange ----------------------------------------------------

/// What is read of a frame: `None` where the time ran out, no bytes where the stream was
/// closed.
pub open spec fn answer_of(read: Option<Result<Option<Vec<u8>>, Error>>, quiet: Error, closed: Error) -> Result<
    Vec<u8>,
    Error,
> {
    match read {
        None => Err(quiet),
        Some(Err(e)) => Err(e),
        Some(Ok(None)) => Err(closed),
        Some(Ok(Some(b))) => Ok(b),
    }
}

/// The answer to an opening frame. `read` is what came within the time allowed.
pub fn opening_answer(read: Option<Result<Option<Vec<u8>>, Error>>) -> (r: Result<
    CircuitFrame,
    Error,
>)
    ensures
        match (
            answer_of(
                read,
                Error::Unreachable("circuit: peer went quiet"),
                Error::Unreachable("circuit: stream closed"),
            ),
            r,
        ) {
            (Err(e), _) => r == Err::<CircuitFrame, Error>(e),
            (Ok(b), Ok(f)) => circuit_fault(b@) is None && f.toks() == cbor::toks_of(b@),
            (Ok(b), Err(e)) => circuit_fault(b@) == Some(e),
        },
{
    match read {
        None => Err(Error::Unreachable("circuit: peer went quiet")),
        Some(Err(e)) => Err(e),
        Some(Ok(None)) => Err(Error::Unreachable("circuit: stream closed")),
        Some(Ok(Some(b))) => CircuitFrame::from_bytes(b.as_slice()),
    }
}

/// What an opening frame leads to.
#[derive(Debug, PartialEq, Eq)]
pub enum CircuitStep {
    /// The target is asked, with a place in the ledger taken.
    Ask {
        /// The place.
        slot: CircuitSlot,
        /// The target.
        target: Digest32,
    },
    /// The circuit ends at this node: the asker is told that it is up.
    Terminate {
        /// Who asked for the circuit.
        origin: Digest32,
    },
    /// The asker is refused, and the stream fails.
    Refuse {
        /// What the asker is told.
        reason: CircuitRefusal,
        /// How the stream fails.
        error: Error,
    },
    /// The stream fails.
    Fail(Error),
}

/// The peer that an opening frame names.
pub fn named_peer(frame: &CircuitFrame) -> (r: Option<Digest32>)
    ensures
        r == (match *frame {
            CircuitFrame::Open { peer } => Some(peer),
            CircuitFrame::Incoming { peer } => Some(peer),
            _ => None,
        }),
{
    match frame {
        CircuitFrame::Open { peer } => Some(*peer),
        CircuitFrame::Incoming { peer } => Some(*peer),
        _ => None,
    }
}

/// What an opening frame leads to: who may ask comes first, whether there is room second,
/// whether the target is connected third.
pub open spec fn opening(
    frame: CircuitFrame,
    asker: Digest32,
    asker_class: PeerClass,
    named_class: PeerClass,
    room: bool,
    connected: bool,
) -> CircuitStep {
    match frame {
        CircuitFrame::Open { peer } => if !coordstream::relays(asker_class) || !coordstream::relays(
            named_class,
        ) {
            CircuitStep::Refuse {
                reason: CircuitRefusal::NotAuthorized,
                error: Error::StreamRefused("circuit: peer may not ask for a relay"),
            }
        } else if !room {
            CircuitStep::Refuse {
                reason: CircuitRefusal::Capacity,
                error: Error::Unreachable("circuit: relay at capacity"),
            }
        } else if !connected {
            CircuitStep::Refuse {
                reason: CircuitRefusal::NotConnected,
                error: Error::Unreachable("circuit: target not connected"),
            }
        } else {
            CircuitStep::Ask { slot: CircuitSlot { asker }, target: peer }
        },
        CircuitFrame::Incoming { peer } => if !coordstream::accepts(asker_class, named_class) {
            CircuitStep::Refuse {
                reason: CircuitRefusal::NotAuthorized,
                error: Error::StreamRefused("circuit: peer may not relay to us"),
            }
        } else {
            CircuitStep::Terminate { origin: peer }
        },
        _ => CircuitStep::Fail(Error::Unreachable("circuit: unexpected opening frame")),
    }
}

/// Takes up the opening frame of a circuit stream that `asker` opened. `named_class` is
/// the class of the peer that the frame names, and `connected` says whether this node
/// has a live connection to it.
pub fn serve_circuit(
    frame: CircuitFrame,
    asker: Digest32,
    asker_class: PeerClass,
    named_class: PeerClass,
    connected: bool,
    ledger: &mut CircuitLedger,
) -> (r: CircuitStep)
    requires
        old(ledger).wf(),
    ensures
        final(ledger).wf(),
        r == opening(
            frame,
            asker,
            asker_class,
            named_class,
            old(ledger).room_for(asker),
            connected,
        ),
        if r is Ask {
            final(ledger).held() == old(ledger).held().push(asker)
        } else {
            *final(ledger) == *old(ledger)
        },
{
    match frame {
        CircuitFrame::Open { peer } => {
            if !relays_for(asker_class) || !relays_for(named_class) {
                return CircuitStep::Refuse {
                    reason: CircuitRefusal::NotAuthorized,
                    error: Error::StreamRefused("circuit: peer may not ask for a relay"),
                };
            }
            if !ledger.has_room(&asker) {
                return CircuitStep::Refuse {
                    reason: CircuitRefusal::Capacity,
                    error: Error::Unreachable("circuit: relay at capacity"),
                };
            }
            if !connected {
                return CircuitStep::Refuse {
                    reason: CircuitRefusal::NotConnected,
                    error: Error::Unreachable("circuit: target not connected"),
                };
            }
            match ledger.take(asker) {
                Some(slot) => CircuitStep::Ask { slot, target: peer },
                None => CircuitStep::Refuse {
                    reason: CircuitRefusal::Capacity,
                    error: Error::Unreachable("circuit: relay at capacity"),
                },
            }
        },
        CircuitFrame::Incoming { peer } => {
            if !accepts_relayed(asker_class, named_class) {
                return CircuitStep::Refuse {
                    reason: CircuitRefusal::NotAuthorized,
                    error: Error::StreamRefused("circuit: peer may not relay to us"),
                };
            }
            CircuitStep::Terminate { origin: peer }
        },
        _ => CircuitStep::Fail(Error::Unreachable("circuit: unexpected opening frame")),
    }
}

/// What the target's answer leads to.
#[derive(Debug, PartialEq, Eq)]
pub enum RelayStep {
    /// The circuit is up: both legs are bound, and the asker is told.
    Carry(CircuitSlot),
    /// The asker is refused as the target refused, and the stream fails.
    Refuse {
        /// What the asker is told.
        reason: CircuitRefusal,
        /// How the stream fails.
        error: Error,
    },
    /// The stream fails.
    Fail(Error),
}

/// Takes up the target's answer. A circuit that does not come up gives its place back.
pub fn on_target(
    slot: CircuitSlot,
    answer: Result<CircuitFrame, Error>,
    ledger: &mut CircuitLedger,
) -> (r: RelayStep)
    requires
        old(ledger).wf(),
        old(ledger).held_for(slot.asker) > 0,
    ensures
        final(ledger).wf(),
        r == (match answer {
            Ok(CircuitFrame::Opened) => RelayStep::Carry(slot),
            Ok(CircuitFrame::Refused { reason }) => RelayStep::Refuse {
                reason,
                error: Error::Unreachable("circuit: target refused"),
            },
            Ok(_) => RelayStep::Fail(Error::Unreachable("circuit: target did not answer")),
            Err(e) => RelayStep::Fail(e),
        }),
        if r is Carry {
            *final(ledger) == *old(ledger)
        } else {
            &&& final(ledger).held().len() + 1 == old(ledger).held().len()
            &&& forall|a: Digest32| #[trigger]
                final(ledger).held_for(a) == (if a == slot.asker {
                    old(ledger).held_for(a) - 1
                } else {
                    old(ledger).held_for(a) as int
                })
        },
{
    match answer {
        Ok(CircuitFrame::Opened) => RelayStep::Carry(slot),
        Ok(CircuitFrame::Refused { reason }) => {
            ledger.give_back(slot);
            RelayStep::Refuse { reason, error: Error::Unreachable("circuit: target refused") }
        },
        Ok(_) => {
            ledger.give_back(slot);
            RelayStep::Fail(Error::Unreachable("circuit: target did not answer"))
        },
        Err(e) => {
            ledger.give_back(slot);
            RelayStep::Fail(e)
        },
    }
}

/// What a relay's answer means to the one who asked: the circuit is up, or why not.
pub fn connect_through(answer: CircuitFrame) -> (r: Result<(), Error>)
    ensures
        match answer {
            CircuitFrame::Opened => r is Ok,
            CircuitFrame::Refused { reason } => r == Err::<(), Error>(
                Error::Unreachable(
                    match reason {
                        CircuitRefusal::NotConnected => "circuit: relay cannot reach the peer",
                        CircuitRefusal::NotAuthorized => "circuit: relay will not carry for us",
                        CircuitRefusal::Capacity => "circuit: relay is at capacity",
                    },
                ),
            ),
            _ => r == Err::<(), Error>(Error::Unreachable("circuit: relay did not open")),
        },
{
    match answer {
        CircuitFrame::Opened => Ok(()),
        CircuitFrame::Refused { reason } => Err(
            match reason {
                CircuitRefusal::NotConnected => Error::Unreachable(
                    "circuit: relay cannot reach the peer",
                ),
                CircuitRefusal::NotAuthorized => Error::Unreachable(
                    "circuit: relay will not carry for us",
                ),
                CircuitRefusal::Capacity => Error::Unreachable("circuit: relay is at capacity"),
            },
        ),
        _ => Err(Error::Unreachable("circuit: relay did not open")),
    }
}

/// One of the two legs of a relayed circuit.
#[derive(Debug, Clone, Copy, PartialEq, Eq, Structural)]
pub enum Leg {
    /// Between the asker and the relay.
    Asker,
    /// Between the relay and the target.
    Target,
}

/// What happens on a circuit.
#[derive(Debug, PartialEq, Eq)]
pub enum CircuitEvent {
    /// A datagram arrived on a leg.
    Datagram(Leg, Vec<u8>),
    /// A leg ended.
    Ended(Leg),
    /// Nothing has moved for [`CIRCUIT_IDLE_SECS`].
    Idle,
}

/// What a relay does next: it puts a datagram on the other leg, or ends the circuit. A
/// datagram changes legs and nothing else.
pub fn relay(event: CircuitEvent) -> (r: Option<(Leg, Vec<u8>)>)
    ensures
        match event {
            CircuitEvent::Datagram(Leg::Asker, d) => r == Some((Leg::Target, d)),
            CircuitEvent::Datagram(Leg::Target, d) => r == Some((Leg::Asker, d)),
            _ => r is None,
        },
{
    match event {
        CircuitEvent::Datagram(Leg::Asker, d) => Some((Leg::Target, d)),
        CircuitEvent::Datagram(Leg::Target, d) => Some((Leg::Asker, d)),
        _ => None,
    }
}

/// A peer of which this node knows nothing is never carried for, never carried to, and
/// never lets a circuit end here; and whoever is named, only this node's own anchor may
/// introduce a stranger.
pub proof fn law_strangers_get_no_circuit(
    frame: CircuitFrame,
    asker: Digest32,
    asker_class: PeerClass,
    named_class: PeerClass,
    room: bool,
    connected: bool,
)
    ensures
        ({
            let r = opening(frame, asker, asker_class, named_class, room, connected);
            &&& asker_class == PeerClass::Unknown ==> !(r is Ask) && !(r is Terminate)
            &&& named_class == PeerClass::Unknown ==> !(r is Ask)
            &&& named_class == PeerClass::Unknown && r is Terminate ==> asker_class
                == PeerClass::Anchor
        }),
{
}

} // verus!
