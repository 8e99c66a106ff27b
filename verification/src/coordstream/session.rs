//! What the frames of a coord stream lead to: answering who asks, carrying a session for
//! two peers, and the two sides of a hole punch.

use vstd::prelude::*;

use crate::bootstrap::MAX_ENDPOINTS;
use crate::circuitstream;
use crate::coordstream::{
    self, accepts_relayed, relays_for, CoordFrame, CoordRefusal, PeerClass, MAX_RELAYED_FRAMES,
};
use crate::error::Error;
use crate::hash::Digest32;
use crate::link::scan;
use crate::text::same_text;

verus! {

/// The next frame on a coord stream. `read` is what came within the time allowed, and
/// `addr` how many bytes an address in it takes up. A closed stream is a failure: every
/// read expects an answer.
pub fn next_frame(read: Option<Result<Option<Vec<u8>>, Error>>, addr: Result<usize, Error>) -> (r:
    Result<CoordFrame, Error>)
    ensures
        match (
            circuitstream::answer_of(
                read,
                Error::HolePunchFailed("coord: peer went quiet"),
                Error::HolePunchFailed("coord: stream closed"),
            ),
            r,
        ) {
            (Err(e), _) => r == Err::<CoordFrame, Error>(e),
            (Ok(b), Ok(f)) => coordstream::coord_fault(b@, addr) is None && f.wire() == b@,
            (Ok(b), Err(e)) => coordstream::coord_fault(b@, addr) == Some(e),
        },
{
    match read {
        None => Err(Error::HolePunchFailed("coord: peer went quiet")),
        Some(Err(e)) => Err(e),
        Some(Ok(None)) => Err(Error::HolePunchFailed("coord: stream closed")),
        Some(Ok(Some(b))) => CoordFrame::from_bytes(b.as_slice(), addr),
    }
}

/// The address that the answer to a question for it gives, in its own encoding. It is not
/// trusted: a wrong one costs a failed punch.
pub fn ask_observed(answer: CoordFrame) -> (r: Result<Vec<u8>, Error>)
    ensures
        match answer {
            CoordFrame::Observed { addr } => r == Ok::<Vec<u8>, Error>(addr),
            CoordFrame::Refused { .. } => r == Err::<Vec<u8>, Error>(
                Error::HolePunchFailed("coord: whoami refused"),
            ),
            _ => r == Err::<Vec<u8>, Error>(
                Error::HolePunchFailed("coord: not an observed answer"),
            ),
        },
{
    match answer {
        CoordFrame::Observed { addr } => Ok(addr),
        CoordFrame::Refused { .. } => Err(Error::HolePunchFailed("coord: whoami refused")),
        _ => Err(Error::HolePunchFailed("coord: not an observed answer")),
    }
}

// ---- what is offered for a punch ---------------------------------------------

/// `list`, with those of `more` that are new to it behind it, in order.
pub open spec fn with_new(list: Seq<Seq<char>>, more: Seq<Seq<char>>) -> Seq<Seq<char>>
    decreases more.len(),
{
    if more.len() == 0 {
        list
    } else {
        let sofar = with_new(list, more.drop_last());
        if sofar.contains(more.last()) {
            sofar
        } else {
            sofar.push(more.last())
        }
    }
}

/// The first `n` of a list, or all of it.
pub open spec fn at_most(list: Seq<Seq<char>>, n: int) -> Seq<Seq<char>> {
    if list.len() <= n {
        list
    } else {
        list.take(n)
    }
}

/// The address seen for this node, where there is one.
pub open spec fn seen_first(observed: Option<String>) -> Seq<Seq<char>> {
    match observed {
        Some(a) => seq![a@],
        None => Seq::empty(),
    }
}

fn listed(v: &Vec<String>, s: &String) -> (r: bool)
    ensures
        r == scan::texts(v@).contains(s@),
{
    let mut i: usize = 0;
    while i < v.len()
        invariant
            i <= v@.len(),
            forall|j: int| 0 <= j < i ==> (#[trigger] v@[j])@ != s@,
        decreases v@.len() - i,
    {
        if same_text(v[i].as_str(), s.as_str()) {
            assert(scan::texts(v@)[i as int] == s@);
            return true;
        }
        i = i + 1;
    }
    proof {
        assert forall|j: int| 0 <= j < v@.len() implies scan::texts(v@)[j] != s@ by {
            assert(v@[j]@ != s@);
        }
    }
    false
}

/// The addresses to offer for a punch: the one seen for this node first, which is the one
/// that a NAT maps; then those at which it knows itself to be reachable, each once. No
/// more than [`MAX_ENDPOINTS`] are offered.
pub fn punch_endpoints(observed: Option<String>, local: &Vec<String>) -> (out: Vec<String>)
    ensures
        scan::texts(out@) == at_most(
            with_new(seen_first(observed), scan::texts(local@)),
            MAX_ENDPOINTS as int,
        ),
{
    let ghost first = seen_first(observed);
    let mut out: Vec<String> = Vec::new();
    match observed {
        Some(a) => {
            out.push(a);
        },
        None => {},
    }
    assert(scan::texts(out@) =~= first);
    let ghost more = scan::texts(local@);
    let mut i: usize = 0;
    assert(more.take(0) =~= Seq::empty());
    while i < local.len()
        invariant
            i <= local@.len(),
            more == scan::texts(local@),
            scan::texts(out@) == with_new(first, more.take(i as int)),
        decreases local@.len() - i,
    {
        let ghost sofar = scan::texts(out@);
        proof {
            assert(more.take(i + 1).drop_last() =~= more.take(i as int));
            assert(more.take(i + 1).last() == local@[i as int]@);
        }
        if !listed(&out, &local[i]) {
            out.push(local[i].clone());
            assert(scan::texts(out@) =~= sofar.push(local@[i as int]@));
        }
        i = i + 1;
    }
    assert(more.take(i as int) =~= more);
    let ghost all = scan::texts(out@);
    if out.len() > MAX_ENDPOINTS {
        out.truncate(MAX_ENDPOINTS);
        assert(scan::texts(out@) =~= all.take(MAX_ENDPOINTS as int));
    }
    out
}

proof fn lemma_with_new(list: Seq<Seq<char>>, more: Seq<Seq<char>>)
    requires
        list.no_duplicates(),
    ensures
        with_new(list, more).no_duplicates(),
        list.is_prefix_of(with_new(list, more)),
        forall|x: Seq<char>| #[trigger] more.contains(x) ==> with_new(list, more).contains(x),
        forall|x: Seq<char>| #[trigger]
            with_new(list, more).contains(x) ==> list.contains(x) || more.contains(x),
    decreases more.len(),
{
    if more.len() == 0 {
        assert(list =~= list.subrange(0, list.len() as int));
    } else {
        let front = more.drop_last();
        let sofar = with_new(list, front);
        lemma_with_new(list, front);
        let all = with_new(list, more);
        assert forall|x: Seq<char>| #[trigger] more.contains(x) implies all.contains(x) by {
            let k = more.index_of(x);
            if k < front.len() {
                assert(front[k] == x);
                assert(front.contains(x));
                assert(sofar.contains(x));
                let j = sofar.index_of(x);
                assert(all[j] == x);
            } else if !sofar.contains(more.last()) {
                assert(all[all.len() - 1] == x);
            }
        }
        assert forall|x: Seq<char>| #[trigger] all.contains(x) implies list.contains(x)
            || more.contains(x) by {
            let k = all.index_of(x);
            if k < sofar.len() {
                assert(sofar[k] == x);
                assert(sofar.contains(x));
                if front.contains(x) {
                    let j = front.index_of(x);
                    assert(more[j] == x);
                }
            } else {
                assert(more[more.len() - 1] == x);
            }
        }
    }
}

/// What is offered for a punch: no address twice, the one seen for this node in front,
/// and every other one of this node's own; all of these where they are few enough.
pub proof fn law_punch_offers_each_once(observed: Option<String>, local: Seq<Seq<char>>)
    ensures
        ({
            let all = with_new(seen_first(observed), local);
            let out = at_most(all, MAX_ENDPOINTS as int);
            &&& out.no_duplicates()
            &&& out.len() <= MAX_ENDPOINTS
            &&& observed is Some ==> out.len() > 0 && out[0] == observed->Some_0@
            &&& forall|x: Seq<char>| #[trigger]
                out.contains(x) ==> seen_first(observed).contains(x) || local.contains(x)
            &&& all.len() <= MAX_ENDPOINTS ==> forall|x: Seq<char>| #[trigger]
                local.contains(x) ==> out.contains(x)
        }),
{
    let first = seen_first(observed);
    lemma_with_new(first, local);
    let all = with_new(first, local);
    let out = at_most(all, MAX_ENDPOINTS as int);
    assert(out.is_prefix_of(all));
    if observed is Some {
        assert(all[0] == first[0]);
    }
    assert forall|x: Seq<char>| #[trigger] out.contains(x) implies first.contains(x)
        || local.contains(x) by {
        let k = out.index_of(x);
        assert(all[k] == x);
        assert(all.contains(x));
    }
}

// ---- serving -----------------------------------------------------------------

/// What an opening frame leads to.
#[derive(Debug, PartialEq, Eq)]
pub enum CoordStep {
    /// The asker is told the address that is seen for it; nothing more is needed.
    Answer(CoordFrame),
    /// A session is carried to this peer.
    Carry {
        /// The peer.
        target: Digest32,
    },
    /// This node takes part in a session, and says so: the exchange is still to be run.
    Punch {
        /// The peer on the far side.
        peer: Digest32,
    },
    /// The asker is refused, and the stream fails.
    Refuse {
        /// What the asker is told.
        reason: CoordRefusal,
        /// How the stream fails.
        error: Error,
    },
    /// The stream fails.
    Fail(Error),
}

/// The peer that an opening frame names.
pub fn named_peer(frame: &CoordFrame) -> (r: Option<Digest32>)
    ensures
        r == (match *frame {
            CoordFrame::Relay { peer } => Some(peer),
            CoordFrame::From { peer } => Some(peer),
            _ => None,
        }),
{
    match frame {
        CoordFrame::Relay { peer } => Some(*peer),
        CoordFrame::From { peer } => Some(*peer),
        _ => None,
    }
}

/// What an opening frame leads to.
pub open spec fn opening(
    frame: CoordFrame,
    observed: Vec<u8>,
    asker_class: PeerClass,
    named_class: PeerClass,
    connected: bool,
) -> CoordStep {
    match frame {
        CoordFrame::WhoAmI => CoordStep::Answer(CoordFrame::Observed { addr: observed }),
        CoordFrame::Relay { peer } => if !coordstream::relays(asker_class) || !coordstream::relays(
            named_class,
        ) {
            CoordStep::Refuse {
                reason: CoordRefusal::NotAuthorized,
                error: Error::StreamRefused("coord: peer may not ask for a relay"),
            }
        } else if !connected {
            CoordStep::Refuse {
                reason: CoordRefusal::NotConnected,
                error: Error::HolePunchFailed("coord: target not connected"),
            }
        } else {
            CoordStep::Carry { target: peer }
        },
        CoordFrame::From { peer } => if !coordstream::accepts(asker_class, named_class) {
            CoordStep::Refuse {
                reason: CoordRefusal::NotAuthorized,
                error: Error::StreamRefused("coord: peer may not coordinate"),
            }
        } else {
            CoordStep::Punch { peer }
        },
        _ => CoordStep::Fail(Error::HolePunchFailed("coord: unexpected opening frame")),
    }
}

/// Takes up the opening frame of a coord stream. `observed` is the address that this node
/// sees for the connection, `named_class` the class of the peer that the frame names, and
/// `connected` says whether this node has a live connection to that peer.
pub fn serve_coord(
    frame: CoordFrame,
    observed: Vec<u8>,
    asker_class: PeerClass,
    named_class: PeerClass,
    connected: bool,
) -> (r: CoordStep)
    ensures
        r == opening(frame, observed, asker_class, named_class, connected),
{
    match frame {
        CoordFrame::WhoAmI => CoordStep::Answer(CoordFrame::Observed { addr: observed }),
        CoordFrame::Relay { peer } => {
            if !relays_for(asker_class) || !relays_for(named_class) {
                return CoordStep::Refuse {
                    reason: CoordRefusal::NotAuthorized,
                    error: Error::StreamRefused("coord: peer may not ask for a relay"),
                };
            }
            if !connected {
                return CoordStep::Refuse {
                    reason: CoordRefusal::NotConnected,
                    error: Error::HolePunchFailed("coord: target not connected"),
                };
            }
            CoordStep::Carry { target: peer }
        },
        CoordFrame::From { peer } => {
            if !accepts_relayed(asker_class, named_class) {
                return CoordStep::Refuse {
                    reason: CoordRefusal::NotAuthorized,
                    error: Error::StreamRefused("coord: peer may not coordinate"),
                };
            }
            CoordStep::Punch { peer }
        },
        _ => CoordStep::Fail(Error::HolePunchFailed("coord: unexpected opening frame")),
    }
}

/// Anyone is told its own address; a peer of which this node knows nothing is told that
/// and gets nothing else, and no session is carried to one.
pub proof fn law_strangers_learn_their_address_only(
    frame: CoordFrame,
    observed: Vec<u8>,
    asker_class: PeerClass,
    named_class: PeerClass,
    connected: bool,
)
    ensures
        ({
            let r = opening(frame, observed, asker_class, named_class, connected);
            &&& frame == CoordFrame::WhoAmI ==> r == CoordStep::Answer(
                CoordFrame::Observed { addr: observed },
            )
            &&& asker_class == PeerClass::Unknown ==> !(r is Carry) && !(r is Punch)
            &&& named_class == PeerClass::Unknown ==> !(r is Carry)
            &&& named_class == PeerClass::Unknown && r is Punch ==> asker_class
                == PeerClass::Anchor
        }),
{
}

/// What the target's answer to a session leads to.
#[derive(Debug, PartialEq, Eq)]
pub enum SessionStep {
    /// The asker is told that the session is up, and frames are forwarded both ways.
    Forward,
    /// The asker is refused as the target refused, and the stream fails.
    Refuse {
        /// What the asker is told.
        reason: CoordRefusal,
        /// How the stream fails.
        error: Error,
    },
    /// The stream fails.
    Fail(Error),
}

/// Takes up the target's answer to a session that is carried to it.
pub fn relay_session(answer: Result<CoordFrame, Error>) -> (r: SessionStep)
    ensures
        r == (match answer {
            Ok(CoordFrame::Relaying) => SessionStep::Forward,
            Ok(CoordFrame::Refused { reason }) => SessionStep::Refuse {
                reason,
                error: Error::HolePunchFailed("coord: target refused the session"),
            },
            Ok(_) => SessionStep::Fail(Error::HolePunchFailed("coord: target did not accept")),
            Err(e) => SessionStep::Fail(e),
        }),
{
    match answer {
        Ok(CoordFrame::Relaying) => SessionStep::Forward,
        Ok(CoordFrame::Refused { reason }) => SessionStep::Refuse {
            reason,
            error: Error::HolePunchFailed("coord: target refused the session"),
        },
        Ok(_) => SessionStep::Fail(Error::HolePunchFailed("coord: target did not accept")),
        Err(e) => SessionStep::Fail(e),
    }
}

/// One direction of a session that is carried.
#[derive(Debug, PartialEq, Eq)]
pub struct Forwarding {
    /// How many more frames may go this way.
    pub left: usize,
    /// Whether the direction has ended.
    pub over: bool,
}

impl Forwarding {
    /// A direction in which nothing has gone yet.
    pub fn new() -> (f: Forwarding)
        ensures
            f.left == MAX_RELAYED_FRAMES,
            !f.over,
    {
        Forwarding { left: MAX_RELAYED_FRAMES, over: false }
    }

    /// Whether what was read goes on to the other side. Only signaling frames do, as they
    /// are, and no more than [`MAX_RELAYED_FRAMES`] of them; anything else, a failed read
    /// or the end of the stream among it, ends the direction.
    pub fn copy_coord(&mut self, read: Result<Option<Vec<u8>>, Error>) -> (r: Option<Vec<u8>>)
        ensures
            match r {
                Some(b) => {
                    &&& !old(self).over && old(self).left > 0
                    &&& read == Ok::<Option<Vec<u8>>, Error>(Some(b))
                    &&& signals(b@)
                    &&& final(self).left == old(self).left - 1
                    &&& !final(self).over
                },
                None => {
                    &&& final(self).over
                    &&& final(self).left == old(self).left
                    &&& old(self).over || old(self).left == 0 || (match read {
                        Ok(Some(b)) => !signals(b@),
                        _ => true,
                    })
                },
            },
    {
        if self.over || self.left == 0 {
            self.over = true;
            return None;
        }
        match read {
            Ok(Some(b)) => {
                // An address has no place here, so none is read.
                let frame: Result<CoordFrame, Error> = CoordFrame::from_bytes(
                    b.as_slice(),
                    Err(Error::HolePunchFailed("coord: not a coordination message")),
                );
                let signal: bool = match &frame {
                    Ok(f) => {
                        proof {
                            coordstream::lemma_wire_front(*f);
                            assert(f.toks()[0] == crate::cbor::toks_of(b@)[0]);
                            assert(f.toks()[1] == crate::cbor::toks_of(b@)[1]);
                        }
                        match f {
                            CoordFrame::Coord { .. } => true,
                            _ => false,
                        }
                    },
                    Err(_) => false,
                };
                if signal {
                    self.left = self.left - 1;
                    return Some(b);
                }
                self.over = true;
                None
            },
            _ => {
                self.over = true;
                None
            },
        }
    }
}

/// Whether `b` decodes as a signaling frame.
pub open spec fn signals(b: Seq<u8>) -> bool {
    let c0 = crate::cbor::Cur::at(b);
    let c1 = c0.array(crate::cbor::raw());
    &&& c0.peek_array() == 2
    &&& c1.peek_uint() == coordstream::OP_COORD
    &&& c1.uint(crate::cbor::raw()).bytes(crate::cbor::raw()).end(
        Error::HolePunchFailed("coord: trailing bytes"),
    ).bad is None
}

/// What is taken for a signal is a frame that carries one, and nothing else is.
pub proof fn law_only_signals_are_carried(f: CoordFrame)
    requires
        crate::cbor::all_encodable(f.toks()),
    ensures
        signals(crate::cbor::enc(f.toks())) <==> f is Coord,
{
    crate::cbor::law_items_read_back(f.toks());
}

} // verus!
