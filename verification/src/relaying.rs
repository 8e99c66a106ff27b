//! What holds of relaying: for whom a node carries, coordinates or ends a circuit, and what
//! it offers for a punch.

use vstd::prelude::*;

use crate::circuitstream::{self, CircuitFrame, CircuitLedger, CircuitRefusal, CircuitStep};
use crate::coordstream::session::{self, CoordStep};
use crate::coordstream::{self, CoordFrame, CoordRefusal, PeerClass};
use crate::error::Error;
use crate::hash::Digest32;

verus! {

/// Members, anchors and peers about to join are relayed for, and nobody else. Of two peers
/// that each are, either may carry the other here; an anchor may carry anyone; and nobody
/// else may carry a stranger.
pub proof fn law_the_known_are_relayed_for(relay: PeerClass, origin: PeerClass)
    ensures
        coordstream::relays(PeerClass::Member),
        coordstream::relays(PeerClass::Anchor),
        coordstream::relays(PeerClass::PendingJoiner),
        !coordstream::relays(PeerClass::Unknown),
        coordstream::relays(relay) && coordstream::relays(origin) ==> coordstream::accepts(
            relay,
            origin,
        ) && coordstream::accepts(origin, relay),
        coordstream::accepts(relay, PeerClass::Unknown) <==> relay is Anchor,
        !coordstream::accepts(PeerClass::Unknown, origin),
{
}

/// A circuit between two peers that are relayed for is asked for at the peer named, and held
/// under the asker, exactly if there is a place for it and that peer is connected; the asker
/// is told which of the two it was that failed, the place first.
pub proof fn law_circuit_is_asked_for(
    peer: Digest32,
    asker: Digest32,
    asker_class: PeerClass,
    named_class: PeerClass,
    room: bool,
    connected: bool,
)
    ensures
        ({
            let r = circuitstream::opening(
                CircuitFrame::Open { peer },
                asker,
                asker_class,
                named_class,
                room,
                connected,
            );
            let known = !(asker_class is Unknown) && !(named_class is Unknown);
            &&& r is Ask <==> known && room && connected
            &&& r is Ask ==> r->target == peer && r->slot.asker == asker
            &&& r is Ask || r is Refuse
            &&& r is Refuse ==> {
                &&& r->reason is NotAuthorized <==> !known
                &&& r->reason is Capacity <==> known && !room
                &&& r->reason is NotConnected <==> known && room && !connected
            }
        }),
{
}

/// A circuit that was carried here ends here, under the name of the peer that asked for it,
/// exactly if the carrier is known and the peer is too or the carrier is an anchor; whether
/// this node carries circuits itself does not matter.
pub proof fn law_circuit_ends_here(
    peer: Digest32,
    carrier: Digest32,
    carrier_class: PeerClass,
    origin_class: PeerClass,
    room: bool,
    connected: bool,
)
    ensures
        ({
            let r = circuitstream::opening(
                CircuitFrame::Incoming { peer },
                carrier,
                carrier_class,
                origin_class,
                room,
                connected,
            );
            &&& r == (CircuitStep::Terminate { origin: peer }) <==> (carrier_class is Anchor || (!(
            carrier_class is Unknown) && !(origin_class is Unknown)))
            &&& r is Terminate || (r is Refuse && r->reason is NotAuthorized)
        }),
{
}

/// A frame that does not open a circuit opens none, and takes no place.
pub proof fn law_other_frames_open_nothing(
    frame: CircuitFrame,
    asker: Digest32,
    asker_class: PeerClass,
    named_class: PeerClass,
    room: bool,
    connected: bool,
)
    requires
        !(frame is Open),
        !(frame is Incoming),
    ensures
        circuitstream::opening(frame, asker, asker_class, named_class, room, connected) is Fail,
{
}

proof fn lemma_times_two(s: Seq<Digest32>, a: Digest32, b: Digest32)
    requires
        a != b,
    ensures
        circuitstream::times(s, a) + circuitstream::times(s, b) <= s.len(),
    decreases s.len(),
{
    if s.len() > 0 {
        lemma_times_two(s.drop_last(), a, b);
    }
}

/// The circuits of one asker are counted one by one: an asker with none has none in the
/// ledger, two askers' circuits are never the same ones, and where one asker holds all of
/// them its count is the whole.
pub proof fn law_circuits_are_counted(s: Seq<Digest32>, a: Digest32, b: Digest32)
    ensures
        circuitstream::times(s, a) > 0 <==> s.contains(a),
        circuitstream::times(s, a) <= s.len(),
        a != b ==> circuitstream::times(s, a) + circuitstream::times(s, b) <= s.len(),
        (forall|i: int| 0 <= i < s.len() ==> #[trigger] s[i] == a) ==> circuitstream::times(s, a)
            == s.len(),
        circuitstream::times(s.push(b), a) == circuitstream::times(s, a) + (if a == b {
            1int
        } else {
            0
        }),
    decreases s.len(),
{
    assert(s.push(b).drop_last() =~= s);
    if a != b {
        lemma_times_two(s, a, b);
    }
    if s.len() > 0 {
        let front = s.drop_last();
        law_circuits_are_counted(front, a, b);
        if s.contains(a) && s.last() != a {
            let i = s.index_of(a);
            assert(front[i] == a);
        }
        if front.contains(a) {
            assert(s[front.index_of(a)] == a);
        }
        if s.last() == a {
            assert(s[s.len() - 1] == a);
        }
        if forall|i: int| 0 <= i < s.len() ==> #[trigger] s[i] == a {
            assert forall|i: int| 0 <= i < front.len() implies #[trigger] front[i] == a by {
                assert(front[i] == s[i]);
            }
        }
    }
}

/// Another asker's circuits cost an asker a place only once the node carries all it may.
pub proof fn law_askers_have_places_of_their_own(l: CircuitLedger, a: Digest32)
    requires
        l.wf(),
        !l.held().contains(a),
    ensures
        l.room_for(a) <==> l.held().len() < circuitstream::MAX_RELAYED_CIRCUITS,
{
    law_circuits_are_counted(l.held(), a, a);
}

/// What was read is handed on only where a whole frame came in time; else it fails, and
/// each way of failing stays apart.
pub proof fn law_frame_came_whole(
    b: Vec<u8>,
    e: Error,
    quiet: Error,
    closed: Error,
    read: Option<Result<Option<Vec<u8>>, Error>>,
)
    ensures
        circuitstream::answer_of(Some(Ok(Some(b))), quiet, closed) == Ok::<Vec<u8>, Error>(b),
        circuitstream::answer_of(Some(Err(e)), quiet, closed) == Err::<Vec<u8>, Error>(e),
        circuitstream::answer_of(Some(Ok(None)), quiet, closed) == Err::<Vec<u8>, Error>(closed),
        circuitstream::answer_of(None, quiet, closed) == Err::<Vec<u8>, Error>(quiet),
        circuitstream::answer_of(read, quiet, closed) is Ok <==> read is Some && read->Some_0 is Ok
            && read->Some_0->Ok_0 is Some,
{
}

/// Two peers that are relayed for are coordinated exactly if the one named is connected;
/// else the one that asked is told why.
pub proof fn law_session_is_carried(
    peer: Digest32,
    observed: Vec<u8>,
    asker_class: PeerClass,
    named_class: PeerClass,
    connected: bool,
)
    ensures
        ({
            let r = session::opening(
                CoordFrame::Relay { peer },
                observed,
                asker_class,
                named_class,
                connected,
            );
            let known = !(asker_class is Unknown) && !(named_class is Unknown);
            &&& r == (CoordStep::Carry { target: peer }) <==> known && connected
            &&& r is Carry || r is Refuse
            &&& r is Refuse ==> {
                &&& r->reason is NotAuthorized <==> !known
                &&& r->reason is NotConnected <==> known && !connected
            }
        }),
{
}

/// A session carried here is taken part in, with the peer that it came from, exactly if the
/// carrier is known and that peer is too or the carrier is an anchor. Anyone at all is told
/// the address that they are seen at, and just that.
pub proof fn law_session_is_taken_part_in(
    peer: Digest32,
    observed: Vec<u8>,
    carrier_class: PeerClass,
    origin_class: PeerClass,
    connected: bool,
)
    ensures
        ({
            let r = session::opening(
                CoordFrame::From { peer },
                observed,
                carrier_class,
                origin_class,
                connected,
            );
            &&& r == (CoordStep::Punch { peer }) <==> (carrier_class is Anchor || (!(carrier_class
                is Unknown) && !(origin_class is Unknown)))
            &&& r is Punch || (r is Refuse && r->reason is NotAuthorized)
        }),
        session::opening(
            CoordFrame::WhoAmI,
            observed,
            carrier_class,
            origin_class,
            connected,
        ) == CoordStep::Answer(CoordFrame::Observed { addr: observed }),
{
}

/// What is offered keeps what there was, in front and in order; behind it stands all that
/// is new, nothing else, and nothing twice.
pub proof fn law_new_addresses_come_behind(list: Seq<Seq<char>>, more: Seq<Seq<char>>)
    ensures
        ({
            let r = session::with_new(list, more);
            &&& list.len() <= r.len() <= list.len() + more.len()
            &&& r.take(list.len() as int) == list
            &&& forall|i: int| 0 <= i < more.len() ==> r.contains(#[trigger] more[i])
            &&& forall|i: int|
                list.len() <= i < r.len() ==> more.contains(#[trigger] r[i]) && !list.contains(r[i])
            &&& forall|i: int, j: int|
                list.len() <= i < j < r.len() ==> #[trigger] r[i] != #[trigger] r[j]
            &&& (forall|i: int| 0 <= i < more.len() ==> list.contains(#[trigger] more[i])) ==> r
                == list
        }),
    decreases more.len(),
{
    if more.len() == 0 {
        assert(list.take(list.len() as int) =~= list);
    } else {
        let front = more.drop_last();
        let x = more.last();
        law_new_addresses_come_behind(list, front);
        let sofar = session::with_new(list, front);
        let r = session::with_new(list, more);
        assert forall|i: int| 0 <= i < list.len() implies r[i] == list[i] by {
            assert(sofar.take(list.len() as int)[i] == list[i]);
        }
        assert(r.take(list.len() as int) =~= list);
        assert forall|i: int| 0 <= i < more.len() implies r.contains(#[trigger] more[i]) by {
            if i < front.len() {
                assert(front[i] == more[i]);
                assert(sofar.contains(front[i]));
                let k = sofar.index_of(front[i]);
                assert(r[k] == more[i]);
            } else if !sofar.contains(x) {
                assert(r[sofar.len() as int] == x);
            }
        }
        assert forall|i: int| list.len() <= i < r.len() implies more.contains(#[trigger] r[i])
            && !list.contains(r[i]) by {
            if i < sofar.len() {
                assert(front.contains(sofar[i]));
                let k = front.index_of(sofar[i]);
                assert(more[k] == r[i]);
            } else {
                assert(more[more.len() - 1] == x);
                if list.contains(x) {
                    let k = list.index_of(x);
                    assert(sofar.take(list.len() as int)[k] == x);
                    assert(sofar[k] == x);
                }
            }
        }
        if forall|i: int| 0 <= i < more.len() ==> list.contains(#[trigger] more[i]) {
            assert forall|i: int| 0 <= i < front.len() implies list.contains(
                #[trigger] front[i],
            ) by {
                assert(more[i] == front[i]);
            }
            assert(list.contains(more[more.len() - 1]));
        }
    }
}

/// Of a list that is too long the front is kept, and of any other all.
pub proof fn law_front_is_kept(list: Seq<Seq<char>>, n: int)
    requires
        0 <= n,
    ensures
        session::at_most(list, n).len() <= n,
        session::at_most(list, n).len() == n || session::at_most(list, n) == list,
        forall|i: int|
            0 <= i < session::at_most(list, n).len() ==> #[trigger] session::at_most(list, n)[i]
                == list[i],
        session::at_most(list, n).len() <= list.len(),
{
}

/// Each refusal of a relay has a number of its own on the wire.
pub proof fn law_relay_refusals_are_told_apart(
    a: CircuitRefusal,
    b: CircuitRefusal,
    c: CoordRefusal,
    d: CoordRefusal,
)
    ensures
        a.number() == b.number() ==> a == b,
        c.number() == d.number() ==> c == d,
{
}

} // verus!
