//! What holds of application streams: who is announced to whom, how a peer's credit runs,
//! and what a live stream says once trust is gone.

use vstd::prelude::*;

use crate::app::hub::{self, AppHub, Listener, PeerLimit};
use crate::app::serve::{self, Met};
use crate::app::stream::{self, Raced};
use crate::app::{self, AppAnswer, AppOpen, AppRefusal};
use crate::cbor;
use crate::error::Error;
use crate::hash::{self, Digest32};
use crate::link::scan;
use crate::lists;

verus! {

// ---- labels ------------------------------------------------------------------

/// A label is 1 to 64 characters between the exclamation mark and the tilde, and any such
/// text is one; two labels after each other are one as long as they fit.
pub proof fn law_label_is_printable(s: Seq<char>, t: Seq<char>)
    ensures
        app::label_ok(s) <==> (1 <= s.len() <= 64 && forall|i: int|
            0 <= i < s.len() ==> 33 <= (#[trigger] s[i]) as int <= 126),
        app::label_ok(s) && app::label_ok(t) && s.len() + t.len() <= 64 ==> app::label_ok(s + t),
{
    if app::label_ok(s) {
        assert forall|i: int| 0 <= i < s.len() implies 33 <= (#[trigger] s[i]) as int <= 126 by {
            assert(app::graphic(s[i]));
        }
    }
    if 1 <= s.len() <= 64 && forall|i: int|
        0 <= i < s.len() ==> 33 <= (#[trigger] s[i]) as int <= 126 {
        assert forall|i: int| 0 <= i < s.len() implies app::graphic(#[trigger] s[i]) by {
            assert(33 <= s[i] as int <= 126);
        }
    }
    if app::label_ok(s) && app::label_ok(t) && s.len() + t.len() <= 64 {
        assert forall|i: int| 0 <= i < (s + t).len() implies app::graphic(
            #[trigger] (s + t)[i],
        ) by {
            if i < s.len() {
                assert(app::graphic(s[i]));
            } else {
                assert(app::graphic(t[i - s.len()]));
            }
        }
    }
}

/// An offer is in order exactly if it holds 1 to 8 labels and nothing else.
pub proof fn law_offer_is_of_labels(labels: Seq<Seq<char>>)
    ensures
        serve::offer_ok(labels) <==> (0 < labels.len() < 9 && forall|s: Seq<char>|
            labels.contains(s) ==> #[trigger] app::label_ok(s)),
{
    if serve::offer_ok(labels) {
        assert forall|s: Seq<char>| labels.contains(s) implies #[trigger] app::label_ok(s) by {
            let i = labels.index_of(s);
            assert(app::label_ok(labels[i]));
        }
    }
    if forall|s: Seq<char>| labels.contains(s) ==> #[trigger] app::label_ok(s) {
        assert forall|i: int| 0 <= i < labels.len() implies app::label_ok(
            #[trigger] labels[i],
        ) by {
            assert(labels.contains(labels[i]));
        }
    }
}

// ---- the limits --------------------------------------------------------------

/// A peer that was never seen may open ten streams at once, and no eleventh.
pub proof fn law_new_peer_may_burst(now: u64, times: Seq<u64>)
    requires
        forall|i: int| 0 <= i < times.len() ==> #[trigger] times[i] == now,
    ensures
        ({
            let (after, n) = hub::run(PeerLimit::fresh(now), times);
            &&& n == (if times.len() < 10 {
                times.len()
            } else {
                10
            })
            &&& after.live == n
            &&& after.credit + n * 100_000_000 == 1_000_000_000
            &&& after.at == now
        }),
    decreases times.len(),
{
    if times.len() > 0 {
        let front = times.drop_last();
        assert forall|i: int| 0 <= i < front.len() implies #[trigger] front[i] == now by {
            assert(front[i] == times[i]);
        }
        law_new_peer_may_burst(now, front);
        assert(times.last() == now);
    }
}

/// Credit never falls while time passes and never passes the burst; what was counted at a
/// time between is what is counted in one go; after a second it is full; and the streams
/// that are open stay as they are.
pub proof fn law_credit_comes_back(l: PeerLimit, a: u64, b: u64)
    requires
        l.wf(),
        l.at <= a <= b,
    ensures
        l.at_time(a).at_time(b) == l.at_time(b),
        l.at_time(a).live == l.live,
        l.credit <= l.at_time(a).credit <= 1_000_000_000,
        l.at_time(a).credit == l.credit + (a - l.at) || l.at_time(a).credit == 1_000_000_000,
        l.at_time(a).credit - l.credit <= a - l.at,
        a - l.at >= 1_000_000_000 ==> l.at_time(a).credit == 1_000_000_000,
        l.at_time(a).at == a,
{
}

/// A peer with fewer than 16 streams that has not opened one for a tenth of a second may
/// open one; one with 16 may not, however long it waits.
pub proof fn law_waiting_helps_unless_full(l: PeerLimit, now: u64)
    requires
        l.wf(),
        now >= l.at + 100_000_000,
    ensures
        l.at_time(now).has_room() <==> l.live < 16,
{
}

/// A stream takes one place and a tenth of a second of credit; its end gives the place
/// back and the credit not.
pub proof fn law_end_gives_the_place_back(l: PeerLimit)
    requires
        l.wf(),
        l.has_room(),
    ensures
        l.with_one().wf(),
        l.with_one().live == l.live + 1,
        l.with_one().credit == l.credit - 100_000_000,
        l.with_one().at == l.at,
        l.with_one().less_one().live == l.live,
        l.with_one().less_one().credit == l.with_one().credit,
        l.with_one().less_one().at == l.at,
{
}

/// The end of a stream of one peer's gives that peer, and no other, one place back.
pub proof fn law_release_is_the_peers_own(
    peers: Map<Seq<u8>, PeerLimit>,
    peer: Seq<u8>,
    other: Seq<u8>,
    now: u64,
)
    ensures
        serve::released(peers, peer).dom() == peers.dom(),
        peer != other ==> hub::limit_of(serve::released(peers, peer), other, now)
            == hub::limit_of(peers, other, now),
        peers.contains_key(peer) && peers[peer].live > 0 ==> hub::limit_of(
            serve::released(peers, peer),
            peer,
            now,
        ).live == hub::limit_of(peers, peer, now).live - 1,
        hub::limit_of(serve::released(peers, peer), peer, now).credit == hub::limit_of(
            peers,
            peer,
            now,
        ).credit,
        !peers.contains_key(peer) ==> hub::limit_of(peers, peer, now).has_room(),
{
    assert(serve::released(peers, peer).dom() =~= peers.dom());
}

// ---- the listeners -----------------------------------------------------------

/// A listener for a room and label is found exactly if there is one, and it is the first.
pub proof fn law_listener_is_found(ls: Seq<Listener>, room: Option<Digest32>, label: Seq<char>)
    ensures
        match hub::open_at(ls, room, label) {
            Some(i) => {
                &&& 0 <= i < ls.len()
                &&& ls[i].room == room
                &&& ls[i].label@ == label
                &&& forall|j: int|
                    0 <= j < i ==> !((#[trigger] ls[j]).room == room && ls[j].label@ == label)
            },
            None => forall|j: int|
                0 <= j < ls.len() ==> !((#[trigger] ls[j]).room == room && ls[j].label@ == label),
        },
    decreases ls.len(),
{
    if ls.len() > 0 {
        let front = ls.drop_last();
        law_listener_is_found(front, room, label);
        match hub::open_at(front, room, label) {
            Some(i) => {
                assert(front[i] == ls[i]);
                assert forall|j: int| 0 <= j < i implies !((#[trigger] ls[j]).room == room
                    && ls[j].label@ == label) by {
                    assert(front[j] == ls[j]);
                }
            },
            None => {
                assert forall|j: int| 0 <= j < ls.len() - 1 implies !((#[trigger] ls[j]).room
                    == room && ls[j].label@ == label) by {
                    assert(front[j] == ls[j]);
                }
            },
        }
    }
}

/// Whether anyone serves a label in a room: one bound to the room, or one for any room.
pub open spec fn serves(ls: Seq<Listener>, room: Digest32, label: Seq<char>) -> bool {
    exists|j: int|
        0 <= j < ls.len() && (#[trigger] ls[j]).label@ == label && (ls[j].room is None || ls[j].room
            == Some(room))
}

proof fn lemma_serves(ls: Seq<Listener>, room: Digest32, label: Seq<char>)
    ensures
        serves(ls, room, label) <==> (hub::open_at(ls, Some(room), label) is Some || hub::open_at(
            ls,
            None,
            label,
        ) is Some),
{
    law_listener_is_found(ls, Some(room), label);
    law_listener_is_found(ls, None, label);
    if serves(ls, room, label) {
        let j = choose|j: int|
            0 <= j < ls.len() && (#[trigger] ls[j]).label@ == label && (ls[j].room is None
                || ls[j].room == Some(room));
        assert(ls[j].label@ == label);
    }
}

/// The label that is spoken is the first of the offered ones that anyone serves, whoever
/// else serves a later one; and a listener bound to the room goes before one for any room.
pub proof fn law_first_served_label_is_spoken(
    ls: Seq<Listener>,
    room: Digest32,
    labels: Seq<Seq<char>>,
    k: int,
)
    requires
        0 <= k <= labels.len(),
    ensures
        match hub::serving(ls, room, labels, k) {
            Some((n, i)) => {
                &&& k <= n < labels.len()
                &&& 0 <= i < ls.len()
                &&& ls[i].label@ == labels[n]
                &&& ls[i].room is None || ls[i].room == Some(room)
                &&& forall|m: int| k <= m < n ==> !serves(ls, room, #[trigger] labels[m])
                &&& ls[i].room is None ==> forall|j: int|
                    0 <= j < ls.len() ==> !((#[trigger] ls[j]).room == Some(room) && ls[j].label@
                        == labels[n])
            },
            None => forall|m: int|
                k <= m < labels.len() ==> !serves(ls, room, #[trigger] labels[m]),
        },
    decreases labels.len() - k,
{
    if k < labels.len() {
        law_listener_is_found(ls, Some(room), labels[k]);
        law_listener_is_found(ls, None, labels[k]);
        lemma_serves(ls, room, labels[k]);
        law_first_served_label_is_spoken(ls, room, labels, k + 1);
    }
}

// ---- what a request meets ----------------------------------------------------

/// A request of a peer in the circle of the room that it names is told what it meets: busy
/// exactly if the peer is past its limit, else that nobody listens exactly if nobody serves
/// any of the labels offered, else it is announced. Only such a request is told anything.
pub proof fn law_trusted_are_answered(
    h: AppHub,
    b: Vec<u8>,
    room: Digest32,
    peer: Digest32,
    now: u64,
)
    requires
        app::open_fault(b@) is None,
        room@ == hub::asked_room(b@),
        h.reachers.map().contains_key(room@),
    ensures
        ({
            let served = exists|m: int|
                0 <= m < hub::asked_labels(b@).len() && serves(
                    h.listeners@,
                    room,
                    #[trigger] hub::asked_labels(b@)[m],
                );
            let free = hub::limit_of(h.peers.map(), peer@, now).has_room();
            let r = serve::met(h, Some(b), peer, now);
            &&& r == Met::Reset <==> !h.reachers.map()[room@]@.contains(peer)
            &&& h.reachers.map()[room@]@.contains(peer) ==> {
                &&& r == Met::Refuse(AppRefusal::Busy) <==> !free
                &&& r == Met::Refuse(AppRefusal::NoListener) <==> free && !served
                &&& r == Met::Announce <==> free && served
            }
        }),
{
    assert(serve::room_of(b@) == room) by {
        hash::lemma_digest_ext(serve::room_of(b@), room);
    }
    law_first_served_label_is_spoken(h.listeners@, room, hub::asked_labels(b@), 0);
    match hub::serving(h.listeners@, room, hub::asked_labels(b@), 0) {
        Some((n, i)) => {
            assert(h.listeners@[i].label@ == hub::asked_labels(b@)[n]);
            assert(serves(h.listeners@, room, hub::asked_labels(b@)[n]));
        },
        None => {},
    }
}

/// This node opens a stream exactly to a peer in the circle of a room that it holds, with
/// labels in order. Of what is wrong, the labels are named first, the room next, the peer
/// last.
pub proof fn law_only_the_circle_is_opened_to(
    reachers: Map<Seq<u8>, Vec<Digest32>>,
    room: Digest32,
    peer: Digest32,
    labels: Seq<Seq<char>>,
    other: Seq<Seq<char>>,
)
    ensures
        serve::open_refusal(reachers, room, peer, labels) is None <==> {
            &&& serve::offer_ok(labels)
            &&& reachers.contains_key(room@)
            &&& reachers[room@]@.contains(peer)
        },
        !serve::offer_ok(labels) && !serve::offer_ok(other) ==> serve::open_refusal(
            reachers,
            room,
            peer,
            labels,
        ) == serve::open_refusal(Map::empty(), room, peer, other),
        serve::offer_ok(labels) && serve::offer_ok(other) ==> serve::open_refusal(
            reachers,
            room,
            peer,
            labels,
        ) == serve::open_refusal(reachers, room, peer, other),
        serve::offer_ok(labels) && !reachers.contains_key(room@) ==> serve::open_refusal(
            reachers,
            room,
            peer,
            labels,
        ) == Some(Error::StreamRefused("app: this node does not hold that room")),
{
}

/// A stream is up exactly if the peer answered in time, in the right form, that it accepts
/// one of the labels offered to it.
pub proof fn law_stream_is_up_once_accepted(
    labels: Seq<Seq<char>>,
    read: Option<Vec<u8>>,
    label: String,
    refusal: AppRefusal,
)
    ensures
        serve::answer_error(labels, read, AppAnswer::Accepted(label)) is None <==> {
            &&& read is Some
            &&& app::answer_fault(read->Some_0@) is None
            &&& exists|i: int| 0 <= i < labels.len() && #[trigger] labels[i] == label@
        },
        serve::answer_error(labels, read, AppAnswer::Refused(refusal)) is Some,
        read is Some && app::answer_fault(read->Some_0@) is None ==> serve::answer_error(
            labels,
            read,
            AppAnswer::Refused(refusal),
        ) == Some(refusal.failure()),
{
}

// ---- a live stream -----------------------------------------------------------

/// Once a stream was torn down here, nothing comes through it and every call says that
/// trust was withdrawn, whatever the other side did; before that, what comes through is
/// what was read, a reset with the code of a withdrawal is told as one, and no other
/// failure is.
pub proof fn law_withdrawn_stream_is_silent(
    a: Raced<Option<usize>>,
    b: Raced<()>,
    n: Option<usize>,
    code: u64,
)
    ensures
        stream::read_result(true, a) == Err::<Option<usize>, Error>(stream::withdrawn_error()),
        stream::write_fault(true, b) == Some(stream::withdrawn_error()),
        stream::read_result(false, Raced::Done(n)) == Ok::<Option<usize>, Error>(n),
        stream::read_result(false, a) is Ok <==> a is Done,
        stream::write_fault(false, b) is None <==> b is Done,
        stream::read_result(false, Raced::Withdrawn) == stream::read_result(true, a),
        stream::write_fault(false, Raced::Withdrawn) == stream::write_fault(true, b),
        stream::read_result(false, Raced::Reset(code)) is Err,
        (stream::read_result(false, Raced::Reset(code))->Err_0 is TunnelRevoked) <==> code
            == 0x2207,
        stream::read_result(false, Raced::Failed) == Err::<Option<usize>, Error>(
            Error::MalformedTunnel("app stream read"),
        ),
{
}

/// However often and from wherever a stream is torn down, it is counted once.
pub proof fn law_withdrawal_is_counted_once(h: AppHub)
    ensures
        stream::torn(h, false) == h,
        h.stats.withdrawn < u64::MAX ==> stream::torn(h, true).stats.withdrawn == h.stats.withdrawn
            + 1,
        stream::torn(h, true).peers == h.peers,
        stream::torn(h, true).pending == h.pending,
        stream::torn(h, true).listeners == h.listeners,
        stream::torn(h, true).reachers == h.reachers,
        stream::torn(h, true).stats.accepted == h.stats.accepted,
        stream::torn(h, true).stats.opened == h.stats.opened,
        stream::torn(h, true).stats.inbound == h.stats.inbound,
{
}

/// A program that stops listening takes its own listeners away and no other's, and the
/// others keep their order.
pub proof fn law_stopping_takes_its_own_away(ls: Seq<Listener>, ticket: u64, l: Listener)
    ensures
        lists::pick(ls, hub::not_ticket(ticket)).contains(l) <==> ls.contains(l) && l.ticket
            != ticket,
        (forall|i: int| 0 <= i < ls.len() ==> (#[trigger] ls[i]).ticket != ticket) ==> lists::pick(
            ls,
            hub::not_ticket(ticket),
        ) == ls,
{
    lists::lemma_pick_contains(ls, hub::not_ticket(ticket), l);
    lists::law_pick_takes_all_or_fewer(ls, hub::not_ticket(ticket));
}

/// A request that is told anything is told what it met.
pub proof fn law_answer_is_what_was_met(r: hub::Inbound)
    ensures
        serve::kind_of(r) is Reset <==> r is Reset,
        serve::kind_of(r) is Announce <==> r is Announce,
        r matches hub::Inbound::Refuse(why) ==> serve::kind_of(r) == Met::Refuse(why),
{
}

/// Each counter goes up by one.
pub proof fn law_counters_go_up_by_one(n: u64)
    requires
        n < u64::MAX,
    ensures
        hub::up(n) == n + 1,
{
}

/// What is read of a request is what was asked: the room and the labels of the one who
/// wrote it.
pub proof fn law_request_says_what_was_asked(o: AppOpen)
    requires
        o.wf(),
        cbor::all_encodable(o.toks()),
    ensures
        hub::asked_room(cbor::enc(o.toks())) == o.channel_id@,
        hub::asked_labels(cbor::enc(o.toks())) == scan::texts(o.labels@),
        app::open_fault(cbor::enc(o.toks())) is None,
{
    app::law_app_open_read_back(o);
    cbor::law_items_read_back(o.toks());
    hub::lemma_asked(o, cbor::enc(o.toks()));
}

/// Each refusal has a word of its own on the wire and is told in words of its own; a word
/// that is none of theirs is no refusal.
pub proof fn law_refusals_are_told_apart(a: AppRefusal, b: AppRefusal, s: Seq<char>)
    ensures
        AppRefusal::of_word(a.word()@) == Some(a),
        a.word()@ == b.word()@ ==> a == b,
        a.failure() == b.failure() ==> a == b,
        AppRefusal::of_word(s) is Some ==> AppRefusal::of_word(s)->Some_0.word()@ == s,
{
    reveal_strlit("no-listener");
    reveal_strlit("busy");
    reveal_strlit("refused");
    assert("no-listener"@.len() == 11 && "busy"@.len() == 4 && "refused"@.len() == 7);
    reveal_strlit("app: no-listener \u{2014} nothing there listens for that label");
    reveal_strlit("app: busy \u{2014} too many app streams to that peer, or too fast");
    reveal_strlit("app: refused \u{2014} the program there did not accept in time");
    let (x, y) = (a.failure(), b.failure());
    if x == y {
        let (p, q) = (x->StreamRefused_0@, y->StreamRefused_0@);
        assert(p[5] == q[5]);
    }
}

} // verus!
