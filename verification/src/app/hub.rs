//! The node's application layer: who listens for what, whom each room trusts, the limits of each
//! peer, and what an incoming or an outgoing stream meets on its way.
//!
//! Trust runs both ways. A stream is opened only to a peer that is in this node's
//! keyring and in the room, and served only to such a peer. A peer that is not gets a bare
//! reset, whatever else holds here; one that is gets told why.

use vstd::prelude::*;

use crate::app::{self, valid_label, AppOpen, AppRefusal};
use crate::cbor::{self, Tok};
use crate::error::Error;
use crate::hash::{same_digest, Digest32};
use crate::link::scan;
use crate::lists::{self, has_digest};
use crate::table::Table;
use crate::text::same_text;

verus! {

/// The most application streams with any one peer at once.
pub const MAX_APP_STREAMS_PER_PEER: usize = 16;

/// About how many new streams a second any one peer may open.
pub const OPEN_RATE_PER_SEC: u64 = 10;

/// The most that it may open at once.
pub const OPEN_BURST: u64 = 10;

/// What one new stream costs of a peer's credit: the nanoseconds between two streams at
/// [`OPEN_RATE_PER_SEC`].
pub const TOKEN_NANOS: u64 = 1_000_000_000 / OPEN_RATE_PER_SEC;

/// The most credit that a peer can have: [`OPEN_BURST`] streams.
pub const BURST_NANOS: u64 = OPEN_BURST * TOKEN_NANOS;

// ---- the limits of a peer ----------------------------------------------------

/// What a peer has open, and its credit for more. Credit grows by a nanosecond each
/// nanosecond.
#[derive(Debug, Clone, Copy, PartialEq, Eq)]
pub struct PeerLimit {
    /// How many streams are open.
    pub live: usize,
    /// The credit.
    pub credit: u64,
    /// When the credit was counted, on a clock that never goes back.
    pub at: u64,
}

impl PeerLimit {
    /// What every limit keeps.
    pub open spec fn wf(&self) -> bool {
        &&& self.live <= MAX_APP_STREAMS_PER_PEER
        &&& self.credit <= BURST_NANOS
    }

    /// The limit of a peer that has not been seen before.
    pub open spec fn fresh(now: u64) -> PeerLimit {
        PeerLimit { live: 0, credit: BURST_NANOS, at: now }
    }

    /// The limit with its credit counted up to `now`.
    pub open spec fn at_time(self, now: u64) -> PeerLimit {
        let elapsed = if now > self.at {
            now - self.at
        } else {
            0
        };
        PeerLimit {
            live: self.live,
            credit: if self.credit + elapsed > BURST_NANOS {
                BURST_NANOS
            } else {
                (self.credit + elapsed) as u64
            },
            at: now,
        }
    }

    /// Whether one more stream is within the limit.
    pub open spec fn has_room(self) -> bool {
        self.live < MAX_APP_STREAMS_PER_PEER && self.credit >= TOKEN_NANOS
    }

    /// The limit with one more stream.
    pub open spec fn with_one(self) -> PeerLimit {
        PeerLimit {
            live: (self.live + 1) as usize,
            credit: (self.credit - TOKEN_NANOS) as u64,
            at: self.at,
        }
    }

    /// The limit with one stream less.
    pub open spec fn less_one(self) -> PeerLimit {
        PeerLimit {
            live: if self.live == 0 {
                0
            } else {
                (self.live - 1) as usize
            },
            credit: self.credit,
            at: self.at,
        }
    }

    pub(crate) fn refill(&self, now: u64) -> (l: PeerLimit)
        requires
            self.wf(),
        ensures
            l == self.at_time(now),
            l.wf(),
    {
        let elapsed: u64 = if now > self.at {
            now - self.at
        } else {
            0
        };
        let credit: u64 = if elapsed > BURST_NANOS - self.credit {
            BURST_NANOS
        } else {
            self.credit + elapsed
        };
        PeerLimit { live: self.live, credit, at: now }
    }
}

/// The limit of a peer, counted up to `now`.
pub open spec fn limit_of(peers: Map<Seq<u8>, PeerLimit>, peer: Seq<u8>, now: u64) -> PeerLimit {
    if peers.contains_key(peer) {
        peers[peer].at_time(now)
    } else {
        PeerLimit::fresh(now)
    }
}

/// A limit behind requests at these times, and how many of them were granted, where no
/// stream ends.
pub open spec fn run(l: PeerLimit, times: Seq<u64>) -> (PeerLimit, nat)
    decreases times.len(),
{
    if times.len() == 0 {
        (l, 0)
    } else {
        let (before, n) = run(l, times.drop_last());
        let here = before.at_time(times.last());
        if here.has_room() {
            (here.with_one(), n + 1)
        } else {
            (here, n)
        }
    }
}

/// Whether times never go back, from `from` on.
pub open spec fn forward(from: u64, times: Seq<u64>) -> bool {
    forall|i: int|
        0 <= i < times.len() ==> (if i == 0 {
            from
        } else {
            times[i - 1]
        }) <= #[trigger] times[i]
}

/// A peer opens no faster than the rate: between a count of its credit and any later
/// request, each stream granted costs its share of the credit there was and of the time
/// that has passed.
pub proof fn law_opens_are_rate_limited(l: PeerLimit, times: Seq<u64>)
    requires
        l.wf(),
        forward(l.at, times),
    ensures
        ({
            let (after, n) = run(l, times);
            &&& after.wf()
            &&& after.at == (if times.len() == 0 {
                l.at
            } else {
                times.last()
            })
            &&& n * TOKEN_NANOS + after.credit <= l.credit + (after.at - l.at)
            &&& n * TOKEN_NANOS <= BURST_NANOS + (after.at - l.at)
        }),
    decreases times.len(),
{
    if times.len() > 0 {
        let front = times.drop_last();
        assert(forward(l.at, front)) by {
            assert forall|i: int| 0 <= i < front.len() implies (if i == 0 {
                l.at
            } else {
                front[i - 1]
            }) <= #[trigger] front[i] by {
                assert(times[i] == front[i]);
            }
        }
        law_opens_are_rate_limited(l, front);
        let (before, n) = run(l, front);
        assert(before.at <= times[times.len() - 1]);
        let here = before.at_time(times.last());
        assert(n * TOKEN_NANOS + here.credit <= l.credit + (here.at - l.at));
        if here.has_room() {
            assert((n + 1) * TOKEN_NANOS == n * TOKEN_NANOS + TOKEN_NANOS) by (nonlinear_arith);
        }
    }
}

// ---- the hub -----------------------------------------------------------------

/// A program that listens.
#[derive(Debug, PartialEq, Eq)]
pub struct Listener {
    /// The room, or `None` for any room.
    pub room: Option<Digest32>,
    /// The label.
    pub label: String,
    /// What the program is known by here.
    pub ticket: u64,
}

/// Whether a listener is for this room and label.
pub open spec fn is_for(l: Listener, room: Option<Digest32>, label: Seq<char>) -> bool {
    l.room == room && l.label@ == label
}

/// Where the listener for this room and label stands.
pub open spec fn open_at(ls: Seq<Listener>, room: Option<Digest32>, label: Seq<char>) -> Option<
    int,
>
    decreases ls.len(),
{
    if ls.len() == 0 {
        None
    } else {
        match open_at(ls.drop_last(), room, label) {
            Some(i) => Some(i),
            None => if is_for(ls.last(), room, label) {
                Some(ls.len() - 1)
            } else {
                None
            },
        }
    }
}

/// Which of `labels` is served in a room, from the `k`-th on, and by whom: the first label
/// that any listener serves, by one bound to the room before one that listens in any room.
pub open spec fn serving(
    ls: Seq<Listener>,
    room: Digest32,
    labels: Seq<Seq<char>>,
    k: int,
) -> Option<(int, int)>
    decreases labels.len() - k,
{
    if k < 0 || k >= labels.len() {
        None
    } else {
        match open_at(ls, Some(room), labels[k]) {
            Some(i) => Some((k, i)),
            None => match open_at(ls, None, labels[k]) {
                Some(i) => Some((k, i)),
                None => serving(ls, room, labels, k + 1),
            },
        }
    }
}

/// An incoming stream that waits for a program to accept it.
#[derive(Debug, PartialEq, Eq)]
pub struct AppIncoming {
    /// What [`AppHub::accept`] takes.
    pub id: u64,
    /// The room that the opener named.
    pub channel_id: Digest32,
    /// The opener.
    pub peer: Digest32,
    /// The label chosen.
    pub label: String,
}

/// What the application layer has done.
#[derive(Debug, Clone, Copy, PartialEq, Eq)]
pub struct AppStats {
    /// Streams that arrived from peers.
    pub inbound: u64,
    /// Refused because the opener is not trusted in the room.
    pub refused_untrusted: u64,
    /// Refused as busy.
    pub refused_busy: u64,
    /// Refused because nothing listens.
    pub refused_no_listener: u64,
    /// Refused because nobody accepted in time.
    pub refused_unaccepted: u64,
    /// Announced to a listening program.
    pub announced: u64,
    /// Accepted by a local program.
    pub accepted: u64,
    /// Opened by a local program and accepted by the peer.
    pub opened: u64,
    /// Opens that this node refused before it dialled.
    pub refused_locally: u64,
    /// Live streams torn down because trust was withdrawn.
    pub withdrawn: u64,
}

/// Nothing done yet.
pub open spec fn no_stats() -> AppStats {
    AppStats {
        inbound: 0,
        refused_untrusted: 0,
        refused_busy: 0,
        refused_no_listener: 0,
        refused_unaccepted: 0,
        announced: 0,
        accepted: 0,
        opened: 0,
        refused_locally: 0,
        withdrawn: 0,
    }
}

/// What an application stream is.
#[derive(Debug, PartialEq, Eq)]
pub struct AppInfo {
    /// The room it belongs to.
    pub channel_id: Digest32,
    /// The node at the other end.
    pub peer: Digest32,
    /// The label that both sides speak.
    pub label: String,
    /// Whether a datagram flow is bound to it.
    pub datagrams: bool,
}

/// One more, round the end.
pub open spec fn up(n: u64) -> u64 {
    if n == u64::MAX {
        0
    } else {
        (n + 1) as u64
    }
}

pub(crate) fn bump(n: u64) -> (r: u64)
    ensures
        r == up(n),
{
    if n == u64::MAX {
        0
    } else {
        n + 1
    }
}

/// The node's application layer.
#[derive(Debug)]
pub struct AppHub {
    /// The programs that listen.
    pub listeners: Vec<Listener>,
    /// Each room's circle: the peers that are in the keyring and in the room.
    pub reachers: Table<Digest32, Vec<Digest32>>,
    /// What each peer has open.
    pub peers: Table<Digest32, PeerLimit>,
    /// The incoming streams that wait to be accepted.
    pub pending: Vec<u64>,
    /// The last number given to an incoming stream.
    pub next_id: u64,
    /// The last ticket given to a listener.
    pub next_ticket: u64,
    /// What was done.
    pub stats: AppStats,
}

/// Whether a peer is in the circle of a room.
pub open spec fn in_circle(
    reachers: Map<Seq<u8>, Vec<Digest32>>,
    room: Seq<u8>,
    peer: Digest32,
) -> bool {
    reachers.contains_key(room) && reachers[room]@.contains(peer)
}

/// The room that a request names.
pub open spec fn asked_room(b: Seq<u8>) -> Seq<u8> {
    cbor::toks_of(b)[2]->Bytes_0
}

/// The labels that a request offers.
pub open spec fn asked_labels(b: Seq<u8>) -> Seq<Seq<char>> {
    Seq::new(app::open_count(b) as nat, |i: int| cbor::toks_of(b)[4 + i]->Text_0)
}

/// Whether what arrived is a request of a peer that is in the circle of the room it names.
pub open spec fn trusted(
    reachers: Map<Seq<u8>, Vec<Digest32>>,
    frame: Option<Vec<u8>>,
    peer: Digest32,
) -> bool {
    match frame {
        Some(b) => app::open_fault(b@) is None && in_circle(reachers, asked_room(b@), peer),
        None => false,
    }
}

pub(crate) proof fn lemma_asked(o: AppOpen, b: Seq<u8>)
    requires
        o.wf(),
        o.toks() == cbor::toks_of(b),
        app::open_fault(b) is None,
    ensures
        asked_room(b) == o.channel_id@,
        asked_labels(b) == scan::texts(o.labels@),
{
    let vs = scan::texts(o.labels@);
    let head = app::open_front(o.channel_id@, vs.len() as u64);
    app::lemma_label_list_len(head, vs);
    let list = cbor::put_all(head, vs, app::label_item());
    assert(o.toks() =~= list.push(Tok::Uint(o.flags)));
    assert(head[2] == list[2]);
    assert(head[3] == list[3]);
    assert(list[2] == o.toks()[2]);
    assert(list[3] == o.toks()[3]);
    assert(list[0] == head[0]);
    assert(list[1] == head[1]);
    assert(o.toks()[0] == Tok::Array(4));
    assert(o.toks()[1] == Tok::Uint(1));
    assert(app::open_count(b) == vs.len());
    assert forall|i: int| 0 <= i < vs.len() implies asked_labels(b)[i] == vs[i] by {
        app::lemma_label_list_at(head, vs, i);
        assert(list[4 + i] == o.toks()[4 + i]);
    }
    assert(asked_labels(b) =~= vs);
}

/// What an incoming request meets.
#[derive(Debug, PartialEq, Eq)]
pub enum Inbound {
    /// A bare reset: what a stream of a kind that is forbidden or unknown gets.
    Reset,
    /// A refusal that says why.
    Refuse(AppRefusal),
    /// It is announced to the listener with this ticket.
    Announce {
        /// What the listener is told.
        incoming: AppIncoming,
        /// Which listener.
        ticket: u64,
        /// Whether a datagram flow is asked for.
        datagrams: bool,
    },
}

/// Whether no room and label has two listeners, and tickets were all given out.
pub open spec fn apart(ls: Seq<Listener>, last: u64) -> bool {
    &&& forall|i: int, j: int|
        0 <= i < j < ls.len() ==> !(#[trigger] ls[i].room == (#[trigger] ls[j]).room && ls[i].label@
            == ls[j].label@)
    &&& forall|i: int| 0 <= i < ls.len() ==> (#[trigger] ls[i]).ticket <= last
}

impl AppHub {
    /// What the hub keeps: one listener for each room and label, and every peer within its
    /// limit.
    pub open spec fn wf(&self) -> bool {
        &&& apart(self.listeners@, self.next_ticket)
        &&& self.reachers.wf()
        &&& self.peers.wf()
        &&& forall|k: Seq<u8>| #[trigger]
            self.peers.map().contains_key(k) ==> self.peers.map()[k].wf()
        &&& forall|i: int| 0 <= i < self.pending@.len() ==> #[trigger] self.pending@[i]
            <= self.next_id
        &&& self.pending@.no_duplicates()
    }

    /// An empty hub.
    pub fn new() -> (h: AppHub)
        ensures
            h.wf(),
            h.listeners@.len() == 0,
            h.reachers.map() == Map::<Seq<u8>, Vec<Digest32>>::empty(),
            h.peers.map() == Map::<Seq<u8>, PeerLimit>::empty(),
            h.pending@.len() == 0,
            h.next_id == 0,
            h.next_ticket == 0,
            h.stats == no_stats(),
    {
        AppHub {
            listeners: Vec::new(),
            reachers: Table::new(),
            peers: Table::new(),
            pending: Vec::new(),
            next_id: 0,
            next_ticket: 0,
            stats: AppStats {
                inbound: 0,
                refused_untrusted: 0,
                refused_busy: 0,
                refused_no_listener: 0,
                refused_unaccepted: 0,
                announced: 0,
                accepted: 0,
                opened: 0,
                refused_locally: 0,
                withdrawn: 0,
            },
        }
    }

    /// What was done so far.
    #[must_use]
    pub fn stats(&self) -> (s: AppStats)
        ensures
            s == self.stats,
    {
        self.stats
    }

    /// Takes up the circle of every room.
    pub fn set_reachers(&mut self, reachers: Table<Digest32, Vec<Digest32>>)
        requires
            old(self).wf(),
            reachers.wf(),
        ensures
            final(self).wf(),
            *final(self) == (AppHub { reachers, ..*old(self) }),
    {
        self.reachers = reachers;
    }

    /// Whether a peer is in the circle of a room.
    pub fn reaches(&self, room: &Digest32, peer: &Digest32) -> (r: bool)
        requires
            self.wf(),
        ensures
            r == in_circle(self.reachers.map(), room@, *peer),
    {
        match self.reachers.get(room) {
            Some(v) => has_digest(v, peer),
            None => false,
        }
    }
}

// ---- listening ---------------------------------------------------------------

/// Whether two rooms, or none, are the same.
fn same_room(a: &Option<Digest32>, b: &Option<Digest32>) -> (r: bool)
    ensures
        r == (*a == *b),
{
    match (a, b) {
        (Some(x), Some(y)) => same_digest(x, y),
        (None, None) => true,
        _ => false,
    }
}

/// Whether a listener is not the one with this ticket.
pub open spec fn not_ticket(ticket: u64) -> spec_fn(Listener) -> bool {
    |l: Listener| l.ticket != ticket
}

proof fn lemma_open_at(ls: Seq<Listener>, room: Option<Digest32>, label: Seq<char>)
    ensures
        match open_at(ls, room, label) {
            Some(i) => 0 <= i < ls.len() && is_for(ls[i], room, label),
            None => forall|i: int| 0 <= i < ls.len() ==> !is_for(#[trigger] ls[i], room, label),
        },
    decreases ls.len(),
{
    if ls.len() > 0 {
        lemma_open_at(ls.drop_last(), room, label);
        if open_at(ls, room, label) is None {
            assert forall|i: int| 0 <= i < ls.len() implies !is_for(
                #[trigger] ls[i],
                room,
                label,
            ) by {
                if i < ls.len() - 1 {
                    assert(ls[i] == ls.drop_last()[i]);
                }
            }
        }
    }
}

proof fn lemma_open_at_stands(ls: Seq<Listener>, n: int, room: Option<Digest32>, label: Seq<char>)
    requires
        0 <= n <= ls.len(),
        open_at(ls.take(n), room, label) is Some,
    ensures
        open_at(ls, room, label) == open_at(ls.take(n), room, label),
    decreases ls.len() - n,
{
    if n < ls.len() {
        assert(ls.take(n + 1).drop_last() =~= ls.take(n));
        lemma_open_at_stands(ls, n + 1, room, label);
    } else {
        assert(ls.take(n) =~= ls);
    }
}

proof fn lemma_still_apart(ls: Seq<Listener>, p: spec_fn(Listener) -> bool, last: u64)
    requires
        apart(ls, last),
    ensures
        apart(lists::pick(ls, p), last),
        forall|i: int|
            0 <= i < lists::pick(ls, p).len() ==> ls.contains(#[trigger] lists::pick(ls, p)[i]),
    decreases ls.len(),
{
    if ls.len() > 0 {
        let front = ls.drop_last();
        assert(apart(front, last)) by {
            assert forall|i: int, j: int| 0 <= i < j < front.len() implies !(
            #[trigger] front[i].room == (#[trigger] front[j]).room && front[i].label@
                == front[j].label@) by {
                assert(front[i] == ls[i] && front[j] == ls[j]);
            }
            assert forall|i: int| 0 <= i < front.len() implies (#[trigger] front[i]).ticket
                <= last by {
                assert(front[i] == ls[i]);
            }
        }
        lemma_still_apart(front, p, last);
        let kept = lists::pick(front, p);
        let all = lists::pick(ls, p);
        assert forall|i: int| 0 <= i < all.len() implies ls.contains(#[trigger] all[i]) by {
            if i < kept.len() {
                assert(all[i] == kept[i]);
                assert(front.contains(kept[i]));
                let k = front.index_of(kept[i]);
                assert(ls[k] == all[i]);
            } else {
                assert(ls[ls.len() - 1] == all[i]);
            }
        }
        assert forall|i: int, j: int| 0 <= i < j < all.len() implies !(#[trigger] all[i].room == (
        #[trigger] all[j]).room && all[i].label@ == all[j].label@) by {
            assert(all[i] == kept[i]);
            assert(front.contains(kept[i]));
            if j < kept.len() {
                assert(all[j] == kept[j]);
            } else {
                let k = front.index_of(kept[i]);
                assert(ls[k] == all[i]);
                assert(ls[ls.len() - 1] == all[j]);
            }
        }
        assert forall|i: int| 0 <= i < all.len() implies (#[trigger] all[i]).ticket <= last by {
            assert(ls.contains(all[i]));
        }
    }
}

impl AppHub {
    fn find(&self, room: &Option<Digest32>, label: &str) -> (r: Option<usize>)
        ensures
            match r {
                Some(i) => i < self.listeners@.len() && open_at(self.listeners@, *room, label@)
                    == Some(i as int),
                None => open_at(self.listeners@, *room, label@) is None,
            },
    {
        let ghost ls = self.listeners@;
        let mut i: usize = 0;
        assert(ls.take(0) =~= Seq::empty());
        while i < self.listeners.len()
            invariant
                i <= ls.len(),
                ls == self.listeners@,
                open_at(ls.take(i as int), *room, label@) is None,
            decreases ls.len() - i,
        {
            proof {
                assert(ls.take(i + 1).drop_last() =~= ls.take(i as int));
                assert(ls.take(i + 1).last() == ls[i as int]);
            }
            if same_room(&self.listeners[i].room, room) && same_text(
                self.listeners[i].label.as_str(),
                label,
            ) {
                proof {
                    lemma_open_at_stands(ls, i + 1, *room, label@);
                }
                return Some(i);
            }
            i = i + 1;
        }
        assert(ls.take(i as int) =~= ls);
        None
    }

    /// Whether a program listens for `label` in a room, or in any room.
    #[must_use]
    pub fn is_listening(&self, room: Option<Digest32>, label: &str) -> (r: bool)
        ensures
            r == (open_at(self.listeners@, room, label@) is Some),
    {
        self.find(&room, label).is_some()
    }

    /// Registers a program that listens for `label`, in a room or in any. The result is
    /// its ticket. A second listener for the same pair is refused while the first lives.
    pub fn listen(&mut self, room: Option<Digest32>, label: &str) -> (r: Result<u64, Error>)
        requires
            old(self).wf(),
            old(self).next_ticket < u64::MAX,
        ensures
            final(self).wf(),
            match r {
                Ok(ticket) => {
                    &&& app::label_ok(label@)
                    &&& open_at(old(self).listeners@, room, label@) is None
                    &&& ticket == old(self).next_ticket + 1
                    &&& final(self).listeners@.len() == old(self).listeners@.len() + 1
                    &&& final(self).listeners@.drop_last() == old(self).listeners@
                    &&& is_for(final(self).listeners@.last(), room, label@)
                    &&& final(self).listeners@.last().ticket == ticket
                    &&& *final(self) == (AppHub {
                        listeners: final(self).listeners,
                        next_ticket: ticket,
                        ..*old(self)
                    })
                },
                Err(e) => {
                    &&& *final(self) == *old(self)
                    &&& if !app::label_ok(label@) {
                        e == Error::StreamRefused("app: a label is 1 to 64 printable ASCII bytes")
                    } else {
                        &&& open_at(old(self).listeners@, room, label@) is Some
                        &&& e == Error::StreamRefused(
                            "app: something here already listens for that label",
                        )
                    }
                },
            },
    {
        if !valid_label(label) {
            return Err(Error::StreamRefused("app: a label is 1 to 64 printable ASCII bytes"));
        }
        if self.find(&room, label).is_some() {
            return Err(Error::StreamRefused("app: something here already listens for that label"));
        }
        let ticket: u64 = self.next_ticket + 1;
        self.next_ticket = ticket;
        self.listeners.push(Listener { room, label: label.to_owned(), ticket });
        proof {
            let before = old(self).listeners@;
            let after = self.listeners@;
            lemma_open_at(before, room, label@);
            assert(after.drop_last() =~= before);
            assert forall|i: int, j: int| 0 <= i < j < after.len() implies !(
            #[trigger] after[i].room == (#[trigger] after[j]).room && after[i].label@
                == after[j].label@) by {
                assert(after[i] == before[i]);
                if j < before.len() {
                    assert(after[j] == before[j]);
                } else {
                    assert(!is_for(before[i], room, label@));
                }
            }
        }
        Ok(ticket)
    }

    /// Takes up that a listener has gone.
    pub fn unlisten(&mut self, ticket: u64)
        requires
            old(self).wf(),
        ensures
            final(self).wf(),
            *final(self) == (AppHub { listeners: final(self).listeners, ..*old(self) }),
            final(self).listeners@ == lists::pick(old(self).listeners@, not_ticket(ticket)),
    {
        let ghost all = self.listeners@;
        let ghost p = not_ticket(ticket);
        let mut kept: Vec<Listener> = Vec::new();
        let n: usize = self.listeners.len();
        let mut i: usize = 0;
        assert(all.skip(0) =~= all);
        assert(all.take(0) =~= Seq::empty());
        while i < n
            invariant
                i <= n == all.len(),
                all == old(self).listeners@,
                p == not_ticket(ticket),
                *self == (AppHub { listeners: self.listeners, ..*old(self) }),
                self.listeners@ == all.skip(i as int),
                kept@ == lists::pick(all.take(i as int), p),
            decreases n - i,
        {
            let l: Listener = self.listeners.remove(0);
            proof {
                assert(l == all[i as int]);
                assert(self.listeners@ =~= all.skip(i + 1));
                assert(all.take(i + 1).drop_last() =~= all.take(i as int));
                assert(all.take(i + 1).last() == l);
            }
            if l.ticket != ticket {
                kept.push(l);
            }
            i = i + 1;
        }
        assert(all.take(all.len() as int) =~= all);
        proof {
            lemma_still_apart(all, p, self.next_ticket);
        }
        self.listeners = kept;
    }

    /// Which of `labels` is served in a room: its place among them, and the ticket of the
    /// listener. A listener bound to the room comes before one that listens in any room.
    pub fn listener_for(&self, room: &Digest32, labels: &Vec<String>) -> (r: Option<(usize, u64)>)
        ensures
            match (r, serving(self.listeners@, *room, scan::texts(labels@), 0)) {
                (Some((k, t)), Some((j, i))) => {
                    &&& k == j
                    &&& k < labels@.len()
                    &&& 0 <= i < self.listeners@.len()
                    &&& t == self.listeners@[i].ticket
                },
                (None, None) => true,
                _ => false,
            },
    {
        let ghost vs = scan::texts(labels@);
        let mut k: usize = 0;
        while k < labels.len()
            invariant
                k <= labels@.len(),
                vs == scan::texts(labels@),
                serving(self.listeners@, *room, vs, 0) == serving(
                    self.listeners@,
                    *room,
                    vs,
                    k as int,
                ),
            decreases labels@.len() - k,
        {
            assert(vs[k as int] == labels@[k as int]@);
            match self.find(&Some(*room), labels[k].as_str()) {
                Some(i) => {
                    return Some((k, self.listeners[i].ticket));
                },
                None => {},
            }
            match self.find(&None, labels[k].as_str()) {
                Some(i) => {
                    return Some((k, self.listeners[i].ticket));
                },
                None => {},
            }
            k = k + 1;
        }
        None
    }
}

/// What is chosen for an opener is something that it offered and that is served here: for
/// its room, or for any.
pub proof fn law_chosen_label_was_offered(
    ls: Seq<Listener>,
    room: Digest32,
    labels: Seq<Seq<char>>,
    k: int,
)
    requires
        0 <= k,
    ensures
        match serving(ls, room, labels, k) {
            Some((j, i)) => {
                &&& k <= j < labels.len()
                &&& 0 <= i < ls.len()
                &&& is_for(ls[i], Some(room), labels[j]) || is_for(ls[i], None, labels[j])
                &&& forall|m: int|
                    k <= m < j ==> open_at(ls, Some(room), #[trigger] labels[m]) is None && open_at(
                        ls,
                        None,
                        labels[m],
                    ) is None
            },
            None => forall|m: int|
                k <= m < labels.len() ==> open_at(ls, Some(room), #[trigger] labels[m]) is None
                    && open_at(ls, None, labels[m]) is None,
        },
    decreases labels.len() - k,
{
    if k < labels.len() {
        lemma_open_at(ls, Some(room), labels[k]);
        lemma_open_at(ls, None, labels[k]);
        law_chosen_label_was_offered(ls, room, labels, k + 1);
    }
}

} // verus!
