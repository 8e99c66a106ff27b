//! What an outgoing and an incoming stream meet: trust, the limits, the listeners, and
//! the program that accepts.

use vstd::prelude::*;

use crate::app::hub::{
    self, bump, AppHub, AppIncoming, AppInfo, AppStats, Inbound, PeerLimit, BURST_NANOS,
    MAX_APP_STREAMS_PER_PEER, TOKEN_NANOS,
};
use crate::app::{self, valid_label, AppAnswer, AppOpen, AppRefusal, FLAG_DATAGRAMS, MAX_LABELS};
use crate::cbor;
use crate::error::Error;
use crate::hash::Digest32;
use crate::link::scan;
use crate::text::same_text;

verus! {

// ---- opening -----------------------------------------------------------------

/// Whether 1 to [`MAX_LABELS`] labels are offered, and each is one.
pub open spec fn offer_ok(labels: Seq<Seq<char>>) -> bool {
    &&& 1 <= labels.len() <= MAX_LABELS
    &&& forall|i: int| 0 <= i < labels.len() ==> app::label_ok(#[trigger] labels[i])
}

fn good_offer(labels: &Vec<String>) -> (r: bool)
    ensures
        r == offer_ok(scan::texts(labels@)),
{
    if labels.len() == 0 || labels.len() > MAX_LABELS {
        return false;
    }
    let mut i: usize = 0;
    while i < labels.len()
        invariant
            i <= labels@.len(),
            forall|j: int| 0 <= j < i ==> app::label_ok(#[trigger] scan::texts(labels@)[j]),
        decreases labels@.len() - i,
    {
        assert(scan::texts(labels@)[i as int] == labels@[i as int]@);
        if !valid_label(labels[i].as_str()) {
            return false;
        }
        i = i + 1;
    }
    true
}

fn offered(labels: &Vec<String>, label: &str) -> (r: bool)
    ensures
        r == scan::texts(labels@).contains(label@),
{
    let mut i: usize = 0;
    while i < labels.len()
        invariant
            i <= labels@.len(),
            forall|j: int| 0 <= j < i ==> (#[trigger] scan::texts(labels@)[j]) != label@,
        decreases labels@.len() - i,
    {
        assert(scan::texts(labels@)[i as int] == labels@[i as int]@);
        if same_text(labels[i].as_str(), label) {
            return true;
        }
        i = i + 1;
    }
    false
}

/// Why this node does not open a stream, or `None` where it does.
pub open spec fn open_refusal(
    reachers: Map<Seq<u8>, Vec<Digest32>>,
    room: Digest32,
    peer: Digest32,
    labels: Seq<Seq<char>>,
) -> Option<Error> {
    if !offer_ok(labels) {
        Some(
            Error::StreamRefused("app: offer 1 to 8 labels of 1 to 64 printable ASCII bytes"),
        )
    } else if !reachers.contains_key(room@) {
        Some(Error::StreamRefused("app: this node does not hold that room"))
    } else if !reachers[room@]@.contains(peer) {
        Some(
            Error::StreamRefused(
                "app: that peer is not in this node's keyring (or not in the room) \u{2014} `vox trust add` it first",
            ),
        )
    } else {
        None
    }
}

/// Why a stream that was opened is not up, given what was read of the answer.
pub open spec fn answer_error(labels: Seq<Seq<char>>, read: Option<Vec<u8>>, a: AppAnswer) -> Option<
    Error,
> {
    match read {
        None => Some(Error::StreamRefused("app: refused by the peer")),
        Some(b) => if app::answer_fault(b@) is Some {
            app::answer_fault(b@)
        } else {
            match a {
                AppAnswer::Accepted(label) => if labels.contains(label@) {
                    None
                } else {
                    Some(Error::StreamRefused("app: the peer chose a label not offered"))
                },
                AppAnswer::Refused(r) => Some(r.failure()),
            }
        },
    }
}

impl AppHub {
    /// Whether a stream to `peer` is opened, and the request that it sends. It is refused
    /// here, before anything is dialled, unless the peer is in the circle of the room.
    pub fn open(
        &mut self,
        channel_id: Digest32,
        peer: Digest32,
        labels: Vec<String>,
        datagrams: bool,
    ) -> (r: Result<AppOpen, Error>)
        requires
            old(self).wf(),
        ensures
            final(self).wf(),
            match r {
                Ok(o) => {
                    &&& open_refusal(
                        old(self).reachers.map(),
                        channel_id,
                        peer,
                        scan::texts(labels@),
                    ) is None
                    &&& *final(self) == *old(self)
                    &&& o.wf()
                    &&& o.channel_id == channel_id
                    &&& o.labels == labels
                    &&& o.flags == (if datagrams {
                        FLAG_DATAGRAMS
                    } else {
                        0
                    })
                },
                Err(e) => {
                    &&& open_refusal(
                        old(self).reachers.map(),
                        channel_id,
                        peer,
                        scan::texts(labels@),
                    ) == Some(e)
                    &&& *final(self) == (AppHub {
                        stats: AppStats {
                            refused_locally: if offer_ok(scan::texts(labels@)) {
                                hub::up(old(self).stats.refused_locally)
                            } else {
                                old(self).stats.refused_locally
                            },
                            ..old(self).stats
                        },
                        ..*old(self)
                    })
                },
            },
    {
        if !good_offer(&labels) {
            return Err(
                Error::StreamRefused("app: offer 1 to 8 labels of 1 to 64 printable ASCII bytes"),
            );
        }
        if !self.reachers.contains_key(&channel_id) {
            self.stats.refused_locally = bump(self.stats.refused_locally);
            return Err(Error::StreamRefused("app: this node does not hold that room"));
        }
        if !self.reaches(&channel_id, &peer) {
            self.stats.refused_locally = bump(self.stats.refused_locally);
            return Err(
                Error::StreamRefused(
                    "app: that peer is not in this node's keyring (or not in the room) \u{2014} `vox trust add` it first",
                ),
            );
        }
        let flags: u64 = if datagrams {
            FLAG_DATAGRAMS
        } else {
            0
        };
        Ok(AppOpen { channel_id, labels, flags })
    }

    /// Takes up the answer to a request: `None` where none came in time or the stream was
    /// reset, which is all that a peer without trust learns.
    pub fn opened(&mut self, asked: AppOpen, peer: Digest32, read: Option<Vec<u8>>) -> (r: Result<
        AppInfo,
        Error,
    >)
        requires
            old(self).wf(),
        ensures
            final(self).wf(),
            match r {
                Ok(info) => {
                    &&& read is Some
                    &&& app::answer_fault(read->Some_0@) is None
                    &&& cbor::toks_of(read->Some_0@) == AppAnswer::Accepted(info.label).toks()
                    &&& scan::texts(asked.labels@).contains(info.label@)
                    &&& info.channel_id == asked.channel_id
                    &&& info.peer == peer
                    &&& info.datagrams == (asked.flags % 2 == 1)
                    &&& *final(self) == (AppHub {
                        stats: AppStats {
                            opened: hub::up(old(self).stats.opened),
                            ..old(self).stats
                        },
                        ..*old(self)
                    })
                },
                Err(e) => {
                    &&& *final(self) == *old(self)
                    &&& exists|a: AppAnswer|
                        (read is Some && app::answer_fault(read->Some_0@) is None ==> #[trigger]
                            a.toks() == cbor::toks_of(read->Some_0@)) && answer_error(
                            scan::texts(asked.labels@),
                            read,
                            a,
                        ) == Some(e)
                },
            },
    {
        let b: Vec<u8> = match &read {
            Some(b) => vstd::slice::slice_to_vec(b.as_slice()),
            None => {
                let ghost a = AppAnswer::Refused(AppRefusal::Busy);
                assert(a.toks() == a.toks());
                return Err(Error::StreamRefused("app: refused by the peer"));
            },
        };
        let answer: AppAnswer = match AppAnswer::from_bytes(b.as_slice()) {
            Ok(a) => a,
            Err(e) => {
                let ghost a = AppAnswer::Refused(AppRefusal::Busy);
                assert(a.toks() == a.toks());
                return Err(e);
            },
        };
        let ghost whole = answer;
        assert(whole.toks() == cbor::toks_of(read->Some_0@));
        match answer {
            AppAnswer::Accepted(label) => {
                if !offered(&asked.labels, label.as_str()) {
                    return Err(Error::StreamRefused("app: the peer chose a label not offered"));
                }
                self.stats.opened = bump(self.stats.opened);
                Ok(
                    AppInfo {
                        channel_id: asked.channel_id,
                        peer,
                        label,
                        datagrams: asked.flags % 2 == 1,
                    },
                )
            },
            AppAnswer::Refused(r) => Err(r.error()),
        }
    }

    // ---- the limits ----------------------------------------------------------

    /// Takes a place for one more stream from `peer`, if it is within its limit at `now`.
    pub fn admit_peer(&mut self, peer: &Digest32, now: u64) -> (r: bool)
        requires
            old(self).wf(),
        ensures
            final(self).wf(),
            *final(self) == (AppHub { peers: final(self).peers, ..*old(self) }),
            ({
                let l = hub::limit_of(old(self).peers.map(), peer@, now);
                &&& r == l.has_room()
                &&& final(self).peers.map() == old(self).peers.map().insert(
                    peer@,
                    if r {
                        l.with_one()
                    } else {
                        l
                    },
                )
            }),
    {
        let mut l: PeerLimit = match self.peers.get(peer) {
            Some(l) => l.refill(now),
            None => PeerLimit { live: 0, credit: BURST_NANOS, at: now },
        };
        let ok: bool = l.live < MAX_APP_STREAMS_PER_PEER && l.credit >= TOKEN_NANOS;
        if ok {
            l.live = l.live + 1;
            l.credit = l.credit - TOKEN_NANOS;
        }
        self.peers.insert(*peer, l);
        ok
    }

    /// Gives a place back, as the end of a stream does.
    pub fn release(&mut self, peer: &Digest32)
        requires
            old(self).wf(),
        ensures
            final(self).wf(),
            *final(self) == (AppHub { peers: final(self).peers, ..*old(self) }),
            final(self).peers.map() == released(old(self).peers.map(), peer@),
    {
        match self.peers.get(peer) {
            Some(l) => {
                let live: usize = if l.live == 0 {
                    0
                } else {
                    l.live - 1
                };
                let less: PeerLimit = PeerLimit { live, credit: l.credit, at: l.at };
                self.peers.insert(*peer, less);
            },
            None => {},
        }
    }

    // ---- serving -------------------------------------------------------------

    fn pend(&mut self) -> (id: u64)
        requires
            old(self).wf(),
            old(self).next_id < u64::MAX,
        ensures
            final(self).wf(),
            id == old(self).next_id + 1,
            final(self).pending@ == old(self).pending@.push(id),
            *final(self) == (AppHub {
                pending: final(self).pending,
                next_id: id,
                ..*old(self)
            }),
    {
        let id: u64 = self.next_id + 1;
        self.next_id = id;
        self.pending.push(id);
        id
    }

    fn forget(&mut self, id: u64) -> (r: bool)
        requires
            old(self).wf(),
        ensures
            final(self).wf(),
            r == old(self).pending@.contains(id),
            !final(self).pending@.contains(id),
            *final(self) == (AppHub { pending: final(self).pending, ..*old(self) }),
            forall|x: u64|
                x != id ==> (final(self).pending@.contains(x) == #[trigger] old(self).pending@.contains(x)),
    {
        let ghost before = self.pending@;
        let mut i: usize = 0;
        while i < self.pending.len()
            invariant
                self.wf(),
                before == self.pending@,
                *self == *old(self),
                i <= self.pending@.len(),
                forall|j: int| 0 <= j < i ==> self.pending@[j] != id,
            decreases self.pending@.len() - i,
        {
            if self.pending[i] == id {
                assert(before.contains(id)) by {
                    assert(before[i as int] == id);
                }
                self.pending.remove(i);
                proof {
                    let after = self.pending@;
                    assert(after =~= before.remove(i as int));
                    assert forall|a: int, b: int|
                        0 <= a < after.len() && 0 <= b < after.len() && a != b implies after[a]
                        != after[b] by {
                        let p = if a < i {
                            a
                        } else {
                            a + 1
                        };
                        let q = if b < i {
                            b
                        } else {
                            b + 1
                        };
                        assert(after[a] == before[p] && after[b] == before[q]);
                    }
                    assert forall|x: u64| x != id implies (after.contains(x)
                        == #[trigger] before.contains(x)) by {
                        if before.contains(x) {
                            let k = before.index_of(x);
                            if k < i {
                                assert(after[k] == x);
                            } else {
                                assert(after[k - 1] == x);
                            }
                        }
                        if after.contains(x) {
                            let k = after.index_of(x);
                            if k < i {
                                assert(before[k] == x);
                            } else {
                                assert(before[k + 1] == x);
                            }
                        }
                    }
                    if after.contains(id) {
                        let k = after.index_of(id);
                        let p = if k < i {
                            k
                        } else {
                            k + 1
                        };
                        assert(before[p] == id);
                    }
                    assert forall|k: int| 0 <= k < after.len() implies #[trigger] after[k]
                        <= self.next_id by {
                        let p = if k < i {
                            k
                        } else {
                            k + 1
                        };
                        assert(after[k] == before[p]);
                    }
                }
                return true;
            }
            i = i + 1;
        }
        false
    }

    /// Accepts an incoming stream that a listener was told of. `alive` says whether the
    /// stream is still there to be handed over.
    pub fn accept(&mut self, id: u64, alive: bool) -> (r: Result<(), Error>)
        requires
            old(self).wf(),
        ensures
            final(self).wf(),
            !final(self).pending@.contains(id),
            *final(self) == (AppHub { pending: final(self).pending, ..*old(self) }),
            forall|x: u64|
                x != id ==> (final(self).pending@.contains(x) == #[trigger] old(self).pending@.contains(x)),
            match r {
                Ok(_) => old(self).pending@.contains(id) && alive,
                Err(e) => if old(self).pending@.contains(id) {
                    !alive && e == Error::StreamRefused("app: that incoming stream is gone")
                } else {
                    e == Error::StreamRefused("app: no such incoming stream is waiting")
                },
            },
    {
        if !self.forget(id) {
            return Err(Error::StreamRefused("app: no such incoming stream is waiting"));
        }
        if !alive {
            return Err(Error::StreamRefused("app: that incoming stream is gone"));
        }
        Ok(())
    }

    /// Takes up an incoming stream. `frame` is what it asked with, or `None` where nothing
    /// came in time; `now` is the time.
    pub fn serve_inbound(&mut self, frame: Option<Vec<u8>>, peer: Digest32, now: u64) -> (r: Inbound)
        requires
            old(self).wf(),
            old(self).next_id < u64::MAX,
        ensures
            final(self).wf(),
            final(self).listeners == old(self).listeners,
            final(self).reachers == old(self).reachers,
            final(self).next_ticket == old(self).next_ticket,
            final(self).next_id == (if r is Announce {
                (old(self).next_id + 1) as u64
            } else {
                old(self).next_id
            }),
            met(*old(self), frame, peer, now) == kind_of(r),
            match r {
                Inbound::Reset => *final(self) == turned_away(*old(self)),
                Inbound::Refuse(AppRefusal::Busy) => {
                    &&& final(self).pending == old(self).pending
                    &&& final(self).peers.map() == old(self).peers.map().insert(
                        peer@,
                        hub::limit_of(old(self).peers.map(), peer@, now),
                    )
                    &&& final(self).stats == (AppStats {
                        inbound: hub::up(old(self).stats.inbound),
                        refused_busy: hub::up(old(self).stats.refused_busy),
                        ..old(self).stats
                    })
                },
                Inbound::Refuse(_) => {
                    &&& final(self).pending == old(self).pending
                    &&& final(self).peers.map() == old(self).peers.map().insert(
                        peer@,
                        hub::limit_of(old(self).peers.map(), peer@, now).with_one().less_one(),
                    )
                    &&& final(self).stats == (AppStats {
                        inbound: hub::up(old(self).stats.inbound),
                        refused_no_listener: hub::up(old(self).stats.refused_no_listener),
                        ..old(self).stats
                    })
                },
                Inbound::Announce { incoming, ticket, datagrams } => {
                    let b = frame->Some_0@;
                    let chosen = hub::serving(
                        old(self).listeners@,
                        incoming.channel_id,
                        hub::asked_labels(b),
                        0,
                    );
                    &&& incoming.id == old(self).next_id + 1
                    &&& incoming.channel_id@ == hub::asked_room(b)
                    &&& incoming.peer == peer
                    &&& chosen is Some
                    &&& incoming.label@ == hub::asked_labels(b)[chosen->Some_0.0]
                    &&& ticket == old(self).listeners@[chosen->Some_0.1].ticket
                    &&& datagrams == (cbor::toks_of(b).last()->Uint_0 % 2 == 1)
                    &&& final(self).pending@ == old(self).pending@.push(incoming.id)
                    &&& final(self).peers.map() == old(self).peers.map().insert(
                        peer@,
                        hub::limit_of(old(self).peers.map(), peer@, now).with_one(),
                    )
                    &&& final(self).stats == (AppStats {
                        inbound: hub::up(old(self).stats.inbound),
                        ..old(self).stats
                    })
                },
            },
    {
        self.stats.inbound = bump(self.stats.inbound);
        let ghost begun = *self;
        let open: Option<AppOpen> = match &frame {
            Some(b) => match AppOpen::from_bytes(b.as_slice()) {
                Ok(o) => Some(o),
                Err(_) => None,
            },
            None => None,
        };
        let o: AppOpen = match open {
            Some(o) => o,
            None => {
                self.stats.refused_untrusted = bump(self.stats.refused_untrusted);
                return Inbound::Reset;
            },
        };
        proof {
            hub::lemma_asked(o, frame->Some_0@);
        }
        if !self.reaches(&o.channel_id, &peer) {
            self.stats.refused_untrusted = bump(self.stats.refused_untrusted);
            return Inbound::Reset;
        }
        let ghost room = room_of(frame->Some_0@);
        proof {
            lemma_room_of(frame->Some_0@, o.channel_id);
        }
        if !self.admit_peer(&peer, now) {
            self.stats.refused_busy = bump(self.stats.refused_busy);
            return Inbound::Refuse(AppRefusal::Busy);
        }
        match self.listener_for(&o.channel_id, &o.labels) {
            Some((k, ticket)) => {
                let id: u64 = self.pend();
                assert(o.toks().last() == cbor::Tok::Uint(o.flags));
                Inbound::Announce {
                    incoming: AppIncoming {
                        id,
                        channel_id: o.channel_id,
                        peer,
                        label: o.labels[k].clone(),
                    },
                    ticket,
                    datagrams: o.flags % 2 == 1,
                }
            },
            None => {
                self.release(&peer);
                self.stats.refused_no_listener = bump(self.stats.refused_no_listener);
                proof {
                    let m = old(self).peers.map();
                    let l = hub::limit_of(m, peer@, now).with_one();
                    assert(m.insert(peer@, l).insert(peer@, l.less_one()) =~= m.insert(
                        peer@,
                        l.less_one(),
                    ));
                }
                Inbound::Refuse(AppRefusal::NoListener)
            },
        }
    }

    /// Takes up whether the listener could be told of an incoming stream. One that could
    /// not be told is as good as none.
    pub fn announced(&mut self, incoming: &AppIncoming, told: bool) -> (r: Option<AppRefusal>)
        requires
            old(self).wf(),
        ensures
            final(self).wf(),
            final(self).listeners == old(self).listeners,
            final(self).reachers == old(self).reachers,
            if told {
                &&& r is None
                &&& *final(self) == (AppHub {
                    stats: AppStats {
                        announced: hub::up(old(self).stats.announced),
                        ..old(self).stats
                    },
                    ..*old(self)
                })
            } else {
                &&& r == Some(AppRefusal::NoListener)
                &&& !final(self).pending@.contains(incoming.id)
                &&& forall|x: u64|
                    x != incoming.id
                        ==> (final(self).pending@.contains(x) == #[trigger] old(self).pending@.contains(x))
                &&& final(self).next_id == old(self).next_id
                &&& final(self).next_ticket == old(self).next_ticket
                &&& final(self).peers.map() == released(old(self).peers.map(), incoming.peer@)
                &&& final(self).stats == (AppStats {
                    refused_no_listener: hub::up(old(self).stats.refused_no_listener),
                    ..old(self).stats
                })
            },
    {
        if told {
            self.stats.announced = bump(self.stats.announced);
            return None;
        }
        self.forget(incoming.id);
        self.release(&incoming.peer);
        self.stats.refused_no_listener = bump(self.stats.refused_no_listener);
        Some(AppRefusal::NoListener)
    }

    /// Takes up that no program accepted an incoming stream in time.
    pub fn unaccepted(&mut self, incoming: &AppIncoming) -> (r: AppRefusal)
        requires
            old(self).wf(),
        ensures
            final(self).wf(),
            final(self).listeners == old(self).listeners,
            final(self).reachers == old(self).reachers,
            r == AppRefusal::Refused,
            !final(self).pending@.contains(incoming.id),
            forall|x: u64|
                x != incoming.id
                    ==> (final(self).pending@.contains(x) == #[trigger] old(self).pending@.contains(x)),
            final(self).next_id == old(self).next_id,
            final(self).next_ticket == old(self).next_ticket,
            final(self).peers.map() == released(old(self).peers.map(), incoming.peer@),
            final(self).stats == (AppStats {
                refused_unaccepted: hub::up(old(self).stats.refused_unaccepted),
                ..old(self).stats
            }),
    {
        self.forget(incoming.id);
        self.release(&incoming.peer);
        self.stats.refused_unaccepted = bump(self.stats.refused_unaccepted);
        AppRefusal::Refused
    }

    /// Takes up an incoming stream that a program accepted. `bound` says whether the
    /// datagram flow is bound, where one is asked for, and `written` whether the answer
    /// went out. The result is the stream, or the refusal that is still to be answered, if
    /// there is one; a stream that is not up gives its place back.
    pub fn accepted(
        &mut self,
        incoming: AppIncoming,
        datagrams: bool,
        bound: bool,
        written: bool,
    ) -> (r: Result<AppInfo, Option<AppRefusal>>)
        requires
            old(self).wf(),
        ensures
            final(self).wf(),
            match r {
                Ok(info) => {
                    &&& (datagrams ==> bound) && written
                    &&& info.channel_id == incoming.channel_id
                    &&& info.peer == incoming.peer
                    &&& info.label == incoming.label
                    &&& info.datagrams == datagrams
                    &&& *final(self) == (AppHub {
                        stats: AppStats {
                            accepted: hub::up(old(self).stats.accepted),
                            ..old(self).stats
                        },
                        ..*old(self)
                    })
                },
                Err(refusal) => {
                    &&& refusal == (if datagrams && !bound {
                        Some(AppRefusal::Refused)
                    } else {
                        None
                    })
                    &&& datagrams && !bound || !written
                    &&& *final(self) == (AppHub { peers: final(self).peers, ..*old(self) })
                    &&& final(self).peers.map() == released(
                        old(self).peers.map(),
                        incoming.peer@,
                    )
                },
            },
    {
        if datagrams && !bound {
            self.release(&incoming.peer);
            return Err(Some(AppRefusal::Refused));
        }
        if !written {
            self.release(&incoming.peer);
            return Err(None);
        }
        self.stats.accepted = bump(self.stats.accepted);
        Ok(
            AppInfo {
                channel_id: incoming.channel_id,
                peer: incoming.peer,
                label: incoming.label,
                datagrams,
            },
        )
    }
}

/// The limits with one stream of a peer's less.
pub open spec fn released(peers: Map<Seq<u8>, PeerLimit>, peer: Seq<u8>) -> Map<Seq<u8>, PeerLimit> {
    if peers.contains_key(peer) {
        peers.insert(peer, peers[peer].less_one())
    } else {
        peers
    }
}

/// The hub once it turned an untrusted request away: counted, and nothing else.
pub open spec fn turned_away(h: AppHub) -> AppHub {
    AppHub {
        stats: AppStats {
            inbound: hub::up(h.stats.inbound),
            refused_untrusted: hub::up(h.stats.refused_untrusted),
            ..h.stats
        },
        ..h
    }
}

/// What an incoming request can meet.
pub enum Met {
    /// A bare reset.
    Reset,
    /// A refusal.
    Refuse(AppRefusal),
    /// An announcement.
    Announce,
}

/// What an incoming request met.
pub open spec fn kind_of(r: Inbound) -> Met {
    match r {
        Inbound::Reset => Met::Reset,
        Inbound::Refuse(x) => Met::Refuse(x),
        Inbound::Announce { .. } => Met::Announce,
    }
}

/// The room that a request names, as a fingerprint.
pub open spec fn room_of(b: Seq<u8>) -> Digest32 {
    choose|d: Digest32| d@ == hub::asked_room(b)
}

proof fn lemma_room_of(b: Seq<u8>, d: Digest32)
    requires
        d@ == hub::asked_room(b),
    ensures
        room_of(b) == d,
{
    crate::hash::lemma_digest_ext(room_of(b), d);
}

/// What an incoming request meets: without trust a bare reset, whatever else holds; with
/// it, the limit first and the listeners second.
pub open spec fn met(h: AppHub, frame: Option<Vec<u8>>, peer: Digest32, now: u64) -> Met {
    if !hub::trusted(h.reachers.map(), frame, peer) {
        Met::Reset
    } else if !hub::limit_of(h.peers.map(), peer@, now).has_room() {
        Met::Refuse(AppRefusal::Busy)
    } else if hub::serving(
        h.listeners@,
        room_of(frame->Some_0@),
        hub::asked_labels(frame->Some_0@),
        0,
    ) is None {
        Met::Refuse(AppRefusal::NoListener)
    } else {
        Met::Announce
    }
}

/// A peer without trust learns nothing: whatever it sends, whoever listens, whatever the
/// limits say and whichever rooms are held, it gets the same bare reset.
pub proof fn law_untrusted_learn_nothing(
    a: AppHub,
    b: AppHub,
    frame: Option<Vec<u8>>,
    other: Option<Vec<u8>>,
    peer: Digest32,
    now: u64,
    later: u64,
)
    requires
        !hub::trusted(a.reachers.map(), frame, peer),
        !hub::trusted(b.reachers.map(), other, peer),
    ensures
        met(a, frame, peer, now) == met(b, other, peer, later),
        met(a, frame, peer, now) == Met::Reset,
{
}

/// Nothing that came in time, something that is no request, a room that is not held, and a
/// peer outside the room's circle are one and the same: the bare reset. It takes no place
/// of the peer's, announces nothing, and is counted as one more untrusted request.
pub proof fn law_untrusted_take_no_place(
    h: AppHub,
    frame: Option<Vec<u8>>,
    peer: Digest32,
    now: u64,
)
    requires
        frame is None || app::open_fault(frame->Some_0@) is Some || !h.reachers.map().contains_key(
            hub::asked_room(frame->Some_0@),
        ) || !h.reachers.map()[hub::asked_room(frame->Some_0@)]@.contains(peer),
    ensures
        met(h, frame, peer, now) == Met::Reset,
        turned_away(h).peers == h.peers,
        turned_away(h).pending == h.pending,
        turned_away(h).next_id == h.next_id,
        h.stats.refused_untrusted < u64::MAX ==> turned_away(h).stats.refused_untrusted
            == h.stats.refused_untrusted + 1,
{
}

/// Trust runs both ways: a peer that is in no room's circle is neither served nor opened
/// to.
pub proof fn law_trust_runs_both_ways(
    h: AppHub,
    frame: Option<Vec<u8>>,
    room: Digest32,
    labels: Seq<Seq<char>>,
    peer: Digest32,
    now: u64,
)
    requires
        forall|k: Seq<u8>| !hub::in_circle(h.reachers.map(), k, peer),
    ensures
        met(h, frame, peer, now) == Met::Reset,
        open_refusal(h.reachers.map(), room, peer, labels) is Some,
{
    assert(!hub::in_circle(h.reachers.map(), room@, peer));
    if frame is Some {
        assert(!hub::in_circle(h.reachers.map(), hub::asked_room(frame->Some_0@), peer));
    }
}

} // verus!
