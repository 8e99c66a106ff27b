//! What the node decides about its peers: whom it syncs with, who may reach its
//! services, whose joins and sessions it takes, and to whom it releases its key.

use vstd::prelude::*;

use crate::actor::node::{Effect, NodeCore, PairSlot};
use crate::actor::{self, fault_of};
use crate::api::{Fault, NodeEvent, Outcome};
use crate::channel::ops;
use crate::error::Error;
use crate::hash::{self, same_digest, Digest32};
use crate::joinstream::exchange::{InitNames, OneTimeUse};
use crate::lists::{self, has_digest};
use crate::table::{self, Key, Table};

verus! {

// ---- sync ------------------------------------------------------------------------

/// Why a sync is due.
#[derive(Debug, Clone, Copy, PartialEq, Eq, Structural)]
pub enum SyncTrigger {
    /// The peer has just connected.
    Connected,
    /// Something was appended here.
    LocalAppend,
    /// The interval is over.
    Interval,
}

/// What a session runs against.
#[derive(Debug, Clone, Copy, PartialEq, Eq, Structural)]
pub enum SessionTarget {
    /// A member's channel.
    Channel,
    /// An anchor's copy.
    Anchored,
}

/// Which open channels a pass with a peer covers: those shared with it, or all where it
/// is an anchor; after a local append only those that changed.
pub open spec fn covers(
    n: NodeCore,
    peer: Digest32,
    trigger: SyncTrigger,
    authored: Seq<Digest32>,
) -> spec_fn(Digest32) -> bool {
    |c: Digest32|
        {
            &&& trigger == SyncTrigger::LocalAppend ==> n.pending_push.has(c@)
            &&& n.anchor_ids.has(peer@) || authored.contains(c)
        }
}

/// Which anchored channels it covers: those with the peer among their authors, unless
/// it is for a local append.
pub open spec fn covers_anchored(trigger: SyncTrigger, authored: Seq<Digest32>) -> spec_fn(
    Digest32,
) -> bool {
    |c: Digest32| trigger != SyncTrigger::LocalAppend && authored.contains(c)
}

impl NodeCore {
    /// The channels that a pass with a peer covers. `authored` are the open channels
    /// that the peer is an author of, `kept` the anchored ones.
    pub fn channels_due(
        &self,
        peer: &Digest32,
        trigger: SyncTrigger,
        authored: &Vec<Digest32>,
        kept: &Vec<Digest32>,
    ) -> (out: Vec<Digest32>)
        requires
            self.wf(),
        ensures
            out@ == lists::pick(
                ops::ids_of(self.channels.rows()),
                covers(*self, *peer, trigger, authored@),
            ) + lists::pick(
                ops::ids_of(self.anchored.rows()),
                covers_anchored(trigger, kept@),
            ),
    {
        let is_anchor: bool = self.anchor_ids.contains_key(peer);
        let append: bool = trigger == SyncTrigger::LocalAppend;
        let mut out: Vec<Digest32> = Vec::new();
        let ghost p = covers(*self, *peer, trigger, authored@);
        let ghost ids = ops::ids_of(self.channels.rows());
        let mut i: usize = 0;
        assert(ids.take(0) =~= Seq::empty());
        while i < self.channels.len()
            invariant
                i <= ids.len(),
                self.wf(),
                ids == ops::ids_of(self.channels.rows()),
                p == covers(*self, *peer, trigger, authored@),
                is_anchor == self.anchor_ids.has(peer@),
                append == (trigger == SyncTrigger::LocalAppend),
                out@ == lists::pick(ids.take(i as int), p),
            decreases ids.len() - i,
        {
            let c: Digest32 = self.channels.row(i).0;
            proof {
                assert(ids.take(i + 1).drop_last() =~= ids.take(i as int));
                assert(ids.take(i + 1).last() == c);
            }
            if (!append || self.pending_push.contains_key(&c)) && (is_anchor || has_digest(
                authored,
                &c,
            )) {
                out.push(c);
            }
            i = i + 1;
        }
        assert(ids.take(i as int) =~= ids);
        let ghost front = out@;
        let ghost q = covers_anchored(trigger, kept@);
        let ghost ks = ops::ids_of(self.anchored.rows());
        let mut j: usize = 0;
        assert(ks.take(0) =~= Seq::empty());
        assert(out@ =~= front + lists::pick(ks.take(0), q));
        while j < self.anchored.len()
            invariant
                j <= ks.len(),
                ks == ops::ids_of(self.anchored.rows()),
                q == covers_anchored(trigger, kept@),
                append == (trigger == SyncTrigger::LocalAppend),
                out@ == front + lists::pick(ks.take(j as int), q),
            decreases ks.len() - j,
        {
            let c: Digest32 = self.anchored.row(j).0;
            proof {
                assert(ks.take(j + 1).drop_last() =~= ks.take(j as int));
                assert(ks.take(j + 1).last() == c);
            }
            if !append && has_digest(kept, &c) {
                out.push(c);
            }
            assert(out@ =~= front + lists::pick(ks.take(j + 1), q));
            j = j + 1;
        }
        assert(ks.take(j as int) =~= ks);
        out
    }

    /// Notes that every due pass was run.
    pub fn syncs_done(&mut self)
        requires
            old(self).wf(),
        ensures
            final(self).wf(),
            *final(self) == (NodeCore { pending_push: final(self).pending_push, ..*old(self) }),
            final(self).pending_push.map() == Map::<Seq<u8>, bool>::empty(),
    {
        self.pending_push = Table::new();
    }

    /// What a session for a channel at an epoch runs against, if anything.
    pub fn session_target(&self, id: &Digest32, epoch: u64) -> (r: Option<SessionTarget>)
        requires
            self.wf(),
        ensures
            r == (if self.channels.has(id@) {
                if self.channels.map()[id@] == epoch {
                    Some(SessionTarget::Channel)
                } else {
                    None
                }
            } else if self.anchored.has(id@) && self.anchored.map()[id@] == epoch {
                Some(SessionTarget::Anchored)
            } else {
                None
            }),
    {
        match self.channels.get(id) {
            Some(e) => {
                if *e == epoch {
                    return Some(SessionTarget::Channel);
                }
                return None;
            },
            None => {},
        }
        match self.anchored.get(id) {
            Some(e) => if *e == epoch {
                Some(SessionTarget::Anchored)
            } else {
                None
            },
            None => None,
        }
    }

    /// The members to reconcile a channel with now: all but this identity.
    pub fn sync_channel(&self, id: &Digest32, members: &Vec<Digest32>, me: &Digest32) -> (r: Result<
        Vec<Digest32>,
        Fault,
    >)
        requires
            self.wf(),
        ensures
            match r {
                Ok(peers) => self.networked && self.channels.has(id@) && peers@ == lists::pick(
                    members@,
                    |m: Digest32| m != *me,
                ),
                Err(f) => if !self.networked {
                    f == Fault::NotNetworked
                } else {
                    !self.channels.has(id@) && f == Fault::UnknownChannel
                },
            },
    {
        if !self.networked {
            return Err(Fault::NotNetworked);
        }
        if !self.channels.contains_key(id) {
            return Err(Fault::UnknownChannel);
        }
        let ghost p = |m: Digest32| m != *me;
        let mut out: Vec<Digest32> = Vec::new();
        let mut i: usize = 0;
        assert(members@.take(0) =~= Seq::empty());
        while i < members.len()
            invariant
                i <= members@.len(),
                p == (|m: Digest32| m != *me),
                out@ == lists::pick(members@.take(i as int), p),
            decreases members@.len() - i,
        {
            let m: Digest32 = members[i];
            proof {
                assert(members@.take(i + 1).drop_last() =~= members@.take(i as int));
                assert(members@.take(i + 1).last() == m);
            }
            if !same_digest(&m, me) {
                out.push(m);
            }
            i = i + 1;
        }
        assert(members@.take(i as int) =~= members@);
        Ok(out)
    }
}

/// What a `Sync` command answers: it is done where at least one session was started.
pub fn synced_with(started: usize) -> (outcome: Outcome)
    ensures
        outcome == (if started == 0 {
            Outcome::Failed(Fault::Unreachable)
        } else {
            Outcome::Done
        }),
{
    if started == 0 {
        Outcome::Failed(Fault::Unreachable)
    } else {
        Outcome::Done
    }
}

// ---- anchored logs ---------------------------------------------------------------

impl NodeCore {
    /// Whether the node should begin to keep a channel's log: it keeps logs, is no member
    /// of the channel and does not keep it yet.
    pub open spec fn wants(&self, id: Digest32) -> bool {
        self.anchor_logs && !self.channels.has(id@) && !self.anchored.has(id@)
    }

    /// Begins to keep a channel's log, once its copy was made or opened. The result says
    /// whether it did.
    pub fn adopt_anchored(&mut self, id: Digest32, opened: Result<u64, Error>) -> (r: bool)
        requires
            old(self).wf(),
        ensures
            final(self).wf(),
            r == (old(self).wants(id) && old(self).networked && opened is Ok),
            *final(self) == (NodeCore { anchored: final(self).anchored, ..*old(self) }),
            final(self).anchored.map() == (if r {
                old(self).anchored.map().insert(id@, opened->Ok_0)
            } else {
                old(self).anchored.map()
            }),
    {
        if !self.anchor_logs || self.channels.contains_key(&id) || self.anchored.contains_key(&id)
            || !self.networked {
            return false;
        }
        match opened {
            Ok(epoch) => {
                self.anchored.insert(id, epoch);
                true
            },
            Err(_) => false,
        }
    }

    /// The channels on the board whose logs the node should begin to keep.
    pub fn adopt_anchored_from_board(&self, board: &Vec<Digest32>) -> (out: Vec<Digest32>)
        requires
            self.wf(),
        ensures
            out@ == (if self.networked {
                lists::pick(board@, |c: Digest32| self.wants(c))
            } else {
                Seq::empty()
            }),
    {
        let mut out: Vec<Digest32> = Vec::new();
        if !self.networked {
            return out;
        }
        let ghost p = |c: Digest32| self.wants(c);
        let mut i: usize = 0;
        assert(board@.take(0) =~= Seq::empty());
        while i < board.len()
            invariant
                i <= board@.len(),
                self.wf(),
                p == (|c: Digest32| self.wants(c)),
                out@ == lists::pick(board@.take(i as int), p),
            decreases board@.len() - i,
        {
            let c: Digest32 = board[i];
            proof {
                assert(board@.take(i + 1).drop_last() =~= board@.take(i as int));
                assert(board@.take(i + 1).last() == c);
            }
            if self.anchor_logs && !self.channels.contains_key(&c) && !self.anchored.contains_key(
                &c,
            ) {
                out.push(c);
            }
            i = i + 1;
        }
        assert(board@.take(i as int) =~= board@);
        out
    }
}

// ---- reach -----------------------------------------------------------------------

/// Who may reach a channel's services: whoever is in the keyring and an author of the
/// channel. Neither alone is enough.
pub open spec fn reachers_of(n: NodeCore, authors: Seq<Digest32>) -> Seq<Digest32> {
    lists::pick(ops::ids_of(n.trusted.rows()), |t: Digest32| authors.contains(t))
}

impl NodeCore {
    fn reachers_for(&self, authors: &Vec<Digest32>) -> (out: Vec<Digest32>)
        ensures
            out@ == reachers_of(*self, authors@),
    {
        let ghost p = |t: Digest32| authors@.contains(t);
        let ghost ids = ops::ids_of(self.trusted.rows());
        let mut out: Vec<Digest32> = Vec::new();
        let mut i: usize = 0;
        assert(ids.take(0) =~= Seq::empty());
        while i < self.trusted.len()
            invariant
                i <= ids.len(),
                ids == ops::ids_of(self.trusted.rows()),
                p == (|t: Digest32| authors@.contains(t)),
                out@ == lists::pick(ids.take(i as int), p),
            decreases ids.len() - i,
        {
            let t: Digest32 = self.trusted.row(i).0;
            proof {
                assert(ids.take(i + 1).drop_last() =~= ids.take(i as int));
                assert(ids.take(i + 1).last() == t);
            }
            if has_digest(authors, &t) {
                out.push(t);
            }
            i = i + 1;
        }
        assert(ids.take(i as int) =~= ids);
        out
    }

    /// Recomputes who may reach the services of each open channel. `authors` lists the
    /// authors of each, in channel order. A locked node did not withdraw its trust, so
    /// nothing changes while it is locked. The result are the channels that are no longer
    /// held: whoever still reads their sets must find them empty.
    pub fn refresh_reachers(&mut self, authors: &Vec<Vec<Digest32>>) -> (gone: Vec<Digest32>)
        requires
            old(self).wf(),
            authors@.len() == old(self).channels.rows().len(),
        ensures
            final(self).wf(),
            *final(self) == (NodeCore { reachers: final(self).reachers, ..*old(self) }),
            !old(self).unlocked ==> final(self).reachers == old(self).reachers && gone@.len() == 0,
            old(self).unlocked ==> {
                &&& final(self).reachers.map().dom() == old(self).channels.map().dom()
                &&& forall|i: int|
                    0 <= i < authors@.len() ==> final(self).reachers.map().contains_key(
                        (#[trigger] old(self).channels.rows()[i]).0@,
                    ) && final(self).reachers.map()[old(self).channels.rows()[i].0@]@
                        == reachers_of(*old(self), authors@[i]@)
                &&& gone@ == lists::pick(
                    ops::ids_of(old(self).reachers.rows()),
                    |c: Digest32| !old(self).channels.has(c@),
                )
            },
    {
        let mut gone: Vec<Digest32> = Vec::new();
        if !self.unlocked {
            return gone;
        }
        let ghost p = |c: Digest32| !self.channels.has(c@);
        let ghost held = ops::ids_of(self.reachers.rows());
        let mut k: usize = 0;
        assert(held.take(0) =~= Seq::empty());
        while k < self.reachers.len()
            invariant
                k <= held.len(),
                self.wf(),
                held == ops::ids_of(self.reachers.rows()),
                p == (|c: Digest32| !self.channels.has(c@)),
                gone@ == lists::pick(held.take(k as int), p),
            decreases held.len() - k,
        {
            let c: Digest32 = self.reachers.row(k).0;
            proof {
                assert(held.take(k + 1).drop_last() =~= held.take(k as int));
                assert(held.take(k + 1).last() == c);
            }
            if !self.channels.contains_key(&c) {
                gone.push(c);
            }
            k = k + 1;
        }
        assert(held.take(k as int) =~= held);
        let mut next: Table<Digest32, Vec<Digest32>> = Table::new();
        let ghost rows = self.channels.rows();
        let mut i: usize = 0;
        assert(rows.take(0) =~= Seq::empty());
        while i < self.channels.len()
            invariant
                i <= rows.len(),
                rows == self.channels.rows(),
                table::ascending(rows),
                authors@.len() == rows.len(),
                next.wf(),
                next.map().dom() =~= table::map_of(rows.take(i as int)).dom(),
                forall|j: int|
                    0 <= j < i ==> next.map().contains_key((#[trigger] rows[j]).0@)
                        && next.map()[rows[j].0@]@ == reachers_of(*self, authors@[j]@),
            decreases rows.len() - i,
        {
            let c: Digest32 = self.channels.row(i).0;
            let set: Vec<Digest32> = self.reachers_for(&authors[i]);
            let ghost before = next.map();
            proof {
                assert(rows.take(i + 1).drop_last() =~= rows.take(i as int));
                assert(rows.take(i + 1).last() == rows[i as int]);
                assert(rows[i as int].0.key_bytes() == c@);
            }
            next.insert(c, set);
            proof {
                assert forall|j: int| 0 <= j < i implies next.map().contains_key(
                    (#[trigger] rows[j]).0@,
                ) && next.map()[rows[j].0@]@ == reachers_of(*self, authors@[j]@) by {
                    assert(hash::bytes_before(rows[j].0.key_bytes(), rows[i as int].0.key_bytes()));
                    hash::lemma_bytes_order(c@, c@, c@);
                    assert(rows[j].0@ != c@);
                    assert(before.contains_key(rows[j].0@));
                }
            }
            i = i + 1;
        }
        assert(rows.take(i as int) =~= rows);
        self.reachers = next;
        gone
    }

    /// The channels whose services are served: open, with a service, and with a set of
    /// who may reach it.
    pub fn host_snapshot(&self, serving: &Vec<Digest32>) -> (out: Vec<Digest32>)
        requires
            self.wf(),
        ensures
            out@ == lists::pick(
                ops::ids_of(self.channels.rows()),
                |c: Digest32| serving@.contains(c) && self.reachers.has(c@),
            ),
    {
        let ghost p = |c: Digest32| serving@.contains(c) && self.reachers.has(c@);
        let ghost ids = ops::ids_of(self.channels.rows());
        let mut out: Vec<Digest32> = Vec::new();
        let mut i: usize = 0;
        assert(ids.take(0) =~= Seq::empty());
        while i < self.channels.len()
            invariant
                i <= ids.len(),
                self.wf(),
                ids == ops::ids_of(self.channels.rows()),
                p == (|c: Digest32| serving@.contains(c) && self.reachers.has(c@)),
                out@ == lists::pick(ids.take(i as int), p),
            decreases ids.len() - i,
        {
            let c: Digest32 = self.channels.row(i).0;
            proof {
                assert(ids.take(i + 1).drop_last() =~= ids.take(i as int));
                assert(ids.take(i + 1).last() == c);
            }
            if has_digest(serving, &c) && self.reachers.contains_key(&c) {
                out.push(c);
            }
            i = i + 1;
        }
        assert(ids.take(i as int) =~= ids);
        out
    }
}

/// Whoever may reach a channel's services is trusted and an author of it, and whoever is
/// both may.
pub proof fn law_reach_needs_trust_and_membership(n: NodeCore, authors: Seq<Digest32>, who: Digest32)
    ensures
        reachers_of(n, authors).contains(who) <==> ops::ids_of(n.trusted.rows()).contains(who)
            && authors.contains(who),
{
    lists::lemma_pick_contains(
        ops::ids_of(n.trusted.rows()),
        |t: Digest32| authors.contains(t),
        who,
    );
}

// ---- joins and sessions ------------------------------------------------------------

impl NodeCore {
    /// Whether a join for a channel and an epoch is answered. `holds_passphrase` says
    /// whether the channel still holds its passphrase.
    pub fn answers_join(&self, id: &Digest32, epoch: u64, holds_passphrase: bool) -> (r: bool)
        requires
            self.wf(),
        ensures
            r == (self.channels.has(id@) && holds_passphrase && self.channels.map()[id@] == epoch
                && self.networked && self.prekeys),
    {
        match self.channels.get(id) {
            Some(e) => holds_passphrase && *e == epoch && self.networked && self.prekeys,
            None => false,
        }
    }

    /// Takes up a completed join: the session is kept, and the clients told. Where the
    /// joiner was admitted as an author, its records reach the anchors through this node,
    /// which witnessed the join. A node that networks expects it no longer. It is granted
    /// no read access.
    pub fn answer_inbound_join(&mut self, id: Digest32, peer: Digest32, admitted: bool) -> (effects: Vec<
        Effect,
    >)
        requires
            old(self).wf(),
            old(self).unlocked,
        ensures
            final(self).wf(),
            *final(self) == (NodeCore { sessions: final(self).sessions, ..*old(self) }),
            final(self).sessions.map() == old(self).sessions.map().insert(
                PairSlot { channel_id: id, peer }.key_bytes(),
                true,
            ),
            effects@ == (if admitted {
                seq![Effect::RefreshView, Effect::PublishToAnchors(id)]
            } else {
                Seq::empty()
            }) + (if old(self).networked {
                seq![Effect::ForgetJoiner(peer)]
            } else {
                Seq::empty()
            }) + seq![Effect::Emit(NodeEvent::PeerJoined { channel_id: id, peer })],
    {
        let mut effects: Vec<Effect> = Vec::new();
        if admitted {
            effects.push(Effect::RefreshView);
            effects.push(Effect::PublishToAnchors(id));
        }
        self.sessions.insert(PairSlot { channel_id: id, peer }, true);
        if self.networked {
            effects.push(Effect::ForgetJoiner(peer));
        }
        effects.push(Effect::Emit(NodeEvent::PeerJoined { channel_id: id, peer }));
        assert(effects@ =~= (if admitted {
            seq![Effect::RefreshView, Effect::PublishToAnchors(id)]
        } else {
            Seq::empty()
        }) + (if self.networked {
            seq![Effect::ForgetJoiner(peer)]
        } else {
            Seq::empty()
        }) + seq![Effect::Emit(NodeEvent::PeerJoined { channel_id: id, peer })]);
        effects
    }

    /// Whether there is a session with a peer in a channel.
    pub open spec fn has_session(&self, id: Digest32, peer: Digest32) -> bool {
        self.sessions.has(PairSlot { channel_id: id, peer }.key_bytes())
    }

    /// Accepts the first message of a session that a peer opened from this node's bundle
    /// record. A session that exists is never replaced: a peer cannot reset a ratchet.
    /// The result says whether there is a session now.
    ///
    /// `init` is what the message names, `is_author` whether the channel has admitted the
    /// peer, `used` what became of the one-time prekey, `saved` whether its use was
    /// written, `signed` whether the signed prekey is known, `begun` whether the session
    /// could be begun.
    pub fn accept_hello(
        &mut self,
        id: Digest32,
        peer: Digest32,
        init: Option<InitNames>,
        is_author: bool,
        used: OneTimeUse,
        saved: bool,
        signed: bool,
        begun: bool,
    ) -> (r: bool)
        requires
            old(self).wf(),
        ensures
            final(self).wf(),
            r == (old(self).has_session(id, peer) || hello_holds(
                *old(self),
                id,
                init,
                is_author,
                used,
                saved,
                signed,
                begun,
            )),
            *final(self) == (NodeCore { sessions: final(self).sessions, ..*old(self) }),
            final(self).sessions.map() == (if r && !old(self).has_session(id, peer) {
                old(self).sessions.map().insert(
                    PairSlot { channel_id: id, peer }.key_bytes(),
                    true,
                )
            } else {
                old(self).sessions.map()
            }),
    {
        let slot: PairSlot = PairSlot { channel_id: id, peer };
        if self.sessions.contains_key(&slot) {
            return true;
        }
        let names: InitNames = match init {
            Some(n) => n,
            None => {
                return false;
            },
        };
        if !self.channels.contains_key(&id) || !is_author || !self.unlocked || !self.prekeys {
            return false;
        }
        if names.one_time_prekey_id.is_some() {
            match used {
                OneTimeUse::Unknown => {
                    return false;
                },
                _ => {},
            }
            if !saved {
                return false;
            }
        }
        if !signed || !begun {
            return false;
        }
        self.sessions.insert(slot, true);
        true
    }

    /// Notes a session that this node opened with a member. The result says whether it
    /// is new, so that the peer must be sent its first message.
    pub fn ensure_session(&mut self, id: Digest32, peer: Digest32, begun: bool) -> (fresh: bool)
        requires
            old(self).wf(),
        ensures
            final(self).wf(),
            fresh == (!old(self).has_session(id, peer) && old(self).networked
                && old(self).channels.has(id@) && old(self).prekeys && begun),
            *final(self) == (NodeCore { sessions: final(self).sessions, ..*old(self) }),
            final(self).sessions.map() == (if fresh {
                old(self).sessions.map().insert(
                    PairSlot { channel_id: id, peer }.key_bytes(),
                    true,
                )
            } else {
                old(self).sessions.map()
            }),
    {
        let slot: PairSlot = PairSlot { channel_id: id, peer };
        if self.sessions.contains_key(&slot) || !self.networked || !self.channels.contains_key(&id)
            || !self.prekeys || !begun {
            return false;
        }
        self.sessions.insert(slot, true);
        true
    }
}

/// Whether a first message opens a session that does not exist yet.
pub open spec fn hello_holds(
    n: NodeCore,
    id: Digest32,
    init: Option<InitNames>,
    is_author: bool,
    used: OneTimeUse,
    saved: bool,
    signed: bool,
    begun: bool,
) -> bool {
    &&& init is Some
    &&& n.channels.has(id@)
    &&& is_author
    &&& n.unlocked && n.prekeys
    &&& init->Some_0.one_time_prekey_id is Some ==> used != OneTimeUse::Unknown && saved
    &&& signed && begun
}

// ---- control messages --------------------------------------------------------------

/// A frame of the control stream.
#[derive(Debug, PartialEq, Eq)]
pub enum PairwiseFrame {
    /// The first message of a session.
    Hello {
        /// The channel it is for.
        channel_id: Digest32,
        /// The message.
        initial: Vec<u8>,
    },
    /// An empty message that gives the other side a sending chain.
    Open {
        /// The channel.
        channel_id: Digest32,
        /// The sealed message.
        sealed: Vec<u8>,
    },
    /// A sealed sender key.
    Skdm {
        /// The channel.
        channel_id: Digest32,
        /// The sealed key.
        sealed: Vec<u8>,
    },
}

/// What is done about a frame of the control stream.
#[derive(Debug, PartialEq, Eq)]
pub enum ControlStep {
    /// A session is accepted, and the frame behind it read.
    Accept {
        /// The channel it is for.
        channel_id: Digest32,
        /// The message.
        initial: Vec<u8>,
    },
    /// A message is opened so that the ratchet steps, and that is all.
    Turn {
        /// The channel.
        channel_id: Digest32,
        /// The sealed message.
        sealed: Vec<u8>,
    },
    /// A sender key is opened and taken.
    TakeKey {
        /// The channel.
        channel_id: Digest32,
        /// The sealed key.
        sealed: Vec<u8>,
    },
    /// Nothing.
    Stop,
}

/// What is done about a frame, the first or the one behind an accepted session. A second
/// first message is not taken.
pub open spec fn control_step(frame: Option<PairwiseFrame>, accepted: bool) -> ControlStep {
    match frame {
        None => ControlStep::Stop,
        Some(PairwiseFrame::Hello { channel_id, initial }) => if accepted {
            ControlStep::Stop
        } else {
            ControlStep::Accept { channel_id, initial }
        },
        Some(PairwiseFrame::Open { channel_id, sealed }) => ControlStep::Turn {
            channel_id,
            sealed,
        },
        Some(PairwiseFrame::Skdm { channel_id, sealed }) => ControlStep::TakeKey {
            channel_id,
            sealed,
        },
    }
}

/// What is done about a frame of the control stream; `accepted` says whether a session
/// was accepted on it before.
pub fn take_control(frame: Option<PairwiseFrame>, accepted: bool) -> (s: ControlStep)
    ensures
        s == control_step(frame, accepted),
{
    match frame {
        None => ControlStep::Stop,
        Some(PairwiseFrame::Hello { channel_id, initial }) => if accepted {
            ControlStep::Stop
        } else {
            ControlStep::Accept { channel_id, initial }
        },
        Some(PairwiseFrame::Open { channel_id, sealed }) => ControlStep::Turn {
            channel_id,
            sealed,
        },
        Some(PairwiseFrame::Skdm { channel_id, sealed }) => ControlStep::TakeKey {
            channel_id,
            sealed,
        },
    }
}

/// What the clients are told once a sender key was taken: how many messages became
/// readable. A key that was not taken is no news.
pub fn key_news(channel_id: Digest32, peer: Digest32, backfilled: Result<usize, Error>) -> (r: Option<
    NodeEvent,
>)
    ensures
        match backfilled {
            Ok(n) => r == Some(
                NodeEvent::SenderKeyReceived { channel_id, peer, backfilled: n as u64 },
            ),
            Err(_) => r is None,
        },
{
    match backfilled {
        Ok(n) => Some(
            NodeEvent::SenderKeyReceived { channel_id, peer, backfilled: n as u64 },
        ),
        Err(_) => None,
    }
}

// ---- releasing this identity's key ---------------------------------------------------

/// Where the release of this identity's key to a member stands. The key alone lets the
/// member decrypt; the grant on the log is what makes a message readable. So the key is
/// delivered first, and the grant recorded only once it was.
#[derive(Debug, Clone, Copy, PartialEq, Eq, Structural)]
pub enum ReleaseStage {
    /// The key is to be minted.
    Mint,
    /// The key is to be delivered.
    Deliver,
    /// The grant is to be recorded.
    Record,
    /// It is over.
    Over,
}

/// The release of this identity's key to a member.
#[derive(Debug, Clone, Copy, PartialEq, Eq)]
pub struct KeyRelease {
    /// Where it stands.
    pub stage: ReleaseStage,
    /// The channel.
    pub channel_id: Digest32,
    /// The member.
    pub target: Digest32,
}

impl KeyRelease {
    /// The same release at another stage.
    pub open spec fn to(self, stage: ReleaseStage) -> KeyRelease {
        KeyRelease { stage, ..self }
    }

    /// What minting the key, and looking for its target, gives a release.
    pub open spec fn minting(
        before: KeyRelease,
        after: KeyRelease,
        minted: Result<(), Error>,
        reached: bool,
        session: bool,
        r: Result<(), Fault>,
    ) -> bool {
        match r {
            Ok(_) => minted is Ok && reached && session && after == before.to(
                ReleaseStage::Deliver,
            ),
            Err(f) => {
                &&& after == before.to(ReleaseStage::Over)
                &&& match minted {
                    Err(e) => f == actor::fault_for(e),
                    Ok(_) => (!reached || !session) && f == Fault::Unreachable,
                }
            },
        }
    }

    /// What delivering the key gives a release.
    pub open spec fn delivering(
        before: KeyRelease,
        after: KeyRelease,
        delivered: Result<(), Error>,
        r: Result<(), Fault>,
    ) -> bool {
        match delivered {
            Ok(_) => r is Ok && after == before.to(ReleaseStage::Record),
            Err(e) => r == Err::<(), Fault>(actor::fault_for(e)) && after == before.to(
                ReleaseStage::Over,
            ),
        }
    }

    /// What recording the delivery gives a release.
    pub open spec fn recording(
        before: KeyRelease,
        after: KeyRelease,
        recorded: Result<(), Error>,
        r: (Outcome, Option<NodeEvent>),
    ) -> bool {
        &&& after == before.to(ReleaseStage::Over)
        &&& match recorded {
            Ok(_) => r.0 == Outcome::Done && r.1 == Some(
                NodeEvent::Consented { channel_id: before.channel_id, target: before.target },
            ),
            Err(e) => r.0 == Outcome::Failed(actor::fault_for(e)) && r.1 is None,
        }
    }

    /// Begins a release: the node must network, and hold the channel. A member that was
    /// not admitted has no verified key, so one cannot know that the right party gets it.
    pub fn begin(n: &NodeCore, channel_id: Digest32, target: Digest32, is_author: bool) -> (r: Result<
        KeyRelease,
        Fault,
    >)
        requires
            n.wf(),
        ensures
            match r {
                Ok(k) => {
                    &&& n.networked && n.identity && n.channels.has(channel_id@) && is_author
                    &&& k.stage == ReleaseStage::Mint
                    &&& k.channel_id == channel_id && k.target == target
                },
                Err(f) => if !n.networked {
                    f == Fault::NotNetworked
                } else {
                    (!n.identity || !n.channels.has(channel_id@) || !is_author) && f
                        == Fault::UnknownChannel
                },
            },
    {
        if !n.networked {
            return Err(Fault::NotNetworked);
        }
        if !n.identity || !n.channels.contains_key(&channel_id) || !is_author {
            return Err(Fault::UnknownChannel);
        }
        Ok(KeyRelease { stage: ReleaseStage::Mint, channel_id, target })
    }

    /// Goes on once the key was minted, and the member reached over a session.
    pub fn minted(&mut self, minted: Result<(), Error>, reached: bool, session: bool) -> (r: Result<
        (),
        Fault,
    >)
        requires
            old(self).stage == ReleaseStage::Mint,
        ensures
            KeyRelease::minting(*old(self), *final(self), minted, reached, session, r),
            match r {
                Ok(_) => minted is Ok && reached && session && *final(self) == old(self).to(
                    ReleaseStage::Deliver,
                ),
                Err(f) => {
                    &&& *final(self) == old(self).to(ReleaseStage::Over)
                    &&& match minted {
                        Err(e) => f == actor::fault_for(e),
                        Ok(_) => (!reached || !session) && f == Fault::Unreachable,
                    }
                },
            },
    {
        self.stage = ReleaseStage::Over;
        match minted {
            Ok(_) => {},
            Err(e) => {
                return Err(fault_of(&e));
            },
        }
        if !reached || !session {
            return Err(Fault::Unreachable);
        }
        self.stage = ReleaseStage::Deliver;
        Ok(())
    }

    /// Goes on once the key was delivered.
    pub fn delivered(&mut self, delivered: Result<(), Error>) -> (r: Result<(), Fault>)
        requires
            old(self).stage == ReleaseStage::Deliver,
        ensures
            KeyRelease::delivering(*old(self), *final(self), delivered, r),
            match delivered {
                Ok(_) => r is Ok && *final(self) == old(self).to(ReleaseStage::Record),
                Err(e) => r == Err::<(), Fault>(actor::fault_for(e))
                    && *final(self) == old(self).to(ReleaseStage::Over),
            },
    {
        self.stage = ReleaseStage::Over;
        match delivered {
            Ok(_) => {},
            Err(e) => {
                return Err(fault_of(&e));
            },
        }
        self.stage = ReleaseStage::Record;
        Ok(())
    }

    /// Completes the release once the grant was recorded. Only then is the consent news.
    pub fn recorded(&mut self, recorded: Result<(), Error>) -> (r: (Outcome, Option<NodeEvent>))
        requires
            old(self).stage == ReleaseStage::Record,
        ensures
            KeyRelease::recording(*old(self), *final(self), recorded, r),
            *final(self) == old(self).to(ReleaseStage::Over),
            match recorded {
                Ok(_) => r.0 == Outcome::Done && r.1 == Some(
                    NodeEvent::Consented {
                        channel_id: old(self).channel_id,
                        target: old(self).target,
                    },
                ),
                Err(e) => r.0 == Outcome::Failed(actor::fault_for(e)) && r.1 is None,
            },
    {
        self.stage = ReleaseStage::Over;
        match recorded {
            Ok(_) => (
                Outcome::Done,
                Some(
                    NodeEvent::Consented { channel_id: self.channel_id, target: self.target },
                ),
            ),
            Err(e) => (Outcome::Failed(fault_of(&e)), None),
        }
    }
}

/// A round of re-keys in one channel: who is owed the current generation, and how far
/// the round is.
#[derive(Debug)]
pub struct RekeyRound {
    /// Who is owed.
    pub owed: Vec<Digest32>,
    /// The next one.
    pub at: usize,
    /// How many were re-keyed.
    pub delivered: u64,
}

impl RekeyRound {
    /// What a round keeps.
    pub open spec fn wf(&self) -> bool {
        self.at <= self.owed@.len() && self.delivered <= self.at
    }

    /// Begins a round, where there is anything to do: the node networks, holds the
    /// channel, and somebody is owed the key, which could be minted.
    pub fn begin(n: &NodeCore, id: &Digest32, owed: Vec<Digest32>, minted: bool) -> (r: Option<
        RekeyRound,
    >)
        requires
            n.wf(),
        ensures
            match r {
                Some(round) => {
                    &&& n.networked && n.channels.has(id@) && owed@.len() > 0 && n.identity
                        && minted
                    &&& round.owed == owed && round.at == 0 && round.delivered == 0
                    &&& round.wf()
                },
                None => !n.networked || !n.channels.has(id@) || owed@.len() == 0 || !n.identity
                    || !minted,
            },
    {
        if !n.networked || !n.channels.contains_key(id) || owed.len() == 0 || !n.identity || !minted {
            return None;
        }
        Some(RekeyRound { owed, at: 0, delivered: 0 })
    }

    /// Whom to re-key next.
    pub fn next(&self) -> (r: Option<Digest32>)
        requires
            self.wf(),
        ensures
            match r {
                Some(t) => self.at < self.owed@.len() && t == self.owed@[self.at as int],
                None => self.at == self.owed@.len(),
            },
    {
        if self.at < self.owed.len() {
            Some(self.owed[self.at])
        } else {
            None
        }
    }

    /// Notes how it went with the next one: a member that could not be reached, or not
    /// delivered to, is skipped, and stays owed; a delivery counts once it was noted in
    /// the ledger.
    pub fn tried(&mut self, delivered: bool, noted: bool)
        requires
            old(self).wf(),
            old(self).at < old(self).owed@.len(),
        ensures
            final(self).wf(),
            final(self).owed == old(self).owed,
            final(self).at == old(self).at + 1,
            final(self).delivered == old(self).delivered + (if delivered && noted {
                1int
            } else {
                0
            }),
    {
        let total: usize = self.owed.len();
        assert(self.at < total);
        if delivered && noted {
            self.delivered = self.delivered + 1;
        }
        self.at = self.at + 1;
    }
}

} // verus!
