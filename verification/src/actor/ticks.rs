//! What network work and the passing of time do to the node.

use vstd::prelude::*;

use crate::actor::node::{Effect, NodeCore, PortMapping};
use crate::actor::routes::{self, to_dial};
use crate::actor::{self, renew_at, ANCHOR_REDIAL_SECS, UPGRADE_RETRY_SECS};
use crate::api::NodeEvent;
use crate::bootstrap::{self, BootstrapNode};
use crate::channel::sync::SyncOutcome;
use crate::error::Error;
use crate::hash::Digest32;
use crate::lists::{self, next_number};

verus! {

/// An authorized stream that needs the node's state.
#[derive(Debug, Clone, Copy, PartialEq, Eq)]
pub enum Inbound {
    /// A join.
    Join {
        /// Who opened it.
        peer: Digest32,
    },
    /// A sealed control message.
    Pairwise {
        /// Who opened it.
        peer: Digest32,
    },
    /// A sync session.
    Sync,
    /// A hole punch.
    Punch {
        /// Who asks for it.
        peer: Digest32,
    },
    /// A tunnel.
    Tunnel {
        /// Who opened it.
        peer: Digest32,
    },
    /// Anything that was served where it arrived.
    Served,
}

/// Work that the network produced.
#[derive(Debug)]
pub enum NetEvent {
    /// The node's addresses are known, with the mappings that gateways granted.
    AddressesDiscovered {
        /// The mappings.
        mappings: Vec<PortMapping>,
    },
    /// An anchor answered its dial.
    AnchorConnected {
        /// The anchor.
        peer: Digest32,
        /// The connection.
        connection: u64,
    },
    /// A better path to a peer landed.
    BetterPath {
        /// The peer.
        peer: Digest32,
        /// The connection.
        connection: u64,
    },
    /// A peer connected.
    Connected {
        /// The peer.
        peer: Digest32,
    },
    /// A sync session finished.
    SyncDone {
        /// The channel.
        channel_id: Digest32,
        /// What it did, or why it failed.
        outcome: Result<SyncOutcome, Error>,
    },
    /// A peer opened a stream.
    Stream(Inbound),
    /// The accept loop stopped.
    Stopped,
}

/// The lifetimes of some mappings.
pub open spec fn lifetimes_of(mappings: Seq<PortMapping>) -> Seq<u32> {
    Seq::new(mappings.len(), |i: int| mappings[i].lifetime_secs)
}

/// The republishing of every open channel on this node's board and its anchors'.
pub open spec fn republish(rows: Seq<(Digest32, u64)>) -> Seq<Effect>
    decreases rows.len(),
{
    if rows.len() == 0 {
        Seq::empty()
    } else {
        republish(rows.drop_last()).push(Effect::PublishLocally(rows.last().0)).push(
            Effect::PublishToAnchors(rows.last().0),
        )
    }
}

/// The publishing of every open channel on one peer's board.
pub open spec fn publish_on(rows: Seq<(Digest32, u64)>, peer: Digest32) -> Seq<Effect> {
    Seq::new(rows.len(), |i: int| Effect::PublishTo(rows[i].0, peer))
}

/// The bookkeeping that a connection gets: its streams are served, once, and its peer
/// has a sync schedule.
pub open spec fn adopting(n: NodeCore, peer: Digest32, connection: u64) -> Seq<Effect> {
    (if n.networked && !n.stream_loops@.contains(connection) {
        seq![Effect::ServeStreams(connection)]
    } else {
        Seq::empty()
    }) + seq![Effect::Schedule(peer)]
}

/// What an authorized stream asks of the node.
pub open spec fn stream_work(inbound: Inbound) -> Seq<Effect> {
    match inbound {
        Inbound::Join { peer } => seq![Effect::AnswerJoin(peer)],
        Inbound::Pairwise { peer } => seq![Effect::TakeControl(peer)],
        Inbound::Sync => seq![Effect::RunSync],
        Inbound::Punch { peer } => seq![Effect::AnswerPunch(peer)],
        Inbound::Tunnel { peer } => seq![Effect::ServeTunnel(peer)],
        Inbound::Served => Seq::empty(),
    }
}

/// What a finished session is news of: entries that were folded in or became readable.
pub open spec fn sync_news(id: Digest32, outcome: Result<SyncOutcome, Error>) -> Seq<Effect> {
    match outcome {
        Ok(o) => if o.rendered > 0 || o.governance > 0 {
            seq![
                Effect::Emit(
                    NodeEvent::Synced {
                        channel_id: id,
                        applied: o.applied as u64,
                        rendered: o.rendered as u64,
                    },
                ),
            ]
        } else {
            Seq::empty()
        },
        Err(_) => Seq::empty(),
    }
}

/// What a piece of network work does.
pub open spec fn net_effects(n: NodeCore, event: NetEvent) -> Seq<Effect> {
    match event {
        NetEvent::Stopped => Seq::empty(),
        NetEvent::AddressesDiscovered { .. } => republish(n.channels.rows()),
        NetEvent::AnchorConnected { peer, connection } => adopting(n, peer, connection) + seq![
            Effect::RefreshView,
        ] + publish_on(n.channels.rows(), peer),
        NetEvent::BetterPath { peer, connection } => adopting(n, peer, connection),
        NetEvent::Connected { peer } => seq![Effect::Schedule(peer)],
        NetEvent::SyncDone { channel_id, outcome } => seq![Effect::RefreshView] + sync_news(
            channel_id,
            outcome,
        ),
        NetEvent::Stream(inbound) => stream_work(inbound),
    }
}

/// The connections whose streams are served once one more is adopted.
pub open spec fn loops_with(n: NodeCore, connection: u64) -> Seq<u64> {
    if n.networked {
        with_connection(n.stream_loops@, connection)
    } else {
        n.stream_loops@
    }
}

/// Connections with one more, unless it is there already.
pub open spec fn with_connection(v: Seq<u64>, c: u64) -> Seq<u64> {
    if v.contains(c) {
        v
    } else {
        v.push(c)
    }
}

fn has_number(v: &Vec<u64>, n: u64) -> (r: bool)
    ensures
        r == v@.contains(n),
{
    let mut i: usize = 0;
    while i < v.len()
        invariant
            i <= v@.len(),
            forall|j: int| 0 <= j < i ==> v@[j] != n,
        decreases v@.len() - i,
    {
        if v[i] == n {
            assert(v@[i as int] == n);
            return true;
        }
        i = i + 1;
    }
    false
}

impl NodeCore {
    /// Gives a connection the bookkeeping every connection needs, however it arrived.
    pub fn adopt_connection(&mut self, peer: Digest32, connection: u64) -> (effects: Vec<Effect>)
        requires
            old(self).wf(),
        ensures
            final(self).wf(),
            effects@ == adopting(*old(self), peer, connection),
            *final(self) == (NodeCore { stream_loops: final(self).stream_loops, ..*old(self) }),
            final(self).stream_loops@ == loops_with(*old(self), connection),
    {
        let mut effects: Vec<Effect> = Vec::new();
        if self.networked && !has_number(&self.stream_loops, connection) {
            self.stream_loops.push(connection);
            effects.push(Effect::ServeStreams(connection));
        }
        effects.push(Effect::Schedule(peer));
        assert(effects@ =~= adopting(*old(self), peer, connection));
        effects
    }

    /// Handles one piece of network work.
    pub fn handle_net(&mut self, event: NetEvent, now: u64) -> (effects: Vec<Effect>)
        requires
            old(self).wf(),
            event matches NetEvent::AddressesDiscovered { mappings } ==> (actor::shortest(
                lifetimes_of(mappings@),
            ) matches Some(l) ==> now + actor::half_of(l) <= u64::MAX),
        ensures
            final(self).wf(),
            effects@ == net_effects(*old(self), event),
            match event {
                NetEvent::Stopped => *final(self) == (NodeCore { networked: false, ..*old(self) }),
                NetEvent::AddressesDiscovered { mappings } => *final(self) == (NodeCore {
                    renew_mappings_at: match actor::shortest(lifetimes_of(mappings@)) {
                        None => None,
                        Some(l) => Some((now + actor::half_of(l)) as u64),
                    },
                    port_mappings: mappings,
                    ..*old(self)
                }),
                NetEvent::AnchorConnected { peer, connection } => {
                    &&& *final(self) == (NodeCore {
                        anchor_ids: final(self).anchor_ids,
                        stream_loops: final(self).stream_loops,
                        ..*old(self)
                    })
                    &&& final(self).anchor_ids.map() == old(self).anchor_ids.map().insert(
                        peer@,
                        true,
                    )
                    &&& final(self).stream_loops@ == loops_with(*old(self), connection)
                },
                NetEvent::BetterPath { connection, .. } => {
                    &&& *final(self) == (NodeCore {
                        stream_loops: final(self).stream_loops,
                        ..*old(self)
                    })
                    &&& final(self).stream_loops@ == loops_with(*old(self), connection)
                },
                _ => *final(self) == *old(self),
            },
    {
        match event {
            NetEvent::Stopped => {
                self.networked = false;
                let effects: Vec<Effect> = Vec::new();
                assert(effects@ =~= Seq::empty());
                effects
            },
            NetEvent::AddressesDiscovered { mappings } => {
                let mut lifetimes: Vec<u32> = Vec::new();
                let mut i: usize = 0;
                while i < mappings.len()
                    invariant
                        i <= mappings@.len(),
                        lifetimes@ == lifetimes_of(mappings@).take(i as int),
                    decreases mappings@.len() - i,
                {
                    lifetimes.push(mappings[i].lifetime_secs);
                    assert(lifetimes@ =~= lifetimes_of(mappings@).take(i + 1));
                    i = i + 1;
                }
                assert(lifetimes_of(mappings@).take(i as int) =~= lifetimes_of(mappings@));
                self.renew_mappings_at = renew_at(now, &lifetimes);
                self.port_mappings = mappings;
                let mut effects: Vec<Effect> = Vec::new();
                let ghost rows = self.channels.rows();
                let mut j: usize = 0;
                assert(rows.take(0) =~= Seq::empty());
                assert(effects@ =~= Seq::empty());
                while j < self.channels.len()
                    invariant
                        j <= rows.len(),
                        rows == self.channels.rows(),
                        effects@ == republish(rows.take(j as int)),
                    decreases rows.len() - j,
                {
                    let id: Digest32 = self.channels.row(j).0;
                    proof {
                        assert(rows.take(j + 1).drop_last() =~= rows.take(j as int));
                        assert(rows.take(j + 1).last().0 == id);
                    }
                    effects.push(Effect::PublishLocally(id));
                    effects.push(Effect::PublishToAnchors(id));
                    j = j + 1;
                }
                assert(rows.take(j as int) =~= rows);
                effects
            },
            NetEvent::AnchorConnected { peer, connection } => {
                self.anchor_ids.insert(peer, true);
                let mut effects: Vec<Effect> = self.adopt_connection(peer, connection);
                effects.push(Effect::RefreshView);
                let ghost front = effects@;
                let ghost rows = self.channels.rows();
                let mut j: usize = 0;
                assert(effects@ =~= front + publish_on(rows, peer).take(0));
                while j < self.channels.len()
                    invariant
                        j <= rows.len(),
                        rows == self.channels.rows(),
                        effects@ == front + publish_on(rows, peer).take(j as int),
                    decreases rows.len() - j,
                {
                    effects.push(Effect::PublishTo(self.channels.row(j).0, peer));
                    assert(effects@ =~= front + publish_on(rows, peer).take(j + 1));
                    j = j + 1;
                }
                assert(publish_on(rows, peer).take(j as int) =~= publish_on(rows, peer));
                assert(effects@ =~= net_effects(*old(self), event));
                effects
            },
            NetEvent::BetterPath { peer, connection } => self.adopt_connection(peer, connection),
            NetEvent::Connected { peer } => {
                let mut effects: Vec<Effect> = Vec::new();
                effects.push(Effect::Schedule(peer));
                assert(effects@ =~= seq![Effect::Schedule(peer)]);
                effects
            },
            NetEvent::SyncDone { channel_id, outcome } => {
                let mut effects: Vec<Effect> = Vec::new();
                effects.push(Effect::RefreshView);
                match outcome {
                    Ok(o) => {
                        if o.rendered > 0 || o.governance > 0 {
                            effects.push(
                                Effect::Emit(
                                    NodeEvent::Synced {
                                        channel_id,
                                        applied: o.applied as u64,
                                        rendered: o.rendered as u64,
                                    },
                                ),
                            );
                        }
                    },
                    Err(_) => {},
                }
                assert(effects@ =~= seq![Effect::RefreshView] + sync_news(channel_id, outcome));
                effects
            },
            NetEvent::Stream(inbound) => {
                let mut effects: Vec<Effect> = Vec::new();
                match inbound {
                    Inbound::Join { peer } => {
                        effects.push(Effect::AnswerJoin(peer));
                    },
                    Inbound::Pairwise { peer } => {
                        effects.push(Effect::TakeControl(peer));
                    },
                    Inbound::Sync => {
                        effects.push(Effect::RunSync);
                    },
                    Inbound::Punch { peer } => {
                        effects.push(Effect::AnswerPunch(peer));
                    },
                    Inbound::Tunnel { peer } => {
                        effects.push(Effect::ServeTunnel(peer));
                    },
                    Inbound::Served => {},
                }
                assert(effects@ =~= stream_work(inbound));
                effects
            },
        }
    }

    // ---- what is due -------------------------------------------------------------

    /// Whether the granted mappings are to be asked for again now. One renewal is in
    /// flight at a time. Nothing happens while the network is down.
    pub fn renew_mappings_if_due(&mut self, now: u64) -> (due: bool)
        requires
            old(self).wf(),
        ensures
            final(self).wf(),
            due == (old(self).networked && old(self).renew_mappings_at is Some
                && old(self).renew_mappings_at->Some_0 <= now),
            *final(self) == (NodeCore {
                renew_mappings_at: if due {
                    None
                } else {
                    old(self).renew_mappings_at
                },
                ..*old(self)
            }),
    {
        match self.renew_mappings_at {
            Some(at) => {
                if now < at || !self.networked {
                    return false;
                }
                self.renew_mappings_at = None;
                true
            },
            None => false,
        }
    }

    /// The configured anchors to dial again: those that are somebody else and not
    /// connected, at most every [`ANCHOR_REDIAL_SECS`].
    pub fn redial_anchors_if_due(&mut self, now: u64, me: &Digest32, connected: &Vec<Digest32>) -> (dial: Vec<
        BootstrapNode,
    >)
        requires
            old(self).wf(),
            now >= old(self).redial_anchors_at ==> now + ANCHOR_REDIAL_SECS <= u64::MAX,
        ensures
            final(self).wf(),
            bootstrap::nodes_view(dial@) == (if now < old(self).redial_anchors_at
                || !old(self).networked {
                Seq::empty()
            } else {
                routes::undialled(
                    bootstrap::nodes_view(old(self).anchors.nodes@),
                    me@,
                    connected@,
                )
            }),
            *final(self) == (NodeCore {
                redial_anchors_at: if now < old(self).redial_anchors_at {
                    old(self).redial_anchors_at
                } else {
                    (now + ANCHOR_REDIAL_SECS) as u64
                },
                ..*old(self)
            }),
    {
        let none: Vec<BootstrapNode> = Vec::new();
        assert(bootstrap::nodes_view(none@) =~= Seq::empty());
        if now < self.redial_anchors_at {
            return none;
        }
        self.redial_anchors_at = now + ANCHOR_REDIAL_SECS;
        if !self.networked {
            return none;
        }
        to_dial(&self.anchors.nodes, me, connected)
    }

    /// Notes a peer that was dialled. One reached over a relay is tried for a better
    /// path at once.
    pub fn dialled(&mut self, peer: Digest32, relayed: bool, now: u64) -> (upgrade: bool)
        requires
            old(self).wf(),
        ensures
            final(self).wf(),
            upgrade == relayed,
            *final(self) == (NodeCore { last_upgrade: final(self).last_upgrade, ..*old(self) }),
            final(self).last_upgrade.map() == (if relayed {
                old(self).last_upgrade.map().insert(peer@, now)
            } else {
                old(self).last_upgrade.map()
            }),
    {
        if relayed {
            self.last_upgrade.insert(peer, now);
        }
        relayed
    }

    /// Whether a relayed peer is due another try: it was not tried for
    /// [`UPGRADE_RETRY_SECS`]. A peer never tried counts as tried at 0.
    pub open spec fn upgrade_due(&self, now: u64) -> spec_fn(Digest32) -> bool {
        |p: Digest32|
            {
                let last: u64 = if self.last_upgrade.has(p@) {
                    self.last_upgrade.map()[p@]
                } else {
                    0
                };
                now >= last && now - last >= UPGRADE_RETRY_SECS
            }
    }

    /// The relayed peers to try for a direct path now, once for each channel that is
    /// shared with them. The time is noted before the attempt, so that a slow one cannot
    /// stack.
    pub fn retry_upgrades_if_due(&mut self, relayed: &Vec<Digest32>, now: u64) -> (due: Vec<
        Digest32,
    >)
        requires
            old(self).wf(),
        ensures
            final(self).wf(),
            due@ == (if old(self).networked {
                lists::pick(relayed@, old(self).upgrade_due(now))
            } else {
                Seq::empty()
            }),
            *final(self) == (NodeCore { last_upgrade: final(self).last_upgrade, ..*old(self) }),
            forall|k: Seq<u8>| #[trigger]
                final(self).last_upgrade.map().contains_key(k)
                    <==> old(self).last_upgrade.map().contains_key(k) || names(due@, k),
            forall|k: Seq<u8>| #[trigger]
                final(self).last_upgrade.map().contains_key(k)
                    ==> final(self).last_upgrade.map()[k] == (if names(due@, k) {
                    now
                } else {
                    old(self).last_upgrade.map()[k]
                }),
    {
        let mut due: Vec<Digest32> = Vec::new();
        if !self.networked {
            assert(forall|k: Seq<u8>| !names(due@, k));
            return due;
        }
        let ghost p = self.upgrade_due(now);
        let mut i: usize = 0;
        assert(relayed@.take(0) =~= Seq::empty());
        while i < relayed.len()
            invariant
                i <= relayed@.len(),
                self.wf(),
                *self == *old(self),
                p == self.upgrade_due(now),
                due@ == lists::pick(relayed@.take(i as int), p),
            decreases relayed@.len() - i,
        {
            let peer: Digest32 = relayed[i];
            proof {
                assert(relayed@.take(i + 1).drop_last() =~= relayed@.take(i as int));
                assert(relayed@.take(i + 1).last() == peer);
            }
            let last: u64 = match self.last_upgrade.get(&peer) {
                Some(t) => *t,
                None => 0,
            };
            if now >= last && now - last >= UPGRADE_RETRY_SECS {
                due.push(peer);
            }
            i = i + 1;
        }
        assert(relayed@.take(i as int) =~= relayed@);
        let mut j: usize = 0;
        let ghost before = self.last_upgrade.map();
        while j < due.len()
            invariant
                j <= due@.len(),
                self.wf(),
                *self == (NodeCore { last_upgrade: self.last_upgrade, ..*old(self) }),
                before == old(self).last_upgrade.map(),
                forall|k: Seq<u8>| #[trigger]
                    self.last_upgrade.map().contains_key(k) <==> before.contains_key(k) || names(
                        due@.take(j as int),
                        k,
                    ),
                forall|k: Seq<u8>| #[trigger]
                    self.last_upgrade.map().contains_key(k) ==> self.last_upgrade.map()[k] == (
                    if names(due@.take(j as int), k) {
                        now
                    } else {
                        before[k]
                    }),
            decreases due@.len() - j,
        {
            let ghost sofar = self.last_upgrade.map();
            self.last_upgrade.insert(due[j], now);
            proof {
                let id = due@[j as int]@;
                assert forall|k: Seq<u8>| names(due@.take(j + 1), k) <==> names(
                    due@.take(j as int),
                    k,
                ) || k == id by {
                    lemma_names_step(due@, j as int, k);
                }
                assert forall|k: Seq<u8>| #[trigger]
                    self.last_upgrade.map().contains_key(k) <==> before.contains_key(k) || names(
                        due@.take(j + 1),
                        k,
                    ) by {
                    if k != id {
                        assert(self.last_upgrade.map().contains_key(k) == sofar.contains_key(k));
                    }
                }
                assert forall|k: Seq<u8>| #[trigger] self.last_upgrade.map().contains_key(k) implies
                    self.last_upgrade.map()[k] == (if names(due@.take(j + 1), k) {
                    now
                } else {
                    before[k]
                }) by {
                    if k != id {
                        assert(sofar.contains_key(k));
                    }
                }
            }
            j = j + 1;
        }
        assert(due@.take(j as int) =~= due@);
        due
    }

    /// The next record number of a channel.
    pub fn next_record_seq(&mut self, id: Digest32) -> (n: u64)
        requires
            old(self).wf(),
        ensures
            final(self).wf(),
            n == lists::succ(
                if old(self).record_seq.has(id@) {
                    old(self).record_seq.map()[id@]
                } else {
                    0
                },
            ),
            *final(self) == (NodeCore { record_seq: final(self).record_seq, ..*old(self) }),
            final(self).record_seq.map() == old(self).record_seq.map().insert(id@, n),
    {
        let last: u64 = match self.record_seq.get(&id) {
            Some(n) => *n,
            None => 0,
        };
        let n: u64 = next_number(last);
        self.record_seq.insert(id, n);
        n
    }
}

/// Whether some identities name `k`.
pub open spec fn names(ids: Seq<Digest32>, k: Seq<u8>) -> bool {
    exists|i: int| 0 <= i < ids.len() && (#[trigger] ids[i])@ == k
}

proof fn lemma_names_step(ids: Seq<Digest32>, j: int, k: Seq<u8>)
    requires
        0 <= j < ids.len(),
    ensures
        names(ids.take(j + 1), k) <==> names(ids.take(j), k) || ids[j]@ == k,
{
    let a = ids.take(j);
    let b = ids.take(j + 1);
    if names(b, k) {
        let i = choose|i: int| 0 <= i < b.len() && (#[trigger] b[i])@ == k;
        if i < j {
            assert(a[i]@ == k);
        }
    }
    if names(a, k) {
        let i = choose|i: int| 0 <= i < a.len() && (#[trigger] a[i])@ == k;
        assert(b[i]@ == k);
    }
    if ids[j]@ == k {
        assert(b[j]@ == k);
    }
}

} // verus!
