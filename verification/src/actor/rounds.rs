//! What the node does from time to time: the sync passes that are due, the keys it owes to
//! whom it trusts, and what it files of what a peer's board holds. At its start, the copies
//! it takes up again and the first view.

use vstd::prelude::*;

use crate::actor::boards::gained;
use crate::actor::node::{Effect, NodeCore};
use crate::actor::peers::{self, SyncTrigger};
use crate::actor::view::{self, view_of, OpenRoom, Outlook};
use crate::api::{AnchoredChannel, IdentityInfo, NodeView};
use crate::channel::ops;
use crate::error::Error;
use crate::hash::Digest32;
use crate::lists::{self, has_digest};
use crate::table::Table;

verus! {

// ---- sync passes -----------------------------------------------------------------

/// A round of sync passes, peer by peer. What a pass covers is asked for when its turn comes:
/// whom the passes before it admitted is covered too.
#[derive(Debug)]
pub struct SyncRound {
    /// The peers whose sync is due, each with what makes it due.
    pub due: Vec<(Digest32, SyncTrigger)>,
    /// How many of them had their turn.
    pub at: usize,
}

/// The channels that a pass with a peer covers, as the node stands: `authored` are the open
/// channels that the peer is an author of, `kept` the anchored ones.
pub open spec fn pass_of(
    n: NodeCore,
    peer: Digest32,
    trigger: SyncTrigger,
    authored: Seq<Digest32>,
    kept: Seq<Digest32>,
) -> Seq<Digest32> {
    lists::pick(
        ops::ids_of(n.channels.rows()),
        peers::covers(n, peer, trigger, authored),
    ) + lists::pick(
        ops::ids_of(n.anchored.rows()),
        peers::covers_anchored(trigger, kept),
    )
}

/// One digest paired with each of some others.
pub open spec fn paired(a: Digest32, bs: Seq<Digest32>) -> Seq<(Digest32, Digest32)> {
    Seq::new(bs.len(), |i: int| (a, bs[i]))
}

fn pair_all(a: Digest32, bs: &Vec<Digest32>, out: &mut Vec<(Digest32, Digest32)>)
    ensures
        final(out)@ == old(out)@ + paired(a, bs@),
{
    let ghost start = out@;
    let mut i: usize = 0;
    assert(out@ =~= start + paired(a, bs@.take(0)));
    while i < bs.len()
        invariant
            i <= bs@.len(),
            out@ == start + paired(a, bs@.take(i as int)),
        decreases bs@.len() - i,
    {
        out.push((a, bs[i]));
        assert(out@ =~= start + paired(a, bs@.take(i + 1)));
        i = i + 1;
    }
    assert(bs@.take(i as int) =~= bs@);
}

/// What is brought up to date before a channel is reconciled with a peer.
#[derive(Debug, Clone, Copy, PartialEq, Eq, Structural)]
pub enum Preparation {
    /// A member learns from the peer who else has joined, or the first entry of a newer
    /// member would end the session.
    LearnMembers,
    /// An anchor takes its authors from its own board.
    RefreshAuthors,
}

impl NodeCore {
    /// Begins the sync passes that are due; `None` where none is, or the network is down.
    pub fn run_due_syncs(&self, due: Vec<(Digest32, SyncTrigger)>) -> (r: Option<SyncRound>)
        ensures
            match r {
                Some(round) => self.networked && due@.len() > 0 && round.due == due && round.at
                    == 0,
                None => !self.networked || due@.len() == 0,
            },
    {
        if !self.networked || due.len() == 0 {
            return None;
        }
        Some(SyncRound { due, at: 0 })
    }

    /// What comes before a session for a channel with a peer; `None` where none is run:
    /// the network is down, the peer is not connected, or the channel is neither open nor
    /// kept.
    pub fn sync_one(&self, id: &Digest32, connected: bool) -> (r: Option<Preparation>)
        requires
            self.wf(),
        ensures
            r == (if !self.networked || !connected {
                None
            } else if self.channels.has(id@) {
                Some(Preparation::LearnMembers)
            } else if self.anchored.has(id@) {
                Some(Preparation::RefreshAuthors)
            } else {
                None
            }),
    {
        if !self.networked || !connected {
            None
        } else if self.channels.contains_key(id) {
            Some(Preparation::LearnMembers)
        } else if self.anchored.contains_key(id) {
            Some(Preparation::RefreshAuthors)
        } else {
            None
        }
    }
}

impl SyncRound {
    /// What every round keeps.
    pub open spec fn wf(&self) -> bool {
        self.at <= self.due@.len()
    }

    /// The peer whose turn it is; `None` once every peer had its turn.
    pub fn peer(&self) -> (r: Option<Digest32>)
        requires
            self.wf(),
        ensures
            r == (if self.at < self.due@.len() {
                Some(self.due@[self.at as int].0)
            } else {
                None
            }),
    {
        if self.at < self.due.len() {
            Some(self.due[self.at].0)
        } else {
            None
        }
    }

    /// The turn of the peer at hand: the channels that its pass covers as the node now stands,
    /// or `None` where the peer is not connected, which leaves its sync due. `authored` and
    /// `kept` are the open and the anchored channels that it is an author of by now.
    pub fn pass(
        &mut self,
        n: &NodeCore,
        connected: bool,
        authored: &Vec<Digest32>,
        kept: &Vec<Digest32>,
    ) -> (r: Option<Vec<Digest32>>)
        requires
            old(self).wf(),
            old(self).at < old(self).due@.len(),
            n.wf(),
        ensures
            final(self).wf(),
            *final(self) == (SyncRound { at: (old(self).at + 1) as usize, ..*old(self) }),
            match r {
                Some(channels) => {
                    let (peer, trigger) = old(self).due@[old(self).at as int];
                    connected && channels@ == pass_of(*n, peer, trigger, authored@, kept@)
                },
                None => !connected,
            },
    {
        let total: usize = self.due.len();
        assert(self.at < total);
        let (peer, trigger) = self.due[self.at];
        self.at = self.at + 1;
        if !connected {
            return None;
        }
        Some(n.channels_due(&peer, trigger, authored, kept))
    }

    /// Ends a round once every peer had its turn: the local appends count as pushed.
    pub fn finish(self, n: &mut NodeCore)
        requires
            self.at == self.due@.len(),
            old(n).wf(),
        ensures
            final(n).wf(),
            *final(n) == (NodeCore { pending_push: final(n).pending_push, ..*old(n) }),
            final(n).pending_push.map() == Map::<Seq<u8>, bool>::empty(),
    {
        n.syncs_done();
    }
}

/// A peer that an earlier pass of a round admitted to a channel is covered there in the same
/// round, unless its pass is for appends and the channel has none to push.
pub proof fn law_newly_admitted_is_covered(
    n: NodeCore,
    peer: Digest32,
    trigger: SyncTrigger,
    authored: Seq<Digest32>,
    kept: Seq<Digest32>,
    id: Digest32,
)
    requires
        ops::ids_of(n.channels.rows()).contains(id),
        authored.contains(id),
        trigger == SyncTrigger::LocalAppend ==> n.pending_push.has(id@),
    ensures
        pass_of(n, peer, trigger, authored, kept).contains(id),
{
    let p = peers::covers(n, peer, trigger, authored);
    let first = lists::pick(ops::ids_of(n.channels.rows()), p);
    lists::lemma_pick_contains(ops::ids_of(n.channels.rows()), p, id);
    let i = first.index_of(id);
    assert(pass_of(n, peer, trigger, authored, kept)[i] == id);
}

/// What is to do once the members on a peer's board were looked at: `learned` of them were
/// admitted, and `filed` says of each record whether this node's own board took it. Who may
/// reach what is worked out anew where anybody was admitted, and the anchors, which learn
/// of members only from members, get a mirror where the board gained anything.
pub fn learn_members(id: Digest32, learned: usize, filed: &Vec<bool>) -> (effects: Vec<Effect>)
    ensures
        effects@ == (if learned > 0 {
            seq![Effect::RefreshReachers, Effect::RefreshView]
        } else {
            Seq::empty()
        }) + (if filed@.contains(true) {
            seq![Effect::PublishToAnchors(id)]
        } else {
            Seq::empty()
        }),
{
    let mut effects: Vec<Effect> = Vec::new();
    if learned > 0 {
        effects.push(Effect::RefreshReachers);
        effects.push(Effect::RefreshView);
    }
    if gained(filed) {
        effects.push(Effect::PublishToAnchors(id));
    }
    effects
}

/// What is to do once an anchored copy took up the authors that the board has come to
/// know: where any is new, who is known is republished.
pub fn refresh_anchored_authors(added: usize) -> (effects: Vec<Effect>)
    ensures
        effects@ == (if added > 0 {
            seq![Effect::RefreshView]
        } else {
            Seq::empty()
        }),
{
    let mut effects: Vec<Effect> = Vec::new();
    if added > 0 {
        effects.push(Effect::RefreshView);
    }
    effects
}

impl NodeCore {
    /// The anchors whose boards get a channel's records: those this node is connected to.
    pub fn publish_channel_to_anchors(&self, connected: &Vec<Digest32>) -> (out: Vec<Digest32>)
        requires
            self.wf(),
        ensures
            out@ == (if self.networked {
                lists::pick(
                    ops::ids_of(self.anchor_ids.rows()),
                    |a: Digest32| connected@.contains(a),
                )
            } else {
                Seq::empty()
            }),
    {
        let mut out: Vec<Digest32> = Vec::new();
        if !self.networked {
            return out;
        }
        let ghost ids = ops::ids_of(self.anchor_ids.rows());
        let ghost p = |a: Digest32| connected@.contains(a);
        let mut i: usize = 0;
        assert(ids.take(0) =~= Seq::empty());
        while i < self.anchor_ids.len()
            invariant
                i <= ids.len(),
                ids == ops::ids_of(self.anchor_ids.rows()),
                p == (|a: Digest32| connected@.contains(a)),
                out@ == lists::pick(ids.take(i as int), p),
            decreases ids.len() - i,
        {
            let a: Digest32 = self.anchor_ids.row(i).0;
            proof {
                assert(ids.take(i + 1).drop_last() =~= ids.take(i as int));
                assert(ids.take(i + 1).last() == a);
            }
            if has_digest(connected, &a) {
                out.push(a);
            }
            i = i + 1;
        }
        assert(ids.take(i as int) =~= ids);
        out
    }
}

// ---- keys that are owed ----------------------------------------------------------

/// The consents that are owed in some rooms, as room and member, room by room. `readers`
/// are those whom each room's log has this identity consent to already.
pub open spec fn owed_in(
    trusted: Seq<Digest32>,
    rooms: Seq<OpenRoom>,
    readers: Seq<Vec<Digest32>>,
    k: nat,
) -> Seq<(Digest32, Digest32)>
    decreases k,
{
    if k == 0 {
        Seq::empty()
    } else {
        let ch = rooms[k - 1].channel;
        owed_in(trusted, rooms, readers, (k - 1) as nat) + paired(
            ch.channel_id,
            lists::pick(
                ops::ids_of(ch.authors.rows()),
                ops::owes_consent(ch.sender.author_id, trusted, readers[k - 1]@),
            ),
        )
    }
}

impl NodeCore {
    fn trusted_ids(&self) -> (out: Vec<Digest32>)
        ensures
            out@ == ops::ids_of(self.trusted.rows()),
    {
        let ghost ids = ops::ids_of(self.trusted.rows());
        let mut out: Vec<Digest32> = Vec::new();
        let mut i: usize = 0;
        assert(ids.take(0) =~= Seq::empty());
        while i < self.trusted.len()
            invariant
                i <= ids.len(),
                ids == ops::ids_of(self.trusted.rows()),
                out@ == ids.take(i as int),
            decreases ids.len() - i,
        {
            out.push(self.trusted.row(i).0);
            assert(out@ =~= ids.take(i + 1));
            i = i + 1;
        }
        assert(ids.take(i as int) =~= ids);
        out
    }

    /// The consents to deliver now, as room and member: in every open room, each trusted
    /// author that has none yet. Nothing is delivered while the network is down. One that
    /// fails stays owed.
    pub fn deliver_owed_consents(&self, rooms: &Vec<OpenRoom>, readers: &Vec<Vec<Digest32>>) -> (
        out: Vec<(Digest32, Digest32)>)
        requires
            self.wf(),
            readers@.len() == rooms@.len(),
        ensures
            out@ == (if self.networked && self.trusted.rows().len() > 0 {
                owed_in(ops::ids_of(self.trusted.rows()), rooms@, readers@, rooms@.len())
            } else {
                Seq::empty()
            }),
    {
        let mut out: Vec<(Digest32, Digest32)> = Vec::new();
        if !self.networked || self.trusted.len() == 0 {
            return out;
        }
        let trusted: Vec<Digest32> = self.trusted_ids();
        let mut i: usize = 0;
        while i < rooms.len()
            invariant
                i <= rooms@.len(),
                readers@.len() == rooms@.len(),
                trusted@ == ops::ids_of(self.trusted.rows()),
                out@ == owed_in(trusted@, rooms@, readers@, i as nat),
            decreases rooms@.len() - i,
        {
            let owed: Vec<Digest32> = rooms[i].channel.owed_consents(&trusted, &readers[i]);
            pair_all(rooms[i].channel.channel_id, &owed, &mut out);
            i = i + 1;
        }
        out
    }
}

/// Whoever is consented to without being asked for is in the keyring, an author of the
/// room, and had no consent there yet: neither membership nor trust alone gives anybody a
/// key.
pub proof fn law_consent_needs_trust_and_membership(
    trusted: Seq<Digest32>,
    rooms: Seq<OpenRoom>,
    readers: Seq<Vec<Digest32>>,
    k: nat,
    i: int,
)
    requires
        k <= rooms.len(),
        0 <= i < owed_in(trusted, rooms, readers, k).len(),
    ensures
        ({
            let (room, member) = owed_in(trusted, rooms, readers, k)[i];
            &&& trusted.contains(member)
            &&& exists|j: int|
                0 <= j < k && (#[trigger] rooms[j]).channel.channel_id == room && ops::ids_of(
                    rooms[j].channel.authors.rows(),
                ).contains(member) && !readers[j]@.contains(member)
        }),
    decreases k,
{
    if k > 0 {
        let front = owed_in(trusted, rooms, readers, (k - 1) as nat);
        let (room, member) = owed_in(trusted, rooms, readers, k)[i];
        if i < front.len() {
            law_consent_needs_trust_and_membership(trusted, rooms, readers, (k - 1) as nat, i);
            assert(front[i] == (room, member));
        } else {
            let ch = rooms[k - 1].channel;
            let p = ops::owes_consent(ch.sender.author_id, trusted, readers[k - 1]@);
            let picked = lists::pick(ops::ids_of(ch.authors.rows()), p);
            assert(picked[i - front.len()] == member);
            lists::lemma_pick_contains(ops::ids_of(ch.authors.rows()), p, member);
            assert(rooms[k - 1].channel.channel_id == room);
        }
    }
}

/// A node that trusts nobody delivers no consent.
pub proof fn law_no_trust_no_consent(rooms: Seq<OpenRoom>, readers: Seq<Vec<Digest32>>, k: nat)
    requires
        k <= rooms.len(),
    ensures
        owed_in(Seq::empty(), rooms, readers, k).len() == 0,
    decreases k,
{
    if k > 0 {
        law_no_trust_no_consent(rooms, readers, (k - 1) as nat);
        if owed_in(Seq::empty(), rooms, readers, k).len() > 0 {
            law_consent_needs_trust_and_membership(Seq::empty(), rooms, readers, k, 0);
        }
    }
}

// ---- the start -------------------------------------------------------------------

/// The copies that are kept once some were opened again.
pub open spec fn reopened(
    kept: Map<Seq<u8>, u64>,
    stored: Seq<(Digest32, Result<u64, Error>)>,
) -> Map<Seq<u8>, u64>
    decreases stored.len(),
{
    if stored.len() == 0 {
        kept
    } else {
        let before = reopened(kept, stored.drop_last());
        match stored.last().1 {
            Ok(epoch) => before.insert(stored.last().0@, epoch),
            Err(_) => before,
        }
    }
}

impl NodeCore {
    /// Takes up again the copies that the store holds, at the start. `stored` are they, with
    /// the epoch of each that could be opened; one that could not is left out. A node that
    /// keeps no logs, or does not network, has none.
    pub fn reopen_anchored(&mut self, stored: &Vec<(Digest32, Result<u64, Error>)>)
        requires
            old(self).wf(),
        ensures
            final(self).wf(),
            *final(self) == (NodeCore { anchored: final(self).anchored, ..*old(self) }),
            final(self).anchored.map() == (if old(self).anchor_logs && old(self).networked {
                reopened(old(self).anchored.map(), stored@)
            } else {
                old(self).anchored.map()
            }),
    {
        if !self.anchor_logs || !self.networked {
            return;
        }
        let mut i: usize = 0;
        assert(stored@.take(0) =~= Seq::empty());
        while i < stored.len()
            invariant
                i <= stored@.len(),
                self.wf(),
                *self == (NodeCore { anchored: self.anchored, ..*old(self) }),
                self.anchored.map() == reopened(
                    old(self).anchored.map(),
                    stored@.take(i as int),
                ),
            decreases stored@.len() - i,
        {
            proof {
                assert(stored@.take(i + 1).drop_last() =~= stored@.take(i as int));
                assert(stored@.take(i + 1).last() == stored@[i as int]);
            }
            match stored[i].1 {
                Ok(epoch) => {
                    self.anchored.insert(stored[i].0, epoch);
                },
                Err(_) => {},
            }
            i = i + 1;
        }
        assert(stored@.take(i as int) =~= stored@);
    }
}

/// The first view, before anything is open or forwarded: every channel of the profile,
/// closed.
pub fn publish_initial(
    n: &NodeCore,
    identity: Option<IdentityInfo>,
    known: Vec<Digest32>,
    listening: Vec<String>,
) -> (v: NodeView)
    requires
        n.wf(),
        n.forwards.rows().len() == 0,
    ensures
        v.identity == identity,
        v.locked == !n.unlocked,
        v.mlock_active,
        v.listening == listening,
        v.channels@.len() == known@.len(),
        forall|i: int|
            0 <= i < known@.len() ==> {
                &&& (#[trigger] v.channels@[i]).channel_id == known@[i]
                &&& !v.channels@[i].open
                &&& v.channels@[i].local_name is None
                &&& v.channels@[i].entries == 0
            },
        v.open_channels@.len() == 0,
        v.anchoring@.len() == 0,
        v.trusted@.len() == n.trusted.rows().len(),
        forall|i: int|
            0 <= i < v.trusted@.len() ==> (#[trigger] v.trusted@[i]).0 == n.trusted.rows()[i].0
                && v.trusted@[i].1@ == n.trusted.rows()[i].1@,
        v.relayed_peers@.len() == 0,
        v.relaying == 0,
        v.forwards@.len() == 0,
{
    let rooms: Vec<OpenRoom> = Vec::new();
    let board: Vec<AnchoredChannel> = Vec::new();
    let outlook = Outlook {
        listening,
        known,
        board,
        kept: Table::new(),
        relayed: Table::new(),
        relaying: 0,
    };
    let v: NodeView = view_of(n, identity, &rooms, outlook);
    assert forall|i: int| 0 <= i < known@.len() implies {
        &&& (#[trigger] v.channels@[i]).channel_id == known@[i]
        &&& !v.channels@[i].open
        &&& v.channels@[i].local_name is None
        &&& v.channels@[i].entries == 0
    } by {
        assert(view::summarizes(v.channels@[i], known@[i], rooms@));
    }
    v
}

} // verus!
