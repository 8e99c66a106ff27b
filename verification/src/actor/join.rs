//! Joining a channel from an invite link, as a state machine.
//!
//! In order: the link is parsed; a board is reached and read; the member to join through
//! is chosen; this node announces itself, on the board and then on that member's own;
//! the authenticated exchange is run; and the channel is taken up. A step that fails ends
//! the join.

use vstd::prelude::*;

use crate::actor::admission::BoardRecord;
use crate::actor::node::{Effect, NodeCore, PairSlot};
use crate::actor::routes::{self, board_routes, learned_anchors};
use crate::actor::{
    self, fault_of, JOIN_ADDRESS_PATIENCE_MILLIS, JOIN_ADDRESS_POLL_MILLIS,
};
use crate::api::{Fault, NodeEvent};
use crate::bootstrap::{self, BootstrapNode};
use crate::channel::state::{Admission, Genesis, JoinWitness};
use crate::error::Error;
use crate::hash::{same_digest, Digest32};
use crate::link::{self, b32, invite, scan, InviteLink};
use crate::table::Key;

verus! {

/// A member's address record on a board.
#[derive(Debug, PartialEq, Eq)]
pub struct MemberRecord {
    /// The member.
    pub author_id: Digest32,
    /// Where it is reached.
    pub endpoints: Vec<String>,
}

/// What a board holds for a channel.
#[derive(Debug, PartialEq, Eq)]
pub struct BoardSet {
    /// The genesis.
    pub genesis: Option<Genesis>,
    /// The members' addresses.
    pub members: Vec<MemberRecord>,
    /// The members' keys, with the evidence for them.
    pub bundles: Vec<BoardRecord>,
}

/// Where a join stands.
#[derive(Debug, Clone, Copy, PartialEq, Eq, Structural)]
pub enum JoinStage {
    /// A board is to be reached.
    Board,
    /// The board is to be read.
    Fetch,
    /// The responder's address is to be known.
    Address,
    /// The announcement is to be put on the board.
    OnBoard,
    /// The responder is to be reached.
    Reach,
    /// The exchange is to be run.
    Exchange,
    /// The channel is to be made.
    Local,
    /// How this node came to be a member is to be recorded.
    Record,
    /// The channel is to be taken up.
    TakeUp,
    /// The join is over.
    Over,
}

/// A join under way.
#[derive(Debug)]
pub struct JoinRun {
    /// Where it stands.
    pub stage: JoinStage,
    /// The link.
    pub link: InviteLink,
    /// This node.
    pub me: Digest32,
    /// Whose board was reached.
    pub board: Option<Digest32>,
    /// The genesis that the board holds.
    pub genesis: Option<Genesis>,
    /// Who is joined through.
    pub responder: Option<Digest32>,
    /// Where the responder is reached.
    pub endpoints: Vec<String>,
    /// The members' keys that the board holds.
    pub bundles: Vec<BoardRecord>,
}

/// Where the record of a member stands among some, if there is one.
pub open spec fn record_of(members: Seq<MemberRecord>, id: Digest32) -> Option<int>
    decreases members.len(),
{
    if members.len() == 0 {
        None
    } else {
        match record_of(members.drop_last(), id) {
            Some(i) => Some(i),
            None => if members.last().author_id == id {
                Some(members.len() - 1)
            } else {
                None
            },
        }
    }
}

/// The addresses that a board has for a member: none where it has no record.
pub open spec fn addresses_of(members: Seq<MemberRecord>, id: Digest32) -> Seq<Seq<char>> {
    match record_of(members, id) {
        Some(i) => scan::texts(members[i].endpoints@),
        None => Seq::empty(),
    }
}

proof fn lemma_record_stands(members: Seq<MemberRecord>, n: int, id: Digest32)
    requires
        0 <= n <= members.len(),
        record_of(members.take(n), id) is Some,
    ensures
        record_of(members, id) == record_of(members.take(n), id),
    decreases members.len() - n,
{
    if n < members.len() {
        assert(members.take(n + 1).drop_last() =~= members.take(n));
        lemma_record_stands(members, n + 1, id);
    } else {
        assert(members.take(n) =~= members);
    }
}

fn find_addresses(members: &Vec<MemberRecord>, id: &Digest32) -> (out: Vec<String>)
    ensures
        scan::texts(out@) == addresses_of(members@, *id),
{
    let mut i: usize = 0;
    assert(members@.take(0) =~= Seq::empty());
    while i < members.len()
        invariant
            i <= members@.len(),
            record_of(members@.take(i as int), *id) is None,
        decreases members@.len() - i,
    {
        proof {
            assert(members@.take(i + 1).drop_last() =~= members@.take(i as int));
            assert(members@.take(i + 1).last() == members@[i as int]);
        }
        if same_digest(&members[i].author_id, id) {
            proof {
                lemma_record_stands(members@, i + 1, *id);
            }
            return copy_texts(&members[i].endpoints);
        }
        i = i + 1;
    }
    assert(members@.take(i as int) =~= members@);
    let none: Vec<String> = Vec::new();
    assert(scan::texts(none@) =~= Seq::empty());
    none
}

fn copy_texts(v: &Vec<String>) -> (out: Vec<String>)
    ensures
        scan::texts(out@) == scan::texts(v@),
{
    let mut out: Vec<String> = Vec::new();
    let mut i: usize = 0;
    while i < v.len()
        invariant
            i <= v@.len(),
            out@.len() == i,
            forall|j: int| 0 <= j < i ==> (#[trigger] out@[j])@ == v@[j]@,
        decreases v@.len() - i,
    {
        out.push(v[i].clone());
        i = i + 1;
    }
    assert(scan::texts(out@) =~= scan::texts(v@));
    out
}

/// The member to join through: the one that the link pins, or else the first that the
/// board has an address for.
pub open spec fn responder_for(link: InviteLink, members: Seq<MemberRecord>) -> Option<Digest32> {
    match link.responder {
        Some(r) => Some(r),
        None => if members.len() > 0 {
            Some(members[0].author_id)
        } else {
            None
        },
    }
}

/// Whether a put on a board served its purpose. A refusal is fine: this node's previous
/// announcement is still there.
pub open spec fn announced(put: Result<(), Error>) -> bool {
    match put {
        Ok(_) => true,
        Err(Error::RendezvousRejected(_)) => true,
        Err(_) => false,
    }
}

fn announce(put: Result<(), Error>) -> (r: Result<(), Fault>)
    ensures
        match r {
            Ok(_) => announced(put),
            Err(f) => !announced(put) && f == actor::fault_for(put->Err_0),
        },
{
    match put {
        Ok(_) => Ok(()),
        Err(Error::RendezvousRejected(_)) => Ok(()),
        Err(e) => Err(fault_of(&e)),
    }
}

/// What follows a completed join: the reach is recomputed, the anchors are adopted, and
/// this node's records go on its own board, on the anchors' and, where the responder is
/// none, on the responder's.
pub open spec fn after_join(n: NodeCore, id: Digest32, responder: Digest32) -> Seq<Effect> {
    seq![
        Effect::RefreshReachers,
        Effect::AdoptAnchors(id),
        Effect::RefreshView,
        Effect::PublishLocally(id),
        Effect::PublishToAnchors(id),
    ] + (if n.anchor_ids.has(responder@) {
        Seq::empty()
    } else {
        seq![Effect::PublishTo(id, responder)]
    }) + seq![Effect::Emit(NodeEvent::Joined { channel_id: id, responder })]
}

impl JoinRun {
    /// Whether only the stage differs.
    pub open spec fn at(&self, before: JoinRun, stage: JoinStage) -> bool {
        *self == (JoinRun { stage, ..before })
    }

    /// Begins a join: the link must parse, the node must network with its prekeys at
    /// hand, and not hold the channel already. `parsed` is what each address in the link
    /// parses to. With the run come the ways to a board, in the order in which they are
    /// tried; `live` are the anchors this node is connected to.
    pub fn begin(
        n: &NodeCore,
        text: &str,
        parsed: &Vec<Option<String>>,
        me: Digest32,
        live: &Vec<Digest32>,
    ) -> (r: Result<(JoinRun, Vec<BootstrapNode>), Fault>)
        requires
            n.wf(),
        ensures
            match r {
                Ok((run, routes)) => {
                    let read = invite::link_read(text@, link::opt_texts(parsed@));
                    &&& invite::link_fault(text@, link::opt_texts(parsed@)) is None
                    &&& n.networked && n.prekeys && !n.channels.has(run.link.channel_id@)
                    &&& run.stage == JoinStage::Board
                    &&& run.link.wf()
                    &&& run.link.channel_id@ == b32::digest_of_b32(invite::id_part(text@))
                    &&& match run.link.responder {
                        Some(d) => read.responder == Some(d@),
                        None => read.responder is None,
                    }
                    &&& bootstrap::nodes_view(run.link.anchors@) == read.anchors
                    &&& run.me == me
                    &&& run.board is None && run.genesis is None && run.responder is None
                    &&& run.endpoints@.len() == 0 && run.bundles@.len() == 0
                    &&& bootstrap::nodes_view(routes@) == routes::routes_of(
                        read.anchors,
                        bootstrap::nodes_view(n.anchors.nodes@),
                        live@,
                        me@,
                    )
                },
                Err(f) => match invite::link_fault(text@, link::opt_texts(parsed@)) {
                    Some(e) => f == actor::fault_for(e),
                    None => if !n.networked || !n.prekeys {
                        f == Fault::NotNetworked
                    } else {
                        f == Fault::IdentityExists && n.channels.has(
                            b32::digest_of_b32(invite::id_part(text@)),
                        )
                    },
                },
            },
    {
        let link: InviteLink = match InviteLink::parse(text, parsed) {
            Ok(l) => l,
            Err(e) => {
                return Err(fault_of(&e));
            },
        };
        if !n.networked || !n.prekeys {
            return Err(Fault::NotNetworked);
        }
        if n.channels.contains_key(&link.channel_id) {
            return Err(Fault::IdentityExists);
        }
        let routes: Vec<BootstrapNode> = board_routes(
            &link.anchors,
            &n.anchors.nodes,
            live,
            &me,
        );
        Ok(
            (
                JoinRun {
                    stage: JoinStage::Board,
                    link,
                    me,
                    board: None,
                    genesis: None,
                    responder: None,
                    endpoints: Vec::new(),
                    bundles: Vec::new(),
                },
                routes,
            ),
        )
    }

    /// Goes on once a board was reached, or none was for the whole time that one is
    /// looked for. Whoever serves it is treated as an anchor from here on.
    pub fn on_board(&mut self, n: &mut NodeCore, reached: Option<Digest32>) -> (r: Result<(), Fault>)
        requires
            old(self).stage == JoinStage::Board,
            old(n).wf(),
        ensures
            final(n).wf(),
            *final(n) == (NodeCore { anchor_ids: final(n).anchor_ids, ..*old(n) }),
            match reached {
                Some(peer) => {
                    &&& r is Ok
                    &&& *final(self) == (JoinRun {
                        stage: JoinStage::Fetch,
                        board: Some(peer),
                        ..*old(self)
                    })
                    &&& final(n).anchor_ids.map() == old(n).anchor_ids.map().insert(peer@, true)
                },
                None => {
                    &&& r == Err::<(), Fault>(Fault::Unreachable)
                    &&& final(self).at(*old(self), JoinStage::Over)
                    &&& final(n).anchor_ids == old(n).anchor_ids
                },
            },
    {
        match reached {
            Some(peer) => {
                n.anchor_ids.insert(peer, true);
                self.board = Some(peer);
                self.stage = JoinStage::Fetch;
                Ok(())
            },
            None => {
                self.stage = JoinStage::Over;
                Err(Fault::Unreachable)
            },
        }
    }

    /// What a board's records give a join.
    pub open spec fn fetching(
        before: JoinRun,
        after: JoinRun,
        fetched: Result<BoardSet, Error>,
        r: Result<(), Fault>,
    ) -> bool {
        match r {
            Ok(_) => {
                let set = fetched->Ok_0;
                &&& fetched is Ok && set.genesis is Some
                &&& responder_for(before.link, set.members@) is Some
                &&& after.stage == JoinStage::Address
                &&& after.genesis == set.genesis
                &&& after.responder == responder_for(before.link, set.members@)
                &&& scan::texts(after.endpoints@) == addresses_of(
                    set.members@,
                    after.responder->Some_0,
                )
                &&& after.link == before.link && after.me == before.me && after.board
                    == before.board
            },
            Err(f) => {
                &&& after.at(before, JoinStage::Over)
                &&& match fetched {
                    Err(e) => f == actor::fault_for(e),
                    Ok(set) => (set.genesis is None || responder_for(before.link, set.members@)
                        is None) && f == Fault::BadLink,
                }
            },
        }
    }

    /// Goes on once the board was read: it must hold the genesis, and name a member to
    /// join through.
    pub fn on_fetched(&mut self, fetched: Result<BoardSet, Error>) -> (r: Result<(), Fault>)
        requires
            old(self).stage == JoinStage::Fetch,
        ensures
            JoinRun::fetching(*old(self), *final(self), fetched, r),
            match r {
                Ok(_) => {
                    let set = fetched->Ok_0;
                    &&& fetched is Ok && set.genesis is Some
                    &&& responder_for(old(self).link, set.members@) is Some
                    &&& *final(self) == (JoinRun {
                        stage: JoinStage::Address,
                        genesis: set.genesis,
                        responder: responder_for(old(self).link, set.members@),
                        endpoints: final(self).endpoints,
                        bundles: set.bundles,
                        ..*old(self)
                    })
                    &&& scan::texts(final(self).endpoints@) == addresses_of(
                        set.members@,
                        final(self).responder->Some_0,
                    )
                },
                Err(f) => {
                    &&& final(self).at(*old(self), JoinStage::Over)
                    &&& match fetched {
                        Err(e) => f == actor::fault_for(e),
                        Ok(set) => (set.genesis is None || responder_for(
                            old(self).link,
                            set.members@,
                        ) is None) && f == Fault::BadLink,
                    }
                },
            },
    {
        self.stage = JoinStage::Over;
        let set: BoardSet = match fetched {
            Ok(s) => s,
            Err(e) => {
                return Err(fault_of(&e));
            },
        };
        if set.genesis.is_none() {
            return Err(Fault::BadLink);
        }
        let responder: Digest32 = match self.link.responder {
            Some(d) => d,
            None => {
                if set.members.len() == 0 {
                    return Err(Fault::BadLink);
                }
                set.members[0].author_id
            },
        };
        self.endpoints = find_addresses(&set.members, &responder);
        self.responder = Some(responder);
        self.genesis = set.genesis;
        self.bundles = set.bundles;
        self.stage = JoinStage::Address;
        Ok(())
    }

    /// Whether the responder's address is not known yet: its key may have reached the
    /// board before its address did, and an address one does not know is not one that
    /// does not exist. The board is asked again until it is known or the patience is
    /// over.
    pub fn lacks_address(&self) -> (r: bool)
        requires
            self.stage == JoinStage::Address,
            self.responder is Some,
        ensures
            r == (self.endpoints@.len() == 0 && self.board != self.responder),
    {
        match self.responder {
            Some(d) => {
                let here: bool = match self.board {
                    Some(b) => same_digest(&b, &d),
                    None => false,
                };
                self.endpoints.len() == 0 && !here
            },
            None => false,
        }
    }

    /// Takes another reading of the board. Where it has the responder's address, that
    /// and everything that arrived with it is taken; the result says so.
    pub fn on_polled(&mut self, fetched: Result<BoardSet, Error>) -> (found: bool)
        requires
            old(self).stage == JoinStage::Address,
            old(self).responder is Some,
        ensures
            found == (fetched is Ok && addresses_of(
                fetched->Ok_0.members@,
                old(self).responder->Some_0,
            ).len() > 0),
            if found {
                &&& *final(self) == (JoinRun {
                    endpoints: final(self).endpoints,
                    bundles: fetched->Ok_0.bundles,
                    ..*old(self)
                })
                &&& scan::texts(final(self).endpoints@) == addresses_of(
                    fetched->Ok_0.members@,
                    old(self).responder->Some_0,
                )
            } else {
                *final(self) == *old(self)
            },
    {
        match (fetched, self.responder) {
            (Ok(set), Some(d)) => {
                let endpoints: Vec<String> = find_addresses(&set.members, &d);
                assert(scan::texts(endpoints@).len() == endpoints@.len());
                if endpoints.len() == 0 {
                    return false;
                }
                self.endpoints = endpoints;
                self.bundles = set.bundles;
                true
            },
            _ => false,
        }
    }

    /// Goes on with the announcement that makes this node eligible. It is made before
    /// the responder is reached for: on the anchor it is what lets the anchor help, and
    /// on the responder what authorizes the join. `record` is the signed record.
    pub fn on_announcement(&mut self, n: &NodeCore, record: Result<(), Error>) -> (r: Result<
        (),
        Fault,
    >)
        requires
            old(self).stage == JoinStage::Address,
        ensures
            match r {
                Ok(_) => n.identity && n.unlocked && n.prekeys && record is Ok && final(self).at(
                    *old(self),
                    JoinStage::OnBoard,
                ),
                Err(f) => {
                    &&& final(self).at(*old(self), JoinStage::Over)
                    &&& if !n.identity {
                        f == Fault::NoIdentity
                    } else if !n.unlocked {
                        f == Fault::Locked
                    } else if !n.prekeys {
                        f == Fault::NotNetworked
                    } else {
                        record is Err && f == actor::fault_for(record->Err_0)
                    }
                },
            },
    {
        self.stage = JoinStage::Over;
        if !n.identity {
            return Err(Fault::NoIdentity);
        }
        if !n.unlocked {
            return Err(Fault::Locked);
        }
        if !n.prekeys {
            return Err(Fault::NotNetworked);
        }
        match record {
            Ok(_) => {},
            Err(e) => {
                return Err(fault_of(&e));
            },
        }
        self.stage = JoinStage::OnBoard;
        Ok(())
    }

    /// Goes on once the announcement was put on the board. Where the board is the
    /// responder's own, the exchange is run there.
    pub fn on_put(&mut self, put: Result<(), Error>) -> (r: Result<(), Fault>)
        requires
            old(self).stage == JoinStage::OnBoard,
            old(self).responder is Some,
        ensures
            match r {
                Ok(_) => announced(put) && final(self).at(
                    *old(self),
                    if old(self).board == old(self).responder {
                        JoinStage::Exchange
                    } else {
                        JoinStage::Reach
                    },
                ),
                Err(f) => !announced(put) && f == actor::fault_for(put->Err_0) && final(self).at(
                    *old(self),
                    JoinStage::Over,
                ),
            },
    {
        self.stage = JoinStage::Over;
        announce(put)?;
        let here: bool = match (self.board, self.responder) {
            (Some(b), Some(d)) => same_digest(&b, &d),
            _ => false,
        };
        self.stage = if here {
            JoinStage::Exchange
        } else {
            JoinStage::Reach
        };
        Ok(())
    }

    /// Goes on once the responder was reached and the announcement put on its board.
    pub fn on_reached(&mut self, dialled: Result<(), Error>, put: Result<(), Error>) -> (r: Result<
        (),
        Fault,
    >)
        requires
            old(self).stage == JoinStage::Reach,
        ensures
            match r {
                Ok(_) => dialled is Ok && announced(put) && final(self).at(
                    *old(self),
                    JoinStage::Exchange,
                ),
                Err(f) => {
                    &&& final(self).at(*old(self), JoinStage::Over)
                    &&& match dialled {
                        Err(e) => f == actor::fault_for(e),
                        Ok(_) => !announced(put) && f == actor::fault_for(put->Err_0),
                    }
                },
            },
    {
        self.stage = JoinStage::Over;
        match dialled {
            Ok(_) => {},
            Err(e) => {
                return Err(fault_of(&e));
            },
        }
        announce(put)?;
        self.stage = JoinStage::Exchange;
        Ok(())
    }

    /// Goes on once the exchange was run. `params` says whether the genesis gives join
    /// parameters, `joined` is the responder's witness to the join: what this node will
    /// show for its membership from here on.
    pub fn on_exchanged(
        &mut self,
        n: &NodeCore,
        params: Result<(), Error>,
        joined: Result<JoinWitness, Error>,
    ) -> (r: Result<Admission, Fault>)
        requires
            old(self).stage == JoinStage::Exchange,
        ensures
            match r {
                Ok(a) => {
                    &&& n.identity && n.unlocked && params is Ok && joined is Ok
                    &&& a == Admission::Witnessed(joined->Ok_0)
                    &&& final(self).at(*old(self), JoinStage::Local)
                },
                Err(f) => {
                    &&& final(self).at(*old(self), JoinStage::Over)
                    &&& if !n.identity {
                        f == Fault::NoIdentity
                    } else if !n.unlocked {
                        f == Fault::Locked
                    } else {
                        match params {
                            Err(e) => f == actor::fault_for(e),
                            Ok(_) => joined is Err && f == actor::fault_for(joined->Err_0),
                        }
                    }
                },
            },
    {
        self.stage = JoinStage::Over;
        if !n.identity {
            return Err(Fault::NoIdentity);
        }
        if !n.unlocked {
            return Err(Fault::Locked);
        }
        match params {
            Ok(_) => {},
            Err(e) => {
                return Err(fault_of(&e));
            },
        }
        match joined {
            Ok(w) => {
                self.stage = JoinStage::Local;
                Ok(Admission::Witnessed(w))
            },
            Err(e) => Err(fault_of(&e)),
        }
    }

    /// Goes on once the channel was made here: it is held from now on. `made` is its
    /// epoch.
    pub fn on_made(&mut self, n: &mut NodeCore, made: Result<u64, Error>) -> (r: Result<(), Fault>)
        requires
            old(self).stage == JoinStage::Local,
            old(n).wf(),
            made is Ok ==> old(n).unlocked,
        ensures
            final(n).wf(),
            match r {
                Ok(_) => {
                    &&& old(n).identity && made is Ok
                    &&& final(n).holding(*old(n), old(self).link.channel_id, made->Ok_0)
                    &&& final(self).at(*old(self), JoinStage::Record)
                },
                Err(f) => {
                    &&& *final(n) == *old(n)
                    &&& final(self).at(*old(self), JoinStage::Over)
                    &&& if !old(n).identity {
                        f == Fault::NoIdentity
                    } else {
                        made is Err && f == actor::fault_for(made->Err_0)
                    }
                },
            },
    {
        self.stage = JoinStage::Over;
        if !n.identity {
            return Err(Fault::NoIdentity);
        }
        match made {
            Ok(epoch) => {
                n.hold(self.link.channel_id, epoch);
                self.stage = JoinStage::Record;
                Ok(())
            },
            Err(e) => Err(fault_of(&e)),
        }
    }

    /// Goes on once the witness to this join was written. A node that lost it could
    /// publish nothing, and would fall off every board.
    pub fn on_recorded(&mut self, recorded: Result<(), Error>) -> (r: Result<(), Fault>)
        requires
            old(self).stage == JoinStage::Record,
        ensures
            match recorded {
                Ok(_) => r is Ok && final(self).at(*old(self), JoinStage::TakeUp),
                Err(e) => r == Err::<(), Fault>(actor::fault_for(e)) && final(self).at(
                    *old(self),
                    JoinStage::Over,
                ),
            },
    {
        self.stage = JoinStage::Over;
        match recorded {
            Ok(_) => {
                self.stage = JoinStage::TakeUp;
                Ok(())
            },
            Err(e) => Err(fault_of(&e)),
        }
    }

    /// Takes the channel up, once the members on the board were admitted on their
    /// evidence: the session with the responder is kept, and the link's anchors become
    /// the channel's. The result are the effects and those anchors.
    pub fn take_up(&mut self, n: &mut NodeCore) -> (r: (Vec<Effect>, Vec<BootstrapNode>))
        requires
            old(self).stage == JoinStage::TakeUp,
            old(self).responder is Some,
            old(n).wf(),
            old(n).unlocked,
        ensures
            final(self).at(*old(self), JoinStage::Over),
            final(n).wf(),
            *final(n) == (NodeCore { sessions: final(n).sessions, ..*old(n) }),
            final(n).sessions.map() == old(n).sessions.map().insert(
                PairSlot {
                    channel_id: old(self).link.channel_id,
                    peer: old(self).responder->Some_0,
                }.key_bytes(),
                true,
            ),
            r.0@ == after_join(*old(n), old(self).link.channel_id, old(self).responder->Some_0),
            bootstrap::nodes_view(r.1@) == routes::gather(
                routes::gather(
                    Seq::empty(),
                    routes::others(
                        bootstrap::nodes_view(old(self).link.anchors@),
                        old(self).me@,
                    ),
                ),
                bootstrap::nodes_view(old(n).anchors.nodes@),
            ),
    {
        self.stage = JoinStage::Over;
        let id: Digest32 = self.link.channel_id;
        let mut effects: Vec<Effect> = Vec::new();
        effects.push(Effect::RefreshReachers);
        match self.responder {
            Some(responder) => {
                let anchor: bool = n.anchor_ids.contains_key(&responder);
                n.sessions.insert(PairSlot { channel_id: id, peer: responder }, true);
                effects.push(Effect::AdoptAnchors(id));
                effects.push(Effect::RefreshView);
                effects.push(Effect::PublishLocally(id));
                effects.push(Effect::PublishToAnchors(id));
                if !anchor {
                    effects.push(Effect::PublishTo(id, responder));
                }
                effects.push(Effect::Emit(NodeEvent::Joined { channel_id: id, responder }));
                assert(effects@ =~= after_join(*old(n), id, responder));
            },
            None => {},
        }
        let anchors: Vec<BootstrapNode> = learned_anchors(
            &self.link.anchors,
            &n.anchors.nodes,
            &self.me,
        );
        (effects, anchors)
    }
}

/// Joining releases no sender key: a joiner becomes readable only by an act of its own.
pub proof fn law_joining_releases_no_key(n: NodeCore, id: Digest32, responder: Digest32, i: int)
    requires
        0 <= i < after_join(n, id, responder).len(),
    ensures
        !(after_join(n, id, responder)[i] is DeliverConsents),
        !(after_join(n, id, responder)[i] is DeliverRekeys),
{
}

// ---- waiting for an address --------------------------------------------------

/// A wait for the responder's address to reach the board, until the patience is over.
#[derive(Debug, Clone, Copy, PartialEq, Eq)]
pub struct AddressWait {
    /// When to give up, in milliseconds.
    pub deadline: u64,
}

impl AddressWait {
    /// Begins to wait.
    pub fn begin(now: u64) -> (w: AddressWait)
        ensures
            w.deadline == (if now + JOIN_ADDRESS_PATIENCE_MILLIS > u64::MAX {
                u64::MAX
            } else {
                (now + JOIN_ADDRESS_PATIENCE_MILLIS) as u64
            }),
    {
        let deadline: u64 = if now > u64::MAX - JOIN_ADDRESS_PATIENCE_MILLIS {
            u64::MAX
        } else {
            now + JOIN_ADDRESS_PATIENCE_MILLIS
        };
        AddressWait { deadline }
    }

    /// How long to pause before the board is asked again, in milliseconds; `None` where it is
    /// not asked again: the address is known, or is not needed, or the time is up.
    pub fn pause(&self, run: &JoinRun, now: u64) -> (r: Option<u64>)
        requires
            run.stage == JoinStage::Address,
            run.responder is Some,
        ensures
            r == (if run.endpoints@.len() == 0 && run.board != run.responder && now
                < self.deadline {
                Some(JOIN_ADDRESS_POLL_MILLIS)
            } else {
                None
            }),
    {
        if run.lacks_address() && now < self.deadline {
            Some(JOIN_ADDRESS_POLL_MILLIS)
        } else {
            None
        }
    }
}

} // verus!
