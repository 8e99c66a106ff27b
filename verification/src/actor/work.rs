//! What commands do to the node.

use vstd::prelude::*;
use vstd::utf8::*;

use crate::actor::node::{Effect, NodeCore};
use crate::actor::routes::{self, invite_anchors};
use crate::actor::{self, fault_of};
use crate::api::{Fault, ForwardInfo, MessageRow, NodeCommand, NodeEvent, Outcome};
use crate::bootstrap::{self, BootstrapNode};
use crate::error::Error;
use crate::hash::Digest32;
use crate::link::{self, invite, vox_hostname, InviteLink};

verus! {

/// What follows once a channel is held: its anchors are adopted, the members and the
/// records published, and the clients told.
pub open spec fn after_opening(id: Digest32) -> Seq<Effect> {
    seq![
        Effect::AdoptAnchors(id),
        Effect::RefreshView,
        Effect::PublishLocally(id),
        Effect::PublishToAnchors(id),
        Effect::Emit(NodeEvent::ChannelOpened { channel_id: id }),
    ]
}

fn opening(id: Digest32) -> (effects: Vec<Effect>)
    ensures
        effects@ == after_opening(id),
{
    let mut effects: Vec<Effect> = Vec::new();
    effects.push(Effect::AdoptAnchors(id));
    effects.push(Effect::RefreshView);
    effects.push(Effect::PublishLocally(id));
    effects.push(Effect::PublishToAnchors(id));
    effects.push(Effect::Emit(NodeEvent::ChannelOpened { channel_id: id }));
    assert(effects@ =~= after_opening(id));
    effects
}

/// The answer that an error comes back as.
pub open spec fn failed(e: Error) -> Outcome {
    Outcome::Failed(actor::fault_for(e))
}

/// The channels with an append to push once one was made in a channel. Nothing is pushed
/// while the network is down.
pub open spec fn pushed(n: NodeCore, id: Digest32) -> Map<Seq<u8>, bool> {
    if n.networked {
        n.pending_push.map().insert(id@, true)
    } else {
        n.pending_push.map()
    }
}

impl NodeCore {
    /// Whether a channel is open.
    pub open spec fn has_open(&self, id: Digest32) -> bool {
        self.channels.has(id@)
    }

    /// Whether a channel is open.
    pub fn is_open(&self, id: &Digest32) -> (r: bool)
        requires
            self.wf(),
        ensures
            r == self.has_open(*id),
    {
        self.channels.contains_key(id)
    }

    /// The state with one more channel open.
    pub open spec fn holding(&self, before: NodeCore, id: Digest32, epoch: u64) -> bool {
        &&& *self == (NodeCore {
            channels: self.channels,
            ..before
        })
        &&& self.channels.map() == before.channels.map().insert(id@, epoch)
    }

    pub(crate) fn hold(&mut self, id: Digest32, epoch: u64)
        requires
            old(self).wf(),
            old(self).unlocked,
        ensures
            final(self).wf(),
            final(self).holding(*old(self), id, epoch),
    {
        self.channels.insert(id, epoch);
    }

    /// Creates a channel. `created` is the channel that was made, with its epoch.
    pub fn create_channel(&mut self, created: Result<(Digest32, u64), Error>) -> (r: (
        Outcome,
        Vec<Effect>,
    ))
        requires
            old(self).wf(),
            created is Ok ==> old(self).unlocked,
        ensures
            final(self).wf(),
            if !old(self).identity {
                r.0 == Outcome::Failed(Fault::NoIdentity) && r.1@.len() == 0 && *final(self)
                    == *old(self)
            } else {
                match created {
                    Ok((id, epoch)) => r.0 == Outcome::Done && r.1@ == after_opening(id)
                        && final(self).holding(*old(self), id, epoch),
                    Err(e) => r.0 == failed(e) && r.1@.len() == 0 && *final(self) == *old(self),
                }
            },
    {
        if !self.identity {
            return (Outcome::Failed(Fault::NoIdentity), Vec::new());
        }
        match created {
            Ok((id, epoch)) => {
                self.hold(id, epoch);
                (Outcome::Done, opening(id))
            },
            Err(e) => (Outcome::Failed(fault_of(&e)), Vec::new()),
        }
    }

    /// Creates a service room and offers its one service. The two are one act: a room
    /// whose service cannot be offered is not kept, in memory or in the store.
    pub fn serve_room(
        &mut self,
        created: Result<(Digest32, u64), Error>,
        offered: Result<(), Error>,
    ) -> (r: (Outcome, Vec<Effect>))
        requires
            old(self).wf(),
            created is Ok ==> old(self).unlocked,
        ensures
            final(self).wf(),
            if !old(self).identity {
                r.0 == Outcome::Failed(Fault::NoIdentity) && r.1@.len() == 0 && *final(self)
                    == *old(self)
            } else {
                match created {
                    Err(e) => r.0 == failed(e) && r.1@.len() == 0 && *final(self) == *old(self),
                    Ok((id, epoch)) => match offered {
                        Err(e) => r.0 == failed(e) && r.1@ == seq![Effect::DropChannel(id)]
                            && *final(self) == *old(self),
                        Ok(_) => r.0 == Outcome::Done && r.1@ == after_opening(id)
                            && final(self).holding(*old(self), id, epoch),
                    },
                }
            },
    {
        if !self.identity {
            return (Outcome::Failed(Fault::NoIdentity), Vec::new());
        }
        match created {
            Ok((id, epoch)) => match offered {
                Ok(_) => {
                    self.hold(id, epoch);
                    (Outcome::Done, opening(id))
                },
                Err(e) => {
                    let mut effects: Vec<Effect> = Vec::new();
                    effects.push(Effect::DropChannel(id));
                    assert(effects@ =~= seq![Effect::DropChannel(id)]);
                    (Outcome::Failed(fault_of(&e)), effects)
                },
            },
            Err(e) => (Outcome::Failed(fault_of(&e)), Vec::new()),
        }
    }

    /// Opens a channel. `opened` is its epoch, once it was unsealed. Opening an open
    /// channel changes nothing.
    pub fn open_channel(&mut self, id: Digest32, opened: Result<u64, Error>) -> (r: (
        Outcome,
        Vec<Effect>,
    ))
        requires
            old(self).wf(),
            opened is Ok ==> old(self).unlocked,
        ensures
            final(self).wf(),
            if old(self).has_open(id) {
                r.0 == Outcome::Done && r.1@.len() == 0 && *final(self) == *old(self)
            } else if !old(self).identity {
                r.0 == Outcome::Failed(Fault::NoIdentity) && r.1@.len() == 0 && *final(self)
                    == *old(self)
            } else {
                match opened {
                    Ok(epoch) => r.0 == Outcome::Done && r.1@ == after_opening(id)
                        && final(self).holding(*old(self), id, epoch),
                    Err(e) => r.0 == failed(e) && r.1@.len() == 0 && *final(self) == *old(self),
                }
            },
    {
        if self.channels.contains_key(&id) {
            return (Outcome::Done, Vec::new());
        }
        if !self.identity {
            return (Outcome::Failed(Fault::NoIdentity), Vec::new());
        }
        match opened {
            Ok(epoch) => {
                self.hold(id, epoch);
                (Outcome::Done, opening(id))
            },
            Err(e) => (Outcome::Failed(fault_of(&e)), Vec::new()),
        }
    }

    /// Closes an open channel: it is wiped, and gone from what the board reads.
    pub fn close_channel(&mut self, id: Digest32) -> (r: (Outcome, Vec<Effect>))
        requires
            old(self).wf(),
        ensures
            final(self).wf(),
            *final(self) == (NodeCore { channels: final(self).channels, ..*old(self) }),
            final(self).channels.map() == old(self).channels.map().remove(id@),
            if old(self).has_open(id) {
                r.0 == Outcome::Done && r.1@ == seq![Effect::LockChannel(id)] + (if old(self).networked {
                    seq![Effect::ForgetMembers(id)]
                } else {
                    Seq::empty()
                }) + seq![
                    Effect::RefreshView,
                    Effect::Emit(NodeEvent::ChannelClosed { channel_id: id }),
                ]
            } else {
                r.0 == Outcome::Failed(Fault::ChannelNotOpen) && r.1@.len() == 0
            },
    {
        let mut effects: Vec<Effect> = Vec::new();
        if !self.channels.remove(&id) {
            return (Outcome::Failed(Fault::ChannelNotOpen), effects);
        }
        effects.push(Effect::LockChannel(id));
        if self.networked {
            effects.push(Effect::ForgetMembers(id));
        }
        effects.push(Effect::RefreshView);
        effects.push(Effect::Emit(NodeEvent::ChannelClosed { channel_id: id }));
        assert(effects@ =~= seq![Effect::LockChannel(id)] + (if old(self).networked {
            seq![Effect::ForgetMembers(id)]
        } else {
            Seq::empty()
        }) + seq![
            Effect::RefreshView,
            Effect::Emit(NodeEvent::ChannelClosed { channel_id: id }),
        ]);
        (Outcome::Done, effects)
    }

    // ---- services and tunnels ----------------------------------------------------

    /// Offers a service in an open channel. `added` says whether the channel took it.
    pub fn add_service(&self, id: &Digest32, added: Result<(), Error>) -> (outcome: Outcome)
        requires
            self.wf(),
        ensures
            outcome == (if !self.identity {
                Outcome::Failed(Fault::NoIdentity)
            } else if !self.has_open(*id) {
                Outcome::Failed(Fault::ChannelNotOpen)
            } else {
                match added {
                    Ok(_) => Outcome::Done,
                    Err(e) => failed(e),
                }
            }),
    {
        if !self.identity {
            return Outcome::Failed(Fault::NoIdentity);
        }
        if !self.channels.contains_key(id) {
            return Outcome::Failed(Fault::ChannelNotOpen);
        }
        match added {
            Ok(_) => Outcome::Done,
            Err(e) => Outcome::Failed(fault_of(&e)),
        }
    }

    /// Stops offering a service. `removed` says whether it was offered.
    pub fn remove_service(&self, id: &Digest32, removed: Result<bool, Error>) -> (outcome: Outcome)
        requires
            self.wf(),
        ensures
            outcome == (if !self.identity {
                Outcome::Failed(Fault::NoIdentity)
            } else if !self.has_open(*id) {
                Outcome::Failed(Fault::ChannelNotOpen)
            } else {
                match removed {
                    Ok(true) => Outcome::Done,
                    Ok(false) => Outcome::Failed(Fault::UnknownChannel),
                    Err(e) => failed(e),
                }
            }),
    {
        if !self.identity {
            return Outcome::Failed(Fault::NoIdentity);
        }
        if !self.channels.contains_key(id) {
            return Outcome::Failed(Fault::ChannelNotOpen);
        }
        match removed {
            Ok(gone) => if gone {
                Outcome::Done
            } else {
                Outcome::Failed(Fault::UnknownChannel)
            },
            Err(e) => Outcome::Failed(fault_of(&e)),
        }
    }

    /// Marks a channel as having a local append to push. Nothing is pushed while the
    /// network is down.
    pub fn note_local_append(&mut self, id: Digest32) -> (effects: Vec<Effect>)
        requires
            old(self).wf(),
        ensures
            final(self).wf(),
            *final(self) == (NodeCore { pending_push: final(self).pending_push, ..*old(self) }),
            if old(self).networked {
                effects@ == seq![Effect::PushAppend]
                    && final(self).pending_push.map() == old(self).pending_push.map().insert(id@, true)
            } else {
                effects@.len() == 0 && final(self).pending_push == old(self).pending_push
            },
    {
        let mut effects: Vec<Effect> = Vec::new();
        if !self.networked {
            return effects;
        }
        self.pending_push.insert(id, true);
        effects.push(Effect::PushAppend);
        assert(effects@ =~= seq![Effect::PushAppend]);
        effects
    }

    /// Grants a member a tunnel capability in an open channel. The member must be an
    /// admitted author: a certificate for an identity that the channel does not know
    /// could never be verified. `granted` says whether the certificate is on the log.
    pub fn grant_tunnel(&mut self, id: Digest32, is_author: bool, granted: Result<(), Error>) -> (r: (
        Outcome,
        Vec<Effect>,
    ))
        requires
            old(self).wf(),
        ensures
            final(self).wf(),
            r.0 == (if !old(self).identity {
                Outcome::Failed(Fault::NoIdentity)
            } else if !old(self).has_open(id) {
                Outcome::Failed(Fault::ChannelNotOpen)
            } else if !is_author {
                Outcome::Failed(Fault::UnknownChannel)
            } else {
                match granted {
                    Ok(_) => Outcome::Done,
                    Err(e) => failed(e),
                }
            }),
            if r.0 is Done && old(self).networked {
                r.1@ == seq![Effect::PushAppend]
                    && final(self).pending_push.map() == old(self).pending_push.map().insert(id@, true)
            } else {
                r.1@.len() == 0 && final(self).pending_push == old(self).pending_push
            },
            *final(self) == (NodeCore { pending_push: final(self).pending_push, ..*old(self) }),
    {
        if !self.identity {
            return (Outcome::Failed(Fault::NoIdentity), Vec::new());
        }
        if !self.channels.contains_key(&id) {
            return (Outcome::Failed(Fault::ChannelNotOpen), Vec::new());
        }
        if !is_author {
            return (Outcome::Failed(Fault::UnknownChannel), Vec::new());
        }
        match granted {
            Ok(_) => {
                let effects: Vec<Effect> = self.note_local_append(id);
                (Outcome::Done, effects)
            },
            Err(e) => (Outcome::Failed(fault_of(&e)), Vec::new()),
        }
    }

    /// Whether a forward may be made, before anything is dialled: the channel is open,
    /// and the local address is loopback. A forward hands whoever reaches it this node's
    /// own membership of the room.
    pub fn may_forward(&self, id: &Digest32, loopback: bool) -> (r: Result<(), Fault>)
        requires
            self.wf(),
        ensures
            r == (if !self.has_open(*id) {
                Err::<(), Fault>(Fault::ChannelNotOpen)
            } else if !loopback {
                Err::<(), Fault>(Fault::NotLoopback)
            } else {
                Ok::<(), Fault>(())
            }),
    {
        if !self.channels.contains_key(id) {
            return Err(Fault::ChannelNotOpen);
        }
        if !loopback {
            return Err(Fault::NotLoopback);
        }
        Ok(())
    }

    /// Takes up a forward. `dialled` says whether the member was reached, `bound` what
    /// the forward is, once its port was bound.
    pub fn forward(
        &mut self,
        id: &Digest32,
        loopback: bool,
        dialled: Result<(), Error>,
        bound: Result<ForwardInfo, Error>,
    ) -> (r: (Outcome, Option<NodeEvent>))
        requires
            old(self).wf(),
        ensures
            final(self).wf(),
            *final(self) == (NodeCore { forwards: final(self).forwards, ..*old(self) }),
            r.0 == (if !old(self).has_open(*id) {
                Outcome::Failed(Fault::ChannelNotOpen)
            } else if !loopback {
                Outcome::Failed(Fault::NotLoopback)
            } else {
                match dialled {
                    Err(e) => failed(e),
                    Ok(_) => match bound {
                        Err(e) => failed(e),
                        Ok(_) => Outcome::Done,
                    },
                }
            }),
            if r.0 is Done {
                let f = bound->Ok_0;
                &&& final(self).forwards.map() == old(self).forwards.map().insert(
                    encode_utf8(f.local@),
                    f,
                )
                &&& r.1 matches Some(NodeEvent::Forwarding { channel_id, host, service_tag, local })
                &&& channel_id == f.channel_id && host == f.host && service_tag@ == f.service_tag@
                    && local@ == f.local@
            } else {
                r.1 is None && final(self).forwards == old(self).forwards
            },
    {
        match self.may_forward(id, loopback) {
            Ok(_) => {},
            Err(f) => {
                return (Outcome::Failed(f), None);
            },
        }
        match dialled {
            Ok(_) => {},
            Err(e) => {
                return (Outcome::Failed(fault_of(&e)), None);
            },
        }
        match bound {
            Ok(f) => {
                let ev: NodeEvent = NodeEvent::Forwarding {
                    channel_id: f.channel_id,
                    host: f.host,
                    service_tag: f.service_tag.clone(),
                    local: f.local.clone(),
                };
                self.forwards.insert(f.local.clone(), f);
                (Outcome::Done, Some(ev))
            },
            Err(e) => (Outcome::Failed(fault_of(&e)), None),
        }
    }

    /// Stops a forward and releases its port.
    pub fn stop_forward(&mut self, local: &String) -> (outcome: Outcome)
        requires
            old(self).wf(),
        ensures
            final(self).wf(),
            *final(self) == (NodeCore { forwards: final(self).forwards, ..*old(self) }),
            final(self).forwards.map() == old(self).forwards.map().remove(encode_utf8(local@)),
            outcome == (if old(self).forwards.has(encode_utf8(local@)) {
                Outcome::Done
            } else {
                Outcome::Failed(Fault::UnknownChannel)
            }),
    {
        if self.forwards.remove(local) {
            Outcome::Done
        } else {
            Outcome::Failed(Fault::UnknownChannel)
        }
    }

    /// Brings up the local entry point of a room. `named` says whether the room's genesis
    /// gives it a hostname, `bound` whether the port could be bound, and `local` where.
    pub fn bring_up(
        &self,
        id: Digest32,
        named: bool,
        bound: Result<(), Error>,
        local: Option<String>,
    ) -> (r: (Outcome, Option<NodeEvent>))
        requires
            self.wf(),
        ensures
            r.0 == (if !self.has_open(id) {
                Outcome::Failed(Fault::ChannelNotOpen)
            } else if !named {
                Outcome::Failed(Fault::Refused)
            } else if !self.networked {
                Outcome::Failed(Fault::NotNetworked)
            } else if bound is Err {
                Outcome::Failed(Fault::Unreachable)
            } else if local is None {
                Outcome::Failed(Fault::Internal)
            } else {
                Outcome::Done
            }),
            if r.0 is Done {
                &&& r.1 matches Some(NodeEvent::ProxyUp { channel_id, hostname, bind })
                &&& channel_id == id && hostname@ == link::hostname_of(id@) && bind@
                    == local->Some_0@
            } else {
                r.1 is None
            },
    {
        if !self.channels.contains_key(&id) {
            return (Outcome::Failed(Fault::ChannelNotOpen), None);
        }
        if !named {
            return (Outcome::Failed(Fault::Refused), None);
        }
        if !self.networked {
            return (Outcome::Failed(Fault::NotNetworked), None);
        }
        match bound {
            Ok(_) => {},
            Err(_) => {
                return (Outcome::Failed(Fault::Unreachable), None);
            },
        }
        match local {
            Some(bind) => (
                Outcome::Done,
                Some(NodeEvent::ProxyUp { channel_id: id, hostname: vox_hostname(&id), bind }),
            ),
            None => (Outcome::Failed(Fault::Internal), None),
        }
    }

    /// Produces an invite link for an open channel. `channel` are the channel's anchors,
    /// `own` this node with its endpoints, `me` its identity, which the link pins.
    pub fn invite(
        &self,
        id: Digest32,
        channel: &Vec<BootstrapNode>,
        own: Option<BootstrapNode>,
        me: Digest32,
    ) -> (r: (Outcome, Option<NodeEvent>))
        requires
            self.wf(),
        ensures
            ({
                let through = routes::invited_through(
                    bootstrap::nodes_view(channel@),
                    bootstrap::nodes_view(self.anchors.nodes@),
                    match own {
                        Some(n) => Some(n@),
                        None => None,
                    },
                );
                &&& r.0 == (if !self.networked {
                    Outcome::Failed(Fault::NotNetworked)
                } else if !self.has_open(id) {
                    Outcome::Failed(Fault::UnknownChannel)
                } else if through.len() == 0 || !invite::distinct(through) {
                    Outcome::Failed(Fault::BadLink)
                } else {
                    Outcome::Done
                })
                &&& if r.0 is Done {
                    &&& r.1 matches Some(NodeEvent::InviteLink { channel_id, url })
                    &&& channel_id == id
                    &&& exists|l: InviteLink|
                        l.channel_id == id && l.responder == Some(me) && bootstrap::nodes_view(
                            l.anchors@,
                        ) == through && url@ == #[trigger] l.url()
                } else {
                    r.1 is None
                }
            }),
    {
        if !self.networked {
            return (Outcome::Failed(Fault::NotNetworked), None);
        }
        if !self.channels.contains_key(&id) {
            return (Outcome::Failed(Fault::UnknownChannel), None);
        }
        let anchors: Vec<BootstrapNode> = invite_anchors(channel, &self.anchors.nodes, own);
        let ghost through = bootstrap::nodes_view(anchors@);
        assert(through.len() == anchors@.len());
        match InviteLink::new(id, anchors, Some(me)) {
            Ok(l) => {
                let url: String = l.to_url();
                assert(bootstrap::nodes_view(l.anchors@) == through && url@ == l.url());
                (Outcome::Done, Some(NodeEvent::InviteLink { channel_id: id, url }))
            },
            Err(e) => (Outcome::Failed(fault_of(&e)), None),
        }
    }

    // ---- messages ----------------------------------------------------------------

    /// Reports a text that was authored in an open channel. `appended` is its row,
    /// `rotated` says whether the sender key reached its bound with it and was retired.
    /// A rotation that failed does not un-send the message.
    pub fn send_text(&mut self, id: Digest32, appended: Result<MessageRow, Error>, rotated: bool) -> (r: (
        Outcome,
        Vec<Effect>,
    ))
        requires
            old(self).wf(),
        ensures
            final(self).wf(),
            *final(self) == (NodeCore { pending_push: final(self).pending_push, ..*old(self) }),
            r.0 == (if !old(self).identity {
                Outcome::Failed(Fault::NoIdentity)
            } else if !old(self).has_open(id) {
                Outcome::Failed(Fault::ChannelNotOpen)
            } else {
                match appended {
                    Ok(_) => Outcome::Done,
                    Err(e) => failed(e),
                }
            }),
            if r.0 is Done {
                &&& r.1@ == seq![
                    Effect::Emit(NodeEvent::NewEntry { channel_id: id, row: appended->Ok_0 }),
                ] + (if old(self).networked {
                    seq![Effect::PushAppend]
                } else {
                    Seq::empty()
                }) + (if rotated {
                    seq![Effect::DeliverRekeys(id)]
                } else {
                    Seq::empty()
                })
                &&& final(self).pending_push.map() == pushed(*old(self), id)
            } else {
                r.1@.len() == 0 && *final(self) == *old(self)
            },
    {
        let mut effects: Vec<Effect> = Vec::new();
        if !self.identity {
            return (Outcome::Failed(Fault::NoIdentity), effects);
        }
        if !self.channels.contains_key(&id) {
            return (Outcome::Failed(Fault::ChannelNotOpen), effects);
        }
        match appended {
            Ok(row) => {
                effects.push(Effect::Emit(NodeEvent::NewEntry { channel_id: id, row }));
                let mut push: Vec<Effect> = self.note_local_append(id);
                effects.append(&mut push);
                if rotated {
                    effects.push(Effect::DeliverRekeys(id));
                }
                assert(effects@ =~= seq![
                    Effect::Emit(NodeEvent::NewEntry { channel_id: id, row }),
                ] + (if old(self).networked {
                    seq![Effect::PushAppend]
                } else {
                    Seq::empty()
                }) + (if rotated {
                    seq![Effect::DeliverRekeys(id)]
                } else {
                    Seq::empty()
                }));
                (Outcome::Done, effects)
            },
            Err(e) => (Outcome::Failed(fault_of(&e)), effects),
        }
    }

    /// Reports a revocation: the rotation and the log fact land first and
    /// unconditionally, the re-keys follow as members can be reached. `revoked` is the
    /// new generation. The result's number is that generation.
    pub fn revoke(&mut self, id: Digest32, target: &Digest32, revoked: Result<u64, Error>) -> (r: (
        Result<u64, Fault>,
        Vec<Effect>,
    ))
        requires
            old(self).wf(),
        ensures
            final(self).wf(),
            *final(self) == (NodeCore { pending_push: final(self).pending_push, ..*old(self) }),
            r.0 == (if old(self).trusted.has(target@) {
                Err::<u64, Fault>(Fault::StillTrusted)
            } else if !old(self).identity || !old(self).has_open(id) {
                Err::<u64, Fault>(Fault::UnknownChannel)
            } else {
                match revoked {
                    Ok(generation) => Ok::<u64, Fault>(generation),
                    Err(e) => Err::<u64, Fault>(actor::fault_for(e)),
                }
            }),
            if r.0 is Ok {
                &&& r.1@ == (if old(self).networked {
                    seq![Effect::PushAppend]
                } else {
                    Seq::empty()
                }) + seq![Effect::DeliverRekeys(id)]
                &&& final(self).pending_push.map() == pushed(*old(self), id)
            } else {
                r.1@.len() == 0 && *final(self) == *old(self)
            },
    {
        if self.trusted.contains_key(target) {
            return (Err(Fault::StillTrusted), Vec::new());
        }
        if !self.identity || !self.channels.contains_key(&id) {
            return (Err(Fault::UnknownChannel), Vec::new());
        }
        match revoked {
            Ok(generation) => {
                let mut effects: Vec<Effect> = self.note_local_append(id);
                effects.push(Effect::DeliverRekeys(id));
                assert(effects@ =~= (if old(self).networked {
                    seq![Effect::PushAppend]
                } else {
                    Seq::empty()
                }) + seq![Effect::DeliverRekeys(id)]);
                (Ok(generation), effects)
            },
            Err(e) => (Err(fault_of(&e)), Vec::new()),
        }
    }

    // ---- trust -------------------------------------------------------------------

    /// Trusts an identity node-wide. The keyring is written before it is adopted: one
    /// that did not survive a restart would consent anew on every start. `signer`,
    /// `named` and `saved` say whether the identity is unlocked, the petname is accepted
    /// and the keyring was written.
    pub fn trust_identity(
        &mut self,
        fingerprint: Digest32,
        petname: String,
        signer: Result<(), Error>,
        named: Result<(), Error>,
        saved: Result<(), Error>,
    ) -> (r: (Outcome, Vec<Effect>))
        requires
            old(self).wf(),
            signer is Ok ==> old(self).unlocked,
        ensures
            final(self).wf(),
            *final(self) == (NodeCore { trusted: final(self).trusted, ..*old(self) }),
            r.0 == (if !old(self).identity {
                Outcome::Failed(Fault::NoIdentity)
            } else if signer is Err {
                failed(signer->Err_0)
            } else if named is Err {
                failed(named->Err_0)
            } else if saved is Err {
                failed(saved->Err_0)
            } else {
                Outcome::Done
            }),
            if r.0 is Done {
                &&& final(self).trusted.map() == old(self).trusted.map().insert(
                    fingerprint@,
                    petname,
                )
                &&& r.1@ == seq![Effect::RefreshReachers, Effect::DeliverConsents, Effect::Publish]
            } else {
                r.1@.len() == 0 && final(self).trusted == old(self).trusted
            },
    {
        let mut effects: Vec<Effect> = Vec::new();
        if !self.identity {
            return (Outcome::Failed(Fault::NoIdentity), effects);
        }
        match signer {
            Ok(_) => {},
            Err(e) => {
                return (Outcome::Failed(fault_of(&e)), effects);
            },
        }
        match named {
            Ok(_) => {},
            Err(e) => {
                return (Outcome::Failed(fault_of(&e)), effects);
            },
        }
        match saved {
            Ok(_) => {},
            Err(e) => {
                return (Outcome::Failed(fault_of(&e)), effects);
            },
        }
        self.trusted.insert(fingerprint, petname);
        effects.push(Effect::RefreshReachers);
        effects.push(Effect::DeliverConsents);
        effects.push(Effect::Publish);
        assert(effects@ =~= seq![
            Effect::RefreshReachers,
            Effect::DeliverConsents,
            Effect::Publish,
        ]);
        (Outcome::Done, effects)
    }

    /// Stops trusting an identity. The keyring is written first: if the rotations cannot
    /// all be delivered, the decision was still taken. The reach is withdrawn before the
    /// lock is changed.
    pub fn untrust_identity(
        &mut self,
        fingerprint: Digest32,
        signer: Result<(), Error>,
        saved: Result<(), Error>,
    ) -> (r: (Outcome, Vec<Effect>))
        requires
            old(self).wf(),
        ensures
            final(self).wf(),
            *final(self) == (NodeCore { trusted: final(self).trusted, ..*old(self) }),
            r.0 == (if !old(self).identity {
                Outcome::Failed(Fault::NoIdentity)
            } else if signer is Err {
                failed(signer->Err_0)
            } else if !old(self).trusted.has(fingerprint@) {
                Outcome::Failed(Fault::NotConsented)
            } else if saved is Err {
                failed(saved->Err_0)
            } else {
                Outcome::Done
            }),
            if r.0 is Done {
                &&& final(self).trusted.map() == old(self).trusted.map().remove(fingerprint@)
                &&& r.1@ == seq![
                    Effect::RefreshReachers,
                    Effect::ChangeLock(fingerprint),
                    Effect::Publish,
                ]
            } else {
                r.1@.len() == 0 && final(self).trusted == old(self).trusted
            },
    {
        let mut effects: Vec<Effect> = Vec::new();
        if !self.identity {
            return (Outcome::Failed(Fault::NoIdentity), effects);
        }
        match signer {
            Ok(_) => {},
            Err(e) => {
                return (Outcome::Failed(fault_of(&e)), effects);
            },
        }
        if !self.trusted.contains_key(&fingerprint) {
            return (Outcome::Failed(Fault::NotConsented), effects);
        }
        match saved {
            Ok(_) => {},
            Err(e) => {
                return (Outcome::Failed(fault_of(&e)), effects);
            },
        }
        self.trusted.remove(&fingerprint);
        effects.push(Effect::RefreshReachers);
        effects.push(Effect::ChangeLock(fingerprint));
        effects.push(Effect::Publish);
        assert(effects@ =~= seq![
            Effect::RefreshReachers,
            Effect::ChangeLock(fingerprint),
            Effect::Publish,
        ]);
        (Outcome::Done, effects)
    }

    // ---- commands ----------------------------------------------------------------

    /// The answer to a command that is refused, or answered, before anything else is
    /// looked at; `None` where it is to be carried out. A headless node has no vault, so
    /// locking it would take it off the network for good. A trusted identity is not
    /// revoked in one room: the keyring still names it, and would consent anew.
    pub open spec fn answer_at_once(&self, command: NodeCommand) -> Option<Outcome> {
        match command {
            NodeCommand::Lock => if self.headless {
                Some(Outcome::Failed(Fault::NoIdentity))
            } else {
                None
            },
            NodeCommand::Revoke { target, .. } => if self.trusted.has(target@) {
                Some(Outcome::Failed(Fault::StillTrusted))
            } else {
                None
            },
            NodeCommand::Shutdown => Some(Outcome::Done),
            _ => None,
        }
    }

    /// The answer to a command that is refused, or answered, at once.
    pub fn handle(&self, command: &NodeCommand) -> (r: Option<Outcome>)
        requires
            self.wf(),
        ensures
            r == self.answer_at_once(*command),
    {
        match command {
            NodeCommand::Lock => if self.headless {
                Some(Outcome::Failed(Fault::NoIdentity))
            } else {
                None
            },
            NodeCommand::Revoke { channel_id: _, target } => if self.trusted.contains_key(target) {
                Some(Outcome::Failed(Fault::StillTrusted))
            } else {
                None
            },
            NodeCommand::Shutdown => Some(Outcome::Done),
            _ => None,
        }
    }
}

} // verus!
