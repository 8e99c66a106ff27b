//! What the node holds, and how commands and network work change it.
//!
//! The outside work (the vault, the store, the network, the cryptography) is done by the
//! caller, which passes the results in; a result that was not reached, because an
//! earlier one failed, is not looked at. What is to be done in turn comes back as
//! effects, in order.

use vstd::prelude::*;
use vstd::utf8::*;

use crate::actor::routes;
use crate::actor::{self, fault_of};
use crate::api::{Fault, ForwardInfo, NodeEvent, Outcome};
use crate::bootstrap::{self, BootstrapNode, BootstrapSet};
use crate::error::Error;
use crate::hash::{is_before, same_bytes, Digest32};
use crate::table::{Key, Table};

verus! {

/// A pairwise session: its channel and the peer.
#[derive(Debug, Clone, Copy, PartialEq, Eq)]
pub struct PairSlot {
    /// The channel it is bound to.
    pub channel_id: Digest32,
    /// The peer.
    pub peer: Digest32,
}

impl PairSlot {
    fn bytes(&self) -> (b: Vec<u8>)
        ensures
            b@ == self.key_bytes(),
    {
        let mut b: Vec<u8> = vstd::slice::slice_to_vec(self.channel_id.as_slice());
        b.extend_from_slice(self.peer.as_slice());
        b
    }
}

impl Key for PairSlot {
    open spec fn key_bytes(&self) -> Seq<u8> {
        self.channel_id@ + self.peer@
    }

    fn before(&self, other: &Self) -> (r: bool) {
        let a: Vec<u8> = self.bytes();
        let b: Vec<u8> = other.bytes();
        is_before(a.as_slice(), b.as_slice())
    }

    fn same(&self, other: &Self) -> (r: bool) {
        let a: Vec<u8> = self.bytes();
        let b: Vec<u8> = other.bytes();
        same_bytes(a.as_slice(), b.as_slice())
    }
}

/// A mapping that a gateway granted.
#[derive(Debug, Clone, Copy, PartialEq, Eq)]
pub struct PortMapping {
    /// Whether it is a UPnP mapping.
    pub upnp: bool,
    /// For how long it was granted, in seconds; 0 is for ever.
    pub lifetime_secs: u32,
    /// The local port.
    pub internal_port: u16,
}

/// Something for the caller to do.
#[derive(Debug, PartialEq, Eq)]
pub enum Effect {
    /// Tell the clients.
    Emit(NodeEvent),
    /// Wipe a channel's key and its passphrase.
    LockChannel(Digest32),
    /// Close every connection and the endpoint.
    CloseNetwork,
    /// Take back a permanent mapping.
    Unmap(u16),
    /// Lock the vault.
    LockVault,
    /// Record the configured anchors on a channel, and dial those that are not
    /// connected.
    AdoptAnchors(Digest32),
    /// Republish who is a member of what.
    RefreshView,
    /// Recompute who may reach the services.
    RefreshReachers,
    /// Put a channel's records on this node's own board.
    PublishLocally(Digest32),
    /// Put a channel's records on every anchor this node is connected to.
    PublishToAnchors(Digest32),
    /// Put a channel's records on one peer's board.
    PublishTo(Digest32, Digest32),
    /// Take a channel out of what the board reads.
    ForgetMembers(Digest32),
    /// Serve the streams a peer opens on a connection.
    ServeStreams(u64),
    /// Give a peer a sync schedule, due at once, unless it has one.
    Schedule(Digest32),
    /// Make every peer's sync schedule due.
    PushAppend,
    /// Rotate the sender key in every room where an identity was consented to.
    ChangeLock(Digest32),
    /// Consent to every trusted author that has no consent yet.
    DeliverConsents,
    /// Deliver the current sender key of a channel to whoever is owed it.
    DeliverRekeys(Digest32),
    /// Answer a join.
    AnswerJoin(Digest32),
    /// Take a sealed control message.
    TakeControl(Digest32),
    /// Run a sync session.
    RunSync,
    /// Answer a hole punch.
    AnswerPunch(Digest32),
    /// Serve a tunnel.
    ServeTunnel(Digest32),
    /// Publish the view.
    Publish,
    /// Take a channel out of the store: it was made, and is not kept.
    DropChannel(Digest32),
    /// Expect a joiner no longer: it has joined.
    ForgetJoiner(Digest32),
}

/// What the node holds.
#[derive(Debug)]
pub struct NodeCore {
    /// Whether the profile has an identity.
    pub identity: bool,
    /// Whether it is unlocked.
    pub unlocked: bool,
    /// Whether the node runs as a transport identity that is not a vault.
    pub headless: bool,
    /// Whether the node networks at all.
    pub binds: bool,
    /// Whether the network is up.
    pub networked: bool,
    /// Whether the prekeys are held.
    pub prekeys: bool,
    /// Whether the node keeps a ciphertext copy of every anchored channel's log.
    pub anchor_logs: bool,
    /// The trust keyring: identity and petname.
    pub trusted: Table<Digest32, String>,
    /// The open channels, with their epochs.
    pub channels: Table<Digest32, u64>,
    /// The anchored channels, with their epochs.
    pub anchored: Table<Digest32, u64>,
    /// The configured anchors.
    pub anchors: BootstrapSet,
    /// Every identity that is treated as an anchor.
    pub anchor_ids: Table<Digest32, bool>,
    /// The pairwise sessions.
    pub sessions: Table<PairSlot, bool>,
    /// The connections whose streams are served.
    pub stream_loops: Vec<u64>,
    /// The channels with a local append not yet pushed.
    pub pending_push: Table<Digest32, bool>,
    /// The last record number used for each channel.
    pub record_seq: Table<Digest32, u64>,
    /// When each peer was last tried for a better path.
    pub last_upgrade: Table<Digest32, u64>,
    /// When the anchors are next checked.
    pub redial_anchors_at: u64,
    /// The granted mappings.
    pub port_mappings: Vec<PortMapping>,
    /// When they must be renewed.
    pub renew_mappings_at: Option<u64>,
    /// The live forwards, by bound address.
    pub forwards: Table<String, ForwardInfo>,
    /// Who may reach the services of each channel.
    pub reachers: Table<Digest32, Vec<Digest32>>,
}

impl NodeCore {
    /// What every table keeps.
    pub open spec fn tables_wf(&self) -> bool {
        &&& self.trusted.wf()
        &&& self.channels.wf()
        &&& self.anchored.wf()
        &&& self.anchor_ids.wf()
        &&& self.sessions.wf()
        &&& self.pending_push.wf()
        &&& self.record_seq.wf()
        &&& self.last_upgrade.wf()
        &&& self.forwards.wf()
        &&& self.reachers.wf()
    }

    /// Whether nothing is held that a lock must take away: no open channel, no session,
    /// no keyring and no prekeys.
    pub open spec fn holds_nothing(&self) -> bool {
        &&& self.channels.map() == Map::<Seq<u8>, u64>::empty()
        &&& self.sessions.map() == Map::<Seq<u8>, bool>::empty()
        &&& self.trusted.map() == Map::<Seq<u8>, String>::empty()
        &&& !self.prekeys
    }

    /// What the node keeps at every moment.
    pub open spec fn wf(&self) -> bool {
        &&& self.tables_wf()
        // A locked node holds no key material, and presents no network identity.
        &&& !self.unlocked ==> self.holds_nothing()
        &&& self.networked ==> self.binds && (self.unlocked || self.headless)
        &&& self.unlocked ==> self.identity
    }

    /// The node at its beginning: an existing identity is locked, and nothing is open.
    pub fn new(
        identity: bool,
        headless: bool,
        binds: bool,
        anchor_logs: bool,
        anchors: BootstrapSet,
    ) -> (n: NodeCore)
        ensures
            n.wf(),
            n.identity == identity,
            !n.unlocked,
            n.headless == headless,
            n.binds == binds,
            !n.networked,
            n.anchor_logs == anchor_logs,
            n.anchored.map() == Map::<Seq<u8>, u64>::empty(),
            n.anchors == anchors,
            forall|id: Seq<u8>| #[trigger]
                n.anchor_ids.map().contains_key(id) <==> routes::listed(
                    bootstrap::nodes_view(anchors.nodes@),
                    id,
                ),
            n.stream_loops@.len() == 0,
            n.pending_push.map() == Map::<Seq<u8>, bool>::empty(),
            n.record_seq.map() == Map::<Seq<u8>, u64>::empty(),
            n.last_upgrade.map() == Map::<Seq<u8>, u64>::empty(),
            n.redial_anchors_at == 0,
            n.port_mappings@.len() == 0,
            n.renew_mappings_at is None,
            n.forwards.map() == Map::<Seq<u8>, ForwardInfo>::empty(),
            n.reachers.map() == Map::<Seq<u8>, Vec<Digest32>>::empty(),
    {
        let anchor_ids: Table<Digest32, bool> = ids_of_nodes(&anchors.nodes);
        NodeCore {
            identity,
            unlocked: false,
            headless,
            binds,
            networked: false,
            prekeys: false,
            anchor_logs,
            trusted: Table::new(),
            channels: Table::new(),
            anchored: Table::new(),
            anchors,
            anchor_ids,
            sessions: Table::new(),
            stream_loops: Vec::new(),
            pending_push: Table::new(),
            record_seq: Table::new(),
            last_upgrade: Table::new(),
            redial_anchors_at: 0,
            port_mappings: Vec::new(),
            renew_mappings_at: None,
            forwards: Table::new(),
            reachers: Table::new(),
        }
    }
}

fn ids_of_nodes(nodes: &Vec<BootstrapNode>) -> (t: Table<Digest32, bool>)
    ensures
        t.wf(),
        forall|id: Seq<u8>| #[trigger]
            t.map().contains_key(id) <==> routes::listed(bootstrap::nodes_view(nodes@), id),
{
    let mut t: Table<Digest32, bool> = Table::new();
    let ghost vs = bootstrap::nodes_view(nodes@);
    let mut i: usize = 0;
    while i < nodes.len()
        invariant
            i <= nodes@.len(),
            vs == bootstrap::nodes_view(nodes@),
            t.wf(),
            forall|id: Seq<u8>| #[trigger]
                t.map().contains_key(id) <==> exists|j: int|
                    0 <= j < i && (#[trigger] vs[j]).0 == id,
        decreases nodes@.len() - i,
    {
        let ghost before = t.map();
        t.insert(nodes[i].id, true);
        proof {
            let id0 = nodes@[i as int].id@;
            assert(vs[i as int].0 == id0);
            assert forall|id: Seq<u8>| #[trigger] t.map().contains_key(id) <==> exists|j: int|
                0 <= j < i + 1 && (#[trigger] vs[j]).0 == id by {
                assert(t.map() == before.insert(id0, true));
                if id != id0 {
                    assert(t.map().contains_key(id) == before.contains_key(id));
                }
            }
        }
        i = i + 1;
    }
    t
}

// ---- the network ---------------------------------------------------------------

impl NodeCore {
    /// Starts the network for the unlocked identity, or the headless one. A node that
    /// does not network, or whose network is up, has nothing to do. `bound` says whether
    /// the endpoint could be bound as that identity. The result says whether the network
    /// came up; every configured anchor is dialled at once where it did.
    pub fn start_network(&mut self, bound: Result<(), Error>) -> (r: Result<bool, Error>)
        requires
            old(self).wf(),
            bound is Ok ==> old(self).unlocked || old(self).headless,
        ensures
            final(self).wf(),
            match r {
                Ok(up) => {
                    &&& up == (old(self).binds && !old(self).networked)
                    &&& up ==> bound is Ok
                    &&& *final(self) == (NodeCore {
                        networked: old(self).networked || up,
                        ..*old(self)
                    })
                },
                Err(e) => {
                    &&& old(self).binds && !old(self).networked
                    &&& *final(self) == *old(self)
                    &&& if !old(self).headless && !old(self).identity {
                        e == Error::Profile("no identity in this profile")
                    } else {
                        bound == Err::<(), Error>(e)
                    }
                },
            },
    {
        if !self.binds || self.networked {
            return Ok(false);
        }
        if !self.headless && !self.identity {
            return Err(Error::Profile("no identity in this profile"));
        }
        bound?;
        self.networked = true;
        Ok(true)
    }

    /// The state with the network down: no stream is served, nothing is scheduled or
    /// mapped.
    pub open spec fn network_down(&self, before: NodeCore) -> bool {
        &&& *self == (NodeCore {
            networked: false,
            stream_loops: self.stream_loops,
            port_mappings: self.port_mappings,
            renew_mappings_at: None,
            pending_push: self.pending_push,
            ..before
        })
        &&& self.stream_loops@.len() == 0
        &&& self.port_mappings@.len() == 0
        &&& self.pending_push.map() == Map::<Seq<u8>, bool>::empty()
    }

    /// Takes the network down, so that a locked node presents no network identity. A
    /// mapping that a router granted for ever would outlive the node, and is taken back;
    /// the others expire.
    pub fn stop_network(&mut self) -> (effects: Vec<Effect>)
        requires
            old(self).wf(),
        ensures
            final(self).wf(),
            final(self).network_down(*old(self)),
            effects@ == closing(*old(self)),
    {
        let mut effects: Vec<Effect> = Vec::new();
        if self.networked {
            effects.push(Effect::CloseNetwork);
        }
        let ghost front = effects@;
        let mut i: usize = 0;
        assert(self.port_mappings@.take(0) =~= Seq::empty());
        assert(effects@ =~= front + unmaps(self.port_mappings@.take(0)));
        while i < self.port_mappings.len()
            invariant
                i <= self.port_mappings@.len(),
                effects@ == front + unmaps(self.port_mappings@.take(i as int)),
            decreases self.port_mappings@.len() - i,
        {
            let m: PortMapping = self.port_mappings[i];
            proof {
                let next = self.port_mappings@.take(i + 1);
                assert(next.drop_last() =~= self.port_mappings@.take(i as int));
                assert(next.last() == m);
            }
            let ghost sofar = effects@;
            if m.upnp && m.lifetime_secs == 0 {
                effects.push(Effect::Unmap(m.internal_port));
            }
            assert(effects@ =~= front + unmaps(self.port_mappings@.take(i + 1)));
            i = i + 1;
        }
        assert(self.port_mappings@.take(i as int) =~= self.port_mappings@);
        self.networked = false;
        self.stream_loops = Vec::new();
        self.port_mappings = Vec::new();
        self.renew_mappings_at = None;
        self.pending_push = Table::new();
        assert(effects@ =~= closing(*old(self)));
        effects
    }

    /// The wipes that locking does, channel by channel.
    pub open spec fn locks(rows: Seq<(Digest32, u64)>) -> Seq<Effect> {
        Seq::new(rows.len(), |i: int| Effect::LockChannel(rows[i].0))
    }

    /// The state once everything that a lock takes away is gone, and the network is down.
    pub open spec fn locked_down(&self, before: NodeCore) -> bool {
        &&& *self == (NodeCore {
            unlocked: false,
            networked: false,
            prekeys: false,
            trusted: self.trusted,
            channels: self.channels,
            sessions: self.sessions,
            stream_loops: self.stream_loops,
            port_mappings: self.port_mappings,
            renew_mappings_at: None,
            pending_push: self.pending_push,
            ..before
        })
        &&& self.holds_nothing()
        &&& self.stream_loops@.len() == 0
        &&& self.port_mappings@.len() == 0
        &&& self.pending_push.map() == Map::<Seq<u8>, bool>::empty()
    }

    /// Locks the node: every open channel is wiped, the prekeys, the keyring and the
    /// sessions are dropped, the network is taken down and the vault locked.
    pub fn lock_all(&mut self) -> (effects: Vec<Effect>)
        requires
            old(self).wf(),
        ensures
            final(self).wf(),
            final(self).locked_down(*old(self)),
            effects@ == lock_effects(*old(self)),
    {
        let was_unlocked: bool = self.unlocked;
        let mut effects: Vec<Effect> = Vec::new();
        let ghost rows = self.channels.rows();
        let mut i: usize = 0;
        while i < self.channels.len()
            invariant
                i <= rows.len(),
                rows == self.channels.rows(),
                effects@ == Self::locks(rows).take(i as int),
            decreases rows.len() - i,
        {
            effects.push(Effect::LockChannel(self.channels.row(i).0));
            assert(effects@ =~= Self::locks(rows).take(i + 1));
            i = i + 1;
        }
        assert(Self::locks(rows).take(i as int) =~= Self::locks(rows));
        let mut close: Vec<Effect> = self.stop_network();
        effects.append(&mut close);
        self.channels = Table::new();
        self.prekeys = false;
        self.trusted = Table::new();
        self.sessions = Table::new();
        self.unlocked = false;
        if self.identity {
            effects.push(Effect::LockVault);
        }
        if was_unlocked {
            effects.push(Effect::Emit(NodeEvent::Locked));
        }
        assert(effects@ =~= lock_effects(*old(self)));
        effects
    }
}

/// The permanent mappings that are taken back.
pub open spec fn unmaps(mappings: Seq<PortMapping>) -> Seq<Effect>
    decreases mappings.len(),
{
    if mappings.len() == 0 {
        Seq::empty()
    } else {
        let m = mappings.last();
        if m.upnp && m.lifetime_secs == 0 {
            unmaps(mappings.drop_last()).push(Effect::Unmap(m.internal_port))
        } else {
            unmaps(mappings.drop_last())
        }
    }
}

/// What taking the network down does.
pub open spec fn closing(n: NodeCore) -> Seq<Effect> {
    (if n.networked {
        seq![Effect::CloseNetwork]
    } else {
        Seq::empty()
    }) + unmaps(n.port_mappings@)
}

/// What locking does: the channels are wiped one by one, the network is closed, the vault is
/// locked, and where it was not locked before, that is news.
pub open spec fn lock_effects(n: NodeCore) -> Seq<Effect> {
    NodeCore::locks(n.channels.rows()) + closing(n) + (if n.identity {
        seq![Effect::LockVault]
    } else {
        Seq::empty()
    }) + (if n.unlocked {
        seq![Effect::Emit(NodeEvent::Locked)]
    } else {
        Seq::empty()
    })
}

// ---- the identity ----------------------------------------------------------------

/// How loading an identity's keys ends: the prekeys are asked for first.
pub open spec fn keys_loaded(
    prekeys: Result<(), Error>,
    keyring: Result<Table<Digest32, String>, Error>,
) -> Result<(), Error> {
    match (prekeys, keyring) {
        (Err(e), _) => Err(e),
        (Ok(_), Err(e)) => Err(e),
        (Ok(_), Ok(_)) => Ok(()),
    }
}

impl NodeCore {
    /// Takes up the keys of an identity that was just unlocked: the prekeys first, the
    /// trust keyring after them. Prekeys that were loaded are held even where the keyring
    /// is not. `prekeys` says whether the one could be loaded, `keyring` what the other
    /// holds.
    pub fn load_prekeys(
        &mut self,
        prekeys: Result<(), Error>,
        keyring: Result<Table<Digest32, String>, Error>,
    ) -> (r: Result<(), Error>)
        requires
            old(self).wf(),
            old(self).unlocked,
            keyring is Ok ==> keyring->Ok_0.wf(),
        ensures
            final(self).wf(),
            *final(self) == (NodeCore {
                prekeys: old(self).prekeys || prekeys is Ok,
                trusted: if prekeys is Ok && keyring is Ok {
                    keyring->Ok_0
                } else {
                    old(self).trusted
                },
                ..*old(self)
            }),
            r == keys_loaded(prekeys, keyring),
    {
        prekeys?;
        self.prekeys = true;
        self.trusted = keyring?;
        Ok(())
    }

    /// Creates the profile's identity. `created` says whether the vault could be made,
    /// `prekeys` whether its prekeys could be, `keyring` what its keyring holds, `bound`
    /// whether the endpoint could be bound.
    pub fn create_identity(
        &mut self,
        created: Result<(), Error>,
        prekeys: Result<(), Error>,
        keyring: Result<Table<Digest32, String>, Error>,
        bound: Result<(), Error>,
    ) -> (outcome: Outcome)
        requires
            old(self).wf(),
            keyring is Ok ==> keyring->Ok_0.wf(),
        ensures
            final(self).wf(),
            if old(self).identity {
                outcome == Outcome::Failed(Fault::IdentityExists) && *final(self) == *old(self)
            } else {
                match created {
                    Err(e) => outcome == Outcome::Failed(actor::fault_for(e)) && *final(self)
                        == *old(self),
                    Ok(_) => {
                        let goes_up = old(self).binds && !old(self).networked;
                        match keys_loaded(prekeys, keyring) {
                            Err(e) => {
                                &&& outcome == Outcome::Failed(actor::fault_for(e))
                                &&& *final(self) == (NodeCore {
                                    identity: true,
                                    unlocked: true,
                                    prekeys: old(self).prekeys || prekeys is Ok,
                                    ..*old(self)
                                })
                            },
                            Ok(_) => {
                                &&& outcome == (match bound {
                                    Err(e) if goes_up => Outcome::Failed(actor::fault_for(e)),
                                    _ => Outcome::Done,
                                })
                                &&& *final(self) == (NodeCore {
                                    identity: true,
                                    unlocked: true,
                                    prekeys: true,
                                    trusted: keyring->Ok_0,
                                    networked: old(self).networked || goes_up && bound is Ok,
                                    ..*old(self)
                                })
                            },
                        }
                    },
                }
            },
    {
        if self.identity {
            return Outcome::Failed(Fault::IdentityExists);
        }
        match created {
            Ok(_) => {},
            Err(e) => {
                return Outcome::Failed(fault_of(&e));
            },
        }
        self.identity = true;
        self.unlocked = true;
        match self.load_prekeys(prekeys, keyring) {
            Ok(_) => {},
            Err(e) => {
                return Outcome::Failed(fault_of(&e));
            },
        }
        match self.start_network(bound) {
            Ok(_) => Outcome::Done,
            Err(e) => Outcome::Failed(fault_of(&e)),
        }
    }

    /// Unlocks the identity. A node that cannot load its keys, or cannot bind, is locked
    /// again rather than run without them. The effects are those of that lock, or the
    /// news.
    pub fn unlock(
        &mut self,
        opened: Result<(), Error>,
        prekeys: Result<(), Error>,
        keyring: Result<Table<Digest32, String>, Error>,
        bound: Result<(), Error>,
    ) -> (r: (Outcome, Vec<Effect>))
        requires
            old(self).wf(),
            keyring is Ok ==> keyring->Ok_0.wf(),
        ensures
            final(self).wf(),
            if !old(self).identity {
                r.0 == Outcome::Failed(Fault::NoIdentity) && *final(self) == *old(self) && r.1@.len()
                    == 0
            } else {
                match opened {
                    Err(e) => r.0 == Outcome::Failed(actor::fault_for(e))
                        && *final(self) == *old(self) && r.1@.len() == 0,
                    Ok(_) => if keys_loaded(prekeys, keyring) is Err {
                        &&& r.0 == Outcome::Failed(
                            actor::fault_for(keys_loaded(prekeys, keyring)->Err_0),
                        )
                        &&& final(self).locked_down(*old(self))
                        &&& r.1@ == lock_effects(NodeCore { unlocked: true, ..*old(self) })
                    } else if old(self).binds && !old(self).networked && bound is Err {
                        &&& r.0 == Outcome::Failed(actor::fault_for(bound->Err_0))
                        &&& final(self).locked_down(*old(self))
                        &&& r.1@ == lock_effects(NodeCore { unlocked: true, ..*old(self) })
                    } else {
                        &&& r.0 == Outcome::Done
                        &&& r.1@ == seq![Effect::Emit(NodeEvent::Unlocked)]
                        &&& *final(self) == (NodeCore {
                            unlocked: true,
                            prekeys: true,
                            trusted: keyring->Ok_0,
                            networked: old(self).networked || old(self).binds,
                            ..*old(self)
                        })
                    },
                }
            },
    {
        if !self.identity {
            return (Outcome::Failed(Fault::NoIdentity), Vec::new());
        }
        match opened {
            Ok(_) => {},
            Err(e) => {
                return (Outcome::Failed(fault_of(&e)), Vec::new());
            },
        }
        self.unlocked = true;
        match self.load_prekeys(prekeys, keyring) {
            Ok(_) => {},
            Err(e) => {
                let f: Fault = fault_of(&e);
                let effects: Vec<Effect> = self.lock_all();
                return (Outcome::Failed(f), effects);
            },
        }
        match self.start_network(bound) {
            Ok(_) => {
                let mut effects: Vec<Effect> = Vec::new();
                effects.push(Effect::Emit(NodeEvent::Unlocked));
                assert(effects@ =~= seq![Effect::Emit(NodeEvent::Unlocked)]);
                (Outcome::Done, effects)
            },
            Err(e) => {
                let f: Fault = fault_of(&e);
                let effects: Vec<Effect> = self.lock_all();
                (Outcome::Failed(f), effects)
            },
        }
    }
}

} // verus!
