//! What the node does with its rooms: what a service room is made with, the anchors it
//! takes over from a room, and the rooms whose lock it changes when it no longer trusts
//! somebody.

use vstd::prelude::*;

use crate::actor::node::NodeCore;
use crate::actor::routes::{self, to_dial};
use crate::bootstrap::{self, BootstrapNode};
use crate::channel::ops;
use crate::hash::{self, same_digest, Digest32};
use crate::lists::{self, has_digest};

verus! {

/// The ten digits.
pub const DIGITS: &'static str = "0123456789";

/// A number in decimal notation.
pub open spec fn decimal(n: nat) -> Seq<char>
    decreases n,
{
    if n < 10 {
        seq![DIGITS@[n as int]]
    } else {
        decimal(n / 10).push(DIGITS@[(n % 10) as int])
    }
}

fn decimal_text(n: u16) -> (s: String)
    ensures
        s@ == decimal(n as nat),
    decreases n,
{
    proof {
        reveal_strlit("0123456789");
    }
    if n < 10 {
        let s: String = DIGITS.substring_char(n as usize, n as usize + 1).to_owned();
        assert(s@ =~= seq![DIGITS@[n as int]]);
        s
    } else {
        let mut s: String = decimal_text(n / 10);
        let at: usize = (n % 10) as usize;
        s.append(DIGITS.substring_char(at, at + 1));
        assert(s@ =~= decimal((n / 10) as nat).push(DIGITS@[at as int]));
        s
    }
}

/// What a service room is made with.
#[derive(Debug)]
pub struct ServiceRoom {
    /// The tag of its one service, which every member may dial.
    pub service_tag: String,
    /// Where the service listens.
    pub local: String,
}

/// The service room for a port: its service is named after the port, and listens on this
/// machine's own address unless `at` says otherwise.
pub fn service_room(port: u16, at: Option<String>) -> (r: ServiceRoom)
    ensures
        r.service_tag@ == decimal(port as nat),
        r.local@ == (match at {
            Some(addr) => addr@,
            None => "127.0.0.1:"@ + decimal(port as nat),
        }),
{
    let service_tag: String = decimal_text(port);
    let local: String = match at {
        Some(addr) => addr,
        None => {
            let mut here: String = "127.0.0.1:".to_owned();
            here.append(service_tag.as_str());
            here
        },
    };
    ServiceRoom { service_tag, local }
}

/// The identities of some anchors, without this node's own.
pub open spec fn adopted(anchors: Seq<(Seq<u8>, Seq<Seq<char>>)>, me: Seq<u8>) -> Set<Seq<u8>> {
    Set::new(|id: Seq<u8>| id != me && routes::listed(anchors, id))
}

impl NodeCore {
    /// Takes a channel's anchors over as this node's own: every one that is somebody else
    /// counts as an anchor from now on, and the result are those to dial. `anchors` are
    /// the channel's, once the configured ones were recorded on it. Nothing happens for a
    /// channel that is not open, or while the network is down.
    pub fn adopt_channel_anchors(
        &mut self,
        id: &Digest32,
        anchors: &Vec<BootstrapNode>,
        me: &Digest32,
        connected: &Vec<Digest32>,
    ) -> (dial: Vec<BootstrapNode>)
        requires
            old(self).wf(),
        ensures
            final(self).wf(),
            *final(self) == (NodeCore { anchor_ids: final(self).anchor_ids, ..*old(self) }),
            ({
                let theirs = bootstrap::nodes_view(anchors@);
                if old(self).channels.has(id@) && old(self).networked {
                    &&& bootstrap::nodes_view(dial@) == routes::undialled(
                        theirs,
                        me@,
                        connected@,
                    )
                    &&& forall|k: Seq<u8>| #[trigger]
                        final(self).anchor_ids.has(k) <==> old(self).anchor_ids.has(k)
                            || adopted(theirs, me@).contains(k)
                } else {
                    dial@.len() == 0 && *final(self) == *old(self)
                }
            }),
    {
        if !self.channels.contains_key(id) || !self.networked {
            return Vec::new();
        }
        let ghost theirs = bootstrap::nodes_view(anchors@);
        let mut i: usize = 0;
        while i < anchors.len()
            invariant
                i <= anchors@.len(),
                theirs == bootstrap::nodes_view(anchors@),
                self.wf(),
                *self == (NodeCore { anchor_ids: self.anchor_ids, ..*old(self) }),
                forall|k: Seq<u8>| #[trigger]
                    self.anchor_ids.has(k) <==> old(self).anchor_ids.has(k) || adopted(
                        theirs.take(i as int),
                        me@,
                    ).contains(k),
            decreases anchors@.len() - i,
        {
            let a: Digest32 = anchors[i].id;
            let ghost before = self.anchor_ids;
            proof {
                hash::lemma_digest_ext(a, *me);
            }
            if !same_digest(&a, me) {
                self.anchor_ids.insert(a, true);
            }
            proof {
                let now = theirs.take(i + 1);
                let sofar = theirs.take(i as int);
                assert(now.drop_last() =~= sofar);
                assert(now.last() == theirs[i as int]);
                assert(theirs[i as int].0 == a@);
                assert forall|k: Seq<u8>| #[trigger] self.anchor_ids.has(k)
                    <==> old(self).anchor_ids.has(k) || adopted(now, me@).contains(k) by {
                    assert(before.has(k) <==> old(self).anchor_ids.has(k) || adopted(
                        sofar,
                        me@,
                    ).contains(k));
                    if routes::listed(sofar, k) {
                        let j = choose|j: int| 0 <= j < sofar.len() && (#[trigger] sofar[j]).0 == k;
                        assert(now[j].0 == k);
                    }
                    if routes::listed(now, k) {
                        let j = choose|j: int| 0 <= j < now.len() && (#[trigger] now[j]).0 == k;
                        if j < i {
                            assert(sofar[j].0 == k);
                        } else {
                            assert(k == a@);
                        }
                    }
                    if k == a@ {
                        assert(now[i as int].0 == k);
                    }
                }
            }
            i = i + 1;
        }
        assert(theirs.take(i as int) =~= theirs);
        to_dial(anchors, me, connected)
    }

    /// The rooms whose lock is changed against an identity that left the keyring: the open
    /// ones in which it was consented to. Where it never was, a rotation would use up a
    /// generation and re-key everyone to no effect.
    pub fn change_the_lock_against(&self, consented: &Vec<Digest32>) -> (rooms: Vec<Digest32>)
        requires
            self.wf(),
        ensures
            rooms@ == lists::pick(
                ops::ids_of(self.channels.rows()),
                |c: Digest32| consented@.contains(c),
            ),
    {
        let ghost p = |c: Digest32| consented@.contains(c);
        let ghost ids = ops::ids_of(self.channels.rows());
        let mut rooms: Vec<Digest32> = Vec::new();
        let mut i: usize = 0;
        assert(ids.take(0) =~= Seq::empty());
        while i < self.channels.len()
            invariant
                i <= ids.len(),
                ids == ops::ids_of(self.channels.rows()),
                p == (|c: Digest32| consented@.contains(c)),
                rooms@ == lists::pick(ids.take(i as int), p),
            decreases ids.len() - i,
        {
            let c: Digest32 = self.channels.row(i).0;
            proof {
                assert(ids.take(i + 1).drop_last() =~= ids.take(i as int));
                assert(ids.take(i + 1).last() == c);
            }
            if has_digest(consented, &c) {
                rooms.push(c);
            }
            i = i + 1;
        }
        assert(ids.take(i as int) =~= ids);
        rooms
    }
}

/// Every room in which a removed identity could read what comes next gets a new lock, and
/// no other does.
pub proof fn law_removal_changes_every_lock(n: NodeCore, consented: Seq<Digest32>, room: Digest32)
    ensures
        lists::pick(
            ops::ids_of(n.channels.rows()),
            |c: Digest32| consented.contains(c),
        ).contains(room) <==> ops::ids_of(n.channels.rows()).contains(room) && consented.contains(
            room,
        ),
{
    lists::lemma_pick_contains(
        ops::ids_of(n.channels.rows()),
        |c: Digest32| consented.contains(c),
        room,
    );
}

} // verus!
