//! What holds of the node's decisions as a whole: who is joined through and where it is
//! reached, which anchors are named, dialled and told, what a sync pass covers, and who is
//! given a key.

use vstd::prelude::*;

use crate::actor::join::{self, BoardSet, JoinRun, JoinStage, MemberRecord};
use crate::actor::node::{Effect, NodeCore};
use crate::actor::peers::{self, SyncTrigger};
use crate::actor::rooms;
use crate::actor::rounds;
use crate::actor::routes;
use crate::actor::view::OpenRoom;
use crate::api::{Fault, NodeEvent};
use crate::channel::{ops, owing};
use crate::error::Error;
use crate::hash::Digest32;
use crate::joinstream::exchange::{InitNames, OneTimeUse};
use crate::link::invite;
use crate::link::scan;
use crate::link::{InviteLink, MAX_LINK_ANCHORS};
use crate::lists;

verus! {

// ---- joining ---------------------------------------------------------------------

/// Whether the record at `i` is the first of its author's.
pub open spec fn first_record(members: Seq<MemberRecord>, i: int) -> bool {
    &&& 0 <= i < members.len()
    &&& forall|j: int| 0 <= j < i ==> (#[trigger] members[j]).author_id != members[i].author_id
}

/// The record that is looked for is the first by that member, and none is found only where no
/// record is by it.
pub proof fn law_record_is_the_members_own(members: Seq<MemberRecord>, id: Digest32)
    ensures
        match join::record_of(members, id) {
            Some(i) => first_record(members, i) && members[i].author_id == id,
            None => forall|j: int| 0 <= j < members.len() ==> (#[trigger] members[j]).author_id != id,
        },
    decreases members.len(),
{
    if members.len() > 0 {
        let front = members.drop_last();
        law_record_is_the_members_own(front, id);
        assert forall|j: int| 0 <= j < front.len() implies front[j] == #[trigger] members[j] by {}
    }
}

/// A member is dialled at its own addresses: those that a board has for it are the ones on its
/// own first record, whoever else is listed, and there are none exactly where it has no record
/// or its record lists none.
pub proof fn law_addresses_are_the_members_own(members: Seq<MemberRecord>, id: Digest32, i: int)
    ensures
        first_record(members, i) && members[i].author_id == id ==> {
            &&& join::addresses_of(members, id).len() == members[i].endpoints@.len()
            &&& forall|k: int|
                0 <= k < members[i].endpoints@.len() ==> #[trigger] join::addresses_of(
                    members,
                    id,
                )[k] == members[i].endpoints@[k]@
        },
        (forall|j: int| 0 <= j < members.len() ==> (#[trigger] members[j]).author_id != id)
            ==> join::addresses_of(members, id).len() == 0,
        join::addresses_of(members, id).len() > 0 ==> exists|j: int|
            first_record(members, j) && (#[trigger] members[j]).author_id == id
                && members[j].endpoints@.len() > 0,
{
    law_record_is_the_members_own(members, id);
    match join::record_of(members, id) {
        Some(k) => {
            assert(members[k].author_id == id);
            if first_record(members, i) && members[i].author_id == id {
                if k < i {
                    assert(members[k].author_id == members[i].author_id);
                }
                if i < k {
                    assert(members[i].author_id == members[k].author_id);
                }
            }
        },
        None => {},
    }
}

/// Another member's record makes no difference to where a member is reached.
pub proof fn law_addresses_are_no_one_elses(
    members: Seq<MemberRecord>,
    more: MemberRecord,
    id: Digest32,
)
    requires
        more.author_id != id,
    ensures
        join::addresses_of(members.push(more), id) == join::addresses_of(members, id),
        join::addresses_of(seq![more] + members, id) == join::addresses_of(members, id),
{
    let back = members.push(more);
    let front = seq![more] + members;
    law_record_is_the_members_own(members, id);
    law_record_is_the_members_own(back, id);
    law_record_is_the_members_own(front, id);
    assert forall|j: int| 0 <= j < members.len() implies #[trigger] members[j] == back[j]
        && members[j] == front[j + 1] by {}
    match join::record_of(members, id) {
        Some(k) => {
            assert(back[k].author_id == id);
            assert(front[k + 1].author_id == id);
            let b = join::record_of(back, id)->Some_0;
            let f = join::record_of(front, id)->Some_0;
            assert(back[b].author_id == id);
            assert(front[f].author_id == id);
            if b < k {
                assert(members[b].author_id == id);
            }
            if k < b {
                assert(back[k].author_id == back[b].author_id);
            }
            if f < k + 1 {
                assert(f > 0);
                assert(members[f - 1].author_id == id);
            }
            if k + 1 < f {
                assert(front[k + 1].author_id == front[f].author_id);
            }
            assert(front[k + 1] == members[k]);
        },
        None => {
            if let Some(b) = join::record_of(back, id) {
                assert(back[b].author_id == id);
                assert(members[b].author_id == id);
            }
            if let Some(f) = join::record_of(front, id) {
                assert(front[f].author_id == id);
                assert(members[f - 1].author_id == id);
            }
        },
    }
}

/// A join goes through the member that the link pins, whatever the board holds; where it pins
/// none, through the first that the board lists, and through nobody only where it lists none.
pub proof fn law_pinned_member_is_joined_through(link: InviteLink, members: Seq<MemberRecord>)
    ensures
        link.responder is Some ==> join::responder_for(link, members) == link.responder,
        link.responder is None && members.len() > 0 ==> join::responder_for(link, members) == Some(
            members[0].author_id,
        ),
        join::responder_for(link, members) is None <==> link.responder is None && members.len()
            == 0,
{
}

/// A refusal by the board does not end a join, and any other failure does.
pub proof fn law_refused_announcement_goes_on(why: &'static str, e: Error)
    requires
        !(e is RendezvousRejected),
    ensures
        join::announced(Ok(())),
        join::announced(Err(Error::RendezvousRejected(why))),
        !join::announced(Err(e)),
{
}

/// A join that was completed is news, its records reach this node's own board, the anchors and
/// the responder, who is told once; and who may reach what is worked out anew.
pub proof fn law_join_is_published(n: NodeCore, id: Digest32, responder: Digest32)
    ensures
        join::after_join(n, id, responder).contains(Effect::RefreshReachers),
        join::after_join(n, id, responder).contains(Effect::AdoptAnchors(id)),
        join::after_join(n, id, responder).contains(Effect::PublishLocally(id)),
        join::after_join(n, id, responder).contains(Effect::PublishToAnchors(id)),
        join::after_join(n, id, responder).contains(Effect::PublishTo(id, responder))
            <==> !n.anchor_ids.map().contains_key(responder@),
        join::after_join(n, id, responder).last() == Effect::Emit(
            NodeEvent::Joined { channel_id: id, responder },
        ),
{
    let es = join::after_join(n, id, responder);
    assert(es[0] == Effect::RefreshReachers);
    assert(es[1] == Effect::AdoptAnchors(id));
    assert(es[3] == Effect::PublishLocally(id));
    assert(es[4] == Effect::PublishToAnchors(id));
    if !n.anchor_ids.has(responder@) {
        assert(es[5] == Effect::PublishTo(id, responder));
    }
}

/// A join goes on from a board exactly if the board has the room's genesis and there is a
/// member to join through: the one that the link pins, wherever it is, or else anyone that
/// the board lists, and then the first. That member is dialled at the addresses of its own
/// first record, and at none where it has no record.
pub proof fn law_join_goes_on_from_the_board(
    before: JoinRun,
    after: JoinRun,
    set: BoardSet,
    r: Result<(), Fault>,
    i: int,
    k: int,
)
    requires
        JoinRun::fetching(before, after, Ok::<BoardSet, Error>(set), r),
    ensures
        r is Ok <==> set.genesis is Some && (before.link.responder is Some || set.members@.len()
            > 0),
        r is Err ==> r == Err::<(), Fault>(Fault::BadLink) && after.stage == JoinStage::Over,
        r is Ok ==> {
            &&& after.genesis == set.genesis
            &&& before.link.responder is Some ==> after.responder == before.link.responder
            &&& before.link.responder is None ==> after.responder == Some(
                set.members@[0].author_id,
            )
            &&& first_record(set.members@, i) && after.responder == Some(
                set.members@[i].author_id,
            ) && 0 <= k < set.members@[i].endpoints@.len() ==> {
                &&& after.endpoints@.len() == set.members@[i].endpoints@.len()
                &&& after.endpoints@[k]@ == set.members@[i].endpoints@[k]@
            }
        },
{
    if r is Ok {
        let who = after.responder->Some_0;
        law_addresses_are_the_members_own(set.members@, who, i);
        let ts = scan::texts(after.endpoints@);
        assert(ts.len() == after.endpoints@.len());
        if 0 <= k < after.endpoints@.len() {
            assert(ts[k] == after.endpoints@[k]@);
        }
    }
}

// ---- anchors ---------------------------------------------------------------------

/// What is gathered is all of both, once: what was there stays in front, everything added is
/// listed, nothing else is, and what is new stands behind in its order.
pub proof fn law_gathering_loses_nothing(
    nodes: Seq<(Seq<u8>, Seq<Seq<char>>)>,
    more: Seq<(Seq<u8>, Seq<Seq<char>>)>,
    id: Seq<u8>,
    i: int,
)
    ensures
        nodes.is_prefix_of(routes::gather(nodes, more)),
        (exists|k: int| 0 <= k < routes::gather(nodes, more).len() && (
        #[trigger] routes::gather(nodes, more)[k]).0 == id) <==> (exists|k: int|
            0 <= k < nodes.len() && (#[trigger] nodes[k]).0 == id) || (exists|k: int|
            0 <= k < more.len() && (#[trigger] more[k]).0 == id),
        nodes.len() <= i < routes::gather(nodes, more).len() ==> more.contains(
            routes::gather(nodes, more)[i],
        ),
        invite::distinct(nodes) ==> invite::distinct(routes::gather(nodes, more)),
        routes::gather(nodes, more).len() <= nodes.len() + more.len(),
    decreases more.len(),
{
    let all = routes::gather(nodes, more);
    if more.len() > 0 {
        let less = more.drop_last();
        let last = more.last();
        let front = routes::gather(nodes, less);
        law_gathering_loses_nothing(nodes, less, id, i);
        law_gathering_loses_nothing(nodes, less, last.0, i);
        assert(more[more.len() - 1] == last);
        assert forall|k: int| 0 <= k < less.len() implies less[k] == #[trigger] more[k] by {}
        assert forall|k: int| 0 <= k < front.len() implies front[k] == #[trigger] all[k] by {}
        assert(front.is_prefix_of(all));
        assert(nodes.is_prefix_of(all)) by {
            assert(front.subrange(0, nodes.len() as int) =~= nodes);
            assert(all.subrange(0, nodes.len() as int) =~= nodes);
        }
        if !routes::listed(front, last.0) {
            assert(all[all.len() - 1] == last);
        }
        if exists|k: int| 0 <= k < all.len() && (#[trigger] all[k]).0 == id {
            let k = choose|k: int| 0 <= k < all.len() && (#[trigger] all[k]).0 == id;
            if k < front.len() {
                assert(front[k].0 == id);
                if !(exists|m: int| 0 <= m < nodes.len() && (#[trigger] nodes[m]).0 == id) {
                    let m = choose|m: int| 0 <= m < less.len() && (#[trigger] less[m]).0 == id;
                    assert(more[m].0 == id);
                }
            }
        }
        if exists|k: int| 0 <= k < more.len() && (#[trigger] more[k]).0 == id {
            let k = choose|k: int| 0 <= k < more.len() && (#[trigger] more[k]).0 == id;
            if k < less.len() {
                assert(less[k].0 == id);
                let m = choose|m: int| 0 <= m < front.len() && (#[trigger] front[m]).0 == id;
                assert(all[m].0 == id);
            } else if routes::listed(front, last.0) {
                let m = choose|m: int| 0 <= m < front.len() && (#[trigger] front[m]).0 == last.0;
                assert(all[m].0 == id);
            }
        }
        if exists|k: int| 0 <= k < nodes.len() && (#[trigger] nodes[k]).0 == id {
            let m = choose|m: int| 0 <= m < front.len() && (#[trigger] front[m]).0 == id;
            assert(all[m].0 == id);
        }
        if nodes.len() <= i < all.len() {
            if i < front.len() {
                assert(less.contains(front[i]));
                let k = choose|k: int| 0 <= k < less.len() && less[k] == front[i];
                assert(more[k] == all[i]);
            } else {
                assert(more[more.len() - 1] == all[i]);
            }
        }
        if invite::distinct(nodes) && !routes::listed(front, last.0) {
            assert forall|a: int, b: int| 0 <= a < b < all.len() implies (#[trigger] all[a]).0 != (
            #[trigger] all[b]).0 by {
                assert(all[a] == front[a]);
                if b < front.len() {
                    assert(all[b] == front[b]);
                } else {
                    assert(front[a].0 != last.0);
                }
            }
        }
    } else {
        assert(all == nodes);
    }
}

/// The nodes that are left are those that are somebody else, all of them, and nothing of a
/// node is lost.
pub proof fn law_others_are_everybody_else(
    nodes: Seq<(Seq<u8>, Seq<Seq<char>>)>,
    me: Seq<u8>,
    n: (Seq<u8>, Seq<Seq<char>>),
)
    ensures
        routes::others(nodes, me).contains(n) <==> nodes.contains(n) && n.0 != me,
    decreases nodes.len(),
{
    if nodes.len() > 0 {
        let front = nodes.drop_last();
        law_others_are_everybody_else(front, me, n);
        let less = routes::others(front, me);
        let all = routes::others(nodes, me);
        if nodes.contains(n) {
            let i = choose|i: int| 0 <= i < nodes.len() && nodes[i] == n;
            if i < front.len() {
                assert(front[i] == n);
            }
        }
        if front.contains(n) {
            let i = choose|i: int| 0 <= i < front.len() && front[i] == n;
            assert(nodes[i] == n);
        }
        assert(nodes[nodes.len() - 1] == nodes.last());
        if nodes.last().0 != me {
            assert(all[all.len() - 1] == nodes.last());
            if less.contains(n) {
                let i = choose|i: int| 0 <= i < less.len() && less[i] == n;
                assert(all[i] == n);
            }
            if all.contains(n) {
                let i = choose|i: int| 0 <= i < all.len() && all[i] == n;
                if i < less.len() {
                    assert(less[i] == n);
                }
            }
        }
    }
}

/// The nodes that are left keep their order: each stands behind those before it that are
/// left.
pub proof fn law_others_keep_their_order(
    nodes: Seq<(Seq<u8>, Seq<Seq<char>>)>,
    me: Seq<u8>,
    i: int,
)
    requires
        0 <= i < nodes.len(),
        nodes[i].0 != me,
    ensures
        ({
            let n = routes::others(nodes.take(i), me).len() as int;
            &&& n < routes::others(nodes, me).len()
            &&& routes::others(nodes, me)[n] == nodes[i]
        }),
    decreases nodes.len(),
{
    let front = nodes.drop_last();
    if i < front.len() {
        assert(front[i] == nodes[i]);
        assert(front.take(i) =~= nodes.take(i));
        law_others_keep_their_order(front, me, i);
    } else {
        assert(nodes.take(i) =~= front);
    }
}

/// What is gathered keeps its order: a node that is new stands behind all that was gathered
/// before it, with the addresses that it first came with.
pub proof fn law_gathering_keeps_the_order(
    nodes: Seq<(Seq<u8>, Seq<Seq<char>>)>,
    more: Seq<(Seq<u8>, Seq<Seq<char>>)>,
    i: int,
)
    requires
        0 <= i < more.len(),
        forall|k: int| 0 <= k < nodes.len() ==> (#[trigger] nodes[k]).0 != more[i].0,
        forall|k: int| 0 <= k < i ==> (#[trigger] more[k]).0 != more[i].0,
    ensures
        ({
            let n = routes::gather(nodes, more.take(i)).len() as int;
            &&& n < routes::gather(nodes, more).len()
            &&& routes::gather(nodes, more)[n] == more[i]
        }),
    decreases more.len(),
{
    let front = more.drop_last();
    if i < front.len() {
        assert(front[i] == more[i]);
        assert(front.take(i) =~= more.take(i));
        assert forall|k: int| 0 <= k < i implies (#[trigger] front[k]).0 != front[i].0 by {
            assert(more[k].0 != more[i].0);
        }
        law_gathering_keeps_the_order(nodes, front, i);
    } else {
        assert(more.take(i) =~= front);
        law_gathering_loses_nothing(nodes, front, more[i].0, 0);
        assert(!routes::listed(routes::gather(nodes, front), more[i].0)) by {
            if routes::listed(routes::gather(nodes, front), more[i].0) {
                let k = choose|k: int|
                    0 <= k < routes::gather(nodes, front).len() && (#[trigger] routes::gather(
                        nodes,
                        front,
                    )[k]).0 == more[i].0;
                assert(routes::gather(nodes, front)[k].0 == more[i].0);
                if exists|m: int| 0 <= m < front.len() && (#[trigger] front[m]).0 == more[i].0 {
                    let m = choose|m: int|
                        0 <= m < front.len() && (#[trigger] front[m]).0 == more[i].0;
                    assert(more[m].0 == more[i].0);
                }
            }
        }
    }
}

/// A way to a board is one that the link, the configuration or a live connection gives, and
/// no other; those of the link stand before all others, and those of the configuration before
/// those that are merely live. Each has the addresses of the best source that names it.
pub proof fn law_routes_are_ranked(
    link: Seq<(Seq<u8>, Seq<Seq<char>>)>,
    configured: Seq<(Seq<u8>, Seq<Seq<char>>)>,
    live: Seq<Digest32>,
    me: Seq<u8>,
    i: int,
    j: int,
)
    requires
        0 <= i < routes::routes_of(link, configured, live, me).len(),
        0 <= j < routes::routes_of(link, configured, live, me).len(),
    ensures
        ({
            let all = routes::routes_of(link, configured, live, me);
            &&& routes::listed(link, all[i].0) && !routes::listed(link, all[j].0) ==> i < j
            &&& routes::listed(configured, all[i].0) && !routes::listed(link, all[j].0)
                && !routes::listed(configured, all[j].0) ==> i < j
            &&& routes::listed(link, all[i].0) ==> link.contains(all[i])
            &&& !routes::listed(link, all[i].0) && routes::listed(configured, all[i].0)
                ==> configured.contains(all[i])
            &&& !routes::listed(link, all[i].0) && !routes::listed(configured, all[i].0)
                ==> all[i].1.len() == 0 && exists|k: int|
                0 <= k < live.len() && (#[trigger] live[k])@ == all[i].0
            &&& all[i].0 != me
        }),
{
    let all = routes::routes_of(link, configured, live, me);
    lemma_ranked(link, configured, live, me, i);
    lemma_ranked(link, configured, live, me, j);
    routes::law_routes_are_complete(link, configured, live, me, me);
    assert(routes::listed(all, all[i].0)) by {
        assert(all[i].0 == all[i].0);
    }
}

/// Which source a way comes of is told by its place.
proof fn lemma_ranked(
    link: Seq<(Seq<u8>, Seq<Seq<char>>)>,
    configured: Seq<(Seq<u8>, Seq<Seq<char>>)>,
    live: Seq<Digest32>,
    me: Seq<u8>,
    i: int,
)
    requires
        0 <= i < routes::routes_of(link, configured, live, me).len(),
    ensures
        ({
            let none = Seq::<(Seq<u8>, Seq<Seq<char>>)>::empty();
            let a = routes::gather(none, routes::others(link, me));
            let b = routes::gather(a, routes::others(configured, me));
            let all = routes::routes_of(link, configured, live, me);
            &&& a.len() <= b.len() <= all.len()
            &&& i < a.len() <==> routes::listed(link, all[i].0)
            &&& i < a.len() ==> link.contains(all[i])
            &&& a.len() <= i < b.len() ==> configured.contains(all[i])
            &&& i >= b.len() ==> !routes::listed(configured, all[i].0)
            &&& i >= b.len() ==> routes::bare(live).contains(all[i])
        }),
{
    let none = Seq::<(Seq<u8>, Seq<Seq<char>>)>::empty();
    let l = routes::others(link, me);
    let c = routes::others(configured, me);
    let v = routes::others(routes::bare(live), me);
    let a = routes::gather(none, l);
    let b = routes::gather(a, c);
    let all = routes::routes_of(link, configured, live, me);
    let x = all[i];
    law_gathering_loses_nothing(none, l, x.0, i);
    law_gathering_loses_nothing(a, c, x.0, i);
    law_gathering_loses_nothing(b, v, x.0, i);
    assert(invite::distinct(none));
    assert forall|k: int| 0 <= k < a.len() implies a[k] == #[trigger] b[k] by {
        assert(b.subrange(0, a.len() as int)[k] == b[k]);
    }
    assert forall|k: int| 0 <= k < b.len() implies b[k] == #[trigger] all[k] by {
        assert(all.subrange(0, b.len() as int)[k] == all[k]);
    }
    law_others_are_everybody_else(link, me, x);
    law_others_are_everybody_else(configured, me, x);
    law_others_are_everybody_else(routes::bare(live), me, x);
    routes::law_routes_are_complete(link, configured, live, me, me);
    assert(x.0 != me) by {
        if x.0 == me {
            assert(routes::listed(all, me));
        }
    }
    if i < a.len() {
        assert(a[i] == x);
        assert(link.contains(x));
        let k = link.index_of(x);
        assert(link[k].0 == x.0);
    } else if routes::listed(link, x.0) {
        let k = choose|k: int| 0 <= k < link.len() && (#[trigger] link[k]).0 == x.0;
        law_others_are_everybody_else(link, me, link[k]);
        let m = l.index_of(link[k]);
        assert(l[m].0 == x.0);
        let w = choose|w: int| 0 <= w < a.len() && (#[trigger] a[w]).0 == x.0;
        assert(all[w].0 == x.0);
        assert(all[w].0 != all[i].0);
    }
    if a.len() <= i < b.len() {
        assert(b[i] == x);
    }
    if i >= b.len() && routes::listed(configured, x.0) {
        let k = choose|k: int| 0 <= k < configured.len() && (#[trigger] configured[k]).0 == x.0;
        law_others_are_everybody_else(configured, me, configured[k]);
        let m = c.index_of(configured[k]);
        assert(c[m].0 == x.0);
        let w = choose|w: int| 0 <= w < b.len() && (#[trigger] b[w]).0 == x.0;
        assert(all[w].0 == x.0);
        assert(all[w].0 != all[i].0);
    }
}

/// An invite names the room's anchors first, in their order, and the configured ones behind
/// them, as far as there is place; it names nobody but them and this node, and never more
/// than it may.
/// Every anchor, and this node where it listens, is named wherever all of them have place:
/// a node that listens is named whenever fewer others are than may be.
pub proof fn law_invite_names_its_anchors(
    channel: Seq<(Seq<u8>, Seq<Seq<char>>)>,
    configured: Seq<(Seq<u8>, Seq<Seq<char>>)>,
    own: Option<(Seq<u8>, Seq<Seq<char>>)>,
    id: Seq<u8>,
)
    ensures
        ({
            let named = routes::invited_through(channel, configured, own);
            let both = routes::gather(channel, configured);
            &&& named.len() <= MAX_LINK_ANCHORS
            &&& channel.len() <= MAX_LINK_ANCHORS ==> channel.is_prefix_of(named)
            &&& channel.len() > MAX_LINK_ANCHORS ==> named == channel.take(MAX_LINK_ANCHORS as int)
            &&& both.len() >= MAX_LINK_ANCHORS ==> named == both.take(MAX_LINK_ANCHORS as int)
            &&& both.len() < MAX_LINK_ANCHORS ==> both.is_prefix_of(named)
            &&& own is Some && both.len() < MAX_LINK_ANCHORS ==> exists|k: int|
                0 <= k < named.len() && (#[trigger] named[k]).0 == own->Some_0.0
            &&& own is Some && both.len() < MAX_LINK_ANCHORS && (forall|k: int|
                0 <= k < both.len() ==> (#[trigger] both[k]).0 != own->Some_0.0)
                ==> named.last() == own->Some_0
            &&& own is Some && channel.len() + configured.len() < MAX_LINK_ANCHORS ==> named.len()
                > 0
            &&& channel.len() + configured.len() < MAX_LINK_ANCHORS && ((exists|k: int|
                0 <= k < channel.len() && (#[trigger] channel[k]).0 == id) || (exists|k: int|
                0 <= k < configured.len() && (#[trigger] configured[k]).0 == id) || (own is Some
                && own->Some_0.0 == id)) ==> exists|k: int|
                0 <= k < named.len() && (#[trigger] named[k]).0 == id
            &&& invite::distinct(channel) ==> invite::distinct(named)
            &&& forall|k: int|
                0 <= k < named.len() ==> channel.contains(#[trigger] named[k])
                    || configured.contains(named[k]) || own == Some(named[k])
        }),
{
    let both = routes::gather(channel, configured);
    let mine = match own {
        Some(n) => seq![n],
        None => Seq::empty(),
    };
    let all = routes::gather(both, mine);
    let named = routes::invited_through(channel, configured, own);
    law_gathering_loses_nothing(channel, configured, id, 0);
    law_gathering_loses_nothing(both, mine, id, both.len() as int);
    assert(both.subrange(0, channel.len() as int) =~= channel);
    assert(all.subrange(0, both.len() as int) =~= both);
    assert(all.subrange(0, channel.len() as int) =~= channel);
    assert forall|k: int| 0 <= k < named.len() implies #[trigger] named[k] == all[k] by {}
    assert forall|k: int| 0 <= k < channel.len() implies #[trigger] all[k] == channel[k] by {
        assert(all.subrange(0, channel.len() as int)[k] == all[k]);
    }
    if channel.len() <= MAX_LINK_ANCHORS {
        assert(named.subrange(0, channel.len() as int) =~= channel);
    } else {
        assert(named =~= channel.take(MAX_LINK_ANCHORS as int));
    }
    if let Some(n) = own {
        assert(mine[0] == n);
        law_gathering_loses_nothing(both, mine, n.0, 0);
        if both.len() < MAX_LINK_ANCHORS {
            assert(all.len() <= MAX_LINK_ANCHORS);
            assert(named == all);
            if forall|k: int| 0 <= k < both.len() ==> (#[trigger] both[k]).0 != n.0 {
                let k = choose|k: int| 0 <= k < all.len() && (#[trigger] all[k]).0 == n.0;
                if k < both.len() {
                    assert(all.subrange(0, both.len() as int)[k] == both[k]);
                }
                assert(all.len() == both.len() + 1);
                assert(mine.contains(all[both.len() as int]));
                assert(all.last() == n);
            }
        }
    }
    if invite::distinct(channel) {
        assert forall|a: int, b: int| 0 <= a < b < named.len() implies (#[trigger] named[a]).0 != (
        #[trigger] named[b]).0 by {
            assert(named[a] == all[a] && named[b] == all[b]);
        }
    }
    assert forall|k: int| 0 <= k < named.len() implies channel.contains(#[trigger] named[k])
        || configured.contains(named[k]) || own == Some(named[k]) by {
        if k < channel.len() {
            assert(channel[k] == named[k]);
        } else if k < both.len() {
            law_gathering_loses_nothing(channel, configured, id, k);
            assert(all.subrange(0, both.len() as int)[k] == both[k]);
            assert(configured.contains(both[k]));
        } else {
            law_gathering_loses_nothing(both, mine, id, k);
            let m = choose|m: int| 0 <= m < mine.len() && mine[m] == all[k];
        }
    }
    if channel.len() + configured.len() < MAX_LINK_ANCHORS {
        assert(named == all);
    }
}

/// Every anchor is dialled that is somebody else and not connected, and no other.
pub proof fn law_dials_exactly_the_unconnected(
    nodes: Seq<(Seq<u8>, Seq<Seq<char>>)>,
    me: Seq<u8>,
    connected: Seq<Digest32>,
    n: (Seq<u8>, Seq<Seq<char>>),
)
    ensures
        routes::undialled(nodes, me, connected).contains(n) <==> nodes.contains(n) && n.0 != me && (
        forall|i: int| 0 <= i < connected.len() ==> (#[trigger] connected[i])@ != n.0),
    decreases nodes.len(),
{
    if nodes.len() > 0 {
        let front = nodes.drop_last();
        law_dials_exactly_the_unconnected(front, me, connected, n);
        let less = routes::undialled(front, me, connected);
        let all = routes::undialled(nodes, me, connected);
        if nodes.contains(n) {
            let i = choose|i: int| 0 <= i < nodes.len() && nodes[i] == n;
            if i < front.len() {
                assert(front[i] == n);
            }
        }
        if front.contains(n) {
            let i = choose|i: int| 0 <= i < front.len() && front[i] == n;
            assert(nodes[i] == n);
        }
        assert(nodes[nodes.len() - 1] == nodes.last());
        if all.len() > less.len() {
            assert(all[all.len() - 1] == nodes.last());
        }
        if less.contains(n) {
            let i = choose|i: int| 0 <= i < less.len() && less[i] == n;
            assert(all[i] == n);
        }
        if all.contains(n) {
            let i = choose|i: int| 0 <= i < all.len() && all[i] == n;
            if i < less.len() {
                assert(less[i] == n);
            }
        }
    }
}

/// The nodes that are dialled are so in their order: each behind those before it that are.
pub proof fn law_dials_in_order(
    nodes: Seq<(Seq<u8>, Seq<Seq<char>>)>,
    me: Seq<u8>,
    connected: Seq<Digest32>,
    i: int,
)
    requires
        0 <= i < nodes.len(),
        nodes[i].0 != me,
        forall|k: int| 0 <= k < connected.len() ==> (#[trigger] connected[k])@ != nodes[i].0,
    ensures
        ({
            let n = routes::undialled(nodes.take(i), me, connected).len() as int;
            &&& n < routes::undialled(nodes, me, connected).len()
            &&& routes::undialled(nodes, me, connected)[n] == nodes[i]
        }),
    decreases nodes.len(),
{
    let front = nodes.drop_last();
    if i < front.len() {
        assert(front[i] == nodes[i]);
        assert(front.take(i) =~= nodes.take(i));
        law_dials_in_order(front, me, connected, i);
    } else {
        assert(nodes.take(i) =~= front);
    }
}

/// An anchor of a room is taken over exactly where it is somebody else.
pub proof fn law_rooms_anchors_are_taken_over(
    anchors: Seq<(Seq<u8>, Seq<Seq<char>>)>,
    me: Seq<u8>,
    id: Seq<u8>,
)
    ensures
        rooms::adopted(anchors, me).contains(id) <==> id != me && exists|i: int|
            0 <= i < anchors.len() && (#[trigger] anchors[i]).0 == id,
{
}

// ---- what a pass covers ----------------------------------------------------------

/// A pass with a peer covers exactly the open channels that the peer is an author of, all of
/// them where the peer is an anchor, and the kept ones that it is an author of; after a local
/// append only those open channels that were appended to.
pub proof fn law_pass_covers_exactly_what_is_shared(
    n: NodeCore,
    peer: Digest32,
    trigger: SyncTrigger,
    authored: Seq<Digest32>,
    kept: Seq<Digest32>,
    id: Digest32,
)
    requires
        n.wf(),
    ensures
        rounds::pass_of(n, peer, trigger, authored, kept).contains(id) <==> {
            ||| {
                &&& n.channels.map().contains_key(id@)
                &&& n.anchor_ids.map().contains_key(peer@) || authored.contains(id)
                &&& trigger == SyncTrigger::LocalAppend ==> n.pending_push.map().contains_key(id@)
            }
            ||| {
                &&& n.anchored.map().contains_key(id@)
                &&& kept.contains(id)
                &&& trigger != SyncTrigger::LocalAppend
            }
        },
{
    let p = peers::covers(n, peer, trigger, authored);
    let q = peers::covers_anchored(trigger, kept);
    let a = lists::pick(ops::ids_of(n.channels.rows()), p);
    let b = lists::pick(ops::ids_of(n.anchored.rows()), q);
    lists::lemma_pick_contains(ops::ids_of(n.channels.rows()), p, id);
    lists::lemma_pick_contains(ops::ids_of(n.anchored.rows()), q, id);
    owing::lemma_ids(n.channels.rows(), id);
    owing::lemma_ids(n.anchored.rows(), id);
    lemma_joined_contains(a, b, id);
}

proof fn lemma_joined_contains<T>(a: Seq<T>, b: Seq<T>, x: T)
    ensures
        (a + b).contains(x) <==> a.contains(x) || b.contains(x),
{
    if a.contains(x) {
        let i = choose|i: int| 0 <= i < a.len() && a[i] == x;
        assert((a + b)[i] == x);
    }
    if b.contains(x) {
        let i = choose|i: int| 0 <= i < b.len() && b[i] == x;
        assert((a + b)[a.len() + i] == x);
    }
    if (a + b).contains(x) {
        let i = choose|i: int| 0 <= i < (a + b).len() && (a + b)[i] == x;
        if i < a.len() {
            assert(a[i] == x);
        } else {
            assert(b[i - a.len()] == x);
        }
    }
}

// ---- keys and reach --------------------------------------------------------------

/// Every consent that is owed is delivered: in each open room, to each admitted author that is
/// somebody else, is trusted and is no reader of that room yet; and to nobody else.
pub proof fn law_every_owed_consent_is_delivered(
    trusted: Seq<Digest32>,
    rooms: Seq<OpenRoom>,
    readers: Seq<Vec<Digest32>>,
    k: nat,
    room: Digest32,
    who: Digest32,
)
    requires
        k <= rooms.len(),
        forall|j: int| 0 <= j < k ==> (#[trigger] rooms[j]).channel.wf(),
    ensures
        rounds::owed_in(trusted, rooms, readers, k).contains((room, who)) <==> exists|j: int| {
            &&& 0 <= j < k
            &&& (#[trigger] rooms[j]).channel.channel_id == room
            &&& rooms[j].channel.authors.map().contains_key(who@)
            &&& who != rooms[j].channel.sender.author_id
            &&& trusted.contains(who)
            &&& !readers[j]@.contains(who)
        },
    decreases k,
{
    if k > 0 {
        let less = (k - 1) as nat;
        let front = rounds::owed_in(trusted, rooms, readers, less);
        let ch = rooms[k - 1].channel;
        assert(ch.wf());
        let picked = lists::pick(
            ops::ids_of(ch.authors.rows()),
            ops::owes_consent(ch.sender.author_id, trusted, readers[k - 1]@),
        );
        let here = rounds::paired(ch.channel_id, picked);
        law_every_owed_consent_is_delivered(trusted, rooms, readers, less, room, who);
        owing::law_consent_is_owed_exactly(ch, trusted, readers[k - 1]@, who);
        lemma_joined_contains(front, here, (room, who));
        if picked.contains(who) && ch.channel_id == room {
            let i = choose|i: int| 0 <= i < picked.len() && picked[i] == who;
            assert(here[i] == (room, who));
        }
        if here.contains((room, who)) {
            let i = choose|i: int| 0 <= i < here.len() && here[i] == (room, who);
            assert(picked[i] == who);
            assert(rooms[k - 1].channel.channel_id == room);
        }
    }
}

/// A first message opens a session exactly where the channel is held, the peer is an author of
/// it, this node is unlocked and has its prekeys, the prekeys that it names are there, and the
/// use of a one-time prekey was written.
pub proof fn law_hello_opens_exactly(
    n: NodeCore,
    id: Digest32,
    init: InitNames,
    is_author: bool,
    used: OneTimeUse,
    saved: bool,
    signed: bool,
    begun: bool,
)
    ensures
        peers::hello_holds(n, id, Some(init), is_author, used, saved, signed, begun) <==> {
            &&& n.channels.map().contains_key(id@)
            &&& is_author
            &&& n.unlocked
            &&& n.prekeys
            &&& signed
            &&& begun
            &&& init.one_time_prekey_id is None || (used != OneTimeUse::Unknown && saved)
        },
        !peers::hello_holds(n, id, None, is_author, used, saved, signed, begun),
{
}

/// A log is kept exactly where this node keeps logs and neither is a member of the channel nor
/// keeps it already.
pub proof fn law_log_is_kept_once(n: NodeCore, id: Digest32)
    ensures
        n.wants(id) <==> n.anchor_logs && !n.channels.map().contains_key(id@)
            && !n.anchored.map().contains_key(id@),
{
}

/// Every copy that opens again is kept, at its last epoch, and what was kept stays; one that
/// does not open is not added.
#[verifier::spinoff_prover]
#[verifier::rlimit(40)]
pub proof fn law_copies_are_taken_up_again(
    kept: Map<Seq<u8>, u64>,
    stored: Seq<(Digest32, Result<u64, Error>)>,
    id: Seq<u8>,
)
    ensures
        rounds::reopened(kept, stored).contains_key(id) <==> kept.contains_key(id) || exists|
            i: int,
        |
            0 <= i < stored.len() && (#[trigger] stored[i]).0@ == id && stored[i].1 is Ok,
        (forall|i: int| 0 <= i < stored.len() && (#[trigger] stored[i]).0@ == id ==> stored[i].1 is Err)
            && kept.contains_key(id) ==> rounds::reopened(kept, stored)[id] == kept[id],
        forall|i: int|
            0 <= i < stored.len() && (#[trigger] stored[i]).0@ == id && stored[i].1 is Ok && (
            forall|j: int|
                i < j < stored.len() && (#[trigger] stored[j]).0@ == id ==> stored[j].1 is Err)
                ==> rounds::reopened(kept, stored)[id] == stored[i].1->Ok_0,
    decreases stored.len(),
{
    if stored.len() > 0 {
        let front = stored.drop_last();
        law_copies_are_taken_up_again(kept, front, id);
        assert forall|i: int| 0 <= i < front.len() implies front[i] == #[trigger] stored[i] by {}
        assert(stored[stored.len() - 1] == stored.last());
        assert forall|i: int|
            0 <= i < stored.len() && (#[trigger] stored[i]).0@ == id && stored[i].1 is Ok && (
            forall|j: int|
                i < j < stored.len() && (#[trigger] stored[j]).0@ == id ==> stored[j].1
                    is Err) implies rounds::reopened(kept, stored)[id] == stored[i].1->Ok_0 by {
            if i < front.len() {
                assert(front[i].0@ == id);
            }
        }
    }
}

} // verus!
