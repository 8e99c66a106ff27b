//! Which anchors are dialled, asked and named, and in which order.

use vstd::prelude::*;

use crate::bootstrap::{self, BootstrapNode};
use crate::hash::{self, same_digest, Digest32};
use crate::link::invite;
use crate::link::{scan, MAX_LINK_ANCHORS};
use crate::lists::has_digest;

verus! {

/// Whether a node with an identity is among some.
pub open spec fn listed(nodes: Seq<(Seq<u8>, Seq<Seq<char>>)>, id: Seq<u8>) -> bool {
    exists|i: int| 0 <= i < nodes.len() && (#[trigger] nodes[i]).0 == id
}

/// Nodes with more behind them, the first of each identity only.
pub open spec fn gather(
    nodes: Seq<(Seq<u8>, Seq<Seq<char>>)>,
    more: Seq<(Seq<u8>, Seq<Seq<char>>)>,
) -> Seq<(Seq<u8>, Seq<Seq<char>>)>
    decreases more.len(),
{
    if more.len() == 0 {
        nodes
    } else {
        let front = gather(nodes, more.drop_last());
        if listed(front, more.last().0) {
            front
        } else {
            front.push(more.last())
        }
    }
}

/// The nodes that are somebody else.
pub open spec fn others(nodes: Seq<(Seq<u8>, Seq<Seq<char>>)>, me: Seq<u8>) -> Seq<
    (Seq<u8>, Seq<Seq<char>>),
>
    decreases nodes.len(),
{
    if nodes.len() == 0 {
        Seq::empty()
    } else if nodes.last().0 == me {
        others(nodes.drop_last(), me)
    } else {
        others(nodes.drop_last(), me).push(nodes.last())
    }
}

/// Identities without addresses.
pub open spec fn bare(ids: Seq<Digest32>) -> Seq<(Seq<u8>, Seq<Seq<char>>)> {
    Seq::new(ids.len(), |i: int| (ids[i]@, Seq::<Seq<char>>::empty()))
}

fn is_listed(nodes: &Vec<BootstrapNode>, id: &Digest32) -> (r: bool)
    ensures
        r == listed(bootstrap::nodes_view(nodes@), id@),
{
    let ghost vs = bootstrap::nodes_view(nodes@);
    let mut i: usize = 0;
    while i < nodes.len()
        invariant
            i <= nodes@.len(),
            vs == bootstrap::nodes_view(nodes@),
            forall|j: int| 0 <= j < i ==> (#[trigger] vs[j]).0 != id@,
        decreases nodes@.len() - i,
    {
        if same_digest(&nodes[i].id, id) {
            assert(vs[i as int].0 == id@);
            return true;
        }
        assert(vs[i as int].0 != id@);
        i = i + 1;
    }
    false
}

/// Puts those of `more` that are neither listed yet nor this node itself behind `nodes`.
fn gather_others(nodes: &mut Vec<BootstrapNode>, more: &Vec<BootstrapNode>, me: &Digest32)
    ensures
        bootstrap::nodes_view(final(nodes)@) == gather(
            bootstrap::nodes_view(old(nodes)@),
            others(bootstrap::nodes_view(more@), me@),
        ),
{
    let ghost start = bootstrap::nodes_view(nodes@);
    let ghost ms = bootstrap::nodes_view(more@);
    let mut i: usize = 0;
    assert(ms.take(0) =~= Seq::empty());
    while i < more.len()
        invariant
            i <= more@.len(),
            ms == bootstrap::nodes_view(more@),
            bootstrap::nodes_view(nodes@) == gather(start, others(ms.take(i as int), me@)),
        decreases more@.len() - i,
    {
        let n: &BootstrapNode = &more[i];
        let ghost sofar = bootstrap::nodes_view(nodes@);
        proof {
            assert(ms.take(i + 1).drop_last() =~= ms.take(i as int));
            assert(ms.take(i + 1).last() == n@);
            let o = others(ms.take(i as int), me@);
            assert(o.push(n@).drop_last() =~= o);
        }
        if !same_digest(&n.id, me) && !is_listed(nodes, &n.id) {
            nodes.push(n.copy());
            assert(bootstrap::nodes_view(nodes@) =~= sofar.push(n@));
        }
        i = i + 1;
    }
    assert(ms.take(i as int) =~= ms);
}

/// The ways to a board: the link's anchors first, because whoever wrote the link knows
/// where the room lives; then the configured ones; then those this node is connected to
/// from before, which need no address. None is listed twice, nor this node itself.
pub open spec fn routes_of(
    link: Seq<(Seq<u8>, Seq<Seq<char>>)>,
    configured: Seq<(Seq<u8>, Seq<Seq<char>>)>,
    live: Seq<Digest32>,
    me: Seq<u8>,
) -> Seq<(Seq<u8>, Seq<Seq<char>>)> {
    gather(
        gather(gather(Seq::empty(), others(link, me)), others(configured, me)),
        others(bare(live), me),
    )
}

/// The ways to a board, best hint first.
pub fn board_routes(
    link: &Vec<BootstrapNode>,
    configured: &Vec<BootstrapNode>,
    live: &Vec<Digest32>,
    me: &Digest32,
) -> (out: Vec<BootstrapNode>)
    ensures
        bootstrap::nodes_view(out@) == routes_of(
            bootstrap::nodes_view(link@),
            bootstrap::nodes_view(configured@),
            live@,
            me@,
        ),
{
    let mut out: Vec<BootstrapNode> = Vec::new();
    assert(bootstrap::nodes_view(out@) =~= Seq::empty());
    gather_others(&mut out, link, me);
    gather_others(&mut out, configured, me);
    let mut learned: Vec<BootstrapNode> = Vec::new();
    let mut i: usize = 0;
    while i < live.len()
        invariant
            i <= live@.len(),
            bootstrap::nodes_view(learned@) == bare(live@).take(i as int),
        decreases live@.len() - i,
    {
        let ghost sofar = bootstrap::nodes_view(learned@);
        let n: BootstrapNode = BootstrapNode { id: live[i], endpoints: Vec::new() };
        assert(scan::texts(n.endpoints@) =~= Seq::empty());
        learned.push(n);
        assert(bootstrap::nodes_view(learned@) =~= sofar.push(n@));
        assert(bootstrap::nodes_view(learned@) =~= bare(live@).take(i + 1));
        i = i + 1;
    }
    assert(bare(live@).take(i as int) =~= bare(live@));
    gather_others(&mut out, &learned, me);
    out
}

/// The anchors of a channel just joined: those of the link that are somebody else, and
/// the configured ones.
pub fn learned_anchors(
    link: &Vec<BootstrapNode>,
    configured: &Vec<BootstrapNode>,
    me: &Digest32,
) -> (out: Vec<BootstrapNode>)
    ensures
        bootstrap::nodes_view(out@) == gather(
            gather(Seq::empty(), others(bootstrap::nodes_view(link@), me@)),
            bootstrap::nodes_view(configured@),
        ),
{
    let mut out: Vec<BootstrapNode> = Vec::new();
    assert(bootstrap::nodes_view(out@) =~= Seq::empty());
    gather_others(&mut out, link, me);
    gather_all(&mut out, configured);
    out
}

fn gather_all(nodes: &mut Vec<BootstrapNode>, more: &Vec<BootstrapNode>)
    ensures
        bootstrap::nodes_view(final(nodes)@) == gather(
            bootstrap::nodes_view(old(nodes)@),
            bootstrap::nodes_view(more@),
        ),
{
    let ghost start = bootstrap::nodes_view(nodes@);
    let ghost ms = bootstrap::nodes_view(more@);
    let mut i: usize = 0;
    assert(ms.take(0) =~= Seq::empty());
    while i < more.len()
        invariant
            i <= more@.len(),
            ms == bootstrap::nodes_view(more@),
            bootstrap::nodes_view(nodes@) == gather(start, ms.take(i as int)),
        decreases more@.len() - i,
    {
        let n: &BootstrapNode = &more[i];
        let ghost sofar = bootstrap::nodes_view(nodes@);
        proof {
            assert(ms.take(i + 1).drop_last() =~= ms.take(i as int));
            assert(ms.take(i + 1).last() == n@);
        }
        if !is_listed(nodes, &n.id) {
            nodes.push(n.copy());
            assert(bootstrap::nodes_view(nodes@) =~= sofar.push(n@));
        }
        i = i + 1;
    }
    assert(ms.take(i as int) =~= ms);
}

/// The anchors that an invite link names: the channel's, the configured ones, and this
/// node last, because an anchor is reachable by design and this node may not be.
pub open spec fn invited_through(
    channel: Seq<(Seq<u8>, Seq<Seq<char>>)>,
    configured: Seq<(Seq<u8>, Seq<Seq<char>>)>,
    own: Option<(Seq<u8>, Seq<Seq<char>>)>,
) -> Seq<(Seq<u8>, Seq<Seq<char>>)> {
    let all = gather(
        gather(channel, configured),
        match own {
            Some(n) => seq![n],
            None => Seq::empty(),
        },
    );
    if all.len() > MAX_LINK_ANCHORS {
        all.take(MAX_LINK_ANCHORS as int)
    } else {
        all
    }
}

/// The anchors that an invite link for a channel names. `own` is this node with the
/// endpoints it listens on, where it has any.
pub fn invite_anchors(
    channel: &Vec<BootstrapNode>,
    configured: &Vec<BootstrapNode>,
    own: Option<BootstrapNode>,
) -> (out: Vec<BootstrapNode>)
    ensures
        bootstrap::nodes_view(out@) == invited_through(
            bootstrap::nodes_view(channel@),
            bootstrap::nodes_view(configured@),
            match own {
                Some(n) => Some(n@),
                None => None,
            },
        ),
        out@.len() <= MAX_LINK_ANCHORS,
{
    let mut out: Vec<BootstrapNode> = Vec::new();
    let mut i: usize = 0;
    let ghost cs = bootstrap::nodes_view(channel@);
    while i < channel.len()
        invariant
            i <= channel@.len(),
            cs == bootstrap::nodes_view(channel@),
            bootstrap::nodes_view(out@) == cs.take(i as int),
        decreases channel@.len() - i,
    {
        let ghost sofar = bootstrap::nodes_view(out@);
        out.push(channel[i].copy());
        assert(bootstrap::nodes_view(out@) =~= sofar.push(channel@[i as int]@));
        assert(sofar.push(channel@[i as int]@) =~= cs.take(i + 1));
        i = i + 1;
    }
    assert(cs.take(i as int) =~= cs);
    gather_all(&mut out, configured);
    let ghost both = bootstrap::nodes_view(out@);
    match own {
        Some(me) => {
            proof {
                assert(seq![me@].drop_last() =~= Seq::empty());
                assert(gather(both, Seq::empty()) == both);
                assert(seq![me@].last() == me@);
            }
            if !is_listed(&out, &me.id) {
                out.push(me);
                assert(bootstrap::nodes_view(out@) =~= both.push(me@));
            }
        },
        None => {},
    }
    let ghost all = bootstrap::nodes_view(out@);
    if out.len() > MAX_LINK_ANCHORS {
        out.truncate(MAX_LINK_ANCHORS);
        assert(bootstrap::nodes_view(out@) =~= all.take(MAX_LINK_ANCHORS as int));
    }
    assert(bootstrap::nodes_view(out@).len() == out@.len());
    out
}

/// The anchors to dial: somebody else, and not connected.
pub open spec fn undialled(
    nodes: Seq<(Seq<u8>, Seq<Seq<char>>)>,
    me: Seq<u8>,
    connected: Seq<Digest32>,
) -> Seq<(Seq<u8>, Seq<Seq<char>>)>
    decreases nodes.len(),
{
    if nodes.len() == 0 {
        Seq::empty()
    } else {
        let front = undialled(nodes.drop_last(), me, connected);
        let id = nodes.last().0;
        if id == me || exists|i: int|
            0 <= i < connected.len() && (#[trigger] connected[i])@ == id {
            front
        } else {
            front.push(nodes.last())
        }
    }
}

/// The anchors to dial: all but this node and those it is connected to.
pub fn to_dial(nodes: &Vec<BootstrapNode>, me: &Digest32, connected: &Vec<Digest32>) -> (out: Vec<
    BootstrapNode,
>)
    ensures
        bootstrap::nodes_view(out@) == undialled(
            bootstrap::nodes_view(nodes@),
            me@,
            connected@,
        ),
{
    let mut out: Vec<BootstrapNode> = Vec::new();
    let ghost ns = bootstrap::nodes_view(nodes@);
    let mut i: usize = 0;
    assert(ns.take(0) =~= Seq::empty());
    assert(bootstrap::nodes_view(out@) =~= Seq::empty());
    while i < nodes.len()
        invariant
            i <= nodes@.len(),
            ns == bootstrap::nodes_view(nodes@),
            bootstrap::nodes_view(out@) == undialled(ns.take(i as int), me@, connected@),
        decreases nodes@.len() - i,
    {
        let n: &BootstrapNode = &nodes[i];
        let ghost sofar = bootstrap::nodes_view(out@);
        let up: bool = has_digest(connected, &n.id);
        proof {
            assert(ns.take(i + 1).drop_last() =~= ns.take(i as int));
            assert(ns.take(i + 1).last() == n@);
            if up {
                let j = choose|j: int| 0 <= j < connected@.len() && connected@[j] == n.id;
                assert(connected@[j]@ == n@.0);
            } else {
                assert forall|j: int| 0 <= j < connected@.len() implies (#[trigger] connected@[j])@
                    != n@.0 by {
                    hash::lemma_digest_ext(connected@[j], n.id);
                    assert(connected@.contains(connected@[j]));
                }
            }
        }
        if !same_digest(&n.id, me) && !up {
            out.push(n.copy());
            assert(bootstrap::nodes_view(out@) =~= sofar.push(n@));
        }
        i = i + 1;
    }
    assert(ns.take(i as int) =~= ns);
    out
}

// ---- laws --------------------------------------------------------------------

proof fn lemma_gather(
    nodes: Seq<(Seq<u8>, Seq<Seq<char>>)>,
    more: Seq<(Seq<u8>, Seq<Seq<char>>)>,
)
    requires
        invite::distinct(nodes),
    ensures
        invite::distinct(gather(nodes, more)),
        nodes.is_prefix_of(gather(nodes, more)),
        forall|i: int| 0 <= i < more.len() ==> listed(gather(nodes, more), (#[trigger] more[i]).0),
        forall|id: Seq<u8>| #[trigger]
            listed(gather(nodes, more), id) ==> listed(nodes, id) || listed(more, id),
    decreases more.len(),
{
    if more.len() > 0 {
        let less = more.drop_last();
        let last = more.last();
        lemma_gather(nodes, less);
        let front = gather(nodes, less);
        let all = gather(nodes, more);
        assert forall|i: int| 0 <= i < more.len() implies listed(all, (#[trigger] more[i]).0) by {
            if i < less.len() {
                assert(less[i] == more[i]);
                assert(listed(front, less[i].0));
                let j = choose|j: int| 0 <= j < front.len() && (#[trigger] front[j]).0 == more[i].0;
                assert(all[j] == front[j]);
            } else if !listed(front, last.0) {
                assert(all[all.len() - 1] == last);
            }
        }
        assert forall|id: Seq<u8>| #[trigger] listed(all, id) implies listed(nodes, id) || listed(
            more,
            id,
        ) by {
            let j = choose|j: int| 0 <= j < all.len() && (#[trigger] all[j]).0 == id;
            if j < front.len() {
                assert(front[j].0 == id);
                assert(listed(front, id));
                if listed(less, id) {
                    let k = choose|k: int| 0 <= k < less.len() && (#[trigger] less[k]).0 == id;
                    assert(more[k].0 == id);
                }
            } else {
                assert(more[more.len() - 1].0 == id);
            }
        }
        assert(invite::distinct(all)) by {
            assert forall|i: int, j: int| 0 <= i < j < all.len() implies (#[trigger] all[i]).0 != (
            #[trigger] all[j]).0 by {
                assert(all[i] == front[i]);
                if j < front.len() {
                    assert(all[j] == front[j]);
                } else {
                    assert(front[i].0 == last.0 ==> listed(front, last.0));
                }
            }
        }
    }
}

proof fn lemma_others(nodes: Seq<(Seq<u8>, Seq<Seq<char>>)>, me: Seq<u8>, id: Seq<u8>)
    ensures
        listed(others(nodes, me), id) <==> listed(nodes, id) && id != me,
    decreases nodes.len(),
{
    if nodes.len() > 0 {
        let front = nodes.drop_last();
        lemma_others(front, me, id);
        let o = others(front, me);
        if listed(nodes, id) {
            let i = choose|i: int| 0 <= i < nodes.len() && (#[trigger] nodes[i]).0 == id;
            if i < front.len() {
                assert(front[i].0 == id);
            }
        }
        if listed(front, id) {
            let i = choose|i: int| 0 <= i < front.len() && (#[trigger] front[i]).0 == id;
            assert(nodes[i].0 == id);
        }
        let all = others(nodes, me);
        if listed(o, id) {
            let i = choose|i: int| 0 <= i < o.len() && (#[trigger] o[i]).0 == id;
            assert(all[i].0 == id);
        }
        if nodes.last().0 != me {
            assert(all[all.len() - 1] == nodes.last());
            assert(nodes[nodes.len() - 1] == nodes.last());
            if listed(all, id) {
                let i = choose|i: int| 0 <= i < all.len() && (#[trigger] all[i]).0 == id;
                if i < o.len() {
                    assert(o[i].0 == id);
                }
            }
        }
    }
}

/// Every way to a board is tried, once, and this node never dials itself: the link's
/// anchors stand in front of everything else.
pub proof fn law_routes_are_complete(
    link: Seq<(Seq<u8>, Seq<Seq<char>>)>,
    configured: Seq<(Seq<u8>, Seq<Seq<char>>)>,
    live: Seq<Digest32>,
    me: Seq<u8>,
    id: Seq<u8>,
)
    ensures
        invite::distinct(routes_of(link, configured, live, me)),
        !listed(routes_of(link, configured, live, me), me),
        listed(link, id) && id != me ==> listed(routes_of(link, configured, live, me), id),
        listed(configured, id) && id != me ==> listed(routes_of(link, configured, live, me), id),
        listed(bare(live), id) && id != me ==> listed(routes_of(link, configured, live, me), id),
        gather(Seq::empty(), others(link, me)).is_prefix_of(
            routes_of(link, configured, live, me),
        ),
{
    let none = Seq::<(Seq<u8>, Seq<Seq<char>>)>::empty();
    let a = gather(none, others(link, me));
    let b = gather(a, others(configured, me));
    let c = gather(b, others(bare(live), me));
    lemma_gather(none, others(link, me));
    lemma_gather(a, others(configured, me));
    lemma_gather(b, others(bare(live), me));
    lemma_others(link, me, id);
    lemma_others(configured, me, id);
    lemma_others(bare(live), me, id);
    lemma_others(link, me, me);
    lemma_others(configured, me, me);
    lemma_others(bare(live), me, me);
    lemma_kept(none, others(link, me), id);
    lemma_kept(a, others(configured, me), id);
    lemma_kept(b, others(bare(live), me), id);
    assert(!listed(none, me));
    assert(a.is_prefix_of(c)) by {
        assert(c.subrange(0, b.len() as int) =~= b);
        assert(b.subrange(0, a.len() as int) =~= a);
        assert(c.subrange(0, a.len() as int) =~= a);
    }
}

/// What was listed, or is added, is listed.
proof fn lemma_kept(
    nodes: Seq<(Seq<u8>, Seq<Seq<char>>)>,
    more: Seq<(Seq<u8>, Seq<Seq<char>>)>,
    id: Seq<u8>,
)
    requires
        invite::distinct(nodes),
    ensures
        listed(nodes, id) || listed(more, id) ==> listed(gather(nodes, more), id),
{
    lemma_gather(nodes, more);
    let all = gather(nodes, more);
    if listed(nodes, id) {
        let i = choose|i: int| 0 <= i < nodes.len() && (#[trigger] nodes[i]).0 == id;
        assert(all.subrange(0, nodes.len() as int)[i] == nodes[i]);
        assert(all[i].0 == id);
    }
    if listed(more, id) {
        let i = choose|i: int| 0 <= i < more.len() && (#[trigger] more[i]).0 == id;
        assert(listed(all, more[i].0));
    }
}

} // verus!
