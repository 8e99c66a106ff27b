//! What holds of the node over time: what is published where, whose streams are served, what
//! locking leaves behind, when things are due, and what clients are shown.

use vstd::prelude::*;

use crate::actor::boards::{self, OwnRecords};
use crate::actor::node::{self, Effect, NodeCore, PairSlot, PortMapping};
use crate::actor::ticks::{self, Inbound, NetEvent};
use crate::actor::view::{self, OpenRoom};
use crate::actor::work;
use crate::actor;
use crate::api::{AnchoredChannel, ChannelSummary, Fault, NodeCommand, NodeEvent, Outcome};
use crate::channel::sync::SyncOutcome;
use crate::error::Error;
use crate::hash::{self, Digest32};
use crate::table::{Key, Table};

verus! {

// ---- network work ----------------------------------------------------------------

/// Every open channel is published anew, on this node's board and on its anchors', and
/// nothing else is done.
pub proof fn law_every_room_is_republished(rows: Seq<(Digest32, u64)>, i: int, k: int)
    ensures
        0 <= i < rows.len() ==> ticks::republish(rows).contains(Effect::PublishLocally(rows[i].0))
            && ticks::republish(rows).contains(Effect::PublishToAnchors(rows[i].0)),
        0 <= k < ticks::republish(rows).len() ==> exists|j: int|
            0 <= j < rows.len() && (ticks::republish(rows)[k] == Effect::PublishLocally(
                (#[trigger] rows[j]).0,
            ) || ticks::republish(rows)[k] == Effect::PublishToAnchors(rows[j].0)),
    decreases rows.len(),
{
    if rows.len() > 0 {
        let front = rows.drop_last();
        let less = ticks::republish(front);
        let all = ticks::republish(rows);
        law_every_room_is_republished(front, i, k);
        assert(all[less.len() as int] == Effect::PublishLocally(rows.last().0));
        assert(all[less.len() as int + 1] == Effect::PublishToAnchors(rows.last().0));
        assert forall|j: int| 0 <= j < less.len() implies #[trigger] all[j] == less[j] by {}
        if 0 <= i < front.len() {
            let a = choose|a: int|
                0 <= a < less.len() && less[a] == Effect::PublishLocally(front[i].0);
            let b = choose|b: int|
                0 <= b < less.len() && less[b] == Effect::PublishToAnchors(front[i].0);
            assert(all[a] == Effect::PublishLocally(rows[i].0));
            assert(all[b] == Effect::PublishToAnchors(rows[i].0));
        }
        if 0 <= k < all.len() {
            if k < less.len() {
                let j = choose|j: int|
                    0 <= j < front.len() && (less[k] == Effect::PublishLocally(
                        (#[trigger] front[j]).0,
                    ) || less[k] == Effect::PublishToAnchors(front[j].0));
                assert(rows[j] == front[j]);
            } else {
                assert(rows[rows.len() - 1] == rows.last());
            }
        }
    }
}

/// A new address is published for every open channel; an anchor that answers gets every open
/// channel's records, a schedule, and its streams served.
pub proof fn law_anchor_that_answers_gets_every_room(
    n: NodeCore,
    peer: Digest32,
    connection: u64,
    i: int,
)
    ensures
        ({
            let es = ticks::net_effects(n, NetEvent::AnchorConnected { peer, connection });
            &&& 0 <= i < n.channels.rows().len() ==> es.contains(
                Effect::PublishTo(n.channels.rows()[i].0, peer),
            )
            &&& es.contains(Effect::Schedule(peer))
            &&& es.contains(Effect::RefreshView)
            &&& es.contains(Effect::ServeStreams(connection)) <==> n.networked
                && !n.stream_loops@.contains(connection)
        }),
{
    let a = ticks::adopting(n, peer, connection);
    let b = a + seq![Effect::RefreshView];
    let p = ticks::publish_on(n.channels.rows(), peer);
    let es = ticks::net_effects(n, NetEvent::AnchorConnected { peer, connection });
    assert(es == b + p);
    assert(a.last() == Effect::Schedule(peer));
    assert(es[a.len() - 1] == Effect::Schedule(peer));
    assert(es[a.len() as int] == Effect::RefreshView);
    if 0 <= i < n.channels.rows().len() {
        assert(es[b.len() + i] == p[i]);
    }
    if n.networked && !n.stream_loops@.contains(connection) {
        assert(es[0] == Effect::ServeStreams(connection));
    }
}

/// The streams of a connection are served once: a connection is served from then on, every
/// other one as before, and one that is served already is not served again.
pub proof fn law_streams_are_served_once(n: NodeCore, peer: Digest32, connection: u64, other: u64)
    ensures
        ticks::loops_with(n, connection).contains(other) <==> n.stream_loops@.contains(other) || (
        n.networked && other == connection),
        n.stream_loops@.contains(connection) ==> ticks::loops_with(n, connection)
            == n.stream_loops@,
        ticks::adopting(n, peer, connection).contains(Effect::ServeStreams(other)) <==> n.networked
            && other == connection && !n.stream_loops@.contains(connection),
        ticks::adopting(n, peer, connection).contains(Effect::Schedule(peer)),
{
    let v = n.stream_loops@;
    let w = v.push(connection);
    assert(w[v.len() as int] == connection);
    if v.contains(other) {
        let i = choose|i: int| 0 <= i < v.len() && v[i] == other;
        assert(w[i] == other);
    }
    if w.contains(other) {
        let i = choose|i: int| 0 <= i < w.len() && w[i] == other;
        if i < v.len() {
            assert(v[i] == other);
        }
    }
    let a = ticks::adopting(n, peer, connection);
    assert(a[a.len() - 1] == Effect::Schedule(peer));
    if n.networked && !v.contains(connection) {
        assert(a[0] == Effect::ServeStreams(connection));
    }
}

/// What a peer opens a stream for is what is done, for that peer, and nothing else.
pub proof fn law_stream_is_answered_as_what_it_is(peer: Digest32)
    ensures
        ticks::stream_work(Inbound::Join { peer }) == seq![Effect::AnswerJoin(peer)],
        ticks::stream_work(Inbound::Pairwise { peer }) == seq![Effect::TakeControl(peer)],
        ticks::stream_work(Inbound::Punch { peer }) == seq![Effect::AnswerPunch(peer)],
        ticks::stream_work(Inbound::Tunnel { peer }) == seq![Effect::ServeTunnel(peer)],
        ticks::stream_work(Inbound::Sync) == seq![Effect::RunSync],
        ticks::stream_work(Inbound::Served).len() == 0,
{
}

/// A session is news exactly where it made something readable or folded something in, and
/// the news says how much was applied and how much became readable. The view is published in
/// any case.
pub proof fn law_session_is_news_exactly(n: NodeCore, id: Digest32, o: SyncOutcome, e: Error)
    ensures
        ({
            let es = ticks::net_effects(
                n,
                NetEvent::SyncDone { channel_id: id, outcome: Ok(o) },
            );
            let news = Effect::Emit(
                NodeEvent::Synced {
                    channel_id: id,
                    applied: o.applied as u64,
                    rendered: o.rendered as u64,
                },
            );
            &&& es.contains(Effect::RefreshView)
            &&& es.contains(news) <==> o.rendered > 0 || o.governance > 0
            &&& es.len() <= 2
        }),
        ticks::net_effects(n, NetEvent::SyncDone { channel_id: id, outcome: Err(e) }) == seq![
            Effect::RefreshView,
        ],
{
    let es = ticks::net_effects(n, NetEvent::SyncDone { channel_id: id, outcome: Ok(o) });
    assert(es[0] == Effect::RefreshView);
    if o.rendered > 0 || o.governance > 0 {
        assert(es[1] == Effect::Emit(
            NodeEvent::Synced {
                channel_id: id,
                applied: o.applied as u64,
                rendered: o.rendered as u64,
            },
        ));
    }
    assert(ticks::net_effects(n, NetEvent::SyncDone { channel_id: id, outcome: Err(e) }) =~= seq![
        Effect::RefreshView,
    ]);
}

// ---- what is due -----------------------------------------------------------------

/// The shortest lifetime is one of those granted, expires, and is no longer than any other
/// that does; there is none exactly where nothing that was granted expires.
pub proof fn law_shortest_lifetime_is_the_least(lifetimes: Seq<u32>)
    ensures
        match actor::shortest(lifetimes) {
            Some(m) => {
                &&& m > 0
                &&& lifetimes.contains(m)
                &&& forall|i: int|
                    0 <= i < lifetimes.len() && #[trigger] lifetimes[i] > 0 ==> m <= lifetimes[i]
            },
            None => forall|i: int| 0 <= i < lifetimes.len() ==> #[trigger] lifetimes[i] == 0,
        },
    decreases lifetimes.len(),
{
    if lifetimes.len() > 0 {
        let front = lifetimes.drop_last();
        law_shortest_lifetime_is_the_least(front);
        assert forall|i: int| 0 <= i < front.len() implies front[i] == #[trigger] lifetimes[i] by {}
        assert(lifetimes[lifetimes.len() - 1] == lifetimes.last());
        if let Some(m) = actor::shortest(front) {
            let i = choose|i: int| 0 <= i < front.len() && front[i] == m;
            assert(lifetimes[i] == m);
        }
    }
}

/// A grant is asked for again before it is over, in the middle of its time, and never sooner
/// than in a second.
pub proof fn law_grant_is_renewed_in_time(l: u32)
    requires
        l > 0,
    ensures
        actor::half_of(l) >= 1,
        l == 1 ==> actor::half_of(l) == 1,
        l > 1 ==> actor::half_of(l) < l,
        l > 1 ==> l - 1 <= 2 * actor::half_of(l) <= l,
{
}

/// A relayed peer is tried for a direct path exactly where its last try is a minute ago.
pub proof fn law_relayed_peer_is_tried_every_minute(n: NodeCore, now: u64, peer: Digest32)
    ensures
        n.last_upgrade.map().contains_key(peer@) ==> (n.upgrade_due(now)(peer)
            <==> n.last_upgrade.map()[peer@] + 60 <= now),
        !n.last_upgrade.map().contains_key(peer@) ==> (n.upgrade_due(now)(peer) <==> now >= 60),
{
}

// ---- locking ---------------------------------------------------------------------

/// A mapping is taken back exactly where a router granted it for ever.
pub proof fn law_permanent_mappings_are_taken_back(mappings: Seq<PortMapping>, port: u16)
    ensures
        node::unmaps(mappings).contains(Effect::Unmap(port)) <==> exists|i: int|
            0 <= i < mappings.len() && (#[trigger] mappings[i]).upnp && mappings[i].lifetime_secs
                == 0 && mappings[i].internal_port == port,
        forall|k: int| 0 <= k < node::unmaps(mappings).len() ==> #[trigger] node::unmaps(
            mappings,
        )[k] is Unmap,
    decreases mappings.len(),
{
    if mappings.len() > 0 {
        let front = mappings.drop_last();
        let less = node::unmaps(front);
        let all = node::unmaps(mappings);
        law_permanent_mappings_are_taken_back(front, port);
        assert forall|i: int| 0 <= i < front.len() implies front[i] == #[trigger] mappings[i] by {}
        assert(mappings[mappings.len() - 1] == mappings.last());
        if all.len() > less.len() {
            assert(all[less.len() as int] == Effect::Unmap(mappings.last().internal_port));
        }
        assert forall|k: int| 0 <= k < less.len() implies less[k] == #[trigger] all[k] by {}
        if less.contains(Effect::Unmap(port)) {
            let k = choose|k: int| 0 <= k < less.len() && less[k] == Effect::Unmap(port);
            assert(all[k] == Effect::Unmap(port));
        }
        if all.contains(Effect::Unmap(port)) {
            let k = choose|k: int| 0 <= k < all.len() && all[k] == Effect::Unmap(port);
            if k < less.len() {
                assert(less[k] == Effect::Unmap(port));
            }
        }
    }
}

/// Locking wipes every open channel, before anything else; it closes the network where it is
/// up, locks the vault where there is an identity, and is news where it was unlocked.
pub proof fn law_locking_wipes_every_room(n: NodeCore, i: int)
    ensures
        0 <= i < n.channels.rows().len() ==> node::lock_effects(n)[i] == Effect::LockChannel(
            n.channels.rows()[i].0,
        ),
        node::lock_effects(n).contains(Effect::CloseNetwork) <==> n.networked,
        node::lock_effects(n).contains(Effect::LockVault) <==> n.identity,
        node::lock_effects(n).contains(Effect::Emit(NodeEvent::Locked)) <==> n.unlocked,
{
    let a = NodeCore::locks(n.channels.rows());
    let b = node::closing(n);
    let es = node::lock_effects(n);
    let c = node::unmaps(n.port_mappings@);
    law_permanent_mappings_are_taken_back(n.port_mappings@, 0);
    let head: Seq<Effect> = if n.networked {
        seq![Effect::CloseNetwork]
    } else {
        Seq::empty()
    };
    assert(b == head + c);
    assert forall|k: int| 0 <= k < c.len() implies #[trigger] b[head.len() + k] == c[k] by {}
    assert forall|k: int| 0 <= k < a.len() implies #[trigger] es[k] == a[k] by {}
    assert forall|k: int| 0 <= k < b.len() implies #[trigger] es[a.len() + k] == b[k] by {}
    if n.networked {
        assert(b[0] == Effect::CloseNetwork);
        assert(es[a.len() as int] == Effect::CloseNetwork);
    }
    let m = a.len() + b.len();
    if n.identity {
        assert(es[m as int] == Effect::LockVault);
    }
    if n.unlocked {
        assert(es[es.len() - 1] == Effect::Emit(NodeEvent::Locked));
    }
    assert forall|k: int| 0 <= k < es.len() implies (es[k] == Effect::CloseNetwork ==> n.networked)
        && (es[k] == Effect::LockVault ==> n.identity) && (es[k] == Effect::Emit(NodeEvent::Locked)
        ==> n.unlocked) by {
        if k < a.len() {
            assert(es[k] == a[k]);
            assert(a[k] is LockChannel);
        } else if k < m {
            let q = k - a.len();
            assert(es[a.len() + q] == b[q]);
            if q >= head.len() {
                assert(b[head.len() + (q - head.len())] == c[q - head.len()]);
                assert(c[q - head.len()] is Unmap);
            }
        }
    }
}

/// Keys are loaded exactly where both the prekeys and the keyring are; the prekeys' failure
/// is reported first.
pub proof fn law_keys_are_loaded_whole(
    prekeys: Result<(), Error>,
    keyring: Result<Table<Digest32, String>, Error>,
)
    ensures
        node::keys_loaded(prekeys, keyring) is Ok <==> prekeys is Ok && keyring is Ok,
        prekeys is Err ==> node::keys_loaded(prekeys, keyring) == prekeys,
        prekeys is Ok && keyring is Err ==> node::keys_loaded(prekeys, keyring) == Err::<(), Error>(
            keyring->Err_0,
        ),
{
}

/// Sessions with different peers, or in different channels, are kept apart.
pub proof fn law_sessions_are_told_apart(a: PairSlot, b: PairSlot)
    ensures
        a.key_bytes() == b.key_bytes() <==> a == b,
{
    if a.key_bytes() == b.key_bytes() {
        let (x, y) = (a.key_bytes(), b.key_bytes());
        assert(x.take(32) =~= a.channel_id@);
        assert(y.take(32) =~= b.channel_id@);
        assert(x.skip(32) =~= a.peer@);
        assert(y.skip(32) =~= b.peer@);
        hash::lemma_digest_ext(a.channel_id, b.channel_id);
        hash::lemma_digest_ext(a.peer, b.peer);
    }
}

/// A command is answered at once exactly where it ends the node, would lock one that has no
/// vault, or would revoke whom the keyring still names.
pub proof fn law_only_these_commands_are_answered_at_once(n: NodeCore, command: NodeCommand)
    ensures
        match n.answer_at_once(command) {
            Some(Outcome::Done) => command is Shutdown,
            Some(Outcome::Failed(f)) => {
                ||| command is Lock && n.headless && f == Fault::NoIdentity
                ||| command is Revoke && n.trusted.map().contains_key(command->Revoke_target@) && f
                    == Fault::StillTrusted
            },
            None => {
                &&& !(command is Shutdown)
                &&& command is Lock ==> !n.headless
                &&& command is Revoke ==> !n.trusted.map().contains_key(command->Revoke_target@)
            },
        },
{
}

/// A channel that was opened is published, its anchors are adopted, and it is news.
pub proof fn law_opened_room_is_published(id: Digest32)
    ensures
        work::after_opening(id).contains(Effect::AdoptAnchors(id)),
        work::after_opening(id).contains(Effect::RefreshView),
        work::after_opening(id).contains(Effect::PublishLocally(id)),
        work::after_opening(id).contains(Effect::PublishToAnchors(id)),
        work::after_opening(id).contains(
            Effect::Emit(NodeEvent::ChannelOpened { channel_id: id }),
        ),
{
    let es = work::after_opening(id);
    assert(es[0] == Effect::AdoptAnchors(id));
    assert(es[1] == Effect::RefreshView);
    assert(es[2] == Effect::PublishLocally(id));
    assert(es[3] == Effect::PublishToAnchors(id));
    assert(es[4] == Effect::Emit(NodeEvent::ChannelOpened { channel_id: id }));
}

/// A channel that was appended to is to be pushed where the network is up, and what was to be
/// pushed before still is.
pub proof fn law_append_is_to_be_pushed(n: NodeCore, id: Digest32, other: Seq<u8>)
    ensures
        n.networked ==> work::pushed(n, id).contains_key(id@),
        n.pending_push.map().contains_key(other) ==> work::pushed(n, id).contains_key(other),
        work::pushed(n, id).contains_key(other) ==> n.pending_push.map().contains_key(other) || (
        other == id@ && n.networked),
{
}

// ---- boards ----------------------------------------------------------------------

/// A member with its records puts them on an anchor's board whole: the genesis, its address,
/// its bundle, and then every record that its own board holds, in order; and the first three
/// on its own board.
pub proof fn law_members_records_are_published(
    genesis: Seq<u8>,
    own: OwnRecords,
    board: Seq<Seq<u8>>,
    i: int,
    e: Error,
    admitted: bool,
)
    ensures
        ({
            let out = boards::for_anchor(genesis, true, Ok(own), board);
            &&& out.len() == 3 + board.len()
            &&& out[0] == genesis && out[1] == own.address@ && out[2] == own.bundle@
            &&& 0 <= i < board.len() ==> out[3 + i] == board[i]
        }),
        ({
            let out = boards::for_own_board(genesis, true, Ok(own));
            out.len() == 3 && out[0] == genesis && out[1] == own.address@ && out[2] == own.bundle@
        }),
        boards::for_anchor(genesis, admitted, Err(e), board).len() == 0,
        boards::for_own_board(genesis, admitted, Err(e)) == seq![genesis],
{
}

// ---- the view --------------------------------------------------------------------

/// A channel is looked up among the open ones by its own identifier: the first that has it,
/// and none only where none has it.
pub proof fn law_room_is_found_by_its_id(rooms: Seq<OpenRoom>, id: Digest32)
    ensures
        match view::room_of(rooms, id) {
            Some(i) => {
                &&& 0 <= i < rooms.len()
                &&& rooms[i].channel.channel_id == id
                &&& forall|j: int| 0 <= j < i ==> (#[trigger] rooms[j]).channel.channel_id != id
            },
            None => forall|j: int|
                0 <= j < rooms.len() ==> (#[trigger] rooms[j]).channel.channel_id != id,
        },
    decreases rooms.len(),
{
    if rooms.len() > 0 {
        let front = rooms.drop_last();
        law_room_is_found_by_its_id(front, id);
        assert forall|j: int| 0 <= j < front.len() implies front[j] == #[trigger] rooms[j] by {}
    }
}

/// A channel is shown as open exactly where it is, with the name and the number of entries
/// that it has.
pub proof fn law_summary_says_what_is_open(
    s: ChannelSummary,
    id: Digest32,
    rooms: Seq<OpenRoom>,
    i: int,
)
    requires
        view::summarizes(s, id, rooms),
    ensures
        s.channel_id == id,
        s.open <==> exists|j: int|
            0 <= j < rooms.len() && (#[trigger] rooms[j]).channel.channel_id == id,
        0 <= i < rooms.len() && rooms[i].channel.channel_id == id && (forall|j: int|
            0 <= j < i ==> (#[trigger] rooms[j]).channel.channel_id != id) ==> {
            &&& s.local_name is Some
            &&& s.local_name->Some_0@ == rooms[i].channel.local_name@
            &&& s.entries == rooms[i].channel.log@.len()
        },
{
    law_room_is_found_by_its_id(rooms, id);
    if let Some(k) = view::room_of(rooms, id) {
        assert(rooms[k].channel.channel_id == id);
        if 0 <= i < rooms.len() && rooms[i].channel.channel_id == id && (forall|j: int|
            0 <= j < i ==> (#[trigger] rooms[j]).channel.channel_id != id) {
            if i < k {
                assert(rooms[i].channel.channel_id != id);
            }
        }
    }
}

/// A kept copy is shown with the number of entries that it holds; nothing else of it changes.
pub proof fn law_kept_copy_is_shown_with_its_entries(
    a: AnchoredChannel,
    kept: Map<Seq<u8>, u64>,
)
    ensures
        kept.contains_key(a.channel_id@) ==> view::anchored_row(a, kept).entries == Some(
            kept[a.channel_id@],
        ),
        !kept.contains_key(a.channel_id@) ==> view::anchored_row(a, kept) == a,
        view::anchored_row(a, kept).channel_id == a.channel_id,
        view::anchored_row(a, kept).members == a.members,
        view::anchored_row(a, kept).pending == a.pending,
{
}

} // verus!
