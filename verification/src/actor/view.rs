//! The node's view of itself, as clients see it.

use vstd::prelude::*;

use crate::actor::node::NodeCore;
use crate::actor::row_of;
use crate::api::{
    AnchoredChannel, ChannelDetail, ChannelSummary, ForwardInfo, IdentityInfo, MessageRow, NodeView,
};
use crate::channel::ops;
use crate::channel::{ChannelState, Rendered};
use crate::hash::{same_digest, Digest32};
use crate::table::Table;

verus! {

/// An open channel, with what the view shows of it beside its state.
#[derive(Debug)]
pub struct OpenRoom {
    /// The channel.
    pub channel: ChannelState,
    /// Whether its key is locked in memory.
    pub mlocked: bool,
    /// Every entry held for it, in its order, with the entry's clock.
    pub order: Vec<(Digest32, u64)>,
}

/// Where a channel stands among the open ones, if it does.
pub open spec fn room_of(rooms: Seq<OpenRoom>, id: Digest32) -> Option<int>
    decreases rooms.len(),
{
    if rooms.len() == 0 {
        None
    } else {
        match room_of(rooms.drop_last(), id) {
            Some(i) => Some(i),
            None => if rooms.last().channel.channel_id == id {
                Some(rooms.len() - 1)
            } else {
                None
            },
        }
    }
}

proof fn lemma_room_stands(rooms: Seq<OpenRoom>, n: int, id: Digest32)
    requires
        0 <= n <= rooms.len(),
        room_of(rooms.take(n), id) is Some,
    ensures
        room_of(rooms, id) == room_of(rooms.take(n), id),
    decreases rooms.len() - n,
{
    if n < rooms.len() {
        assert(rooms.take(n + 1).drop_last() =~= rooms.take(n));
        lemma_room_stands(rooms, n + 1, id);
    } else {
        assert(rooms.take(n) =~= rooms);
    }
}

fn find_room(rooms: &Vec<OpenRoom>, id: &Digest32) -> (r: Option<usize>)
    ensures
        match r {
            Some(i) => i < rooms@.len() && room_of(rooms@, *id) == Some(i as int),
            None => room_of(rooms@, *id) is None,
        },
{
    let mut i: usize = 0;
    assert(rooms@.take(0) =~= Seq::empty());
    while i < rooms.len()
        invariant
            i <= rooms@.len(),
            room_of(rooms@.take(i as int), *id) is None,
        decreases rooms@.len() - i,
    {
        proof {
            assert(rooms@.take(i + 1).drop_last() =~= rooms@.take(i as int));
            assert(rooms@.take(i + 1).last() == rooms@[i as int]);
        }
        if same_digest(&rooms[i].channel.channel_id, id) {
            proof {
                lemma_room_stands(rooms@, i + 1, *id);
            }
            return Some(i);
        }
        i = i + 1;
    }
    assert(rooms@.take(i as int) =~= rooms@);
    None
}

/// What the view says of a channel that the profile knows.
pub open spec fn summarizes(s: ChannelSummary, id: Digest32, rooms: Seq<OpenRoom>) -> bool {
    &&& s.channel_id == id
    &&& match room_of(rooms, id) {
        Some(i) => {
            &&& s.open
            &&& s.local_name is Some && s.local_name->Some_0@ == rooms[i].channel.local_name@
            &&& s.entries == rooms[i].channel.log@.len()
        },
        None => !s.open && s.local_name is None && s.entries == 0,
    }
}

/// What the view shows of a rendered message at a place of the timeline.
pub open spec fn shows_row(row: MessageRow, r: Rendered, at: int) -> bool {
    &&& row.entry_hash == r.entry_hash
    &&& row.author == r.author
    &&& row.created_millis == r.created_millis
    &&& row.text@ == r.text@
    &&& row.arrival == at
    &&& !row.late
}

/// What the view shows of an open channel.
pub open spec fn details(d: ChannelDetail, room: OpenRoom) -> bool {
    let ch = room.channel;
    &&& d.channel_id == ch.channel_id
    &&& d.local_name@ == ch.local_name@
    &&& d.epoch == ch.epoch
    &&& d.members@ == ops::ids_of(ch.authors.rows())
    &&& d.timeline@.len() == ch.timeline@.len()
    &&& forall|i: int|
        0 <= i < d.timeline@.len() ==> shows_row(#[trigger] d.timeline@[i], ch.timeline@[i], i)
    &&& d.order@ == room.order@
    &&& d.services@.len() == ch.services.rows().len()
    &&& forall|i: int|
        0 <= i < d.services@.len() ==> (#[trigger] d.services@[i]).0@ == ch.services.rows()[i].0@
            && d.services@[i].1@ == ch.services.rows()[i].1@
}

fn detail_of(room: &OpenRoom) -> (d: ChannelDetail)
    ensures
        details(d, *room),
{
    let ch: &ChannelState = &room.channel;
    let mut timeline: Vec<MessageRow> = Vec::new();
    let mut i: usize = 0;
    while i < ch.timeline.len()
        invariant
            i <= ch.timeline@.len(),
            timeline@.len() == i,
            forall|j: int|
                0 <= j < i ==> shows_row(#[trigger] timeline@[j], ch.timeline@[j], j),
        decreases ch.timeline@.len() - i,
    {
        timeline.push(row_of(&ch.timeline[i], i as u64));
        i = i + 1;
    }
    let mut services: Vec<(String, String)> = Vec::new();
    let mut j: usize = 0;
    while j < ch.services.len()
        invariant
            j <= ch.services.rows().len(),
            services@.len() == j,
            forall|k: int|
                0 <= k < j ==> (#[trigger] services@[k]).0@ == ch.services.rows()[k].0@
                    && services@[k].1@ == ch.services.rows()[k].1@,
        decreases ch.services.rows().len() - j,
    {
        let row: &(String, String) = ch.services.row(j);
        services.push((row.0.clone(), row.1.clone()));
        j = j + 1;
    }
    let mut order: Vec<(Digest32, u64)> = Vec::new();
    let mut k: usize = 0;
    while k < room.order.len()
        invariant
            k <= room.order@.len(),
            order@ == room.order@.take(k as int),
        decreases room.order@.len() - k,
    {
        order.push(room.order[k]);
        assert(order@ =~= room.order@.take(k + 1));
        k = k + 1;
    }
    assert(room.order@.take(k as int) =~= room.order@);
    ChannelDetail {
        channel_id: ch.channel_id,
        local_name: ch.local_name.clone(),
        epoch: ch.epoch,
        members: ch.members(),
        timeline,
        order,
        services,
    }
}

/// What the view shows of a forward.
pub open spec fn same_forward(a: ForwardInfo, b: ForwardInfo) -> bool {
    &&& a.channel_id == b.channel_id
    &&& a.host == b.host
    &&& a.service_tag@ == b.service_tag@
    &&& a.local@ == b.local@
}

/// What the view says of an anchored channel: how many entries the copy holds, where one
/// is kept.
pub open spec fn anchored_row(a: AnchoredChannel, kept: Map<Seq<u8>, u64>) -> AnchoredChannel {
    if kept.contains_key(a.channel_id@) {
        AnchoredChannel { entries: Some(kept[a.channel_id@]), ..a }
    } else {
        a
    }
}

/// What only the network and the store know.
#[derive(Debug)]
pub struct Outlook {
    /// The endpoints this node listens on.
    pub listening: Vec<String>,
    /// Every channel in the profile, in channel order.
    pub known: Vec<Digest32>,
    /// Every channel the board holds a genesis for, in channel order.
    pub board: Vec<AnchoredChannel>,
    /// How many entries each kept copy holds.
    pub kept: Table<Digest32, u64>,
    /// The peers reached through a relay.
    pub relayed: Table<Digest32, bool>,
    /// How many circuits this node carries for others.
    pub relaying: usize,
}

/// Whether the key of every open channel is locked in memory.
pub open spec fn all_mlocked(rooms: Seq<OpenRoom>) -> bool {
    forall|i: int| 0 <= i < rooms.len() ==> (#[trigger] rooms[i]).mlocked
}

/// The node's view of itself.
pub fn view_of(
    n: &NodeCore,
    identity: Option<IdentityInfo>,
    rooms: &Vec<OpenRoom>,
    out: Outlook,
) -> (v: NodeView)
    requires
        n.wf(),
        out.kept.wf(),
    ensures
        v.identity == identity,
        v.locked == !n.unlocked,
        v.mlock_active == all_mlocked(rooms@),
        v.listening == out.listening,
        v.channels@.len() == out.known@.len(),
        forall|i: int|
            0 <= i < v.channels@.len() ==> summarizes(
                #[trigger] v.channels@[i],
                out.known@[i],
                rooms@,
            ),
        v.open_channels@.len() == rooms@.len(),
        forall|i: int|
            0 <= i < rooms@.len() ==> details(#[trigger] v.open_channels@[i], rooms@[i]),
        v.forwards@.len() == n.forwards.rows().len(),
        forall|i: int|
            0 <= i < v.forwards@.len() ==> same_forward(
                #[trigger] v.forwards@[i],
                n.forwards.rows()[i].1,
            ),
        v.anchoring@.len() == out.board@.len(),
        forall|i: int|
            0 <= i < v.anchoring@.len() ==> #[trigger] v.anchoring@[i] == anchored_row(
                out.board@[i],
                out.kept.map(),
            ),
        v.trusted@.len() == n.trusted.rows().len(),
        forall|i: int|
            0 <= i < v.trusted@.len() ==> (#[trigger] v.trusted@[i]).0 == n.trusted.rows()[i].0
                && v.trusted@[i].1@ == n.trusted.rows()[i].1@,
        v.relayed_peers@ == ops::ids_of(out.relayed.rows()),
        v.relaying == out.relaying,
{
    let mut channels: Vec<ChannelSummary> = Vec::new();
    let mut i: usize = 0;
    while i < out.known.len()
        invariant
            i <= out.known@.len(),
            channels@.len() == i,
            forall|j: int|
                0 <= j < i ==> summarizes(#[trigger] channels@[j], out.known@[j], rooms@),
        decreases out.known@.len() - i,
    {
        let id: Digest32 = out.known[i];
        let s: ChannelSummary = match find_room(rooms, &id) {
            Some(at) => ChannelSummary {
                channel_id: id,
                local_name: Some(rooms[at].channel.local_name.clone()),
                open: true,
                entries: rooms[at].channel.entry_count() as u64,
            },
            None => ChannelSummary { channel_id: id, local_name: None, open: false, entries: 0 },
        };
        channels.push(s);
        i = i + 1;
    }
    let mut open_channels: Vec<ChannelDetail> = Vec::new();
    let mut mlock_active: bool = true;
    let mut j: usize = 0;
    assert(all_mlocked(rooms@.take(0)));
    while j < rooms.len()
        invariant
            j <= rooms@.len(),
            open_channels@.len() == j,
            mlock_active == all_mlocked(rooms@.take(j as int)),
            forall|k: int|
                0 <= k < j ==> details(#[trigger] open_channels@[k], rooms@[k]),
        decreases rooms@.len() - j,
    {
        open_channels.push(detail_of(&rooms[j]));
        proof {
            let a = rooms@.take(j as int);
            let b = rooms@.take(j + 1);
            if all_mlocked(b) {
                assert forall|k: int| 0 <= k < a.len() implies (#[trigger] a[k]).mlocked by {
                    assert(b[k] == a[k]);
                }
                assert(b[j as int].mlocked);
            } else {
                let k = choose|k: int| 0 <= k < b.len() && !(#[trigger] b[k]).mlocked;
                if k < j {
                    assert(!a[k].mlocked);
                }
            }
        }
        mlock_active = mlock_active && rooms[j].mlocked;
        j = j + 1;
    }
    assert(rooms@.take(j as int) =~= rooms@);
    let mut forwards: Vec<ForwardInfo> = Vec::new();
    let mut k: usize = 0;
    while k < n.forwards.len()
        invariant
            k <= n.forwards.rows().len(),
            forwards@.len() == k,
            forall|q: int|
                0 <= q < k ==> same_forward(#[trigger] forwards@[q], n.forwards.rows()[q].1),
        decreases n.forwards.rows().len() - k,
    {
        let f: &ForwardInfo = &n.forwards.row(k).1;
        forwards.push(
            ForwardInfo {
                channel_id: f.channel_id,
                host: f.host,
                service_tag: f.service_tag.clone(),
                local: f.local.clone(),
            },
        );
        k = k + 1;
    }
    let mut anchoring: Vec<AnchoredChannel> = Vec::new();
    let mut m: usize = 0;
    while m < out.board.len()
        invariant
            m <= out.board@.len(),
            out.kept.wf(),
            anchoring@.len() == m,
            forall|q: int|
                0 <= q < m ==> #[trigger] anchoring@[q] == anchored_row(
                    out.board@[q],
                    out.kept.map(),
                ),
        decreases out.board@.len() - m,
    {
        let mut a: AnchoredChannel = out.board[m];
        match out.kept.get(&a.channel_id) {
            Some(entries) => {
                a.entries = Some(*entries);
            },
            None => {},
        }
        anchoring.push(a);
        m = m + 1;
    }
    let mut trusted: Vec<(Digest32, String)> = Vec::new();
    let mut t: usize = 0;
    while t < n.trusted.len()
        invariant
            t <= n.trusted.rows().len(),
            trusted@.len() == t,
            forall|q: int|
                0 <= q < t ==> (#[trigger] trusted@[q]).0 == n.trusted.rows()[q].0
                    && trusted@[q].1@ == n.trusted.rows()[q].1@,
        decreases n.trusted.rows().len() - t,
    {
        let row: &(Digest32, String) = n.trusted.row(t);
        trusted.push((row.0, row.1.clone()));
        t = t + 1;
    }
    let mut relayed_peers: Vec<Digest32> = Vec::new();
    let mut p: usize = 0;
    while p < out.relayed.len()
        invariant
            p <= out.relayed.rows().len(),
            relayed_peers@ == ops::ids_of(out.relayed.rows()).take(p as int),
        decreases out.relayed.rows().len() - p,
    {
        relayed_peers.push(out.relayed.row(p).0);
        assert(relayed_peers@ =~= ops::ids_of(out.relayed.rows()).take(p + 1));
        p = p + 1;
    }
    assert(ops::ids_of(out.relayed.rows()).take(p as int) =~= ops::ids_of(out.relayed.rows()));
    NodeView {
        identity,
        locked: !n.unlocked,
        mlock_active,
        listening: out.listening,
        channels,
        open_channels,
        forwards,
        anchoring,
        trusted,
        relayed_peers,
        relaying: out.relaying,
    }
}

} // verus!
