//! A frame is read back as it was written, and with nothing behind it.

use vstd::prelude::*;

use crate::api::{MessageRow, NodeEvent};
use crate::cbor::{self, Cur, Tok};
use crate::error::Error;
use crate::hash::{self, Digest32};
use crate::ipc::frame::{self, Frame};

verus! {

/// Whether `addr` is what the address that a frame names parses to, and its list can be
/// counted.
pub open spec fn can_be_read(f: Frame, addr: Option<Seq<char>>) -> bool {
    match f {
        Frame::Event(ev) => ev.address() is Some ==> addr == ev.address(),
        Frame::Rows { rows } => rows@.len() <= u64::MAX,
        Frame::Order { entries } => entries@.len() <= u64::MAX,
        Frame::Members { members } => members@.len() <= u64::MAX,
        Frame::Rooms { rooms } => rooms@.len() <= u64::MAX,
        Frame::Trusted { entries } => entries@.len() <= u64::MAX,
        _ => true,
    }
}

/// What the node writes is what a client reads: the encoding of every frame is
/// accepted, and whatever frame is read from it is like the one that was written. An
/// address is read as what its text parses to, which is the address that was written.
pub proof fn law_frame_read_back(f: Frame, addr: Option<Seq<char>>)
    requires
        cbor::all_encodable(f.toks()),
        can_be_read(f, addr),
    ensures
        frame::frame_fault(cbor::enc(f.toks()), addr) is None,
        cbor::toks_of(cbor::enc(f.toks())) == f.toks(),
        f.read_from(f.toks(), addr),
        f matches Frame::Event(ev) ==> frame::named_address(cbor::enc(f.toks())) == ev.address(),
        forall|g: Frame| #[trigger]
            g.read_from(cbor::toks_of(cbor::enc(f.toks())), addr) ==> g.is_same(&f),
{
    let b = cbor::enc(f.toks());
    cbor::law_items_read_back(f.toks());
    assert(f.toks() + Seq::<Tok>::empty() =~= f.toks());
    lemma_frame_read(f, b, Seq::empty(), addr);
    assert forall|g: Frame| #[trigger] g.read_from(f.toks(), addr) implies g.is_same(&f) by {
        lemma_frame_same(g, f, addr);
    }
}

/// A frame with anything behind it is refused.
pub proof fn law_frame_trailing_is_refused(f: Frame, more: Seq<u8>, addr: Option<Seq<char>>)
    requires
        cbor::all_encodable(f.toks()),
        can_be_read(f, addr),
        more.len() > 0,
    ensures
        frame::frame_fault(cbor::enc(f.toks()) + more, addr) == Some(
            frame::bad("ipc frame trailing"),
        ),
{
    cbor::law_front_read_back(f.toks(), more);
    cbor::lemma_toks_step(more);
    lemma_frame_read(f, cbor::enc(f.toks()) + more, cbor::toks_of(more), addr);
}

/// A frame is read up to what follows it.
#[verifier::rlimit(40)]
proof fn lemma_frame_read(f: Frame, b: Seq<u8>, rest: Seq<Tok>, addr: Option<Seq<char>>)
    requires
        cbor::toks_of(b) == f.toks() + rest,
        can_be_read(f, addr),
    ensures
        ({
            let start = Cur::at(b);
            let tagged = start.array(frame::bad("ipc frame"));
            let body = tagged.uint(frame::bad("ipc frame tag"));
            let done = frame::frame_fields(body, tagged.peek_uint(), start.peek_array(), addr);
            &&& body.bad is None && done.bad is None
            &&& done.toks == rest && done.clean == cbor::clean(b)
        }),
        f.read_from(f.toks(), addr),
        f matches Frame::Event(ev) ==> frame::named_address(b) == ev.address(),
{
    let start = Cur::at(b);
    let tagged = start.array(frame::bad("ipc frame"));
    let body = tagged.uint(frame::bad("ipc frame tag"));
    match f {
        Frame::Rows { rows } => {
            lemma_row_reads(rows@);
            lemma_list_read(
                b,
                frame::T_ROWS,
                frame::bad("ipc rows"),
                rows@,
                frame::row_item(),
                frame::row_step(),
                rest,
            );
        },
        Frame::Order { entries } => {
            lemma_order_reads(entries@);
            lemma_list_read(
                b,
                frame::T_ORDER_ROWS,
                frame::bad("ipc order"),
                entries@,
                frame::order_item(),
                frame::order_step(),
                rest,
            );
        },
        Frame::Members { members } => {
            lemma_member_reads(members@);
            lemma_list_read(
                b,
                frame::T_MEMBERS,
                frame::bad("ipc members"),
                members@,
                frame::member_item(),
                frame::member_step(),
                rest,
            );
        },
        Frame::Rooms { rooms } => {
            let raw = frame::rooms_as(rooms@, frame::room_flags(rooms@));
            lemma_room_reads(raw);
            lemma_list_read(
                b,
                frame::T_ROOMS,
                frame::bad("ipc rooms"),
                raw,
                frame::room_item(),
                frame::room_step(),
                rest,
            );
            assert(frame::rooms_read(rooms@, frame::room_flags(rooms@)));
        },
        Frame::Trusted { entries } => {
            lemma_trusted_reads(entries@);
            lemma_list_read(
                b,
                frame::T_TRUSTED,
                frame::bad("ipc trusted array"),
                entries@,
                frame::trusted_item(),
                frame::trusted_step(),
                rest,
            );
        },
        Frame::Event(ev) => {
            lemma_event_read(ev, b, rest, addr);
        },
        _ => {
            assert(start.toks[0] == f.toks()[0]);
            assert(start.toks[1] == f.toks()[1]);
            assert(body.toks =~= f.toks().skip(2) + rest);
            let done = frame::frame_fields(body, tagged.peek_uint(), start.peek_array(), addr);
            assert(done.toks =~= rest);
        },
    }
}

proof fn lemma_row_reads(xs: Seq<MessageRow>)
    ensures
        cbor::reads_back(xs, frame::row_item(), frame::row_step()),
{
    assert forall|i: int, c: Cur, tail: Seq<Tok>|
        0 <= i < xs.len() && c.bad is None && c.toks
            == #[trigger] (frame::row_item()(#[trigger] xs[i])
            + tail) implies #[trigger] frame::row_step()(c) == (Cur { toks: tail, ..c }) by {
        assert(frame::row_step()(c).toks =~= tail);
    }
}

proof fn lemma_order_reads(xs: Seq<(Digest32, u64)>)
    ensures
        cbor::reads_back(xs, frame::order_item(), frame::order_step()),
{
    assert forall|i: int, c: Cur, tail: Seq<Tok>|
        0 <= i < xs.len() && c.bad is None && c.toks
            == #[trigger] (frame::order_item()(#[trigger] xs[i])
            + tail) implies #[trigger] frame::order_step()(c) == (Cur { toks: tail, ..c }) by {
        assert(frame::order_step()(c).toks =~= tail);
    }
}

proof fn lemma_member_reads(xs: Seq<Digest32>)
    ensures
        cbor::reads_back(xs, frame::member_item(), frame::member_step()),
{
    assert forall|i: int, c: Cur, tail: Seq<Tok>|
        0 <= i < xs.len() && c.bad is None && c.toks
            == #[trigger] (frame::member_item()(#[trigger] xs[i])
            + tail) implies #[trigger] frame::member_step()(c) == (Cur { toks: tail, ..c }) by {
        assert(frame::member_step()(c).toks =~= tail);
    }
}

proof fn lemma_trusted_reads(xs: Seq<(Digest32, String)>)
    ensures
        cbor::reads_back(xs, frame::trusted_item(), frame::trusted_step()),
{
    assert forall|i: int, c: Cur, tail: Seq<Tok>|
        0 <= i < xs.len() && c.bad is None && c.toks
            == #[trigger] (frame::trusted_item()(#[trigger] xs[i])
            + tail) implies #[trigger] frame::trusted_step()(c) == (Cur { toks: tail, ..c }) by {
        assert(frame::trusted_step()(c).toks =~= tail);
    }
}

proof fn lemma_room_reads(xs: Seq<(Seq<u8>, Seq<char>, u64)>)
    requires
        forall|i: int| 0 <= i < xs.len() ==> (#[trigger] xs[i]).0.len() == 32,
    ensures
        cbor::reads_back(xs, frame::room_item(), frame::room_step()),
{
    assert forall|i: int, c: Cur, tail: Seq<Tok>|
        0 <= i < xs.len() && c.bad is None && c.toks
            == #[trigger] (frame::room_item()(#[trigger] xs[i])
            + tail) implies #[trigger] frame::room_step()(c) == (Cur { toks: tail, ..c }) by {
        assert(frame::room_step()(c).toks =~= tail);
    }
}

proof fn lemma_list_read<T>(
    b: Seq<u8>,
    tag: u64,
    e: Error,
    xs: Seq<T>,
    item: spec_fn(T) -> Seq<Tok>,
    step: spec_fn(Cur) -> Cur,
    rest: Seq<Tok>,
)
    requires
        xs.len() <= u64::MAX,
        cbor::toks_of(b) == cbor::put_all(frame::list_head(tag, xs.len()), xs, item) + rest,
        cbor::reads_back(xs, item, step),
    ensures
        ({
            let start = Cur::at(b);
            let tagged = start.array(frame::bad("ipc frame"));
            let body = tagged.uint(frame::bad("ipc frame tag"));
            &&& tagged.bad is None && body.bad is None
            &&& start.peek_array() == 2 && tagged.peek_uint() == tag
            &&& body.toks.len() > 0 && body.toks[0] == Tok::Array(xs.len() as u64)
            &&& cbor::many(body.array(e), xs.len(), step) == (Cur { toks: rest, ..Cur::at(b) })
        }),
{
    let list = cbor::put_all(cbor::items(), xs, item);
    cbor::lemma_put_all_base(frame::list_head(tag, xs.len()), xs, item);
    let start = Cur::at(b);
    let tagged = start.array(frame::bad("ipc frame"));
    let body = tagged.uint(frame::bad("ipc frame tag"));
    let c = body.array(e);
    assert(start.toks[0] == Tok::Array(2));
    assert(tagged.toks[0] == start.toks[1]);
    assert(body.toks[0] == start.toks[2]);
    assert(c.toks =~= list + rest);
    cbor::lemma_many_read(c, xs, item, step, rest);
}

#[verifier::rlimit(60)]
proof fn lemma_event_read(ev: NodeEvent, b: Seq<u8>, rest: Seq<Tok>, addr: Option<Seq<char>>)
    requires
        cbor::toks_of(b) == ev.toks() + rest,
        ev.address() is Some ==> addr == ev.address(),
    ensures
        frame::readdressed(ev.toks(), addr) == ev.toks(),
        frame::named_address(b) == ev.address(),
        ({
            let start = Cur::at(b);
            let tagged = start.array(frame::bad("ipc frame"));
            let body = tagged.uint(frame::bad("ipc frame tag"));
            let done = frame::frame_fields(body, tagged.peek_uint(), start.peek_array(), addr);
            &&& tagged.bad is None && body.bad is None && done.bad is None
            &&& done.toks == rest && done.clean == cbor::clean(b)
        }),
{
    assert(frame::readdressed(ev.toks(), addr) =~= ev.toks());
    let start = Cur::at(b);
    let tagged = start.array(frame::bad("ipc frame"));
    let body = tagged.uint(frame::bad("ipc frame tag"));
    assert(start.toks[0] == ev.toks()[0]);
    assert(start.toks[1] == ev.toks()[1]);
    assert(body.toks =~= ev.toks().skip(2) + rest);
    let done = frame::frame_fields(body, tagged.peek_uint(), start.peek_array(), addr);
    assert(done.toks =~= rest);
}

/// Events that are written alike are alike.
#[verifier::rlimit(60)]
proof fn lemma_event_same(a: NodeEvent, b: NodeEvent)
    requires
        a.toks() == b.toks(),
    ensures
        a.is_same(&b),
{
    assert(a.toks()[1] == Tok::Uint(a.tag()));
    assert(b.toks()[1] == Tok::Uint(b.tag()));
    match (a, b) {
        (
            NodeEvent::NewEntry { channel_id, row },
            NodeEvent::NewEntry { channel_id: p, row: q },
        ) => {
            assert(a.toks()[2] == b.toks()[2]);
            assert(a.toks()[3] == b.toks()[3]);
            assert(a.toks()[4] == b.toks()[4]);
            assert(a.toks()[5] == b.toks()[5]);
            assert(a.toks()[6] == b.toks()[6]);
            assert(a.toks()[7] == b.toks()[7]);
            assert(a.toks()[8] == b.toks()[8]);
            hash::lemma_digest_ext(channel_id, p);
            hash::lemma_digest_ext(row.entry_hash, q.entry_hash);
            hash::lemma_digest_ext(row.author, q.author);
        },
        (NodeEvent::ChannelOpened { channel_id }, NodeEvent::ChannelOpened { channel_id: p }) => {
            assert(a.toks()[2] == b.toks()[2]);
            hash::lemma_digest_ext(channel_id, p);
        },
        (NodeEvent::ChannelClosed { channel_id }, NodeEvent::ChannelClosed { channel_id: p }) => {
            assert(a.toks()[2] == b.toks()[2]);
            hash::lemma_digest_ext(channel_id, p);
        },
        (
            NodeEvent::PeerJoined { channel_id, peer },
            NodeEvent::PeerJoined { channel_id: p, peer: q },
        ) => {
            assert(a.toks()[2] == b.toks()[2]);
            assert(a.toks()[3] == b.toks()[3]);
            hash::lemma_digest_ext(channel_id, p);
            hash::lemma_digest_ext(peer, q);
        },
        (
            NodeEvent::KeyNotTaken { channel_id, peer, why },
            NodeEvent::KeyNotTaken { channel_id: p, peer: q, why: r },
        ) => {
            assert(a.toks()[2] == b.toks()[2]);
            assert(a.toks()[3] == b.toks()[3]);
            assert(a.toks()[4] == b.toks()[4]);
            hash::lemma_digest_ext(channel_id, p);
            hash::lemma_digest_ext(peer, q);
        },
        (
            NodeEvent::SenderKeyReceived { channel_id, peer, backfilled },
            NodeEvent::SenderKeyReceived { channel_id: p, peer: q, backfilled: r },
        ) => {
            assert(a.toks()[2] == b.toks()[2]);
            assert(a.toks()[3] == b.toks()[3]);
            assert(a.toks()[4] == b.toks()[4]);
            hash::lemma_digest_ext(channel_id, p);
            hash::lemma_digest_ext(peer, q);
        },
        (
            NodeEvent::Forwarding { channel_id, host, service_tag, local },
            NodeEvent::Forwarding { channel_id: p, host: q, service_tag: r, local: s },
        ) => {
            assert(a.toks()[2] == b.toks()[2]);
            assert(a.toks()[3] == b.toks()[3]);
            assert(a.toks()[4] == b.toks()[4]);
            assert(a.toks()[5] == b.toks()[5]);
            hash::lemma_digest_ext(channel_id, p);
            hash::lemma_digest_ext(host, q);
        },
        (NodeEvent::Stalled { what, millis }, NodeEvent::Stalled { what: p, millis: q }) => {
            assert(a.toks()[2] == b.toks()[2]);
            assert(a.toks()[3] == b.toks()[3]);
        },
        (
            NodeEvent::PublishRefused { channel_id, what, why },
            NodeEvent::PublishRefused { channel_id: p, what: q, why: r },
        ) => {
            assert(a.toks()[2] == b.toks()[2]);
            assert(a.toks()[3] == b.toks()[3]);
            assert(a.toks()[4] == b.toks()[4]);
            hash::lemma_digest_ext(channel_id, p);
        },
        (NodeEvent::JoinFailed { reason }, NodeEvent::JoinFailed { reason: p }) => {
            assert(a.toks()[2] == b.toks()[2]);
        },
        (NodeEvent::JoinSteps { joined, steps }, NodeEvent::JoinSteps { joined: p, steps: q }) => {
            assert(a.toks()[2] == b.toks()[2]);
            assert(a.toks()[3] == b.toks()[3]);
        },
        (
            NodeEvent::StillRelayed { peer, reason },
            NodeEvent::StillRelayed { peer: p, reason: q },
        ) => {
            assert(a.toks()[2] == b.toks()[2]);
            assert(a.toks()[3] == b.toks()[3]);
            hash::lemma_digest_ext(peer, p);
        },
        (NodeEvent::ProxyRefused { reason }, NodeEvent::ProxyRefused { reason: p }) => {
            assert(a.toks()[2] == b.toks()[2]);
        },
        (
            NodeEvent::PeerUnreachable { peer, why },
            NodeEvent::PeerUnreachable { peer: p, why: q },
        ) => {
            assert(a.toks()[2] == b.toks()[2]);
            assert(a.toks()[3] == b.toks()[3]);
            hash::lemma_digest_ext(peer, p);
        },
        (
            NodeEvent::ReachWithdrawn { channel_id, port },
            NodeEvent::ReachWithdrawn { channel_id: p, port: q },
        ) => {
            assert(a.toks()[2] == b.toks()[2]);
            assert(a.toks()[3] == b.toks()[3]);
            hash::lemma_digest_ext(channel_id, p);
        },
        (
            NodeEvent::InviteLink { channel_id, url },
            NodeEvent::InviteLink { channel_id: p, url: q },
        ) => {
            assert(a.toks()[2] == b.toks()[2]);
            assert(a.toks()[3] == b.toks()[3]);
            hash::lemma_digest_ext(channel_id, p);
        },
        (
            NodeEvent::Joined { channel_id, responder },
            NodeEvent::Joined { channel_id: p, responder: q },
        ) => {
            assert(a.toks()[2] == b.toks()[2]);
            assert(a.toks()[3] == b.toks()[3]);
            hash::lemma_digest_ext(channel_id, p);
            hash::lemma_digest_ext(responder, q);
        },
        (
            NodeEvent::Consented { channel_id, target },
            NodeEvent::Consented { channel_id: p, target: q },
        ) => {
            assert(a.toks()[2] == b.toks()[2]);
            assert(a.toks()[3] == b.toks()[3]);
            hash::lemma_digest_ext(channel_id, p);
            hash::lemma_digest_ext(target, q);
        },
        (
            NodeEvent::Revoked { channel_id, target, generation, rekeyed },
            NodeEvent::Revoked { channel_id: p, target: q, generation: r, rekeyed: s },
        ) => {
            assert(a.toks()[2] == b.toks()[2]);
            assert(a.toks()[3] == b.toks()[3]);
            assert(a.toks()[4] == b.toks()[4]);
            assert(a.toks()[5] == b.toks()[5]);
            hash::lemma_digest_ext(channel_id, p);
            hash::lemma_digest_ext(target, q);
        },
        (
            NodeEvent::TunnelServed { channel_id, client, service_tag },
            NodeEvent::TunnelServed { channel_id: p, client: q, service_tag: r },
        ) => {
            assert(a.toks()[2] == b.toks()[2]);
            assert(a.toks()[3] == b.toks()[3]);
            assert(a.toks()[4] == b.toks()[4]);
            hash::lemma_digest_ext(channel_id, p);
            hash::lemma_digest_ext(client, q);
        },
        (
            NodeEvent::ProxyUp { channel_id, hostname, bind },
            NodeEvent::ProxyUp { channel_id: p, hostname: q, bind: r },
        ) => {
            assert(a.toks()[2] == b.toks()[2]);
            assert(a.toks()[3] == b.toks()[3]);
            assert(a.toks()[4] == b.toks()[4]);
            hash::lemma_digest_ext(channel_id, p);
        },
        (
            NodeEvent::Synced { channel_id, applied, rendered },
            NodeEvent::Synced { channel_id: p, applied: q, rendered: r },
        ) => {
            assert(a.toks()[2] == b.toks()[2]);
            assert(a.toks()[3] == b.toks()[3]);
            assert(a.toks()[4] == b.toks()[4]);
            hash::lemma_digest_ext(channel_id, p);
        },
        _ => {},
    }
}

/// Whatever frame is read from what `f` is written as is like `f`.
#[verifier::rlimit(40)]
proof fn lemma_frame_same(g: Frame, f: Frame, addr: Option<Seq<char>>)
    requires
        g.read_from(f.toks(), addr),
        f.read_from(f.toks(), addr),
        can_be_read(f, addr),
    ensures
        g.is_same(&f),
{
    let ts = f.toks();
    frame::lemma_tag(g, ts, addr);
    frame::lemma_tag(f, ts, addr);
    match (g, f) {
        (Frame::Hello { protocol, me }, Frame::Hello { protocol: p, me: q }) => {
            assert(g.toks()[2] == ts[2]);
            assert(g.toks()[3] == ts[3]);
            cbor::lemma_opt_ext(me, q);
        },
        (Frame::Event(x), Frame::Event(y)) => {
            lemma_event_same(x, y);
        },
        (Frame::Rows { rows }, Frame::Rows { rows: p }) => {
            lemma_lists_alike(frame::T_ROWS, rows@, p@, frame::row_item(), 7);
            assert forall|i: int| 0 <= i < rows@.len() implies (#[trigger] rows@[i]).is_same(
                &p@[i],
            ) by {
                lemma_row_same(rows@[i], p@[i]);
            }
        },
        (Frame::Order { entries }, Frame::Order { entries: p }) => {
            lemma_lists_alike(frame::T_ORDER_ROWS, entries@, p@, frame::order_item(), 3);
            assert forall|i: int| 0 <= i < entries@.len() implies entries@[i] == p@[i] by {
                let (m, n) = (frame::order_item()(entries@[i]), frame::order_item()(p@[i]));
                assert(m[1] == n[1] && m[2] == n[2]);
                hash::lemma_digest_ext(entries@[i].0, p@[i].0);
            }
            assert(entries@ =~= p@);
        },
        (Frame::Members { members }, Frame::Members { members: p }) => {
            lemma_lists_alike(frame::T_MEMBERS, members@, p@, frame::member_item(), 1);
            assert forall|i: int| 0 <= i < members@.len() implies members@[i] == p@[i] by {
                let (m, n) = (frame::member_item()(members@[i]), frame::member_item()(p@[i]));
                assert(m[0] == n[0]);
                hash::lemma_digest_ext(members@[i], p@[i]);
            }
            assert(members@ =~= p@);
        },
        (Frame::Trusted { entries }, Frame::Trusted { entries: p }) => {
            lemma_lists_alike(frame::T_TRUSTED, entries@, p@, frame::trusted_item(), 3);
            assert forall|i: int| 0 <= i < entries@.len() implies (#[trigger] entries@[i]).0
                == p@[i].0 && entries@[i].1@ == p@[i].1@ by {
                let (m, n) = (frame::trusted_item()(entries@[i]), frame::trusted_item()(p@[i]));
                assert(m[1] == n[1] && m[2] == n[2]);
                hash::lemma_digest_ext(entries@[i].0, p@[i].0);
            }
        },
        (Frame::Rooms { rooms }, Frame::Rooms { rooms: p }) => {
            let flags = choose|flags: Seq<u64>|
                frame::rooms_read(rooms@, flags) && ts == #[trigger] frame::rooms_toks(
                    rooms@,
                    flags,
                );
            let xs = frame::rooms_as(rooms@, flags);
            let ys = frame::rooms_as(p@, frame::room_flags(p@));
            lemma_lists_alike(frame::T_ROOMS, xs, ys, frame::room_item(), 4);
            assert forall|i: int| 0 <= i < rooms@.len() implies (#[trigger] rooms@[i]).0 == p@[i].0
                && rooms@[i].1@ == p@[i].1@ && rooms@[i].2 == p@[i].2 by {
                let (m, n) = (frame::room_item()(xs[i]), frame::room_item()(ys[i]));
                assert(m[1] == n[1] && m[2] == n[2] && m[3] == n[3]);
                hash::lemma_digest_ext(rooms@[i].0, p@[i].0);
                assert(rooms@[i].2 == (flags[i] != 0));
            }
        },
        _ => {
            if ts.len() > 2 {
                assert(g.toks()[2] == ts[2]);
            }
        },
    }
}

proof fn lemma_row_same(a: MessageRow, b: MessageRow)
    requires
        frame::row_item()(a) == frame::row_item()(b),
    ensures
        a.is_same(&b),
{
    let (m, n) = (frame::row_item()(a), frame::row_item()(b));
    assert(m[1] == n[1] && m[2] == n[2] && m[3] == n[3]);
    assert(m[4] == n[4] && m[5] == n[5] && m[6] == n[6]);
    hash::lemma_digest_ext(a.entry_hash, b.entry_hash);
    hash::lemma_digest_ext(a.author, b.author);
}

/// The elements of two lists that are written alike are written alike.
proof fn lemma_lists_alike<T>(
    tag: u64,
    xs: Seq<T>,
    ys: Seq<T>,
    item: spec_fn(T) -> Seq<Tok>,
    width: nat,
)
    requires
        width > 0,
        forall|x: T| (#[trigger] item(x)).len() == width,
        cbor::put_all(frame::list_head(tag, xs.len()), xs, item) == cbor::put_all(
            frame::list_head(tag, ys.len()),
            ys,
            item,
        ),
    ensures
        xs.len() == ys.len(),
        forall|i: int| 0 <= i < xs.len() ==> item(#[trigger] xs[i]) == item(#[trigger] ys[i]),
{
    cbor::lemma_put_all_parts(
        frame::list_head(tag, xs.len()),
        frame::list_head(tag, ys.len()),
        xs,
        ys,
        item,
        width,
    );
}

} // verus!
