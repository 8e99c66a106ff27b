//! What holds of the answers of the control socket: what each request comes to, from its
//! first step to the reply.

use vstd::prelude::*;
use vstd::utf8::*;

use crate::actor::EventStreamItem;
use crate::api::{MessageRow, NodeCommand, NodeEvent, NodeView};
use crate::hash::Digest32;
use crate::ipc::frame::Frame;
use crate::ipc::request::Request;
use crate::ipc::serve::{self, Pending, Progress, Step};
use crate::lists;

verus! {

/// The rows that a step replies with, where it does.
pub open spec fn rows_in(s: Step) -> Option<Seq<MessageRow>> {
    match s {
        Step::Reply(Frame::Rows { rows }) => Some(rows@),
        _ => None,
    }
}

proof fn lemma_first_open(view: NodeView, id: Digest32, k: int) -> (i: int)
    requires
        0 <= k < view.open_channels@.len(),
        view.open_channels@[k].channel_id == id,
    ensures
        serve::is_open_room(view, id, i),
        i <= k,
    decreases k,
{
    if exists|j: int| 0 <= j < k && (#[trigger] view.open_channels@[j]).channel_id == id {
        let j = choose|j: int| 0 <= j < k && (#[trigger] view.open_channels@[j]).channel_id == id;
        lemma_first_open(view, id, j)
    } else {
        k
    }
}

/// A room is open exactly if some open channel is that room, wherever in the list it
/// stands.
pub proof fn law_room_is_open_exactly(view: NodeView, id: Digest32)
    ensures
        serve::room_is_open(view, id) <==> exists|k: int|
            0 <= k < view.open_channels@.len() && (#[trigger] view.open_channels@[k]).channel_id
                == id,
{
    if exists|k: int|
        0 <= k < view.open_channels@.len() && (#[trigger] view.open_channels@[k]).channel_id == id {
        let k = choose|k: int|
            0 <= k < view.open_channels@.len() && (#[trigger] view.open_channels@[k]).channel_id
                == id;
        let i = lemma_first_open(view, id, k);
        assert(serve::is_open_room(view, id, i));
    }
    if serve::room_is_open(view, id) {
        let i = choose|i: int| #[trigger] serve::is_open_room(view, id, i);
        assert(view.open_channels@[i].channel_id == id);
    }
}

/// A read, an order or a roster of a room that is not open is refused in the same words,
/// and gives no row, entry or member.
pub proof fn law_closed_room_is_refused(
    s: Step,
    view: NodeView,
    id: Digest32,
    since: Option<Digest32>,
    limit: u64,
)
    requires
        forall|k: int|
            0 <= k < view.open_channels@.len() ==> (#[trigger] view.open_channels@[k]).channel_id
                != id,
        serve::begins(s, view, Request::Read { channel_id: id, since, limit }) || serve::begins(
            s,
            view,
            Request::Order { channel_id: id },
        ) || serve::begins(s, view, Request::Roster { channel_id: id }),
    ensures
        s matches Step::Reply(Frame::Error { reason }) && reason@ == "room not open"@,
{
    law_room_is_open_exactly(view, id);
}

/// A read of an open room without a cursor gives the timeline from its beginning: all of
/// it where the limit is 0 or not reached, else just as many rows as the limit says.
pub proof fn law_read_gives_the_timeline(s: Step, view: NodeView, k: int, limit: u64)
    requires
        0 <= k < view.open_channels@.len(),
        forall|j: int|
            0 <= j < k ==> (#[trigger] view.open_channels@[j]).channel_id
                != view.open_channels@[k].channel_id,
        serve::begins(
            s,
            view,
            Request::Read { channel_id: view.open_channels@[k].channel_id, since: None, limit },
        ),
    ensures
        ({
            let line = view.open_channels@[k].timeline@;
            &&& rows_in(s) is Some
            &&& limit == 0 || line.len() <= limit ==> rows_in(s) == Some(line)
            &&& 0 < limit <= line.len() ==> rows_in(s)->Some_0.len() == limit
            &&& forall|i: int|
                0 <= i < rows_in(s)->Some_0.len() ==> #[trigger] rows_in(s)->Some_0[i] == line[i]
        }),
{
    assert(serve::is_open_room(view, view.open_channels@[k].channel_id, k));
}

proof fn lemma_read_past(
    s: Step,
    rows: Seq<MessageRow>,
    since: Option<Digest32>,
    limit: u64,
    m: int,
)
    requires
        since is Some,
        serve::answers_read(s, rows, since, limit),
        serve::is_cursor(rows, since->Some_0, m),
    ensures
        rows_in(s) == Some(serve::limited(serve::feed(rows, rows[m].arrival), limit)),
{
}

/// A read past a cursor gives rows that were shown after it and no others, the earlier
/// shown the earlier, and never more than the limit; where the limit is 0 it gives all.
pub proof fn law_read_goes_on_from_the_cursor(
    s: Step,
    view: NodeView,
    k: int,
    m: int,
    limit: u64,
)
    requires
        0 <= k < view.open_channels@.len(),
        forall|j: int|
            0 <= j < k ==> (#[trigger] view.open_channels@[j]).channel_id
                != view.open_channels@[k].channel_id,
        0 <= m < view.open_channels@[k].timeline@.len(),
        forall|j: int|
            0 <= j < m ==> (#[trigger] view.open_channels@[k].timeline@[j]).entry_hash
                != view.open_channels@[k].timeline@[m].entry_hash,
        serve::begins(
            s,
            view,
            Request::Read {
                channel_id: view.open_channels@[k].channel_id,
                since: Some(view.open_channels@[k].timeline@[m].entry_hash),
                limit,
            },
        ),
    ensures
        ({
            let line = view.open_channels@[k].timeline@;
            let got = rows_in(s)->Some_0;
            &&& rows_in(s) is Some
            &&& limit > 0 ==> got.len() <= limit
            &&& forall|i: int|
                0 <= i < got.len() ==> line.contains(#[trigger] got[i]) && got[i].arrival
                    > line[m].arrival
            &&& forall|i: int, j: int|
                0 <= i <= j < got.len() ==> (#[trigger] got[i]).arrival <= (
                #[trigger] got[j]).arrival
            &&& forall|r: MessageRow|
                line.contains(r) && r.arrival > line[m].arrival ==> #[trigger] got.contains(r) || (
                got.len() == limit && limit > 0)
        }),
{
    let line = view.open_channels@[k].timeline@;
    let cursor = line[m].entry_hash;
    assert(serve::is_open_room(view, view.open_channels@[k].channel_id, k));
    assert(serve::is_cursor(line, cursor, m));
    assert(serve::answers_read(s, line, Some(cursor), limit));
    let all = serve::feed(line, line[m].arrival);
    lemma_read_past(s, line, Some(cursor), limit, m);
    crate::ipc::laws::law_feed_is_complete(line, line[m].arrival);
    let got = rows_in(s)->Some_0;
    assert(got == serve::limited(all, limit));
    assert forall|i: int| 0 <= i < got.len() implies line.contains(#[trigger] got[i])
        && got[i].arrival > line[m].arrival by {
        assert(got[i] == all[i]);
        assert(all.contains(all[i]));
    }
    assert forall|i: int, j: int| 0 <= i <= j < got.len() implies (#[trigger] got[i]).arrival <= (
    #[trigger] got[j]).arrival by {
        assert(got[i] == all[i] && got[j] == all[j]);
    }
    assert forall|r: MessageRow| line.contains(r) && r.arrival > line[m].arrival implies
        #[trigger] got.contains(r) || (got.len() == limit && limit > 0) by {
        assert(all.contains(r));
        if !(limit > 0 && limit < all.len()) {
            assert(got == all);
        }
    }
}

/// A roster gives the members of the room, and an order its entries, as the node has them.
pub proof fn law_roster_and_order_are_the_rooms(s: Step, t: Step, view: NodeView, k: int)
    requires
        0 <= k < view.open_channels@.len(),
        forall|j: int|
            0 <= j < k ==> (#[trigger] view.open_channels@[j]).channel_id
                != view.open_channels@[k].channel_id,
        serve::begins(s, view, Request::Roster { channel_id: view.open_channels@[k].channel_id }),
        serve::begins(t, view, Request::Order { channel_id: view.open_channels@[k].channel_id }),
    ensures
        s matches Step::Reply(Frame::Members { members }) && members@
            == view.open_channels@[k].members@,
        t matches Step::Reply(Frame::Order { entries }) && entries@ == view.open_channels@[k].order@,
{
    let id = view.open_channels@[k].channel_id;
    assert(serve::is_open_room(view, id, k));
    assert(s is Reply);
    assert(t is Reply);
}

/// The list of rooms has one line for each room of the node's, in its order: which room,
/// its name here or none, and whether it is open.
pub proof fn law_every_room_is_listed(s: Step, view: NodeView, i: int)
    requires
        serve::begins(s, view, Request::Rooms),
        0 <= i < view.channels@.len(),
    ensures
        s matches Step::Reply(Frame::Rooms { rooms }) && {
            &&& rooms@.len() == view.channels@.len()
            &&& rooms@[i].0 == view.channels@[i].channel_id
            &&& rooms@[i].2 == view.channels@[i].open
            &&& view.channels@[i].local_name is Some ==> rooms@[i].1@
                == view.channels@[i].local_name->Some_0@
            &&& view.channels@[i].local_name is None ==> rooms@[i].1@.len() == 0
        },
{
}

/// The command that a step applies, where it does.
pub open spec fn command_in(s: Step) -> Option<NodeCommand> {
    match s {
        Step::Apply { command, .. } => Some(command),
        _ => None,
    }
}

/// A post is sent as it stands to the room named; once it is, the answer is that it is
/// done, and if it is not, the reason.
pub proof fn law_post_is_sent(
    s: Step,
    t: Step,
    view: NodeView,
    channel_id: Digest32,
    text: String,
    progress: Progress,
)
    requires
        serve::begins(s, view, Request::Post { channel_id, text }),
        s matches Step::Apply { then_do, .. } && serve::fits(then_do, progress) && serve::goes_on(
            t,
            view,
            then_do,
            progress,
        ),
    ensures
        command_in(s) == Some(NodeCommand::SendText { channel_id, text }),
        progress is Applied ==> t == Step::Reply(Frame::Done),
        progress matches Progress::Failed { reason } ==> (t matches Step::Reply(
            Frame::Error { reason: r },
        ) && r@ == reason@),
{
}

/// A room is joined by the link given, or made, under the name given, with the passphrase
/// given and no other.
pub proof fn law_room_is_joined_as_asked(
    s: Step,
    t: Step,
    view: NodeView,
    link: String,
    local_name: String,
    passphrase: String,
)
    requires
        serve::begins(s, view, Request::Join { link, local_name, passphrase }),
        serve::begins(t, view, Request::Create { local_name, passphrase }),
    ensures
        command_in(s) matches Some(NodeCommand::JoinChannel { link: l, local_name: n, passphrase: p })
            && l == link && n == local_name && p@ == encode_utf8(passphrase@),
        command_in(t) matches Some(NodeCommand::CreateChannel { local_name: n, passphrase: p }) && n
            == local_name && p@ == encode_utf8(passphrase@),
{
}

/// A request to the operator's rights is carried out as asked once the passphrase that came
/// with it was found right: the same person, name, room and time, and nothing besides.
pub proof fn law_proved_operator_gets_what_was_asked(
    s: Step,
    t: Step,
    view: NodeView,
    request: Request,
)
    requires
        request is Trust || request is SetRetention || request is Untrust,
        serve::begins(s, view, request),
        s matches Step::Apply { then_do, .. } && serve::goes_on(
            t,
            view,
            then_do,
            Progress::Applied,
        ),
    ensures
        match request {
            Request::Trust { target, petname, identity_passphrase } => {
                &&& command_in(s) matches Some(NodeCommand::VerifyPassphrase { passphrase: p }) && p@
                    == encode_utf8(identity_passphrase@)
                &&& command_in(t) == Some(NodeCommand::Trust { fingerprint: target, petname })
            },
            Request::SetRetention { channel_id, ttl, identity_passphrase } => {
                &&& command_in(s) matches Some(NodeCommand::VerifyPassphrase { passphrase: p }) && p@
                    == encode_utf8(identity_passphrase@)
                &&& command_in(t) == Some(NodeCommand::SetRetention { channel_id, ttl })
            },
            Request::Untrust { target, identity_passphrase } => {
                &&& command_in(s) matches Some(NodeCommand::VerifyPassphrase { passphrase: p }) && p@
                    == encode_utf8(identity_passphrase@)
                &&& command_in(t) == Some(NodeCommand::Untrust { fingerprint: target })
            },
            _ => true,
        },
        t matches Step::Apply { then_do, .. } && then_do is Command,
{
}

/// The keyring that a proved operator reads has every entry of it, in order.
pub proof fn law_keyring_is_listed_whole(
    s: Step,
    t: Step,
    view: NodeView,
    identity_passphrase: String,
    i: int,
)
    requires
        serve::begins(s, view, Request::TrustList { identity_passphrase }),
        s matches Step::Apply { then_do, .. } && serve::goes_on(
            t,
            view,
            then_do,
            Progress::Applied,
        ),
        0 <= i < view.trusted@.len(),
    ensures
        t matches Step::Reply(Frame::Trusted { entries }) && entries@.len() == view.trusted@.len()
            && entries@[i].0 == view.trusted@[i].0 && entries@[i].1@ == view.trusted@[i].1@,
{
}

/// A link is asked for, and waited for, for the room named: the first link for that room is
/// the reply, whatever came before it, and a link for another room is not.
pub proof fn law_link_is_for_the_room(
    s: Step,
    t: Step,
    u: Step,
    view: NodeView,
    channel_id: Digest32,
    item: EventStreamItem,
)
    requires
        serve::begins(s, view, Request::Invite { channel_id }),
        s matches Step::Apply { then_do, .. } && serve::goes_on(
            t,
            view,
            then_do,
            Progress::Applied,
        ),
        t matches Step::Watch { then_do } && serve::goes_on(
            u,
            view,
            then_do,
            Progress::Item(item),
        ),
    ensures
        command_in(s) == Some(NodeCommand::Invite { channel_id }),
        s matches Step::Apply { watch, .. } && watch,
        u is Reply <==> (item matches EventStreamItem::Event(
            NodeEvent::InviteLink { channel_id: c, .. },
        ) && c == channel_id),
        item matches EventStreamItem::Event(NodeEvent::InviteLink { channel_id: c, url }) ==> (c
            == channel_id ==> u == Step::Reply(Frame::Link { url })),
        !(u is Reply) ==> u == t,
{
}

/// A forward is asked for with the address as it was parsed, and with the room, host and
/// service asked for; the reply is the address that the node bound, once it says so.
pub proof fn law_forward_is_bound_as_asked(
    s: Step,
    t: Step,
    u: Step,
    v: Step,
    view: NodeView,
    channel_id: Digest32,
    host: Digest32,
    service_tag: String,
    local: String,
    address: String,
    item: EventStreamItem,
)
    requires
        serve::begins(s, view, Request::Forward { channel_id, host, service_tag, local }),
        s matches Step::Address { then_do, .. } && serve::goes_on(
            t,
            view,
            then_do,
            Progress::Parsed { address },
        ),
        t matches Step::Apply { then_do, .. } && serve::goes_on(
            u,
            view,
            then_do,
            Progress::Applied,
        ),
        u matches Step::Watch { then_do } && serve::goes_on(
            v,
            view,
            then_do,
            Progress::Item(item),
        ),
    ensures
        s matches Step::Address { text, .. } && text == local,
        command_in(t) == Some(
            NodeCommand::Forward { channel_id, host, service_tag, local: address },
        ),
        t matches Step::Apply { watch, .. } && watch,
        v is Reply <==> item matches EventStreamItem::Event(NodeEvent::Forwarding { .. }),
        item matches EventStreamItem::Event(NodeEvent::Forwarding { local: bound, .. }) ==> v
            == Step::Reply(Frame::Bound { local: bound }),
        !(v is Reply) ==> v == u,
{
}

/// A service is offered at the address as it was parsed, in the room and under the tag
/// asked for, and withdrawn under that tag.
pub proof fn law_service_is_offered_as_asked(
    s: Step,
    t: Step,
    u: Step,
    view: NodeView,
    channel_id: Digest32,
    service_tag: String,
    local: String,
    address: String,
)
    requires
        serve::begins(s, view, Request::AddService { channel_id, service_tag, local }),
        s matches Step::Address { then_do, .. } && serve::goes_on(
            t,
            view,
            then_do,
            Progress::Parsed { address },
        ),
        serve::begins(u, view, Request::RemoveService { channel_id, service_tag }),
    ensures
        s matches Step::Address { text, .. } && text == local,
        command_in(t) == Some(
            NodeCommand::AddService { channel_id, service_tag, local: address },
        ),
        command_in(u) == Some(NodeCommand::RemoveService { channel_id, service_tag }),
{
}

/// A wait that ends without what was waited for ends in a refusal, whether the node stopped
/// or the time ran out, and the two are told apart.
pub proof fn law_wait_ends_in_a_refusal(s: Step, t: Step, view: NodeView, pending: Pending)
    requires
        pending is ForwardAwaited || pending is InviteAwaited,
        serve::goes_on(s, view, pending, Progress::Ended),
        serve::goes_on(t, view, pending, Progress::TimedOut),
    ensures
        s matches Step::Reply(Frame::Error { .. }),
        t matches Step::Reply(Frame::Error { .. }),
        s != t,
{
    reveal_strlit("the node stopped before the forward was bound");
    reveal_strlit("the forward did not report a bound address");
    reveal_strlit("the node stopped before the link was minted");
    reveal_strlit("the node did not mint a link");
    assert("the node stopped before the forward was bound"@.len()
        != "the forward did not report a bound address"@.len());
    assert("the node stopped before the link was minted"@.len()
        != "the node did not mint a link"@.len());
}

/// Of a list too long for the limit the front is given, and of any other all.
pub proof fn law_limit_keeps_the_front(rows: Seq<MessageRow>, limit: u64)
    ensures
        serve::limited(rows, 0) == rows,
        limit > 0 ==> serve::limited(rows, limit).len() <= limit,
        serve::limited(rows, limit) == rows || (limit > 0 && serve::limited(rows, limit).len()
            == limit),
        forall|i: int|
            0 <= i < serve::limited(rows, limit).len() ==> #[trigger] serve::limited(
                rows,
                limit,
            )[i] == rows[i],
{
}

/// What failed is never answered as done, and what was done never as failed.
pub proof fn law_failure_is_no_success(
    s: Step,
    t: Step,
    view: NodeView,
    pending: Pending,
    reason: String,
)
    requires
        pending is Command || pending is Join,
        serve::goes_on(s, view, pending, Progress::Applied),
        serve::goes_on(t, view, pending, Progress::Failed { reason }),
    ensures
        s == Step::Reply(Frame::Done),
        t matches Step::Reply(Frame::Error { reason: r }) && r@ == reason@,
{
}

/// The rows of one arrival.
pub open spec fn arrived_at(at: u64) -> spec_fn(MessageRow) -> bool {
    |r: MessageRow| r.arrival == at
}

proof fn lemma_insert_keeps_others(rows: Seq<MessageRow>, x: MessageRow, at: u64)
    ensures
        lists::pick(serve::arrival_insert(rows, x), arrived_at(at)) == (if x.arrival == at {
            lists::pick(rows, arrived_at(at)).push(x)
        } else {
            lists::pick(rows, arrived_at(at))
        }),
    decreases rows.len(),
{
    let p = arrived_at(at);
    if rows.len() > 0 && rows.last().arrival > x.arrival {
        let less = serve::arrival_insert(rows.drop_last(), x);
        lemma_insert_keeps_others(rows.drop_last(), x, at);
        assert(less.push(rows.last()).drop_last() =~= less);
        assert(less.push(rows.last()).last() == rows.last());
    } else {
        assert(rows.push(x).drop_last() =~= rows);
        assert(rows.push(x).last() == x);
    }
}

/// Rows that were shown at one time keep the order of the timeline, none of them lost and
/// none told twice.
pub proof fn law_rows_of_one_arrival_keep_their_order(rows: Seq<MessageRow>, mark: u64, at: u64)
    requires
        at > mark,
    ensures
        lists::pick(serve::feed(rows, mark), arrived_at(at)) == lists::pick(rows, arrived_at(at)),
    decreases rows.len(),
{
    if rows.len() > 0 {
        let front = rows.drop_last();
        law_rows_of_one_arrival_keep_their_order(front, mark, at);
        if rows.last().arrival > mark {
            lemma_insert_keeps_others(serve::feed(front, mark), rows.last(), at);
        }
    }
}

} // verus!
