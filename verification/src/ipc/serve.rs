//! How the node answers a request of the control socket.
//!
//! Answering alternates decisions with work that is done elsewhere: a command is
//! applied to the node, an address is parsed, an event is awaited. Each decision
//! yields a [`Step`]: either the reply, or one piece of work and what to do with
//! its result ([`Pending`]).

use vstd::prelude::*;
use vstd::utf8::*;

use crate::actor::EventStreamItem;
use crate::api::{ChannelDetail, ChannelSummary, MessageRow, NodeCommand, NodeEvent, NodeView, Secret};
use crate::hash::{same_digest, Digest32};
use crate::ipc::frame::Frame;
use crate::ipc::request::Request;
use crate::text::debug_text;

verus! {

/// What an operator who has proved to be one asked for.
#[derive(Debug)]
pub enum OperatorAct {
    /// Add an identity to the keyring.
    Trust {
        /// Who.
        target: Digest32,
        /// Under which name.
        petname: String,
    },
    /// Set a room's retention.
    SetRetention {
        /// The room.
        channel_id: Digest32,
        /// For how long, in seconds.
        ttl: u64,
    },
    /// Remove an identity from the keyring.
    Untrust {
        /// Who.
        target: Digest32,
    },
    /// Read the keyring.
    List,
}

/// What the result of a piece of work is needed for.
#[derive(Debug)]
pub enum Pending {
    /// The passphrase is being checked before the act.
    Operator(OperatorAct),
    /// A command is being applied, and its outcome is the reply.
    Command,
    /// A room is being joined, and its outcome is the reply.
    Join,
    /// The address of a service is being parsed.
    AddService {
        /// The room.
        channel_id: Digest32,
        /// The service's tag.
        service_tag: String,
    },
    /// The address of a forward is being parsed.
    Forward {
        /// The room.
        channel_id: Digest32,
        /// The member offering the service.
        host: Digest32,
        /// The service's tag.
        service_tag: String,
    },
    /// The address of a forward to stop is being parsed.
    StopForward,
    /// A forward is being asked for.
    ForwardAsked,
    /// A forward was asked for, and its bound address is awaited.
    ForwardAwaited,
    /// A link is being asked for.
    InviteAsked {
        /// The room.
        channel_id: Digest32,
    },
    /// A link was asked for and is awaited.
    InviteAwaited {
        /// The room.
        channel_id: Digest32,
    },
}

/// What is to be done next.
#[derive(Debug)]
pub enum Step {
    /// Apply a command to the node.
    Apply {
        /// The command.
        command: NodeCommand,
        /// Whether to subscribe to the node's events first, so that none emitted
        /// between the command and the wait is missed.
        watch: bool,
        /// What its outcome is needed for.
        then_do: Pending,
    },
    /// Parse a socket address.
    Address {
        /// The text.
        text: String,
        /// What the address is needed for.
        then_do: Pending,
    },
    /// Await the next event, no longer than the deadline.
    Watch {
        /// What the event is needed for.
        then_do: Pending,
    },
    /// Send the reply.
    Reply(Frame),
}

/// How a piece of work ended.
#[derive(Debug)]
pub enum Progress {
    /// The command was applied.
    Applied,
    /// The command failed, for the reason given in words.
    Failed {
        /// The reason.
        reason: String,
    },
    /// The address parsed; this is its canonical text.
    Parsed {
        /// The address.
        address: String,
    },
    /// The text is no address.
    Unparsed {
        /// The text.
        text: String,
    },
    /// An item of the event stream.
    Item(EventStreamItem),
    /// The event stream ended: the node stopped.
    Ended,
    /// The deadline passed.
    TimedOut,
}

/// How long a forward or a link is awaited, in seconds.
pub const AWAIT_SECS: u64 = 10;

// ---- what a reply says -------------------------------------------------------

/// Whether `s` is an error reply with this reason.
pub open spec fn refuses(s: Step, reason: Seq<char>) -> bool {
    s matches Step::Reply(Frame::Error { reason: r }) && r@ == reason
}

/// Whether `i` is the first open channel that is `id`.
pub open spec fn is_open_room(view: NodeView, id: Digest32, i: int) -> bool {
    &&& 0 <= i < view.open_channels@.len()
    &&& view.open_channels@[i].channel_id == id
    &&& forall|j: int| 0 <= j < i ==> (#[trigger] view.open_channels@[j]).channel_id != id
}

/// Whether the room is open on this node.
pub open spec fn room_is_open(view: NodeView, id: Digest32) -> bool {
    exists|i: int| #[trigger] is_open_room(view, id, i)
}

/// Whether `i` is the first row of the timeline that is the cursor.
pub open spec fn is_cursor(rows: Seq<MessageRow>, cursor: Digest32, i: int) -> bool {
    &&& 0 <= i < rows.len()
    &&& rows[i].entry_hash == cursor
    &&& forall|j: int| 0 <= j < i ==> (#[trigger] rows[j]).entry_hash != cursor
}

/// `rows` with `x` behind every row that arrived no later than it.
pub open spec fn arrival_insert(rows: Seq<MessageRow>, x: MessageRow) -> Seq<MessageRow>
    decreases rows.len(),
{
    if rows.len() > 0 && rows.last().arrival > x.arrival {
        arrival_insert(rows.drop_last(), x).push(rows.last())
    } else {
        rows.push(x)
    }
}

/// What this node rendered after `mark`, in the order it rendered them; rows of one
/// arrival keep the order of the timeline.
pub open spec fn feed(rows: Seq<MessageRow>, mark: u64) -> Seq<MessageRow>
    decreases rows.len(),
{
    if rows.len() == 0 {
        Seq::empty()
    } else if rows.last().arrival > mark {
        arrival_insert(feed(rows.drop_last(), mark), rows.last())
    } else {
        feed(rows.drop_last(), mark)
    }
}

/// The first `limit` rows; all of them where the limit is 0.
pub open spec fn limited(rows: Seq<MessageRow>, limit: u64) -> Seq<MessageRow> {
    if limit > 0 && limit < rows.len() {
        rows.take(limit as int)
    } else {
        rows
    }
}

/// Whether `s` is the reply to a read of an open room with timeline `rows`.
pub open spec fn answers_read(
    s: Step,
    rows: Seq<MessageRow>,
    since: Option<Digest32>,
    limit: u64,
) -> bool {
    match since {
        None => s matches Step::Reply(Frame::Rows { rows: out }) && out@ == limited(rows, limit),
        Some(cursor) => {
            &&& forall|i: int| #[trigger]
                is_cursor(rows, cursor, i) ==> (s matches Step::Reply(Frame::Rows { rows: out })
                    && out@ == limited(feed(rows, rows[i].arrival), limit))
            &&& (forall|i: int| !(#[trigger] is_cursor(rows, cursor, i))) ==> refuses(
                s,
                "cursor not in this room's timeline"@,
            )
        },
    }
}

/// Whether `s` lists exactly the channels of the view.
pub open spec fn lists_rooms(s: Step, channels: Seq<ChannelSummary>) -> bool {
    s matches Step::Reply(Frame::Rooms { rooms }) && {
        &&& rooms@.len() == channels.len()
        &&& forall|i: int|
            0 <= i < channels.len() ==> {
                &&& (#[trigger] rooms@[i]).0 == channels[i].channel_id
                &&& rooms@[i].1@ == (match channels[i].local_name {
                    Some(name) => name@,
                    None => Seq::<char>::empty(),
                })
                &&& rooms@[i].2 == channels[i].open
            }
    }
}

/// Whether `s` asks for the passphrase to be checked before the act.
pub open spec fn checks_operator(s: Step, passphrase: String, act: OperatorAct) -> bool {
    s matches Step::Apply {
        command: NodeCommand::VerifyPassphrase { passphrase: p },
        watch,
        then_do,
    } && p@ == encode_utf8(passphrase@) && !watch && then_do == Pending::Operator(act)
}

/// Whether `s` is the first step of answering `request` where the node is as `view`
/// says.
pub open spec fn begins(s: Step, view: NodeView, request: Request) -> bool {
    match request {
        Request::Subscribe => s == Step::Reply(Frame::Done),
        Request::Trust { target, petname, identity_passphrase } => checks_operator(
            s,
            identity_passphrase,
            OperatorAct::Trust { target, petname },
        ),
        Request::SetRetention { channel_id, ttl, identity_passphrase } => checks_operator(
            s,
            identity_passphrase,
            OperatorAct::SetRetention { channel_id, ttl },
        ),
        Request::Untrust { target, identity_passphrase } => checks_operator(
            s,
            identity_passphrase,
            OperatorAct::Untrust { target },
        ),
        Request::TrustList { identity_passphrase } => checks_operator(
            s,
            identity_passphrase,
            OperatorAct::List,
        ),
        Request::Post { channel_id, text } => s == (Step::Apply {
            command: NodeCommand::SendText { channel_id, text },
            watch: false,
            then_do: Pending::Command,
        }),
        Request::Read { channel_id, since, limit } => {
            &&& forall|i: int| #[trigger]
                is_open_room(view, channel_id, i) ==> answers_read(
                    s,
                    view.open_channels@[i].timeline@,
                    since,
                    limit,
                )
            &&& !room_is_open(view, channel_id) ==> refuses(s, "room not open"@)
        },
        Request::Order { channel_id } => {
            &&& forall|i: int| #[trigger]
                is_open_room(view, channel_id, i) ==> (s matches Step::Reply(
                    Frame::Order { entries },
                ) && entries@ == view.open_channels@[i].order@)
            &&& !room_is_open(view, channel_id) ==> refuses(s, "room not open"@)
        },
        Request::Roster { channel_id } => {
            &&& forall|i: int| #[trigger]
                is_open_room(view, channel_id, i) ==> (s matches Step::Reply(
                    Frame::Members { members },
                ) && members@ == view.open_channels@[i].members@)
            &&& !room_is_open(view, channel_id) ==> refuses(s, "room not open"@)
        },
        Request::AddService { channel_id, service_tag, local } => s == (Step::Address {
            text: local,
            then_do: Pending::AddService { channel_id, service_tag },
        }),
        Request::RemoveService { channel_id, service_tag } => s == (Step::Apply {
            command: NodeCommand::RemoveService { channel_id, service_tag },
            watch: false,
            then_do: Pending::Command,
        }),
        Request::Forward { channel_id, host, service_tag, local } => s == (Step::Address {
            text: local,
            then_do: Pending::Forward { channel_id, host, service_tag },
        }),
        Request::StopForward { local } => s == (Step::Address {
            text: local,
            then_do: Pending::StopForward,
        }),
        Request::Join { link, local_name, passphrase } => s matches Step::Apply {
            command: NodeCommand::JoinChannel { link: l, local_name: n, passphrase: p },
            watch,
            then_do,
        } && l == link && n == local_name && p@ == encode_utf8(passphrase@) && !watch && then_do
            == Pending::Join,
        Request::Create { local_name, passphrase } => s matches Step::Apply {
            command: NodeCommand::CreateChannel { local_name: n, passphrase: p },
            watch,
            then_do,
        } && n == local_name && p@ == encode_utf8(passphrase@) && !watch && then_do
            == Pending::Command,
        Request::Invite { channel_id } => s == (Step::Apply {
            command: NodeCommand::Invite { channel_id },
            watch: true,
            then_do: Pending::InviteAsked { channel_id },
        }),
        Request::Rooms => lists_rooms(s, view.channels@),
    }
}

/// What a caller who did not prove to hold the identity passphrase is told.
pub open spec fn not_operator() -> Seq<char> {
    "the identity passphrase does not match; the trust keyring is only editable by whoever holds it"@
}

/// Which results a piece of work can end with.
pub open spec fn fits(pending: Pending, progress: Progress) -> bool {
    match pending {
        Pending::AddService { .. } | Pending::Forward { .. } | Pending::StopForward => progress
            is Parsed || progress is Unparsed,
        Pending::ForwardAwaited | Pending::InviteAwaited { .. } => progress is Item || progress
            is Ended || progress is TimedOut,
        _ => progress is Applied || progress is Failed,
    }
}

/// Whether `s` is the step after `pending` ended with `progress`.
pub open spec fn goes_on(s: Step, view: NodeView, pending: Pending, progress: Progress) -> bool {
    match (pending, progress) {
        // Only a proved operator changes or learns anything.
        (Pending::Operator(act), Progress::Applied) => match act {
            OperatorAct::Trust { target, petname } => s == (Step::Apply {
                command: NodeCommand::Trust { fingerprint: target, petname },
                watch: false,
                then_do: Pending::Command,
            }),
            OperatorAct::SetRetention { channel_id, ttl } => s == (Step::Apply {
                command: NodeCommand::SetRetention { channel_id, ttl },
                watch: false,
                then_do: Pending::Command,
            }),
            OperatorAct::Untrust { target } => s == (Step::Apply {
                command: NodeCommand::Untrust { fingerprint: target },
                watch: false,
                then_do: Pending::Command,
            }),
            OperatorAct::List => s matches Step::Reply(Frame::Trusted { entries }) && {
                &&& entries@.len() == view.trusted@.len()
                &&& forall|i: int|
                    0 <= i < entries@.len() ==> (#[trigger] entries@[i]).0 == view.trusted@[i].0
                        && entries@[i].1@ == view.trusted@[i].1@
            },
        },
        (Pending::Operator(_), _) => refuses(s, not_operator()),
        (Pending::Command, Progress::Applied) => s == Step::Reply(Frame::Done),
        (Pending::Join, Progress::Applied) => s == Step::Reply(Frame::Done),
        (Pending::Command, Progress::Failed { reason }) => refuses(s, reason@),
        (Pending::Join, Progress::Failed { reason }) => refuses(s, reason@),
        (Pending::AddService { channel_id, service_tag }, Progress::Parsed { address }) => s == (
        Step::Apply {
            command: NodeCommand::AddService { channel_id, service_tag, local: address },
            watch: false,
            then_do: Pending::Command,
        }),
        (Pending::Forward { channel_id, host, service_tag }, Progress::Parsed { address }) => s
            == (Step::Apply {
            command: NodeCommand::Forward { channel_id, host, service_tag, local: address },
            watch: true,
            then_do: Pending::ForwardAsked,
        }),
        (Pending::StopForward, Progress::Parsed { address }) => s == (Step::Apply {
            command: NodeCommand::StopForward { local: address },
            watch: false,
            then_do: Pending::Command,
        }),
        (_, Progress::Unparsed { text }) => refuses(
            s,
            "not a local address: "@ + crate::text::debug_form(text@),
        ),
        (Pending::ForwardAsked, Progress::Applied) => s == (Step::Watch {
            then_do: Pending::ForwardAwaited,
        }),
        (Pending::ForwardAsked, Progress::Failed { reason }) => refuses(s, reason@),
        (Pending::InviteAsked { channel_id }, Progress::Applied) => s == (Step::Watch {
            then_do: Pending::InviteAwaited { channel_id },
        }),
        (Pending::InviteAsked { .. }, Progress::Failed { reason }) => refuses(s, reason@),
        (Pending::ForwardAwaited, Progress::Item(item)) => match item {
            EventStreamItem::Event(NodeEvent::Forwarding { local, .. }) => s == Step::Reply(
                Frame::Bound { local },
            ),
            _ => s == (Step::Watch { then_do: Pending::ForwardAwaited }),
        },
        (Pending::ForwardAwaited, Progress::Ended) => refuses(
            s,
            "the node stopped before the forward was bound"@,
        ),
        (Pending::ForwardAwaited, Progress::TimedOut) => refuses(
            s,
            "the forward did not report a bound address"@,
        ),
        (Pending::InviteAwaited { channel_id }, Progress::Item(item)) => match item {
            EventStreamItem::Event(NodeEvent::InviteLink { channel_id: c, url }) => if c
                == channel_id {
                s == Step::Reply(Frame::Link { url })
            } else {
                s == (Step::Watch { then_do: Pending::InviteAwaited { channel_id } })
            },
            _ => s == (Step::Watch { then_do: Pending::InviteAwaited { channel_id } }),
        },
        (Pending::InviteAwaited { .. }, Progress::Ended) => refuses(
            s,
            "the node stopped before the link was minted"@,
        ),
        (Pending::InviteAwaited { .. }, Progress::TimedOut) => refuses(
            s,
            "the node did not mint a link"@,
        ),
        _ => false,
    }
}

// ---- the decisions -----------------------------------------------------------

fn refuse(reason: &'static str) -> (s: Step)
    ensures
        refuses(s, reason@),
{
    Step::Reply(Frame::Error { reason: reason.to_owned() })
}

fn open_room(view: &NodeView, id: &Digest32) -> (r: Option<usize>)
    ensures
        match r {
            Some(i) => is_open_room(*view, *id, i as int),
            None => !room_is_open(*view, *id),
        },
{
    let mut i: usize = 0;
    while i < view.open_channels.len()
        invariant
            i <= view.open_channels@.len(),
            forall|j: int| 0 <= j < i ==> (#[trigger] view.open_channels@[j]).channel_id != *id,
        decreases view.open_channels@.len() - i,
    {
        if same_digest(&view.open_channels[i].channel_id, id) {
            return Some(i);
        }
        i = i + 1;
    }
    None
}

/// Adding a row puts it where the arrival order wants it.
proof fn lemma_arrival_insert(rows: Seq<MessageRow>, x: MessageRow, p: int)
    requires
        0 <= p <= rows.len(),
        forall|j: int| p <= j < rows.len() ==> (#[trigger] rows[j]).arrival > x.arrival,
        p > 0 ==> rows[p - 1].arrival <= x.arrival,
    ensures
        arrival_insert(rows, x) == rows.insert(p, x),
    decreases rows.len(),
{
    if p == rows.len() {
        assert(rows.insert(p, x) =~= rows.push(x));
    } else {
        lemma_arrival_insert(rows.drop_last(), x, p);
        assert(rows.insert(p, x) =~= rows.drop_last().insert(p, x).push(rows.last()));
    }
}

fn insert_by_arrival(rows: &mut Vec<MessageRow>, x: MessageRow)
    ensures
        final(rows)@ == arrival_insert(old(rows)@, x),
{
    let mut p: usize = rows.len();
    while p > 0 && rows[p - 1].arrival > x.arrival
        invariant
            p <= rows@.len(),
            rows@ == old(rows)@,
            forall|j: int| p <= j < rows@.len() ==> (#[trigger] rows@[j]).arrival > x.arrival,
        decreases p,
    {
        p = p - 1;
    }
    proof {
        lemma_arrival_insert(rows@, x, p as int);
    }
    rows.insert(p, x);
}

fn feed_after(rows: &Vec<MessageRow>, mark: u64) -> (out: Vec<MessageRow>)
    ensures
        out@ == feed(rows@, mark),
{
    let mut out: Vec<MessageRow> = Vec::new();
    let mut i: usize = 0;
    assert(rows@.take(0) =~= Seq::empty());
    while i < rows.len()
        invariant
            i <= rows@.len(),
            out@ == feed(rows@.take(i as int), mark),
        decreases rows@.len() - i,
    {
        assert(rows@.take(i + 1).drop_last() =~= rows@.take(i as int));
        if rows[i].arrival > mark {
            insert_by_arrival(&mut out, rows[i].clone());
        }
        i = i + 1;
    }
    assert(rows@.take(rows@.len() as int) =~= rows@);
    out
}

fn copy_rows(rows: &Vec<MessageRow>) -> (out: Vec<MessageRow>)
    ensures
        out@ == rows@,
{
    let mut out: Vec<MessageRow> = Vec::new();
    let mut i: usize = 0;
    while i < rows.len()
        invariant
            i <= rows@.len(),
            out@ == rows@.take(i as int),
        decreases rows@.len() - i,
    {
        out.push(rows[i].clone());
        assert(out@ =~= rows@.take(i + 1));
        i = i + 1;
    }
    assert(rows@.take(rows@.len() as int) =~= rows@);
    out
}

fn read_room(detail: &ChannelDetail, since: Option<Digest32>, limit: u64) -> (s: Step)
    ensures
        answers_read(s, detail.timeline@, since, limit),
{
    let mut rows: Vec<MessageRow> = match since {
        None => copy_rows(&detail.timeline),
        Some(cursor) => {
            let mut i: usize = 0;
            while i < detail.timeline.len() && !same_digest(
                &detail.timeline[i].entry_hash,
                &cursor,
            )
                invariant
                    i <= detail.timeline@.len(),
                    forall|j: int|
                        0 <= j < i ==> (#[trigger] detail.timeline@[j]).entry_hash != cursor,
                decreases detail.timeline@.len() - i,
            {
                i = i + 1;
            }
            if i == detail.timeline.len() {
                return refuse("cursor not in this room's timeline");
            }
            assert(is_cursor(detail.timeline@, cursor, i as int));
            feed_after(&detail.timeline, detail.timeline[i].arrival)
        },
    };
    if limit > 0 && limit < rows.len() as u64 {
        rows.truncate(limit as usize);
    }
    Step::Reply(Frame::Rows { rows })
}

fn copy_digests(xs: &Vec<Digest32>) -> (out: Vec<Digest32>)
    ensures
        out@ == xs@,
{
    let mut out: Vec<Digest32> = Vec::new();
    let mut i: usize = 0;
    while i < xs.len()
        invariant
            i <= xs@.len(),
            out@ == xs@.take(i as int),
        decreases xs@.len() - i,
    {
        out.push(xs[i]);
        assert(out@ =~= xs@.take(i + 1));
        i = i + 1;
    }
    assert(xs@.take(xs@.len() as int) =~= xs@);
    out
}

fn copy_order(xs: &Vec<(Digest32, u64)>) -> (out: Vec<(Digest32, u64)>)
    ensures
        out@ == xs@,
{
    let mut out: Vec<(Digest32, u64)> = Vec::new();
    let mut i: usize = 0;
    while i < xs.len()
        invariant
            i <= xs@.len(),
            out@ == xs@.take(i as int),
        decreases xs@.len() - i,
    {
        out.push((xs[i].0, xs[i].1));
        assert(out@ =~= xs@.take(i + 1));
        i = i + 1;
    }
    assert(xs@.take(xs@.len() as int) =~= xs@);
    out
}

fn list_rooms(channels: &Vec<ChannelSummary>) -> (s: Step)
    ensures
        lists_rooms(s, channels@),
{
    let mut rooms: Vec<(Digest32, String, bool)> = Vec::new();
    let mut i: usize = 0;
    while i < channels.len()
        invariant
            i <= channels@.len(),
            rooms@.len() == i,
            forall|j: int|
                0 <= j < i ==> {
                    &&& (#[trigger] rooms@[j]).0 == channels@[j].channel_id
                    &&& rooms@[j].1@ == (match channels@[j].local_name {
                        Some(name) => name@,
                        None => Seq::<char>::empty(),
                    })
                    &&& rooms@[j].2 == channels@[j].open
                },
        decreases channels@.len() - i,
    {
        let c: &ChannelSummary = &channels[i];
        let name: String = match &c.local_name {
            Some(name) => name.clone(),
            None => String::new(),
        };
        rooms.push((c.channel_id, name, c.open));
        i = i + 1;
    }
    Step::Reply(Frame::Rooms { rooms })
}

fn list_trusted(trusted: &Vec<(Digest32, String)>) -> (entries: Vec<(Digest32, String)>)
    ensures
        entries@.len() == trusted@.len(),
        forall|i: int|
            0 <= i < entries@.len() ==> (#[trigger] entries@[i]).0 == trusted@[i].0
                && entries@[i].1@ == trusted@[i].1@,
{
    let mut entries: Vec<(Digest32, String)> = Vec::new();
    let mut i: usize = 0;
    while i < trusted.len()
        invariant
            i <= trusted@.len(),
            entries@.len() == i,
            forall|j: int|
                0 <= j < i ==> (#[trigger] entries@[j]).0 == trusted@[j].0 && entries@[j].1@
                    == trusted@[j].1@,
        decreases trusted@.len() - i,
    {
        entries.push((trusted[i].0, trusted[i].1.clone()));
        i = i + 1;
    }
    entries
}

/// Asks for proof that the caller holds the identity passphrase before `act` is done.
fn verify_operator(passphrase: String, act: OperatorAct) -> (s: Step)
    ensures
        checks_operator(s, passphrase, act),
{
    Step::Apply {
        command: NodeCommand::VerifyPassphrase {
            passphrase: Secret::new(passphrase.into_bytes()),
        },
        watch: false,
        then_do: Pending::Operator(act),
    }
}

/// Begins to answer one request against the node.
///
/// Every failure comes back as [`Frame::Error`] rather than ending the connection.
pub fn serve_request(view: &NodeView, request: Request) -> (s: Step)
    ensures
        begins(s, *view, request),
{
    match request {
        // The connection becomes a stream.
        Request::Subscribe => Step::Reply(Frame::Done),
        Request::Trust { target, petname, identity_passphrase } => verify_operator(
            identity_passphrase,
            OperatorAct::Trust { target, petname },
        ),
        Request::SetRetention { channel_id, ttl, identity_passphrase } => verify_operator(
            identity_passphrase,
            OperatorAct::SetRetention { channel_id, ttl },
        ),
        Request::Untrust { target, identity_passphrase } => verify_operator(
            identity_passphrase,
            OperatorAct::Untrust { target },
        ),
        Request::TrustList { identity_passphrase } => verify_operator(
            identity_passphrase,
            OperatorAct::List,
        ),
        Request::Post { channel_id, text } => Step::Apply {
            command: NodeCommand::SendText { channel_id, text },
            watch: false,
            then_do: Pending::Command,
        },
        Request::Read { channel_id, since, limit } => match open_room(view, &channel_id) {
            Some(i) => {
                assert(is_open_room(*view, channel_id, i as int));
                read_room(&view.open_channels[i], since, limit)
            },
            None => refuse("room not open"),
        },
        Request::Order { channel_id } => match open_room(view, &channel_id) {
            Some(i) => Step::Reply(
                Frame::Order { entries: copy_order(&view.open_channels[i].order) },
            ),
            None => refuse("room not open"),
        },
        Request::Roster { channel_id } => match open_room(view, &channel_id) {
            Some(i) => Step::Reply(
                Frame::Members { members: copy_digests(&view.open_channels[i].members) },
            ),
            None => refuse("room not open"),
        },
        Request::AddService { channel_id, service_tag, local } => Step::Address {
            text: local,
            then_do: Pending::AddService { channel_id, service_tag },
        },
        Request::RemoveService { channel_id, service_tag } => Step::Apply {
            command: NodeCommand::RemoveService { channel_id, service_tag },
            watch: false,
            then_do: Pending::Command,
        },
        Request::Forward { channel_id, host, service_tag, local } => Step::Address {
            text: local,
            then_do: Pending::Forward { channel_id, host, service_tag },
        },
        Request::StopForward { local } => Step::Address {
            text: local,
            then_do: Pending::StopForward,
        },
        Request::Join { link, local_name, passphrase } => Step::Apply {
            command: NodeCommand::JoinChannel {
                link,
                local_name,
                passphrase: Secret::new(passphrase.into_bytes()),
            },
            watch: false,
            then_do: Pending::Join,
        },
        Request::Create { local_name, passphrase } => Step::Apply {
            command: NodeCommand::CreateChannel {
                local_name,
                passphrase: Secret::new(passphrase.into_bytes()),
            },
            watch: false,
            then_do: Pending::Command,
        },
        Request::Invite { channel_id } => Step::Apply {
            command: NodeCommand::Invite { channel_id },
            watch: true,
            then_do: Pending::InviteAsked { channel_id },
        },
        Request::Rooms => list_rooms(&view.channels),
    }
}

/// Goes on answering a request once a piece of work has ended.
pub fn serve_progress(view: &NodeView, pending: Pending, progress: Progress) -> (s: Step)
    requires
        fits(pending, progress),
    ensures
        goes_on(s, *view, pending, progress),
{
    match progress {
        Progress::Applied => match pending {
            Pending::Operator(act) => match act {
                OperatorAct::Trust { target, petname } => Step::Apply {
                    command: NodeCommand::Trust { fingerprint: target, petname },
                    watch: false,
                    then_do: Pending::Command,
                },
                OperatorAct::SetRetention { channel_id, ttl } => Step::Apply {
                    command: NodeCommand::SetRetention { channel_id, ttl },
                    watch: false,
                    then_do: Pending::Command,
                },
                OperatorAct::Untrust { target } => Step::Apply {
                    command: NodeCommand::Untrust { fingerprint: target },
                    watch: false,
                    then_do: Pending::Command,
                },
                OperatorAct::List => Step::Reply(
                    Frame::Trusted { entries: list_trusted(&view.trusted) },
                ),
            },
            Pending::ForwardAsked => Step::Watch { then_do: Pending::ForwardAwaited },
            Pending::InviteAsked { channel_id } => Step::Watch {
                then_do: Pending::InviteAwaited { channel_id },
            },
            _ => Step::Reply(Frame::Done),
        },
        Progress::Failed { reason } => match pending {
            Pending::Operator(_) => refuse(
                "the identity passphrase does not match; the trust keyring is only editable by whoever holds it",
            ),
            _ => Step::Reply(Frame::Error { reason }),
        },
        Progress::Parsed { address } => match pending {
            Pending::AddService { channel_id, service_tag } => Step::Apply {
                command: NodeCommand::AddService { channel_id, service_tag, local: address },
                watch: false,
                then_do: Pending::Command,
            },
            Pending::Forward { channel_id, host, service_tag } => Step::Apply {
                command: NodeCommand::Forward { channel_id, host, service_tag, local: address },
                watch: true,
                then_do: Pending::ForwardAsked,
            },
            _ => Step::Apply {
                command: NodeCommand::StopForward { local: address },
                watch: false,
                then_do: Pending::Command,
            },
        },
        Progress::Unparsed { text } => {
            let mut reason: String = "not a local address: ".to_owned();
            let quoted: String = debug_text(&text);
            reason.append(&quoted);
            Step::Reply(Frame::Error { reason })
        },
        Progress::Item(item) => match pending {
            Pending::InviteAwaited { channel_id } => match item {
                EventStreamItem::Event(NodeEvent::InviteLink { channel_id: c, url }) => {
                    if same_digest(&c, &channel_id) {
                        Step::Reply(Frame::Link { url })
                    } else {
                        Step::Watch { then_do: Pending::InviteAwaited { channel_id } }
                    }
                },
                _ => Step::Watch { then_do: Pending::InviteAwaited { channel_id } },
            },
            _ => match item {
                EventStreamItem::Event(NodeEvent::Forwarding { local, .. }) => Step::Reply(
                    Frame::Bound { local },
                ),
                _ => Step::Watch { then_do: Pending::ForwardAwaited },
            },
        },
        Progress::Ended => match pending {
            Pending::InviteAwaited { .. } => refuse("the node stopped before the link was minted"),
            _ => refuse("the node stopped before the forward was bound"),
        },
        Progress::TimedOut => match pending {
            Pending::InviteAwaited { .. } => refuse("the node did not mint a link"),
            _ => refuse("the forward did not report a bound address"),
        },
    }
}

} // verus!
