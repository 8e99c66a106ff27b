use vox_node::actor::EventStreamItem;
use vox_node::api::{
    ChannelDetail, ChannelSummary, MessageRow, NodeCommand, NodeEvent, NodeView, Secret,
};
use vox_node::appipc::AppRequest;
use vox_node::cbor::Encoder;
use vox_node::error::Error;
use vox_node::ipc::conn::{
    greeting, length_bytes, length_of, pump, read_frame, serve_client, write_frame, ClientStep,
    IpcClient,
};
use vox_node::ipc::frame::Frame;
use vox_node::ipc::request::Request;
use vox_node::ipc::serve::{serve_progress, serve_request, Pending, Progress, Step};
use vox_node::ipc::{MAX_FRAME, PROTOCOL_VERSION};

const ROOM: [u8; 32] = [0xC5; 32];
const OTHER: [u8; 32] = [0xC6; 32];

fn t(s: &str) -> String {
    s.to_string()
}

fn row(n: u8, text: &str) -> MessageRow {
    MessageRow {
        entry_hash: [n; 32],
        author: [0x11; 32],
        created_millis: 1_700_000_000_000 + n as u64,
        text: t(text),
        arrival: n as u64,
        late: false,
    }
}

fn view() -> NodeView {
    NodeView {
        identity: None,
        locked: false,
        mlock_active: true,
        listening: vec![],
        channels: vec![
            ChannelSummary { channel_id: ROOM, local_name: Some(t("den")), open: true, entries: 3 },
            ChannelSummary { channel_id: OTHER, local_name: None, open: false, entries: 0 },
        ],
        open_channels: vec![ChannelDetail {
            channel_id: ROOM,
            local_name: t("den"),
            epoch: 0,
            members: vec![[0x11; 32], [0x12; 32]],
            timeline: vec![row(1, "one"), row(2, "two"), row(3, "three")],
            order: vec![([1; 32], 10), ([2; 32], 20), ([3; 32], 30)],
            services: vec![],
        }],
        forwards: vec![],
        anchoring: vec![],
        trusted: vec![([0x12; 32], t("bo"))],
        relayed_peers: vec![],
        relaying: 0,
    }
}

fn requests() -> Vec<Request> {
    vec![
        Request::Subscribe,
        Request::Post { channel_id: ROOM, text: t("hi") },
        Request::Read { channel_id: ROOM, since: None, limit: 10 },
        Request::Read { channel_id: ROOM, since: Some([2; 32]), limit: 0 },
        Request::Order { channel_id: ROOM },
        Request::Roster { channel_id: ROOM },
        Request::Rooms,
        Request::AddService { channel_id: ROOM, service_tag: t("22"), local: t("127.0.0.1:22") },
        Request::RemoveService { channel_id: ROOM, service_tag: t("22") },
        Request::Forward {
            channel_id: ROOM,
            host: [0x12; 32],
            service_tag: t("22"),
            local: t("127.0.0.1:2222"),
        },
        Request::StopForward { local: t("127.0.0.1:2222") },
        Request::Join { link: t("vox://x"), local_name: t("den"), passphrase: t("pw") },
        Request::Create { local_name: t("den"), passphrase: t("pw") },
        Request::Invite { channel_id: ROOM },
        Request::Trust { target: [0x12; 32], petname: t("bo"), identity_passphrase: t("id") },
        Request::SetRetention { channel_id: ROOM, ttl: 60, identity_passphrase: t("id") },
        Request::Untrust { target: [0x12; 32], identity_passphrase: t("id") },
        Request::TrustList { identity_passphrase: t("id") },
    ]
}

#[test]
fn requests_are_read_back() {
    for q in requests() {
        assert_eq!(Request::from_bytes(&q.to_bytes()).unwrap(), q);
    }
    assert_eq!(Request::Subscribe.to_bytes(), vec![0x81, 0x01]);
}

#[test]
fn malformed_requests_are_refused() {
    assert_eq!(
        Request::from_bytes(&[0x01]),
        Err(Error::MalformedBundle("ipc request"))
    );
    assert_eq!(
        Request::from_bytes(&[0x81, 0x60]),
        Err(Error::MalformedBundle("ipc request tag"))
    );
    assert_eq!(
        Request::from_bytes(&[0x81, 0x18, 0x63]),
        Err(Error::MalformedBundle("ipc request unknown tag"))
    );
    assert_eq!(
        Request::from_bytes(&[0x81, 0x01, 0x00]),
        Err(Error::MalformedBundle("ipc request trailing"))
    );
    let mut e = Encoder::new();
    e.array(2);
    e.uint(4);
    e.bytes(&[1, 2, 3]);
    assert_eq!(
        Request::from_bytes(&e.finish()),
        Err(Error::MalformedBundle("ipc digest length"))
    );
}

#[test]
fn frames_are_read_back() {
    let ids = || ([0x21u8; 32], [0x22u8; 32]);
    let (a, b) = ids();
    let events = vec![
        NodeEvent::NewEntry { channel_id: a, row: row(7, "seven") },
        NodeEvent::Unlocked,
        NodeEvent::Locked,
        NodeEvent::ChannelOpened { channel_id: a },
        NodeEvent::ChannelClosed { channel_id: a },
        NodeEvent::PeerJoined { channel_id: a, peer: b },
        NodeEvent::KeyNotTaken { channel_id: a, peer: b, why: t("late") },
        NodeEvent::SenderKeyReceived { channel_id: a, peer: b, backfilled: 4 },
        NodeEvent::Forwarding { channel_id: a, host: b, service_tag: t("22"), local: t("x:1") },
        NodeEvent::Stalled { what: t("tick"), millis: 900 },
        NodeEvent::PublishRefused { channel_id: a, what: t("bundle"), why: t("full") },
        NodeEvent::JoinFailed { reason: t("no") },
        NodeEvent::JoinSteps { joined: true, steps: t("ok") },
        NodeEvent::StillRelayed { peer: b, reason: t("nat") },
        NodeEvent::ProxyRefused { reason: t("bind") },
        NodeEvent::PeerUnreachable { peer: b, why: t("down") },
        NodeEvent::ReachWithdrawn { channel_id: a, port: 65535 },
        NodeEvent::InviteLink { channel_id: a, url: t("vox://x") },
        NodeEvent::Joined { channel_id: a, responder: b },
        NodeEvent::Consented { channel_id: a, target: b },
        NodeEvent::Revoked { channel_id: a, target: b, generation: 3, rekeyed: 2 },
        NodeEvent::TunnelServed { channel_id: a, client: b, service_tag: t("22") },
        NodeEvent::ProxyUp { channel_id: a, hostname: t("h.vox"), bind: t("127.0.0.1:9") },
        NodeEvent::Synced { channel_id: a, applied: 5, rendered: 4 },
        NodeEvent::Shutdown,
    ];
    let mut frames: Vec<Frame> = events.into_iter().map(Frame::Event).collect();
    frames.push(Frame::Hello { protocol: PROTOCOL_VERSION, me: None });
    frames.push(Frame::Hello { protocol: PROTOCOL_VERSION, me: Some(a) });
    frames.push(Frame::Lagged { missed: 12 });
    frames.push(Frame::Done);
    frames.push(Frame::Error { reason: t("no") });
    frames.push(Frame::Rows { rows: vec![row(1, "one"), row(2, "")] });
    frames.push(Frame::Order { entries: vec![(a, 1), (b, 2)] });
    frames.push(Frame::Members { members: vec![a, b] });
    frames.push(Frame::Bound { local: t("127.0.0.1:9") });
    frames.push(Frame::Link { url: t("vox://x") });
    frames.push(Frame::Trusted { entries: vec![(a, t("bo"))] });
    frames.push(Frame::Rooms { rooms: vec![(a, t("den"), true), (b, t(""), false)] });
    for f in frames {
        let b = f.to_bytes();
        let addr = Frame::address_in(&b);
        assert_eq!(Frame::from_bytes(&b, addr.clone()).unwrap(), f);
        // Nothing may follow.
        for x in [0x00, 0x61, 0xff] {
            let mut longer = b.clone();
            longer.push(x);
            assert_eq!(
                Frame::from_bytes(&longer, addr.clone()),
                Err(Error::MalformedBundle("ipc frame trailing"))
            );
        }
    }
    assert_eq!(Frame::Done.to_bytes(), vec![0x81, 0x03]);
}

#[test]
fn malformed_frames_are_refused() {
    assert_eq!(Frame::from_bytes(&[], None), Err(Error::MalformedBundle("ipc frame")));
    assert_eq!(Frame::from_bytes(&[0x81], None), Err(Error::MalformedBundle("ipc frame tag")));
    assert_eq!(
        Frame::from_bytes(&[0x81, 0x18, 0x63], None),
        Err(Error::MalformedBundle("ipc frame unknown tag"))
    );
    assert_eq!(
        Frame::from_bytes(&[0x81, 0x03, 0x00], None),
        Err(Error::MalformedBundle("ipc frame trailing"))
    );
    // A port does not pass 65535.
    let mut e = Encoder::new();
    e.array(3);
    e.uint(1711);
    e.digest(&ROOM);
    e.uint(65536);
    assert_eq!(Frame::from_bytes(&e.finish(), None), Err(Error::MalformedBundle("ipc port range")));
}

#[test]
fn an_address_in_a_frame_must_be_one() {
    let up = |bind: &str| {
        Frame::Event(NodeEvent::ProxyUp { channel_id: ROOM, hostname: t("h"), bind: t(bind) })
    };
    let b = up("nowhere").to_bytes();
    assert_eq!(Frame::address_in(&b), Some(t("nowhere")));
    assert_eq!(Frame::from_bytes(&b, None), Err(Error::MalformedBundle("ipc addr syntax")));
    // An address is held as what its text parses to.
    let b = up("[0:0:0:0:0:0:0:1]:9").to_bytes();
    assert_eq!(Frame::from_bytes(&b, Some(t("[::1]:9"))), Ok(up("[::1]:9")));
    let forwarding = |local: &str| {
        Frame::Event(NodeEvent::Forwarding {
            channel_id: ROOM,
            host: [3; 32],
            service_tag: t("22"),
            local: t(local),
        })
    };
    let b = forwarding("x").to_bytes();
    assert_eq!(Frame::address_in(&b), Some(t("x")));
    assert_eq!(Frame::from_bytes(&b, None), Err(Error::MalformedBundle("ipc addr syntax")));
    assert_eq!(Frame::from_bytes(&b, Some(t("127.0.0.1:9"))), Ok(forwarding("127.0.0.1:9")));
    // What follows the address is looked at after it.
    let mut longer = b.clone();
    longer.push(0);
    assert_eq!(Frame::from_bytes(&longer, None), Err(Error::MalformedBundle("ipc addr syntax")));
    assert_eq!(
        Frame::from_bytes(&longer, Some(t("127.0.0.1:9"))),
        Err(Error::MalformedBundle("ipc frame trailing"))
    );
    assert_eq!(Frame::address_in(&Frame::Done.to_bytes()), None);
    assert_eq!(Frame::address_in(&b[..20]), None);
}

#[test]
fn a_length_goes_before_each_frame() {
    assert_eq!(length_bytes(0x0102_0304), [1, 2, 3, 4]);
    assert_eq!(length_of(&[1, 2, 3, 4]), 0x0102_0304);
    assert_eq!(write_frame(&[9, 8]).unwrap(), vec![0, 0, 0, 2, 9, 8]);
    assert_eq!(read_frame(&length_bytes(MAX_FRAME as u32)), Ok(MAX_FRAME));
    assert_eq!(
        read_frame(&length_bytes(MAX_FRAME as u32 + 1)),
        Err(Error::SizeLimitExceeded("ipc frame length"))
    );
}

#[test]
fn a_client_accepts_the_greeting_of_its_own_protocol_only() {
    let hello = greeting(Some(ROOM)).to_bytes();
    assert_eq!(IpcClient::open(Some(hello), None).unwrap().me(), Some(ROOM));
    let old = Frame::Hello { protocol: PROTOCOL_VERSION - 1, me: None }.to_bytes();
    assert_eq!(
        IpcClient::open(Some(old), None),
        Err(Error::MalformedBundle("ipc protocol version"))
    );
    assert_eq!(
        IpcClient::open(Some(Frame::Done.to_bytes()), None),
        Err(Error::MalformedBundle("ipc expected hello"))
    );
    assert_eq!(IpcClient::open(None, None), Err(Error::MalformedBundle("ipc closed before hello")));
    assert_eq!(IpcClient::subscribe(Frame::Done), Ok(()));
    assert!(IpcClient::subscribe(Frame::Error { reason: t("no") }).is_err());
    assert_eq!(IpcClient::next(None, None), Ok(None));
    assert_eq!(IpcClient::request(None, None), Err(Error::MalformedBundle("ipc closed before reply")));
    assert_eq!(
        IpcClient::request(Some(Frame::Error { reason: t("no") }.to_bytes()), None),
        Ok(Frame::Error { reason: t("no") })
    );
}

#[test]
fn a_body_is_taken_for_what_it_is() {
    assert!(matches!(serve_client(&[0x81, 0x01], true), ClientStep::Status));
    assert!(matches!(serve_client(&[0x81, 0x01], false), ClientStep::Subscribe));
    let app = AppRequest::Accept { id: 3 }.to_bytes();
    assert!(matches!(
        serve_client(&app, false),
        ClientStep::App(AppRequest::Accept { id: 3 })
    ));
    let post = Request::Post { channel_id: ROOM, text: t("x") }.to_bytes();
    assert!(matches!(serve_client(&post, false), ClientStep::Answer(Request::Post { .. })));
    assert!(matches!(serve_client(&[0xff], false), ClientStep::Refuse(_)));
    assert_eq!(
        pump(EventStreamItem::Lagged(4)),
        Frame::Lagged { missed: 4 }
    );
    assert_eq!(pump(EventStreamItem::Event(NodeEvent::Locked)), Frame::Event(NodeEvent::Locked));
}

fn reply(s: Step) -> Frame {
    match s {
        Step::Reply(f) => f,
        other => panic!("{other:?}"),
    }
}

fn refusal(s: Step) -> String {
    match reply(s) {
        Frame::Error { reason } => reason,
        other => panic!("{other:?}"),
    }
}

#[test]
fn a_room_is_read_from_a_cursor() {
    let v = view();
    let read = |since, limit| {
        reply(serve_request(&v, Request::Read { channel_id: ROOM, since, limit }))
    };
    assert_eq!(
        read(None, 0),
        Frame::Rows { rows: vec![row(1, "one"), row(2, "two"), row(3, "three")] }
    );
    assert_eq!(
        read(Some([1; 32]), 1),
        Frame::Rows { rows: vec![row(2, "two")] }
    );
    // The last line that was read is the next cursor.
    assert_eq!(
        read(Some([2; 32]), 0),
        Frame::Rows { rows: vec![row(3, "three")] }
    );
    assert_eq!(read(Some([3; 32]), 5), Frame::Rows { rows: vec![] });
    assert!(matches!(read(Some([9; 32]), 0), Frame::Error { .. }));
    assert_eq!(
        refusal(serve_request(&v, Request::Read { channel_id: OTHER, since: None, limit: 0 })),
        "room not open"
    );
}

#[test]
fn what_the_view_holds_is_answered_at_once() {
    let v = view();
    assert_eq!(
        reply(serve_request(&v, Request::Roster { channel_id: ROOM })),
        Frame::Members { members: vec![[0x11; 32], [0x12; 32]] }
    );
    assert_eq!(
        reply(serve_request(&v, Request::Order { channel_id: ROOM })),
        Frame::Order { entries: vec![([1; 32], 10), ([2; 32], 20), ([3; 32], 30)] }
    );
    let Frame::Rooms { rooms } = reply(serve_request(&v, Request::Rooms)) else {
        panic!("rooms");
    };
    assert_eq!(rooms.len(), 2);
    assert_eq!(rooms[0], (ROOM, t("den"), true));
    assert_eq!(rooms[1].0, OTHER);
    assert!(!rooms[1].2);
    assert_eq!(reply(serve_request(&v, Request::Subscribe)), Frame::Done);
}

#[test]
fn the_keyring_is_edited_by_the_operator_only() {
    let v = view();
    let ask = || Request::Untrust { target: [0x12; 32], identity_passphrase: t("secret") };
    let Step::Apply { command, then_do, .. } = serve_request(&v, ask()) else {
        panic!("verified first");
    };
    match command {
        NodeCommand::VerifyPassphrase { passphrase } => {
            assert_eq!(passphrase.as_slice(), b"secret");
        }
        other => panic!("{other:?}"),
    }
    let Step::Apply { command, .. } = serve_progress(&v, then_do, Progress::Applied) else {
        panic!("applied next");
    };
    assert!(matches!(command, NodeCommand::Untrust { fingerprint: [0x12, ..] }));
    let Step::Apply { then_do, .. } = serve_request(&v, ask()) else {
        panic!("verified first");
    };
    let why = refusal(serve_progress(&v, then_do, Progress::Failed { reason: t("wrong") }));
    assert!(why.starts_with("the identity passphrase does not match"));
    let Step::Apply { then_do, .. } =
        serve_request(&v, Request::TrustList { identity_passphrase: t("secret") })
    else {
        panic!("verified first");
    };
    assert_eq!(
        reply(serve_progress(&v, then_do, Progress::Applied)),
        Frame::Trusted { entries: vec![([0x12; 32], t("bo"))] }
    );
}

#[test]
fn a_passphrase_reaches_the_node_as_its_bytes() {
    let v = view();
    let q = Request::Create { local_name: t("den"), passphrase: t("caf\u{e9}") };
    let Step::Apply { command: NodeCommand::CreateChannel { passphrase, .. }, .. } =
        serve_request(&v, q)
    else {
        panic!("created");
    };
    assert_eq!(passphrase.as_slice(), &[b'c', b'a', b'f', 0xc3, 0xa9]);
}

#[test]
fn an_address_is_parsed_before_it_is_used() {
    let v = view();
    let q = Request::StopForward { local: t("not an address") };
    let Step::Address { text, then_do } = serve_request(&v, q) else {
        panic!("parsed first");
    };
    assert_eq!(text, "not an address");
    assert_eq!(
        refusal(serve_progress(&v, then_do, Progress::Unparsed { text })),
        "not a local address: \"not an address\""
    );
    let q = Request::Forward {
        channel_id: ROOM,
        host: [0x12; 32],
        service_tag: t("22"),
        local: t("127.0.0.1:0"),
    };
    let Step::Address { then_do, .. } = serve_request(&v, q) else {
        panic!("parsed first");
    };
    let step = serve_progress(&v, then_do, Progress::Parsed { address: t("127.0.0.1:0") });
    let Step::Apply { watch: true, then_do, .. } = step else {
        panic!("applied and watched");
    };
    let Step::Watch { then_do } = serve_progress(&v, then_do, Progress::Applied) else {
        panic!("watched");
    };
    let bound = NodeEvent::Forwarding {
        channel_id: ROOM,
        host: [0x12; 32],
        service_tag: t("22"),
        local: t("127.0.0.1:4001"),
    };
    assert_eq!(
        reply(serve_progress(&v, then_do, Progress::Item(EventStreamItem::Event(bound)))),
        Frame::Bound { local: t("127.0.0.1:4001") }
    );
    assert_eq!(
        refusal(serve_progress(&v, Pending::ForwardAwaited, Progress::TimedOut)),
        "the forward did not report a bound address"
    );
    assert_eq!(
        refusal(serve_progress(&v, Pending::ForwardAwaited, Progress::Ended)),
        "the node stopped before the forward was bound"
    );
}

#[test]
fn a_link_is_awaited_for_its_own_room() {
    let v = view();
    let Step::Apply { then_do, .. } = serve_request(&v, Request::Invite { channel_id: ROOM })
    else {
        panic!("asked");
    };
    let Step::Watch { then_do } = serve_progress(&v, then_do, Progress::Applied) else {
        panic!("watched");
    };
    let link = |channel_id| {
        Progress::Item(EventStreamItem::Event(NodeEvent::InviteLink {
            channel_id,
            url: t("vox://x"),
        }))
    };
    let Step::Watch { then_do } = serve_progress(&v, then_do, link(OTHER)) else {
        panic!("another room's link is not this one's");
    };
    assert_eq!(
        reply(serve_progress(&v, then_do, link(ROOM))),
        Frame::Link { url: t("vox://x") }
    );
    assert_eq!(
        refusal(serve_progress(
            &v,
            Pending::InviteAwaited { channel_id: ROOM },
            Progress::TimedOut
        )),
        "the node did not mint a link"
    );
}

#[test]
fn a_secret_is_wiped() {
    let mut s = Secret::new(b"passphrase".to_vec());
    assert_eq!(s.as_slice(), b"passphrase");
    assert!(!s.is_empty());
    s.wipe();
    assert!(s.is_empty());
    assert_eq!(s.as_slice(), b"");
}
