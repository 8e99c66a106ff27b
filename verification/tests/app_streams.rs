use vox_node::app::hub::{
    AppHub, AppInfo, Inbound, BURST_NANOS, MAX_APP_STREAMS_PER_PEER, TOKEN_NANOS,
};
use vox_node::app::stream::{AppStream, Raced};
use vox_node::app::{
    valid_label, AppAnswer, AppOpen, AppRefusal, APP_WITHDRAWN_CODE, FLAG_DATAGRAMS,
};
use vox_node::error::Error;
use vox_node::table::Table;

const ROOM: [u8; 32] = [0xC5; 32];
const PEER: [u8; 32] = [0x11; 32];
const STRANGER: [u8; 32] = [0x22; 32];

fn words(list: &[&str]) -> Vec<String> {
    list.iter().map(|s| s.to_string()).collect()
}

/// A hub that trusts `PEER` in `ROOM`.
fn hub() -> AppHub {
    let mut h = AppHub::new();
    let mut reachers = Table::new();
    reachers.insert(ROOM, vec![PEER]);
    h.set_reachers(reachers);
    h
}

fn open_frame(labels: &[&str], flags: u64) -> Option<Vec<u8>> {
    Some(AppOpen { channel_id: ROOM, labels: words(labels), flags }.to_bytes())
}

fn info(datagrams: bool) -> AppInfo {
    AppInfo { channel_id: ROOM, peer: PEER, label: "chat/1".to_string(), datagrams }
}

#[test]
fn labels_are_printable_ascii_of_bounded_length() {
    assert!(valid_label("chat/1"));
    assert!(valid_label("!"));
    assert!(valid_label("~"));
    assert!(valid_label(&"x".repeat(64)));
    assert!(!valid_label(""));
    assert!(!valid_label(&"x".repeat(65)));
    assert!(!valid_label("two words"));
    assert!(!valid_label("caf\u{e9}"));
    assert!(!valid_label("tab\t"));
}

#[test]
fn opens_and_answers_are_read_back() {
    let open = AppOpen { channel_id: ROOM, labels: words(&["a", "b"]), flags: FLAG_DATAGRAMS };
    assert_eq!(AppOpen::from_bytes(&open.to_bytes()).unwrap(), open);
    let answers = vec![
        AppAnswer::Accepted("chat/1".to_string()),
        AppAnswer::Refused(AppRefusal::NoListener),
        AppAnswer::Refused(AppRefusal::Busy),
        AppAnswer::Refused(AppRefusal::Refused),
    ];
    for a in &answers {
        assert_eq!(&AppAnswer::from_bytes(&a.to_bytes()).unwrap(), a);
    }
    assert_eq!(
        AppAnswer::Refused(AppRefusal::Busy).to_bytes(),
        vec![0x82, 0x00, 0x64, b'b', b'u', b's', b'y']
    );
}

#[test]
fn malformed_opens_and_answers_are_refused() {
    let bad = Error::StreamRefused("app: malformed answer");
    assert_eq!(AppAnswer::from_bytes(&[0x82, 0x00, 0x61, b'x']), Err(bad.clone()));
    assert_eq!(AppAnswer::from_bytes(&[0x82, 0x01, 0x60]), Err(bad.clone()));
    assert_eq!(AppAnswer::from_bytes(&[0x82, 0x02, 0x61, b'x']), Err(bad));
    let none = AppOpen { channel_id: ROOM, labels: vec![], flags: 0 };
    assert!(AppOpen::from_bytes(&none.to_bytes()).is_err());
    let nine: Vec<&str> = vec!["a"; 9];
    let many = AppOpen { channel_id: ROOM, labels: words(&nine), flags: 0 };
    assert!(AppOpen::from_bytes(&many.to_bytes()).is_err());
    let wrong = AppOpen { channel_id: ROOM, labels: words(&["two words"]), flags: 0 };
    assert!(AppOpen::from_bytes(&wrong.to_bytes()).is_err());
}

#[test]
fn one_listener_for_each_label_and_room() {
    let mut h = hub();
    let t = h.listen(Some(ROOM), "chat/1").unwrap();
    assert!(h.is_listening(Some(ROOM), "chat/1"));
    assert!(!h.is_listening(None, "chat/1"));
    assert_eq!(
        h.listen(Some(ROOM), "chat/1"),
        Err(Error::StreamRefused("app: something here already listens for that label"))
    );
    assert_eq!(
        h.listen(None, "two words"),
        Err(Error::StreamRefused("app: a label is 1 to 64 printable ASCII bytes"))
    );
    h.unlisten(t);
    assert!(!h.is_listening(Some(ROOM), "chat/1"));
    assert!(h.listen(Some(ROOM), "chat/1").is_ok());
}

#[test]
fn the_first_offered_label_wins_and_the_room_before_any_room() {
    let mut h = hub();
    let any = h.listen(None, "chat/2").unwrap();
    let here = h.listen(Some(ROOM), "chat/1").unwrap();
    assert_eq!(h.listener_for(&ROOM, &words(&["chat/2", "chat/1"])), Some((0, any)));
    assert_eq!(h.listener_for(&ROOM, &words(&["nope", "chat/1"])), Some((1, here)));
    let closer = h.listen(Some(ROOM), "chat/2").unwrap();
    assert_eq!(h.listener_for(&ROOM, &words(&["chat/2"])), Some((0, closer)));
    assert_eq!(h.listener_for(&[9; 32], &words(&["chat/2"])), Some((0, any)));
    assert_eq!(h.listener_for(&[9; 32], &words(&["chat/1"])), None);
}

#[test]
fn a_stream_is_opened_to_the_trusted_only() {
    let mut h = hub();
    let asked = h.open(ROOM, PEER, words(&["chat/1"]), true).unwrap();
    assert_eq!(asked.flags, FLAG_DATAGRAMS);
    assert_eq!(
        h.open(ROOM, PEER, vec![], false),
        Err(Error::StreamRefused("app: offer 1 to 8 labels of 1 to 64 printable ASCII bytes"))
    );
    assert_eq!(
        h.open([9; 32], PEER, words(&["chat/1"]), false),
        Err(Error::StreamRefused("app: this node does not hold that room"))
    );
    assert!(h.open(ROOM, STRANGER, words(&["chat/1"]), false).is_err());
    assert_eq!(h.stats().refused_locally, 2);
}

#[test]
fn an_answer_must_choose_what_was_offered() {
    let mut h = hub();
    let asked = |h: &mut AppHub| h.open(ROOM, PEER, words(&["chat/1"]), true).unwrap();
    let a = asked(&mut h);
    let accepted = AppAnswer::Accepted("chat/1".to_string()).to_bytes();
    assert_eq!(h.opened(a, PEER, Some(accepted)), Ok(info(true)));
    assert_eq!(h.stats().opened, 1);
    let a = asked(&mut h);
    let other = AppAnswer::Accepted("chat/2".to_string()).to_bytes();
    assert_eq!(
        h.opened(a, PEER, Some(other)),
        Err(Error::StreamRefused("app: the peer chose a label not offered"))
    );
    let a = asked(&mut h);
    assert_eq!(h.opened(a, PEER, None), Err(Error::StreamRefused("app: refused by the peer")));
    let a = asked(&mut h);
    let busy = AppAnswer::Refused(AppRefusal::Busy);
    assert_eq!(h.opened(a, PEER, Some(busy.to_bytes())), Err(AppRefusal::Busy.error()));
    assert_eq!(h.stats().opened, 1);
}

#[test]
fn whoever_is_not_trusted_learns_nothing() {
    let mut h = hub();
    h.listen(Some(ROOM), "chat/1").unwrap();
    let frame = || open_frame(&["chat/1"], 0);
    assert_eq!(h.serve_inbound(frame(), STRANGER, 0), Inbound::Reset);
    assert_eq!(h.serve_inbound(open_frame(&["nope"], 0), STRANGER, 0), Inbound::Reset);
    assert_eq!(h.serve_inbound(Some(vec![0xff]), PEER, 0), Inbound::Reset);
    assert_eq!(h.serve_inbound(None, PEER, 0), Inbound::Reset);
    assert_eq!(h.stats().refused_untrusted, 4);
    assert_eq!(h.stats().inbound, 4);
    // A room that is not held, and no place was taken by any of them.
    let elsewhere = AppOpen { channel_id: [0xEE; 32], labels: words(&["chat/1"]), flags: 0 };
    assert_eq!(h.serve_inbound(Some(elsewhere.to_bytes()), PEER, 0), Inbound::Reset);
    assert_eq!(h.stats().refused_untrusted, 5);
    assert_eq!((h.peers.len(), h.pending.len(), h.next_id), (0, 0, hub().next_id));
}

#[test]
fn an_incoming_stream_is_announced_accepted_and_handed_over() {
    let mut h = hub();
    let ticket = h.listen(Some(ROOM), "chat/1").unwrap();
    let step = h.serve_inbound(open_frame(&["nope", "chat/1"], FLAG_DATAGRAMS), PEER, 0);
    let incoming = match step {
        Inbound::Announce { incoming, ticket: t, datagrams } => {
            assert_eq!(t, ticket);
            assert!(datagrams);
            incoming
        }
        other => panic!("{other:?}"),
    };
    assert_eq!(incoming.label, "chat/1");
    assert_eq!(h.announced(&incoming, true), None);
    assert_eq!(h.accept(incoming.id, true), Ok(()));
    assert_eq!(
        h.accept(incoming.id, true),
        Err(Error::StreamRefused("app: no such incoming stream is waiting"))
    );
    assert_eq!(h.accepted(incoming, true, true, true), Ok(info(true)));
    assert_eq!(h.stats().accepted, 1);
    assert_eq!(h.stats().announced, 1);
}

#[test]
fn a_stream_nobody_takes_is_refused() {
    let mut h = hub();
    assert_eq!(
        h.serve_inbound(open_frame(&["chat/1"], 0), PEER, 0),
        Inbound::Refuse(AppRefusal::NoListener)
    );
    h.listen(None, "chat/1").unwrap();
    let Inbound::Announce { incoming, .. } = h.serve_inbound(open_frame(&["chat/1"], 0), PEER, 0)
    else {
        panic!("announced");
    };
    assert_eq!(h.unaccepted(&incoming), AppRefusal::Refused);
    assert_eq!(h.stats().refused_unaccepted, 1);
    let Inbound::Announce { incoming, .. } = h.serve_inbound(open_frame(&["chat/1"], 1), PEER, 0)
    else {
        panic!("announced");
    };
    assert_eq!(h.accept(incoming.id, false).is_err(), true);
    assert_eq!(h.accepted(incoming, true, false, true), Err(Some(AppRefusal::Refused)));
}

#[test]
fn a_peer_opens_so_many_streams_and_so_fast() {
    let mut h = hub();
    // The burst.
    for _ in 0..10 {
        assert!(h.admit_peer(&PEER, 0));
    }
    assert!(!h.admit_peer(&PEER, 0));
    // One more place for each tenth of a second.
    assert!(!h.admit_peer(&PEER, TOKEN_NANOS - 1));
    assert!(h.admit_peer(&PEER, TOKEN_NANOS));
    assert!(!h.admit_peer(&PEER, TOKEN_NANOS));
    // However long it waits, no more than so many at once.
    let mut live = 11;
    let mut now = 100 * BURST_NANOS;
    while live < MAX_APP_STREAMS_PER_PEER {
        assert!(h.admit_peer(&PEER, now));
        live += 1;
        now += BURST_NANOS;
    }
    assert!(!h.admit_peer(&PEER, now + BURST_NANOS));
    h.release(&PEER);
    assert!(h.admit_peer(&PEER, now + 2 * BURST_NANOS));
    // Another peer has a limit of its own.
    assert!(h.admit_peer(&STRANGER, now));
}

#[test]
fn a_busy_peer_is_told_so() {
    let mut h = hub();
    h.listen(None, "chat/1").unwrap();
    for _ in 0..10 {
        assert!(h.admit_peer(&PEER, 5));
    }
    assert_eq!(
        h.serve_inbound(open_frame(&["chat/1"], 0), PEER, 5),
        Inbound::Refuse(AppRefusal::Busy)
    );
    assert_eq!(h.stats().refused_busy, 1);
}

#[test]
fn a_withdrawn_stream_is_torn_down_once() {
    let mut h = hub();
    let mut s = AppStream::new(info(true));
    assert_eq!(s.read(&mut h, Raced::Done(Some(4))), (Ok(Some(4)), false));
    assert_eq!(s.write_all(&mut h, Raced::Done(())), (Ok(()), false));
    assert_eq!(s.send_datagram(), Ok(()));
    let (r, reset) = s.read(&mut h, Raced::Withdrawn);
    let closed = Error::TunnelRevoked("app: trust was withdrawn, so the app stream was closed");
    assert_eq!(r, Err(closed.clone()));
    assert!(reset);
    assert_eq!(s.read(&mut h, Raced::Done(Some(1))), (Err(closed.clone()), false));
    assert_eq!(s.write_all(&mut h, Raced::Withdrawn), (Err(closed.clone()), false));
    assert_eq!(s.send_datagram(), Err(closed));
    assert_eq!(s.recv_datagram(&mut h, Raced::Done(Some(vec![1]))), (None, false));
    assert!(!s.dropped(&mut h, false));
    assert_eq!(h.stats().withdrawn, 1);
}

#[test]
fn what_the_peer_did_to_a_stream_is_told_apart() {
    let mut h = hub();
    let mut s = AppStream::new(info(false));
    assert_eq!(
        s.read(&mut h, Raced::Reset(APP_WITHDRAWN_CODE as u64)).0,
        Err(Error::TunnelRevoked("app: the peer withdrew trust, so the app stream was closed"))
    );
    assert_eq!(
        s.read(&mut h, Raced::Reset(1)).0,
        Err(Error::MalformedTunnel("app stream read"))
    );
    assert_eq!(
        s.write_all(&mut h, Raced::Failed).0,
        Err(Error::MalformedTunnel("app stream write"))
    );
    assert_eq!(
        s.send_datagram(),
        Err(Error::StreamRefused("app: no datagram flow on this stream"))
    );
    assert!(!s.dropped(&mut h, true));
    assert!(s.dropped(&mut h, false));
}
