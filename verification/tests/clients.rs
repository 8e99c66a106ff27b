use vox_node::app::hub::{AppIncoming, AppInfo};
use vox_node::appipc::splice::{
    ask, listening, next_incoming, read_splice, splice_length, spliced, write_splice, Splice,
    SpliceEvent, SpliceFrame, SpliceMove, MAX_SPLICE_FRAME,
};
use vox_node::appipc::{AppReply, AppRequest};
use vox_node::cbor::Encoder;
use vox_node::error::Error;
use vox_node::ipc::conn::{greeting, length_bytes};
use vox_node::ipc::frame::Frame;
use vox_node::nameipc::{
    connect, next_note, note_bytes, resolve, serve_resolve, serve_up, up, NameRequest,
};

const ROOM: [u8; 32] = [0xC5; 32];
const PEER: [u8; 32] = [0x11; 32];

fn info(datagrams: bool) -> AppInfo {
    AppInfo { channel_id: ROOM, peer: PEER, label: "chat/1".to_string(), datagrams }
}

#[test]
fn app_requests_are_read_back() {
    let requests = vec![
        AppRequest::Listen { channel_id: None, label: "chat/1".to_string() },
        AppRequest::Listen { channel_id: Some(ROOM), label: "chat/1".to_string() },
        AppRequest::Accept { id: 7 },
        AppRequest::Open {
            channel_id: ROOM,
            peer: PEER,
            labels: vec!["a".to_string(), "b".to_string()],
            datagrams: true,
        },
    ];
    for q in requests {
        assert_eq!(AppRequest::parse(&q.to_bytes()).unwrap().unwrap(), q);
    }
    // Another request is not an application's.
    assert_eq!(AppRequest::parse(&[0x81, 0x01]), None);
    assert_eq!(AppRequest::parse(&[0xff]), None);
    // An application's that is cut short is one that fails.
    let mut e = Encoder::new();
    e.array(2);
    e.uint(2202);
    assert!(matches!(AppRequest::parse(&e.finish()), Some(Err(_))));
}

#[test]
fn app_replies_are_read_back() {
    let incoming =
        AppIncoming { id: 4, channel_id: ROOM, peer: PEER, label: "chat/1".to_string() };
    let b = AppReply::Incoming(incoming).to_bytes();
    assert!(matches!(next_incoming(Some(b.clone()), None), Ok(Some(AppIncoming { id: 4, .. }))));
    assert_eq!(next_incoming(None, None), Ok(None));
    assert_eq!(
        next_incoming(Some(AppReply::Listening.to_bytes()), None),
        Err(Error::MalformedBundle("ipc app listener"))
    );
    let replies = vec![
        AppReply::Listening,
        AppReply::Splice(info(true)),
        AppReply::Splice(info(false)),
        AppReply::Error("no".to_string()),
    ];
    for a in replies {
        assert_eq!(ask(Some(a.to_bytes()), None).unwrap(), a);
    }
    assert_eq!(ask(None, None), Err(Error::MalformedBundle("ipc closed before reply")));
    assert_eq!(listening(AppReply::Listening), Ok(()));
    assert_eq!(
        listening(AppReply::Error("no".to_string())),
        Err(Error::AppRefused("no".to_string()))
    );
    assert_eq!(spliced(AppReply::Splice(info(true))), Ok(info(true)));
    assert_eq!(spliced(AppReply::Listening), Err(Error::MalformedBundle("ipc app reply")));
}

#[test]
fn splice_frames_are_read_back() {
    let frames =
        vec![SpliceFrame::Data(vec![1, 2]), SpliceFrame::Datagram(vec![]), SpliceFrame::Fin];
    for f in frames {
        let b = write_splice(&f).unwrap();
        let head = [b[0], b[1], b[2], b[3]];
        assert_eq!(splice_length(&head).unwrap(), b.len() - 4);
        assert_eq!(read_splice(&b[4..]).unwrap(), f);
    }
    assert_eq!(write_splice(&SpliceFrame::Data(vec![9])).unwrap(), vec![0, 0, 0, 2, 0, 9]);
    assert_eq!(read_splice(&[3]), Err(Error::MalformedBundle("splice kind")));
    let over = Err(Error::SizeLimitExceeded("splice frame"));
    assert_eq!(splice_length(&[0, 0, 0, 0]), over.clone());
    assert_eq!(splice_length(&length_bytes(MAX_SPLICE_FRAME as u32 + 1)), over);
    assert_eq!(splice_length(&length_bytes(MAX_SPLICE_FRAME as u32)), Ok(71680));
}

#[test]
fn a_plain_splice_carries_bytes_and_shuts() {
    let mut s = Splice::new(&info(false));
    assert_eq!(s.step(SpliceEvent::Peer(Ok(Some(vec![1])))), SpliceMove::Bytes(vec![1]));
    assert_eq!(s.step(SpliceEvent::Client(Some(Ok(())))), SpliceMove::Wait);
    assert!(!s.over());
    assert_eq!(s.step(SpliceEvent::Peer(Ok(None))), SpliceMove::Shut);
    assert!(s.over());
}

#[test]
fn a_framed_splice_carries_datagrams_too() {
    let mut s = Splice::new(&info(true));
    assert_eq!(
        s.step(SpliceEvent::Peer(Ok(Some(vec![1])))),
        SpliceMove::Frame(SpliceFrame::Data(vec![1]))
    );
    assert_eq!(
        s.step(SpliceEvent::Datagram(Some(vec![2]))),
        SpliceMove::Frame(SpliceFrame::Datagram(vec![2]))
    );
    assert_eq!(s.step(SpliceEvent::Datagram(None)), SpliceMove::Wait);
    assert_eq!(s.step(SpliceEvent::Peer(Ok(None))), SpliceMove::Frame(SpliceFrame::Fin));
    assert_eq!(
        s.step(SpliceEvent::Client(None)),
        SpliceMove::End(Error::MalformedBundle("ipc splice"))
    );
    assert_eq!(
        s.step(SpliceEvent::Withdrawn),
        SpliceMove::End(Error::TunnelRevoked("app: trust was withdrawn"))
    );
}

#[test]
fn naming_requests_are_read_back() {
    for q in vec![
        NameRequest::Resolve("bo.den".to_string()),
        NameRequest::Up("127.0.0.1:1080".to_string()),
    ] {
        assert_eq!(NameRequest::parse(&q.to_bytes()).unwrap(), q);
    }
    assert_eq!(NameRequest::parse(&[0x81, 0x01]), None);
    assert_eq!(NameRequest::parse(&[]), None);
}

#[test]
fn a_name_resolves_or_says_why_not() {
    let found = serve_resolve(Ok((ROOM, PEER)));
    assert!(found.more);
    assert_eq!(resolve(&found.body), Ok((ROOM, PEER)));
    let lost = serve_resolve(Err("no such name".to_string()));
    assert!(lost.more);
    assert_eq!(resolve(&lost.body), Err(Error::AppRefused("no such name".to_string())));
    assert_eq!(resolve(&[0xff]), Err(Error::MalformedBundle("ipc naming reply")));
    assert_eq!(
        resolve(&Frame::Done.to_bytes()),
        Err(Error::MalformedBundle("ipc naming reply"))
    );
}

#[test]
fn a_proxy_comes_up_or_says_why_not() {
    let bound = serve_up("127.0.0.1:0".to_string(), true, Ok("127.0.0.1:1080".to_string()));
    assert_eq!(up(&bound.body), Ok("127.0.0.1:1080".to_string()));
    let busy = serve_up("127.0.0.1:0".to_string(), true, Err("in use".to_string()));
    assert_eq!(up(&busy.body), Err(Error::AppRefused("in use".to_string())));
    let wrong = serve_up("no\"where".to_string(), false, Err(String::new()));
    assert!(!wrong.more);
    match up(&wrong.body) {
        Err(Error::AppRefused(why)) => {
            assert!(why.contains("\"no\\\"where\""), "{why}");
        }
        other => panic!("{other:?}"),
    }
    assert_eq!(next_note(&note_bytes("relay up")), Some("relay up".to_string()));
    assert_eq!(next_note(&Frame::Done.to_bytes()), None);
}

#[test]
fn a_naming_client_wants_its_own_protocol() {
    assert_eq!(connect(Some(greeting(None).to_bytes()), None), Ok(()));
    let old = Frame::Hello { protocol: 1, me: None }.to_bytes();
    assert_eq!(connect(Some(old), None), Err(Error::MalformedBundle("ipc protocol version")));
    assert_eq!(connect(None, None), Err(Error::MalformedBundle("ipc closed before hello")));
}
