use vox_node::coordstream::punch::{
    open_punch_session, recv_coord, CoordMessage, PunchMove, PunchPlan, PunchRun, PunchStep, Role,
};
use vox_node::coordstream::session::{
    ask_observed, named_peer, next_frame, punch_endpoints, relay_session, serve_coord, CoordStep,
    Forwarding, SessionStep,
};
use vox_node::coordstream::{
    accepts_relayed, relays_for, CoordFrame, CoordRefusal, PeerClass, MAX_RELAYED_FRAMES,
};
use vox_node::error::Error;

fn id(n: u8) -> [u8; 32] {
    [n; 32]
}

fn no_address() -> Result<usize, Error> {
    Err(Error::HolePunchFailed("no address"))
}

#[test]
fn coordination_frames_are_read_back() {
    let addr = vec![0x83, 0x04, 0x44, 10, 0, 0, 1, 0x18, 0x50];
    let frames = vec![
        CoordFrame::WhoAmI,
        CoordFrame::Observed { addr: addr.clone() },
        CoordFrame::Relay { peer: id(1) },
        CoordFrame::From { peer: id(2) },
        CoordFrame::Relaying,
        CoordFrame::Refused { reason: CoordRefusal::NotConnected },
        CoordFrame::Refused { reason: CoordRefusal::NotAuthorized },
        CoordFrame::Refused { reason: CoordRefusal::Capacity },
        CoordFrame::Coord { payload: vec![1, 2, 3] },
    ];
    for f in &frames {
        let b = f.to_bytes();
        let read = CoordFrame::address_part(&b).map(|part| part.len());
        assert_eq!(read.is_some(), matches!(f, CoordFrame::Observed { .. }));
        let back = CoordFrame::from_bytes(&b, read.ok_or(Error::Other("none"))).unwrap();
        assert_eq!(&back, f);
    }
    assert_eq!(CoordFrame::WhoAmI.to_bytes(), vec![0x81, 0x00]);
    assert_eq!(
        CoordFrame::Coord { payload: vec![1, 2, 3] }.to_bytes(),
        vec![0x82, 0x06, 0x43, 1, 2, 3]
    );
}

#[test]
fn malformed_coordination_frames_are_refused() {
    let fault = |b: &[u8]| CoordFrame::from_bytes(b, no_address()).unwrap_err();
    assert_eq!(fault(&[0x82, 0x00, 0x00]), Error::HolePunchFailed("coord: frame arity"));
    assert_eq!(fault(&[0x81, 0x07]), Error::HolePunchFailed("coord: unknown op"));
    assert_eq!(fault(&[0x81, 0x00, 0x00]), Error::HolePunchFailed("coord: trailing bytes"));
    assert_eq!(
        fault(&[0x82, 0x02, 0x41, 0x07]),
        Error::HolePunchFailed("coord: fingerprint length")
    );
    assert_eq!(fault(&[0x82, 0x01, 0x00]), Error::HolePunchFailed("no address"));
    // An address that ends before the frame does leaves bytes over.
    assert_eq!(
        CoordFrame::from_bytes(&[0x82, 0x01, 0x00, 0x00], Ok(1)),
        Err(Error::HolePunchFailed("coord: trailing bytes"))
    );
    assert!(CoordFrame::from_bytes(&[0x82, 0x05, 0x03], no_address()).is_err());
}

#[test]
fn who_relays_and_whose_origins_are_taken() {
    assert!(relays_for(PeerClass::Member));
    assert!(relays_for(PeerClass::Anchor));
    assert!(relays_for(PeerClass::PendingJoiner));
    assert!(!relays_for(PeerClass::Unknown));
    assert!(accepts_relayed(PeerClass::Anchor, PeerClass::Unknown));
    assert!(accepts_relayed(PeerClass::Member, PeerClass::Member));
    assert!(!accepts_relayed(PeerClass::Member, PeerClass::Unknown));
    assert!(!accepts_relayed(PeerClass::Unknown, PeerClass::Member));
}

#[test]
fn a_stranger_learns_its_own_address_only() {
    let seen = vec![9, 9];
    assert_eq!(
        serve_coord(
            CoordFrame::WhoAmI,
            seen.clone(),
            PeerClass::Unknown,
            PeerClass::Unknown,
            false
        ),
        CoordStep::Answer(CoordFrame::Observed { addr: seen.clone() })
    );
    assert_eq!(
        serve_coord(
            CoordFrame::Relay { peer: id(3) },
            seen.clone(),
            PeerClass::Unknown,
            PeerClass::Member,
            true
        ),
        CoordStep::Refuse {
            reason: CoordRefusal::NotAuthorized,
            error: Error::StreamRefused("coord: peer may not ask for a relay"),
        }
    );
    assert_eq!(
        serve_coord(
            CoordFrame::From { peer: id(3) },
            seen,
            PeerClass::Unknown,
            PeerClass::Member,
            true
        ),
        CoordStep::Refuse {
            reason: CoordRefusal::NotAuthorized,
            error: Error::StreamRefused("coord: peer may not coordinate"),
        }
    );
}

#[test]
fn a_member_is_carried_to_a_connected_target() {
    let ask = || CoordFrame::Relay { peer: id(3) };
    assert_eq!(named_peer(&ask()), Some(id(3)));
    assert_eq!(named_peer(&CoordFrame::WhoAmI), None);
    assert_eq!(
        serve_coord(ask(), vec![], PeerClass::Member, PeerClass::Member, true),
        CoordStep::Carry { target: id(3) }
    );
    assert_eq!(
        serve_coord(ask(), vec![], PeerClass::Member, PeerClass::Member, false),
        CoordStep::Refuse {
            reason: CoordRefusal::NotConnected,
            error: Error::HolePunchFailed("coord: target not connected"),
        }
    );
    assert_eq!(
        serve_coord(
            CoordFrame::From { peer: id(4) },
            vec![],
            PeerClass::Anchor,
            PeerClass::Unknown,
            false
        ),
        CoordStep::Punch { peer: id(4) }
    );
    assert_eq!(
        serve_coord(CoordFrame::Relaying, vec![], PeerClass::Anchor, PeerClass::Member, true),
        CoordStep::Fail(Error::HolePunchFailed("coord: unexpected opening frame"))
    );
}

#[test]
fn a_session_forwards_so_many_signals_and_no_more() {
    let mut f = Forwarding::new();
    let signal = CoordFrame::Coord { payload: vec![5] }.to_bytes();
    for _ in 0..MAX_RELAYED_FRAMES {
        assert_eq!(f.copy_coord(Ok(Some(signal.clone()))), Some(signal.clone()));
    }
    assert_eq!(f.copy_coord(Ok(Some(signal.clone()))), None);
    let mut g = Forwarding::new();
    assert_eq!(g.copy_coord(Ok(Some(CoordFrame::WhoAmI.to_bytes()))), None);
    // Once over, it stays over.
    assert_eq!(g.copy_coord(Ok(Some(signal))), None);
    let mut h = Forwarding::new();
    assert_eq!(h.copy_coord(Ok(None)), None);
}

#[test]
fn the_targets_answer_decides_the_session() {
    assert_eq!(relay_session(Ok(CoordFrame::Relaying)), SessionStep::Forward);
    assert_eq!(
        relay_session(Ok(CoordFrame::Refused { reason: CoordRefusal::Capacity })),
        SessionStep::Refuse {
            reason: CoordRefusal::Capacity,
            error: Error::HolePunchFailed("coord: target refused the session"),
        }
    );
    assert_eq!(
        relay_session(Ok(CoordFrame::WhoAmI)),
        SessionStep::Fail(Error::HolePunchFailed("coord: target did not accept"))
    );
    assert_eq!(relay_session(Err(Error::Storage)), SessionStep::Fail(Error::Storage));
}

#[test]
fn what_is_read_of_a_session() {
    assert_eq!(
        next_frame(None, no_address()),
        Err(Error::HolePunchFailed("coord: peer went quiet"))
    );
    assert_eq!(
        next_frame(Some(Ok(None)), no_address()),
        Err(Error::HolePunchFailed("coord: stream closed"))
    );
    assert_eq!(next_frame(Some(Ok(Some(vec![0x81, 0x04]))), no_address()), Ok(CoordFrame::Relaying));
    assert_eq!(ask_observed(CoordFrame::Observed { addr: vec![1] }), Ok(vec![1]));
    assert_eq!(
        ask_observed(CoordFrame::Refused { reason: CoordRefusal::Capacity }),
        Err(Error::HolePunchFailed("coord: whoami refused"))
    );
    assert_eq!(
        ask_observed(CoordFrame::WhoAmI),
        Err(Error::HolePunchFailed("coord: not an observed answer"))
    );
    assert_eq!(recv_coord(CoordFrame::Coord { payload: vec![7] }), Ok(vec![7]));
    assert_eq!(
        recv_coord(CoordFrame::Refused { reason: CoordRefusal::Capacity }),
        Err(Error::HolePunchFailed("coord: session refused"))
    );
    assert_eq!(open_punch_session(CoordFrame::Relaying), Ok(()));
    assert_eq!(
        open_punch_session(CoordFrame::Refused { reason: CoordRefusal::NotConnected }),
        Err(Error::HolePunchFailed("coord: coordinator cannot reach the peer"))
    );
}

#[test]
fn each_endpoint_is_offered_once_and_the_observed_one_first() {
    let local = vec!["10.0.0.1:1".to_string(), "9.9.9.9:2".to_string(), "10.0.0.1:1".to_string()];
    assert_eq!(
        punch_endpoints(Some("9.9.9.9:2".to_string()), &local),
        vec!["9.9.9.9:2".to_string(), "10.0.0.1:1".to_string()]
    );
    let many: Vec<String> = (0..40).map(|n| format!("10.0.0.1:{n}")).collect();
    assert_eq!(punch_endpoints(None, &many).len(), 16);
}

fn plan() -> PunchPlan {
    PunchPlan { targets: vec!["10.0.0.1:1".to_string()], fire_delay_ms: 20 }
}

#[test]
fn an_initiator_offers_awaits_and_fires() {
    let mut run = PunchRun::new(Role::Initiator);
    assert_eq!(run.open(Some(vec![1])), Ok(CoordFrame::Coord { payload: vec![1] }));
    let seen = vec!["1.1.1.1:1".to_string()];
    assert_eq!(run.on_connect(Ok(CoordMessage::Connect { observed: seen.clone() })), Ok(seen));
    assert_eq!(
        run.on_step(Ok(PunchStep::SyncThenPunch { sync: vec![2], plan: plan() })),
        Ok(PunchMove::Fire {
            sync: Some(CoordFrame::Coord { payload: vec![2] }),
            plan: plan(),
        })
    );
}

#[test]
fn a_responder_answers_awaits_the_sync_and_fires() {
    let mut run = PunchRun::new(Role::Responder);
    assert!(run.on_connect(Ok(CoordMessage::Connect { observed: vec![] })).is_ok());
    assert_eq!(
        run.on_step(Ok(PunchStep::Send(vec![3]))),
        Ok(PunchMove::Send(CoordFrame::Coord { payload: vec![3] }))
    );
    assert_eq!(run.on_sync(Ok(CoordMessage::Sync)), Ok(()));
    assert_eq!(
        run.on_plan(Ok(PunchStep::Punch { plan: plan() })),
        Ok(PunchMove::Fire { sync: None, plan: plan() })
    );
}

#[test]
fn a_punch_out_of_sequence_fails() {
    let mut run = PunchRun::new(Role::Initiator);
    assert_eq!(
        run.open(None),
        Err(Error::HolePunchFailed("coord: initiator has no opening"))
    );
    let mut run = PunchRun::new(Role::Responder);
    assert_eq!(
        run.on_connect(Ok(CoordMessage::Sync)),
        Err(Error::HolePunchFailed("coord: Sync before Connect"))
    );
    let mut run = PunchRun::new(Role::Responder);
    assert!(run.on_connect(Ok(CoordMessage::Connect { observed: vec![] })).is_ok());
    assert_eq!(
        run.on_step(Ok(PunchStep::Punch { plan: plan() })),
        Err(Error::HolePunchFailed("coord: responder out of sequence"))
    );
}
