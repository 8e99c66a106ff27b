use vox_node::circuitstream::{
    connect_through, named_peer, on_target, opening_answer, relay, serve_circuit, CircuitEvent,
    CircuitFrame, CircuitLedger, CircuitRefusal, CircuitStep, Leg, RelayStep,
    MAX_CIRCUITS_PER_ASKER, MAX_RELAYED_CIRCUITS,
};
use vox_node::coordstream::PeerClass;
use vox_node::error::Error;

fn id(n: u8) -> [u8; 32] {
    [n; 32]
}

#[test]
fn circuit_frames_are_read_back() {
    let frames = vec![
        CircuitFrame::Open { peer: id(1) },
        CircuitFrame::Incoming { peer: id(2) },
        CircuitFrame::Opened,
        CircuitFrame::Refused { reason: CircuitRefusal::NotConnected },
        CircuitFrame::Refused { reason: CircuitRefusal::NotAuthorized },
        CircuitFrame::Refused { reason: CircuitRefusal::Capacity },
    ];
    for f in &frames {
        assert_eq!(CircuitFrame::from_bytes(&f.to_bytes()).unwrap(), *f);
    }
    assert_eq!(CircuitFrame::Opened.to_bytes(), vec![0x81, 0x02]);
    assert_eq!(
        CircuitFrame::Refused { reason: CircuitRefusal::Capacity }.to_bytes(),
        vec![0x82, 0x03, 0x02]
    );
}

#[test]
fn malformed_circuit_frames_are_refused() {
    let unreachable = |b: &[u8]| CircuitFrame::from_bytes(b).unwrap_err();
    assert_eq!(unreachable(&[0x82, 0x02, 0x00]), Error::Unreachable("circuit: frame arity"));
    assert_eq!(unreachable(&[0x81, 0x04]), Error::Unreachable("circuit: unknown op"));
    assert_eq!(
        unreachable(&[0x82, 0x03, 0x03]),
        Error::Unreachable("circuit: unknown refusal reason")
    );
    assert_eq!(unreachable(&[0x81, 0x02, 0x00]), Error::Unreachable("circuit: trailing bytes"));
    assert_eq!(
        unreachable(&[0x82, 0x00, 0x41, 0x07]),
        Error::Unreachable("circuit: fingerprint length")
    );
    assert!(matches!(unreachable(&[]), Error::Cbor(_)));
}

#[test]
fn neither_cap_of_the_ledger_is_passed() {
    let mut ledger = CircuitLedger::new();
    for _ in 0..MAX_CIRCUITS_PER_ASKER {
        assert!(ledger.take(id(1)).is_some());
    }
    assert!(!ledger.has_room(&id(1)));
    assert_eq!(ledger.take(id(1)), None);
    let mut asker: u8 = 2;
    while ledger.carrying() < MAX_RELAYED_CIRCUITS {
        if ledger.has_room(&id(asker)) {
            assert!(ledger.take(id(asker)).is_some());
        } else {
            asker += 1;
        }
    }
    assert_eq!(ledger.take(id(200)), None);
    assert_eq!(ledger.carrying(), 64);
}

#[test]
fn a_place_that_is_given_back_can_be_taken_again() {
    let mut ledger = CircuitLedger::new();
    let slot = ledger.take(id(1)).unwrap();
    assert_eq!(ledger.carrying(), 1);
    ledger.give_back(slot);
    assert_eq!(ledger.carrying(), 0);
    assert!(ledger.has_room(&id(1)));
}

#[test]
fn a_stranger_gets_no_circuit() {
    let mut ledger = CircuitLedger::new();
    let open = CircuitFrame::Open { peer: id(9) };
    let refused = CircuitStep::Refuse {
        reason: CircuitRefusal::NotAuthorized,
        error: Error::StreamRefused("circuit: peer may not ask for a relay"),
    };
    assert_eq!(
        serve_circuit(open, id(1), PeerClass::Unknown, PeerClass::Member, true, &mut ledger),
        refused
    );
    assert_eq!(
        serve_circuit(open, id(1), PeerClass::Member, PeerClass::Unknown, true, &mut ledger),
        refused
    );
    assert_eq!(ledger.carrying(), 0);
}

#[test]
fn a_relay_asks_the_target_and_carries_once_it_agrees() {
    let mut ledger = CircuitLedger::new();
    let open = CircuitFrame::Open { peer: id(9) };
    assert_eq!(named_peer(&open), Some(id(9)));
    assert_eq!(
        serve_circuit(open, id(1), PeerClass::Member, PeerClass::Member, false, &mut ledger),
        CircuitStep::Refuse {
            reason: CircuitRefusal::NotConnected,
            error: Error::Unreachable("circuit: target not connected"),
        }
    );
    let slot =
        match serve_circuit(open, id(1), PeerClass::Member, PeerClass::Anchor, true, &mut ledger) {
            CircuitStep::Ask { slot, target } => {
                assert_eq!(target, id(9));
                slot
            }
            other => panic!("{other:?}"),
        };
    assert_eq!(ledger.carrying(), 1);
    let carried = on_target(slot, Ok(CircuitFrame::Opened), &mut ledger);
    assert!(matches!(carried, RelayStep::Carry(_)));
    assert_eq!(ledger.carrying(), 1);
}

#[test]
fn a_circuit_that_does_not_come_up_gives_its_place_back() {
    let open = CircuitFrame::Open { peer: id(9) };
    let answers = vec![
        Ok(CircuitFrame::Refused { reason: CircuitRefusal::Capacity }),
        Ok(CircuitFrame::Incoming { peer: id(9) }),
        Err(Error::Unreachable("circuit: peer went quiet")),
    ];
    for answer in answers {
        let mut ledger = CircuitLedger::new();
        let step =
            serve_circuit(open, id(1), PeerClass::Member, PeerClass::Member, true, &mut ledger);
        let CircuitStep::Ask { slot, .. } = step else {
            panic!("asked");
        };
        let refused = matches!(answer, Ok(CircuitFrame::Refused { .. }));
        let out = on_target(slot, answer, &mut ledger);
        assert_eq!(ledger.carrying(), 0);
        assert_eq!(matches!(out, RelayStep::Refuse { .. }), refused);
    }
}

#[test]
fn a_full_asker_is_refused_for_capacity() {
    let mut ledger = CircuitLedger::new();
    for _ in 0..MAX_CIRCUITS_PER_ASKER {
        assert!(ledger.take(id(1)).is_some());
    }
    let open = CircuitFrame::Open { peer: id(9) };
    assert_eq!(
        serve_circuit(open, id(1), PeerClass::Member, PeerClass::Member, true, &mut ledger),
        CircuitStep::Refuse {
            reason: CircuitRefusal::Capacity,
            error: Error::Unreachable("circuit: relay at capacity"),
        }
    );
}

#[test]
fn an_anchor_may_bring_an_unknown_origin_and_a_member_may_not() {
    let mut ledger = CircuitLedger::new();
    let incoming = CircuitFrame::Incoming { peer: id(7) };
    assert_eq!(
        serve_circuit(incoming, id(1), PeerClass::Anchor, PeerClass::Unknown, true, &mut ledger),
        CircuitStep::Terminate { origin: id(7) }
    );
    assert_eq!(
        serve_circuit(incoming, id(1), PeerClass::Member, PeerClass::Unknown, true, &mut ledger),
        CircuitStep::Refuse {
            reason: CircuitRefusal::NotAuthorized,
            error: Error::StreamRefused("circuit: peer may not relay to us"),
        }
    );
    assert_eq!(
        serve_circuit(
            CircuitFrame::Opened,
            id(1),
            PeerClass::Anchor,
            PeerClass::Unknown,
            true,
            &mut ledger
        ),
        CircuitStep::Fail(Error::Unreachable("circuit: unexpected opening frame"))
    );
}

#[test]
fn what_a_relay_answered_is_told_apart() {
    assert_eq!(connect_through(CircuitFrame::Opened), Ok(()));
    let of = |reason| connect_through(CircuitFrame::Refused { reason }).unwrap_err();
    assert_eq!(
        of(CircuitRefusal::NotConnected),
        Error::Unreachable("circuit: relay cannot reach the peer")
    );
    assert_eq!(
        of(CircuitRefusal::NotAuthorized),
        Error::Unreachable("circuit: relay will not carry for us")
    );
    assert_eq!(of(CircuitRefusal::Capacity), Error::Unreachable("circuit: relay is at capacity"));
    assert_eq!(
        connect_through(CircuitFrame::Open { peer: id(1) }),
        Err(Error::Unreachable("circuit: relay did not open"))
    );
    assert_eq!(opening_answer(None), Err(Error::Unreachable("circuit: peer went quiet")));
    assert_eq!(opening_answer(Some(Ok(None))), Err(Error::Unreachable("circuit: stream closed")));
    assert_eq!(opening_answer(Some(Ok(Some(vec![0x81, 0x02])))), Ok(CircuitFrame::Opened));
}

#[test]
fn datagrams_cross_and_a_lost_leg_ends_the_circuit() {
    assert_eq!(
        relay(CircuitEvent::Datagram(Leg::Asker, vec![1, 2])),
        Some((Leg::Target, vec![1, 2]))
    );
    assert_eq!(
        relay(CircuitEvent::Datagram(Leg::Target, vec![3])),
        Some((Leg::Asker, vec![3]))
    );
    assert_eq!(relay(CircuitEvent::Ended(Leg::Asker)), None);
    assert_eq!(relay(CircuitEvent::Idle), None);
}
