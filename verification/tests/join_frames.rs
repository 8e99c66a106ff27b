use vox_node::cbor::Encoder;
use vox_node::error::Error;
use vox_node::hash::{COMPOSITE_PUB_LEN, COMPOSITE_SIG_LEN};
use vox_node::joinstream::{
    JoinFrame, JoinReject, CPACE_SHARE_LEN, MAX_SID, OP_CHALLENGE, OP_REJECTED, OP_SHARE,
};

const CHANNEL: [u8; 32] = [0xC5; 32];
const EPOCH: u64 = 2;

#[test]
fn join_frames_round_trip_and_refuse_malformed() {
    let frames = vec![
        JoinFrame::Challenge {
            responder_pub: vec![7u8; COMPOSITE_PUB_LEN],
            challenge_sig: vec![8u8; COMPOSITE_SIG_LEN],
            channel_id: CHANNEL,
            epoch: EPOCH,
            difficulty_bits: 2,
            nonce: [9u8; 32],
            sid: vec![1, 2, 3],
            bundle: vec![4, 5, 6],
        },
        JoinFrame::Solve {
            equihash_nonce: vec![1],
            solution: vec![2, 3],
            share: [4u8; CPACE_SHARE_LEN],
        },
        JoinFrame::Share {
            share: [5u8; CPACE_SHARE_LEN],
        },
        JoinFrame::Proof {
            sealed: vec![6; 40],
        },
        JoinFrame::Init {
            message: vec![7; 40],
        },
        JoinFrame::Accepted,
        JoinFrame::Rejected(JoinReject::PowInvalid),
        JoinFrame::Rejected(JoinReject::Malformed),
        JoinFrame::Rejected(JoinReject::Refused),
    ];
    for f in &frames {
        assert_eq!(&JoinFrame::from_frame(&f.to_frame()).unwrap(), f);
    }
    let mut e = Encoder::new();
    e.array(2);
    e.uint(99);
    e.bytes(&[]);
    assert!(matches!(
        JoinFrame::from_frame(&e.finish()),
        Err(Error::MalformedJoin("join frame op"))
    ));
    let mut e = Encoder::new();
    e.array(2);
    e.uint(OP_REJECTED);
    e.uint(42);
    assert!(matches!(
        JoinFrame::from_frame(&e.finish()),
        Err(Error::MalformedJoin("reject reason"))
    ));
    let mut e = Encoder::new();
    e.array(1);
    e.uint(OP_SHARE);
    assert!(JoinFrame::from_frame(&e.finish()).is_err());
    let sid_case = |sid: Vec<u8>| {
        let mut e = Encoder::new();
        e.array(9);
        e.uint(OP_CHALLENGE);
        e.bytes(&[7u8; COMPOSITE_PUB_LEN]);
        e.bytes(&[8u8; COMPOSITE_SIG_LEN]);
        e.bytes(&CHANNEL);
        e.uint(EPOCH);
        e.uint(2);
        e.bytes(&[9u8; 32]);
        e.bytes(&sid);
        e.bytes(&[]);
        JoinFrame::from_frame(&e.finish())
    };
    assert!(matches!(
        sid_case(vec![]),
        Err(Error::MalformedJoin("challenge sid length"))
    ));
    assert!(matches!(
        sid_case(vec![0; MAX_SID + 1]),
        Err(Error::MalformedJoin("challenge sid length"))
    ));
    // A truncated fixed-width field is refused, not silently padded.
    let mut e = Encoder::new();
    e.array(2);
    e.uint(OP_SHARE);
    e.bytes(&[1u8; 31]);
    assert!(matches!(
        JoinFrame::from_frame(&e.finish()),
        Err(Error::MalformedJoin("share length"))
    ));
}

#[test]
fn refusals_after_the_work_read_alike() {
    assert_eq!(JoinReject::Refused.as_str(), "responder refused");
    assert_eq!(
        JoinReject::PowInvalid.as_str(),
        "responder refused: proof-of-work invalid"
    );
    assert_eq!(
        JoinReject::Malformed.as_str(),
        "responder refused: malformed frame"
    );
    assert_eq!(JoinReject::from_u8(3), Some(JoinReject::Refused));
    assert_eq!(JoinReject::from_u8(0), None);
    assert_eq!(JoinReject::from_u8(4), None);
}
