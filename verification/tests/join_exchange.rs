use vox_node::error::Error;
use vox_node::hash::{COMPOSITE_PUB_LEN, COMPOSITE_SIG_LEN};
use vox_node::identity::CompositePublicKey;
use vox_node::joinstream::exchange::{
    verdict, InitNames, Initiator, InitiatorStage, Issued, JoinOutcome, OneTimeUse, Responder,
    ResponderConfig, Solved,
};
use vox_node::joinstream::{JoinFrame, JoinReject};

const CHANNEL: [u8; 32] = [0xC5; 32];
const EPOCH: u64 = 2;
const JOINER: [u8; 32] = [3; 32];
const RESPONDER: [u8; 32] = [1; 32];

fn responder_key() -> CompositePublicKey {
    CompositePublicKey { bytes: vec![1; COMPOSITE_PUB_LEN], fingerprint: RESPONDER }
}

fn issued() -> Issued {
    Issued {
        responder_pub: vec![1; COMPOSITE_PUB_LEN],
        challenge_sig: vec![2; COMPOSITE_SIG_LEN],
        difficulty_bits: 0,
        nonce: [9; 32],
        sid: vec![5],
        bundle: vec![6],
    }
}

fn solved() -> Solved {
    Solved { equihash_nonce: vec![1], solution: vec![2], share: [4; 32] }
}

/// A frame as the other side reads it.
fn wire(f: JoinFrame) -> Result<JoinFrame, Error> {
    JoinFrame::from_frame(&f.to_frame())
}

/// Runs both sides over the wire. The joiner's proof of possession opens at the responder
/// only where both hold one passphrase.
fn run_join(
    joiner_pass: &[u8],
    responder_pass: &[u8],
    used: OneTimeUse,
) -> (Result<JoinOutcome, Error>, Result<JoinOutcome, Error>) {
    let mut i = Initiator::new(RESPONDER, CHANNEL, EPOCH);
    let mut r = Responder::new(&ResponderConfig { channel_id: CHANNEL, epoch: EPOCH });
    let challenge = r.challenge(Ok(issued())).unwrap();
    let terms = i.on_challenge(wire(challenge)).unwrap();
    i.check_challenge(&terms, Ok(responder_key()), Ok(vec![1; COMPOSITE_PUB_LEN]), Ok(()))
        .unwrap();
    let solve = i.solve(Ok(solved())).unwrap();
    assert_eq!(r.on_solve(wire(solve)).unwrap(), solved());
    let share = r.share(Ok([7; 32])).unwrap();
    assert_eq!(i.on_share(wire(share)).unwrap(), [7; 32]);
    let proof = i.prove(Ok(vec![8; 40])).unwrap();
    let sealed = r.on_proof(Ok(()), wire(proof)).unwrap();
    assert_eq!(sealed, vec![8; 40]);
    let opens = if joiner_pass == responder_pass {
        Ok(JOINER)
    } else {
        Err(Error::Other("the sealed proof does not open"))
    };
    let answer = match r.prove(opens, Ok(vec![9; 40])) {
        Ok(f) => f,
        Err(e) => {
            let out = Err(e);
            let told = i.on_proof(wire(verdict(&out)));
            return (Err(told.unwrap_err()), out);
        }
    };
    assert_eq!(i.on_proof(wire(answer)).unwrap(), vec![9; 40]);
    let init = i.begin(Ok(RESPONDER), Ok(vec![10; 40])).unwrap();
    assert_eq!(r.on_init(wire(init)).unwrap(), vec![10; 40]);
    let names = InitNames { signed_prekey_id: 1, one_time_prekey_id: Some(4) };
    r.use_prekeys(Ok(names), used, Ok(()), true).unwrap();
    let responder = r.complete(Ok(()));
    let joiner = i.on_verdict(wire(verdict(&responder)));
    (joiner, responder)
}

#[test]
fn both_sides_of_a_join_end_with_each_other() {
    let (joiner, responder) = run_join(b"pass", b"pass", OneTimeUse::Fresh);
    let joiner = joiner.expect("joiner side");
    let responder = responder.expect("responder side");
    assert_eq!(joiner.peer, RESPONDER);
    assert_eq!(responder.peer, JOINER);
    assert_ne!(joiner.peer, responder.peer);
    assert!(!joiner.last_resort_grade && !responder.last_resort_grade);
    // A one-time prekey that was used before lowers the grade.
    let (_, responder) = run_join(b"pass", b"pass", OneTimeUse::Reused);
    assert!(responder.unwrap().last_resort_grade);
}

#[test]
fn a_wrong_passphrase_is_refused_with_one_opaque_reason() {
    let (joiner, responder) = run_join(b"wrong passphrase", b"pass", OneTimeUse::Fresh);
    assert!(matches!(joiner, Err(Error::JoinRefused("responder refused"))));
    let err = responder.expect_err("a wrong passphrase cannot join");
    assert!(
        !matches!(err, Error::JoinRefused(_)),
        "the responder failed on its own check: {err:?}"
    );
    assert_ne!(
        JoinReject::Refused.as_str(),
        JoinReject::PowInvalid.as_str(),
        "structural reasons stay distinguishable; semantic ones do not"
    );
}

#[test]
fn a_challenge_must_be_the_dialled_peers() {
    let begin = || {
        let mut i = Initiator::new(RESPONDER, CHANNEL, EPOCH);
        let mut r = Responder::new(&ResponderConfig { channel_id: CHANNEL, epoch: EPOCH });
        let terms = i.on_challenge(wire(r.challenge(Ok(issued())).unwrap())).unwrap();
        (i, terms)
    };
    let root = || Ok(vec![1; COMPOSITE_PUB_LEN]);
    let (mut i, terms) = begin();
    let other = CompositePublicKey { bytes: vec![1; COMPOSITE_PUB_LEN], fingerprint: [7; 32] };
    assert_eq!(
        i.check_challenge(&terms, Ok(other), root(), Ok(())),
        Err(Error::MalformedJoin("challenge key is not the dialled peer"))
    );
    let (mut i, mut terms) = begin();
    terms.epoch = 3;
    assert_eq!(
        i.check_challenge(&terms, Ok(responder_key()), root(), Ok(())),
        Err(Error::MalformedJoin("challenge binds another channel/epoch"))
    );
    let (mut i, terms) = begin();
    assert_eq!(
        i.check_challenge(&terms, Ok(responder_key()), Ok(vec![9]), Ok(())),
        Err(Error::MalformedJoin("challenge bundle is not the responder's"))
    );
    let (mut i, terms) = begin();
    assert_eq!(
        i.check_challenge(&terms, Ok(responder_key()), root(), Err(Error::Other("forged"))),
        Err(Error::Other("forged"))
    );
}

#[test]
fn a_frame_out_of_turn_ends_the_join() {
    let mut i = Initiator::new(RESPONDER, CHANNEL, EPOCH);
    assert_eq!(
        i.on_challenge(Ok(JoinFrame::Accepted)),
        Err(Error::MalformedJoin("expected challenge"))
    );
    let mut r = Responder::new(&ResponderConfig { channel_id: CHANNEL, epoch: EPOCH });
    r.challenge(Ok(issued())).unwrap();
    assert_eq!(
        r.on_solve(Ok(JoinFrame::Accepted)),
        Err(Error::MalformedJoin("expected solve"))
    );
    assert_eq!(
        verdict(&Err(Error::MalformedJoin("expected solve"))),
        JoinFrame::Rejected(JoinReject::Malformed)
    );
    assert_eq!(
        verdict(&Err(Error::JoinPowInvalid)),
        JoinFrame::Rejected(JoinReject::PowInvalid)
    );
    assert_eq!(verdict(&Err(Error::Storage)), JoinFrame::Rejected(JoinReject::Refused));
    assert_eq!(
        verdict(&Ok(JoinOutcome { peer: JOINER, last_resort_grade: false })),
        JoinFrame::Accepted
    );
}

#[test]
fn prekeys_must_be_known_and_their_use_written() {
    let at_prekeys = || {
        let mut r = Responder::new(&ResponderConfig { channel_id: CHANNEL, epoch: EPOCH });
        r.challenge(Ok(issued())).unwrap();
        r.on_solve(Ok(JoinFrame::Solve {
            equihash_nonce: vec![1],
            solution: vec![2],
            share: [4; 32],
        }))
        .unwrap();
        r.share(Ok([7; 32])).unwrap();
        r.on_proof(Ok(()), Ok(JoinFrame::Proof { sealed: vec![] })).unwrap();
        r.prove(Ok(JOINER), Ok(vec![])).unwrap();
        r.on_init(Ok(JoinFrame::Init { message: vec![] })).unwrap();
        r
    };
    let names = InitNames { signed_prekey_id: 1, one_time_prekey_id: Some(4) };
    assert_eq!(
        at_prekeys().use_prekeys(Ok(names), OneTimeUse::Unknown, Ok(()), true),
        Err(Error::MalformedJoin("init names an unknown one-time prekey"))
    );
    assert_eq!(
        at_prekeys().use_prekeys(Ok(names), OneTimeUse::Fresh, Err(Error::Storage), true),
        Err(Error::Storage)
    );
    assert_eq!(
        at_prekeys().use_prekeys(Ok(names), OneTimeUse::Fresh, Ok(()), false),
        Err(Error::MalformedJoin("init names an unknown signed prekey"))
    );
}

#[test]
fn a_refusal_reaches_the_joiner_wherever_it_waits() {
    let told = || wire(verdict(&Err(Error::AtRestLocked)));
    let refused = Error::JoinRefused("responder refused");
    let fresh = Initiator::new(RESPONDER, CHANNEL, EPOCH);
    let at = |stage| Initiator { stage, peer: Some(RESPONDER), ..fresh };
    let mut i = at(InitiatorStage::AwaitShare);
    assert_eq!(i.on_share(told()), Err(refused.clone()));
    assert_eq!(i.stage, InitiatorStage::Over);
    let mut i = at(InitiatorStage::AwaitProof);
    assert_eq!(i.on_proof(told()), Err(refused.clone()));
    let mut i = at(InitiatorStage::AwaitVerdict);
    assert_eq!(i.on_verdict(told()), Err(refused));
    assert_eq!(i.stage, InitiatorStage::Over);
}
