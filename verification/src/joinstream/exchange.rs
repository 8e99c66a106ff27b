//! The two sides of a join, as state machines: each step takes what came off the wire or
//! out of the cryptography, and gives what goes onto the wire next. A step that fails
//! ends the exchange.

use vstd::prelude::*;

use crate::channel::state;
use crate::error::Error;
use crate::hash::{same_bytes, same_digest, Digest32};
use crate::identity::CompositePublicKey;
use crate::joinstream::{JoinFrame, JoinReject};

verus! {

/// A completed join: the identity that the proof bound, and whether the session is
/// last-resort-grade, because its one-time prekey had been used before.
#[derive(Debug, Clone, Copy, PartialEq, Eq)]
pub struct JoinOutcome {
    /// The peer.
    pub peer: Digest32,
    /// Whether the forward-secrecy bonus is downgraded.
    pub last_resort_grade: bool,
}

/// What a challenge asks of the joiner.
#[derive(Debug, PartialEq, Eq)]
pub struct ChallengeTerms {
    /// The responder's public key.
    pub responder_pub: Vec<u8>,
    /// The signature over the challenge.
    pub challenge_sig: Vec<u8>,
    /// The channel it binds.
    pub channel_id: Digest32,
    /// The epoch it binds.
    pub epoch: u64,
    /// The difficulty, in leading zero bits.
    pub difficulty_bits: u8,
    /// The nonce.
    pub nonce: Digest32,
    /// The run identifier.
    pub sid: Vec<u8>,
    /// The responder's prekey bundle.
    pub bundle: Vec<u8>,
}

impl ChallengeTerms {
    /// The frame that carries the challenge.
    pub open spec fn frame(&self) -> JoinFrame {
        JoinFrame::Challenge {
            responder_pub: self.responder_pub,
            challenge_sig: self.challenge_sig,
            channel_id: self.channel_id,
            epoch: self.epoch,
            difficulty_bits: self.difficulty_bits,
            nonce: self.nonce,
            sid: self.sid,
            bundle: self.bundle,
        }
    }
}

/// A solved challenge with the joiner's share.
#[derive(Debug, PartialEq, Eq)]
pub struct Solved {
    /// The nonce of the solution.
    pub equihash_nonce: Vec<u8>,
    /// The solution.
    pub solution: Vec<u8>,
    /// The share.
    pub share: [u8; 32],
}

impl Solved {
    /// The frame that carries the solution.
    pub open spec fn frame(&self) -> JoinFrame {
        JoinFrame::Solve {
            equihash_nonce: self.equihash_nonce,
            solution: self.solution,
            share: self.share,
        }
    }
}

/// The error of a frame that does not come in this place.
pub open spec fn unexpected(what: &'static str) -> Error {
    Error::MalformedJoin(what)
}

/// The error that a refusal is reported as.
pub open spec fn refused(r: JoinReject) -> Error {
    Error::JoinRefused(r.words())
}

// ---- the joiner ----------------------------------------------------------------

/// Where the joiner stands.
#[derive(Debug, Clone, Copy, PartialEq, Eq, Structural)]
pub enum InitiatorStage {
    /// The challenge is awaited.
    AwaitChallenge,
    /// The challenge is to be checked.
    Check,
    /// The challenge is to be solved.
    Solve,
    /// The responder's share is awaited.
    AwaitShare,
    /// This side's proof is to be sealed.
    Prove,
    /// The responder's proof is awaited.
    AwaitProof,
    /// The responder's proof is to be verified, and the session begun.
    Begin,
    /// The verdict is awaited.
    AwaitVerdict,
    /// The exchange is over.
    Over,
}

/// The joiner's side.
#[derive(Debug, Clone, Copy, PartialEq, Eq)]
pub struct Initiator {
    /// Where it stands.
    pub stage: InitiatorStage,
    /// The peer that was dialled, as the transport authenticated it.
    pub responder: Digest32,
    /// The channel to be joined.
    pub channel_id: Digest32,
    /// Its epoch.
    pub epoch: u64,
    /// Who the responder proved to be.
    pub peer: Option<Digest32>,
}

/// Why a challenge is not one to solve, or `None` where it is. `key` is what the
/// responder's public key decodes to, `bundle_root` the key that its bundle names,
/// `signature` whether the signature decodes.
pub open spec fn challenge_fault(
    init: Initiator,
    terms: ChallengeTerms,
    key: Result<CompositePublicKey, Error>,
    bundle_root: Result<Vec<u8>, Error>,
    signature: Result<(), Error>,
) -> Option<Error> {
    state::or_fault(
        state::fault_in(key),
        state::or_fault(
            state::unless(
                key->Ok_0.fingerprint == init.responder,
                unexpected("challenge key is not the dialled peer"),
            ),
            state::or_fault(
                state::unless(
                    terms.channel_id == init.channel_id && terms.epoch == init.epoch,
                    unexpected("challenge binds another channel/epoch"),
                ),
                state::or_fault(
                    state::fault_in(bundle_root),
                    state::or_fault(
                        state::unless(
                            bundle_root->Ok_0@ == key->Ok_0.bytes@,
                            unexpected("challenge bundle is not the responder's"),
                        ),
                        state::fault_in(signature),
                    ),
                ),
            ),
        ),
    )
}

impl Initiator {
    /// The joiner's side at its beginning.
    pub fn new(responder: Digest32, channel_id: Digest32, epoch: u64) -> (i: Initiator)
        ensures
            i.stage == InitiatorStage::AwaitChallenge,
            i.responder == responder,
            i.channel_id == channel_id,
            i.epoch == epoch,
            i.peer is None,
    {
        Initiator {
            stage: InitiatorStage::AwaitChallenge,
            responder,
            channel_id,
            epoch,
            peer: None,
        }
    }

    /// The same side at another stage.
    pub open spec fn to(self, stage: InitiatorStage) -> Initiator {
        Initiator { stage, ..self }
    }

    /// What taking the first frame gives a joiner.
    pub open spec fn challenged(
        before: Initiator,
        after: Initiator,
        frame: Result<JoinFrame, Error>,
        r: Result<ChallengeTerms, Error>,
    ) -> bool {
        match r {
            Ok(t) => frame == Ok::<JoinFrame, Error>(t.frame()) && after
                == before.to(InitiatorStage::Check),
            Err(e) => {
                &&& after == before.to(InitiatorStage::Over)
                &&& match frame {
                    Err(f) => e == f,
                    Ok(f) => !(f is Challenge) && e == unexpected("expected challenge"),
                }
            },
        }
    }

    /// Takes the first frame, which must be a challenge.
    pub fn on_challenge(&mut self, frame: Result<JoinFrame, Error>) -> (r: Result<
        ChallengeTerms,
        Error,
    >)
        requires
            old(self).stage == InitiatorStage::AwaitChallenge,
        ensures
            Initiator::challenged(*old(self), *final(self), frame, r),
    {
        self.stage = InitiatorStage::Over;
        match frame? {
            JoinFrame::Challenge {
                responder_pub,
                challenge_sig,
                channel_id,
                epoch,
                difficulty_bits,
                nonce,
                sid,
                bundle,
            } => {
                self.stage = InitiatorStage::Check;
                Ok(
                    ChallengeTerms {
                        responder_pub,
                        challenge_sig,
                        channel_id,
                        epoch,
                        difficulty_bits,
                        nonce,
                        sid,
                        bundle,
                    },
                )
            },
            _ => Err(Error::MalformedJoin("expected challenge")),
        }
    }

    /// What checking a challenge gives a joiner.
    pub open spec fn checked(
        before: Initiator,
        after: Initiator,
        terms: ChallengeTerms,
        key: Result<CompositePublicKey, Error>,
        bundle_root: Result<Vec<u8>, Error>,
        signature: Result<(), Error>,
        r: Result<(), Error>,
    ) -> bool {
        match r {
            Ok(_) => {
                &&& challenge_fault(before, terms, key, bundle_root, signature) is None
                &&& after == before.to(InitiatorStage::Solve)
            },
            Err(e) => {
                &&& challenge_fault(before, terms, key, bundle_root, signature) == Some(e)
                &&& after == before.to(InitiatorStage::Over)
            },
        }
    }

    /// Checks a challenge: its key is that of the dialled peer, it binds the channel and
    /// the epoch to be joined, and its bundle is the responder's own. `key` is what the
    /// key in the challenge decodes to.
    pub fn check_challenge(
        &mut self,
        terms: &ChallengeTerms,
        key: Result<CompositePublicKey, Error>,
        bundle_root: Result<Vec<u8>, Error>,
        signature: Result<(), Error>,
    ) -> (r: Result<(), Error>)
        requires
            old(self).stage == InitiatorStage::Check,
        ensures
            Initiator::checked(*old(self), *final(self), *terms, key, bundle_root, signature, r),
    {
        self.stage = InitiatorStage::Over;
        let key: CompositePublicKey = key?;
        if !same_digest(&key.fingerprint, &self.responder) {
            return Err(Error::MalformedJoin("challenge key is not the dialled peer"));
        }
        if !same_digest(&terms.channel_id, &self.channel_id) || terms.epoch != self.epoch {
            return Err(Error::MalformedJoin("challenge binds another channel/epoch"));
        }
        let root: Vec<u8> = bundle_root?;
        if !same_bytes(root.as_slice(), key.bytes.as_slice()) {
            return Err(Error::MalformedJoin("challenge bundle is not the responder's"));
        }
        signature?;
        self.stage = InitiatorStage::Solve;
        Ok(())
    }

    /// What answering a challenge gives a joiner.
    pub open spec fn solving(
        before: Initiator,
        after: Initiator,
        solved: Result<Solved, Error>,
        r: Result<JoinFrame, Error>,
    ) -> bool {
        match solved {
            Ok(s) => r == Ok::<JoinFrame, Error>(s.frame()) && after == before.to(
                InitiatorStage::AwaitShare,
            ),
            Err(e) => r == Err::<JoinFrame, Error>(e) && after == before.to(
                InitiatorStage::Over,
            ),
        }
    }

    /// The frame that answers the challenge, once that was verified and solved.
    pub fn solve(&mut self, solved: Result<Solved, Error>) -> (r: Result<JoinFrame, Error>)
        requires
            old(self).stage == InitiatorStage::Solve,
        ensures
            Initiator::solving(*old(self), *final(self), solved, r),
    {
        self.stage = InitiatorStage::Over;
        let s: Solved = solved?;
        self.stage = InitiatorStage::AwaitShare;
        Ok(
            JoinFrame::Solve {
                equihash_nonce: s.equihash_nonce,
                solution: s.solution,
                share: s.share,
            },
        )
    }

    /// What taking a share gives a joiner.
    pub open spec fn shared(
        before: Initiator,
        after: Initiator,
        frame: Result<JoinFrame, Error>,
        r: Result<[u8; 32], Error>,
    ) -> bool {
        match r {
            Ok(share) => frame == Ok::<JoinFrame, Error>(JoinFrame::Share { share })
                && after == before.to(InitiatorStage::Prove),
            Err(e) => {
                &&& after == before.to(InitiatorStage::Over)
                &&& match frame {
                    Err(f) => e == f,
                    Ok(JoinFrame::Share { .. }) => false,
                    Ok(JoinFrame::Rejected(j)) => e == refused(j),
                    Ok(_) => e == unexpected("expected share"),
                }
            },
        }
    }

    /// Takes the responder's share.
    pub fn on_share(&mut self, frame: Result<JoinFrame, Error>) -> (r: Result<[u8; 32], Error>)
        requires
            old(self).stage == InitiatorStage::AwaitShare,
        ensures
            Initiator::shared(*old(self), *final(self), frame, r),
    {
        self.stage = InitiatorStage::Over;
        match frame? {
            JoinFrame::Share { share } => {
                self.stage = InitiatorStage::Prove;
                Ok(share)
            },
            JoinFrame::Rejected(j) => Err(Error::JoinRefused(j.as_str())),
            _ => Err(Error::MalformedJoin("expected share")),
        }
    }

    /// What proving itself gives a joiner.
    pub open spec fn proving(
        before: Initiator,
        after: Initiator,
        sealed: Result<Vec<u8>, Error>,
        r: Result<JoinFrame, Error>,
    ) -> bool {
        match sealed {
            Ok(sealed) => r == Ok::<JoinFrame, Error>(JoinFrame::Proof { sealed })
                && after == before.to(InitiatorStage::AwaitProof),
            Err(e) => r == Err::<JoinFrame, Error>(e) && after == before.to(
                InitiatorStage::Over,
            ),
        }
    }

    /// The frame with this side's proof, once the key agreement was completed.
    pub fn prove(&mut self, sealed: Result<Vec<u8>, Error>) -> (r: Result<JoinFrame, Error>)
        requires
            old(self).stage == InitiatorStage::Prove,
        ensures
            Initiator::proving(*old(self), *final(self), sealed, r),
    {
        self.stage = InitiatorStage::Over;
        let sealed: Vec<u8> = sealed?;
        self.stage = InitiatorStage::AwaitProof;
        Ok(JoinFrame::Proof { sealed })
    }

    /// What taking a proof gives a joiner.
    pub open spec fn proven(
        before: Initiator,
        after: Initiator,
        frame: Result<JoinFrame, Error>,
        r: Result<Vec<u8>, Error>,
    ) -> bool {
        match r {
            Ok(sealed) => frame == Ok::<JoinFrame, Error>(JoinFrame::Proof { sealed })
                && after == before.to(InitiatorStage::Begin),
            Err(e) => {
                &&& after == before.to(InitiatorStage::Over)
                &&& match frame {
                    Err(f) => e == f,
                    Ok(JoinFrame::Proof { .. }) => false,
                    Ok(JoinFrame::Rejected(j)) => e == refused(j),
                    Ok(_) => e == unexpected("expected proof"),
                }
            },
        }
    }

    /// Takes the responder's sealed proof.
    pub fn on_proof(&mut self, frame: Result<JoinFrame, Error>) -> (r: Result<Vec<u8>, Error>)
        requires
            old(self).stage == InitiatorStage::AwaitProof,
        ensures
            Initiator::proven(*old(self), *final(self), frame, r),
    {
        self.stage = InitiatorStage::Over;
        match frame? {
            JoinFrame::Proof { sealed } => {
                self.stage = InitiatorStage::Begin;
                Ok(sealed)
            },
            JoinFrame::Rejected(j) => Err(Error::JoinRefused(j.as_str())),
            _ => Err(Error::MalformedJoin("expected proof")),
        }
    }

    /// What beginning the session gives a joiner.
    pub open spec fn beginning(
        before: Initiator,
        after: Initiator,
        verified: Result<Digest32, Error>,
        message: Result<Vec<u8>, Error>,
        r: Result<JoinFrame, Error>,
    ) -> bool {
        match r {
            Ok(f) => {
                &&& verified is Ok && message is Ok
                &&& f == (JoinFrame::Init { message: message->Ok_0 })
                &&& after == (Initiator {
                    stage: InitiatorStage::AwaitVerdict,
                    peer: Some(verified->Ok_0),
                    ..before
                })
            },
            Err(e) => {
                &&& state::or_fault(state::fault_in(verified), state::fault_in(message))
                    == Some(e)
                &&& after == before.to(InitiatorStage::Over)
            },
        }
    }

    /// The frame with the first message of the session. `verified` is who the
    /// responder's proof binds, verified against the dialled peer; `message` the first
    /// message against the responder's bundle.
    pub fn begin(&mut self, verified: Result<Digest32, Error>, message: Result<Vec<u8>, Error>) -> (r: Result<
        JoinFrame,
        Error,
    >)
        requires
            old(self).stage == InitiatorStage::Begin,
        ensures
            Initiator::beginning(*old(self), *final(self), verified, message, r),
    {
        self.stage = InitiatorStage::Over;
        let peer: Digest32 = verified?;
        let message: Vec<u8> = message?;
        self.peer = Some(peer);
        self.stage = InitiatorStage::AwaitVerdict;
        Ok(JoinFrame::Init { message })
    }

    /// What taking the verdict gives a joiner.
    pub open spec fn judged(
        before: Initiator,
        after: Initiator,
        frame: Result<JoinFrame, Error>,
        r: Result<JoinOutcome, Error>,
    ) -> bool {
        &&& after == before.to(InitiatorStage::Over)
        &&& match r {
            Ok(out) => {
                &&& frame == Ok::<JoinFrame, Error>(JoinFrame::Accepted)
                &&& out.peer == before.peer->Some_0
                &&& !out.last_resort_grade
            },
            Err(e) => match frame {
                Err(f) => e == f,
                Ok(JoinFrame::Accepted) => false,
                Ok(JoinFrame::Rejected(j)) => e == refused(j),
                Ok(_) => e == unexpected("expected accepted"),
            },
        }
    }

    /// Takes the verdict.
    pub fn on_verdict(&mut self, frame: Result<JoinFrame, Error>) -> (r: Result<JoinOutcome, Error>)
        requires
            old(self).stage == InitiatorStage::AwaitVerdict,
            old(self).peer is Some,
        ensures
            Initiator::judged(*old(self), *final(self), frame, r),
    {
        self.stage = InitiatorStage::Over;
        match frame? {
            JoinFrame::Accepted => match self.peer {
                Some(peer) => Ok(JoinOutcome { peer, last_resort_grade: false }),
                None => Err(Error::MalformedJoin("expected accepted")),
            },
            JoinFrame::Rejected(j) => Err(Error::JoinRefused(j.as_str())),
            _ => Err(Error::MalformedJoin("expected accepted")),
        }
    }
}

// ---- the responder ---------------------------------------------------------------

/// Where the responder stands.
#[derive(Debug, Clone, Copy, PartialEq, Eq, Structural)]
pub enum ResponderStage {
    /// The challenge is to be issued.
    Challenge,
    /// The solution is awaited.
    AwaitSolve,
    /// The solution is to be verified.
    Share,
    /// The joiner's proof is awaited.
    AwaitProof,
    /// The joiner's proof is to be verified, and this side's sealed.
    Prove,
    /// The joiner's first message is awaited.
    AwaitInit,
    /// The prekeys that it names are to be found.
    Prekeys,
    /// The session is to be begun.
    Session,
    /// The exchange is over.
    Over,
}

/// What the responder brings along that is not on the wire: what is to be joined.
#[derive(Debug, Clone, Copy, PartialEq, Eq)]
pub struct ResponderConfig {
    /// The channel, which must be the one that the joiner wants.
    pub channel_id: Digest32,
    /// Its epoch.
    pub epoch: u64,
}

/// The responder's side.
#[derive(Debug, Clone, Copy, PartialEq, Eq)]
pub struct Responder {
    /// Where it stands.
    pub stage: ResponderStage,
    /// The channel to be joined.
    pub channel_id: Digest32,
    /// Its epoch.
    pub epoch: u64,
    /// Who the joiner proved to be.
    pub peer: Option<Digest32>,
    /// Whether the one-time prekey had been used before.
    pub last_resort_grade: bool,
}

/// A signed challenge: what the frame carries beside the channel and the epoch.
#[derive(Debug, PartialEq, Eq)]
pub struct Issued {
    /// This side's public key.
    pub responder_pub: Vec<u8>,
    /// The signature over the challenge.
    pub challenge_sig: Vec<u8>,
    /// The difficulty, in leading zero bits.
    pub difficulty_bits: u8,
    /// The nonce.
    pub nonce: Digest32,
    /// The run identifier.
    pub sid: Vec<u8>,
    /// This side's prekey bundle.
    pub bundle: Vec<u8>,
}

/// What became of the one-time prekey that a first message names.
#[derive(Debug, Clone, Copy, PartialEq, Eq, Structural)]
pub enum OneTimeUse {
    /// It was used for the first time.
    Fresh,
    /// It had been used before.
    Reused,
    /// There is no such prekey.
    Unknown,
}

/// Which of the responder's prekeys a first message names.
#[derive(Debug, Clone, Copy, PartialEq, Eq)]
pub struct InitNames {
    /// The signed prekey.
    pub signed_prekey_id: u64,
    /// The one-time prekey, if any.
    pub one_time_prekey_id: Option<u64>,
}

/// Why the prekeys of a first message are not found, or `None` where they are. `used`
/// is what became of the one-time prekey, `saved` whether its use was written, `signed`
/// whether the signed prekey is known.
pub open spec fn prekeys_fault(
    init: Result<InitNames, Error>,
    used: OneTimeUse,
    saved: Result<(), Error>,
    signed: bool,
) -> Option<Error> {
    state::or_fault(
        state::fault_in(init),
        state::or_fault(
            if init->Ok_0.one_time_prekey_id is Some {
                state::or_fault(
                    state::unless(
                        used != OneTimeUse::Unknown,
                        unexpected("init names an unknown one-time prekey"),
                    ),
                    state::fault_in(saved),
                )
            } else {
                None
            },
            state::unless(signed, unexpected("init names an unknown signed prekey")),
        ),
    )
}

impl Responder {
    /// The responder's side at its beginning.
    pub fn new(cfg: &ResponderConfig) -> (s: Responder)
        ensures
            s.stage == ResponderStage::Challenge,
            s.channel_id == cfg.channel_id,
            s.epoch == cfg.epoch,
            s.peer is None,
            !s.last_resort_grade,
    {
        Responder {
            stage: ResponderStage::Challenge,
            channel_id: cfg.channel_id,
            epoch: cfg.epoch,
            peer: None,
            last_resort_grade: false,
        }
    }

    /// The same side at another stage.
    pub open spec fn to(self, stage: ResponderStage) -> Responder {
        Responder { stage, ..self }
    }

    /// What issuing a challenge gives a responder.
    pub open spec fn challenging(
        before: Responder,
        after: Responder,
        issued: Result<Issued, Error>,
        r: Result<JoinFrame, Error>,
    ) -> bool {
        match issued {
            Ok(i) => {
                &&& r == Ok::<JoinFrame, Error>(
                    JoinFrame::Challenge {
                        responder_pub: i.responder_pub,
                        challenge_sig: i.challenge_sig,
                        channel_id: before.channel_id,
                        epoch: before.epoch,
                        difficulty_bits: i.difficulty_bits,
                        nonce: i.nonce,
                        sid: i.sid,
                        bundle: i.bundle,
                    },
                )
                &&& after == before.to(ResponderStage::AwaitSolve)
            },
            Err(e) => r == Err::<JoinFrame, Error>(e) && after == before.to(
                ResponderStage::Over,
            ),
        }
    }

    /// The frame with the challenge, for this channel and this epoch.
    pub fn challenge(&mut self, issued: Result<Issued, Error>) -> (r: Result<JoinFrame, Error>)
        requires
            old(self).stage == ResponderStage::Challenge,
        ensures
            Responder::challenging(*old(self), *final(self), issued, r),
    {
        self.stage = ResponderStage::Over;
        let i: Issued = issued?;
        self.stage = ResponderStage::AwaitSolve;
        Ok(
            JoinFrame::Challenge {
                responder_pub: i.responder_pub,
                challenge_sig: i.challenge_sig,
                channel_id: self.channel_id,
                epoch: self.epoch,
                difficulty_bits: i.difficulty_bits,
                nonce: i.nonce,
                sid: i.sid,
                bundle: i.bundle,
            },
        )
    }

    /// What taking a solution gives a responder.
    pub open spec fn solved(
        before: Responder,
        after: Responder,
        frame: Result<JoinFrame, Error>,
        r: Result<Solved, Error>,
    ) -> bool {
        match r {
            Ok(s) => frame == Ok::<JoinFrame, Error>(s.frame()) && after
                == before.to(ResponderStage::Share),
            Err(e) => {
                &&& after == before.to(ResponderStage::Over)
                &&& match frame {
                    Err(f) => e == f,
                    Ok(f) => !(f is Solve) && e == unexpected("expected solve"),
                }
            },
        }
    }

    /// Takes the solution.
    pub fn on_solve(&mut self, frame: Result<JoinFrame, Error>) -> (r: Result<Solved, Error>)
        requires
            old(self).stage == ResponderStage::AwaitSolve,
        ensures
            Responder::solved(*old(self), *final(self), frame, r),
    {
        self.stage = ResponderStage::Over;
        match frame? {
            JoinFrame::Solve { equihash_nonce, solution, share } => {
                self.stage = ResponderStage::Share;
                Ok(Solved { equihash_nonce, solution, share })
            },
            _ => Err(Error::MalformedJoin("expected solve")),
        }
    }

    /// What giving its share gives a responder.
    pub open spec fn sharing(
        before: Responder,
        after: Responder,
        share: Result<[u8; 32], Error>,
        r: Result<JoinFrame, Error>,
    ) -> bool {
        match share {
            Ok(share) => r == Ok::<JoinFrame, Error>(JoinFrame::Share { share })
                && after == before.to(ResponderStage::AwaitProof),
            Err(e) => r == Err::<JoinFrame, Error>(e) && after == before.to(
                ResponderStage::Over,
            ),
        }
    }

    /// The frame with this side's share. `share` comes only of a solution whose proof of
    /// work checks.
    pub fn share(&mut self, share: Result<[u8; 32], Error>) -> (r: Result<JoinFrame, Error>)
        requires
            old(self).stage == ResponderStage::Share,
        ensures
            Responder::sharing(*old(self), *final(self), share, r),
    {
        self.stage = ResponderStage::Over;
        let share: [u8; 32] = share?;
        self.stage = ResponderStage::AwaitProof;
        Ok(JoinFrame::Share { share })
    }

    /// What taking a proof gives a responder.
    pub open spec fn proven(
        before: Responder,
        after: Responder,
        agreed: Result<(), Error>,
        frame: Result<JoinFrame, Error>,
        r: Result<Vec<u8>, Error>,
    ) -> bool {
        match r {
            Ok(sealed) => agreed is Ok && frame == Ok::<JoinFrame, Error>(
                JoinFrame::Proof { sealed },
            ) && after == before.to(ResponderStage::Prove),
            Err(e) => {
                &&& after == before.to(ResponderStage::Over)
                &&& match agreed {
                    Err(f) => e == f,
                    Ok(_) => match frame {
                        Err(f) => e == f,
                        Ok(f) => !(f is Proof) && e == unexpected("expected proof"),
                    },
                }
            },
        }
    }

    /// Takes the joiner's sealed proof. `agreed` says whether the key agreement could be
    /// completed with the joiner's share.
    pub fn on_proof(&mut self, agreed: Result<(), Error>, frame: Result<JoinFrame, Error>) -> (r: Result<
        Vec<u8>,
        Error,
    >)
        requires
            old(self).stage == ResponderStage::AwaitProof,
        ensures
            Responder::proven(*old(self), *final(self), agreed, frame, r),
    {
        self.stage = ResponderStage::Over;
        agreed?;
        match frame? {
            JoinFrame::Proof { sealed } => {
                self.stage = ResponderStage::Prove;
                Ok(sealed)
            },
            _ => Err(Error::MalformedJoin("expected proof")),
        }
    }

    /// What proving itself gives a responder.
    pub open spec fn proving(
        before: Responder,
        after: Responder,
        verified: Result<Digest32, Error>,
        sealed: Result<Vec<u8>, Error>,
        r: Result<JoinFrame, Error>,
    ) -> bool {
        match r {
            Ok(f) => {
                &&& verified is Ok && sealed is Ok
                &&& f == (JoinFrame::Proof { sealed: sealed->Ok_0 })
                &&& after == (Responder {
                    stage: ResponderStage::AwaitInit,
                    peer: Some(verified->Ok_0),
                    ..before
                })
            },
            Err(e) => {
                &&& state::or_fault(state::fault_in(verified), state::fault_in(sealed))
                    == Some(e)
                &&& after == before.to(ResponderStage::Over)
            },
        }
    }

    /// The frame with this side's proof. It is given only once the joiner's proof was
    /// verified: `verified` is who that binds, against the identity the transport
    /// authenticated.
    pub fn prove(&mut self, verified: Result<Digest32, Error>, sealed: Result<Vec<u8>, Error>) -> (r: Result<
        JoinFrame,
        Error,
    >)
        requires
            old(self).stage == ResponderStage::Prove,
        ensures
            Responder::proving(*old(self), *final(self), verified, sealed, r),
    {
        self.stage = ResponderStage::Over;
        let peer: Digest32 = verified?;
        let sealed: Vec<u8> = sealed?;
        self.peer = Some(peer);
        self.stage = ResponderStage::AwaitInit;
        Ok(JoinFrame::Proof { sealed })
    }

    /// What taking a first message gives a responder.
    pub open spec fn begun(
        before: Responder,
        after: Responder,
        frame: Result<JoinFrame, Error>,
        r: Result<Vec<u8>, Error>,
    ) -> bool {
        match r {
            Ok(message) => frame == Ok::<JoinFrame, Error>(JoinFrame::Init { message })
                && after == before.to(ResponderStage::Prekeys),
            Err(e) => {
                &&& after == before.to(ResponderStage::Over)
                &&& match frame {
                    Err(f) => e == f,
                    Ok(f) => !(f is Init) && e == unexpected("expected init"),
                }
            },
        }
    }

    /// Takes the joiner's first message.
    pub fn on_init(&mut self, frame: Result<JoinFrame, Error>) -> (r: Result<Vec<u8>, Error>)
        requires
            old(self).stage == ResponderStage::AwaitInit,
        ensures
            Responder::begun(*old(self), *final(self), frame, r),
    {
        self.stage = ResponderStage::Over;
        match frame? {
            JoinFrame::Init { message } => {
                self.stage = ResponderStage::Prekeys;
                Ok(message)
            },
            _ => Err(Error::MalformedJoin("expected init")),
        }
    }

    /// What looking for the prekeys gives a responder.
    pub open spec fn keyed(
        before: Responder,
        after: Responder,
        init: Result<InitNames, Error>,
        used: OneTimeUse,
        saved: Result<(), Error>,
        signed: bool,
        r: Result<(), Error>,
    ) -> bool {
        match r {
            Ok(_) => {
                &&& prekeys_fault(init, used, saved, signed) is None
                &&& after == (Responder {
                    stage: ResponderStage::Session,
                    last_resort_grade: init->Ok_0.one_time_prekey_id is Some && used
                        == OneTimeUse::Reused,
                    ..before
                })
            },
            Err(e) => {
                &&& prekeys_fault(init, used, saved, signed) == Some(e)
                &&& after == before.to(ResponderStage::Over)
            },
        }
    }

    /// Finds the prekeys that the first message names. A one-time prekey is used up, and
    /// its use is written, before the session is completed; a second use is served and
    /// marks the session.
    pub fn use_prekeys(
        &mut self,
        init: Result<InitNames, Error>,
        used: OneTimeUse,
        saved: Result<(), Error>,
        signed: bool,
    ) -> (r: Result<(), Error>)
        requires
            old(self).stage == ResponderStage::Prekeys,
            !old(self).last_resort_grade,
        ensures
            Responder::keyed(*old(self), *final(self), init, used, saved, signed, r),
    {
        self.stage = ResponderStage::Over;
        let names: InitNames = init?;
        let mut last_resort_grade: bool = false;
        if names.one_time_prekey_id.is_some() {
            match used {
                OneTimeUse::Fresh => {},
                OneTimeUse::Reused => {
                    last_resort_grade = true;
                },
                OneTimeUse::Unknown => {
                    return Err(Error::MalformedJoin("init names an unknown one-time prekey"));
                },
            }
            saved?;
        }
        if !signed {
            return Err(Error::MalformedJoin("init names an unknown signed prekey"));
        }
        self.last_resort_grade = last_resort_grade;
        self.stage = ResponderStage::Session;
        Ok(())
    }

    /// What completing the join gives a responder.
    pub open spec fn completed(
        before: Responder,
        after: Responder,
        begun: Result<(), Error>,
        r: Result<JoinOutcome, Error>,
    ) -> bool {
        &&& after == before.to(ResponderStage::Over)
        &&& match begun {
            Ok(_) => r == Ok::<JoinOutcome, Error>(
                JoinOutcome {
                    peer: before.peer->Some_0,
                    last_resort_grade: before.last_resort_grade,
                },
            ),
            Err(e) => r == Err::<JoinOutcome, Error>(e),
        }
    }

    /// Completes the join, once the session was begun.
    pub fn complete(&mut self, begun: Result<(), Error>) -> (r: Result<JoinOutcome, Error>)
        requires
            old(self).stage == ResponderStage::Session,
            old(self).peer is Some,
        ensures
            Responder::completed(*old(self), *final(self), begun, r),
    {
        self.stage = ResponderStage::Over;
        begun?;
        match self.peer {
            Some(peer) => Ok(JoinOutcome { peer, last_resort_grade: self.last_resort_grade }),
            None => Err(Error::MalformedJoin("expected proof")),
        }
    }
}

/// What a failed exchange may say to the joiner.
pub open spec fn reject_of(e: Error) -> JoinReject {
    match e {
        Error::JoinPowInvalid => JoinReject::PowInvalid,
        Error::MalformedJoin(_) => JoinReject::Malformed,
        Error::Cbor(_) => JoinReject::Malformed,
        _ => JoinReject::Refused,
    }
}

/// The frame that says how an exchange went.
pub open spec fn verdict_on(out: Result<JoinOutcome, Error>) -> JoinFrame {
    match out {
        Ok(_) => JoinFrame::Accepted,
        Err(e) => JoinFrame::Rejected(reject_of(e)),
    }
}

/// The last frame of the responder: how the exchange went, and no more than that.
pub fn verdict(out: &Result<JoinOutcome, Error>) -> (f: JoinFrame)
    ensures
        f == verdict_on(*out),
{
    match out {
        Ok(_) => JoinFrame::Accepted,
        Err(e) => JoinFrame::Rejected(
            match e {
                Error::JoinPowInvalid => JoinReject::PowInvalid,
                Error::MalformedJoin(_) => JoinReject::Malformed,
                Error::Cbor(_) => JoinReject::Malformed,
                _ => JoinReject::Refused,
            },
        ),
    }
}

/// Past the work and the frame syntax a refusal tells nothing: whatever else went
/// wrong, the joiner is told the same.
pub proof fn law_refusals_are_opaque(a: Error, b: Error)
    requires
        !(a is JoinPowInvalid) && !(a is MalformedJoin) && !(a is Cbor),
        !(b is JoinPowInvalid) && !(b is MalformedJoin) && !(b is Cbor),
    ensures
        reject_of(a) == reject_of(b),
        refused(reject_of(a)) == Error::JoinRefused("responder refused"),
{
}

/// A challenge that is solved binds the dialled peer: the key it carries has the
/// fingerprint that the transport authenticated, and its channel and its epoch are the
/// ones to be joined.
pub proof fn law_solved_challenge_is_the_peers(
    init: Initiator,
    terms: ChallengeTerms,
    key: Result<CompositePublicKey, Error>,
    bundle_root: Result<Vec<u8>, Error>,
    signature: Result<(), Error>,
)
    requires
        challenge_fault(init, terms, key, bundle_root, signature) is None,
    ensures
        key is Ok,
        key->Ok_0.fingerprint == init.responder,
        bundle_root is Ok,
        bundle_root->Ok_0@ == key->Ok_0.bytes@,
        terms.channel_id == init.channel_id,
        terms.epoch == init.epoch,
{
}

} // verus!
