//! What holds of the joining exchange: which challenge is solved, which first message is
//! served, and that a frame out of its turn ends the exchange.

use vstd::prelude::*;

use crate::error::Error;
use crate::hash::Digest32;
use crate::identity::CompositePublicKey;
use crate::joinstream::exchange::{
    self, ChallengeTerms, InitNames, Initiator, InitiatorStage, JoinOutcome, OneTimeUse, Responder,
    ResponderStage, Solved,
};
use crate::joinstream::{JoinFrame, JoinReject};

verus! {

/// A challenge is solved exactly if its key is that of the dialled peer, it binds the
/// channel and the epoch to be joined, its bundle is the peer's own and its signature
/// decodes; no other condition is made.
pub proof fn law_challenge_is_solved_exactly(
    init: Initiator,
    terms: ChallengeTerms,
    key: Result<CompositePublicKey, Error>,
    bundle_root: Result<Vec<u8>, Error>,
    signature: Result<(), Error>,
)
    ensures
        exchange::challenge_fault(init, terms, key, bundle_root, signature) is None <==> {
            &&& key is Ok
            &&& key->Ok_0.fingerprint == init.responder
            &&& terms.channel_id == init.channel_id
            &&& terms.epoch == init.epoch
            &&& bundle_root is Ok
            &&& bundle_root->Ok_0@ == key->Ok_0.bytes@
            &&& signature is Ok
        },
        key is Err ==> exchange::challenge_fault(init, terms, key, bundle_root, signature) == Some(
            key->Err_0,
        ),
{
}

/// A first message is served exactly if it decodes, its signed prekey is known, and the
/// one-time prekey, if it names one, is known and its use was written. A one-time prekey
/// that was used before is served.
pub proof fn law_first_message_is_served_exactly(
    init: Result<InitNames, Error>,
    used: OneTimeUse,
    saved: Result<(), Error>,
    signed: bool,
)
    ensures
        exchange::prekeys_fault(init, used, saved, signed) is None <==> {
            &&& init is Ok
            &&& signed
            &&& init->Ok_0.one_time_prekey_id is Some ==> saved is Ok && (used == OneTimeUse::Fresh
                || used == OneTimeUse::Reused)
        },
{
}

/// A session is marked exactly if it was begun with a one-time prekey that had been used
/// before, and what the exchange comes to says so, with the peer that was proved.
pub proof fn law_second_use_is_marked(
    before: Responder,
    keyed: Responder,
    after: Responder,
    init: Result<InitNames, Error>,
    used: OneTimeUse,
    saved: Result<(), Error>,
    signed: bool,
    peer: Digest32,
    out: Result<JoinOutcome, Error>,
)
    requires
        before.peer == Some(peer),
        Responder::keyed(before, keyed, init, used, saved, signed, Ok::<(), Error>(())),
        Responder::completed(keyed, after, Ok::<(), Error>(()), out),
    ensures
        out is Ok,
        out->Ok_0.peer == peer,
        out->Ok_0.last_resort_grade <==> init->Ok_0.one_time_prekey_id is Some && used
            == OneTimeUse::Reused,
        after.stage == ResponderStage::Over,
{
}

/// A joiner that gets a frame out of its turn, or none, goes no further: the exchange is
/// over, and what the frame held is not taken.
pub proof fn law_joiner_stops_at_a_wrong_frame(
    before: Initiator,
    after: Initiator,
    frame: Result<JoinFrame, Error>,
    terms: Result<ChallengeTerms, Error>,
    share: Result<[u8; 32], Error>,
    sealed: Result<Vec<u8>, Error>,
    out: Result<JoinOutcome, Error>,
)
    ensures
        Initiator::challenged(before, after, frame, terms) && !(frame is Ok && frame->Ok_0
            is Challenge) ==> terms is Err && after.stage == InitiatorStage::Over,
        Initiator::shared(before, after, frame, share) && !(frame is Ok && frame->Ok_0 is Share)
            ==> share is Err && after.stage == InitiatorStage::Over,
        Initiator::proven(before, after, frame, sealed) && !(frame is Ok && frame->Ok_0 is Proof)
            ==> sealed is Err && after.stage == InitiatorStage::Over,
        Initiator::judged(before, after, frame, out) && !(frame is Ok && frame->Ok_0 is Accepted)
            ==> out is Err && after.stage == InitiatorStage::Over,
{
}

/// A responder that gets a frame out of its turn, or none, goes no further.
pub proof fn law_responder_stops_at_a_wrong_frame(
    before: Responder,
    after: Responder,
    agreed: Result<(), Error>,
    frame: Result<JoinFrame, Error>,
    solved: Result<Solved, Error>,
    sealed: Result<Vec<u8>, Error>,
    message: Result<Vec<u8>, Error>,
)
    ensures
        Responder::solved(before, after, frame, solved) && !(frame is Ok && frame->Ok_0 is Solve)
            ==> solved is Err && after.stage == ResponderStage::Over,
        Responder::proven(before, after, agreed, frame, sealed) && !(agreed is Ok && frame is Ok
            && frame->Ok_0 is Proof) ==> sealed is Err && after.stage == ResponderStage::Over,
        Responder::begun(before, after, frame, message) && !(frame is Ok && frame->Ok_0 is Init)
            ==> message is Err && after.stage == ResponderStage::Over,
{
}

/// A frame in its turn is taken as it stands: the challenge, the shares, the proofs and the
/// first message are those that came.
pub proof fn law_frame_is_taken_as_it_came(
    before: Initiator,
    after: Initiator,
    there: Responder,
    later: Responder,
    frame: Result<JoinFrame, Error>,
    terms: Result<ChallengeTerms, Error>,
    share: Result<[u8; 32], Error>,
    theirs: Result<Vec<u8>, Error>,
    solved: Result<Solved, Error>,
    ours: Result<Vec<u8>, Error>,
    message: Result<Vec<u8>, Error>,
)
    requires
        frame is Ok,
    ensures
        Initiator::challenged(before, after, frame, terms) && frame->Ok_0 is Challenge ==> terms
            is Ok && terms->Ok_0.frame() == frame->Ok_0 && after.stage == InitiatorStage::Check,
        Initiator::shared(before, after, frame, share) && frame->Ok_0 is Share ==> share is Ok
            && frame->Ok_0 == (JoinFrame::Share { share: share->Ok_0 }) && after.stage
            == InitiatorStage::Prove,
        Initiator::proven(before, after, frame, theirs) && frame->Ok_0 is Proof ==> theirs is Ok
            && frame->Ok_0 == (JoinFrame::Proof { sealed: theirs->Ok_0 }) && after.stage
            == InitiatorStage::Begin,
        Responder::solved(there, later, frame, solved) && frame->Ok_0 is Solve ==> solved is Ok
            && solved->Ok_0.frame() == frame->Ok_0 && later.stage == ResponderStage::Share,
        Responder::proven(there, later, Ok::<(), Error>(()), frame, ours) && frame->Ok_0 is Proof
            ==> ours is Ok && frame->Ok_0 == (JoinFrame::Proof { sealed: ours->Ok_0 })
            && later.stage == ResponderStage::Prove,
        Responder::begun(there, later, frame, message) && frame->Ok_0 is Init ==> message is Ok
            && frame->Ok_0 == (JoinFrame::Init { message: message->Ok_0 }) && later.stage
            == ResponderStage::Prekeys,
{
}

/// The joiner is told that it is accepted exactly if it was; of the work and of malformed
/// frames it is told as such, and of anything else just that it was refused.
pub proof fn law_verdict_is_the_outcome(out: Result<JoinOutcome, Error>, what: &'static str)
    ensures
        exchange::verdict_on(out) == JoinFrame::Accepted <==> out is Ok,
        exchange::reject_of(Error::JoinPowInvalid) == JoinReject::PowInvalid,
        exchange::reject_of(Error::MalformedJoin(what)) == JoinReject::Malformed,
        exchange::reject_of(Error::JoinRefused(what)) == JoinReject::Refused,
        out is Err && exchange::reject_of(out->Err_0) == JoinReject::PowInvalid ==> out->Err_0
            is JoinPowInvalid,
        out is Err && exchange::reject_of(out->Err_0) == JoinReject::Malformed ==> out->Err_0
            is MalformedJoin || out->Err_0 is Cbor,
{
}

/// Each refusal has a number of its own on the wire and is told in words of its own.
pub proof fn law_join_refusals_are_told_apart(a: JoinReject, b: JoinReject)
    ensures
        a.code() == b.code() ==> a == b,
        exchange::refused(a) == exchange::refused(b) ==> a == b,
        1 <= a.code() <= 3,
{
    reveal_strlit("responder refused: proof-of-work invalid");
    reveal_strlit("responder refused: malformed frame");
    reveal_strlit("responder refused");
    let (x, y) = (exchange::refused(a), exchange::refused(b));
    if x == y {
        let (p, q) = (x->JoinRefused_0@, y->JoinRefused_0@);
        assert(p.len() == q.len());
    }
}

} // verus!
