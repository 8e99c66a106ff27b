//! What the two sides of a join come to together: each step of one is the frame that the
//! other takes next.

use vstd::prelude::*;

use crate::error::Error;
use crate::hash::Digest32;
use crate::identity::CompositePublicKey;
use crate::joinstream::exchange::{
    self, ChallengeTerms, InitNames, Initiator, InitiatorStage, Issued, JoinOutcome, OneTimeUse,
    Responder, ResponderStage, Solved,
};
use crate::joinstream::JoinFrame;

verus! {

/// What the cryptography gives the joiner in the course of an exchange.
pub struct JoinerFinds {
    /// What the key in the challenge decodes to.
    pub key: Result<CompositePublicKey, Error>,
    /// The key that the bundle names.
    pub bundle_root: Result<Vec<u8>, Error>,
    /// Whether the signature decodes.
    pub signature: Result<(), Error>,
    /// The challenge, verified and solved.
    pub solution: Result<Solved, Error>,
    /// This side's proof.
    pub sealed: Result<Vec<u8>, Error>,
    /// Who the responder's proof binds.
    pub verified: Result<Digest32, Error>,
    /// The first message.
    pub message: Result<Vec<u8>, Error>,
}

/// What the cryptography and the prekeys give the responder in the course of an exchange.
pub struct ResponderFinds {
    /// The signed challenge.
    pub issued: Result<Issued, Error>,
    /// This side's share, for a solution that checks.
    pub share: Result<[u8; 32], Error>,
    /// Whether the keys were agreed.
    pub agreed: Result<(), Error>,
    /// Who the joiner's proof binds.
    pub verified: Result<Digest32, Error>,
    /// This side's proof.
    pub sealed: Result<Vec<u8>, Error>,
    /// What the first message names.
    pub names: Result<InitNames, Error>,
    /// What became of the one-time prekey.
    pub used: OneTimeUse,
    /// Whether that was written.
    pub saved: Result<(), Error>,
    /// Whether the signed prekey is known.
    pub signed: bool,
    /// Whether the session was begun.
    pub begun: Result<(), Error>,
}

/// Whether everything that the joiner finds holds up, for the peer it dialled.
pub open spec fn joiner_content(f: JoinerFinds, dialled: Digest32) -> bool {
    &&& f.key is Ok && f.key->Ok_0.fingerprint == dialled
    &&& f.bundle_root is Ok && f.bundle_root->Ok_0@ == f.key->Ok_0.bytes@
    &&& f.signature is Ok
    &&& f.solution is Ok
    &&& f.sealed is Ok
    &&& f.verified is Ok
    &&& f.message is Ok
}

/// Whether everything that the responder finds holds up.
pub open spec fn responder_content(f: ResponderFinds) -> bool {
    &&& f.issued is Ok
    &&& f.share is Ok
    &&& f.agreed is Ok
    &&& f.verified is Ok
    &&& f.sealed is Ok
    &&& f.names is Ok
    &&& f.names->Ok_0.one_time_prekey_id is Some ==> f.used != OneTimeUse::Unknown && f.saved is Ok
    &&& f.signed
    &&& f.begun is Ok
}

/// Two sides that want the same channel at the same epoch, and for which everything holds
/// up, complete the join, and each ends with the identity that the other's proof binds. On
/// the way each takes what the other gave: the challenge, the solution, the shares, the
/// proofs and the first message. `i` and `r` are the sides before and after each step.
pub proof fn law_two_sides_complete(
    i: Seq<Initiator>,
    r: Seq<Responder>,
    fi: JoinerFinds,
    fr: ResponderFinds,
    challenge: Result<JoinFrame, Error>,
    terms: Result<ChallengeTerms, Error>,
    checked: Result<(), Error>,
    answer: Result<JoinFrame, Error>,
    solved: Result<Solved, Error>,
    share: Result<JoinFrame, Error>,
    their_share: Result<[u8; 32], Error>,
    joiner_proof: Result<JoinFrame, Error>,
    joiner_sealed: Result<Vec<u8>, Error>,
    responder_proof: Result<JoinFrame, Error>,
    responder_sealed: Result<Vec<u8>, Error>,
    first: Result<JoinFrame, Error>,
    message: Result<Vec<u8>, Error>,
    keyed: Result<(), Error>,
    served: Result<JoinOutcome, Error>,
    joined: Result<JoinOutcome, Error>,
)
    requires
        i.len() == 9,
        r.len() == 9,
        i[0].stage == InitiatorStage::AwaitChallenge,
        r[0].stage == ResponderStage::Challenge,
        i[0].channel_id == r[0].channel_id,
        i[0].epoch == r[0].epoch,
        joiner_content(fi, i[0].responder),
        responder_content(fr),
        Responder::challenging(r[0], r[1], fr.issued, challenge),
        Initiator::challenged(i[0], i[1], challenge, terms),
        Initiator::checked(
            i[1],
            i[2],
            terms->Ok_0,
            fi.key,
            fi.bundle_root,
            fi.signature,
            checked,
        ),
        Initiator::solving(i[2], i[3], fi.solution, answer),
        Responder::solved(r[1], r[2], answer, solved),
        Responder::sharing(r[2], r[3], fr.share, share),
        Initiator::shared(i[3], i[4], share, their_share),
        Initiator::proving(i[4], i[5], fi.sealed, joiner_proof),
        Responder::proven(r[3], r[4], fr.agreed, joiner_proof, joiner_sealed),
        Responder::proving(r[4], r[5], fr.verified, fr.sealed, responder_proof),
        Initiator::proven(i[5], i[6], responder_proof, responder_sealed),
        Initiator::beginning(i[6], i[7], fi.verified, fi.message, first),
        Responder::begun(r[5], r[6], first, message),
        Responder::keyed(r[6], r[7], fr.names, fr.used, fr.saved, fr.signed, keyed),
        Responder::completed(r[7], r[8], fr.begun, served),
        Initiator::judged(
            i[7],
            i[8],
            Ok::<JoinFrame, Error>(exchange::verdict_on(served)),
            joined,
        ),
    ensures
        solved == fi.solution,
        their_share == fr.share,
        joiner_sealed == fi.sealed,
        responder_sealed == fr.sealed,
        message == fi.message,
        served is Ok && served->Ok_0.peer == fr.verified->Ok_0,
        served->Ok_0.last_resort_grade == (fr.names->Ok_0.one_time_prekey_id is Some && fr.used
            == OneTimeUse::Reused),
        joined is Ok && joined->Ok_0.peer == fi.verified->Ok_0,
        i[8].stage == InitiatorStage::Over,
        r[8].stage == ResponderStage::Over,
{
    assert(terms is Ok);
    assert(terms->Ok_0.channel_id == r[0].channel_id && terms->Ok_0.epoch == r[0].epoch);
    assert(checked is Ok);
    assert(solved is Ok);
    assert(solved->Ok_0.frame() == fi.solution->Ok_0.frame());
}

/// A joiner solves no challenge for a channel or an epoch that it does not want: it stops
/// there, whatever else the challenge holds.
pub proof fn law_other_channel_is_not_joined(
    before: Initiator,
    after: Initiator,
    terms: ChallengeTerms,
    finds: JoinerFinds,
    r: Result<(), Error>,
)
    requires
        terms.channel_id != before.channel_id || terms.epoch != before.epoch,
        Initiator::checked(
            before,
            after,
            terms,
            finds.key,
            finds.bundle_root,
            finds.signature,
            r,
        ),
    ensures
        r is Err,
        after.stage == InitiatorStage::Over,
        finds.key is Ok && finds.key->Ok_0.fingerprint == before.responder ==> r == Err::<
            (),
            Error,
        >(exchange::unexpected("challenge binds another channel/epoch")),
{
}

/// The party that seeks entry proves itself first: a responder gives its own proof, and
/// completes the join, only for a joiner whose proof was verified, and it is that joiner
/// which the join is completed with. `taken` is the side once it took the joiner's proof,
/// `proved` once it gave its own.
pub proof fn law_joiner_is_proven_first(
    taken: Responder,
    proved: Responder,
    verified: Result<Digest32, Error>,
    sealed: Result<Vec<u8>, Error>,
    given: Result<JoinFrame, Error>,
    ready: Responder,
    over: Responder,
    begun: Result<(), Error>,
    served: Result<JoinOutcome, Error>,
)
    requires
        Responder::proving(taken, proved, verified, sealed, given),
        ready.peer == proved.peer,
        Responder::completed(ready, over, begun, served),
    ensures
        given is Ok ==> verified is Ok,
        given is Ok && served is Ok ==> Ok::<Digest32, Error>(served->Ok_0.peer) == verified,
        verified is Err ==> given is Err && proved.stage == ResponderStage::Over,
{
}

/// The joiner is told of a refusal wherever it awaits a share, a proof or the end: it stops
/// there with the coarse reason, and with nothing else of what went wrong.
pub proof fn law_joiner_is_told_of_a_refusal(
    e: Error,
    before: Initiator,
    after: Initiator,
    share: Result<[u8; 32], Error>,
    proof_of: Result<Vec<u8>, Error>,
    joined: Result<JoinOutcome, Error>,
)
    ensures
        ({
            let told = Ok::<JoinFrame, Error>(
                exchange::verdict_on(Err::<JoinOutcome, Error>(e)),
            );
            let why = exchange::refused(exchange::reject_of(e));
            &&& Initiator::shared(before, after, told, share) ==> share == Err::<[u8; 32], Error>(
                why,
            ) && after.stage == InitiatorStage::Over
            &&& Initiator::proven(before, after, told, proof_of) ==> proof_of == Err::<
                Vec<u8>,
                Error,
            >(why) && after.stage == InitiatorStage::Over
            &&& Initiator::judged(before, after, told, joined) ==> joined == Err::<
                JoinOutcome,
                Error,
            >(why) && after.stage == InitiatorStage::Over
        }),
{
}

} // verus!
