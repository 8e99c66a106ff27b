//! The authenticated join over one typed stream: its frames, and the two sides of the
//! exchange.
//!
//! In order: the responder's challenge; the joiner's solution with its share; the
//! responder's share; the joiner's sealed proof; the responder's; the joiner's first
//! message; and the responder's verdict. The party that seeks entry proves itself
//! first. What a refusal says is deliberately coarse.

use vstd::prelude::*;

use crate::cbor::{self, Cur, Decoder, Encoder, Tok};
use crate::error::Error;
use crate::hash::{Digest32, COMPOSITE_PUB_LEN, COMPOSITE_SIG_LEN};

pub mod agreed;
pub mod exchange;
pub mod laws;

verus! {

/// The largest join frame either side will read.
pub const MAX_JOIN_FRAME: usize = 65536;

/// The largest run identifier a peer may propose.
pub const MAX_SID: usize = 64;

/// The length of a key-agreement share.
pub const CPACE_SHARE_LEN: usize = 32;

/// Frame tag of a challenge.
pub const OP_CHALLENGE: u64 = 1;

/// Frame tag of a solution.
pub const OP_SOLVE: u64 = 2;

/// Frame tag of the responder's share.
pub const OP_SHARE: u64 = 3;

/// Frame tag of a sealed proof.
pub const OP_PROOF: u64 = 4;

/// Frame tag of the joiner's first message.
pub const OP_INIT: u64 = 5;

/// Frame tag of an acceptance.
pub const OP_ACCEPTED: u64 = 6;

/// Frame tag of a refusal.
pub const OP_REJECTED: u64 = 7;

/// Why a responder refused a join.
#[derive(Debug, Clone, Copy, PartialEq, Eq, Structural)]
pub enum JoinReject {
    /// The proof of work did not verify against the issued challenge.
    PowInvalid,
    /// A frame was malformed, out of order or over-long.
    Malformed,
    /// Refused after the work, for whatever reason: one value, so that it tells
    /// nothing of a passphrase, an identity or a policy.
    Refused,
}

impl JoinReject {
    /// The number on the wire.
    pub open spec fn code(self) -> u64 {
        match self {
            JoinReject::PowInvalid => 1,
            JoinReject::Malformed => 2,
            JoinReject::Refused => 3,
        }
    }

    fn number(self) -> (n: u64)
        ensures
            n == self.code(),
    {
        match self {
            JoinReject::PowInvalid => 1,
            JoinReject::Malformed => 2,
            JoinReject::Refused => 3,
        }
    }

    /// The reason that a number on the wire names.
    pub fn from_u8(v: u8) -> (r: Option<JoinReject>)
        ensures
            match r {
                Some(j) => j.code() == v,
                None => v == 0 || v > 3,
            },
    {
        if v == 1 {
            Some(JoinReject::PowInvalid)
        } else if v == 2 {
            Some(JoinReject::Malformed)
        } else if v == 3 {
            Some(JoinReject::Refused)
        } else {
            None
        }
    }

    /// The reason in words.
    pub open spec fn words(self) -> &'static str {
        match self {
            JoinReject::PowInvalid => "responder refused: proof-of-work invalid",
            JoinReject::Malformed => "responder refused: malformed frame",
            JoinReject::Refused => "responder refused",
        }
    }

    /// The reason in words, as [`Error::JoinRefused`] carries it.
    #[must_use]
    pub fn as_str(self) -> (s: &'static str)
        ensures
            s == self.words(),
    {
        match self {
            JoinReject::PowInvalid => "responder refused: proof-of-work invalid",
            JoinReject::Malformed => "responder refused: malformed frame",
            JoinReject::Refused => "responder refused",
        }
    }
}

/// One frame of the exchange.
#[derive(Debug, PartialEq, Eq)]
pub enum JoinFrame {
    /// The responder's signed challenge, run identifier, identity key and bundle.
    Challenge {
        /// The responder's public key.
        responder_pub: Vec<u8>,
        /// Its signature over the challenge.
        challenge_sig: Vec<u8>,
        /// The channel that the challenge binds.
        channel_id: Digest32,
        /// The epoch it binds.
        epoch: u64,
        /// The difficulty, in leading zero bits.
        difficulty_bits: u8,
        /// The nonce.
        nonce: Digest32,
        /// The run identifier both sides use.
        sid: Vec<u8>,
        /// The responder's current prekey bundle.
        bundle: Vec<u8>,
    },
    /// The joiner's solution and its share.
    Solve {
        /// The nonce of the solution.
        equihash_nonce: Vec<u8>,
        /// The solution.
        solution: Vec<u8>,
        /// The share.
        share: [u8; 32],
    },
    /// The responder's share.
    Share {
        /// The share.
        share: [u8; 32],
    },
    /// A sealed proof of identity.
    Proof {
        /// The sealed proof.
        sealed: Vec<u8>,
    },
    /// The joiner's first message of the pairwise session.
    Init {
        /// The message in wire form.
        message: Vec<u8>,
    },
    /// The join succeeded.
    Accepted,
    /// The join was refused.
    Rejected(JoinReject),
}

impl JoinFrame {
    /// Whether the fields have the widths that the wire gives them.
    pub open spec fn wf(&self) -> bool {
        match *self {
            JoinFrame::Challenge { responder_pub, challenge_sig, sid, .. } => {
                &&& responder_pub@.len() == COMPOSITE_PUB_LEN
                &&& challenge_sig@.len() == COMPOSITE_SIG_LEN
                &&& 0 < sid@.len() <= MAX_SID
            },
            _ => true,
        }
    }

    /// The items of the frame.
    pub open spec fn toks(&self) -> Seq<Tok> {
        match *self {
            JoinFrame::Challenge {
                responder_pub,
                challenge_sig,
                channel_id,
                epoch,
                difficulty_bits,
                nonce,
                sid,
                bundle,
            } => cbor::items()
                .push(Tok::Array(9))
                .push(Tok::Uint(OP_CHALLENGE))
                .push(Tok::Bytes(responder_pub@))
                .push(Tok::Bytes(challenge_sig@))
                .push(Tok::Bytes(channel_id@))
                .push(Tok::Uint(epoch))
                .push(Tok::Uint(difficulty_bits as u64))
                .push(Tok::Bytes(nonce@))
                .push(Tok::Bytes(sid@))
                .push(Tok::Bytes(bundle@)),
            JoinFrame::Solve { equihash_nonce, solution, share } => cbor::items()
                .push(Tok::Array(4))
                .push(Tok::Uint(OP_SOLVE))
                .push(Tok::Bytes(equihash_nonce@))
                .push(Tok::Bytes(solution@))
                .push(Tok::Bytes(share@)),
            JoinFrame::Share { share } => cbor::items()
                .push(Tok::Array(2))
                .push(Tok::Uint(OP_SHARE))
                .push(Tok::Bytes(share@)),
            JoinFrame::Proof { sealed } => cbor::items()
                .push(Tok::Array(2))
                .push(Tok::Uint(OP_PROOF))
                .push(Tok::Bytes(sealed@)),
            JoinFrame::Init { message } => cbor::items()
                .push(Tok::Array(2))
                .push(Tok::Uint(OP_INIT))
                .push(Tok::Bytes(message@)),
            JoinFrame::Accepted => cbor::items().push(Tok::Array(1)).push(Tok::Uint(OP_ACCEPTED)),
            JoinFrame::Rejected(r) => cbor::items()
                .push(Tok::Array(2))
                .push(Tok::Uint(OP_REJECTED))
                .push(Tok::Uint(r.code())),
        }
    }

    /// Whether both are one frame, by content.
    pub open spec fn is_same(&self, other: &JoinFrame) -> bool {
        match (*self, *other) {
            (
                JoinFrame::Challenge {
                    responder_pub: k,
                    challenge_sig: s,
                    channel_id: c,
                    epoch: e,
                    difficulty_bits: d,
                    nonce: n,
                    sid: i,
                    bundle: b,
                },
                JoinFrame::Challenge {
                    responder_pub,
                    challenge_sig,
                    channel_id,
                    epoch,
                    difficulty_bits,
                    nonce,
                    sid,
                    bundle,
                },
            ) => {
                &&& k@ == responder_pub@
                &&& s@ == challenge_sig@
                &&& c@ == channel_id@
                &&& e == epoch
                &&& d == difficulty_bits
                &&& n@ == nonce@
                &&& i@ == sid@
                &&& b@ == bundle@
            },
            (
                JoinFrame::Solve { equihash_nonce: n, solution: s, share: h },
                JoinFrame::Solve { equihash_nonce, solution, share },
            ) => n@ == equihash_nonce@ && s@ == solution@ && h@ == share@,
            (JoinFrame::Share { share: h }, JoinFrame::Share { share }) => h@ == share@,
            (JoinFrame::Proof { sealed: s }, JoinFrame::Proof { sealed }) => s@ == sealed@,
            (JoinFrame::Init { message: m }, JoinFrame::Init { message }) => m@ == message@,
            (JoinFrame::Accepted, JoinFrame::Accepted) => true,
            (JoinFrame::Rejected(a), JoinFrame::Rejected(b)) => a == b,
            _ => false,
        }
    }

    /// The frame's bytes.
    #[must_use]
    pub fn to_frame(&self) -> (b: Vec<u8>)
        ensures
            b@ == cbor::enc(self.toks()),
    {
        let mut e = Encoder::new();
        match self {
            JoinFrame::Challenge {
                responder_pub,
                challenge_sig,
                channel_id,
                epoch,
                difficulty_bits,
                nonce,
                sid,
                bundle,
            } => {
                e.array(9);
                e.uint(OP_CHALLENGE);
                e.bytes(responder_pub.as_slice());
                e.bytes(challenge_sig.as_slice());
                e.digest(channel_id);
                e.uint(*epoch);
                e.uint(*difficulty_bits as u64);
                e.digest(nonce);
                e.bytes(sid.as_slice());
                e.bytes(bundle.as_slice());
            },
            JoinFrame::Solve { equihash_nonce, solution, share } => {
                e.array(4);
                e.uint(OP_SOLVE);
                e.bytes(equihash_nonce.as_slice());
                e.bytes(solution.as_slice());
                e.digest(share);
            },
            JoinFrame::Share { share } => {
                e.array(2);
                e.uint(OP_SHARE);
                e.digest(share);
            },
            JoinFrame::Proof { sealed } => {
                e.array(2);
                e.uint(OP_PROOF);
                e.bytes(sealed.as_slice());
            },
            JoinFrame::Init { message } => {
                e.array(2);
                e.uint(OP_INIT);
                e.bytes(message.as_slice());
            },
            JoinFrame::Accepted => {
                e.array(1);
                e.uint(OP_ACCEPTED);
            },
            JoinFrame::Rejected(r) => {
                e.array(2);
                e.uint(OP_REJECTED);
                e.uint(r.number());
            },
        }
        e.finish()
    }

    /// Parses a join frame.
    pub fn from_frame(bytes: &[u8]) -> (r: Result<JoinFrame, Error>)
        ensures
            match r {
                Ok(f) => {
                    &&& join_fault(bytes@) is None
                    &&& f.wf()
                    &&& f.toks() == cbor::toks_of(bytes@)
                    &&& cbor::enc(cbor::toks_of(bytes@)) == bytes@
                },
                Err(e) => join_fault(bytes@) == Some(e),
            },
    {
        let mut d = Decoder::new(bytes);
        let n: u64 = d.array(Error::Cbor("cbor"))?;
        let op: u64 = d.uint(Error::Cbor("cbor"))?;
        let f: JoinFrame = if op == OP_CHALLENGE && n == 9 {
            let responder_pub: Vec<u8> = take_fixed(&mut d, COMPOSITE_PUB_LEN, "challenge key")?;
            let challenge_sig: Vec<u8> = take_fixed(&mut d, COMPOSITE_SIG_LEN, "challenge sig")?;
            let channel_id: Digest32 = d.digest(
                Error::Cbor("cbor"),
                Error::MalformedJoin("challenge channel_id"),
            )?;
            let epoch: u64 = d.uint(Error::Cbor("cbor"))?;
            let bits: u64 = d.uint(Error::Cbor("cbor"))?;
            if bits > 255 {
                return Err(Error::MalformedJoin("challenge difficulty range"));
            }
            let nonce: Digest32 = d.digest(
                Error::Cbor("cbor"),
                Error::MalformedJoin("challenge nonce"),
            )?;
            let sid: Vec<u8> = vstd::slice::slice_to_vec(d.bytes(Error::Cbor("cbor"))?);
            if sid.len() == 0 || sid.len() > MAX_SID {
                return Err(Error::MalformedJoin("challenge sid length"));
            }
            let bundle: Vec<u8> = vstd::slice::slice_to_vec(d.bytes(Error::Cbor("cbor"))?);
            JoinFrame::Challenge {
                responder_pub,
                challenge_sig,
                channel_id,
                epoch,
                difficulty_bits: bits as u8,
                nonce,
                sid,
                bundle,
            }
        } else if op == OP_SOLVE && n == 4 {
            let equihash_nonce: Vec<u8> = vstd::slice::slice_to_vec(d.bytes(Error::Cbor("cbor"))?);
            let solution: Vec<u8> = vstd::slice::slice_to_vec(d.bytes(Error::Cbor("cbor"))?);
            let share: [u8; 32] = d.digest(
                Error::Cbor("cbor"),
                Error::MalformedJoin("solve share"),
            )?;
            JoinFrame::Solve { equihash_nonce, solution, share }
        } else if op == OP_SHARE && n == 2 {
            let share: [u8; 32] = d.digest(
                Error::Cbor("cbor"),
                Error::MalformedJoin("share length"),
            )?;
            JoinFrame::Share { share }
        } else if op == OP_PROOF && n == 2 {
            JoinFrame::Proof { sealed: vstd::slice::slice_to_vec(d.bytes(Error::Cbor("cbor"))?) }
        } else if op == OP_INIT && n == 2 {
            JoinFrame::Init { message: vstd::slice::slice_to_vec(d.bytes(Error::Cbor("cbor"))?) }
        } else if op == OP_ACCEPTED && n == 1 {
            JoinFrame::Accepted
        } else if op == OP_REJECTED && n == 2 {
            let v: u64 = d.uint(Error::Cbor("cbor"))?;
            if v > 255 {
                return Err(Error::MalformedJoin("reject reason range"));
            }
            match JoinReject::from_u8(v as u8) {
                Some(r) => JoinFrame::Rejected(r),
                None => {
                    return Err(Error::MalformedJoin("reject reason"));
                },
            }
        } else {
            return Err(Error::MalformedJoin("join frame op"));
        };
        d.finish(Error::Cbor("cbor"))?;
        Ok(f)
    }
}

impl Cur {
    /// Reads a byte string of exactly `n` bytes.
    pub open spec fn join_fixed(self, n: usize, ctx: &'static str) -> Cur {
        self.bytes(cbor::raw()).check(self.peek_bytes().len() == n, Error::MalformedJoin(ctx))
    }
}

fn take_fixed<'a>(d: &mut Decoder<'a>, n: usize, ctx: &'static str) -> (r: Result<Vec<u8>, Error>)
    requires
        old(d).wf(),
    ensures
        final(d).wf(),
        final(d).buffer() == old(d).buffer(),
        match r {
            Ok(v) => {
                &&& v@.len() == n
                &&& old(d).cur().toks.len() > 0 && old(d).cur().toks[0] == Tok::Bytes(v@)
                &&& final(d).cur() == old(d).cur().join_fixed(n, ctx)
                &&& final(d).seen() == old(d).seen().push(Tok::Bytes(v@))
            },
            Err(x) => old(d).cur().join_fixed(n, ctx).bad == Some(x),
        },
{
    let b: &[u8] = d.bytes(Error::Cbor("cbor"))?;
    if b.len() != n {
        return Err(Error::MalformedJoin(ctx));
    }
    Ok(vstd::slice::slice_to_vec(b))
}

/// The fields of a challenge, from where they begin.
pub open spec fn challenge_fields(c: Cur) -> Cur {
    let c1 = c.join_fixed(COMPOSITE_PUB_LEN, "challenge key").join_fixed(
        COMPOSITE_SIG_LEN,
        "challenge sig",
    ).digest(cbor::raw(), Error::MalformedJoin("challenge channel_id")).uint(cbor::raw());
    let c2 = c1.uint(cbor::raw()).check(
        c1.peek_uint() <= 255,
        Error::MalformedJoin("challenge difficulty range"),
    ).digest(cbor::raw(), Error::MalformedJoin("challenge nonce"));
    c2.bytes(cbor::raw()).check(
        0 < c2.peek_bytes().len() <= MAX_SID,
        Error::MalformedJoin("challenge sid length"),
    ).bytes(cbor::raw())
}

/// The fields of a refusal, from where they begin.
pub open spec fn reject_fields(c: Cur) -> Cur {
    c.uint(cbor::raw()).check(
        c.peek_uint() <= 255,
        Error::MalformedJoin("reject reason range"),
    ).check(1 <= c.peek_uint() <= 3, Error::MalformedJoin("reject reason"))
}

/// The fields of a frame with tag `op` and `n` elements, from where they begin.
pub open spec fn join_fields(c: Cur, op: u64, n: u64) -> Cur {
    if op == OP_CHALLENGE && n == 9 {
        challenge_fields(c)
    } else if op == OP_SOLVE && n == 4 {
        c.bytes(cbor::raw()).bytes(cbor::raw()).digest(
            cbor::raw(),
            Error::MalformedJoin("solve share"),
        )
    } else if op == OP_SHARE && n == 2 {
        c.digest(cbor::raw(), Error::MalformedJoin("share length"))
    } else if op == OP_PROOF && n == 2 {
        c.bytes(cbor::raw())
    } else if op == OP_INIT && n == 2 {
        c.bytes(cbor::raw())
    } else if op == OP_ACCEPTED && n == 1 {
        c
    } else if op == OP_REJECTED && n == 2 {
        reject_fields(c)
    } else {
        c.fail(Error::MalformedJoin("join frame op"))
    }
}

/// What is wrong with `b` as a join frame, or `None` where it is one.
pub open spec fn join_fault(b: Seq<u8>) -> Option<Error> {
    let c0 = Cur::at(b);
    let c1 = c0.array(cbor::raw());
    join_fields(c1.uint(cbor::raw()), c1.peek_uint(), c0.peek_array()).end(cbor::raw()).bad
}

/// A frame is read back as it was written.
pub proof fn law_join_frame_read_back(f: JoinFrame)
    requires
        f.wf(),
        cbor::all_encodable(f.toks()),
    ensures
        join_fault(cbor::enc(f.toks())) is None,
        forall|g: JoinFrame| #[trigger]
            g.toks() == cbor::toks_of(cbor::enc(f.toks())) ==> g.is_same(&f),
{
    let ts = f.toks();
    cbor::law_items_read_back(ts);
    assert forall|g: JoinFrame| #[trigger] g.toks() == cbor::toks_of(cbor::enc(ts)) implies
        g.is_same(&f) by {
        law_join_frames_differ(f, g);
    }
}

/// Frames with the same items are the same frame.
pub proof fn law_join_frames_differ(f: JoinFrame, g: JoinFrame)
    requires
        f.toks() == g.toks(),
    ensures
        g.is_same(&f),
{
    let ts = f.toks();
    let us = g.toks();
    assert(ts[0] == us[0] && ts[1] == us[1]);
    if ts.len() > 2 {
        assert(ts[2] == us[2]);
    }
    if ts.len() > 4 {
        assert(ts[3] == us[3] && ts[4] == us[4]);
    }
    if ts.len() > 9 {
        assert(ts[5] == us[5] && ts[6] == us[6] && ts[7] == us[7] && ts[8] == us[8] && ts[9]
            == us[9]);
    }
}

} // verus!
