//! The error taxonomy shared by every module of the library.

use vstd::prelude::*;

verus! {

/// Why an operation did not succeed.
#[derive(Debug, PartialEq, Eq)]
pub enum Error {
    /// The bytes are not canonical CBOR of the expected kind.
    Cbor(&'static str),
    /// A frame or bundle is malformed.
    MalformedBundle(&'static str),
    /// An input or a decoded length is over its bound.
    SizeLimitExceeded(&'static str),
    /// An invite link or an anchor specification does not parse.
    MalformedLink(&'static str),
    /// This line of an anchors file, counted from 1, holds no anchor that can be added.
    MalformedAnchorLine(usize),
    /// A stream was refused, or carried something it may not carry.
    StreamRefused(&'static str),
    /// A hole punch did not land.
    HolePunchFailed(&'static str),
    /// A peer could not be reached.
    Unreachable(&'static str),
    /// A join exchange is malformed.
    MalformedJoin(&'static str),
    /// A join was refused.
    JoinRefused(&'static str),
    /// The proof of work of a join does not check.
    JoinPowInvalid,
    /// A sealed segment holds something else than it should.
    MalformedAtRest(&'static str),
    /// A governance fact is malformed, or the log does not allow it.
    MalformedGovernance(&'static str),
    /// The profile cannot do what was asked of it.
    Profile(&'static str),
    /// A secret is app-locked.
    AtRestLocked,
    /// A sealed secret did not open under the given factors.
    AtRestUnlockFailed,
    /// A file operation failed.
    Path {
        /// What was attempted.
        op: &'static str,
        /// What went wrong.
        detail: String,
    },
    /// The store failed.
    Storage,
    /// A tunnel was revoked while it was open.
    TunnelRevoked(&'static str),
    /// A tunnel request is malformed.
    MalformedTunnel(&'static str),
    /// An application stream was refused, for the given reason.
    AppRefused(String),
    /// A board refused a record.
    RendezvousRejected(&'static str),
    /// A key derivation failed.
    Argon2Failed,
    /// Something the library has no closer word for.
    Other(&'static str),
}

impl Clone for Error {
    fn clone(&self) -> (r: Error)
        ensures
            r == *self,
    {
        match self {
            Error::Cbor(s) => Error::Cbor(s),
            Error::MalformedBundle(s) => Error::MalformedBundle(s),
            Error::SizeLimitExceeded(s) => Error::SizeLimitExceeded(s),
            Error::MalformedLink(s) => Error::MalformedLink(s),
            Error::MalformedAnchorLine(n) => Error::MalformedAnchorLine(*n),
            Error::StreamRefused(s) => Error::StreamRefused(s),
            Error::HolePunchFailed(s) => Error::HolePunchFailed(s),
            Error::Unreachable(s) => Error::Unreachable(s),
            Error::MalformedJoin(s) => Error::MalformedJoin(s),
            Error::JoinRefused(s) => Error::JoinRefused(s),
            Error::JoinPowInvalid => Error::JoinPowInvalid,
            Error::MalformedAtRest(s) => Error::MalformedAtRest(s),
            Error::MalformedGovernance(s) => Error::MalformedGovernance(s),
            Error::Profile(s) => Error::Profile(s),
            Error::AtRestLocked => Error::AtRestLocked,
            Error::AtRestUnlockFailed => Error::AtRestUnlockFailed,
            Error::Path { op, detail } => Error::Path { op, detail: detail.clone() },
            Error::Storage => Error::Storage,
            Error::TunnelRevoked(s) => Error::TunnelRevoked(s),
            Error::MalformedTunnel(s) => Error::MalformedTunnel(s),
            Error::AppRefused(s) => Error::AppRefused(s.clone()),
            Error::RendezvousRejected(s) => Error::RendezvousRejected(s),
            Error::Argon2Failed => Error::Argon2Failed,
            Error::Other(s) => Error::Other(s),
        }
    }
}

} // verus!
