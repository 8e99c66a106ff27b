//! A live application stream: what each call on it gives, and how it is torn down when
//! trust is withdrawn.
//!
//! Whoever notices first that the peer has left the circle tears the stream down, and only
//! once: both halves are reset with a code that says so, so that the peer learns that it
//! was a decision and not an ending.

use vstd::prelude::*;

use crate::app::hub::{self, bump, AppHub, AppInfo, AppStats};
use crate::app::APP_WITHDRAWN_CODE;
use crate::error::Error;

verus! {

/// A live stream.
#[derive(Debug, PartialEq, Eq)]
pub struct AppStream {
    /// What it is.
    pub info: AppInfo,
    /// Whether it was torn down.
    pub withdrawn: bool,
}

/// What became of a read or a write that was raced against a withdrawal.
#[derive(Debug, PartialEq, Eq)]
pub enum Raced<T> {
    /// It came through.
    Done(T),
    /// The peer reset the stream with this code.
    Reset(u64),
    /// It failed otherwise.
    Failed,
    /// The peer left the circle first.
    Withdrawn,
}

/// What is said of a stream that was closed because trust was withdrawn here.
pub open spec fn withdrawn_error() -> Error {
    Error::TunnelRevoked("app: trust was withdrawn, so the app stream was closed")
}

/// What a read gives.
pub open spec fn read_result(gone: bool, got: Raced<Option<usize>>) -> Result<
    Option<usize>,
    Error,
> {
    if gone {
        Err(withdrawn_error())
    } else {
        match got {
            Raced::Done(n) => Ok(n),
            Raced::Reset(code) => if code == APP_WITHDRAWN_CODE {
                Err(
                    Error::TunnelRevoked(
                        "app: the peer withdrew trust, so the app stream was closed",
                    ),
                )
            } else {
                Err(Error::MalformedTunnel("app stream read"))
            },
            Raced::Failed => Err(Error::MalformedTunnel("app stream read")),
            Raced::Withdrawn => Err(withdrawn_error()),
        }
    }
}

/// What a write gives.
pub open spec fn write_fault(gone: bool, got: Raced<()>) -> Option<Error> {
    if gone {
        Some(withdrawn_error())
    } else {
        match got {
            Raced::Done(_) => None,
            Raced::Reset(_) | Raced::Failed => Some(Error::MalformedTunnel("app stream write")),
            Raced::Withdrawn => Some(withdrawn_error()),
        }
    }
}

/// The counters with one more stream torn down, where this was the first to do it.
pub open spec fn torn(h: AppHub, first: bool) -> AppHub {
    AppHub {
        stats: AppStats {
            withdrawn: if first {
                hub::up(h.stats.withdrawn)
            } else {
                h.stats.withdrawn
            },
            ..h.stats
        },
        ..h
    }
}

impl AppStream {
    /// A stream that has just come up.
    pub fn new(info: AppInfo) -> (s: AppStream)
        ensures
            s.info == info,
            !s.withdrawn,
    {
        AppStream { info, withdrawn: false }
    }

    /// What the stream is.
    #[must_use]
    pub fn info(&self) -> (i: &AppInfo)
        ensures
            *i == self.info,
    {
        &self.info
    }

    /// Tears the stream down, if nobody has. The result says whether both halves are to be
    /// reset with [`APP_WITHDRAWN_CODE`] and the flow dropped, which is done once.
    pub fn tear_down(&mut self, h: &mut AppHub) -> (first: bool)
        ensures
            first == !old(self).withdrawn,
            final(self).withdrawn,
            final(self).info == old(self).info,
            *final(h) == torn(*old(h), first),
    {
        if self.withdrawn {
            return false;
        }
        self.withdrawn = true;
        h.stats.withdrawn = bump(h.stats.withdrawn);
        true
    }

    /// What a read gives, and whether the halves are to be reset: how many bytes came, or
    /// none at the peer's end of stream. `got` is what came of the read; on a stream that
    /// was torn down nothing is read.
    pub fn read(&mut self, h: &mut AppHub, got: Raced<Option<usize>>) -> (r: (
        Result<Option<usize>, Error>,
        bool,
    ))
        ensures
            r.0 == read_result(old(self).withdrawn, got),
            r.1 == (!old(self).withdrawn && got is Withdrawn),
            final(self).info == old(self).info,
            final(self).withdrawn == (old(self).withdrawn || got is Withdrawn),
            *final(h) == torn(*old(h), r.1),
    {
        if self.withdrawn {
            return (
                Err(Error::TunnelRevoked("app: trust was withdrawn, so the app stream was closed")),
                false,
            );
        }
        match got {
            Raced::Done(n) => (Ok(n), false),
            Raced::Reset(code) => if code == APP_WITHDRAWN_CODE as u64 {
                (
                    Err(
                        Error::TunnelRevoked(
                            "app: the peer withdrew trust, so the app stream was closed",
                        ),
                    ),
                    false,
                )
            } else {
                (Err(Error::MalformedTunnel("app stream read")), false)
            },
            Raced::Failed => (Err(Error::MalformedTunnel("app stream read")), false),
            Raced::Withdrawn => {
                let first: bool = self.tear_down(h);
                (
                    Err(
                        Error::TunnelRevoked(
                            "app: trust was withdrawn, so the app stream was closed",
                        ),
                    ),
                    first,
                )
            },
        }
    }

    /// What a write gives, and whether the halves are to be reset.
    pub fn write_all(&mut self, h: &mut AppHub, got: Raced<()>) -> (r: (Result<(), Error>, bool))
        ensures
            match r.0 {
                Ok(_) => write_fault(old(self).withdrawn, got) is None,
                Err(e) => write_fault(old(self).withdrawn, got) == Some(e),
            },
            r.1 == (!old(self).withdrawn && got is Withdrawn),
            final(self).info == old(self).info,
            final(self).withdrawn == (old(self).withdrawn || got is Withdrawn),
            *final(h) == torn(*old(h), r.1),
    {
        if self.withdrawn {
            return (
                Err(Error::TunnelRevoked("app: trust was withdrawn, so the app stream was closed")),
                false,
            );
        }
        match got {
            Raced::Done(_) => (Ok(()), false),
            Raced::Reset(_) | Raced::Failed => (
                Err(Error::MalformedTunnel("app stream write")),
                false,
            ),
            Raced::Withdrawn => {
                let first: bool = self.tear_down(h);
                (
                    Err(
                        Error::TunnelRevoked(
                            "app: trust was withdrawn, so the app stream was closed",
                        ),
                    ),
                    first,
                )
            },
        }
    }

    /// Whether a datagram may be sent.
    pub fn send_datagram(&self) -> (r: Result<(), Error>)
        ensures
            match r {
                Ok(_) => !self.withdrawn && self.info.datagrams,
                Err(e) => if self.withdrawn {
                    e == withdrawn_error()
                } else {
                    &&& !self.info.datagrams
                    &&& e == Error::StreamRefused("app: no datagram flow on this stream")
                },
            },
    {
        if self.withdrawn {
            return Err(
                Error::TunnelRevoked("app: trust was withdrawn, so the app stream was closed"),
            );
        }
        if !self.info.datagrams {
            return Err(Error::StreamRefused("app: no datagram flow on this stream"));
        }
        Ok(())
    }

    /// The next datagram, or none once the flow has ended or was withdrawn; and whether
    /// the halves are to be reset.
    pub fn recv_datagram(&mut self, h: &mut AppHub, got: Raced<Option<Vec<u8>>>) -> (r: (
        Option<Vec<u8>>,
        bool,
    ))
        ensures
            r.0 == (if old(self).withdrawn || !old(self).info.datagrams {
                None
            } else {
                match got {
                    Raced::Done(d) => d,
                    _ => None,
                }
            }),
            r.1 == (!old(self).withdrawn && old(self).info.datagrams && got is Withdrawn),
            final(self).info == old(self).info,
            final(self).withdrawn == (old(self).withdrawn || r.1),
            *final(h) == torn(*old(h), r.1),
    {
        if self.withdrawn || !self.info.datagrams {
            return (None, false);
        }
        match got {
            Raced::Done(d) => (d, false),
            Raced::Withdrawn => {
                let first: bool = self.tear_down(h);
                (None, first)
            },
            _ => (None, false),
        }
    }

    /// What the end of the stream leaves to do: where the peer has left the circle and
    /// nobody has torn the stream down, its halves are reset rather than finished.
    /// `reached` says whether the peer is in the circle.
    pub fn dropped(&mut self, h: &mut AppHub, reached: bool) -> (reset: bool)
        ensures
            reset == (!reached && !old(self).withdrawn),
            final(self).info == old(self).info,
            final(self).withdrawn == (old(self).withdrawn || !reached),
            *final(h) == torn(*old(h), reset),
    {
        if reached {
            return false;
        }
        self.tear_down(h)
    }
}

/// Once trust is withdrawn no call comes through any more, and no call tears the stream
/// down a second time.
pub proof fn law_withdrawn_stays_withdrawn(got: Raced<Option<usize>>, wrote: Raced<()>)
    ensures
        read_result(true, got) == Err::<Option<usize>, Error>(withdrawn_error()),
        write_fault(true, wrote) == Some(withdrawn_error()),
{
}

} // verus!
