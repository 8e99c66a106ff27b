//! The node: what it decides on commands, on network work and on ticks.
//!
//! One task owns the node's state and does the outside work; what is decided about that
//! state is here.

use vstd::prelude::*;

use crate::api::{Fault, MessageRow, NodeEvent};
use crate::channel::Rendered;
use crate::error::Error;
use crate::text::same_text;

pub mod admission;
pub mod boards;
pub mod conduct;
pub mod config;
pub mod course;
pub mod join;
pub mod laws;
pub mod node;
pub mod peers;
pub mod rooms;
pub mod rounds;
pub mod routes;
pub mod sweeps;
pub mod ticks;
pub mod view;
pub mod work;

verus! {

/// How many commands wait before a client is held back.
pub const COMMAND_QUEUE: usize = 64;

/// How many events a subscriber may fall behind before it is told that it lagged.
pub const EVENT_QUEUE: usize = 256;

/// How many pieces of network work wait before the accept loop is held back.
pub const NET_QUEUE: usize = 64;

/// How often the node looks at what is due, in seconds.
pub const TICK_SECS: u64 = 1;

/// How often a peer reached over a relay is tried for a direct path, in seconds.
pub const UPGRADE_RETRY_SECS: u64 = 60;

/// How often the anchors are checked for a dropped connection, in seconds.
pub const ANCHOR_REDIAL_SECS: u64 = 30;

/// How many streams in a row may fail before a connection counts as unusable.
pub const MAX_CONSECUTIVE_STREAM_FAILURES: u32 = 16;

/// How long a joiner waits for the responder's address to reach the board, in
/// milliseconds.
pub const JOIN_ADDRESS_PATIENCE_MILLIS: u64 = 20000;

/// How often it asks meanwhile, in milliseconds.
pub const JOIN_ADDRESS_POLL_MILLIS: u64 = 250;

/// How long a join looks for a board, in milliseconds.
pub const BOARD_PATIENCE_MILLIS: u64 = 30000;

/// The pause between rounds, in milliseconds.
pub const BOARD_RETRY_MILLIS: u64 = 250;

/// One item of a client's event stream.
#[derive(Debug, PartialEq, Eq)]
pub enum EventStreamItem {
    /// An event from the node.
    Event(NodeEvent),
    /// This subscriber fell behind and so many events were dropped for it.
    Lagged(u64),
}

/// The shortest of some lifetimes that are not zero, or `None` where there is none. A
/// lifetime of zero is a permanent grant, which needs no renewal.
pub open spec fn shortest(lifetimes: Seq<u32>) -> Option<u32>
    decreases lifetimes.len(),
{
    if lifetimes.len() == 0 {
        None
    } else {
        let l = lifetimes.last();
        match shortest(lifetimes.drop_last()) {
            None => if l > 0 {
                Some(l)
            } else {
                None
            },
            Some(m) => if 0 < l < m {
                Some(l)
            } else {
                Some(m)
            },
        }
    }
}

/// Half a lifetime, and one second at the least.
pub open spec fn half_of(l: u32) -> int {
    if l >= 2 {
        l as int / 2
    } else {
        1
    }
}

/// When granted mappings must be asked for again: half the shortest granted lifetime
/// from now, and never sooner than in a second; `None` where nothing was granted that
/// expires.
pub fn renew_at(now: u64, lifetimes: &Vec<u32>) -> (r: Option<u64>)
    requires
        shortest(lifetimes@) matches Some(l) ==> now + half_of(l) <= u64::MAX,
    ensures
        r == (match shortest(lifetimes@) {
            None => None::<u64>,
            Some(l) => Some((now + half_of(l)) as u64),
        }),
{
    let mut least: Option<u32> = None;
    let mut i: usize = 0;
    assert(lifetimes@.take(0) =~= Seq::empty());
    while i < lifetimes.len()
        invariant
            i <= lifetimes@.len(),
            least == shortest(lifetimes@.take(i as int)),
        decreases lifetimes@.len() - i,
    {
        let l: u32 = lifetimes[i];
        proof {
            assert(lifetimes@.take(i + 1).drop_last() =~= lifetimes@.take(i as int));
            assert(lifetimes@.take(i + 1).last() == l);
        }
        match least {
            None => {
                if l > 0 {
                    least = Some(l);
                }
            },
            Some(m) => {
                if 0 < l && l < m {
                    least = Some(l);
                }
            },
        }
        i = i + 1;
    }
    assert(lifetimes@.take(i as int) =~= lifetimes@);
    match least {
        None => None,
        Some(l) => {
            let half: u64 = if l >= 2 {
                (l / 2) as u64
            } else {
                1
            };
            assert(half == half_of(l));
            Some(now + half)
        },
    }
}

/// The row that a client is shown for a rendered message. A timeline is kept in the
/// order of arrival, so a row's place in it is its arrival, and none is late.
pub fn row_of(r: &Rendered, arrival: u64) -> (row: MessageRow)
    ensures
        row.entry_hash == r.entry_hash,
        row.author == r.author,
        row.created_millis == r.created_millis,
        row.text@ == r.text@,
        row.arrival == arrival,
        !row.late,
{
    MessageRow {
        entry_hash: r.entry_hash,
        author: r.author,
        created_millis: r.created_millis,
        text: r.text.clone(),
        arrival,
        late: false,
    }
}

/// What a client is told of an error: one of a closed set, with no detail.
pub open spec fn fault_for(e: Error) -> Fault {
    match e {
        Error::Profile(what) => if what@ == "no identity in this profile"@ {
            Fault::NoIdentity
        } else if what@ == "identity already exists in this profile"@ {
            Fault::IdentityExists
        } else if what@ == "locked"@ {
            Fault::Locked
        } else if what@ == "no such channel in this profile"@ {
            Fault::UnknownChannel
        } else {
            Fault::Internal
        },
        Error::AtRestUnlockFailed => Fault::WrongPassphrase,
        Error::AtRestLocked => Fault::Locked,
        Error::SizeLimitExceeded(_) => Fault::TooLong,
        Error::MalformedLink(_) => Fault::BadLink,
        Error::MalformedAnchorLine(_) => Fault::BadLink,
        Error::Unreachable(_) => Fault::Unreachable,
        Error::JoinRefused(_) => Fault::Refused,
        Error::RendezvousRejected(_) => Fault::Refused,
        Error::Storage => Fault::Storage,
        Error::Path { .. } => Fault::Storage,
        Error::MalformedJoin(_) => Fault::Refused,
        Error::MalformedGovernance(what) => if what@ == "no consent to revoke"@ || what@
            == "an identity cannot revoke its own consent"@ {
            Fault::NotConsented
        } else {
            Fault::Internal
        },
        _ => Fault::Internal,
    }
}

/// What a client is told of an error.
pub fn fault_of(e: &Error) -> (f: Fault)
    ensures
        f == fault_for(*e),
{
    match e {
        Error::Profile(what) => if same_text(what, "no identity in this profile") {
            Fault::NoIdentity
        } else if same_text(what, "identity already exists in this profile") {
            Fault::IdentityExists
        } else if same_text(what, "locked") {
            Fault::Locked
        } else if same_text(what, "no such channel in this profile") {
            Fault::UnknownChannel
        } else {
            Fault::Internal
        },
        Error::AtRestUnlockFailed => Fault::WrongPassphrase,
        Error::AtRestLocked => Fault::Locked,
        Error::SizeLimitExceeded(_) => Fault::TooLong,
        Error::MalformedLink(_) => Fault::BadLink,
        Error::MalformedAnchorLine(_) => Fault::BadLink,
        Error::Unreachable(_) => Fault::Unreachable,
        Error::JoinRefused(_) => Fault::Refused,
        Error::RendezvousRejected(_) => Fault::Refused,
        Error::Storage => Fault::Storage,
        Error::Path { .. } => Fault::Storage,
        Error::MalformedJoin(_) => Fault::Refused,
        Error::MalformedGovernance(what) => if same_text(what, "no consent to revoke")
            || same_text(what, "an identity cannot revoke its own consent") {
            Fault::NotConsented
        } else {
            Fault::Internal
        },
        _ => Fault::Internal,
    }
}

} // verus!
