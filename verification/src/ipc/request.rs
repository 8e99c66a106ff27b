//! What a client sends on the control socket.

use vstd::prelude::*;

use crate::cbor::{self, Cur, Decoder, Encoder, Tok};
use crate::error::Error;
use crate::hash::{self, Digest32};

verus! {

pub const T_SUBSCRIBE: u64 = 1;
pub const T_POST: u64 = 2;
pub const T_READ: u64 = 3;
pub const T_ROSTER: u64 = 4;
pub const T_ROOMS_REQ: u64 = 5;
pub const T_ADD_SERVICE: u64 = 6;
pub const T_REMOVE_SERVICE: u64 = 7;
pub const T_FORWARD: u64 = 8;
pub const T_STOP_FORWARD: u64 = 9;
// 10 belonged to a withdrawn request and is never reused.
pub const T_JOIN: u64 = 11;
pub const T_CREATE: u64 = 12;
pub const T_INVITE: u64 = 13;
pub const T_TRUST: u64 = 14;
pub const T_UNTRUST: u64 = 15;
pub const T_TRUST_LIST: u64 = 16;
pub const T_RETENTION: u64 = 23;
pub const T_ORDER: u64 = 24;

/// What a client sends.
///
/// Deliberately narrow: an app client posts, reads and looks at the roster. What
/// changes who may read, or deletes history, carries the identity passphrase.
#[derive(Debug, PartialEq, Eq)]
pub enum Request {
    /// Begin streaming events. Terminal: the connection serves no further request.
    Subscribe,
    /// Append a message to a room.
    Post {
        /// The room.
        channel_id: Digest32,
        /// The message text.
        text: String,
    },
    /// Read a room's timeline, optionally only what follows a cursor.
    Read {
        /// The room.
        channel_id: Digest32,
        /// Return only entries after this one. Absent reads from the start.
        since: Option<Digest32>,
        /// Cap on rows returned; 0 means no cap.
        limit: u64,
    },
    /// Every entry the node holds for a room, in the room's order.
    Order {
        /// The room.
        channel_id: Digest32,
    },
    /// The members of a room.
    Roster {
        /// The room.
        channel_id: Digest32,
    },
    /// Every room this node holds.
    Rooms,
    /// Offer a local endpoint as a room-bound service.
    AddService {
        /// The room.
        channel_id: Digest32,
        /// The service's tag.
        service_tag: String,
        /// The local endpoint to carry connections to.
        local: String,
    },
    /// Stop offering a service.
    RemoveService {
        /// The room.
        channel_id: Digest32,
        /// The service's tag.
        service_tag: String,
    },
    /// Forward a local port to a member's service over the overlay.
    Forward {
        /// The room.
        channel_id: Digest32,
        /// The member offering the service.
        host: Digest32,
        /// The service's tag.
        service_tag: String,
        /// The local address to bind; port 0 lets the system choose.
        local: String,
    },
    /// Stop a forward previously bound at this address.
    StopForward {
        /// The bound address.
        local: String,
    },
    /// Join a room from an invite link.
    Join {
        /// The link.
        link: String,
        /// A local name for the room.
        local_name: String,
        /// The room's passphrase, which the link does not carry.
        passphrase: String,
    },
    /// Create a room on this node.
    Create {
        /// A local name for the room.
        local_name: String,
        /// The room's passphrase.
        passphrase: String,
    },
    /// Mint an invite link for a room.
    Invite {
        /// The room.
        channel_id: Digest32,
    },
    /// Add an identity to the trust keyring.
    Trust {
        /// Who to trust.
        target: Digest32,
        /// The petname to file it under.
        petname: String,
        /// The identity passphrase.
        identity_passphrase: String,
    },
    /// Set a room's retention.
    SetRetention {
        /// The room.
        channel_id: Digest32,
        /// Seconds a message body is kept; `0` keeps it forever.
        ttl: u64,
        /// The identity passphrase.
        identity_passphrase: String,
    },
    /// Remove an identity from the trust keyring.
    Untrust {
        /// Who to stop trusting.
        target: Digest32,
        /// The identity passphrase.
        identity_passphrase: String,
    },
    /// Read the trust keyring.
    TrustList {
        /// The identity passphrase.
        identity_passphrase: String,
    },
}

/// A request's error for a field that is not as it should be.
pub open spec fn bad(what: &'static str) -> Error {
    Error::MalformedBundle(what)
}

impl Cur {
    /// Reads a digest of the control protocol.
    pub open spec fn ipc_digest(self) -> Cur {
        self.digest(
            Error::MalformedBundle("ipc digest"),
            Error::MalformedBundle("ipc digest length"),
        )
    }

    /// Reads a text field of the control protocol.
    pub open spec fn ipc_text(self, what: &'static str) -> Cur {
        self.text(Error::MalformedBundle(what))
    }

    /// Reads a number of the control protocol.
    pub open spec fn ipc_uint(self, what: &'static str) -> Cur {
        self.uint(Error::MalformedBundle(what))
    }
}

/// Reads a digest, naming the fault where there is none.
pub(crate) fn digest(d: &mut Decoder<'_>) -> (r: Result<Digest32, Error>)
    requires
        old(d).wf(),
    ensures
        final(d).wf(),
        final(d).buffer() == old(d).buffer(),
        match r {
            Ok(x) => {
                &&& old(d).cur().toks.len() > 0 && old(d).cur().toks[0] == Tok::Bytes(x@)
                &&& final(d).cur() == old(d).cur().ipc_digest()
                &&& final(d).seen() == old(d).seen().push(Tok::Bytes(x@))
            },
            Err(x) => old(d).cur().ipc_digest().bad == Some(x),
        },
{
    d.digest(
        Error::MalformedBundle("ipc digest"),
        Error::MalformedBundle("ipc digest length"),
    )
}

/// Reads a text string, named so a decode failure says which field it was.
pub(crate) fn text(d: &mut Decoder<'_>, what: &'static str) -> (r: Result<String, Error>)
    requires
        old(d).wf(),
    ensures
        final(d).wf(),
        final(d).buffer() == old(d).buffer(),
        match r {
            Ok(s) => {
                &&& old(d).cur().toks.len() > 0 && old(d).cur().toks[0] == Tok::Text(s@)
                &&& final(d).cur() == old(d).cur().ipc_text(what)
                &&& final(d).seen() == old(d).seen().push(Tok::Text(s@))
            },
            Err(x) => old(d).cur().ipc_text(what).bad == Some(x),
        },
{
    d.text(Error::MalformedBundle(what))
}

/// Reads a number, named so a decode failure says which field it was.
pub(crate) fn uint(d: &mut Decoder<'_>, what: &'static str) -> (r: Result<u64, Error>)
    requires
        old(d).wf(),
    ensures
        final(d).wf(),
        final(d).buffer() == old(d).buffer(),
        match r {
            Ok(n) => {
                &&& old(d).cur().toks.len() > 0 && old(d).cur().toks[0] == Tok::Uint(n)
                &&& final(d).cur() == old(d).cur().ipc_uint(what)
                &&& final(d).seen() == old(d).seen().push(Tok::Uint(n))
            },
            Err(x) => old(d).cur().ipc_uint(what).bad == Some(x),
        },
{
    d.uint(Error::MalformedBundle(what))
}

/// The fields of a request with tag `tag` in an array of `n`, read behind the tag.
pub open spec fn request_fields(c: Cur, tag: u64, n: u64) -> Cur {
    if tag == T_SUBSCRIBE && n == 1 {
        c
    } else if tag == T_POST && n == 3 {
        c.ipc_digest().ipc_text("ipc post text")
    } else if tag == T_READ && n == 4 {
        c.ipc_digest().opt_digest(bad("ipc cursor"), bad("ipc cursor length")).ipc_uint("ipc limit")
    } else if tag == T_ROSTER && n == 2 {
        c.ipc_digest()
    } else if tag == T_ORDER && n == 2 {
        c.ipc_digest()
    } else if tag == T_ROOMS_REQ && n == 1 {
        c
    } else if tag == T_TRUST && n == 4 {
        c.ipc_digest().ipc_text("ipc petname").ipc_text("ipc identity passphrase")
    } else if tag == T_RETENTION && n == 4 {
        c.ipc_digest().ipc_uint("ipc ttl").ipc_text("ipc identity passphrase")
    } else if tag == T_UNTRUST && n == 3 {
        c.ipc_digest().ipc_text("ipc identity passphrase")
    } else if tag == T_TRUST_LIST && n == 2 {
        c.ipc_text("ipc identity passphrase")
    } else if tag == T_ADD_SERVICE && n == 4 {
        c.ipc_digest().ipc_text("ipc service tag").ipc_text("ipc local address")
    } else if tag == T_REMOVE_SERVICE && n == 3 {
        c.ipc_digest().ipc_text("ipc service tag")
    } else if tag == T_FORWARD && n == 5 {
        c.ipc_digest().ipc_digest().ipc_text("ipc service tag").ipc_text("ipc local address")
    } else if tag == T_STOP_FORWARD && n == 2 {
        c.ipc_text("ipc local address")
    } else if tag == T_JOIN && n == 4 {
        c.ipc_text("ipc join link").ipc_text("ipc join name").ipc_text("ipc join passphrase")
    } else if tag == T_CREATE && n == 3 {
        c.ipc_text("ipc create name").ipc_text("ipc create passphrase")
    } else if tag == T_INVITE && n == 2 {
        c.ipc_digest()
    } else {
        c.fail(bad("ipc request unknown tag"))
    }
}

/// What is wrong with `b` as a request, or `None` where it is one.
pub open spec fn request_fault(b: Seq<u8>) -> Option<Error> {
    let start = Cur::at(b);
    let tagged = start.array(bad("ipc request"));
    let body = tagged.uint(bad("ipc request tag"));
    if body.bad is Some {
        body.bad
    } else {
        request_fields(body, tagged.peek_uint(), start.peek_array()).end(
            bad("ipc request trailing"),
        ).bad
    }
}

impl Request {
    /// Whether two requests are alike.
    pub open spec fn is_same(&self, other: &Request) -> bool {
        match self {
            Request::Subscribe => *other is Subscribe,
            Request::Post { channel_id, text } => {
                &&& *other matches Request::Post { channel_id: p, text: q }
                &&& *channel_id == p
                &&& text@ == q@
            },
            Request::Read { channel_id, since, limit } => {
                &&& *other matches Request::Read { channel_id: p, since: q, limit: r }
                &&& *channel_id == p
                &&& *since == q
                &&& *limit == r
            },
            Request::Order { channel_id } => {
                &&& *other matches Request::Order { channel_id: p }
                &&& *channel_id == p
            },
            Request::Roster { channel_id } => {
                &&& *other matches Request::Roster { channel_id: p }
                &&& *channel_id == p
            },
            Request::Rooms => *other is Rooms,
            Request::AddService { channel_id, service_tag, local } => {
                &&& *other matches Request::AddService { channel_id: p, service_tag: q, local: r }
                &&& *channel_id == p
                &&& service_tag@ == q@
                &&& local@ == r@
            },
            Request::RemoveService { channel_id, service_tag } => {
                &&& *other matches Request::RemoveService { channel_id: p, service_tag: q }
                &&& *channel_id == p
                &&& service_tag@ == q@
            },
            Request::Forward { channel_id, host, service_tag, local } => {
                &&& *other matches Request::Forward {
                    channel_id: p,
                    host: q,
                    service_tag: r,
                    local: s,
                }
                &&& *channel_id == p
                &&& *host == q
                &&& service_tag@ == r@
                &&& local@ == s@
            },
            Request::StopForward { local } => {
                &&& *other matches Request::StopForward { local: p }
                &&& local@ == p@
            },
            Request::Join { link, local_name, passphrase } => {
                &&& *other matches Request::Join { link: p, local_name: q, passphrase: r }
                &&& link@ == p@
                &&& local_name@ == q@
                &&& passphrase@ == r@
            },
            Request::Create { local_name, passphrase } => {
                &&& *other matches Request::Create { local_name: p, passphrase: q }
                &&& local_name@ == p@
                &&& passphrase@ == q@
            },
            Request::Invite { channel_id } => {
                &&& *other matches Request::Invite { channel_id: p }
                &&& *channel_id == p
            },
            Request::Trust { target, petname, identity_passphrase } => {
                &&& *other matches Request::Trust { target: p, petname: q, identity_passphrase: r }
                &&& *target == p
                &&& petname@ == q@
                &&& identity_passphrase@ == r@
            },
            Request::SetRetention { channel_id, ttl, identity_passphrase } => {
                &&& *other matches Request::SetRetention {
                    channel_id: p,
                    ttl: q,
                    identity_passphrase: r,
                }
                &&& *channel_id == p
                &&& *ttl == q
                &&& identity_passphrase@ == r@
            },
            Request::Untrust { target, identity_passphrase } => {
                &&& *other matches Request::Untrust { target: p, identity_passphrase: q }
                &&& *target == p
                &&& identity_passphrase@ == q@
            },
            Request::TrustList { identity_passphrase } => {
                &&& *other matches Request::TrustList { identity_passphrase: p }
                &&& identity_passphrase@ == p@
            },
        }
    }

    /// The items a request is written as.
    pub open spec fn toks(&self) -> Seq<Tok> {
        match self {
            Request::Subscribe => cbor::items().push(Tok::Array(1)).push(Tok::Uint(T_SUBSCRIBE)),
            Request::Post { channel_id, text } => cbor::items()
                .push(Tok::Array(3))
                .push(Tok::Uint(T_POST))
                .push(Tok::Bytes(channel_id@))
                .push(Tok::Text(text@)),
            Request::Read { channel_id, since, limit } => cbor::items()
                .push(Tok::Array(4))
                .push(Tok::Uint(T_READ))
                .push(Tok::Bytes(channel_id@))
                .push(Tok::Bytes(cbor::opt_bytes(*since)))
                .push(Tok::Uint(*limit)),
            Request::Order { channel_id } => cbor::items()
                .push(Tok::Array(2))
                .push(Tok::Uint(T_ORDER))
                .push(Tok::Bytes(channel_id@)),
            Request::Roster { channel_id } => cbor::items()
                .push(Tok::Array(2))
                .push(Tok::Uint(T_ROSTER))
                .push(Tok::Bytes(channel_id@)),
            Request::Rooms => cbor::items().push(Tok::Array(1)).push(Tok::Uint(T_ROOMS_REQ)),
            Request::AddService { channel_id, service_tag, local } => cbor::items()
                .push(Tok::Array(4))
                .push(Tok::Uint(T_ADD_SERVICE))
                .push(Tok::Bytes(channel_id@))
                .push(Tok::Text(service_tag@))
                .push(Tok::Text(local@)),
            Request::RemoveService { channel_id, service_tag } => cbor::items()
                .push(Tok::Array(3))
                .push(Tok::Uint(T_REMOVE_SERVICE))
                .push(Tok::Bytes(channel_id@))
                .push(Tok::Text(service_tag@)),
            Request::Forward { channel_id, host, service_tag, local } => cbor::items()
                .push(Tok::Array(5))
                .push(Tok::Uint(T_FORWARD))
                .push(Tok::Bytes(channel_id@))
                .push(Tok::Bytes(host@))
                .push(Tok::Text(service_tag@))
                .push(Tok::Text(local@)),
            Request::StopForward { local } => cbor::items()
                .push(Tok::Array(2))
                .push(Tok::Uint(T_STOP_FORWARD))
                .push(Tok::Text(local@)),
            Request::Join { link, local_name, passphrase } => cbor::items()
                .push(Tok::Array(4))
                .push(Tok::Uint(T_JOIN))
                .push(Tok::Text(link@))
                .push(Tok::Text(local_name@))
                .push(Tok::Text(passphrase@)),
            Request::Create { local_name, passphrase } => cbor::items()
                .push(Tok::Array(3))
                .push(Tok::Uint(T_CREATE))
                .push(Tok::Text(local_name@))
                .push(Tok::Text(passphrase@)),
            Request::Invite { channel_id } => cbor::items()
                .push(Tok::Array(2))
                .push(Tok::Uint(T_INVITE))
                .push(Tok::Bytes(channel_id@)),
            Request::Trust { target, petname, identity_passphrase } => cbor::items()
                .push(Tok::Array(4))
                .push(Tok::Uint(T_TRUST))
                .push(Tok::Bytes(target@))
                .push(Tok::Text(petname@))
                .push(Tok::Text(identity_passphrase@)),
            Request::SetRetention { channel_id, ttl, identity_passphrase } => cbor::items()
                .push(Tok::Array(4))
                .push(Tok::Uint(T_RETENTION))
                .push(Tok::Bytes(channel_id@))
                .push(Tok::Uint(*ttl))
                .push(Tok::Text(identity_passphrase@)),
            Request::Untrust { target, identity_passphrase } => cbor::items()
                .push(Tok::Array(3))
                .push(Tok::Uint(T_UNTRUST))
                .push(Tok::Bytes(target@))
                .push(Tok::Text(identity_passphrase@)),
            Request::TrustList { identity_passphrase } => cbor::items()
                .push(Tok::Array(2))
                .push(Tok::Uint(T_TRUST_LIST))
                .push(Tok::Text(identity_passphrase@)),
        }
    }

    /// The body of the request's frame.
    #[must_use]
    pub fn to_bytes(&self) -> (b: Vec<u8>)
        ensures
            b@ == cbor::enc(self.toks()),
    {
        let mut e = Encoder::new();
        match self {
            Request::Subscribe => {
                e.array(1);
                e.uint(T_SUBSCRIBE);
            },
            Request::Post { channel_id, text } => {
                e.array(3);
                e.uint(T_POST);
                e.digest(channel_id);
                e.text(text);
            },
            Request::Read { channel_id, since, limit } => {
                e.array(4);
                e.uint(T_READ);
                e.digest(channel_id);
                e.opt_digest(since);
                e.uint(*limit);
            },
            Request::Roster { channel_id } => {
                e.array(2);
                e.uint(T_ROSTER);
                e.digest(channel_id);
            },
            Request::Order { channel_id } => {
                e.array(2);
                e.uint(T_ORDER);
                e.digest(channel_id);
            },
            Request::Rooms => {
                e.array(1);
                e.uint(T_ROOMS_REQ);
            },
            Request::AddService { channel_id, service_tag, local } => {
                e.array(4);
                e.uint(T_ADD_SERVICE);
                e.digest(channel_id);
                e.text(service_tag);
                e.text(local);
            },
            Request::RemoveService { channel_id, service_tag } => {
                e.array(3);
                e.uint(T_REMOVE_SERVICE);
                e.digest(channel_id);
                e.text(service_tag);
            },
            Request::Forward { channel_id, host, service_tag, local } => {
                e.array(5);
                e.uint(T_FORWARD);
                e.digest(channel_id);
                e.digest(host);
                e.text(service_tag);
                e.text(local);
            },
            Request::StopForward { local } => {
                e.array(2);
                e.uint(T_STOP_FORWARD);
                e.text(local);
            },
            Request::Join { link, local_name, passphrase } => {
                e.array(4);
                e.uint(T_JOIN);
                e.text(link);
                e.text(local_name);
                e.text(passphrase);
            },
            Request::Create { local_name, passphrase } => {
                e.array(3);
                e.uint(T_CREATE);
                e.text(local_name);
                e.text(passphrase);
            },
            Request::Invite { channel_id } => {
                e.array(2);
                e.uint(T_INVITE);
                e.digest(channel_id);
            },
            Request::Trust { target, petname, identity_passphrase } => {
                e.array(4);
                e.uint(T_TRUST);
                e.digest(target);
                e.text(petname);
                e.text(identity_passphrase);
            },
            Request::SetRetention { channel_id, ttl, identity_passphrase } => {
                e.array(4);
                e.uint(T_RETENTION);
                e.digest(channel_id);
                e.uint(*ttl);
                e.text(identity_passphrase);
            },
            Request::Untrust { target, identity_passphrase } => {
                e.array(3);
                e.uint(T_UNTRUST);
                e.digest(target);
                e.text(identity_passphrase);
            },
            Request::TrustList { identity_passphrase } => {
                e.array(2);
                e.uint(T_TRUST_LIST);
                e.text(identity_passphrase);
            },
        }
        e.finish()
    }

    /// Reads the body of a request's frame.
    pub fn from_bytes(b: &[u8]) -> (r: Result<Request, Error>)
        ensures
            match r {
                Ok(req) => request_fault(b@) is None && req.toks() == cbor::toks_of(b@) && cbor::enc(
                    req.toks(),
                ) == b@,
                Err(e) => request_fault(b@) == Some(e),
            },
    {
        let mut d = Decoder::new(b);
        let n: u64 = d.array(Error::MalformedBundle("ipc request"))?;
        let tag: u64 = d.uint(Error::MalformedBundle("ipc request tag"))?;
        let req: Request = Self::read_fields(&mut d, tag, n)?;
        d.finish(Error::MalformedBundle("ipc request trailing"))?;
        Ok(req)
    }

    fn read_fields(d: &mut Decoder<'_>, tag: u64, n: u64) -> (r: Result<Request, Error>)
        requires
            old(d).wf(),
            old(d).seen() == cbor::items().push(Tok::Array(n)).push(Tok::Uint(tag)),
        ensures
            final(d).wf(),
            final(d).buffer() == old(d).buffer(),
            match r {
                Ok(req) => {
                    &&& final(d).cur() == request_fields(old(d).cur(), tag, n)
                    &&& final(d).seen() == req.toks()
                },
                Err(e) => request_fields(old(d).cur(), tag, n).bad == Some(e),
            },
    {
        if tag == T_SUBSCRIBE && n == 1 {
            Ok(Request::Subscribe)
        } else if tag == T_POST && n == 3 {
            let channel_id: Digest32 = digest(d)?;
            let text: String = text(d, "ipc post text")?;
            Ok(Request::Post { channel_id, text })
        } else if tag == T_READ && n == 4 {
            let channel_id: Digest32 = digest(d)?;
            let since: Option<Digest32> = d.opt_digest(
                Error::MalformedBundle("ipc cursor"),
                Error::MalformedBundle("ipc cursor length"),
            )?;
            let limit: u64 = uint(d, "ipc limit")?;
            Ok(Request::Read { channel_id, since, limit })
        } else if tag == T_ROSTER && n == 2 {
            let channel_id: Digest32 = digest(d)?;
            Ok(Request::Roster { channel_id })
        } else if tag == T_ORDER && n == 2 {
            let channel_id: Digest32 = digest(d)?;
            Ok(Request::Order { channel_id })
        } else if tag == T_ROOMS_REQ && n == 1 {
            Ok(Request::Rooms)
        } else if tag == T_TRUST && n == 4 {
            let target: Digest32 = digest(d)?;
            let petname: String = text(d, "ipc petname")?;
            let identity_passphrase: String = text(d, "ipc identity passphrase")?;
            Ok(Request::Trust { target, petname, identity_passphrase })
        } else if tag == T_RETENTION && n == 4 {
            let channel_id: Digest32 = digest(d)?;
            let ttl: u64 = uint(d, "ipc ttl")?;
            let identity_passphrase: String = text(d, "ipc identity passphrase")?;
            Ok(Request::SetRetention { channel_id, ttl, identity_passphrase })
        } else if tag == T_UNTRUST && n == 3 {
            let target: Digest32 = digest(d)?;
            let identity_passphrase: String = text(d, "ipc identity passphrase")?;
            Ok(Request::Untrust { target, identity_passphrase })
        } else if tag == T_TRUST_LIST && n == 2 {
            let identity_passphrase: String = text(d, "ipc identity passphrase")?;
            Ok(Request::TrustList { identity_passphrase })
        } else if tag == T_ADD_SERVICE && n == 4 {
            let channel_id: Digest32 = digest(d)?;
            let service_tag: String = text(d, "ipc service tag")?;
            let local: String = text(d, "ipc local address")?;
            Ok(Request::AddService { channel_id, service_tag, local })
        } else if tag == T_REMOVE_SERVICE && n == 3 {
            let channel_id: Digest32 = digest(d)?;
            let service_tag: String = text(d, "ipc service tag")?;
            Ok(Request::RemoveService { channel_id, service_tag })
        } else if tag == T_FORWARD && n == 5 {
            let channel_id: Digest32 = digest(d)?;
            let host: Digest32 = digest(d)?;
            let service_tag: String = text(d, "ipc service tag")?;
            let local: String = text(d, "ipc local address")?;
            Ok(Request::Forward { channel_id, host, service_tag, local })
        } else if tag == T_STOP_FORWARD && n == 2 {
            let local: String = text(d, "ipc local address")?;
            Ok(Request::StopForward { local })
        } else if tag == T_JOIN && n == 4 {
            let link: String = text(d, "ipc join link")?;
            let local_name: String = text(d, "ipc join name")?;
            let passphrase: String = text(d, "ipc join passphrase")?;
            Ok(Request::Join { link, local_name, passphrase })
        } else if tag == T_CREATE && n == 3 {
            let local_name: String = text(d, "ipc create name")?;
            let passphrase: String = text(d, "ipc create passphrase")?;
            Ok(Request::Create { local_name, passphrase })
        } else if tag == T_INVITE && n == 2 {
            let channel_id: Digest32 = digest(d)?;
            Ok(Request::Invite { channel_id })
        } else {
            Err(Error::MalformedBundle("ipc request unknown tag"))
        }
    }
}

/// Requests that are written alike are alike.
#[verifier::rlimit(40)]
proof fn lemma_request_same(a: Request, b: Request)
    requires
        a.toks() == b.toks(),
    ensures
        a.is_same(&b),
{
    assert(a.toks()[1] == b.toks()[1]);
    match (a, b) {
        (Request::Post { channel_id, text }, Request::Post { channel_id: p, text: q }) => {
            assert(a.toks()[2] == b.toks()[2]);
            assert(a.toks()[3] == b.toks()[3]);
            hash::lemma_digest_ext(channel_id, p);
        },
        (
            Request::Read { channel_id, since, limit },
            Request::Read { channel_id: p, since: q, limit: r },
        ) => {
            assert(a.toks()[2] == b.toks()[2]);
            assert(a.toks()[3] == b.toks()[3]);
            assert(a.toks()[4] == b.toks()[4]);
            hash::lemma_digest_ext(channel_id, p);
            cbor::lemma_opt_ext(since, q);
        },
        (Request::Order { channel_id }, Request::Order { channel_id: p }) => {
            assert(a.toks()[2] == b.toks()[2]);
            hash::lemma_digest_ext(channel_id, p);
        },
        (Request::Roster { channel_id }, Request::Roster { channel_id: p }) => {
            assert(a.toks()[2] == b.toks()[2]);
            hash::lemma_digest_ext(channel_id, p);
        },
        (
            Request::AddService { channel_id, service_tag, local },
            Request::AddService { channel_id: p, service_tag: q, local: r },
        ) => {
            assert(a.toks()[2] == b.toks()[2]);
            assert(a.toks()[3] == b.toks()[3]);
            assert(a.toks()[4] == b.toks()[4]);
            hash::lemma_digest_ext(channel_id, p);
        },
        (
            Request::RemoveService { channel_id, service_tag },
            Request::RemoveService { channel_id: p, service_tag: q },
        ) => {
            assert(a.toks()[2] == b.toks()[2]);
            assert(a.toks()[3] == b.toks()[3]);
            hash::lemma_digest_ext(channel_id, p);
        },
        (
            Request::Forward { channel_id, host, service_tag, local },
            Request::Forward { channel_id: p, host: q, service_tag: r, local: s },
        ) => {
            assert(a.toks()[2] == b.toks()[2]);
            assert(a.toks()[3] == b.toks()[3]);
            assert(a.toks()[4] == b.toks()[4]);
            assert(a.toks()[5] == b.toks()[5]);
            hash::lemma_digest_ext(channel_id, p);
            hash::lemma_digest_ext(host, q);
        },
        (Request::StopForward { local }, Request::StopForward { local: p }) => {
            assert(a.toks()[2] == b.toks()[2]);
        },
        (
            Request::Join { link, local_name, passphrase },
            Request::Join { link: p, local_name: q, passphrase: r },
        ) => {
            assert(a.toks()[2] == b.toks()[2]);
            assert(a.toks()[3] == b.toks()[3]);
            assert(a.toks()[4] == b.toks()[4]);
        },
        (
            Request::Create { local_name, passphrase },
            Request::Create { local_name: p, passphrase: q },
        ) => {
            assert(a.toks()[2] == b.toks()[2]);
            assert(a.toks()[3] == b.toks()[3]);
        },
        (Request::Invite { channel_id }, Request::Invite { channel_id: p }) => {
            assert(a.toks()[2] == b.toks()[2]);
            hash::lemma_digest_ext(channel_id, p);
        },
        (
            Request::Trust { target, petname, identity_passphrase },
            Request::Trust { target: p, petname: q, identity_passphrase: r },
        ) => {
            assert(a.toks()[2] == b.toks()[2]);
            assert(a.toks()[3] == b.toks()[3]);
            assert(a.toks()[4] == b.toks()[4]);
            hash::lemma_digest_ext(target, p);
        },
        (
            Request::SetRetention { channel_id, ttl, identity_passphrase },
            Request::SetRetention { channel_id: p, ttl: q, identity_passphrase: r },
        ) => {
            assert(a.toks()[2] == b.toks()[2]);
            assert(a.toks()[3] == b.toks()[3]);
            assert(a.toks()[4] == b.toks()[4]);
            hash::lemma_digest_ext(channel_id, p);
        },
        (
            Request::Untrust { target, identity_passphrase },
            Request::Untrust { target: p, identity_passphrase: q },
        ) => {
            assert(a.toks()[2] == b.toks()[2]);
            assert(a.toks()[3] == b.toks()[3]);
            hash::lemma_digest_ext(target, p);
        },
        (
            Request::TrustList { identity_passphrase },
            Request::TrustList { identity_passphrase: p },
        ) => {
            assert(a.toks()[2] == b.toks()[2]);
        },
        _ => {},
    }
}

/// What a client writes is what the node reads: the encoding of every request is
/// accepted, and whatever request is read from it is like the one that was written.
pub proof fn law_request_read_back(r: Request)
    requires
        cbor::all_encodable(r.toks()),
    ensures
        request_fault(cbor::enc(r.toks())) is None,
        cbor::toks_of(cbor::enc(r.toks())) == r.toks(),
        forall|q: Request| #[trigger]
            q.toks() == cbor::toks_of(cbor::enc(r.toks())) ==> q.is_same(&r),
{
    cbor::law_items_read_back(r.toks());
    assert forall|q: Request| #[trigger] q.toks() == r.toks() implies q.is_same(&r) by {
        lemma_request_same(q, r);
    }
}

/// A request with anything behind it is refused.
#[verifier::rlimit(60)]
pub proof fn law_request_trailing_is_refused(r: Request, more: Seq<u8>)
    requires
        cbor::all_encodable(r.toks()),
        more.len() > 0,
    ensures
        request_fault(cbor::enc(r.toks()) + more) == Some(bad("ipc request trailing")),
{
    let b = cbor::enc(r.toks()) + more;
    let rest = cbor::toks_of(more);
    cbor::law_front_read_back(r.toks(), more);
    cbor::lemma_toks_step(more);
    assert(Cur::at(b).toks =~= r.toks() + rest);
    let start = Cur::at(b);
    let tagged = start.array(bad("ipc request"));
    let body = tagged.uint(bad("ipc request tag"));
    assert(start.toks[0] == r.toks()[0]);
    assert(start.toks[1] == r.toks()[1]);
    assert(body.toks =~= r.toks().skip(2) + rest);
    let done = request_fields(body, tagged.peek_uint(), start.peek_array());
    assert(done.toks =~= rest && done.bad is None);
}

/// A request has one encoding only: two buffers that are read as requests with the
/// same fields are the same buffer.
pub proof fn law_request_is_canonical(a: Seq<u8>, b: Seq<u8>)
    requires
        request_fault(a) is None,
        request_fault(b) is None,
        cbor::toks_of(a) == cbor::toks_of(b),
    ensures
        a == b,
{
    cbor::law_clean_is_canonical(a);
    cbor::law_clean_is_canonical(b);
}

} // verus!
