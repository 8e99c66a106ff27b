//! A connection to the control socket: the length in front of a frame, what the node does
//! with a first and a later request, and what a client makes of the answers.

use vstd::prelude::*;

use crate::actor::EventStreamItem;
use crate::appipc::{self, AppRequest};
use crate::cbor;
use crate::error::Error;
use crate::hash::Digest32;
use crate::ipc::frame::{self, Frame};
use crate::ipc::request::{self, Request};
use crate::ipc::{MAX_FRAME, PROTOCOL_VERSION};

verus! {

// ---- lengths -----------------------------------------------------------------

/// A length as four bytes, the highest first.
pub fn length_bytes(n: u32) -> (b: [u8; 4])
    ensures
        b@ == cbor::be(n as nat, 4),
{
    let b: [u8; 4] = [
        (n / 16_777_216) as u8,
        ((n / 65_536) % 256) as u8,
        ((n / 256) % 256) as u8,
        (n % 256) as u8,
    ];
    proof {
        reveal_with_fuel(cbor::be, 5);
        let m = n as nat;
        assert(m / 256 / 256 == m / 65_536);
        assert(m / 256 / 256 / 256 == m / 16_777_216);
        assert(b@ =~= cbor::be(m, 4));
    }
    b
}

/// The length that four bytes give.
pub fn length_of(b: &[u8; 4]) -> (n: u32)
    ensures
        n == cbor::value(b@),
{
    proof {
        reveal_with_fuel(cbor::value, 5);
        let s = b@;
        assert(s.drop_last().drop_last().drop_last().drop_last() =~= Seq::empty());
        assert(s.last() == s[3]);
        assert(s.drop_last().last() == s[2]);
        assert(s.drop_last().drop_last().last() == s[1]);
        assert(s.drop_last().drop_last().drop_last().last() == s[0]);
    }
    (b[0] as u32) * 16_777_216 + (b[1] as u32) * 65_536 + (b[2] as u32) * 256 + (b[3] as u32)
}

/// A length is read back as it was written.
pub proof fn law_length_read_back(n: u32)
    ensures
        cbor::value(cbor::be(n as nat, 4)) == n,
        cbor::be(n as nat, 4).len() == 4,
{
    cbor::lemma_radix_values();
    cbor::lemma_value_be(n as nat, 4);
    cbor::lemma_be_len(n as nat, 4);
}

/// A frame as it goes over the socket: its length, then its body.
pub fn write_frame(body: &[u8]) -> (r: Result<Vec<u8>, Error>)
    ensures
        match r {
            Ok(b) => body@.len() <= u32::MAX && b@ == cbor::be(body@.len(), 4) + body@,
            Err(e) => body@.len() > u32::MAX && e == Error::SizeLimitExceeded("ipc frame length"),
        },
{
    let n: usize = body.len();
    if n as u64 > 0xffff_ffff {
        return Err(Error::SizeLimitExceeded("ipc frame length"));
    }
    let head: [u8; 4] = length_bytes(n as u32);
    let mut b: Vec<u8> = vstd::slice::slice_to_vec(head.as_slice());
    let mut rest: Vec<u8> = vstd::slice::slice_to_vec(body);
    b.append(&mut rest);
    Ok(b)
}

/// How long a body is, from the four bytes in front of it. No client can announce more
/// than [`MAX_FRAME`].
pub fn read_frame(head: &[u8; 4]) -> (r: Result<usize, Error>)
    ensures
        match r {
            Ok(n) => n == cbor::value(head@) && n <= MAX_FRAME,
            Err(e) => cbor::value(head@) > MAX_FRAME && e == Error::SizeLimitExceeded(
                "ipc frame length",
            ),
        },
{
    let n: u32 = length_of(head);
    if n > MAX_FRAME as u32 {
        return Err(Error::SizeLimitExceeded("ipc frame length"));
    }
    Ok(n as usize)
}

// ---- the node's side ---------------------------------------------------------

/// What the node says first.
pub fn greeting(me: Option<Digest32>) -> (f: Frame)
    ensures
        f == (Frame::Hello { protocol: PROTOCOL_VERSION, me }),
{
    Frame::Hello { protocol: PROTOCOL_VERSION, me }
}

/// What a body on a connection leads to.
#[derive(Debug)]
pub enum ClientStep {
    /// The status is answered, and the connection serves on.
    Status,
    /// The connection becomes an application's for the rest of its life.
    App(AppRequest),
    /// The connection is told why and ends: what cannot be understood must not be left
    /// believing that it was served.
    Refuse(Error),
    /// The connection becomes an event stream. The subscription is taken before it is
    /// acknowledged, so that nothing in between is missed.
    Subscribe,
    /// The request is answered, and the connection serves on.
    Answer(Request),
}

/// Classifies a body: a status request comes first, an application's second, any other
/// third. `status` says whether the body is a status request.
pub fn serve_client(body: &[u8], status: bool) -> (r: ClientStep)
    ensures
        match r {
            ClientStep::Status => status,
            ClientStep::App(a) => {
                &&& !status && appipc::is_app(body@)
                &&& appipc::request_fault(body@) is None
                &&& a.read_from(cbor::toks_of(body@))
            },
            ClientStep::Subscribe => {
                &&& !status && !appipc::is_app(body@)
                &&& request::request_fault(body@) is None
                &&& cbor::toks_of(body@) == Request::Subscribe.toks()
            },
            ClientStep::Answer(q) => {
                &&& !status && !appipc::is_app(body@)
                &&& request::request_fault(body@) is None
                &&& q.toks() == cbor::toks_of(body@)
                &&& q !is Subscribe
            },
            ClientStep::Refuse(e) => {
                &&& !status
                &&& (if appipc::is_app(body@) {
                    appipc::request_fault(body@)
                } else {
                    request::request_fault(body@)
                }) == Some(e)
            },
        },
{
    if status {
        return ClientStep::Status;
    }
    match AppRequest::parse(body) {
        Some(Ok(a)) => {
            return ClientStep::App(a);
        },
        Some(Err(e)) => {
            return ClientStep::Refuse(e);
        },
        None => {},
    }
    match Request::from_bytes(body) {
        Err(e) => ClientStep::Refuse(e),
        Ok(Request::Subscribe) => ClientStep::Subscribe,
        Ok(q) => ClientStep::Answer(q),
    }
}

/// The frame that an item of the event stream is sent as.
pub fn pump(item: EventStreamItem) -> (f: Frame)
    ensures
        f == (match item {
            EventStreamItem::Event(ev) => Frame::Event(ev),
            EventStreamItem::Lagged(missed) => Frame::Lagged { missed },
        }),
{
    match item {
        EventStreamItem::Event(ev) => Frame::Event(ev),
        EventStreamItem::Lagged(missed) => Frame::Lagged { missed },
    }
}

// ---- the client's side -------------------------------------------------------

/// A client of the control socket, behind the greeting.
#[derive(Debug, PartialEq, Eq)]
pub struct IpcClient {
    /// Who the node says it is.
    pub me: Option<Digest32>,
}

/// What a client makes of a first frame that decodes.
pub open spec fn greeted(f: Frame) -> Result<IpcClient, Error> {
    match f {
        Frame::Hello { protocol, me } => if protocol == PROTOCOL_VERSION {
            Ok(IpcClient { me })
        } else {
            Err(Error::MalformedBundle("ipc protocol version"))
        },
        _ => Err(Error::MalformedBundle("ipc expected hello")),
    }
}

impl IpcClient {
    /// What a client makes of the first frame, `None` where the connection was closed. A
    /// client that sees another protocol disconnects rather than guess. `addr` is what the
    /// address that the frame names parses to, here and below.
    pub fn open(read: Option<Vec<u8>>, addr: Option<String>) -> (r: Result<IpcClient, Error>)
        ensures
            match read {
                None => r == Err::<IpcClient, Error>(
                    Error::MalformedBundle("ipc closed before hello"),
                ),
                Some(b) => match frame::frame_fault(b@, crate::link::opt_text(addr)) {
                    Some(e) => r == Err::<IpcClient, Error>(e),
                    None => exists|f: Frame| #[trigger]
                        f.read_from(cbor::toks_of(b@), crate::link::opt_text(addr)) && r == greeted(f),
                },
            },
    {
        let b: Vec<u8> = match &read {
            None => {
                return Err(Error::MalformedBundle("ipc closed before hello"));
            },
            Some(b) => vstd::slice::slice_to_vec(b.as_slice()),
        };
        let f: Frame = Frame::from_bytes(b.as_slice(), addr)?;
        let ghost whole = f;
        assert(whole.read_from(
            cbor::toks_of(read->Some_0@),
            crate::link::opt_text(addr),
        ));
        match f {
            Frame::Hello { protocol, me } => if protocol == PROTOCOL_VERSION {
                Ok(IpcClient { me })
            } else {
                Err(Error::MalformedBundle("ipc protocol version"))
            },
            _ => Err(Error::MalformedBundle("ipc expected hello")),
        }
    }

    /// Who the node says it is, which lets a client tell its own entries from others'.
    #[must_use]
    pub fn me(&self) -> (d: Option<Digest32>)
        ensures
            d == self.me,
    {
        self.me
    }

    /// What a client makes of the answer to a request. A refusal is an answer: the
    /// connection stays usable for the next question.
    pub fn request(read: Option<Vec<u8>>, addr: Option<String>) -> (r: Result<Frame, Error>)
        ensures
            match (read, r) {
                (None, _) => r == Err::<Frame, Error>(
                    Error::MalformedBundle("ipc closed before reply"),
                ),
                (Some(b), Ok(f)) => frame::frame_fault(b@, crate::link::opt_text(addr)) is None && f.read_from(
                    cbor::toks_of(b@),
                    crate::link::opt_text(addr),
                ),
                (Some(b), Err(e)) => frame::frame_fault(b@, crate::link::opt_text(addr)) == Some(e),
            },
    {
        match read {
            None => Err(Error::MalformedBundle("ipc closed before reply")),
            Some(b) => Frame::from_bytes(b.as_slice(), addr),
        }
    }

    /// What a client makes of the answer to a subscription.
    pub fn subscribe(answer: Frame) -> (r: Result<(), Error>)
        ensures
            match answer {
                Frame::Done => r is Ok,
                Frame::Error { .. } => r == Err::<(), Error>(
                    Error::MalformedBundle("ipc subscribe refused"),
                ),
                _ => r == Err::<(), Error>(
                    Error::MalformedBundle("ipc unexpected subscribe reply"),
                ),
            },
    {
        match answer {
            Frame::Done => Ok(()),
            Frame::Error { .. } => Err(Error::MalformedBundle("ipc subscribe refused")),
            _ => Err(Error::MalformedBundle("ipc unexpected subscribe reply")),
        }
    }

    /// The next frame of an event stream, or none once the node has gone.
    pub fn next(read: Option<Vec<u8>>, addr: Option<String>) -> (r: Result<Option<Frame>, Error>)
        ensures
            match (read, r) {
                (None, _) => r == Ok::<Option<Frame>, Error>(None),
                (Some(b), Ok(f)) => {
                    &&& f is Some
                    &&& frame::frame_fault(b@, crate::link::opt_text(addr)) is None
                    &&& f->Some_0.read_from(
                        cbor::toks_of(b@),
                        crate::link::opt_text(addr),
                    )
                },
                (Some(b), Err(e)) => frame::frame_fault(b@, crate::link::opt_text(addr)) == Some(e),
            },
    {
        match read {
            None => Ok(None),
            Some(b) => {
                let f: Frame = Frame::from_bytes(b.as_slice(), addr)?;
                Ok(Some(f))
            },
        }
    }
}

/// A client of this build accepts the greeting of a node of this build, and learns from it
/// who the node is.
pub proof fn law_greeting_is_accepted(me: Option<Digest32>, f: Frame)
    requires
        f == (Frame::Hello { protocol: PROTOCOL_VERSION, me }),
    ensures
        frame::frame_fault(cbor::enc(f.toks()), None) is None,
        greeted(f) == Ok::<IpcClient, Error>(IpcClient { me }),
{
    let ts = f.toks();
    assert forall|i: int| 0 <= i < ts.len() implies cbor::encodable(#[trigger] ts[i]) by {}
    crate::ipc::readback::law_frame_read_back(f, None);
}

/// A client takes a node's first frame for a greeting exactly if it is one, of the protocol
/// that the client speaks.
pub proof fn law_greeting_is_accepted_exactly(f: Frame)
    ensures
        greeted(f) is Ok <==> (f matches Frame::Hello { protocol, .. } && protocol
            == PROTOCOL_VERSION),
        f matches Frame::Hello { protocol, me } ==> (greeted(f) is Ok ==> greeted(f)->Ok_0.me == me),
{
}

} // verus!
