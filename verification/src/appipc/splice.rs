//! A stream carried over a connection of the control socket: its frames where there are
//! datagrams, how it ends, and what a client makes of the node's answers.

use vstd::prelude::*;

use crate::app::hub::{AppIncoming, AppInfo};
use crate::appipc::{self, AppReply};
use crate::cbor;
use crate::error::Error;
use crate::ipc::conn::{length_bytes, length_of};

verus! {

/// The kind of a frame of stream bytes.
pub const K_DATA: u8 = 0;

/// The kind of a frame with one datagram.
pub const K_DATAGRAM: u8 = 1;

/// The kind of the frame that ends a half.
pub const K_FIN: u8 = 2;

/// The largest frame.
pub const MAX_SPLICE_FRAME: usize = 71680;

/// One frame of a stream with datagrams.
#[derive(Debug, PartialEq, Eq)]
pub enum SpliceFrame {
    /// Bytes of the stream.
    Data(Vec<u8>),
    /// One datagram.
    Datagram(Vec<u8>),
    /// The sender's half of the stream has ended.
    Fin,
}

impl SpliceFrame {
    /// The kind.
    pub open spec fn kind(&self) -> u8 {
        match *self {
            SpliceFrame::Data(_) => K_DATA,
            SpliceFrame::Datagram(_) => K_DATAGRAM,
            SpliceFrame::Fin => K_FIN,
        }
    }

    /// What the frame carries.
    pub open spec fn payload(&self) -> Seq<u8> {
        match *self {
            SpliceFrame::Data(d) => d@,
            SpliceFrame::Datagram(d) => d@,
            SpliceFrame::Fin => Seq::empty(),
        }
    }

    /// The frame behind its length: the kind, then what it carries.
    pub open spec fn body(&self) -> Seq<u8> {
        seq![self.kind()] + self.payload()
    }
}

/// A frame as bytes: its length, its kind, and what it carries.
pub fn write_splice(frame: &SpliceFrame) -> (r: Result<Vec<u8>, Error>)
    ensures
        match r {
            Ok(b) => {
                &&& frame.body().len() <= u32::MAX
                &&& b@ == cbor::be(frame.body().len(), 4) + frame.body()
            },
            Err(e) => frame.body().len() > u32::MAX && e == Error::SizeLimitExceeded("splice"),
        },
{
    let mut rest: Vec<u8> = Vec::new();
    let kind: u8 = match frame {
        SpliceFrame::Data(d) => {
            rest = vstd::slice::slice_to_vec(d.as_slice());
            K_DATA
        },
        SpliceFrame::Datagram(d) => {
            rest = vstd::slice::slice_to_vec(d.as_slice());
            K_DATAGRAM
        },
        SpliceFrame::Fin => K_FIN,
    };
    let n: usize = rest.len();
    assert(rest@ =~= frame.payload());
    if n as u64 >= 0xffff_ffff {
        return Err(Error::SizeLimitExceeded("splice"));
    }
    let head: [u8; 4] = length_bytes(n as u32 + 1);
    let mut b: Vec<u8> = vstd::slice::slice_to_vec(head.as_slice());
    b.push(kind);
    b.append(&mut rest);
    assert(b@ =~= cbor::be(frame.body().len(), 4) + frame.body());
    Ok(b)
}

/// How long a frame is behind its length, from the four bytes of that.
pub fn splice_length(head: &[u8; 4]) -> (r: Result<usize, Error>)
    ensures
        match r {
            Ok(n) => n == cbor::value(head@) && 0 < n <= MAX_SPLICE_FRAME,
            Err(e) => {
                &&& cbor::value(head@) == 0 || cbor::value(head@) > MAX_SPLICE_FRAME
                &&& e == Error::SizeLimitExceeded("splice frame")
            },
        },
{
    let n: u32 = length_of(head);
    if n == 0 || n > MAX_SPLICE_FRAME as u32 {
        return Err(Error::SizeLimitExceeded("splice frame"));
    }
    Ok(n as usize)
}

/// Reads a frame behind its length.
pub fn read_splice(body: &[u8]) -> (r: Result<SpliceFrame, Error>)
    requires
        body@.len() > 0,
    ensures
        match r {
            Ok(f) => f.kind() == body@[0] && (f.payload() == body@.skip(1) || f is Fin),
            Err(e) => body@[0] > K_FIN && e == Error::MalformedBundle("splice kind"),
        },
{
    let kind: u8 = body[0];
    let rest: Vec<u8> = vstd::slice::slice_to_vec(
        vstd::slice::slice_subrange(body, 1, body.len()),
    );
    assert(rest@ =~= body@.skip(1));
    if kind == K_DATA {
        Ok(SpliceFrame::Data(rest))
    } else if kind == K_DATAGRAM {
        Ok(SpliceFrame::Datagram(rest))
    } else if kind == K_FIN {
        Ok(SpliceFrame::Fin)
    } else {
        Err(Error::MalformedBundle("splice kind"))
    }
}

/// A frame that is not too long is read back as it was written: its length is accepted,
/// and what stands behind it gives the same kind and the same contents.
pub proof fn law_splice_read_back(f: SpliceFrame)
    requires
        f.body().len() <= MAX_SPLICE_FRAME,
    ensures
        cbor::value(cbor::be(f.body().len(), 4)) == f.body().len(),
        0 < f.body().len(),
        f.body()[0] == f.kind(),
        f.body().skip(1) == f.payload(),
        f.kind() <= K_FIN,
{
    crate::ipc::conn::law_length_read_back(f.body().len() as u32);
    assert(f.body().skip(1) =~= f.payload());
}

// ---- carrying a stream -------------------------------------------------------

/// How far a stream over a connection has come.
#[derive(Debug, PartialEq, Eq)]
pub struct Splice {
    /// Whether it is carried in frames, because there are datagrams.
    pub framed: bool,
    /// Whether the peer's half has ended.
    pub peer_done: bool,
    /// Whether the client's half has ended.
    pub client_done: bool,
    /// Whether the datagram flow is still open.
    pub flow_open: bool,
}

/// What happens on it.
#[derive(Debug, PartialEq, Eq)]
pub enum SpliceEvent {
    /// The peer sent bytes, or ended its half, or the stream failed.
    Peer(Result<Option<Vec<u8>>, Error>),
    /// A datagram arrived, or the flow ended.
    Datagram(Option<Vec<u8>>),
    /// The client's half ended, well or not; `None` where its task is gone.
    Client(Option<Result<(), Error>>),
    /// Trust was withdrawn.
    Withdrawn,
}

/// What is done about it.
#[derive(Debug, PartialEq, Eq)]
pub enum SpliceMove {
    /// The client gets a frame.
    Frame(SpliceFrame),
    /// The client gets bytes as they are.
    Bytes(Vec<u8>),
    /// The connection's write side is shut.
    Shut,
    /// Nothing.
    Wait,
    /// The connection ends with a failure.
    End(Error),
}

/// What is done about an event.
pub open spec fn moved(framed: bool, ev: SpliceEvent) -> SpliceMove {
    match ev {
        SpliceEvent::Peer(Ok(Some(d))) => if framed {
            SpliceMove::Frame(SpliceFrame::Data(d))
        } else {
            SpliceMove::Bytes(d)
        },
        SpliceEvent::Peer(Ok(None)) => if framed {
            SpliceMove::Frame(SpliceFrame::Fin)
        } else {
            SpliceMove::Shut
        },
        SpliceEvent::Peer(Err(e)) => SpliceMove::End(e),
        SpliceEvent::Datagram(Some(d)) => SpliceMove::Frame(SpliceFrame::Datagram(d)),
        SpliceEvent::Datagram(None) => SpliceMove::Wait,
        SpliceEvent::Client(Some(Ok(_))) => SpliceMove::Wait,
        SpliceEvent::Client(Some(Err(e))) => SpliceMove::End(e),
        SpliceEvent::Client(None) => SpliceMove::End(Error::MalformedBundle("ipc splice")),
        SpliceEvent::Withdrawn => SpliceMove::End(
            Error::TunnelRevoked("app: trust was withdrawn"),
        ),
    }
}

impl Splice {
    /// A flow is open only where the stream is framed.
    pub open spec fn wf(&self) -> bool {
        self.flow_open ==> self.framed
    }

    /// A stream that has just come up.
    pub fn new(info: &AppInfo) -> (s: Splice)
        ensures
            s.wf(),
            s.framed == info.datagrams,
            s.flow_open == info.datagrams,
            !s.peer_done,
            !s.client_done,
    {
        Splice {
            framed: info.datagrams,
            peer_done: false,
            client_done: false,
            flow_open: info.datagrams,
        }
    }

    /// Whether both halves have ended: the connection ends well.
    pub fn over(&self) -> (r: bool)
        ensures
            r == (self.peer_done && self.client_done),
    {
        self.peer_done && self.client_done
    }

    /// Whether an event is one that can still happen.
    pub open spec fn awaits(&self, ev: SpliceEvent) -> bool {
        match ev {
            SpliceEvent::Peer(_) => !self.peer_done,
            SpliceEvent::Datagram(_) => self.flow_open,
            SpliceEvent::Client(_) => !self.client_done,
            SpliceEvent::Withdrawn => true,
        }
    }

    /// Takes up an event.
    pub fn step(&mut self, ev: SpliceEvent) -> (m: SpliceMove)
        requires
            old(self).wf(),
            old(self).awaits(ev),
        ensures
            final(self).wf(),
            m == moved(old(self).framed, ev),
            final(self).framed == old(self).framed,
            final(self).peer_done == (old(self).peer_done || (ev matches SpliceEvent::Peer(
                r,
            ) && r == Ok::<Option<Vec<u8>>, Error>(None))),
            final(self).client_done == (old(self).client_done || (ev matches SpliceEvent::Client(
                r,
            ) && r matches Some(x) && x is Ok)),
            final(self).flow_open == (old(self).flow_open && ev != SpliceEvent::Datagram(None)),
    {
        match ev {
            SpliceEvent::Peer(Ok(Some(d))) => if self.framed {
                SpliceMove::Frame(SpliceFrame::Data(d))
            } else {
                SpliceMove::Bytes(d)
            },
            SpliceEvent::Peer(Ok(None)) => {
                self.peer_done = true;
                if self.framed {
                    SpliceMove::Frame(SpliceFrame::Fin)
                } else {
                    SpliceMove::Shut
                }
            },
            SpliceEvent::Peer(Err(e)) => SpliceMove::End(e),
            SpliceEvent::Datagram(Some(d)) => SpliceMove::Frame(SpliceFrame::Datagram(d)),
            SpliceEvent::Datagram(None) => {
                self.flow_open = false;
                SpliceMove::Wait
            },
            SpliceEvent::Client(Some(Ok(_))) => {
                self.client_done = true;
                SpliceMove::Wait
            },
            SpliceEvent::Client(Some(Err(e))) => SpliceMove::End(e),
            SpliceEvent::Client(None) => SpliceMove::End(Error::MalformedBundle("ipc splice")),
            SpliceEvent::Withdrawn => SpliceMove::End(
                Error::TunnelRevoked("app: trust was withdrawn"),
            ),
        }
    }
}

// ---- the client's side -------------------------------------------------------

/// What a client reads of the node's answer: `None` where the connection was closed. `addr`
/// is what the address that it names parses to, here and below.
pub fn ask(read: Option<Vec<u8>>, addr: Option<String>) -> (r: Result<AppReply, Error>)
    ensures
        match (read, r) {
            (None, _) => r == Err::<AppReply, Error>(
                Error::MalformedBundle("ipc closed before reply"),
            ),
            (Some(b), Ok(a)) => {
                &&& appipc::reply_fault(b@, crate::link::opt_text(addr)) is None
                &&& a.read_from(cbor::toks_of(b@))
            },
            (Some(b), Err(e)) => appipc::reply_fault(b@, crate::link::opt_text(addr)) == Some(e),
        },
{
    match read {
        None => Err(Error::MalformedBundle("ipc closed before reply")),
        Some(b) => AppReply::from_bytes(b.as_slice(), addr),
    }
}

/// What the answer to a request to listen means.
pub fn listening(answer: AppReply) -> (r: Result<(), Error>)
    ensures
        match answer {
            AppReply::Listening => r is Ok,
            AppReply::Error(reason) => r == Err::<(), Error>(Error::AppRefused(reason)),
            _ => r == Err::<(), Error>(appipc::bad_reply()),
        },
{
    match answer {
        AppReply::Listening => Ok(()),
        AppReply::Error(reason) => Err(Error::AppRefused(reason)),
        _ => Err(Error::MalformedBundle("ipc app reply")),
    }
}

/// What the answer to a request to accept or to open means: the stream, or why not.
pub fn spliced(answer: AppReply) -> (r: Result<AppInfo, Error>)
    ensures
        match answer {
            AppReply::Splice(info) => r == Ok::<AppInfo, Error>(info),
            AppReply::Error(reason) => r == Err::<AppInfo, Error>(Error::AppRefused(reason)),
            _ => r == Err::<AppInfo, Error>(appipc::bad_reply()),
        },
{
    match answer {
        AppReply::Splice(info) => Ok(info),
        AppReply::Error(reason) => Err(Error::AppRefused(reason)),
        _ => Err(Error::MalformedBundle("ipc app reply")),
    }
}

/// The next announcement that a listener gets, or none once the node has gone.
pub fn next_incoming(read: Option<Vec<u8>>, addr: Option<String>) -> (r: Result<Option<AppIncoming>, Error>)
    ensures
        match (read, r) {
            (None, _) => r == Ok::<Option<AppIncoming>, Error>(None),
            (Some(b), Ok(i)) => {
                &&& i is Some
                &&& appipc::reply_fault(b@, crate::link::opt_text(addr)) is None
                &&& AppReply::Incoming(i->Some_0).read_from(cbor::toks_of(b@))
            },
            (Some(b), Err(e)) => match appipc::reply_fault(b@, crate::link::opt_text(addr)) {
                Some(x) => e == x,
                None => {
                    &&& e == Error::MalformedBundle("ipc app listener")
                    &&& exists|a: AppReply|
                        !(a is Incoming) && #[trigger] a.read_from(cbor::toks_of(b@))
                },
            },
        },
{
    let b: Vec<u8> = match &read {
        None => {
            return Ok(None);
        },
        Some(b) => vstd::slice::slice_to_vec(b.as_slice()),
    };
    let a: AppReply = AppReply::from_bytes(b.as_slice(), addr)?;
    let ghost whole = a;
    assert(whole.read_from(cbor::toks_of(read->Some_0@)));
    match a {
        AppReply::Incoming(i) => Ok(Some(i)),
        _ => Err(Error::MalformedBundle("ipc app listener")),
    }
}

/// What comes from the peer goes to the client as it came, framed exactly where the stream
/// is; its end is told, and nothing is ever dropped of it.
pub proof fn law_peer_bytes_reach_the_client(framed: bool, d: Vec<u8>, e: Error)
    ensures
        moved(true, SpliceEvent::Peer(Ok(Some(d)))) == SpliceMove::Frame(SpliceFrame::Data(d)),
        moved(false, SpliceEvent::Peer(Ok(Some(d)))) == SpliceMove::Bytes(d),
        moved(true, SpliceEvent::Peer(Ok(None))) == SpliceMove::Frame(SpliceFrame::Fin),
        moved(false, SpliceEvent::Peer(Ok(None))) == SpliceMove::Shut,
        moved(framed, SpliceEvent::Datagram(Some(d))) == SpliceMove::Frame(
            SpliceFrame::Datagram(d),
        ),
        moved(framed, SpliceEvent::Peer(Err(e))) == SpliceMove::End(e),
{
}

/// A connection ends at once exactly if trust was withdrawn, the peer's half failed, or the
/// client's did.
pub proof fn law_connection_ends_exactly(framed: bool, ev: SpliceEvent)
    ensures
        moved(framed, ev) is End <==> {
            ||| ev is Withdrawn
            ||| ev matches SpliceEvent::Peer(r) && r is Err
            ||| ev matches SpliceEvent::Client(r) && (r is None || r->Some_0 is Err)
        },
{
}

/// A half that has ended is not awaited again, and a withdrawal always is.
pub proof fn law_ended_half_is_not_awaited(s: Splice, ev: SpliceEvent)
    ensures
        s.awaits(SpliceEvent::Withdrawn),
        ev is Peer ==> (s.awaits(ev) <==> !s.peer_done),
        ev is Client ==> (s.awaits(ev) <==> !s.client_done),
        ev is Datagram ==> (s.awaits(ev) <==> s.flow_open),
{
}

} // verus!
