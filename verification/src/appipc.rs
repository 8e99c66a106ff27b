//! Application streams over the node's control socket.
//!
//! A connection whose first request is one of these belongs to an application for its
//! whole life: it becomes a listener, or it carries one stream. After the handshake a
//! stream without datagrams is raw bytes both ways; one with datagrams is frames that say
//! which of the two they carry.

use vstd::prelude::*;

use crate::app::hub::{AppIncoming, AppInfo};
use crate::app::{self, malformed_error, put_labels, take_labels, MAX_LABELS};
use crate::cbor::{self, Cur, Decoder, Encoder, Tok};
use crate::error::Error;
use crate::hash::Digest32;
use crate::ipc::frame::{self, Frame};
use crate::link::scan;

pub mod splice;

verus! {

/// Tag of a request to listen.
pub const T_APP_LISTEN: u64 = 2201;

/// Tag of a request to accept.
pub const T_APP_ACCEPT: u64 = 2202;

/// Tag of a request to open.
pub const T_APP_OPEN: u64 = 2203;

/// Tag of the answer that the program is listed.
pub const T_APP_LISTENING: u64 = 2210;

/// Tag of an announcement.
pub const T_APP_INCOMING: u64 = 2211;

/// Tag of the answer that the stream is up.
pub const T_APP_SPLICE: u64 = 2212;

/// An application's request, the first frame of its connection.
#[derive(Debug, PartialEq, Eq)]
pub enum AppRequest {
    /// Registers a listener.
    Listen {
        /// The room, or `None` for any room.
        channel_id: Option<Digest32>,
        /// The label.
        label: String,
    },
    /// Accepts an incoming stream.
    Accept {
        /// The number it was announced under.
        id: u64,
    },
    /// Opens a stream.
    Open {
        /// The room it belongs to.
        channel_id: Digest32,
        /// The node to reach.
        peer: Digest32,
        /// The labels, in order of preference.
        labels: Vec<String>,
        /// Whether to bind a datagram flow.
        datagrams: bool,
    },
}

/// What stands in front of the labels of a request to open.
pub open spec fn open_front(channel_id: Seq<u8>, peer: Seq<u8>, n: u64) -> Seq<Tok> {
    cbor::items().push(Tok::Array(5)).push(Tok::Uint(T_APP_OPEN)).push(
        Tok::Bytes(channel_id),
    ).push(Tok::Bytes(peer)).push(Tok::Array(n))
}

/// A reader behind the fields of a request with this tag and arity.
pub open spec fn request_fields(c: Cur, tag: u64, n: u64) -> Cur {
    let e = app::malformed(false);
    if tag == T_APP_LISTEN && n == 3 {
        c.opt_digest(e, e).text(e)
    } else if tag == T_APP_ACCEPT && n == 2 {
        c.uint(e)
    } else if tag == T_APP_OPEN && n == 5 {
        let c1 = c.digest(e, e).digest(e, e);
        let k = c1.peek_array();
        cbor::many(
            c1.array(e).check(k <= MAX_LABELS, e),
            k as nat,
            app::label_step(false),
        ).uint(e)
    } else {
        c.fail(e)
    }
}

/// Whether `b` is an application's request at all.
pub open spec fn is_app(b: Seq<u8>) -> bool {
    let e = cbor::raw();
    let c1 = Cur::at(b).array(e);
    c1.uint(e).bad is None && T_APP_LISTEN <= c1.peek_uint() <= T_APP_OPEN
}

/// What is wrong with an application's request, or `None`.
pub open spec fn request_fault(b: Seq<u8>) -> Option<Error> {
    let e = cbor::raw();
    let c0 = Cur::at(b);
    let c1 = c0.array(e);
    request_fields(c1.uint(e), c1.peek_uint(), c0.peek_array()).end(app::malformed(false)).bad
}

impl AppRequest {
    /// Whether two requests are alike.
    pub open spec fn is_same(&self, other: &AppRequest) -> bool {
        match (*self, *other) {
            (
                AppRequest::Listen { channel_id, label },
                AppRequest::Listen { channel_id: p, label: q },
            ) => channel_id == p && label@ == q@,
            (AppRequest::Accept { id }, AppRequest::Accept { id: p }) => id == p,
            (
                AppRequest::Open { channel_id, peer, labels, datagrams },
                AppRequest::Open { channel_id: p, peer: q, labels: r, datagrams: s },
            ) => {
                &&& channel_id == p
                &&& peer == q
                &&& scan::texts(labels@) == scan::texts(r@)
                &&& datagrams == s
            },
            _ => false,
        }
    }

    /// What a request writes, with `flag` where it says whether datagrams are asked for.
    pub open spec fn toks_with(&self, flag: u64) -> Seq<Tok> {
        match *self {
            AppRequest::Listen { channel_id, label } => cbor::items().push(Tok::Array(3)).push(
                Tok::Uint(T_APP_LISTEN),
            ).push(Tok::Bytes(cbor::opt_bytes(channel_id))).push(Tok::Text(label@)),
            AppRequest::Accept { id } => cbor::items().push(Tok::Array(2)).push(
                Tok::Uint(T_APP_ACCEPT),
            ).push(Tok::Uint(id)),
            AppRequest::Open { channel_id, peer, labels, datagrams } => cbor::put_all(
                open_front(channel_id@, peer@, labels@.len() as u64),
                scan::texts(labels@),
                app::label_item(),
            ).push(Tok::Uint(flag)),
        }
    }

    /// What a request writes.
    pub open spec fn toks(&self) -> Seq<Tok> {
        match *self {
            AppRequest::Open { channel_id, peer, labels, datagrams } => self.toks_with(
                cbor::flag_value(datagrams),
            ),
            _ => self.toks_with(0),
        }
    }

    /// Whether this is what is read from `ts`: any number but 0 asks for datagrams.
    pub open spec fn read_from(&self, ts: Seq<Tok>) -> bool {
        match *self {
            AppRequest::Open { channel_id, peer, labels, datagrams } => {
                &&& ts.len() > 0
                &&& ts.last() is Uint
                &&& ts == self.toks_with(ts.last()->Uint_0)
                &&& datagrams == (ts.last()->Uint_0 != 0)
                &&& labels@.len() <= MAX_LABELS
            },
            _ => ts == self.toks(),
        }
    }

    /// The request in canonical form.
    #[must_use]
    pub fn to_bytes(&self) -> (b: Vec<u8>)
        ensures
            b@ == cbor::enc(self.toks()),
    {
        let mut e = Encoder::new();
        match self {
            AppRequest::Listen { channel_id, label } => {
                e.array(3);
                e.uint(T_APP_LISTEN);
                e.opt_digest(channel_id);
                e.text(label.as_str());
            },
            AppRequest::Accept { id } => {
                e.array(2);
                e.uint(T_APP_ACCEPT);
                e.uint(*id);
            },
            AppRequest::Open { channel_id, peer, labels, datagrams } => {
                e.array(5);
                e.uint(T_APP_OPEN);
                e.digest(channel_id);
                e.digest(peer);
                e.array(labels.len() as u64);
                assert(e.toks() =~= open_front(channel_id@, peer@, labels@.len() as u64));
                put_labels(&mut e, labels);
                e.flag(*datagrams);
            },
        }
        e.finish()
    }

    /// Reads a request: `None` where the body is no application's request at all.
    #[must_use]
    pub fn parse(body: &[u8]) -> (r: Option<Result<AppRequest, Error>>)
        ensures
            match r {
                None => !is_app(body@),
                Some(Ok(q)) => {
                    &&& is_app(body@)
                    &&& request_fault(body@) is None
                    &&& q.read_from(cbor::toks_of(body@))
                    &&& cbor::enc(cbor::toks_of(body@)) == body@
                },
                Some(Err(e)) => is_app(body@) && request_fault(body@) == Some(e),
            },
    {
        let mut d = Decoder::new(body);
        let n: u64 = match d.array(Error::Cbor("cbor")) {
            Ok(n) => n,
            Err(_) => {
                return None;
            },
        };
        let tag: u64 = match d.uint(Error::Cbor("cbor")) {
            Ok(t) => t,
            Err(_) => {
                return None;
            },
        };
        if tag < T_APP_LISTEN || tag > T_APP_OPEN {
            return None;
        }
        Some(AppRequest::parse_rest(d, tag, n))
    }

    fn parse_rest(d: Decoder<'_>, tag: u64, n: u64) -> (r: Result<AppRequest, Error>)
        requires
            d.wf(),
            d.cur().bad is None,
            d.seen() == cbor::items().push(Tok::Array(n)).push(Tok::Uint(tag)),
        ensures
            match r {
                Ok(q) => {
                    &&& request_fields(d.cur(), tag, n).end(app::malformed(false)).bad is None
                    &&& q.read_from(cbor::toks_of(d.buffer()))
                    &&& cbor::enc(cbor::toks_of(d.buffer())) == d.buffer()
                },
                Err(e) => request_fields(d.cur(), tag, n).end(app::malformed(false)).bad == Some(e),
            },
    {
        let ghost start = d.cur();
        let mut d = d;
        let q: AppRequest = if tag == T_APP_LISTEN && n == 3 {
            let channel_id: Option<Digest32> = d.opt_digest(
                malformed_error(false),
                malformed_error(false),
            )?;
            let label: String = d.text(malformed_error(false))?;
            AppRequest::Listen { channel_id, label }
        } else if tag == T_APP_ACCEPT && n == 2 {
            AppRequest::Accept { id: d.uint(malformed_error(false))? }
        } else if tag == T_APP_OPEN && n == 5 {
            let ghost e = app::malformed(false);
            let ghost c1 = start.digest(e, e).digest(e, e);
            let ghost c2 = c1.array(e).check(c1.peek_array() <= MAX_LABELS, e);
            proof {
                if c2.bad is Some {
                    cbor::lemma_many_stuck(c2, 0, c1.peek_array() as nat, app::label_step(false));
                }
            }
            let channel_id: Digest32 = d.digest(malformed_error(false), malformed_error(false))?;
            let peer: Digest32 = d.digest(malformed_error(false), malformed_error(false))?;
            let k: u64 = d.array(malformed_error(false))?;
            if k > MAX_LABELS as u64 {
                return Err(malformed_error(false));
            }
            assert(d.seen() =~= open_front(channel_id@, peer@, k));
            let labels: Vec<String> = take_labels(&mut d, k, false)?;
            let ghost seen = d.seen();
            let flag: u64 = d.uint(malformed_error(false))?;
            assert(d.seen().last() == Tok::Uint(flag));
            AppRequest::Open { channel_id, peer, labels, datagrams: flag != 0 }
        } else {
            return Err(malformed_error(false));
        };
        d.finish(malformed_error(false))?;
        Ok(q)
    }
}

/// Whatever request is read from what `q` is written as is like `q`.
proof fn lemma_request_same(g: AppRequest, q: AppRequest)
    requires
        g.read_from(q.toks()),
        q matches AppRequest::Open { labels, .. } ==> labels@.len() <= MAX_LABELS,
    ensures
        g.is_same(&q),
{
    let ts = q.toks();
    lemma_front(g, ts);
    lemma_front(q, ts);
    match (g, q) {
        (
            AppRequest::Listen { channel_id, label },
            AppRequest::Listen { channel_id: p, label: r },
        ) => {
            assert(g.toks()[2] == ts[2]);
            assert(g.toks()[3] == ts[3]);
            cbor::lemma_opt_ext(channel_id, p);
        },
        (AppRequest::Accept { id }, AppRequest::Accept { id: p }) => {
            assert(g.toks()[2] == ts[2]);
        },
        (
            AppRequest::Open { channel_id, peer, labels, datagrams },
            AppRequest::Open { channel_id: p, peer: r, labels: s, datagrams: t },
        ) => {
            let (xs, ys) = (scan::texts(labels@), scan::texts(s@));
            let a = open_front(channel_id@, peer@, xs.len() as u64);
            let b = open_front(p@, r@, ys.len() as u64);
            let item = app::label_item();
            let flag = ts.last();
            assert(cbor::put_all(a, xs, item) =~= ts.drop_last());
            assert(cbor::put_all(b, ys, item) =~= ts.drop_last());
            cbor::lemma_put_all_parts(a, b, xs, ys, item, 1);
            assert(a[2] == b[2] && a[3] == b[3]);
            crate::hash::lemma_digest_ext(channel_id, p);
            crate::hash::lemma_digest_ext(peer, r);
            assert forall|i: int| 0 <= i < xs.len() implies xs[i] == ys[i] by {
                assert(item(xs[i])[0] == item(ys[i])[0]);
            }
            assert(xs =~= ys);
        },
        _ => {},
    }
}

proof fn lemma_front(q: AppRequest, ts: Seq<Tok>)
    requires
        q.read_from(ts),
    ensures
        ts.len() >= 2,
        ts[1] == Tok::Uint(
            match q {
                AppRequest::Listen { .. } => T_APP_LISTEN,
                AppRequest::Accept { .. } => T_APP_ACCEPT,
                AppRequest::Open { .. } => T_APP_OPEN,
            },
        ),
{
    if let AppRequest::Open { channel_id, peer, labels, datagrams } = q {
        let vs = scan::texts(labels@);
        cbor::lemma_put_all_base(
            open_front(channel_id@, peer@, vs.len() as u64),
            vs,
            app::label_item(),
        );
    }
}

/// A request is read back as it was written: whatever request is read from its encoding is
/// like it.
pub proof fn law_app_request_read_back(q: AppRequest)
    requires
        cbor::all_encodable(q.toks()),
        q matches AppRequest::Open { labels, .. } ==> labels@.len() <= MAX_LABELS,
    ensures
        is_app(cbor::enc(q.toks())),
        request_fault(cbor::enc(q.toks())) is None,
        q.read_from(cbor::toks_of(cbor::enc(q.toks()))),
        forall|g: AppRequest| #[trigger]
            g.read_from(cbor::toks_of(cbor::enc(q.toks()))) ==> g.is_same(&q),
{
    let ts = q.toks();
    let b = cbor::enc(ts);
    cbor::law_items_read_back(ts);
    let c0 = Cur::at(b);
    assert(c0.toks == ts);
    match q {
        AppRequest::Open { channel_id, peer, labels, datagrams } => {
            let vs = scan::texts(labels@);
            let head = open_front(channel_id@, peer@, vs.len() as u64);
            let list = cbor::put_all(cbor::items(), vs, app::label_item());
            let tail = cbor::items().push(Tok::Uint(cbor::flag_value(datagrams)));
            cbor::lemma_put_all_base(head, vs, app::label_item());
            assert(ts =~= head + (list + tail));
            assert(c0.toks[0] == Tok::Array(5));
            assert(c0.toks[1] == Tok::Uint(T_APP_OPEN));
            assert(c0.toks[2] == Tok::Bytes(channel_id@));
            assert(c0.toks[3] == Tok::Bytes(peer@));
            assert(c0.toks[4] == Tok::Array(vs.len() as u64));
            let e = app::malformed(false);
            let c = c0.array(cbor::raw()).uint(cbor::raw()).digest(e, e).digest(e, e).array(e);
            assert(c.toks =~= list + tail);
            app::lemma_labels_read_back(vs, false);
            cbor::lemma_many_read(c, vs, app::label_item(), app::label_step(false), tail);
        },
        AppRequest::Listen { channel_id, label } => {
            assert(c0.toks[0] == Tok::Array(3));
            assert(c0.toks[1] == Tok::Uint(T_APP_LISTEN));
            assert(c0.toks[2] == Tok::Bytes(cbor::opt_bytes(channel_id)));
        },
        AppRequest::Accept { id } => {
            assert(c0.toks[0] == Tok::Array(2));
            assert(c0.toks[1] == Tok::Uint(T_APP_ACCEPT));
        },
    }
    assert forall|g: AppRequest| #[trigger] g.read_from(ts) implies g.is_same(&q) by {
        lemma_request_same(g, q);
    }
}

// ---- answers -----------------------------------------------------------------

/// What the node says on an application's connection.
#[derive(Debug, PartialEq, Eq)]
pub enum AppReply {
    /// The listener is registered.
    Listening,
    /// An incoming stream waits to be accepted.
    Incoming(AppIncoming),
    /// The stream is up, and its bytes follow.
    Splice(AppInfo),
    /// Refused, and why.
    Error(String),
}

/// What is said of a malformed answer.
pub open spec fn bad_reply() -> Error {
    Error::MalformedBundle("ipc app reply")
}

/// What is wrong with `b` as an answer, or `None` where it is one. What has no tag of an
/// application's must be an ordinary refusal. `addr` is what the address that it names as a
/// frame parses to.
pub open spec fn reply_fault(b: Seq<u8>, addr: Option<Seq<char>>) -> Option<Error> {
    let e = bad_reply();
    let c0 = Cur::at(b);
    let n = c0.peek_array();
    let c1 = c0.array(e);
    let tag = c1.peek_uint();
    let c2 = c1.uint(e);
    if tag == T_APP_LISTENING && n == 1 {
        c2.end(e).bad
    } else if tag == T_APP_INCOMING && n == 5 {
        c2.uint(e).digest(e, e).digest(e, e).text(e).end(e).bad
    } else if tag == T_APP_SPLICE && n == 5 {
        c2.digest(e, e).digest(e, e).text(e).uint(e).end(e).bad
    } else if c2.bad is Some {
        c2.bad
    } else if frame::frame_fault(b, addr) is Some {
        frame::frame_fault(b, addr)
    } else if tag == frame::T_ERROR {
        None
    } else {
        Some(e)
    }
}

impl AppReply {
    /// Whether two answers are alike.
    pub open spec fn is_same(&self, other: &AppReply) -> bool {
        match (*self, *other) {
            (AppReply::Listening, AppReply::Listening) => true,
            (AppReply::Incoming(x), AppReply::Incoming(y)) => {
                &&& x.id == y.id
                &&& x.channel_id == y.channel_id
                &&& x.peer == y.peer
                &&& x.label@ == y.label@
            },
            (AppReply::Splice(x), AppReply::Splice(y)) => {
                &&& x.channel_id == y.channel_id
                &&& x.peer == y.peer
                &&& x.label@ == y.label@
                &&& x.datagrams == y.datagrams
            },
            (AppReply::Error(x), AppReply::Error(y)) => x@ == y@,
            _ => false,
        }
    }

    /// What an answer writes, with `flag` where it says whether there are datagrams.
    pub open spec fn toks_with(&self, flag: u64) -> Seq<Tok> {
        match *self {
            AppReply::Listening => cbor::items().push(Tok::Array(1)).push(
                Tok::Uint(T_APP_LISTENING),
            ),
            AppReply::Incoming(i) => cbor::items().push(Tok::Array(5)).push(
                Tok::Uint(T_APP_INCOMING),
            ).push(Tok::Uint(i.id)).push(Tok::Bytes(i.channel_id@)).push(
                Tok::Bytes(i.peer@),
            ).push(Tok::Text(i.label@)),
            AppReply::Splice(i) => cbor::items().push(Tok::Array(5)).push(
                Tok::Uint(T_APP_SPLICE),
            ).push(Tok::Bytes(i.channel_id@)).push(Tok::Bytes(i.peer@)).push(
                Tok::Text(i.label@),
            ).push(Tok::Uint(flag)),
            AppReply::Error(reason) => cbor::items().push(Tok::Array(2)).push(
                Tok::Uint(frame::T_ERROR),
            ).push(Tok::Text(reason@)),
        }
    }

    /// What an answer writes.
    pub open spec fn toks(&self) -> Seq<Tok> {
        match *self {
            AppReply::Splice(i) => self.toks_with(cbor::flag_value(i.datagrams)),
            _ => self.toks_with(0),
        }
    }

    /// Whether this is what is read from `ts`: any number but 0 says that there are
    /// datagrams.
    pub open spec fn read_from(&self, ts: Seq<Tok>) -> bool {
        match *self {
            AppReply::Splice(i) => {
                &&& ts.len() > 0
                &&& ts.last() is Uint
                &&& ts == self.toks_with(ts.last()->Uint_0)
                &&& i.datagrams == (ts.last()->Uint_0 != 0)
            },
            _ => ts == self.toks(),
        }
    }

    /// The answer in canonical form. A refusal is an ordinary one.
    pub fn to_bytes(&self) -> (b: Vec<u8>)
        ensures
            b@ == cbor::enc(self.toks()),
    {
        let mut e = Encoder::new();
        match self {
            AppReply::Listening => {
                e.array(1);
                e.uint(T_APP_LISTENING);
            },
            AppReply::Incoming(i) => {
                e.array(5);
                e.uint(T_APP_INCOMING);
                e.uint(i.id);
                e.digest(&i.channel_id);
                e.digest(&i.peer);
                e.text(i.label.as_str());
            },
            AppReply::Splice(i) => {
                e.array(5);
                e.uint(T_APP_SPLICE);
                e.digest(&i.channel_id);
                e.digest(&i.peer);
                e.text(i.label.as_str());
                e.flag(i.datagrams);
            },
            AppReply::Error(reason) => {
                let f: Frame = Frame::Error { reason: reason.clone() };
                return f.to_bytes();
            },
        }
        e.finish()
    }

    /// Decodes an answer. `addr` is what the address that it names as a frame
    /// ([`Frame::address_in`]) parses to.
    pub fn from_bytes(body: &[u8], addr: Option<String>) -> (r: Result<AppReply, Error>)
        ensures
            match r {
                Ok(a) => a.read_from(cbor::toks_of(body@)) && reply_fault(
                    body@,
                    crate::link::opt_text(addr),
                ) is None,
                Err(e) => reply_fault(body@, crate::link::opt_text(addr)) == Some(e),
            },
    {
        let mut d = Decoder::new(body);
        let n: u64 = d.array(Error::MalformedBundle("ipc app reply"))?;
        let tag: u64 = d.uint(Error::MalformedBundle("ipc app reply"))?;
        let a: AppReply = if tag == T_APP_LISTENING && n == 1 {
            AppReply::Listening
        } else if tag == T_APP_INCOMING && n == 5 {
            let id: u64 = d.uint(Error::MalformedBundle("ipc app reply"))?;
            let channel_id: Digest32 = d.digest(
                Error::MalformedBundle("ipc app reply"),
                Error::MalformedBundle("ipc app reply"),
            )?;
            let peer: Digest32 = d.digest(
                Error::MalformedBundle("ipc app reply"),
                Error::MalformedBundle("ipc app reply"),
            )?;
            let label: String = d.text(Error::MalformedBundle("ipc app reply"))?;
            AppReply::Incoming(AppIncoming { id, channel_id, peer, label })
        } else if tag == T_APP_SPLICE && n == 5 {
            let channel_id: Digest32 = d.digest(
                Error::MalformedBundle("ipc app reply"),
                Error::MalformedBundle("ipc app reply"),
            )?;
            let peer: Digest32 = d.digest(
                Error::MalformedBundle("ipc app reply"),
                Error::MalformedBundle("ipc app reply"),
            )?;
            let label: String = d.text(Error::MalformedBundle("ipc app reply"))?;
            let flag: u64 = d.uint(Error::MalformedBundle("ipc app reply"))?;
            assert(d.seen().last() == Tok::Uint(flag));
            AppReply::Splice(AppInfo { channel_id, peer, label, datagrams: flag != 0 })
        } else {
            let f: Frame = Frame::from_bytes(body, addr)?;
            proof {
                frame::lemma_tag(f, cbor::toks_of(body@), crate::link::opt_text(addr));
            }
            return match f {
                Frame::Error { reason } => Ok(AppReply::Error(reason)),
                _ => Err(Error::MalformedBundle("ipc app reply")),
            };
        };
        d.finish(Error::MalformedBundle("ipc app reply"))?;
        Ok(a)
    }
}

/// Whatever answer is read from what `a` is written as is like `a`.
proof fn lemma_reply_same(g: AppReply, a: AppReply)
    requires
        g.read_from(a.toks()),
    ensures
        g.is_same(&a),
{
    let ts = a.toks();
    let us = match g {
        AppReply::Splice(_) => g.toks_with(ts.last()->Uint_0),
        _ => g.toks(),
    };
    assert(us[1] == ts[1]);
    match (g, a) {
        (AppReply::Incoming(x), AppReply::Incoming(y)) => {
            assert(us[2] == ts[2] && us[3] == ts[3] && us[4] == ts[4] && us[5] == ts[5]);
            crate::hash::lemma_digest_ext(x.channel_id, y.channel_id);
            crate::hash::lemma_digest_ext(x.peer, y.peer);
        },
        (AppReply::Splice(x), AppReply::Splice(y)) => {
            assert(us[2] == ts[2] && us[3] == ts[3] && us[4] == ts[4] && us[5] == ts[5]);
            crate::hash::lemma_digest_ext(x.channel_id, y.channel_id);
            crate::hash::lemma_digest_ext(x.peer, y.peer);
        },
        (AppReply::Error(_), AppReply::Error(_)) => {
            assert(us[2] == ts[2]);
        },
        _ => {},
    }
}

/// An answer is read back as it was written: whatever answer is read from its encoding is
/// like it.
pub proof fn law_app_reply_read_back(a: AppReply)
    requires
        cbor::all_encodable(a.toks()),
    ensures
        reply_fault(cbor::enc(a.toks()), None) is None,
        a.read_from(cbor::toks_of(cbor::enc(a.toks()))),
        forall|g: AppReply| #[trigger]
            g.read_from(cbor::toks_of(cbor::enc(a.toks()))) ==> g.is_same(&a),
{
    let ts = a.toks();
    let b = cbor::enc(ts);
    cbor::law_items_read_back(ts);
    let c0 = Cur::at(b);
    assert(c0.toks == ts);
    match a {
        AppReply::Listening => {
            assert(c0.toks[0] == Tok::Array(1));
            assert(c0.toks[1] == Tok::Uint(T_APP_LISTENING));
        },
        AppReply::Incoming(i) => {
            assert(c0.toks[0] == Tok::Array(5));
            assert(c0.toks[1] == Tok::Uint(T_APP_INCOMING));
            assert(c0.toks[2] == Tok::Uint(i.id));
            assert(c0.toks[3] == Tok::Bytes(i.channel_id@));
            assert(c0.toks[4] == Tok::Bytes(i.peer@));
            assert(c0.toks[5] == Tok::Text(i.label@));
        },
        AppReply::Splice(i) => {
            assert(c0.toks[0] == Tok::Array(5));
            assert(c0.toks[1] == Tok::Uint(T_APP_SPLICE));
            assert(c0.toks[2] == Tok::Bytes(i.channel_id@));
            assert(c0.toks[3] == Tok::Bytes(i.peer@));
            assert(c0.toks[4] == Tok::Text(i.label@));
            assert(c0.toks[5] == Tok::Uint(cbor::flag_value(i.datagrams)));
        },
        AppReply::Error(reason) => {
            let f = Frame::Error { reason };
            assert(f.toks() =~= ts);
            crate::ipc::readback::law_frame_read_back(f, None);
            assert(c0.toks[0] == Tok::Array(2));
            assert(c0.toks[1] == Tok::Uint(frame::T_ERROR));
        },
    }
    assert forall|g: AppReply| #[trigger] g.read_from(ts) implies g.is_same(&a) by {
        lemma_reply_same(g, a);
    }
}

} // verus!
