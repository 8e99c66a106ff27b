//! Local naming over the control socket: a `.vox` name is resolved against the node's
//! rooms and keyring, and the proxy is brought up inside the node for as long as the
//! connection lives.

use vstd::prelude::*;

use crate::cbor::{self, Cur, Decoder, Encoder, Tok};
use crate::error::Error;
use crate::hash::Digest32;
use crate::ipc::frame::{self, Frame};
use crate::ipc::PROTOCOL_VERSION;
use crate::text::{self, debug_text};

verus! {

/// Tag of a request to resolve.
pub const T_RESOLVE: u64 = 2401;

/// Tag of what a name resolves to.
pub const T_RESOLVED: u64 = 2402;

/// Tag of a request to bring the proxy up.
pub const T_UP: u64 = 2403;

/// Tag of where the proxy listens.
pub const T_UP_BOUND: u64 = 2404;

/// Tag of a refusal or a cut session.
pub const T_UP_NOTE: u64 = 2405;

/// A naming request, the first frame behind the greeting.
#[derive(Debug, PartialEq, Eq)]
pub enum NameRequest {
    /// Resolves a `.vox` name.
    Resolve(String),
    /// Brings the proxy up at this address.
    Up(String),
}

/// What is wrong with `b` as `[tag, text]`, or `None`.
pub open spec fn tagged_fault(b: Seq<u8>) -> Option<Error> {
    let e = cbor::raw();
    let c0 = Cur::at(b);
    c0.array(e).check(c0.peek_array() == 2, e).uint(e).text(e).end(e).bad
}

/// The tag of `[tag, ..]`.
pub open spec fn tag_of(b: Seq<u8>) -> u64 {
    Cur::at(b).array(cbor::raw()).peek_uint()
}

/// What `[tag, text]` writes.
pub open spec fn tagged(tag: u64, s: Seq<char>) -> Seq<Tok> {
    cbor::items().push(Tok::Array(2)).push(Tok::Uint(tag)).push(Tok::Text(s))
}

fn tagged_bytes(tag: u64, s: &str) -> (b: Vec<u8>)
    ensures
        b@ == cbor::enc(tagged(tag, s@)),
{
    let mut e = Encoder::new();
    e.array(2);
    e.uint(tag);
    e.text(s);
    e.finish()
}

impl NameRequest {
    /// Whether two requests are alike.
    pub open spec fn is_same(&self, other: &NameRequest) -> bool {
        match (*self, *other) {
            (NameRequest::Resolve(s), NameRequest::Resolve(t)) => s@ == t@,
            (NameRequest::Up(s), NameRequest::Up(t)) => s@ == t@,
            _ => false,
        }
    }

    /// What a request writes.
    pub open spec fn toks(&self) -> Seq<Tok> {
        match *self {
            NameRequest::Resolve(t) => tagged(T_RESOLVE, t@),
            NameRequest::Up(t) => tagged(T_UP, t@),
        }
    }

    /// Reads a request: `None` where the body is no naming request.
    #[must_use]
    pub fn parse(body: &[u8]) -> (r: Option<NameRequest>)
        ensures
            match r {
                Some(q) => {
                    &&& tagged_fault(body@) is None
                    &&& q.toks() == cbor::toks_of(body@)
                    &&& cbor::enc(q.toks()) == body@
                },
                None => tagged_fault(body@) is Some || (tag_of(body@) != T_RESOLVE && tag_of(body@)
                    != T_UP),
            },
    {
        let mut d = Decoder::new(body);
        match d.array(Error::Cbor("cbor")) {
            Ok(n) => {
                if n != 2 {
                    return None;
                }
            },
            Err(_) => {
                return None;
            },
        }
        let tag: u64 = match d.uint(Error::Cbor("cbor")) {
            Ok(t) => t,
            Err(_) => {
                return None;
            },
        };
        let text: String = match d.text(Error::Cbor("cbor")) {
            Ok(t) => t,
            Err(_) => {
                return None;
            },
        };
        match d.finish(Error::Cbor("cbor")) {
            Ok(_) => {},
            Err(_) => {
                return None;
            },
        }
        assert(d.seen() =~= tagged(tag, text@));
        if tag == T_RESOLVE {
            Some(NameRequest::Resolve(text))
        } else if tag == T_UP {
            Some(NameRequest::Up(text))
        } else {
            None
        }
    }

    /// The request in canonical form.
    pub fn to_bytes(&self) -> (b: Vec<u8>)
        ensures
            b@ == cbor::enc(self.toks()),
    {
        match self {
            NameRequest::Resolve(t) => tagged_bytes(T_RESOLVE, t.as_str()),
            NameRequest::Up(t) => tagged_bytes(T_UP, t.as_str()),
        }
    }
}

/// A naming request is read back as it was written: whatever request is read from its
/// encoding is like it.
pub proof fn law_name_request_read_back(q: NameRequest)
    requires
        cbor::all_encodable(q.toks()),
    ensures
        tagged_fault(cbor::enc(q.toks())) is None,
        tag_of(cbor::enc(q.toks())) == (if q is Resolve {
            T_RESOLVE
        } else {
            T_UP
        }),
        cbor::toks_of(cbor::enc(q.toks())) == q.toks(),
        forall|p: NameRequest| #[trigger]
            p.toks() == cbor::toks_of(cbor::enc(q.toks())) ==> p.is_same(&q),
{
    cbor::law_items_read_back(q.toks());
    assert forall|p: NameRequest| #[trigger] p.toks() == q.toks() implies p.is_same(&q) by {
        assert(p.toks()[1] == q.toks()[1]);
        assert(p.toks()[2] == q.toks()[2]);
    }
}

// ---- the node's side ---------------------------------------------------------

/// What the node answers, and whether the connection may serve more requests.
#[derive(Debug, PartialEq, Eq)]
pub struct NameAnswer {
    /// The answer.
    pub body: Vec<u8>,
    /// Whether the connection goes on.
    pub more: bool,
}

/// What a name that resolved writes.
pub open spec fn resolved_toks(room: Digest32, host: Digest32) -> Seq<Tok> {
    cbor::items().push(Tok::Array(3)).push(Tok::Uint(T_RESOLVED)).push(Tok::Bytes(room@)).push(
        Tok::Bytes(host@),
    )
}

/// What a refusal writes.
pub open spec fn refused_toks(reason: Seq<char>) -> Seq<Tok> {
    cbor::items().push(Tok::Array(2)).push(Tok::Uint(frame::T_ERROR)).push(Tok::Text(reason))
}

fn error(reason: String) -> (b: Vec<u8>)
    ensures
        b@ == cbor::enc(refused_toks(reason@)),
{
    let f: Frame = Frame::Error { reason };
    f.to_bytes()
}

/// The answer to a request to resolve: the room and the member, or why the name leads
/// nowhere. The connection may serve more.
pub fn serve_resolve(found: Result<(Digest32, Digest32), String>) -> (a: NameAnswer)
    ensures
        a.more,
        a.body@ == cbor::enc(
            match found {
                Ok((room, host)) => resolved_toks(room, host),
                Err(why) => refused_toks(why@),
            },
        ),
{
    match found {
        Ok((room, host)) => {
            let mut e = Encoder::new();
            e.array(3);
            e.uint(T_RESOLVED);
            e.digest(&room);
            e.digest(&host);
            NameAnswer { body: e.finish(), more: true }
        },
        Err(why) => NameAnswer { body: error(why), more: true },
    }
}

/// The answer to a request to bring the proxy up. `parses` says whether `bind` is an
/// address, and `up` where the proxy listens, or why it does not. The connection serves
/// nothing more: the proxy lives as long as it does.
pub fn serve_up(bind: String, parses: bool, up: Result<String, String>) -> (a: NameAnswer)
    ensures
        !a.more,
        a.body@ == cbor::enc(
            if !parses {
                refused_toks(text::debug_form(bind@) + " is not an address"@)
            } else {
                match up {
                    Ok(bound) => tagged(T_UP_BOUND, bound@),
                    Err(why) => refused_toks(why@),
                }
            },
        ),
{
    if !parses {
        let mut why: String = debug_text(bind.as_str());
        why.append(" is not an address");
        return NameAnswer { body: error(why), more: false };
    }
    match up {
        Ok(bound) => NameAnswer { body: tagged_bytes(T_UP_BOUND, bound.as_str()), more: false },
        Err(why) => NameAnswer { body: error(why), more: false },
    }
}

/// A refusal or a cut session, for the client to show.
pub fn note_bytes(note: &str) -> (b: Vec<u8>)
    ensures
        b@ == cbor::enc(tagged(T_UP_NOTE, note@)),
{
    tagged_bytes(T_UP_NOTE, note)
}

// ---- the client's side -------------------------------------------------------

/// What a client makes of the first frame. `addr` is what the address that it names parses
/// to.
pub fn connect(read: Option<Vec<u8>>, addr: Option<String>) -> (r: Result<(), Error>)
    ensures
        match read {
            None => r == Err::<(), Error>(Error::MalformedBundle("ipc closed before hello")),
            Some(b) => match frame::frame_fault(b@, crate::link::opt_text(addr)) {
                Some(e) => r == Err::<(), Error>(e),
                None => exists|f: Frame| #[trigger]
                    f.read_from(cbor::toks_of(b@), crate::link::opt_text(addr)) && (match f {
                        Frame::Hello { protocol, .. } => r is Ok == (protocol == PROTOCOL_VERSION),
                        _ => r is Err,
                    }) && (r matches Err(e) ==> e == Error::MalformedBundle(
                        "ipc protocol version",
                    )),
            },
        },
{
    let b: Vec<u8> = match &read {
        None => {
            return Err(Error::MalformedBundle("ipc closed before hello"));
        },
        Some(b) => vstd::slice::slice_to_vec(b.as_slice()),
    };
    let f: Frame = Frame::from_bytes(b.as_slice(), addr)?;
    let ghost whole = f;
    assert(whole.read_from(
            cbor::toks_of(read->Some_0@),
            crate::link::opt_text(addr),
        ));
    match f {
        Frame::Hello { protocol, .. } => if protocol == PROTOCOL_VERSION {
            Ok(())
        } else {
            Err(Error::MalformedBundle("ipc protocol version"))
        },
        _ => Err(Error::MalformedBundle("ipc protocol version")),
    }
}

/// Whether an answer is a refusal that gives this reason.
pub open spec fn refuses(b: Seq<u8>, reason: Seq<char>) -> bool {
    frame::frame_fault(b, None) is None && cbor::toks_of(b) == refused_toks(reason)
}

/// Whether an error is what an answer that is no other one means: the reason of a refusal,
/// or that the answer is malformed.
pub open spec fn means(b: Seq<u8>, e: Error) -> bool {
    match e {
        Error::AppRefused(reason) => refuses(b, reason@),
        _ => e == Error::MalformedBundle("ipc naming reply") && forall|s: Seq<char>| !refuses(b, s),
    }
}

fn reason(body: &[u8]) -> (e: Error)
    ensures
        means(body@, e),
{
    match Frame::from_bytes(body, None) {
        Ok(f) => {
            proof {
                frame::lemma_tag(f, cbor::toks_of(body@), None);
                if !(f is Error) {
                    assert forall|s: Seq<char>| !refuses(body@, s) by {
                        assert(refused_toks(s)[1] == Tok::Uint(frame::T_ERROR));
                    }
                }
            }
            match f {
                Frame::Error { reason } => Error::AppRefused(reason),
                _ => Error::MalformedBundle("ipc naming reply"),
            }
        },
        Err(_) => Error::MalformedBundle("ipc naming reply"),
    }
}

/// Whether an answer begins with this many elements and this tag.
pub open spec fn begins_with(b: Seq<u8>, n: u64, tag: u64) -> bool {
    let e = cbor::raw();
    let c0 = Cur::at(b);
    let c1 = c0.array(e);
    c1.uint(e).bad is None && c0.peek_array() == n && c1.peek_uint() == tag
}

fn front_is(d: &mut Decoder<'_>, n: u64, tag: u64) -> (r: bool)
    requires
        old(d).wf(),
        old(d).cur() == Cur::at(old(d).buffer()),
        old(d).seen() == cbor::items(),
    ensures
        final(d).wf(),
        final(d).buffer() == old(d).buffer(),
        r == begins_with(old(d).buffer(), n, tag),
        r ==> final(d).cur() == old(d).cur().array(cbor::raw()).uint(cbor::raw()),
        r ==> final(d).seen() == cbor::items().push(Tok::Array(n)).push(Tok::Uint(tag)),
{
    let k: u64 = match d.array(Error::Cbor("cbor")) {
        Ok(k) => k,
        Err(_) => {
            return false;
        },
    };
    let t: u64 = match d.uint(Error::Cbor("cbor")) {
        Ok(t) => t,
        Err(_) => {
            return false;
        },
    };
    k == n && t == tag
}

/// What is said of a name's answer that is cut short.
pub open spec fn cut_answer() -> Error {
    Error::MalformedBundle("ipc naming")
}

/// What a name resolves to, from the node's answer.
pub fn resolve(body: &[u8]) -> (r: Result<(Digest32, Digest32), Error>)
    ensures
        if begins_with(body@, 3, T_RESOLVED) {
            let e = cut_answer();
            let c = Cur::at(body@).array(cbor::raw()).uint(cbor::raw());
            match r {
                Ok((room, host)) => {
                    &&& c.digest(e, e).digest(e, e).bad is None
                    &&& resolved_toks(room, host).is_prefix_of(cbor::toks_of(body@))
                },
                Err(x) => c.digest(e, e).digest(e, e).bad == Some(x),
            }
        } else {
            r matches Err(e) && means(body@, e)
        },
{
    let mut d = Decoder::new(body);
    if front_is(&mut d, 3, T_RESOLVED) {
        let room: Digest32 = d.digest(
            Error::MalformedBundle("ipc naming"),
            Error::MalformedBundle("ipc naming"),
        )?;
        let host: Digest32 = d.digest(
            Error::MalformedBundle("ipc naming"),
            Error::MalformedBundle("ipc naming"),
        )?;
        proof {
            assert(d.seen() =~= resolved_toks(room, host));
            d.lemma_seen_is_prefix();
        }
        return Ok((room, host));
    }
    Err(reason(body))
}

/// Where the proxy listens, from the node's answer, in the text that the node wrote. It is
/// an address of the caller's to parse.
pub fn up(body: &[u8]) -> (r: Result<String, Error>)
    ensures
        if begins_with(body@, 2, T_UP_BOUND) {
            let c = Cur::at(body@).array(cbor::raw()).uint(cbor::raw());
            match r {
                Ok(bound) => {
                    &&& c.text(bad_bound()).bad is None
                    &&& tagged(T_UP_BOUND, bound@).is_prefix_of(cbor::toks_of(body@))
                },
                Err(x) => c.text(bad_bound()).bad == Some(x),
            }
        } else {
            r matches Err(e) && means(body@, e)
        },
{
    let mut d = Decoder::new(body);
    if front_is(&mut d, 2, T_UP_BOUND) {
        let bound: String = d.text(Error::MalformedBundle("ipc up reply"))?;
        proof {
            assert(d.seen() =~= tagged(T_UP_BOUND, bound@));
            d.lemma_seen_is_prefix();
        }
        return Ok(bound);
    }
    Err(reason(body))
}

/// What is said of an answer that does not say where the proxy listens.
pub open spec fn bad_bound() -> Error {
    Error::MalformedBundle("ipc up reply")
}

/// The next refusal or cut session, or none where the node sent something else.
pub fn next_note(body: &[u8]) -> (r: Option<String>)
    ensures
        match r {
            Some(note) => {
                &&& begins_with(body@, 2, T_UP_NOTE)
                &&& tagged(T_UP_NOTE, note@).is_prefix_of(cbor::toks_of(body@))
            },
            None => !begins_with(body@, 2, T_UP_NOTE) || Cur::at(body@).array(cbor::raw()).uint(
                cbor::raw(),
            ).text(cbor::raw()).bad is Some,
        },
{
    let mut d = Decoder::new(body);
    if !front_is(&mut d, 2, T_UP_NOTE) {
        return None;
    }
    match d.text(Error::Cbor("cbor")) {
        Ok(note) => {
            proof {
                assert(d.seen() =~= tagged(T_UP_NOTE, note@));
                d.lemma_seen_is_prefix();
            }
            Some(note)
        },
        Err(_) => None,
    }
}

/// A name that resolved is read back by the client as the node wrote it.
pub proof fn law_resolved_read_back(room: Digest32, host: Digest32)
    ensures
        begins_with(cbor::enc(resolved_toks(room, host)), 3, T_RESOLVED),
        cbor::toks_of(cbor::enc(resolved_toks(room, host))) == resolved_toks(room, host),
        forall|r: Digest32, h: Digest32| #[trigger]
            resolved_toks(r, h).is_prefix_of(resolved_toks(room, host)) ==> r == room && h == host,
{
    let ts = resolved_toks(room, host);
    assert forall|i: int| 0 <= i < ts.len() implies cbor::encodable(#[trigger] ts[i]) by {}
    cbor::law_items_read_back(ts);
    assert forall|r: Digest32, h: Digest32| #[trigger]
        resolved_toks(r, h).is_prefix_of(ts) implies r == room && h == host by {
        let us = resolved_toks(r, h);
        assert(us[2] == ts[2]);
        assert(us[3] == ts[3]);
        crate::hash::lemma_digest_ext(r, room);
        crate::hash::lemma_digest_ext(h, host);
    }
}

/// Where the proxy listens, and whatever it has to say later, is read back by the client
/// as the node wrote it.
pub proof fn law_up_read_back(tag: u64, said: Seq<char>)
    requires
        cbor::all_encodable(tagged(tag, said)),
    ensures
        begins_with(cbor::enc(tagged(tag, said)), 2, tag),
        cbor::toks_of(cbor::enc(tagged(tag, said))) == tagged(tag, said),
        forall|read: Seq<char>| #[trigger]
            tagged(tag, read).is_prefix_of(tagged(tag, said)) ==> read == said,
        Cur::at(cbor::enc(tagged(tag, said))).array(cbor::raw()).uint(cbor::raw()).text(
            cbor::raw(),
        ).bad is None,
{
    let ts = tagged(tag, said);
    cbor::law_items_read_back(ts);
    let c0 = Cur::at(cbor::enc(ts));
    assert(c0.toks == ts);
    assert(c0.toks[0] == Tok::Array(2));
    assert(c0.toks[1] == Tok::Uint(tag));
    assert(c0.toks[2] == Tok::Text(said));
    assert forall|read: Seq<char>| #[trigger]
        tagged(tag, read).is_prefix_of(ts) implies read == said by {
        assert(tagged(tag, read)[2] == ts[2]);
    }
}

/// A refusal is read back with its reason.
pub proof fn law_naming_refusal_read_back(reason: String)
    requires
        cbor::all_encodable(refused_toks(reason@)),
    ensures
        refuses(cbor::enc(refused_toks(reason@)), reason@),
{
    let f = Frame::Error { reason };
    assert(f.toks() =~= refused_toks(reason@));
    crate::ipc::readback::law_frame_read_back(f, None);
}

} // verus!
