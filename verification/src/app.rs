//! Application streams: a program on one member node opens a live stream, and if it
//! wishes a datagram flow, to a program on another.
//!
//! This file holds the labels that programs speak and the two frames of the opening
//! exchange. Who may open one, the limits and the listeners are in [`hub`], and what a live
//! stream does in [`stream`].

use vstd::prelude::*;

use crate::cbor::{self, Cur, Decoder, Encoder, Tok};
use crate::error::Error;
use crate::hash::Digest32;
use crate::link::scan;
use crate::text::same_text;

pub mod hub;
pub mod laws;
pub mod serve;
pub mod stream;

verus! {

/// The most labels that one request offers.
pub const MAX_LABELS: usize = 8;

/// The most bytes in a label.
pub const MAX_LABEL_LEN: usize = 64;

/// The largest request or answer.
pub const MAX_OPEN_FRAME: usize = 1024;

/// How many seconds a request may take to arrive.
pub const OPEN_DEADLINE_SECS: u64 = 5;

/// How many seconds a program has to accept an incoming stream.
pub const ACCEPT_DEADLINE_SECS: u64 = 5;

/// How many seconds an opener waits for the answer.
pub const ANSWER_DEADLINE_SECS: u64 = 15;

/// The send priority of an application stream, below the node's own traffic.
pub const APP_PRIORITY: i32 = -1;

/// The code a stream is reset with when trust is withdrawn.
pub const APP_WITHDRAWN_CODE: u32 = 0x2207;

/// Asks for a datagram flow bound to the stream.
pub const FLAG_DATAGRAMS: u64 = 1;

// ---- labels ------------------------------------------------------------------

/// Whether a character is printable ASCII and no space.
pub open spec fn graphic(c: char) -> bool {
    '!' <= c <= '~'
}

/// Whether a text is a label.
pub open spec fn label_ok(s: Seq<char>) -> bool {
    &&& 1 <= s.len() <= MAX_LABEL_LEN
    &&& forall|i: int| 0 <= i < s.len() ==> graphic(#[trigger] s[i])
}

/// Whether `label` is one: 1 to [`MAX_LABEL_LEN`] printable ASCII bytes without spaces.
#[must_use]
pub fn valid_label(label: &str) -> (r: bool)
    ensures
        r == label_ok(label@),
{
    let n: usize = label.unicode_len();
    if n == 0 || n > MAX_LABEL_LEN {
        return false;
    }
    let mut i: usize = 0;
    while i < n
        invariant
            i <= n == label@.len(),
            forall|j: int| 0 <= j < i ==> graphic(#[trigger] label@[j]),
        decreases n - i,
    {
        let c: char = label.get_char(i);
        if !('!' <= c && c <= '~') {
            assert(!graphic(label@[i as int]));
            return false;
        }
        i = i + 1;
    }
    true
}

/// The item of a label.
pub open spec fn label_item() -> spec_fn(Seq<char>) -> Seq<Tok> {
    |s: Seq<char>| cbor::items().push(Tok::Text(s))
}

/// Reads a label; only a strict reading asks whether it is one.
pub open spec fn label_step(strict: bool) -> spec_fn(Cur) -> Cur {
    |c: Cur|
        c.text(malformed(strict)).check(!strict || label_ok(c.peek_text()), malformed(strict))
}

/// What is said of a malformed request: of a peer's where the reading is strict, of a
/// local program's where it is not.
pub open spec fn malformed(strict: bool) -> Error {
    if strict {
        Error::StreamRefused("app: malformed open")
    } else {
        Error::MalformedBundle("ipc app request")
    }
}

pub(crate) fn malformed_error(strict: bool) -> (e: Error)
    ensures
        e == malformed(strict),
{
    if strict {
        Error::StreamRefused("app: malformed open")
    } else {
        Error::MalformedBundle("ipc app request")
    }
}

/// Reads `n` labels.
pub(crate) fn take_labels(d: &mut Decoder<'_>, n: u64, strict: bool) -> (r: Result<
    Vec<String>,
    Error,
>)
    requires
        old(d).wf(),
        old(d).cur().bad is None,
    ensures
        final(d).wf(),
        final(d).buffer() == old(d).buffer(),
        match r {
            Ok(v) => {
                &&& v@.len() == n
                &&& final(d).cur() == cbor::many(old(d).cur(), n as nat, label_step(strict))
                &&& final(d).cur().bad is None
                &&& final(d).seen() == cbor::put_all(
                    old(d).seen(),
                    scan::texts(v@),
                    label_item(),
                )
                &&& strict ==> forall|i: int| 0 <= i < n ==> label_ok(#[trigger] scan::texts(v@)[i])
            },
            Err(e) => cbor::many(old(d).cur(), n as nat, label_step(strict)).bad == Some(e),
        },
{
    let ghost start = d.cur();
    let ghost base = d.seen();
    let ghost step = label_step(strict);
    let mut v: Vec<String> = Vec::new();
    let mut k: u64 = 0;
    assert(scan::texts(v@) =~= Seq::empty());
    while k < n
        invariant
            k <= n,
            d.wf(),
            d.buffer() == old(d).buffer(),
            step == label_step(strict),
            start == old(d).cur(),
            base == old(d).seen(),
            d.cur() == cbor::many(start, k as nat, step),
            d.cur().bad is None,
            v@.len() == k,
            d.seen() == cbor::put_all(base, scan::texts(v@), label_item()),
            strict ==> forall|i: int| 0 <= i < k ==> label_ok(#[trigger] scan::texts(v@)[i]),
        decreases n - k,
    {
        let ghost sofar = scan::texts(v@);
        let ghost seen = d.seen();
        let ghost here = d.cur();
        proof {
            if step(here).bad is Some {
                assert(cbor::many(start, (k + 1) as nat, step) == step(here));
                cbor::lemma_many_stuck(start, (k + 1) as nat, n as nat, step);
            }
        }
        let s: String = d.text(malformed_error(strict))?;
        if strict && !valid_label(s.as_str()) {
            return Err(malformed_error(strict));
        }
        proof {
            cbor::lemma_put_all_push(base, sofar, s@, label_item());
            assert(d.seen() =~= seen + label_item()(s@));
        }
        v.push(s);
        assert(scan::texts(v@) =~= sofar.push(s@));
        k = k + 1;
    }
    Ok(v)
}

/// Writes labels.
pub(crate) fn put_labels(e: &mut Encoder, v: &Vec<String>)
    requires
        old(e).wf(),
    ensures
        final(e).wf(),
        final(e).toks() == cbor::put_all(old(e).toks(), scan::texts(v@), label_item()),
{
    let ghost base = e.toks();
    let ghost vs = scan::texts(v@);
    let mut i: usize = 0;
    assert(vs.take(0) =~= Seq::empty());
    while i < v.len()
        invariant
            i <= v@.len(),
            vs == scan::texts(v@),
            e.wf(),
            e.toks() == cbor::put_all(base, vs.take(i as int), label_item()),
        decreases v@.len() - i,
    {
        let ghost before = e.toks();
        e.text(v[i].as_str());
        proof {
            assert(e.toks() =~= before + label_item()(vs[i as int]));
            cbor::lemma_put_all_push(base, vs.take(i as int), vs[i as int], label_item());
            assert(vs.take(i as int).push(vs[i as int]) =~= vs.take(i + 1));
        }
        i = i + 1;
    }
    assert(vs.take(i as int) =~= vs);
}

/// Labels are read back as they are written.
pub(crate) proof fn lemma_labels_read_back(vs: Seq<Seq<char>>, strict: bool)
    requires
        strict ==> forall|i: int| 0 <= i < vs.len() ==> label_ok(#[trigger] vs[i]),
    ensures
        cbor::reads_back(vs, label_item(), label_step(strict)),
{
    assert forall|i: int, c: Cur, tail: Seq<Tok>|
        0 <= i < vs.len() && c.bad is None && c.toks == #[trigger] (label_item()(
            #[trigger] vs[i],
        ) + tail) implies #[trigger] label_step(strict)(c) == (Cur { toks: tail, ..c }) by {
        assert(c.toks[0] == Tok::Text(vs[i]));
        assert(label_step(strict)(c).toks =~= tail);
    }
}

// ---- the request -------------------------------------------------------------

/// What an opener asks: for which room, what it speaks, and whether it wants a
/// datagram flow.
#[derive(Debug, PartialEq, Eq)]
pub struct AppOpen {
    /// The room.
    pub channel_id: Digest32,
    /// The labels that the opener speaks, in order of preference.
    pub labels: Vec<String>,
    /// Bit 0 asks for a datagram flow.
    pub flags: u64,
}

/// What stands in front of a request's labels.
pub open spec fn open_front(channel_id: Seq<u8>, n: u64) -> Seq<Tok> {
    cbor::items().push(Tok::Array(4)).push(Tok::Uint(1)).push(Tok::Bytes(channel_id)).push(
        Tok::Array(n),
    )
}

/// A reader in front of a request's labels.
pub open spec fn open_start(b: Seq<u8>) -> Cur {
    let e = malformed(true);
    let c0 = Cur::at(b);
    let c1 = c0.array(e).check(c0.peek_array() == 4, e);
    let c2 = c1.uint(e).check(c1.peek_uint() == 1, e).digest(e, e);
    c2.array(e).check(1 <= c2.peek_array() <= MAX_LABELS, e)
}

/// How many labels a request says it offers.
pub open spec fn open_count(b: Seq<u8>) -> u64 {
    let e = malformed(true);
    Cur::at(b).array(e).uint(e).digest(e, e).peek_array()
}

/// What is wrong with `b` as a request, or `None` where it is one.
pub open spec fn open_fault(b: Seq<u8>) -> Option<Error> {
    let e = malformed(true);
    cbor::many(open_start(b), open_count(b) as nat, label_step(true)).uint(e).end(e).bad
}

impl AppOpen {
    /// What a request writes.
    pub open spec fn toks(&self) -> Seq<Tok> {
        cbor::put_all(
            open_front(self.channel_id@, self.labels@.len() as u64),
            scan::texts(self.labels@),
            label_item(),
        ).push(Tok::Uint(self.flags))
    }

    /// Whether 1 to [`MAX_LABELS`] labels are offered, and each is one.
    pub open spec fn wf(&self) -> bool {
        &&& 1 <= self.labels@.len() <= MAX_LABELS
        &&& forall|i: int|
            0 <= i < self.labels@.len() ==> label_ok(#[trigger] scan::texts(self.labels@)[i])
    }

    /// The request in canonical form.
    #[must_use]
    pub fn to_bytes(&self) -> (b: Vec<u8>)
        ensures
            b@ == cbor::enc(self.toks()),
    {
        let mut e = Encoder::new();
        e.array(4);
        e.uint(1);
        e.digest(&self.channel_id);
        e.array(self.labels.len() as u64);
        assert(e.toks() =~= open_front(self.channel_id@, self.labels@.len() as u64));
        put_labels(&mut e, &self.labels);
        e.uint(self.flags);
        e.finish()
    }

    /// Decodes a request strictly: version 1, a room of 32 bytes, 1 to [`MAX_LABELS`]
    /// labels that are ones, and nothing behind it.
    pub fn from_bytes(bytes: &[u8]) -> (r: Result<AppOpen, Error>)
        ensures
            match r {
                Ok(o) => {
                    &&& open_fault(bytes@) is None
                    &&& o.wf()
                    &&& o.toks() == cbor::toks_of(bytes@)
                    &&& cbor::enc(cbor::toks_of(bytes@)) == bytes@
                },
                Err(e) => open_fault(bytes@) == Some(e) && e == malformed(true),
            },
    {
        proof {
            lemma_open_fault_is_one(bytes@);
            if open_start(bytes@).bad is Some {
                cbor::lemma_many_stuck(
                    open_start(bytes@),
                    0,
                    open_count(bytes@) as nat,
                    label_step(true),
                );
            }
        }
        let mut d = Decoder::new(bytes);
        if d.array(malformed_error(true))? != 4 {
            return Err(malformed_error(true));
        }
        if d.uint(malformed_error(true))? != 1 {
            return Err(malformed_error(true));
        }
        let channel_id: Digest32 = d.digest(malformed_error(true), malformed_error(true))?;
        let n: u64 = d.array(malformed_error(true))?;
        if n == 0 || n > MAX_LABELS as u64 {
            return Err(malformed_error(true));
        }
        assert(d.seen() =~= open_front(channel_id@, n));
        let labels: Vec<String> = take_labels(&mut d, n, true)?;
        let flags: u64 = d.uint(malformed_error(true))?;
        d.finish(malformed_error(true))?;
        Ok(AppOpen { channel_id, labels, flags })
    }
}

proof fn lemma_many_fails_alike(c: Cur, n: nat, strict: bool)
    requires
        c.bad is Some ==> c.bad == Some(malformed(strict)),
    ensures
        ({
            let d = cbor::many(c, n, label_step(strict));
            d.bad is Some ==> d.bad == Some(malformed(strict))
        }),
    decreases n,
{
    if n > 0 {
        lemma_many_fails_alike(c, (n - 1) as nat, strict);
    }
}

/// There is one fault that a request can have.
proof fn lemma_open_fault_is_one(b: Seq<u8>)
    ensures
        open_fault(b) is Some ==> open_fault(b) == Some(malformed(true)),
        open_start(b).bad is Some ==> open_start(b).bad == Some(malformed(true)),
{
    lemma_many_fails_alike(open_start(b), open_count(b) as nat, true);
}

/// A request is read back as it was written.
pub proof fn law_app_open_read_back(o: AppOpen)
    requires
        o.wf(),
        cbor::all_encodable(o.toks()),
    ensures
        open_fault(cbor::enc(o.toks())) is None,
        forall|p: AppOpen|
            p.wf() && #[trigger] p.toks() == cbor::toks_of(cbor::enc(o.toks())) ==> p.is_same(&o),
{
    let ts = o.toks();
    let vs = scan::texts(o.labels@);
    let b = cbor::enc(ts);
    let n = vs.len();
    let head = open_front(o.channel_id@, n as u64);
    cbor::law_items_read_back(ts);
    cbor::lemma_put_all_base(head, vs, label_item());
    let list = cbor::put_all(cbor::items(), vs, label_item());
    let tail = cbor::items().push(Tok::Uint(o.flags));
    let c0 = Cur::at(b);
    assert(ts =~= head + (list + tail));
    assert(c0.toks[0] == Tok::Array(4));
    assert(c0.toks[1] == Tok::Uint(1));
    assert(c0.toks[2] == Tok::Bytes(o.channel_id@));
    assert(c0.toks[3] == Tok::Array(n as u64));
    let c = open_start(b);
    assert(c.toks =~= list + tail);
    lemma_labels_read_back(vs, true);
    cbor::lemma_many_read(c, vs, label_item(), label_step(true), tail);
    assert forall|p: AppOpen| p.wf() && #[trigger] p.toks() == ts implies p.is_same(&o) by {
        lemma_open_toks_differ(p, o);
    }
}

pub(crate) proof fn lemma_label_list_at(base: Seq<Tok>, vs: Seq<Seq<char>>, i: int)
    requires
        0 <= i < vs.len(),
    ensures
        cbor::put_all(base, vs, label_item()).len() == base.len() + vs.len(),
        cbor::put_all(base, vs, label_item())[base.len() + i] == Tok::Text(vs[i]),
    decreases vs.len(),
{
    lemma_label_list_len(base, vs.drop_last());
    if i < vs.len() - 1 {
        lemma_label_list_at(base, vs.drop_last(), i);
    }
}

pub(crate) proof fn lemma_label_list_len(base: Seq<Tok>, vs: Seq<Seq<char>>)
    ensures
        cbor::put_all(base, vs, label_item()).len() == base.len() + vs.len(),
        base.is_prefix_of(cbor::put_all(base, vs, label_item())),
    decreases vs.len(),
{
    if vs.len() > 0 {
        lemma_label_list_len(base, vs.drop_last());
    }
}

/// Equal lists of labels behind equal fronts are equal.
pub(crate) proof fn lemma_label_lists_differ(
    a: Seq<Tok>,
    vs: Seq<Seq<char>>,
    x: Tok,
    b: Seq<Tok>,
    ws: Seq<Seq<char>>,
    y: Tok,
)
    requires
        a.len() == b.len(),
        cbor::put_all(a, vs, label_item()).push(x) == cbor::put_all(b, ws, label_item()).push(y),
    ensures
        a == b,
        vs == ws,
        x == y,
{
    let l = cbor::put_all(a, vs, label_item());
    let m = cbor::put_all(b, ws, label_item());
    lemma_label_list_len(a, vs);
    lemma_label_list_len(b, ws);
    assert(l.push(x).drop_last() =~= l);
    assert(m.push(y).drop_last() =~= m);
    assert(l.push(x).last() == x);
    assert(a =~= l.subrange(0, a.len() as int));
    assert(b =~= m.subrange(0, b.len() as int));
    assert forall|i: int| 0 <= i < vs.len() implies vs[i] == ws[i] by {
        lemma_label_list_at(a, vs, i);
        lemma_label_list_at(b, ws, i);
    }
    assert(vs =~= ws);
}

proof fn lemma_open_toks_differ(p: AppOpen, o: AppOpen)
    requires
        p.toks() == o.toks(),
    ensures
        p.is_same(&o),
{
    let a = open_front(p.channel_id@, p.labels@.len() as u64);
    let b = open_front(o.channel_id@, o.labels@.len() as u64);
    lemma_label_lists_differ(
        a,
        scan::texts(p.labels@),
        Tok::Uint(p.flags),
        b,
        scan::texts(o.labels@),
        Tok::Uint(o.flags),
    );
    assert(a[2] == b[2]);
    crate::hash::lemma_digest_ext(p.channel_id, o.channel_id);
}

impl AppOpen {
    /// Whether both ask the same.
    pub open spec fn is_same(&self, other: &AppOpen) -> bool {
        &&& self.channel_id == other.channel_id
        &&& scan::texts(self.labels@) == scan::texts(other.labels@)
        &&& self.flags == other.flags
    }
}

// ---- the answer --------------------------------------------------------------

/// Why a trusted peer's stream was refused. One that is not trusted is told nothing.
#[derive(Debug, Clone, Copy, PartialEq, Eq, Structural)]
pub enum AppRefusal {
    /// No program here listens for any label offered.
    NoListener,
    /// Too many streams from this peer, or too many too fast.
    Busy,
    /// A program listens, but did not accept in time.
    Refused,
}

impl AppRefusal {
    /// The word on the wire.
    pub open spec fn word(self) -> &'static str {
        match self {
            AppRefusal::NoListener => "no-listener",
            AppRefusal::Busy => "busy",
            AppRefusal::Refused => "refused",
        }
    }

    /// The word on the wire.
    #[must_use]
    pub fn as_str(self) -> (s: &'static str)
        ensures
            s == self.word(),
    {
        match self {
            AppRefusal::NoListener => "no-listener",
            AppRefusal::Busy => "busy",
            AppRefusal::Refused => "refused",
        }
    }

    /// The refusal that a word names.
    pub open spec fn of_word(s: Seq<char>) -> Option<AppRefusal> {
        if s == "no-listener"@ {
            Some(AppRefusal::NoListener)
        } else if s == "busy"@ {
            Some(AppRefusal::Busy)
        } else if s == "refused"@ {
            Some(AppRefusal::Refused)
        } else {
            None
        }
    }

    fn parse(s: &str) -> (r: Option<AppRefusal>)
        ensures
            r == AppRefusal::of_word(s@),
    {
        if same_text(s, "no-listener") {
            Some(AppRefusal::NoListener)
        } else if same_text(s, "busy") {
            Some(AppRefusal::Busy)
        } else if same_text(s, "refused") {
            Some(AppRefusal::Refused)
        } else {
            None
        }
    }

    /// The refusal as the opener's error.
    pub open spec fn failure(self) -> Error {
        Error::StreamRefused(
            match self {
                AppRefusal::NoListener =>
                    "app: no-listener \u{2014} nothing there listens for that label",
                AppRefusal::Busy =>
                    "app: busy \u{2014} too many app streams to that peer, or too fast",
                AppRefusal::Refused =>
                    "app: refused \u{2014} the program there did not accept in time",
            },
        )
    }

    /// The refusal as the opener's error.
    pub fn error(self) -> (e: Error)
        ensures
            e == self.failure(),
    {
        match self {
            AppRefusal::NoListener => Error::StreamRefused(
                "app: no-listener \u{2014} nothing there listens for that label",
            ),
            AppRefusal::Busy => Error::StreamRefused(
                "app: busy \u{2014} too many app streams to that peer, or too fast",
            ),
            AppRefusal::Refused => Error::StreamRefused(
                "app: refused \u{2014} the program there did not accept in time",
            ),
        }
    }
}

/// The responder's answer.
#[derive(Debug, PartialEq, Eq)]
pub enum AppAnswer {
    /// Accepted, with this label spoken.
    Accepted(String),
    /// Refused, and why.
    Refused(AppRefusal),
}

/// What is said of a malformed answer.
pub open spec fn bad_answer() -> Error {
    Error::StreamRefused("app: malformed answer")
}

/// What is wrong with `b` as an answer, or `None` where it is one.
pub open spec fn answer_fault(b: Seq<u8>) -> Option<Error> {
    let e = bad_answer();
    let c0 = Cur::at(b);
    let c1 = c0.array(e).check(c0.peek_array() == 2, e);
    let ok = c1.peek_uint();
    let c2 = c1.uint(e);
    let word = c2.peek_text();
    c2.text(e).end(e).check(
        (ok == 1 && label_ok(word)) || (ok == 0 && AppRefusal::of_word(word) is Some),
        e,
    ).bad
}

impl AppAnswer {
    /// What an answer writes.
    pub open spec fn toks(&self) -> Seq<Tok> {
        let head = cbor::items().push(Tok::Array(2));
        match *self {
            AppAnswer::Accepted(label) => head.push(Tok::Uint(1)).push(Tok::Text(label@)),
            AppAnswer::Refused(r) => head.push(Tok::Uint(0)).push(Tok::Text(r.word()@)),
        }
    }

    /// Whether what is accepted is a label.
    pub open spec fn wf(&self) -> bool {
        match *self {
            AppAnswer::Accepted(label) => label_ok(label@),
            AppAnswer::Refused(_) => true,
        }
    }

    /// Whether both say the same.
    pub open spec fn is_same(&self, other: &AppAnswer) -> bool {
        match (*self, *other) {
            (AppAnswer::Accepted(a), AppAnswer::Accepted(b)) => a@ == b@,
            (a, b) => a == b,
        }
    }

    /// The answer in canonical form.
    #[must_use]
    pub fn to_bytes(&self) -> (b: Vec<u8>)
        ensures
            b@ == cbor::enc(self.toks()),
    {
        let mut e = Encoder::new();
        e.array(2);
        match self {
            AppAnswer::Accepted(label) => {
                e.uint(1);
                e.text(label.as_str());
            },
            AppAnswer::Refused(r) => {
                e.uint(0);
                e.text(r.as_str());
            },
        }
        e.finish()
    }

    /// Decodes an answer strictly.
    pub fn from_bytes(bytes: &[u8]) -> (r: Result<AppAnswer, Error>)
        ensures
            match r {
                Ok(a) => {
                    &&& answer_fault(bytes@) is None
                    &&& a.wf()
                    &&& a.toks() == cbor::toks_of(bytes@)
                    &&& cbor::enc(cbor::toks_of(bytes@)) == bytes@
                },
                Err(e) => answer_fault(bytes@) == Some(e) && e == bad_answer(),
            },
    {
        let mut d = Decoder::new(bytes);
        if d.array(Error::StreamRefused("app: malformed answer"))? != 2 {
            return Err(Error::StreamRefused("app: malformed answer"));
        }
        let ok: u64 = d.uint(Error::StreamRefused("app: malformed answer"))?;
        let word: String = d.text(Error::StreamRefused("app: malformed answer"))?;
        d.finish(Error::StreamRefused("app: malformed answer"))?;
        if ok == 1 && valid_label(word.as_str()) {
            return Ok(AppAnswer::Accepted(word));
        }
        if ok == 0 {
            match AppRefusal::parse(word.as_str()) {
                Some(r) => {
                    return Ok(AppAnswer::Refused(r));
                },
                None => {},
            }
        }
        Err(Error::StreamRefused("app: malformed answer"))
    }
}

proof fn lemma_words_differ()
    ensures
        AppRefusal::of_word("no-listener"@) == Some(AppRefusal::NoListener),
        AppRefusal::of_word("busy"@) == Some(AppRefusal::Busy),
        AppRefusal::of_word("refused"@) == Some(AppRefusal::Refused),
{
    reveal_strlit("no-listener");
    reveal_strlit("busy");
    reveal_strlit("refused");
    assert("no-listener"@.len() == 11);
    assert("busy"@.len() == 4);
    assert("refused"@.len() == 7);
}

/// An answer is read back as it was written.
pub proof fn law_app_answer_read_back(a: AppAnswer)
    requires
        a.wf(),
        cbor::all_encodable(a.toks()),
    ensures
        answer_fault(cbor::enc(a.toks())) is None,
        forall|x: AppAnswer| #[trigger]
            x.toks() == cbor::toks_of(cbor::enc(a.toks())) ==> x.is_same(&a),
{
    let ts = a.toks();
    cbor::law_items_read_back(ts);
    lemma_words_differ();
    let c0 = Cur::at(cbor::enc(ts));
    assert(c0.toks == ts);
    assert forall|x: AppAnswer| #[trigger] x.toks() == ts implies x.is_same(&a) by {
        assert(x.toks()[1] == ts[1]);
        assert(x.toks()[2] == ts[2]);
    }
}

} // verus!
