//! The plaintext content envelope that a channel message carries inside its
//! sender-key encryption.
//!
//! Canonical CBOR `[version, kind, created_millis, body]`, strictly decoded, with a
//! cap on the body.

use vstd::prelude::*;
use vstd::utf8::*;

use crate::cbor::{self, Cur, Decoder, Encoder, Tok};
use crate::error::Error;

verus! {

/// Envelope version whose timestamp is milliseconds.
pub const VERSION: u64 = 2;

/// Envelope version whose timestamp is seconds. Still decoded: a log is append-only.
pub const VERSION_SECONDS: u64 = 1;

/// Milliseconds per second.
pub const MILLIS_PER_SEC: u64 = 1000;

/// `kind` for a UTF-8 text message.
pub const KIND_TEXT: u64 = 1;

/// Maximum text body length in bytes (64 KiB).
pub const MAX_TEXT_LEN: usize = 65536;

/// A decoded content envelope.
#[derive(Debug, PartialEq, Eq)]
pub struct Content {
    /// Send time as the author recorded it, milliseconds since the Unix epoch.
    pub created_millis: u64,
    /// The message text.
    pub text: String,
}

impl Clone for Content {
    fn clone(&self) -> (r: Content)
        ensures
            r == *self,
    {
        Content { created_millis: self.created_millis, text: self.text.clone() }
    }
}

/// Whether a text is short enough for a message.
pub open spec fn text_fits(text: Seq<char>) -> bool {
    encode_utf8(text).len() <= MAX_TEXT_LEN
}

/// The items of an envelope.
pub open spec fn envelope_toks(version: u64, stamp: u64, text: Seq<char>) -> Seq<Tok> {
    cbor::items()
        .push(Tok::Array(4))
        .push(Tok::Uint(version))
        .push(Tok::Uint(KIND_TEXT))
        .push(Tok::Uint(stamp))
        .push(Tok::Text(text))
}

/// How many milliseconds one unit of a version's timestamp is.
pub open spec fn unit_of(version: u64) -> u64 {
    if version == VERSION_SECONDS {
        MILLIS_PER_SEC
    } else {
        1
    }
}

/// What is wrong with `b` as an envelope, or `None` where it is one.
pub open spec fn envelope_fault(b: Seq<u8>) -> Option<Error> {
    let c0 = Cur::at(b);
    let c1 = c0.array(cbor::raw()).check(
        c0.peek_array() == 4,
        Error::MalformedBundle("content envelope arity"),
    );
    let version = c1.peek_uint();
    let c2 = c1.uint(cbor::raw()).check(
        version == VERSION || version == VERSION_SECONDS,
        Error::MalformedBundle("content envelope version"),
    );
    let c3 = c2.uint(cbor::raw()).check(
        c2.peek_uint() == KIND_TEXT,
        Error::MalformedBundle("content envelope kind"),
    );
    let c4 = c3.uint(cbor::raw()).check(
        c3.peek_uint() * unit_of(version) <= u64::MAX,
        Error::MalformedBundle("content envelope timestamp"),
    );
    c4.text(cbor::raw()).check(
        text_fits(c4.peek_text()),
        Error::SizeLimitExceeded("message text"),
    ).end(cbor::raw()).bad
}

/// Whether `c` is what is read from an envelope with items `ts`: of either version, its
/// timestamp brought to milliseconds.
pub open spec fn envelope_read(c: Content, ts: Seq<Tok>) -> bool {
    ||| ts == envelope_toks(VERSION, c.created_millis, c.text@)
    ||| exists|secs: u64|
        c.created_millis == secs * MILLIS_PER_SEC && ts == #[trigger] envelope_toks(
            VERSION_SECONDS,
            secs,
            c.text@,
        )
}

impl Content {
    /// A text message. Fails if the text is over [`MAX_TEXT_LEN`].
    pub fn text(created_millis: u64, text: &str) -> (r: Result<Content, Error>)
        ensures
            match r {
                Ok(c) => text_fits(text@) && c.created_millis == created_millis && c.text@
                    == text@,
                Err(e) => !text_fits(text@) && e == Error::SizeLimitExceeded("message text"),
            },
    {
        if text.as_bytes().len() > MAX_TEXT_LEN {
            return Err(Error::SizeLimitExceeded("message text"));
        }
        Ok(Content { created_millis, text: text.to_owned() })
    }

    /// The envelope's bytes, always at the current version.
    #[must_use]
    pub fn to_canonical_vec(&self) -> (b: Vec<u8>)
        ensures
            b@ == cbor::enc(envelope_toks(VERSION, self.created_millis, self.text@)),
    {
        let mut e = Encoder::new();
        e.array(4);
        e.uint(VERSION);
        e.uint(KIND_TEXT);
        e.uint(self.created_millis);
        e.text(&self.text);
        e.finish()
    }

    /// Strict decode. A timestamp in seconds that does not fit in milliseconds is
    /// refused, not clamped.
    pub fn from_canonical_slice(bytes: &[u8]) -> (r: Result<Content, Error>)
        ensures
            match r {
                Ok(c) => {
                    &&& envelope_fault(bytes@) is None
                    &&& envelope_read(c, cbor::toks_of(bytes@))
                    &&& cbor::enc(cbor::toks_of(bytes@)) == bytes@
                    &&& text_fits(c.text@)
                },
                Err(e) => envelope_fault(bytes@) == Some(e),
            },
    {
        let mut d = Decoder::new(bytes);
        if d.array(Error::Cbor("cbor"))? != 4 {
            return Err(Error::MalformedBundle("content envelope arity"));
        }
        let version: u64 = d.uint(Error::Cbor("cbor"))?;
        let scale: u64 = if version == VERSION {
            1
        } else if version == VERSION_SECONDS {
            MILLIS_PER_SEC
        } else {
            return Err(Error::MalformedBundle("content envelope version"));
        };
        if d.uint(Error::Cbor("cbor"))? != KIND_TEXT {
            return Err(Error::MalformedBundle("content envelope kind"));
        }
        let stamp: u64 = d.uint(Error::Cbor("cbor"))?;
        let created_millis: u64 = match stamp.checked_mul(scale) {
            Some(m) => m,
            None => {
                return Err(Error::MalformedBundle("content envelope timestamp"));
            },
        };
        let text: String = d.text(Error::Cbor("cbor"))?;
        if text.as_str().as_bytes().len() > MAX_TEXT_LEN {
            return Err(Error::SizeLimitExceeded("message text"));
        }
        d.finish(Error::Cbor("cbor"))?;
        proof {
            if version == VERSION_SECONDS {
                assert(d.seen() == envelope_toks(VERSION_SECONDS, stamp, text@));
            }
        }
        Ok(Content { created_millis, text })
    }
}

/// A message that may be sent is read back as it was written, to the millisecond.
pub proof fn law_content_read_back(c: Content)
    requires
        text_fits(c.text@),
    ensures
        envelope_fault(cbor::enc(envelope_toks(VERSION, c.created_millis, c.text@))) is None,
        forall|s: Content| #[trigger]
            envelope_read(
                s,
                cbor::toks_of(cbor::enc(envelope_toks(VERSION, c.created_millis, c.text@))),
            ) ==> s.created_millis == c.created_millis && s.text@ == c.text@,
{
    let ts = envelope_toks(VERSION, c.created_millis, c.text@);
    assert(cbor::all_encodable(ts));
    cbor::law_items_read_back(ts);
    assert(ts[1] == Tok::Uint(VERSION));
    assert(ts[3] == Tok::Uint(c.created_millis));
    assert(ts[4] == Tok::Text(c.text@));
    assert forall|s: Content| #[trigger] envelope_read(s, cbor::toks_of(cbor::enc(ts))) implies
        s.created_millis == c.created_millis && s.text@ == c.text@ by {
        let us = envelope_toks(VERSION, s.created_millis, s.text@);
        if ts == us {
            assert(us[3] == Tok::Uint(s.created_millis));
            assert(us[4] == Tok::Text(s.text@));
        } else {
            let secs = choose|secs: u64|
                s.created_millis == secs * MILLIS_PER_SEC && ts == #[trigger] envelope_toks(
                    VERSION_SECONDS,
                    secs,
                    s.text@,
                );
            assert(envelope_toks(VERSION_SECONDS, secs, s.text@)[1] == Tok::Uint(VERSION_SECONDS));
        }
    }
}

/// An envelope whose timestamp is seconds is read as the same instant in milliseconds,
/// and refused exactly where that instant cannot be represented.
pub proof fn law_seconds_are_scaled(secs: u64, text: Seq<char>)
    requires
        text_fits(text),
    ensures
        envelope_fault(cbor::enc(envelope_toks(VERSION_SECONDS, secs, text))) == (if secs
            * MILLIS_PER_SEC <= u64::MAX {
            None::<Error>
        } else {
            Some(Error::MalformedBundle("content envelope timestamp"))
        }),
        forall|s: Content| #[trigger]
            envelope_read(s, envelope_toks(VERSION_SECONDS, secs, text)) ==> s.created_millis
                == secs * MILLIS_PER_SEC,
{
    let ts = envelope_toks(VERSION_SECONDS, secs, text);
    assert(cbor::all_encodable(ts));
    cbor::law_items_read_back(ts);
    assert(ts[1] == Tok::Uint(VERSION_SECONDS));
    assert(ts[3] == Tok::Uint(secs));
    assert forall|s: Content| #[trigger] envelope_read(s, ts) implies s.created_millis == secs
        * MILLIS_PER_SEC by {
        let us = envelope_toks(VERSION, s.created_millis, s.text@);
        if ts == us {
            assert(us[1] == Tok::Uint(VERSION));
        } else {
            let t = choose|t: u64|
                s.created_millis == t * MILLIS_PER_SEC && ts == #[trigger] envelope_toks(
                    VERSION_SECONDS,
                    t,
                    s.text@,
                );
            assert(envelope_toks(VERSION_SECONDS, t, s.text@)[3] == Tok::Uint(t));
        }
    }
}

/// A text may be sent exactly if it is no longer than 65536 bytes.
pub proof fn law_text_fits_exactly(text: Seq<char>)
    ensures
        text_fits(text) <==> encode_utf8(text).len() <= 65536,
        text.len() == 0 ==> text_fits(text),
{
}

/// An envelope with a longer text is refused, whichever version it is of.
pub proof fn law_long_text_is_refused(stamp: u64, text: Seq<char>)
    requires
        !text_fits(text),
        cbor::all_encodable(envelope_toks(VERSION, stamp, text)),
    ensures
        envelope_fault(cbor::enc(envelope_toks(VERSION, stamp, text))) == Some(
            Error::SizeLimitExceeded("message text"),
        ),
{
    let ts = envelope_toks(VERSION, stamp, text);
    cbor::law_items_read_back(ts);
    assert(ts[0] == Tok::Array(4));
    assert(ts[1] == Tok::Uint(VERSION));
    assert(ts[2] == Tok::Uint(KIND_TEXT));
    assert(ts[3] == Tok::Uint(stamp));
    assert(ts[4] == Tok::Text(text));
}

} // verus!
