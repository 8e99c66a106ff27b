//! Key delivery through members: a sender key sealed to one member and posted to the log,
//! where any member holds it for the recipient.
//!
//! The seal is a one-shot session against the recipient's published prekeys, so that a
//! package opens whenever it arrives. This module holds the package, its body on the wire,
//! and what a recipient's prekeys say of it.

use vstd::prelude::*;

use crate::cbor::{self, Cur, Decoder, Encoder, Tok};
use crate::error::Error;
use crate::hash::Digest32;
use crate::joinstream::exchange::{InitNames, OneTimeUse};

verus! {

/// The version of a package's body.
pub const KEY_PACKAGE_VERSION: u64 = 1;

/// The largest package that is parsed.
pub const MAX_KEY_PACKAGE: usize = 65536;

/// One sealed sender key for one member.
#[derive(Debug, PartialEq, Eq)]
pub struct KeyPackage {
    /// Who it is for.
    pub recipient: Digest32,
    /// The opening message of the one-shot session.
    pub initial: Vec<u8>,
    /// The first message of that session, whose plaintext is the sender key.
    pub sealed: Vec<u8>,
}

/// A struct-tagged frame, as far as it matters here.
#[derive(Debug, PartialEq, Eq)]
pub struct Framed {
    /// Whether its tag is that of a key package.
    pub key_package: bool,
    /// Its body.
    pub body: Vec<u8>,
}

/// What is wrong with `b` as the body of a package, or `None` where it is one.
pub open spec fn body_fault(b: Seq<u8>) -> Option<Error> {
    let c0 = Cur::at(b);
    let c1 = c0.array(cbor::raw()).check(
        c0.peek_array() == 4,
        Error::MalformedBundle("key-package arity"),
    );
    c1.uint(cbor::raw()).check(
        c1.peek_uint() == KEY_PACKAGE_VERSION,
        Error::MalformedBundle("key-package version"),
    ).digest(cbor::raw(), Error::MalformedBundle("key-package recipient")).bytes(
        cbor::raw(),
    ).bytes(cbor::raw()).end(cbor::raw()).bad
}

/// What is wrong with a framed package of this length, given what the frame parses to.
pub open spec fn package_fault(len: nat, parsed: Result<Framed, Error>) -> Option<Error> {
    if len > MAX_KEY_PACKAGE {
        Some(Error::SizeLimitExceeded("key-package"))
    } else {
        match parsed {
            Err(e) => Some(e),
            Ok(f) => if !f.key_package {
                Some(Error::MalformedBundle("not a key-package"))
            } else {
                body_fault(f.body@)
            },
        }
    }
}

impl KeyPackage {
    /// What the body of a package writes.
    pub open spec fn toks(&self) -> Seq<Tok> {
        cbor::items().push(Tok::Array(4)).push(Tok::Uint(KEY_PACKAGE_VERSION)).push(
            Tok::Bytes(self.recipient@),
        ).push(Tok::Bytes(self.initial@)).push(Tok::Bytes(self.sealed@))
    }

    /// Whether both are one package.
    pub open spec fn is_same(&self, other: &KeyPackage) -> bool {
        &&& self.recipient == other.recipient
        &&& self.initial@ == other.initial@
        &&& self.sealed@ == other.sealed@
    }

    /// The package for `recipient`: `initial` is the opening message of the session that
    /// was made against the recipient's prekeys, `sealed` the sender key sealed into it.
    pub fn seal(
        recipient: Digest32,
        initial: Result<Vec<u8>, Error>,
        sealed: Result<Vec<u8>, Error>,
    ) -> (r: Result<KeyPackage, Error>)
        ensures
            match r {
                Ok(p) => {
                    &&& p.recipient == recipient
                    &&& initial == Ok::<Vec<u8>, Error>(p.initial)
                    &&& sealed == Ok::<Vec<u8>, Error>(p.sealed)
                },
                Err(e) => match initial {
                    Err(x) => e == x,
                    Ok(_) => sealed == Err::<Vec<u8>, Error>(e),
                },
            },
    {
        let initial: Vec<u8> = initial?;
        let sealed: Vec<u8> = sealed?;
        Ok(KeyPackage { recipient, initial, sealed })
    }

    /// The body of the package. It goes into a struct-tagged frame with a key package's tag,
    /// which is what is posted.
    #[must_use]
    pub fn body(&self) -> (b: Vec<u8>)
        ensures
            b@ == cbor::enc(self.toks()),
    {
        let mut e = Encoder::new();
        e.array(4);
        e.uint(KEY_PACKAGE_VERSION);
        e.digest(&self.recipient);
        e.bytes(self.initial.as_slice());
        e.bytes(self.sealed.as_slice());
        e.finish()
    }

    /// Reads a framed package. `parsed` is what the frame parses to.
    pub fn from_wire(bytes: &[u8], parsed: Result<Framed, Error>) -> (r: Result<KeyPackage, Error>)
        ensures
            match r {
                Ok(p) => {
                    &&& package_fault(bytes@.len(), parsed) is None
                    &&& p.toks() == cbor::toks_of(parsed->Ok_0.body@)
                    &&& cbor::enc(p.toks()) == parsed->Ok_0.body@
                },
                Err(e) => package_fault(bytes@.len(), parsed) == Some(e),
            },
    {
        if bytes.len() > MAX_KEY_PACKAGE {
            return Err(Error::SizeLimitExceeded("key-package"));
        }
        let f: Framed = parsed?;
        if !f.key_package {
            return Err(Error::MalformedBundle("not a key-package"));
        }
        let mut d = Decoder::new(f.body.as_slice());
        if d.array(Error::Cbor("cbor"))? != 4 {
            return Err(Error::MalformedBundle("key-package arity"));
        }
        if d.uint(Error::Cbor("cbor"))? != KEY_PACKAGE_VERSION {
            return Err(Error::MalformedBundle("key-package version"));
        }
        let recipient: Digest32 = d.digest(
            Error::Cbor("cbor"),
            Error::MalformedBundle("key-package recipient"),
        )?;
        let initial: Vec<u8> = vstd::slice::slice_to_vec(d.bytes(Error::Cbor("cbor"))?);
        let sealed: Vec<u8> = vstd::slice::slice_to_vec(d.bytes(Error::Cbor("cbor"))?);
        d.finish(Error::Cbor("cbor"))?;
        let p: KeyPackage = KeyPackage { recipient, initial, sealed };
        assert(p.toks() =~= d.seen());
        Ok(p)
    }

    /// Whether a log entry's payload is a package, by its tag alone.
    #[must_use]
    pub fn is_key_package(parsed: &Result<Framed, Error>) -> (r: bool)
        ensures
            r == (match *parsed {
                Ok(f) => f.key_package,
                Err(_) => false,
            }),
    {
        match parsed {
            Ok(f) => f.key_package,
            Err(_) => false,
        }
    }
}

/// A package is read back as it was written.
pub proof fn law_key_package_read_back(p: KeyPackage)
    requires
        cbor::all_encodable(p.toks()),
    ensures
        body_fault(cbor::enc(p.toks())) is None,
        forall|q: KeyPackage| #[trigger]
            q.toks() == cbor::toks_of(cbor::enc(p.toks())) ==> q.is_same(&p),
{
    let ts = p.toks();
    cbor::law_items_read_back(ts);
    assert forall|q: KeyPackage| #[trigger] q.toks() == ts implies q.is_same(&p) by {
        assert(q.toks()[2] == ts[2]);
        assert(q.toks()[3] == ts[3]);
        assert(q.toks()[4] == ts[4]);
        crate::hash::lemma_digest_ext(q.recipient, p.recipient);
    }
}

/// Which of a recipient's prekeys open a package.
#[derive(Debug, PartialEq, Eq)]
pub struct RingUse {
    /// The signed prekey.
    pub signed: u64,
    /// The one-time prekey, where one is named.
    pub one_time: Option<u64>,
    /// Whether the one-time prekey was used before.
    pub reused: bool,
}

/// What a ring gives for a package: the prekeys that the opening message names, where it
/// holds them.
pub open spec fn ring_gives(
    init: Result<InitNames, Error>,
    used: OneTimeUse,
    signed: bool,
    r: Result<RingUse, Error>,
) -> bool {
    match (init, r) {
        (Err(x), Err(e)) => e == x,
        (Ok(n), Ok(u)) => {
            &&& signed
            &&& n.one_time_prekey_id is Some ==> used != OneTimeUse::Unknown
            &&& u.signed == n.signed_prekey_id
            &&& u.one_time == n.one_time_prekey_id
            &&& u.reused == (n.one_time_prekey_id is Some && used == OneTimeUse::Reused)
        },
        (Ok(n), Err(e)) => if n.one_time_prekey_id is Some && used == OneTimeUse::Unknown {
            e == Error::MalformedBundle(
                "key-package names a one-time prekey this ring never held",
            )
        } else {
            &&& !signed
            &&& e == Error::MalformedBundle(
                "key-package names a signed prekey this ring does not hold",
            )
        },
        _ => false,
    }
}

impl KeyPackage {
    /// The opening message, in wire form.
    pub fn initial_message(&self) -> (b: &[u8])
        ensures
            b@ == self.initial@,
    {
        self.initial.as_slice()
    }

    /// Which prekeys of a ring open a package, or why none do. `init` is what the opening
    /// message names, `used` what the ring says of the one-time prekey it names, and `signed`
    /// whether the ring holds the signed prekey it names. Nothing is kept of it.
    pub fn open_with_ring(init: Result<InitNames, Error>, used: OneTimeUse, signed: bool) -> (r: Result<
        RingUse,
        Error,
    >)
        ensures
            ring_gives(init, used, signed, r),
    {
        let n: InitNames = init?;
        let mut reused: bool = false;
        if n.one_time_prekey_id.is_some() {
            match used {
                OneTimeUse::Fresh => {},
                OneTimeUse::Reused => {
                    reused = true;
                },
                OneTimeUse::Unknown => {
                    return Err(
                        Error::MalformedBundle(
                            "key-package names a one-time prekey this ring never held",
                        ),
                    );
                },
            }
        }
        if !signed {
            return Err(
                Error::MalformedBundle("key-package names a signed prekey this ring does not hold"),
            );
        }
        Ok(RingUse { signed: n.signed_prekey_id, one_time: n.one_time_prekey_id, reused })
    }
}

/// What was sealed for a member reaches its ring: the package that is read names the member
/// and carries the opening message and the sealed key as they were; a ring that holds the
/// prekeys which the message names gives exactly those, and one that lacks any gives none.
/// That those prekeys open the seal is the session's own affair.
pub proof fn law_sealed_package_reaches_its_ring(
    recipient: Digest32,
    initial: Vec<u8>,
    sealed: Vec<u8>,
    p: KeyPackage,
    len: nat,
    frame: Framed,
    read: KeyPackage,
    names: InitNames,
    used: OneTimeUse,
    signed: bool,
    r: Result<RingUse, Error>,
)
    requires
        p == (KeyPackage { recipient, initial, sealed }),
        cbor::all_encodable(p.toks()),
        len <= MAX_KEY_PACKAGE,
        frame.key_package,
        frame.body@ == cbor::enc(p.toks()),
        read.toks() == cbor::toks_of(frame.body@),
        ring_gives(Ok::<InitNames, Error>(names), used, signed, r),
    ensures
        package_fault(len, Ok::<Framed, Error>(frame)) is None,
        read.recipient == recipient,
        read.initial@ == initial@,
        read.sealed@ == sealed@,
        r is Ok <==> signed && (names.one_time_prekey_id is Some ==> used != OneTimeUse::Unknown),
        r is Ok ==> r->Ok_0.signed == names.signed_prekey_id && r->Ok_0.one_time
            == names.one_time_prekey_id,
{
    law_key_package_read_back(p);
    assert(read.is_same(&p));
}

/// A ring opens a package exactly if its opening message decodes, the ring holds the signed
/// prekey that it names, and held the one-time prekey if it names one; that one was used
/// before is told, and is no reason to refuse.
pub proof fn law_ring_opens_exactly(
    init: Result<InitNames, Error>,
    used: OneTimeUse,
    signed: bool,
    r: Result<RingUse, Error>,
)
    requires
        ring_gives(init, used, signed, r),
    ensures
        r is Ok <==> {
            &&& init is Ok
            &&& signed
            &&& init->Ok_0.one_time_prekey_id is None || used == OneTimeUse::Fresh || used
                == OneTimeUse::Reused
        },
        r is Ok ==> {
            &&& r->Ok_0.signed == init->Ok_0.signed_prekey_id
            &&& r->Ok_0.one_time == init->Ok_0.one_time_prekey_id
            &&& r->Ok_0.reused <==> init->Ok_0.one_time_prekey_id is Some && used
                == OneTimeUse::Reused
        },
        init is Err ==> r == Err::<RingUse, Error>(init->Err_0),
{
}

/// A package is read exactly if it is short enough, its frame parses and is that of a
/// package, and its body is one; its length is looked at before anything in it.
pub proof fn law_package_is_read_exactly(len: nat, parsed: Result<Framed, Error>)
    ensures
        package_fault(len, parsed) is None <==> {
            &&& len <= MAX_KEY_PACKAGE
            &&& parsed is Ok
            &&& parsed->Ok_0.key_package
            &&& body_fault(parsed->Ok_0.body@) is None
        },
        len > MAX_KEY_PACKAGE ==> package_fault(len, parsed) == Some(
            Error::SizeLimitExceeded("key-package"),
        ),
{
}

} // verus!
