//! An anchor's copy of a channel's log: ciphertext and signed frames, and no secrets,
//! so that two members who are never online at the same time still converge.
//!
//! The copy holds what any peer can verify without a key: the genesis, the authors that
//! the board knows, and the entries. It is sealed at rest all the same, under a key
//! that comes from the anchor's own identity.

use vstd::prelude::*;

pub mod copy;
pub mod laws;
pub mod pass;
pub mod rest;

pub use copy::{AnchorState, StoredAnchor};
pub use pass::AnchorPass;

use crate::api::Secret;
use crate::cbor::{self, Cur, Decoder, Encoder, Tok};
use crate::channel::segments::{self, authors_bytes, parse_authors, AuthorsRead};
use crate::channel::state::{self, Genesis};
use crate::error::Error;
use crate::hash::Digest32;
use crate::identity::CompositePublicKey;
use crate::table::{self, Table};

verus! {

/// What separates an anchor's sealing key from every other use of the identity factor:
/// the ASCII bytes of `vox/anchor-log-sek/v1`.
pub const ANCHOR_SEK_INFO: [u8; 21] = [
    118,
    111,
    120,
    47,
    97,
    110,
    99,
    104,
    111,
    114,
    45,
    108,
    111,
    103,
    45,
    115,
    101,
    107,
    47,
    118,
    49,
];

/// The number of the segment that holds what is kept beside the log.
pub const SEG_META: u64 = 0;

/// The version of that segment's encoding.
pub const META_VERSION: u64 = 1;

// ---- the sealing key ---------------------------------------------------------

/// The error of `hkdf`'s expansion, which says that too many bytes were asked for.
#[verifier::external_type_specification]
#[verifier::external_body]
pub struct ExInvalidLength(hkdf::InvalidLength);

/// The first 32 bytes that HKDF-SHA256, without a salt, expands from `ikm` under `info`.
pub uninterp spec fn hkdf_sha256_of(ikm: Seq<u8>, info: Seq<u8>) -> Seq<u8>;

/// `hkdf::Hkdf::<sha2::Sha256>::new(None, ikm)` and its `expand(info, ..)` into 32
/// bytes. The result depends on the two arguments alone; the expansion fails only for
/// more than 255 blocks of 32 bytes, and one block is asked for.
#[verifier::external_body]
fn hkdf_sha256(ikm: &[u8], info: &[u8]) -> (r: Result<[u8; 32], hkdf::InvalidLength>)
    ensures
        r is Ok,
        r->Ok_0@ == hkdf_sha256_of(ikm@, info@),
{
    let mut okm = [0u8; 32];
    hkdf::Hkdf::<sha2::Sha256>::new(None, ikm).expand(info, &mut okm)?;
    Ok(okm)
}

/// The sealing key of the anchor's copy of a channel: the identity factor for that
/// channel, expanded under [`ANCHOR_SEK_INFO`]. The same factor gives the same key, so
/// a restart reopens its own pages.
pub fn anchor_sek(factor: Result<Secret, Error>) -> (r: Result<Secret, Error>)
    ensures
        match factor {
            Ok(f) => r is Ok && r->Ok_0@ == hkdf_sha256_of(f@, ANCHOR_SEK_INFO@),
            Err(e) => r == Err::<Secret, Error>(e),
        },
{
    let mut f: Secret = factor?;
    let key: [u8; 32] = match hkdf_sha256(f.as_slice(), ANCHOR_SEK_INFO.as_slice()) {
        Ok(k) => k,
        Err(_) => {
            return Err(Error::Argon2Failed);
        },
    };
    f.wipe();
    Ok(Secret::new(vstd::slice::slice_to_vec(key.as_slice())))
}

// ---- what is kept beside the log ---------------------------------------------

/// What the segment beside the log writes.
pub open spec fn meta_toks(genesis_wire: Seq<u8>, authors: Seq<u8>) -> Seq<Tok> {
    cbor::items().push(Tok::Array(3)).push(Tok::Uint(META_VERSION)).push(
        Tok::Bytes(genesis_wire),
    ).push(Tok::Bytes(authors))
}

/// The segment that holds the genesis and the authors.
pub fn meta_bytes(genesis: &Genesis, authors: &Table<Digest32, CompositePublicKey>) -> (b: Vec<u8>)
    ensures
        b@ == cbor::enc(
            meta_toks(
                genesis.wire@,
                cbor::enc(segments::authors_toks(segments::authors_view(authors.rows()))),
            ),
        ),
{
    let listed: Vec<u8> = authors_bytes(authors);
    let mut e = Encoder::new();
    e.array(3);
    e.uint(META_VERSION);
    e.bytes(genesis.wire.as_slice());
    e.bytes(listed.as_slice());
    e.finish()
}

/// The segment up to and with the genesis.
pub open spec fn meta_front(b: Seq<u8>) -> Cur {
    let c0 = Cur::at(b);
    let c1 = c0.array(cbor::raw()).check(
        c0.peek_array() == 3,
        segments::at_rest("anchor meta arity"),
    );
    c1.uint(cbor::raw()).check(
        c1.peek_uint() == META_VERSION,
        segments::at_rest("anchor meta version"),
    ).bytes(cbor::raw())
}

/// The segment up to and with the authors.
pub open spec fn meta_rest(b: Seq<u8>) -> Cur {
    meta_front(b).bytes(cbor::raw())
}

/// The bytes of the segment's item at `i`.
pub open spec fn meta_item(b: Seq<u8>, i: int) -> Seq<u8> {
    cbor::toks_of(b)[i]->Bytes_0
}

fn meta_start<'a>(d: &mut Decoder<'a>) -> (r: Result<&'a [u8], Error>)
    requires
        old(d).wf(),
        old(d).cur() == Cur::at(old(d).buffer()),
        old(d).seen() == cbor::items(),
    ensures
        final(d).wf(),
        final(d).buffer() == old(d).buffer(),
        match r {
            Ok(w) => {
                &&& final(d).cur() == meta_front(old(d).buffer())
                &&& final(d).seen() == cbor::items().push(Tok::Array(3)).push(
                    Tok::Uint(META_VERSION),
                ).push(Tok::Bytes(w@))
                &&& cbor::toks_of(old(d).buffer()).len() > 2
                &&& cbor::toks_of(old(d).buffer())[2] == Tok::Bytes(w@)
            },
            Err(e) => meta_front(old(d).buffer()).bad == Some(e),
        },
{
    if d.array(Error::Cbor("cbor"))? != 3 {
        return Err(Error::MalformedAtRest("anchor meta arity"));
    }
    if d.uint(Error::Cbor("cbor"))? != META_VERSION {
        return Err(Error::MalformedAtRest("anchor meta version"));
    }
    d.bytes(Error::Cbor("cbor"))
}

/// The genesis that the segment holds, in wire form.
pub fn meta_genesis(b: &[u8]) -> (r: Result<Vec<u8>, Error>)
    ensures
        match r {
            Ok(w) => {
                &&& meta_front(b@).bad is None
                &&& cbor::toks_of(b@).len() > 2
                &&& cbor::toks_of(b@)[2] == Tok::Bytes(w@)
            },
            Err(e) => meta_front(b@).bad == Some(e),
        },
{
    let mut d = Decoder::new(b);
    let w: &[u8] = meta_start(&mut d)?;
    Ok(vstd::slice::slice_to_vec(w))
}

/// The authors that the segment holds, in their own encoding.
pub fn meta_authors(b: &[u8]) -> (r: Result<Vec<u8>, Error>)
    ensures
        match r {
            Ok(w) => {
                &&& meta_rest(b@).bad is None
                &&& cbor::toks_of(b@).len() > 3
                &&& cbor::toks_of(b@)[3] == Tok::Bytes(w@)
            },
            Err(e) => meta_rest(b@).bad == Some(e),
        },
{
    let mut d = Decoder::new(b);
    meta_start(&mut d)?;
    let w: &[u8] = d.bytes(Error::Cbor("cbor"))?;
    Ok(vstd::slice::slice_to_vec(w))
}

/// What is wrong with the segment, given what its genesis decodes to, what was read of
/// its authors, and what their keys decode to.
pub open spec fn meta_fault(
    b: Seq<u8>,
    genesis: Result<Genesis, Error>,
    read: AuthorsRead,
    decoded: Seq<Result<CompositePublicKey, Error>>,
) -> Option<Error> {
    state::or_fault(
        meta_front(b).bad,
        state::or_fault(
            state::fault_in(genesis),
            state::or_fault(
                meta_rest(b).bad,
                state::or_fault(
                    segments::rows_fault(
                        read.rows@.len(),
                        segments::author_fault(read.rows@, decoded),
                        read.fault,
                    ),
                    meta_rest(b).end(cbor::raw()).bad,
                ),
            ),
        ),
    )
}

/// Reads the segment. `genesis` is what its genesis decodes to, `read` what was read of
/// its authors, and `decoded` what each of their keys decodes to.
pub fn parse_meta(
    b: &[u8],
    genesis: Result<Genesis, Error>,
    read: AuthorsRead,
    decoded: Vec<Result<CompositePublicKey, Error>>,
) -> (r: Result<(Genesis, Table<Digest32, CompositePublicKey>), Error>)
    requires
        decoded@.len() == read.rows@.len(),
        meta_rest(b@).bad is None ==> read.read_from(meta_item(b@, 3)),
    ensures
        match r {
            Ok((g, t)) => {
                &&& meta_fault(b@, genesis, read, decoded@) is None
                &&& genesis == Ok::<Genesis, Error>(g)
                &&& t.wf()
                &&& t.map() == table::map_of(segments::author_keys_of(read.rows@, decoded@))
                &&& t.rows().len() <= read.rows@.len()
                &&& segments::keys_decoded(decoded@) ==> state::keys_whole(t.map())
            },
            Err(e) => meta_fault(b@, genesis, read, decoded@) == Some(e),
        },
{
    let mut d = Decoder::new(b);
    meta_start(&mut d)?;
    let g: Genesis = genesis?;
    d.bytes(Error::Cbor("cbor"))?;
    let t: Table<Digest32, CompositePublicKey> = parse_authors(read, decoded)?;
    d.finish(Error::Cbor("cbor"))?;
    Ok((g, t))
}

/// The segment beside the log is read back as it was written: the genesis and the
/// authors come out again, and nothing is wrong with it.
pub proof fn law_meta_read_back(genesis_wire: Seq<u8>, authors: Seq<u8>)
    requires
        genesis_wire.len() <= u64::MAX,
        authors.len() <= u64::MAX,
    ensures
        meta_rest(cbor::enc(meta_toks(genesis_wire, authors))).end(cbor::raw()).bad is None,
        meta_item(cbor::enc(meta_toks(genesis_wire, authors)), 2) == genesis_wire,
        meta_item(cbor::enc(meta_toks(genesis_wire, authors)), 3) == authors,
{
    let ts = meta_toks(genesis_wire, authors);
    assert forall|i: int| 0 <= i < ts.len() implies cbor::encodable(#[trigger] ts[i]) by {}
    cbor::law_items_read_back(ts);
}

} // verus!
